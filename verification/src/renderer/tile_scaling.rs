//! How terminal mesh tiles are scaled.
use vstd::prelude::*;

verus! {

/// How terminal mesh tiles will be scaled.
#[derive(Debug, Clone, Copy, PartialEq, Eq, Structural)]
pub enum TileScaling {
    /// Each tile will take up 1 unit of world space vertically. This is the default setting.
    World,
    /// Scale terminal tiles based on the size of their texture.
    ///
    /// With this setting, 1 pixel == 1 world unit.
    Pixels,
}

} // verus!
