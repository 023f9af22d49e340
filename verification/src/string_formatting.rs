//! A string with the pivot it is written from.
use vstd::prelude::*;

use crate::pivot::Pivot;

verus! {

/// A string and the pivot that positions it.
pub struct StringFormatter<'a> {
    pivot: Pivot,
    string: &'a str,
}

impl<'a> StringFormatter<'a> {
    pub fn new(pivot: Pivot, string: &'a str) -> (r: Self)
        ensures
            r.pivot() == pivot,
            r.string() == string,
    {
        StringFormatter { pivot, string }
    }

    pub closed spec fn pivot(&self) -> Pivot {
        self.pivot
    }

    pub closed spec fn string(&self) -> &'a str {
        self.string
    }

    /// Set the pivot that the string is written from.
    pub fn from_pivot(&mut self, alignment: Pivot)
        ensures
            final(self).pivot() == alignment,
            final(self).string() == old(self).string(),
    {
        self.pivot = alignment;
    }
}

} // verus!
