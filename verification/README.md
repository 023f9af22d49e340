# ascii_terminal

A grid of colored text tiles for drawing ascii art, with strings that can be
wrapped, aligned by a pivot and colored by embedded `<fg=..>`/`<bg=..>` tags,
and REXPaint images that can be read into a terminal.

- `src/` is the verified library (Verus). Each public function states in its
  `ensures` what it returns or changes, over spec functions and the views of
  its types (`Terminal` is viewed as a `TerminalView`: size, tiles, clear tile,
  pivot and padding). `src/laws.rs` holds the properties that relate several
  operations, proved as proof functions.
- `src/terminal/` holds the terminal: tiles and positions (`mod.rs`), strings
  (`put.rs`), boxes and borders (`draw.rs`), rows, columns and rectangles
  (`iter.rs`), building from text (`text.rs`) and from REXPaint images
  (`rexpaint.rs`).
- `src/strings/` holds wrapping (`wrap.rs` by bytes, `grid_string.rs` by
  characters, `tagged_string.rs` for tagged strings), the tag tokenizer, the
  layout and grid iterators and the string formatting builders.
- `src/rex/` reads REXPaint `.xp` files (gzip via `flate2`, little endian
  integers via `byteorder`).
- `app/` is ordinary Rust: reading files, printing to the console, the
  progress bars whose fill is computed with floating point numbers, color
  conversion to bevy and the system sets and components of bevy's schedule.
- `tests/` runs the library on concrete values.
