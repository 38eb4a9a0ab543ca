//! Small shared helpers that do not belong to a specific layer:
//! character-sequence building, grapheme- and width-correct measurement and
//! slicing, and vertical/horizontal windowing of a render tree.
use vstd::prelude::*;

pub mod text;
pub mod unicode;
pub mod viewport;

verus! {

/// The character-cell size in pixels assumed when the terminal does not report
/// one, as `(width, height)`: a conventional 8x16 cell. The capability probe,
/// the image protocols and the diagram image geometry all fall back to it.
pub const DEFAULT_CELL_PIXELS: (u16, u16) = (8, 16);

} // verus!
