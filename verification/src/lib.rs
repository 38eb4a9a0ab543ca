//! `mdless`: the verified core of a terminal Markdown reader.
//!
//! * [`util`]: grapheme- and width-correct string measurement and slicing.
use vstd::prelude::*;

pub mod config;
pub mod layout;
pub mod mermaid;
pub mod render;
pub mod terminal;
pub mod util;

verus! {

} // verus!
