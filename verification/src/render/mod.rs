//! Terminal rendering: themes, render primitives and the ANSI serialisation
//! of a render tree. Nothing here knows about Markdown semantics; the
//! renderer only draws primitives.
pub mod theme;
pub mod primitives;
pub mod splice;
pub mod search;
pub mod ansi;
