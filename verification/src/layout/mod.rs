//! Layout helpers: code-block options and language names, inline runs and
//! their wrapping, list markers, and table column allocation.
pub mod code;
pub mod inline;
pub mod list;
pub mod table;
