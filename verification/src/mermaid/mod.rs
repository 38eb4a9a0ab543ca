//! Mermaid diagram support: kind detection, the flowchart subset parser, the
//! native terminal layout, and the choice between the native renderer, the
//! external `mmdc` command and the raw source.
pub mod ast;
pub mod detect;
pub mod grammar;
pub mod parser;
pub mod select;
pub mod image;
pub mod mmdc;
pub mod terminal;
