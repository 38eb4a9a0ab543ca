//! The enumerated configuration settings.
use vstd::prelude::*;
use crate::util::text::to_owned;

verus! {

/// `color`: whether output is coloured.
#[derive(Debug, Clone, Copy, PartialEq, Eq, Structural)]
pub enum ColorMode {
    /// Decide from the terminal.
    Auto,
    /// Colour even when the terminal gives no evidence for it.
    Always,
    /// Never colour.
    Never,
}

/// `links.osc8`: whether OSC 8 hyperlinks are emitted.
#[derive(Debug, Clone, Copy, PartialEq, Eq, Structural)]
pub enum Osc8Mode {
    /// Decide from the terminal.
    Auto,
    /// Always emit hyperlinks.
    Always,
    /// Never emit hyperlinks.
    Never,
}

/// `mermaid.images`: whether diagrams may be drawn as terminal images.
#[derive(Debug, Clone, Copy, PartialEq, Eq, Structural)]
pub enum ImageMode {
    /// Use an image protocol when the terminal has one.
    Auto,
    /// Assume an image protocol is usable.
    Always,
    /// Never draw images.
    Never,
}

/// `table.mode`: how tables wider than the viewport are laid out.
#[derive(Debug, Clone, Copy, PartialEq, Eq, Structural)]
pub enum TableMode {
    /// Shrink columns to fit, wrapping cells.
    Auto,
    /// Keep preferred widths and scroll horizontally.
    Scroll,
    /// Always wrap cells to fit.
    Wrap,
    /// Fit with compact borders.
    Compact,
}

/// `mermaid.backend`: which renderer draws Mermaid diagrams.
#[derive(Debug, Clone, Copy, PartialEq, Eq, Structural)]
pub enum MermaidBackend {
    /// The fallback matrix decides per diagram.
    Auto,
    /// Always the native terminal renderer.
    Terminal,
    /// Always the external `mmdc` command.
    Mmdc,
    /// Always the raw source.
    Source,
}

/// The `[mermaid]` section of the configuration.
#[derive(Debug, Clone, PartialEq, Eq)]
pub struct MermaidConfig {
    /// Which renderer draws diagrams.
    pub backend: MermaidBackend,
    /// Whether diagrams may be drawn as images.
    pub images: ImageMode,
    /// The `mmdc` command to run.
    pub mmdc_command: String,
}

impl Default for MermaidConfig {
    fn default() -> (c: Self)
        ensures
            c.backend == MermaidBackend::Auto,
            c.images == ImageMode::Auto,
            c.mmdc_command@ == "mmdc"@,
    {
        MermaidConfig { backend: MermaidBackend::Auto, images: ImageMode::Auto, mmdc_command: to_owned("mmdc") }
    }
}

} // verus!
