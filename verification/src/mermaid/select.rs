//! Backend selection implementing the Mermaid fallback matrix.
//!
//! | condition | result |
//! |---|---|
//! | native renderer supports the diagram | native terminal rendering |
//! | native unsupported, `mmdc` available, image protocol supported | `mmdc` + terminal image |
//! | native unsupported, `mmdc` available, no image protocol | source rendering + external-open action |
//! | `mmdc` unavailable | source rendering |
//! | render process fails | source rendering + non-fatal warning |
//!
//! The first four rows are the pure decision table [`decide`]; the last is
//! applied while rendering, because a failure can only be observed then.
//!
//! Running `mmdc` is outside work: a backend first *plans* a block, which
//! either finishes it ([`RenderStep::Done`]) or asks for an `mmdc` run
//! ([`RenderStep::RunMmdc`]); the caller runs the command and *completes*
//! the block with the outcome.
use vstd::prelude::*;
use crate::config::schema::{ImageMode, MermaidBackend, MermaidConfig};
use crate::mermaid::detect::{diagram_kind, kind_spec};
use crate::mermaid::image::{ImageData, cell_size_spec};
use crate::mermaid::ast::{Diagram, diagram_wf};
use crate::mermaid::grammar::{diagram_v, not_flowchart_message, parse_spec};
use crate::mermaid::parser::parse;
use crate::mermaid::terminal::{self, NativeError, RenderOptions, diagram_fits, render_spec, strings_view};
use crate::util::text::{decimal, lines, lines_of, string_of, to_owned, trim_end, trim_end_chars};

verus! {

/// Marker the application shows for a diagram that could not be rendered.
pub const UNRENDERABLE_MARKER: &'static str = "[Mermaid diagram could not be rendered]";

/// A fenced Mermaid block of a document.
#[derive(Debug, Clone, PartialEq, Eq)]
pub struct MermaidBlock {
    /// The diagram source, without the fences.
    pub source: String,
}

/// Terminal image protocol available to the caller.
#[derive(Debug, Clone, Copy, PartialEq, Eq, Structural)]
pub enum ImageCapability {
    /// No inline image protocol.
    NoImage,
    /// Kitty graphics protocol.
    Kitty,
    /// DEC Sixel.
    Sixel,
    /// iTerm2 inline images (OSC 1337).
    Iterm2,
}

impl Default for ImageCapability {
    fn default() -> (c: Self)
        ensures
            c == ImageCapability::NoImage,
    {
        ImageCapability::NoImage
    }
}

impl ImageCapability {
    /// `true` for anything but [`ImageCapability::NoImage`].
    pub fn is_supported(self) -> (b: bool)
        ensures
            b == (self != ImageCapability::NoImage),
    {
        !matches!(self, ImageCapability::NoImage)
    }
}

/// Everything the Mermaid module needs to know about the render target.
#[derive(Debug, PartialEq, Eq)]
pub struct RenderEnvironment {
    /// Inline image protocol supported by the terminal.
    pub images: ImageCapability,
    /// Whether the configured `mmdc` command was found.
    pub mmdc_available: bool,
    /// Whether box-drawing characters may be used (ASCII otherwise).
    pub unicode_box: bool,
    /// Available width in terminal columns.
    pub width_cells: usize,
    /// Pixel size of one character cell, `(width, height)`.
    pub cell_pixels: (u16, u16),
}

impl Default for RenderEnvironment {
    fn default() -> (e: Self)
        ensures
            e.images == ImageCapability::NoImage,
            !e.mmdc_available,
            e.unicode_box,
            e.width_cells == 80,
            e.cell_pixels == (8u16, 16u16),
    {
        RenderEnvironment {
            images: ImageCapability::NoImage,
            mmdc_available: false,
            unicode_box: true,
            width_cells: 80,
            cell_pixels: (8, 16),
        }
    }
}

/// What a backend produced for one Mermaid block.
#[derive(Debug, PartialEq, Eq)]
pub enum MermaidOutput {
    /// Natively rendered diagram lines, all padded to the same width.
    Text(Vec<String>),
    /// A rendered image plus the `(cols, rows)` cell box it should occupy.
    Image(ImageData, (u16, u16)),
    /// The diagram source, to be shown verbatim.
    Source(Vec<String>),
}

/// A backend result: the output plus a non-fatal warning channel.
#[derive(Debug, PartialEq, Eq)]
pub struct MermaidRender {
    /// The rendered output.
    pub output: MermaidOutput,
    /// Non-fatal diagnostic: the application shows [`UNRENDERABLE_MARKER`]
    /// with it, and never aborts the surrounding document.
    pub warning: Option<String>,
    /// `true` for the matrix row "no image protocol": the application may
    /// offer to open the diagram externally.
    pub external_open: bool,
}

/// The display lines of a diagram source: its lines, trailing white space
/// removed.
pub open spec fn source_lines_spec(source: Seq<char>) -> Seq<Seq<char>> {
    lines_of(source).map_values(|l: Seq<char>| trim_end(l))
}

/// The lines of a source-fallback output.
pub open spec fn shows_source(out: MermaidOutput, source: Seq<char>) -> bool {
    out matches MermaidOutput::Source(ls) && ls@.map_values(|l: String| l@) == source_lines_spec(source)
}

/// A source fallback with warning `warning`.
pub open spec fn is_fallback(r: MermaidRender, source: Seq<char>, warning: Seq<char>, external_open: bool) -> bool {
    &&& shows_source(r.output, source)
    &&& r.warning matches Some(w) && w@ == warning
    &&& r.external_open == external_open
}

impl MermaidRender {
    /// A plain result without a warning.
    pub fn ok(output: MermaidOutput) -> (r: Self)
        ensures
            r.output == output,
            r.warning is None,
            !r.external_open,
    {
        MermaidRender { output, warning: None, external_open: false }
    }

    /// Source fallback carrying a non-fatal warning.
    pub fn fallback(source: &str, warning: &str) -> (r: Self)
        ensures
            is_fallback(r, source@, warning@, false),
    {
        MermaidRender { output: MermaidOutput::Source(source_lines(source)), warning: Some(to_owned(warning)), external_open: false }
    }
}

/// Splits a diagram source into display lines (trailing white space
/// removed).
pub fn source_lines(source: &str) -> (out: Vec<String>)
    ensures
        out@.map_values(|l: String| l@) == source_lines_spec(source@),
{
    let ls = lines(source);
    let ghost all = ls@.map_values(|l: Vec<char>| l@);
    let mut out: Vec<String> = Vec::new();
    let mut i: usize = 0;
    while i < ls.len()
        invariant
            i <= ls@.len(),
            all == ls@.map_values(|l: Vec<char>| l@),
            out@.len() == i,
            forall|k: int| 0 <= k < i ==> (#[trigger] out@[k])@ == trim_end(all[k]),
        decreases ls@.len() - i,
    {
        let t = trim_end_chars(ls[i].as_slice());
        out.push(string_of(t.as_slice()));
        assert(all[i as int] == ls@[i as int]@);
        i += 1;
    }
    assert(out@.map_values(|l: String| l@) =~= all.map_values(|l: Seq<char>| trim_end(l)));
    out
}

// ---------------------------------------------------------------------------
// The decision table
// ---------------------------------------------------------------------------

/// Inputs of the decision table.
#[derive(Debug, Clone, Copy, PartialEq, Eq, Structural)]
pub struct Situation {
    /// The native renderer can draw this diagram.
    pub native_supported: bool,
    /// `mmdc` is available.
    pub mmdc_available: bool,
    /// A terminal image protocol may be used.
    pub image_protocol: bool,
}

/// Result of the decision table.
#[derive(Debug, Clone, Copy, PartialEq, Eq, Structural)]
pub enum Strategy {
    /// Native terminal rendering.
    Native,
    /// `mmdc` render shown as a terminal image.
    MmdcImage,
    /// Source rendering, plus an optional external-open action.
    SourceWithExternalOpen,
    /// Plain source rendering.
    Source,
}

/// The fallback matrix.
pub open spec fn decide_spec(s: Situation) -> Strategy {
    if s.native_supported {
        Strategy::Native
    } else if s.mmdc_available {
        if s.image_protocol {
            Strategy::MmdcImage
        } else {
            Strategy::SourceWithExternalOpen
        }
    } else {
        Strategy::Source
    }
}

/// The fallback matrix as a function (rows 1 to 4).
pub fn decide(s: Situation) -> (st: Strategy)
    ensures
        st == decide_spec(s),
{
    if s.native_supported {
        Strategy::Native
    } else if s.mmdc_available {
        if s.image_protocol {
            Strategy::MmdcImage
        } else {
            Strategy::SourceWithExternalOpen
        }
    } else {
        Strategy::Source
    }
}

// ---------------------------------------------------------------------------
// Backends
// ---------------------------------------------------------------------------

/// What a backend does next with a block.
#[derive(Debug, PartialEq, Eq)]
pub enum RenderStep {
    /// The block is rendered.
    Done(MermaidRender),
    /// Run `command` on `source` for an image `width_px` pixels wide, then
    /// complete the block with the outcome.
    RunMmdc {
        /// The `mmdc` command.
        command: String,
        /// The diagram source.
        source: String,
        /// Requested image width in pixels.
        width_px: u32,
    },
}

/// Renders Mermaid blocks: [`MermaidRenderer::plan`] finishes a block or
/// asks for an `mmdc` run, whose outcome (the image, or the error's message)
/// [`MermaidRenderer::complete`] turns into the result. Neither ever fails:
/// an unrenderable diagram gives its source plus a warning.
pub trait MermaidRenderer {
    /// The first step for `block` in a viewport `width` columns wide.
    fn plan(&self, block: &MermaidBlock, width: usize) -> RenderStep;

    /// The result for `block` once the requested `mmdc` run gave `outcome`.
    fn complete(&self, block: &MermaidBlock, width: usize, outcome: Result<ImageData, String>) -> MermaidRender;
}

/// Shows the diagram source verbatim (`backend = "source"`).
#[derive(Debug, Clone)]
pub struct SourceRenderer;

impl SourceRenderer {
    /// The source, without a warning.
    pub fn render_source(&self, block: &MermaidBlock) -> (r: MermaidRender)
        ensures
            shows_source(r.output, block.source@),
            r.warning is None,
            !r.external_open,
    {
        MermaidRender::ok(MermaidOutput::Source(source_lines(block.source.as_str())))
    }
}

/// What the source backend gives: the source, without a warning.
pub open spec fn source_result(r: MermaidRender, source: Seq<char>) -> bool {
    &&& shows_source(r.output, source)
    &&& r.warning is None
    &&& !r.external_open
}

impl MermaidRenderer for SourceRenderer {
    fn plan(&self, block: &MermaidBlock, width: usize) -> (s: RenderStep)
        ensures
            s matches RenderStep::Done(r) && source_result(r, block.source@),
    {
        RenderStep::Done(self.render_source(block))
    }

    fn complete(&self, block: &MermaidBlock, width: usize, outcome: Result<ImageData, String>) -> (r: MermaidRender)
        ensures
            source_result(r, block.source@),
    {
        self.render_source(block)
    }
}

/// Native terminal rendering (`backend = "terminal"`).
#[derive(Debug, Clone)]
pub struct TerminalRenderer {
    pub unicode_box: bool,
    pub max_label_width: usize,
}

/// The text of a parse error at line `l`, column `c`.
pub open spec fn parse_error_text(l: int, c: int, m: Seq<char>) -> Seq<char> {
    "mermaid: line "@ + decimal(l as nat) + ", column "@ + decimal(c as nat) + ": "@ + m
}

/// The text of a drawing error.
pub open spec fn native_error_text(e: NativeError) -> Seq<char> {
    match e {
        NativeError::Empty => "the diagram contains no nodes"@,
        NativeError::TooWide { needed, available } => "diagram needs "@ + decimal(needed as nat)
            + " columns but only "@ + decimal(available as nat) + " are available"@,
    }
}

/// What drawing the parsed diagram `d` gives: refused when a label or note
/// is too long to lay out, else the lines [`terminal::render`] gives or its
/// error's text.
pub open spec fn drawn(d: Diagram, opts: RenderOptions) -> Result<Seq<Seq<char>>, Seq<char>> {
    if !diagram_fits(d) {
        Err("diagram labels are too long to lay out"@)
    } else {
        match render_spec(d, opts) {
            Ok(ls) => Ok(ls),
            Err(e) => Err(native_error_text(e)),
        }
    }
}

/// Lines or message, by their views.
pub open spec fn outcome_v(t: Result<Vec<String>, String>) -> Result<Seq<Seq<char>>, Seq<char>> {
    match t {
        Ok(lines) => Ok(strings_view(lines@)),
        Err(m) => Err(m@),
    }
}

/// `t` is what drawing `d` gives.
pub open spec fn draw_outcome(d: Diagram, opts: RenderOptions, t: Result<Vec<String>, String>) -> bool {
    outcome_v(t) == drawn(d, opts)
}

/// `r` shows the native outcome `o`: the drawn lines without a warning, or
/// the source with the message as warning.
pub open spec fn shows_outcome(r: MermaidRender, source: Seq<char>, o: Result<Seq<Seq<char>>, Seq<char>>, external_open: bool) -> bool {
    match o {
        Ok(ls) => r.output matches MermaidOutput::Text(lines) && strings_view(lines@) == ls && r.warning is None
            && !r.external_open,
        Err(m) => is_fallback(r, source, m, external_open),
    }
}

/// The native rendering of `source` with `opts`: a diagram that is not a
/// flowchart, or does not parse, gives the source with the error's text;
/// a parsed flowchart `d` gives what drawing it gives. `external_open` is
/// the hint a failure carries.
pub open spec fn native_spec(r: MermaidRender, source: Seq<char>, opts: RenderOptions, external_open: bool) -> bool {
    if kind_spec(source).0 != 0 {
        shows_outcome(r, source, Err(parse_error_text(1, 1, not_flowchart_message(kind_spec(source)))), external_open)
    } else {
        match parse_spec(source) {
            Err((l, c, m)) => shows_outcome(r, source, Err(parse_error_text(l, c, m)), external_open),
            Ok(dv) => exists|d: Diagram| #[trigger] diagram_v(d) == dv && d.orientation == kind_spec(source).1
                && diagram_wf(d) && shows_outcome(r, source, drawn(d, opts), external_open),
        }
    }
}

/// The native attempt on `source` fails: not a flowchart, a parse error,
/// or a drawing error.
pub open spec fn native_fails(source: Seq<char>, opts: RenderOptions) -> bool {
    if kind_spec(source).0 != 0 {
        true
    } else {
        match parse_spec(source) {
            Err(_) => true,
            Ok(dv) => exists|d: Diagram| #[trigger] diagram_v(d) == dv && d.orientation == kind_spec(source).1
                && diagram_wf(d) && drawn(d, opts) is Err,
        }
    }
}

/// A native rendering that carries a warning is a failed attempt.
pub proof fn lemma_warning_means_failure(r: MermaidRender, source: Seq<char>, opts: RenderOptions, external_open: bool)
    requires
        native_spec(r, source, opts, external_open),
        r.warning is Some,
    ensures
        native_fails(source, opts),
{
    if kind_spec(source).0 == 0 {
        if let Ok(dv) = parse_spec(source) {
            let d = choose|d: Diagram| #[trigger] diagram_v(d) == dv && d.orientation == kind_spec(source).1
                && diagram_wf(d) && shows_outcome(r, source, drawn(d, opts), external_open);
            assert(drawn(d, opts) is Err);
        }
    }
}

impl TerminalRenderer {
    /// A native renderer for the given environment, wrapping labels at 32
    /// cells.
    pub fn new(env: &RenderEnvironment) -> (r: Self)
        ensures
            r.unicode_box == env.unicode_box,
            r.max_label_width == 32,
    {
        TerminalRenderer { unicode_box: env.unicode_box, max_label_width: 32 }
    }

    /// The drawing options for a viewport `width` columns wide.
    pub open spec fn opts_for(&self, width: usize) -> RenderOptions {
        RenderOptions { width_cells: width, unicode_box: self.unicode_box, max_label_width: self.max_label_width }
    }

    /// Parses and draws `source` for `width` columns, or the message of the
    /// error that stopped it.
    fn try_render(&self, source: &str, width: usize) -> (r: Result<Vec<String>, String>)
        ensures
            kind_spec(source@).0 != 0 ==> (r matches Err(m) && m@ == parse_error_text(
                1,
                1,
                not_flowchart_message(kind_spec(source@)),
            )),
            kind_spec(source@).0 == 0 ==> match parse_spec(source@) {
                Err((l, c, m)) => r matches Err(msg) && msg@ == parse_error_text(l, c, m),
                Ok(dv) => exists|d: Diagram| #[trigger] diagram_v(d) == dv && d.orientation == kind_spec(source@).1
                    && diagram_wf(d) && draw_outcome(d, self.opts_for(width), r),
            },
    {
        let diagram = match parse(source) {
            Ok(d) => d,
            Err(e) => return Err(e.describe()),
        };
        let opts = RenderOptions { width_cells: width, unicode_box: self.unicode_box, max_label_width: self.max_label_width };
        if !terminal::check_fits(&diagram) {
            proof {
                reveal_strlit("diagram labels are too long to lay out");
            }
            let r = Err(to_owned("diagram labels are too long to lay out"));
            assert(draw_outcome(diagram, opts, r));
            return r;
        }
        let r = match terminal::render(&diagram, &opts) {
            Ok(lines) => Ok(lines),
            Err(e) => Err(e.describe()),
        };
        assert(draw_outcome(diagram, opts, r));
        r
    }

    /// The native rendering of `block`: the drawn lines, or on failure the
    /// source plus the error's message.
    pub fn render_native(&self, block: &MermaidBlock, width: usize) -> (r: MermaidRender)
        ensures
            native_spec(r, block.source@, self.opts_for(width), false),
    {
        let t = self.try_render(block.source.as_str(), width);
        let ghost tg = t;
        let r = match t {
            Ok(lines) => MermaidRender::ok(MermaidOutput::Text(lines)),
            Err(message) => MermaidRender::fallback(block.source.as_str(), message.as_str()),
        };
        proof {
            let source = block.source@;
            assert(shows_outcome(r, source, outcome_v(tg), false));
            if kind_spec(source).0 == 0 {
                if let Ok(dv) = parse_spec(source) {
                    let d = choose|d: Diagram| #[trigger] diagram_v(d) == dv && d.orientation == kind_spec(source).1
                        && diagram_wf(d) && draw_outcome(d, self.opts_for(width), tg);
                    assert(diagram_v(d) == dv);
                }
            }
        }
        r
    }
}

impl MermaidRenderer for TerminalRenderer {
    fn plan(&self, block: &MermaidBlock, width: usize) -> (s: RenderStep)
        ensures
            s matches RenderStep::Done(r) && native_spec(r, block.source@, self.opts_for(width), false),
    {
        RenderStep::Done(self.render_native(block, width))
    }

    fn complete(&self, block: &MermaidBlock, width: usize, outcome: Result<ImageData, String>) -> (r: MermaidRender)
        ensures
            native_spec(r, block.source@, self.opts_for(width), false),
    {
        self.render_native(block, width)
    }
}

/// `mmdc` rendering shown as a terminal image (`backend = "mmdc"`).
#[derive(Debug)]
pub struct MmdcRenderer {
    /// The `mmdc` command.
    pub command: String,
    /// Pixel size of one character cell.
    pub cell_pixels: (u16, u16),
    /// `false` when `images = "never"` or no protocol is available.
    pub images_allowed: bool,
}

/// The image width requested from `mmdc`: the viewport's columns (at least
/// one; 80 when they do not fit in 32 bits) times the cell width (8 when
/// unknown), kept between 200 and 4000 pixels.
pub open spec fn mmdc_width_px(width: usize, cell_w: u16) -> u32 {
    let cw: int = if cell_w == 0 { 8 } else { cell_w as int };
    let cols: int = if width < 1 { 1 } else if width > u32::MAX { 80 } else { width as int };
    let px: int = if cols * cw > u32::MAX { u32::MAX as int } else { cols * cw };
    (if px < 200 { 200 } else if px > 4000 { 4000 } else { px }) as u32
}

/// The warning when `mmdc` could render but no image can be shown.
pub open spec fn no_protocol_warning() -> Seq<char> {
    "no terminal image protocol available for the mmdc-rendered diagram"@
}

impl MmdcRenderer {
    /// An `mmdc` backend.
    pub fn new(cfg: &MermaidConfig, env: &RenderEnvironment, images_allowed: bool) -> (r: Self)
        ensures
            r.command@ == cfg.mmdc_command@,
            r.cell_pixels == env.cell_pixels,
            r.images_allowed == images_allowed,
    {
        MmdcRenderer { command: to_owned(cfg.mmdc_command.as_str()), cell_pixels: env.cell_pixels, images_allowed }
    }

    /// The image width to request for a viewport `width` columns wide.
    pub fn width_px(&self, width: usize) -> (px: u32)
        ensures
            px == mmdc_width_px(width, self.cell_pixels.0),
    {
        let cw: u32 = if self.cell_pixels.0 == 0 { 8 } else { self.cell_pixels.0 as u32 };
        let cols: u32 = if width < 1 { 1 } else if width > 0xffff_ffff { 80 } else { width as u32 };
        let px: u32 = match cols.checked_mul(cw) {
            Some(p) => p,
            None => 0xffff_ffff,
        };
        if px < 200 { 200 } else if px > 4000 { 4000 } else { px }
    }

    /// The first step for a block with `source`: without images, the source
    /// plus a warning and the external-open hint; otherwise an `mmdc` run.
    pub open spec fn plan_mmdc_spec(&self, source: Seq<char>, width: usize, s: RenderStep) -> bool {
        &&& !self.images_allowed ==> (s matches RenderStep::Done(r) && is_fallback(r, source, no_protocol_warning(), true))
        &&& self.images_allowed ==> (s matches RenderStep::RunMmdc { command, source: src, width_px }
            && command@ == self.command@ && src@ == source && width_px == mmdc_width_px(width, self.cell_pixels.0))
    }

    /// The first step: without images, the source plus a warning and the
    /// external-open hint; otherwise an `mmdc` run.
    pub fn plan_mmdc(&self, block: &MermaidBlock, width: usize) -> (s: RenderStep)
        ensures
            self.plan_mmdc_spec(block.source@, width, s),
    {
        if !self.images_allowed {
            let mut r = MermaidRender::fallback(
                block.source.as_str(),
                "no terminal image protocol available for the mmdc-rendered diagram",
            );
            r.external_open = true;
            return RenderStep::Done(r);
        }
        RenderStep::RunMmdc {
            command: to_owned(self.command.as_str()),
            source: to_owned(block.source.as_str()),
            width_px: self.width_px(width),
        }
    }

    /// The result for a block with `source` once `mmdc` gave `outcome`.
    pub open spec fn complete_mmdc_spec(&self, source: Seq<char>, width: usize, outcome: Result<ImageData, String>, r: MermaidRender) -> bool {
        match outcome {
            Ok(data) => r.warning is None && !r.external_open && (r.output matches MermaidOutput::Image(d, cells)
                && d == data && cells == cell_size_spec(data.width_px, data.height_px, self.cell_pixels, width)),
            Err(m) => is_fallback(r, source, m@, false),
        }
    }

    /// The result of an `mmdc` run: the image in its cell box, or the source
    /// plus the error's message.
    pub fn complete_mmdc(&self, block: &MermaidBlock, width: usize, outcome: Result<ImageData, String>) -> (r: MermaidRender)
        ensures
            self.complete_mmdc_spec(block.source@, width, outcome, r),
    {
        match outcome {
            Ok(data) => {
                let cells = data.cell_size(self.cell_pixels, width);
                MermaidRender::ok(MermaidOutput::Image(data, cells))
            },
            Err(message) => MermaidRender::fallback(block.source.as_str(), message.as_str()),
        }
    }
}

impl MermaidRenderer for MmdcRenderer {
    fn plan(&self, block: &MermaidBlock, width: usize) -> (s: RenderStep)
        ensures
            self.plan_mmdc_spec(block.source@, width, s),
    {
        self.plan_mmdc(block, width)
    }

    fn complete(&self, block: &MermaidBlock, width: usize, outcome: Result<ImageData, String>) -> (r: MermaidRender)
        ensures
            !self.images_allowed ==> is_fallback(r, block.source@, no_protocol_warning(), true),
            self.images_allowed ==> self.complete_mmdc_spec(block.source@, width, outcome, r),
    {
        if !self.images_allowed {
            let mut r = MermaidRender::fallback(
                block.source.as_str(),
                "no terminal image protocol available for the mmdc-rendered diagram",
            );
            r.external_open = true;
            return r;
        }
        self.complete_mmdc(block, width, outcome)
    }
}

/// Automatic backend (`backend = "auto"`): the decision table per diagram,
/// falling back to the source with a warning whenever a step fails.
#[derive(Debug)]
pub struct AutoRenderer {
    pub native: TerminalRenderer,
    pub mmdc: MmdcRenderer,
    pub mmdc_available: bool,
    pub image_protocol: bool,
}

/// `[mermaid] images` resolved against the detected protocol.
pub open spec fn image_protocol_spec(cfg: MermaidConfig, env: RenderEnvironment) -> bool {
    match cfg.images {
        ImageMode::Never => false,
        ImageMode::Always => true,
        ImageMode::Auto => env.images != ImageCapability::NoImage,
    }
}

/// Resolves `[mermaid] images` against the detected protocol.
fn image_protocol_allowed(cfg: &MermaidConfig, env: &RenderEnvironment) -> (b: bool)
    ensures
        b == image_protocol_spec(*cfg, *env),
{
    match cfg.images {
        ImageMode::Never => false,
        ImageMode::Always => true,
        ImageMode::Auto => env.images.is_supported(),
    }
}

/// The warning for a diagram type that needs `mmdc` when no image can be
/// shown.
pub open spec fn needs_image_warning() -> Seq<char> {
    "this diagram type needs mmdc, but the terminal has no image protocol"@
}

/// The warning for a diagram type nothing here can draw.
pub open spec fn unsupported_warning() -> Seq<char> {
    "unsupported diagram type and mmdc is not available"@
}

impl AutoRenderer {
    /// The automatic backend.
    pub fn new(cfg: &MermaidConfig, env: &RenderEnvironment) -> (r: Self)
        ensures
            r.image_protocol == image_protocol_spec(*cfg, *env),
            r.mmdc_available == env.mmdc_available,
            r.native.unicode_box == env.unicode_box && r.native.max_label_width == 32,
            r.mmdc.command@ == cfg.mmdc_command@ && r.mmdc.cell_pixels == env.cell_pixels,
            r.mmdc.images_allowed == r.image_protocol,
    {
        let image_protocol = image_protocol_allowed(cfg, env);
        AutoRenderer {
            native: TerminalRenderer::new(env),
            mmdc: MmdcRenderer::new(cfg, env, image_protocol),
            mmdc_available: env.mmdc_available,
            image_protocol,
        }
    }

    /// The strategy this backend picks for `source`.
    pub fn strategy_for(&self, source: &str) -> (st: Strategy)
        ensures
            st == decide_spec(
                Situation {
                    native_supported: kind_spec(source@).0 == 0,
                    mmdc_available: self.mmdc_available,
                    image_protocol: self.image_protocol,
                },
            ),
    {
        let kind = diagram_kind(source);
        decide(Situation {
            native_supported: kind.natively_supported(),
            mmdc_available: self.mmdc_available,
            image_protocol: self.image_protocol,
        })
    }

    /// The first step for a block with `source`.
    pub open spec fn plan_auto_spec(&self, source: Seq<char>, width: usize, s: RenderStep) -> bool {
        let st = decide_spec(
            Situation {
                native_supported: kind_spec(source).0 == 0,
                mmdc_available: self.mmdc_available,
                image_protocol: self.image_protocol,
            },
        );
        let can_image = self.mmdc_available && self.image_protocol && self.mmdc.images_allowed;
        let opts = self.native.opts_for(width);
        &&& st == Strategy::MmdcImage ==> (if self.mmdc.images_allowed {
            self.mmdc.plan_mmdc_spec(source, width, s)
        } else {
            s matches RenderStep::Done(r) && is_fallback(r, source, no_protocol_warning(), true)
        })
        &&& st == Strategy::SourceWithExternalOpen ==> (s matches RenderStep::Done(r) && is_fallback(
            r,
            source,
            needs_image_warning(),
            true,
        ))
        &&& st == Strategy::Source ==> (s matches RenderStep::Done(r) && is_fallback(r, source, unsupported_warning(), false))
        &&& st == Strategy::Native ==> match s {
            RenderStep::Done(r) => native_spec(r, source, opts, self.mmdc_available && !self.image_protocol)
                && (r.warning is Some ==> !can_image),
            RenderStep::RunMmdc { command, source: src, width_px } => can_image && native_fails(source, opts)
                && command@ == self.mmdc.command@ && src@ == source && width_px == mmdc_width_px(
                width,
                self.mmdc.cell_pixels.0,
            ),
        }
    }

    /// The source fallback for a diagram type nothing can draw here.
    fn unsupported(&self, block: &MermaidBlock, st: Strategy) -> (r: MermaidRender)
        requires
            st == Strategy::SourceWithExternalOpen || st == Strategy::Source,
        ensures
            st == Strategy::SourceWithExternalOpen ==> is_fallback(r, block.source@, needs_image_warning(), true),
            st == Strategy::Source ==> is_fallback(r, block.source@, unsupported_warning(), false),
    {
        if st == Strategy::SourceWithExternalOpen {
            let mut r = MermaidRender::fallback(
                block.source.as_str(),
                "this diagram type needs mmdc, but the terminal has no image protocol",
            );
            r.external_open = true;
            r
        } else {
            MermaidRender::fallback(block.source.as_str(), "unsupported diagram type and mmdc is not available")
        }
    }

    /// The first step for `block`: rows 1 to 4 of the matrix, and, when the
    /// native attempt fails and `mmdc` can show an image, an `mmdc` run.
    pub fn plan_auto(&self, block: &MermaidBlock, width: usize) -> (s: RenderStep)
        ensures
            self.plan_auto_spec(block.source@, width, s),
    {
        let st = self.strategy_for(block.source.as_str());
        match st {
            Strategy::MmdcImage => {
                if self.mmdc.images_allowed {
                    self.mmdc.plan_mmdc(block, width)
                } else {
                    RenderStep::Done(self.mmdc.complete(block, width, Err(String::new())))
                }
            },
            Strategy::Native => {
                let mut r = self.native.render_native(block, width);
                if r.warning.is_none() {
                    return RenderStep::Done(r);
                }
                proof {
                    lemma_warning_means_failure(r, block.source@, self.native.opts_for(width), false);
                }
                if self.mmdc_available && self.image_protocol && self.mmdc.images_allowed {
                    return self.mmdc.plan_mmdc(block, width);
                }
                let ghost r0 = r;
                r.external_open = self.mmdc_available && !self.image_protocol;
                proof {
                    lemma_reopen(r0, r, block.source@, self.native.opts_for(width));
                }
                RenderStep::Done(r)
            },
            _ => RenderStep::Done(self.unsupported(block, st)),
        }
    }

    /// The result for a block with `source` once the `mmdc` run gave
    /// `outcome`.
    pub open spec fn complete_auto_spec(&self, source: Seq<char>, width: usize, outcome: Result<ImageData, String>, r: MermaidRender) -> bool {
        let st = decide_spec(
            Situation {
                native_supported: kind_spec(source).0 == 0,
                mmdc_available: self.mmdc_available,
                image_protocol: self.image_protocol,
            },
        );
        let can_image = self.mmdc_available && self.image_protocol && self.mmdc.images_allowed;
        let opts = self.native.opts_for(width);
        &&& st == Strategy::SourceWithExternalOpen ==> is_fallback(r, source, needs_image_warning(), true)
        &&& st == Strategy::Source ==> is_fallback(r, source, unsupported_warning(), false)
        &&& st == Strategy::MmdcImage ==> (if self.mmdc.images_allowed {
            self.mmdc.complete_mmdc_spec(source, width, outcome, r)
        } else {
            is_fallback(r, source, no_protocol_warning(), true)
        })
        &&& st == Strategy::Native ==> {
            ||| native_spec(r, source, opts, self.mmdc_available && !self.image_protocol) && (r.warning is Some ==> !(
            can_image && outcome is Ok))
            ||| can_image && native_fails(source, opts) && outcome is Ok && self.mmdc.complete_mmdc_spec(
                source,
                width,
                outcome,
                r,
            )
        }
    }

    /// The result for `block` once the `mmdc` run gave `outcome`: its image
    /// when it succeeded, otherwise the step's own fallback.
    pub fn complete_auto(&self, block: &MermaidBlock, width: usize, outcome: Result<ImageData, String>) -> (r: MermaidRender)
        ensures
            self.complete_auto_spec(block.source@, width, outcome, r),
    {
        let st = self.strategy_for(block.source.as_str());
        match st {
            Strategy::MmdcImage => self.mmdc.complete(block, width, outcome),
            Strategy::Native => {
                let mut r = self.native.render_native(block, width);
                if r.warning.is_none() {
                    return r;
                }
                proof {
                    lemma_warning_means_failure(r, block.source@, self.native.opts_for(width), false);
                }
                let ghost oc = outcome;
                if self.mmdc_available && self.image_protocol && self.mmdc.images_allowed {
                    let m = self.mmdc.complete_mmdc(block, width, outcome);
                    if m.warning.is_none() {
                        return m;
                    }
                }
                let ghost r0 = r;
                r.external_open = self.mmdc_available && !self.image_protocol;
                proof {
                    lemma_reopen(r0, r, block.source@, self.native.opts_for(width));
                }
                r
            },
            _ => self.unsupported(block, st),
        }
    }
}

/// A failed native rendering keeps its meaning when its external-open hint
/// changes.
proof fn lemma_reopen(r0: MermaidRender, r: MermaidRender, source: Seq<char>, opts: RenderOptions)
    requires
        native_spec(r0, source, opts, false),
        r0.warning is Some,
        r.output == r0.output,
        r.warning == r0.warning,
    ensures
        native_spec(r, source, opts, r.external_open),
{
    if kind_spec(source).0 == 0 {
        if let Ok(dv) = parse_spec(source) {
            let d = choose|d: Diagram| #[trigger] diagram_v(d) == dv && d.orientation == kind_spec(source).1
                && diagram_wf(d) && shows_outcome(r0, source, drawn(d, opts), false);
            assert(diagram_v(d) == dv);
            assert(shows_outcome(r, source, drawn(d, opts), r.external_open));
        }
    }
}

impl MermaidRenderer for AutoRenderer {
    fn plan(&self, block: &MermaidBlock, width: usize) -> (s: RenderStep)
        ensures
            self.plan_auto_spec(block.source@, width, s),
    {
        self.plan_auto(block, width)
    }

    fn complete(&self, block: &MermaidBlock, width: usize, outcome: Result<ImageData, String>) -> (r: MermaidRender)
        ensures
            self.complete_auto_spec(block.source@, width, outcome, r),
    {
        self.complete_auto(block, width, outcome)
    }
}

/// The backend chosen by the configuration.
#[derive(Debug)]
pub enum Backend {
    /// `backend = "source"`.
    Source(SourceRenderer),
    /// `backend = "terminal"`.
    Terminal(TerminalRenderer),
    /// `backend = "mmdc"`.
    Mmdc(MmdcRenderer),
    /// `backend = "auto"`.
    Auto(AutoRenderer),
}

impl MermaidRenderer for Backend {
    fn plan(&self, block: &MermaidBlock, width: usize) -> (s: RenderStep)
        ensures
            match self {
                Backend::Source(_) => s matches RenderStep::Done(r) && source_result(r, block.source@),
                Backend::Terminal(t) => s matches RenderStep::Done(r) && native_spec(r, block.source@, t.opts_for(width), false),
                Backend::Mmdc(b) => b.plan_mmdc_spec(block.source@, width, s),
                Backend::Auto(b) => b.plan_auto_spec(block.source@, width, s),
            },
    {
        match self {
            Backend::Source(b) => b.plan(block, width),
            Backend::Terminal(b) => b.plan(block, width),
            Backend::Mmdc(b) => b.plan(block, width),
            Backend::Auto(b) => b.plan(block, width),
        }
    }

    fn complete(&self, block: &MermaidBlock, width: usize, outcome: Result<ImageData, String>) -> (r: MermaidRender)
        ensures
            match self {
                Backend::Source(_) => source_result(r, block.source@),
                Backend::Terminal(t) => native_spec(r, block.source@, t.opts_for(width), false),
                Backend::Mmdc(b) => {
                    &&& !b.images_allowed ==> is_fallback(r, block.source@, no_protocol_warning(), true)
                    &&& b.images_allowed ==> b.complete_mmdc_spec(block.source@, width, outcome, r)
                },
                Backend::Auto(b) => b.complete_auto_spec(block.source@, width, outcome, r),
            },
    {
        match self {
            Backend::Source(b) => b.complete(block, width, outcome),
            Backend::Terminal(b) => b.complete(block, width, outcome),
            Backend::Mmdc(b) => b.complete(block, width, outcome),
            Backend::Auto(b) => b.complete(block, width, outcome),
        }
    }
}

/// Picks the Mermaid backend: `backend` and `images` are explicit
/// overrides. `terminal` is always native (failures fall back to the
/// source); `mmdc` is always `mmdc`, degrading to the source plus the
/// external-open hint when images are off; `source` is always the raw
/// source without a warning; `auto` is the fallback matrix, with `images`
/// forcing the image column on (`always`) or off (`never`).
pub fn select_backend(cfg: &MermaidConfig, env: &RenderEnvironment) -> (b: Backend)
    ensures
        cfg.backend == MermaidBackend::Source ==> b is Source,
        cfg.backend == MermaidBackend::Terminal ==> (b matches Backend::Terminal(t) && t.unicode_box == env.unicode_box
            && t.max_label_width == 32),
        cfg.backend == MermaidBackend::Mmdc ==> (b matches Backend::Mmdc(m) && m.command@ == cfg.mmdc_command@
            && m.cell_pixels == env.cell_pixels && m.images_allowed == image_protocol_spec(*cfg, *env)),
        cfg.backend == MermaidBackend::Auto ==> (b matches Backend::Auto(a) && a.image_protocol == image_protocol_spec(
            *cfg,
            *env,
        ) && a.mmdc_available == env.mmdc_available && a.mmdc.images_allowed == a.image_protocol
            && a.native.unicode_box == env.unicode_box && a.native.max_label_width == 32
            && a.mmdc.command@ == cfg.mmdc_command@ && a.mmdc.cell_pixels == env.cell_pixels),
{
    match cfg.backend {
        MermaidBackend::Source => Backend::Source(SourceRenderer),
        MermaidBackend::Terminal => Backend::Terminal(TerminalRenderer::new(env)),
        MermaidBackend::Mmdc => Backend::Mmdc(MmdcRenderer::new(cfg, env, image_protocol_allowed(cfg, env))),
        MermaidBackend::Auto => Backend::Auto(AutoRenderer::new(cfg, env)),
    }
}

} // verus!
