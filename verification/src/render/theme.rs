//! Colours, styles and themes, plus the colour-depth downgrade chain
//! (TrueColor, 256, 16, none).
//!
//! [`ColorLevel`] is a local copy of the colour level that the terminal
//! capability probe reports: rendering does not depend on the terminal layer's
//! types, and converting one into the other is a trivial `match`.
use vstd::prelude::*;
use crate::util::text::{to_owned, str_eq, chars_of, trim_chars, parse_u32, trim, parse_u32_spec};

verus! {

/// Colour depth of the output device.
#[derive(Debug, Clone, Copy, PartialEq, Eq, PartialOrd, Ord, Structural)]
pub enum ColorLevel {
    /// Monochrome: only bold/underline/reverse survive.
    NoColor,
    /// The 16 ANSI colours.
    Ansi16,
    /// The xterm 256-colour palette.
    Ansi256,
    /// 24-bit colour.
    TrueColor,
}

impl Default for ColorLevel {
    fn default() -> (r: Self)
        ensures
            r == ColorLevel::TrueColor,
    {
        ColorLevel::TrueColor
    }
}

impl ColorLevel {
    /// Canonical string form (`none`, `ansi16`, `ansi256`, `truecolor`).
    pub fn as_str(self) -> (s: &'static str)
        ensures
            s@ == color_level_name(self),
    {
        match self {
            ColorLevel::NoColor => "none",
            ColorLevel::Ansi16 => "ansi16",
            ColorLevel::Ansi256 => "ansi256",
            ColorLevel::TrueColor => "truecolor",
        }
    }
}

/// The canonical name of a colour level.
pub open spec fn color_level_name(l: ColorLevel) -> Seq<char> {
    match l {
        ColorLevel::NoColor => "none"@,
        ColorLevel::Ansi16 => "ansi16"@,
        ColorLevel::Ansi256 => "ansi256"@,
        ColorLevel::TrueColor => "truecolor"@,
    }
}

/// A colour, either 24-bit or a palette index (0..=15 are the ANSI colours).
#[derive(Debug, Clone, Copy, PartialEq, Eq, Structural)]
pub enum Color {
    /// 24-bit RGB.
    Rgb(u8, u8, u8),
    /// Palette index into the xterm 256-colour table.
    Indexed(u8),
}

/// The RGB value a colour stands for.
pub open spec fn color_rgb(c: Color) -> (u8, u8, u8) {
    match c {
        Color::Rgb(r, g, b) => (r, g, b),
        Color::Indexed(i) => indexed_rgb(i),
    }
}

/// A colour reduced to a colour level (`None` at monochrome).
pub open spec fn color_downgrade(c: Color, level: ColorLevel) -> Option<Color> {
    match level {
        ColorLevel::NoColor => None,
        ColorLevel::TrueColor => Some(c),
        ColorLevel::Ansi256 => Some(
            match c {
                Color::Indexed(i) => Color::Indexed(i),
                Color::Rgb(r, g, b) => Color::Indexed(ansi256_of(r, g, b)),
            },
        ),
        ColorLevel::Ansi16 => {
            let (r, g, b) = color_rgb(c);
            Some(Color::Indexed(ansi16_of(r, g, b)))
        },
    }
}

impl Color {
    /// Approximate RGB value of this colour.
    pub fn to_rgb(self) -> (out: (u8, u8, u8))
        ensures
            out == color_rgb(self),
    {
        match self {
            Color::Rgb(r, g, b) => (r, g, b),
            Color::Indexed(i) => indexed_to_rgb(i),
        }
    }

    /// Reduce this colour to the given level.
    pub fn downgrade(self, level: ColorLevel) -> (out: Option<Color>)
        ensures
            out == color_downgrade(self, level),
    {
        match level {
            ColorLevel::NoColor => None,
            ColorLevel::TrueColor => Some(self),
            ColorLevel::Ansi256 => Some(
                match self {
                    Color::Indexed(i) => Color::Indexed(i),
                    Color::Rgb(r, g, b) => Color::Indexed(rgb_to_ansi256(r, g, b)),
                },
            ),
            ColorLevel::Ansi16 => {
                let (r, g, b) = self.to_rgb();
                Some(Color::Indexed(rgb_to_ansi16(r, g, b)))
            },
        }
    }
}

/// The xterm 6x6x6 cube levels.
pub open spec fn cube_level(i: int) -> u8 {
    if i == 0 {
        0
    } else if i == 1 {
        95
    } else if i == 2 {
        135
    } else if i == 3 {
        175
    } else if i == 4 {
        215
    } else {
        255
    }
}

fn cube_value(i: usize) -> (v: u8)
    requires
        i < 6,
    ensures
        v == cube_level(i as int),
{
    match i {
        0 => 0,
        1 => 95,
        2 => 135,
        3 => 175,
        4 => 215,
        _ => 255,
    }
}

/// Absolute difference of two bytes.
pub open spec fn byte_diff(a: u8, b: u8) -> int {
    if a >= b {
        a - b
    } else {
        b - a
    }
}

/// The first of the cube levels `0..n` nearest to `v`.
pub open spec fn nearest_cube_in(v: u8, n: int) -> int
    decreases n,
{
    if n <= 1 {
        0
    } else {
        let b = nearest_cube_in(v, n - 1);
        if byte_diff(v, cube_level(n - 1)) < byte_diff(v, cube_level(b)) {
            n - 1
        } else {
            b
        }
    }
}

proof fn lemma_nearest_cube_range(v: u8, n: int)
    ensures
        0 <= nearest_cube_in(v, n) < (if n < 1 { 1 } else { n }),
    decreases n,
{
    if n > 1 {
        lemma_nearest_cube_range(v, n - 1);
    }
}

/// The index of the cube level nearest to `v` (the first of two equally
/// near) and that level.
pub fn nearest_cube(v: u8) -> (out: (usize, u8))
    ensures
        out.0 == nearest_cube_in(v, 6),
        out.0 < 6,
        out.1 == cube_level(out.0 as int),
{
    let mut best: usize = 0;
    let mut best_d: u32 = u32::MAX;
    let mut i: usize = 0;
    while i < 6
        invariant
            i <= 6,
            best < 6,
            i == 0 ==> best_d == u32::MAX && best == 0,
            i > 0 ==> best == nearest_cube_in(v, i as int) && best_d == byte_diff(v, cube_level(best as int)),
        decreases 6 - i,
    {
        let c = cube_value(i);
        let d: u32 = if v >= c { (v - c) as u32 } else { (c - v) as u32 };
        proof {
            lemma_nearest_cube_range(v, i as int);
        }
        if d < best_d {
            best_d = d;
            best = i;
        }
        i += 1;
    }
    (best, cube_value(best))
}

/// Squared distance of two RGB triples.
pub open spec fn rgb_dist(a: (u8, u8, u8), b: (u8, u8, u8)) -> int {
    (a.0 - b.0) * (a.0 - b.0) + (a.1 - b.1) * (a.1 - b.1) + (a.2 - b.2) * (a.2 - b.2)
}

/// Squared distance of two RGB triples.
pub fn dist(a: (u8, u8, u8), b: (u8, u8, u8)) -> (d: u32)
    ensures
        d == rgb_dist(a, b),
{
    let dr: i32 = a.0 as i32 - b.0 as i32;
    let dg: i32 = a.1 as i32 - b.1 as i32;
    let db: i32 = a.2 as i32 - b.2 as i32;
    assert(dr * dr <= 65025 && dg * dg <= 65025 && db * db <= 65025) by (nonlinear_arith)
        requires
            -255 <= dr <= 255,
            -255 <= dg <= 255,
            -255 <= db <= 255,
    ;
    assert(dr * dr >= 0 && dg * dg >= 0 && db * db >= 0) by (nonlinear_arith);
    (dr * dr + dg * dg + db * db) as u32
}

/// The grey-ramp step nearest to the average of `r`, `g`, `b`: the offset of
/// the average above 8, at most 238, divided by ten and rounded half up.
pub open spec fn grey_step(r: u8, g: u8, b: u8) -> int {
    let avg = (r + g + b) / 3;
    let x = if avg < 8 {
        0
    } else if avg - 8 > 238 {
        238
    } else {
        avg - 8
    };
    let s = (x + 5) / 10;
    if s > 23 {
        23
    } else {
        s
    }
}

/// The xterm-256 index nearest to an RGB colour: the colour cube entry, or
/// the grey ramp entry when that is strictly nearer.
pub open spec fn ansi256_of(r: u8, g: u8, b: u8) -> u8 {
    let ri = nearest_cube_in(r, 6);
    let gi = nearest_cube_in(g, 6);
    let bi = nearest_cube_in(b, 6);
    let cube_index = 16 + 36 * ri + 6 * gi + bi;
    let cube_dist = rgb_dist((r, g, b), (cube_level(ri), cube_level(gi), cube_level(bi)));
    let step = grey_step(r, g, b);
    let grey = 8 + 10 * step;
    let grey_dist = rgb_dist((r, g, b), (grey as u8, grey as u8, grey as u8));
    if grey_dist < cube_dist {
        (232 + step) as u8
    } else {
        cube_index as u8
    }
}

/// Map 24-bit RGB to the closest xterm-256 index (colour cube or grey ramp).
pub fn rgb_to_ansi256(r: u8, g: u8, b: u8) -> (out: u8)
    ensures
        out == ansi256_of(r, g, b),
{
    let (ri, rq) = nearest_cube(r);
    let (gi, gq) = nearest_cube(g);
    let (bi, bq) = nearest_cube(b);
    let cube_index: u16 = 16 + 36 * ri as u16 + 6 * gi as u16 + bi as u16;
    let cube_dist = dist((r, g, b), (rq, gq, bq));
    let avg: u32 = (r as u32 + g as u32 + b as u32) / 3;
    let x: u32 = if avg < 8 {
        0
    } else if avg - 8 > 238 {
        238
    } else {
        avg - 8
    };
    let s: u32 = (x + 5) / 10;
    let step: u8 = if s > 23 { 23 } else { s as u8 };
    let grey: u8 = 8 + 10 * step;
    let grey_dist = dist((r, g, b), (grey, grey, grey));
    if grey_dist < cube_dist {
        232 + step
    } else {
        cube_index as u8
    }
}

/// RGB of the 16 ANSI colours.
pub open spec fn ansi16_rgb(i: int) -> (u8, u8, u8) {
    if i == 0 {
        (0, 0, 0)
    } else if i == 1 {
        (170, 0, 0)
    } else if i == 2 {
        (0, 170, 0)
    } else if i == 3 {
        (170, 85, 0)
    } else if i == 4 {
        (0, 0, 170)
    } else if i == 5 {
        (170, 0, 170)
    } else if i == 6 {
        (0, 170, 170)
    } else if i == 7 {
        (170, 170, 170)
    } else if i == 8 {
        (85, 85, 85)
    } else if i == 9 {
        (255, 85, 85)
    } else if i == 10 {
        (85, 255, 85)
    } else if i == 11 {
        (255, 255, 85)
    } else if i == 12 {
        (85, 85, 255)
    } else if i == 13 {
        (255, 85, 255)
    } else if i == 14 {
        (85, 255, 255)
    } else {
        (255, 255, 255)
    }
}

fn ansi16_value(i: usize) -> (c: (u8, u8, u8))
    requires
        i < 16,
    ensures
        c == ansi16_rgb(i as int),
{
    match i {
        0 => (0, 0, 0),
        1 => (170, 0, 0),
        2 => (0, 170, 0),
        3 => (170, 85, 0),
        4 => (0, 0, 170),
        5 => (170, 0, 170),
        6 => (0, 170, 170),
        7 => (170, 170, 170),
        8 => (85, 85, 85),
        9 => (255, 85, 85),
        10 => (85, 255, 85),
        11 => (255, 255, 85),
        12 => (85, 85, 255),
        13 => (255, 85, 255),
        14 => (85, 255, 255),
        _ => (255, 255, 255),
    }
}

/// The first of the ANSI colours `0..n` nearest to `c`.
pub open spec fn nearest16_in(c: (u8, u8, u8), n: int) -> int
    decreases n,
{
    if n <= 1 {
        0
    } else {
        let b = nearest16_in(c, n - 1);
        if rgb_dist(c, ansi16_rgb(n - 1)) < rgb_dist(c, ansi16_rgb(b)) {
            n - 1
        } else {
            b
        }
    }
}

proof fn lemma_nearest16_range(c: (u8, u8, u8), n: int)
    ensures
        0 <= nearest16_in(c, n) < (if n < 1 { 1 } else { n }),
    decreases n,
{
    if n > 1 {
        lemma_nearest16_range(c, n - 1);
    }
}

/// The ANSI colour nearest to an RGB colour (the first of equally near ones).
pub open spec fn ansi16_of(r: u8, g: u8, b: u8) -> u8 {
    nearest16_in((r, g, b), 16) as u8
}

/// Map 24-bit RGB to the nearest of the 16 ANSI colours.
pub fn rgb_to_ansi16(r: u8, g: u8, b: u8) -> (out: u8)
    ensures
        out == ansi16_of(r, g, b),
        out < 16,
{
    let mut best: usize = 0;
    let mut best_d: u32 = u32::MAX;
    let mut i: usize = 0;
    while i < 16
        invariant
            i <= 16,
            best < 16,
            i == 0 ==> best_d == u32::MAX && best == 0,
            i > 0 ==> best == nearest16_in((r, g, b), i as int) && best_d == rgb_dist(
                (r, g, b),
                ansi16_rgb(best as int),
            ),
        decreases 16 - i,
    {
        let d = dist((r, g, b), ansi16_value(i));
        proof {
            lemma_nearest16_range((r, g, b), i as int);
        }
        if d < best_d {
            best_d = d;
            best = i;
        }
        i += 1;
    }
    proof {
        lemma_nearest16_range((r, g, b), 16);
    }
    best as u8
}

/// RGB approximation of an xterm-256 palette index.
pub open spec fn indexed_rgb(i: u8) -> (u8, u8, u8) {
    if i < 16 {
        ansi16_rgb(i as int)
    } else if i < 232 {
        let v = i - 16;
        (cube_level(v / 36), cube_level((v / 6) % 6), cube_level(v % 6))
    } else {
        let v = 8 + 10 * (i - 232);
        (v as u8, v as u8, v as u8)
    }
}

/// RGB approximation of an xterm-256 palette index.
pub fn indexed_to_rgb(i: u8) -> (out: (u8, u8, u8))
    ensures
        out == indexed_rgb(i),
{
    if i < 16 {
        ansi16_value(i as usize)
    } else if i < 232 {
        let v = i as usize - 16;
        (cube_value(v / 36), cube_value((v / 6) % 6), cube_value(v % 6))
    } else {
        let v: u8 = 8 + 10 * (i - 232);
        (v, v, v)
    }
}


/// A visual style. All fields are optional/off by default.
#[derive(Debug, Clone, Copy, PartialEq, Eq, Structural)]
pub struct Style {
    /// Foreground colour.
    pub fg: Option<Color>,
    /// Background colour.
    pub bg: Option<Color>,
    /// Bold.
    pub bold: bool,
    /// Italic.
    pub italic: bool,
    /// Underline.
    pub underline: bool,
    /// Dim / faint.
    pub dim: bool,
    /// Strikethrough.
    pub strikethrough: bool,
    /// Reverse video (the monochrome substitute for background colours).
    pub reverse: bool,
}

impl Default for Style {
    fn default() -> (s: Self)
        ensures
            s == Style::new(),
    {
        Style::new()
    }
}

/// A 24-bit colour.
#[verifier::allow_in_spec]
pub fn rgb(r: u8, g: u8, b: u8) -> Color
    returns
        Color::Rgb(r, g, b),
{
    Color::Rgb(r, g, b)
}

/// The style with `other` laid over `base`: colours and set flags of `other`
/// win, everything else is inherited.
pub open spec fn style_patch(base: Style, other: Style) -> Style {
    Style {
        fg: if other.fg is Some { other.fg } else { base.fg },
        bg: if other.bg is Some { other.bg } else { base.bg },
        bold: base.bold || other.bold,
        italic: base.italic || other.italic,
        underline: base.underline || other.underline,
        dim: base.dim || other.dim,
        strikethrough: base.strikethrough || other.strikethrough,
        reverse: base.reverse || other.reverse,
    }
}

/// A style reduced to a colour level: at monochrome the colours and dimming
/// go and a background becomes reverse video; otherwise each colour is
/// downgraded.
#[verifier::opaque]
pub open spec fn style_downgrade(s: Style, level: ColorLevel) -> Style {
    if level == ColorLevel::NoColor {
        Style { fg: None, bg: None, dim: false, reverse: s.reverse || s.bg is Some, ..s }
    } else {
        Style {
            fg: match s.fg {
                Some(c) => color_downgrade(c, level),
                None => None,
            },
            bg: match s.bg {
                Some(c) => color_downgrade(c, level),
                None => None,
            },
            ..s
        }
    }
}

impl Style {
    /// The empty style.
    #[verifier::allow_in_spec]
    pub fn new() -> Self
        returns
            (Style {
                fg: None,
                bg: None,
                bold: false,
                italic: false,
                underline: false,
                dim: false,
                strikethrough: false,
                reverse: false,
            }),
    {
        Style {
            fg: None,
            bg: None,
            bold: false,
            italic: false,
            underline: false,
            dim: false,
            strikethrough: false,
            reverse: false,
        }
    }

    /// With a foreground colour.
    #[verifier::allow_in_spec]
    pub fn fg(self, c: Color) -> Self
        returns
            (Style { fg: Some(c), ..self }),
    {
        Style { fg: Some(c), ..self }
    }

    /// With a background colour.
    #[verifier::allow_in_spec]
    pub fn bg(self, c: Color) -> Self
        returns
            (Style { bg: Some(c), ..self }),
    {
        Style { bg: Some(c), ..self }
    }

    /// Bold.
    #[verifier::allow_in_spec]
    pub fn bold(self) -> Self
        returns
            (Style { bold: true, ..self }),
    {
        Style { bold: true, ..self }
    }

    /// Italic.
    #[verifier::allow_in_spec]
    pub fn italic(self) -> Self
        returns
            (Style { italic: true, ..self }),
    {
        Style { italic: true, ..self }
    }

    /// Underlined.
    #[verifier::allow_in_spec]
    pub fn underline(self) -> Self
        returns
            (Style { underline: true, ..self }),
    {
        Style { underline: true, ..self }
    }

    /// Dim.
    #[verifier::allow_in_spec]
    pub fn dim(self) -> Self
        returns
            (Style { dim: true, ..self }),
    {
        Style { dim: true, ..self }
    }

    /// Struck through.
    #[verifier::allow_in_spec]
    pub fn strikethrough(self) -> Self
        returns
            (Style { strikethrough: true, ..self }),
    {
        Style { strikethrough: true, ..self }
    }

    /// Reverse video.
    #[verifier::allow_in_spec]
    pub fn reverse(self) -> Self
        returns
            (Style { reverse: true, ..self }),
    {
        Style { reverse: true, ..self }
    }

    /// Overlay `other` on top of `self`: colours and set flags of `other`
    /// win, everything else is inherited.
    pub fn patch(self, other: Style) -> (out: Style)
        ensures
            out == style_patch(self, other),
    {
        Style {
            fg: if other.fg.is_some() { other.fg } else { self.fg },
            bg: if other.bg.is_some() { other.bg } else { self.bg },
            bold: self.bold || other.bold,
            italic: self.italic || other.italic,
            underline: self.underline || other.underline,
            dim: self.dim || other.dim,
            strikethrough: self.strikethrough || other.strikethrough,
            reverse: self.reverse || other.reverse,
        }
    }

    /// Reduce this style to the given colour level. At [`ColorLevel::NoColor`]
    /// colours are dropped and a background colour becomes reverse video.
    pub fn downgrade(self, level: ColorLevel) -> (out: Style)
        ensures
            out == style_downgrade(self, level),
    {
        reveal(style_downgrade);
        if let ColorLevel::NoColor = level {
            return Style { fg: None, bg: None, dim: false, reverse: self.reverse || self.bg.is_some(), ..self };
        }
        let fg = match self.fg {
            Some(c) => c.downgrade(level),
            None => None,
        };
        let bg = match self.bg {
            Some(c) => c.downgrade(level),
            None => None,
        };
        Style { fg, bg, ..self }
    }
}


/// A complete set of element styles.
#[derive(Debug, Clone, PartialEq, Eq)]
pub struct Theme {
    /// Theme name (`dark`, `light`, ...).
    pub name: String,
    /// Painted over the whole screen before anything else, for a theme whose
    /// point is the colour of the screen itself; empty in the themes that let
    /// the terminal's own background through.
    pub screen: Style,
    /// Whether this theme is designed for a dark background.
    pub dark: bool,
    /// Whether code blocks are coloured by the syntax highlighter.
    pub syntax: bool,
    /// Styles for heading levels 1..=6.
    pub heading: [Style; 6],
    /// Body text.
    pub text: Style,
    /// `*emphasis*`.
    pub emph: Style,
    /// `**strong**`.
    pub strong: Style,
    /// `~~strikethrough~~`.
    pub strike: Style,
    /// Inline code and the code block default foreground.
    pub code: Style,
    /// Background applied to code block lines.
    pub code_bg: Style,
    /// Blockquote text.
    pub quote: Style,
    /// Blockquote gutter.
    pub quote_gutter: Style,
    /// Link text.
    pub link: Style,
    /// Currently selected link.
    pub link_selected: Style,
    /// Table borders.
    pub table_border: Style,
    /// Table header cells.
    pub table_header: Style,
    /// List bullets and numbers.
    pub list_marker: Style,
    /// Completed task checkbox.
    pub task_done: Style,
    /// Search match highlight.
    pub search_match: Style,
    /// The currently selected search match.
    pub search_current: Style,
    /// Status bar.
    pub status_bar: Style,
    /// TOC entries.
    pub toc: Style,
    /// Selected TOC entry.
    pub toc_selected: Style,
    /// Fold markers.
    pub fold_marker: Style,
    /// Diagram lines.
    pub diagram: Style,
    /// Warnings and placeholders.
    pub warning: Style,
}

/// Every style of a theme: the six heading levels, then the screen and the
/// element styles in declaration order.
pub open spec fn theme_styles(t: Theme) -> Seq<Style> {
    seq![
        t.heading[0], t.heading[1], t.heading[2], t.heading[3], t.heading[4], t.heading[5],
        t.screen, t.text, t.emph, t.strong, t.strike, t.code, t.code_bg, t.quote, t.quote_gutter, t.link, t.link_selected, t.table_border, t.table_header, t.list_marker, t.task_done, t.search_match, t.search_current, t.status_bar, t.toc, t.toc_selected, t.fold_marker, t.diagram, t.warning,
    ]
}

/// The styles of the built-in `dark` theme, in [`theme_styles`] order.
pub open spec fn dark_palette() -> Seq<Style> {
    let base = rgb(0x1a, 0x1b, 0x26);
    seq![
        Style::new().fg(rgb(0x82, 0xaa, 0xff)).bold(),
        Style::new().fg(rgb(0x9e, 0xce, 0x6a)).bold(),
        Style::new().fg(rgb(0xff, 0xcb, 0x6b)).bold(),
        Style::new().fg(rgb(0x89, 0xdd, 0xff)).bold(),
        Style::new().fg(rgb(0xc7, 0x92, 0xea)),
        Style::new().fg(rgb(0xf7, 0x8c, 0x6c)),
        Style::new(),
        Style::new(),
        Style::new().italic(),
        Style::new().bold(),
        Style::new().strikethrough().dim(),
        Style::new().fg(rgb(0xc3, 0xe8, 0x8d)),
        Style::new().bg(rgb(0x24, 0x28, 0x32)),
        Style::new().fg(rgb(0xa9, 0xb1, 0xd6)).italic(),
        Style::new().fg(rgb(0x56, 0x5f, 0x89)),
        Style::new().fg(rgb(0x7d, 0xcf, 0xff)).underline(),
        Style::new().fg(base).bg(rgb(0x7d, 0xcf, 0xff)).bold(),
        Style::new().fg(rgb(0x56, 0x5f, 0x89)),
        Style::new().fg(rgb(0xff, 0xcb, 0x6b)).bold(),
        Style::new().fg(rgb(0x82, 0xaa, 0xff)),
        Style::new().fg(rgb(0x9e, 0xce, 0x6a)),
        Style::new().fg(base).bg(rgb(0xe0, 0xaf, 0x68)),
        Style::new().fg(base).bg(rgb(0xff, 0x9e, 0x64)).bold(),
        Style::new() .fg(rgb(0xc0, 0xca, 0xf5)) .bg(rgb(0x2a, 0x2f, 0x3a)),
        Style::new().fg(rgb(0xa9, 0xb1, 0xd6)),
        Style::new() .fg(rgb(0xff, 0xff, 0xff)) .bg(rgb(0x36, 0x4a, 0x82)) .bold(),
        Style::new().fg(rgb(0xff, 0x9e, 0x64)),
        Style::new().fg(rgb(0x89, 0xdd, 0xff)),
        Style::new().fg(rgb(0xff, 0x9e, 0x64)).bold()
    ]
}

/// Whether `t` is the built-in `dark` theme.
pub open spec fn is_dark_theme(t: Theme) -> bool {
    &&& t.name@ == "dark"@
    &&& t.dark == true
    &&& t.syntax == true
    &&& theme_styles(t) == dark_palette()
}

impl Theme {
    /// The built-in `dark` theme.
    pub fn dark() -> (t: Theme)
        ensures
            is_dark_theme(t),
    {
        let base = rgb(0x1a, 0x1b, 0x26);
        let t = Theme {
            name: to_owned("dark"),
            dark: true,
            syntax: true,
            heading: [
                Style::new().fg(rgb(0x82, 0xaa, 0xff)).bold(),
                Style::new().fg(rgb(0x9e, 0xce, 0x6a)).bold(),
                Style::new().fg(rgb(0xff, 0xcb, 0x6b)).bold(),
                Style::new().fg(rgb(0x89, 0xdd, 0xff)).bold(),
                Style::new().fg(rgb(0xc7, 0x92, 0xea)),
                Style::new().fg(rgb(0xf7, 0x8c, 0x6c)),
            ],
            screen: Style::new(),
            text: Style::new(),
            emph: Style::new().italic(),
            strong: Style::new().bold(),
            strike: Style::new().strikethrough().dim(),
            code: Style::new().fg(rgb(0xc3, 0xe8, 0x8d)),
            code_bg: Style::new().bg(rgb(0x24, 0x28, 0x32)),
            quote: Style::new().fg(rgb(0xa9, 0xb1, 0xd6)).italic(),
            quote_gutter: Style::new().fg(rgb(0x56, 0x5f, 0x89)),
            link: Style::new().fg(rgb(0x7d, 0xcf, 0xff)).underline(),
            link_selected: Style::new().fg(base).bg(rgb(0x7d, 0xcf, 0xff)).bold(),
            table_border: Style::new().fg(rgb(0x56, 0x5f, 0x89)),
            table_header: Style::new().fg(rgb(0xff, 0xcb, 0x6b)).bold(),
            list_marker: Style::new().fg(rgb(0x82, 0xaa, 0xff)),
            task_done: Style::new().fg(rgb(0x9e, 0xce, 0x6a)),
            search_match: Style::new().fg(base).bg(rgb(0xe0, 0xaf, 0x68)),
            search_current: Style::new().fg(base).bg(rgb(0xff, 0x9e, 0x64)).bold(),
            status_bar: Style::new() .fg(rgb(0xc0, 0xca, 0xf5)) .bg(rgb(0x2a, 0x2f, 0x3a)),
            toc: Style::new().fg(rgb(0xa9, 0xb1, 0xd6)),
            toc_selected: Style::new() .fg(rgb(0xff, 0xff, 0xff)) .bg(rgb(0x36, 0x4a, 0x82)) .bold(),
            fold_marker: Style::new().fg(rgb(0xff, 0x9e, 0x64)),
            diagram: Style::new().fg(rgb(0x89, 0xdd, 0xff)),
            warning: Style::new().fg(rgb(0xff, 0x9e, 0x64)).bold(),
        };
        assert(theme_styles(t) =~= dark_palette());
        t
    }
}

/// The styles of the built-in `light` theme, in [`theme_styles`] order.
pub open spec fn light_palette() -> Seq<Style> {
    let base = rgb(0xff, 0xff, 0xff);
    seq![
        Style::new().fg(rgb(0x1a, 0x4f, 0xa0)).bold(),
        Style::new().fg(rgb(0x2a, 0x6b, 0x2a)).bold(),
        Style::new().fg(rgb(0x8a, 0x5a, 0x00)).bold(),
        Style::new().fg(rgb(0x0d, 0x6b, 0x7a)).bold(),
        Style::new().fg(rgb(0x6b, 0x30, 0x9a)),
        Style::new().fg(rgb(0xa0, 0x40, 0x20)),
        Style::new(),
        Style::new(),
        Style::new().italic(),
        Style::new().bold(),
        Style::new().strikethrough().dim(),
        Style::new().fg(rgb(0x8a, 0x1a, 0x50)),
        Style::new().bg(rgb(0xf0, 0xf0, 0xf0)),
        Style::new().fg(rgb(0x4a, 0x4a, 0x4a)).italic(),
        Style::new().fg(rgb(0x9a, 0x9a, 0x9a)),
        Style::new().fg(rgb(0x0a, 0x50, 0xc0)).underline(),
        Style::new().fg(base).bg(rgb(0x0a, 0x50, 0xc0)).bold(),
        Style::new().fg(rgb(0x9a, 0x9a, 0x9a)),
        Style::new().fg(rgb(0x8a, 0x5a, 0x00)).bold(),
        Style::new().fg(rgb(0x1a, 0x4f, 0xa0)),
        Style::new().fg(rgb(0x2a, 0x6b, 0x2a)),
        Style::new() .fg(rgb(0x00, 0x00, 0x00)) .bg(rgb(0xff, 0xe0, 0x80)),
        Style::new() .fg(rgb(0x00, 0x00, 0x00)) .bg(rgb(0xff, 0xa5, 0x40)) .bold(),
        Style::new() .fg(rgb(0x20, 0x20, 0x20)) .bg(rgb(0xdd, 0xdd, 0xdd)),
        Style::new().fg(rgb(0x30, 0x30, 0x30)),
        Style::new().fg(base).bg(rgb(0x1a, 0x4f, 0xa0)).bold(),
        Style::new().fg(rgb(0xa0, 0x40, 0x20)),
        Style::new().fg(rgb(0x0d, 0x6b, 0x7a)),
        Style::new().fg(rgb(0xa0, 0x40, 0x20)).bold()
    ]
}

/// Whether `t` is the built-in `light` theme.
pub open spec fn is_light_theme(t: Theme) -> bool {
    &&& t.name@ == "light"@
    &&& t.dark == false
    &&& t.syntax == true
    &&& theme_styles(t) == light_palette()
}

impl Theme {
    /// The built-in `light` theme.
    pub fn light() -> (t: Theme)
        ensures
            is_light_theme(t),
    {
        let base = rgb(0xff, 0xff, 0xff);
        let t = Theme {
            name: to_owned("light"),
            dark: false,
            syntax: true,
            heading: [
                Style::new().fg(rgb(0x1a, 0x4f, 0xa0)).bold(),
                Style::new().fg(rgb(0x2a, 0x6b, 0x2a)).bold(),
                Style::new().fg(rgb(0x8a, 0x5a, 0x00)).bold(),
                Style::new().fg(rgb(0x0d, 0x6b, 0x7a)).bold(),
                Style::new().fg(rgb(0x6b, 0x30, 0x9a)),
                Style::new().fg(rgb(0xa0, 0x40, 0x20)),
            ],
            screen: Style::new(),
            text: Style::new(),
            emph: Style::new().italic(),
            strong: Style::new().bold(),
            strike: Style::new().strikethrough().dim(),
            code: Style::new().fg(rgb(0x8a, 0x1a, 0x50)),
            code_bg: Style::new().bg(rgb(0xf0, 0xf0, 0xf0)),
            quote: Style::new().fg(rgb(0x4a, 0x4a, 0x4a)).italic(),
            quote_gutter: Style::new().fg(rgb(0x9a, 0x9a, 0x9a)),
            link: Style::new().fg(rgb(0x0a, 0x50, 0xc0)).underline(),
            link_selected: Style::new().fg(base).bg(rgb(0x0a, 0x50, 0xc0)).bold(),
            table_border: Style::new().fg(rgb(0x9a, 0x9a, 0x9a)),
            table_header: Style::new().fg(rgb(0x8a, 0x5a, 0x00)).bold(),
            list_marker: Style::new().fg(rgb(0x1a, 0x4f, 0xa0)),
            task_done: Style::new().fg(rgb(0x2a, 0x6b, 0x2a)),
            search_match: Style::new() .fg(rgb(0x00, 0x00, 0x00)) .bg(rgb(0xff, 0xe0, 0x80)),
            search_current: Style::new() .fg(rgb(0x00, 0x00, 0x00)) .bg(rgb(0xff, 0xa5, 0x40)) .bold(),
            status_bar: Style::new() .fg(rgb(0x20, 0x20, 0x20)) .bg(rgb(0xdd, 0xdd, 0xdd)),
            toc: Style::new().fg(rgb(0x30, 0x30, 0x30)),
            toc_selected: Style::new().fg(base).bg(rgb(0x1a, 0x4f, 0xa0)).bold(),
            fold_marker: Style::new().fg(rgb(0xa0, 0x40, 0x20)),
            diagram: Style::new().fg(rgb(0x0d, 0x6b, 0x7a)),
            warning: Style::new().fg(rgb(0xa0, 0x40, 0x20)).bold(),
        };
        assert(theme_styles(t) =~= light_palette());
        t
    }
}

/// The styles of the built-in `cyberpunk` theme, in [`theme_styles`] order.
pub open spec fn cyberpunk_palette() -> Seq<Style> {
    let base = rgb(0x05, 0x0a, 0x0e);
    let cyan = rgb(0x22, 0xe8, 0xe8);
    let cyan_bright = rgb(0x9c, 0xff, 0xff);
    let cyan_dim = rgb(0x14, 0x8a, 0x92);
    let crimson = rgb(0xe6, 0x00, 0x3c);
    let crimson_bright = rgb(0xff, 0x3d, 0x6e);
    let magenta = rgb(0xd6, 0x4c, 0xff);
    let amber = rgb(0xff, 0xb8, 0x2e);
    let body = rgb(0x8f, 0xd4, 0xd4);
    seq![
        Style::new().fg(cyan_bright).bold(),
        Style::new().fg(cyan).bold(),
        Style::new().fg(crimson_bright).bold(),
        Style::new().fg(cyan_dim).bold(),
        Style::new().fg(magenta),
        Style::new().fg(cyan_dim),
        Style::new().fg(body).bg(base),
        Style::new().fg(body),
        Style::new().fg(cyan).italic(),
        Style::new().fg(cyan_bright).bold(),
        Style::new().fg(cyan_dim).strikethrough(),
        Style::new().fg(amber),
        Style::new().bg(rgb(0x0a, 0x14, 0x1a)),
        Style::new().fg(cyan_dim).italic(),
        Style::new().fg(crimson),
        Style::new().fg(cyan).underline(),
        Style::new().fg(base).bg(cyan).bold(),
        Style::new().fg(crimson),
        Style::new().fg(crimson_bright).bold(),
        Style::new().fg(crimson),
        Style::new().fg(cyan),
        Style::new().fg(base).bg(cyan_dim),
        Style::new().fg(base).bg(crimson_bright).bold(),
        Style::new().fg(cyan).bg(rgb(0x0d, 0x1a, 0x1f)),
        Style::new().fg(cyan_dim),
        Style::new().fg(base).bg(cyan).bold(),
        Style::new().fg(crimson),
        Style::new().fg(cyan),
        Style::new().fg(crimson_bright).bold()
    ]
}

/// Whether `t` is the built-in `cyberpunk` theme.
pub open spec fn is_cyberpunk_theme(t: Theme) -> bool {
    &&& t.name@ == "cyberpunk"@
    &&& t.dark == true
    &&& t.syntax == true
    &&& theme_styles(t) == cyberpunk_palette()
}

impl Theme {
    /// The built-in `cyberpunk` theme.
    pub fn cyberpunk() -> (t: Theme)
        ensures
            is_cyberpunk_theme(t),
    {
        let base = rgb(0x05, 0x0a, 0x0e);
        let cyan = rgb(0x22, 0xe8, 0xe8);
        let cyan_bright = rgb(0x9c, 0xff, 0xff);
        let cyan_dim = rgb(0x14, 0x8a, 0x92);
        let crimson = rgb(0xe6, 0x00, 0x3c);
        let crimson_bright = rgb(0xff, 0x3d, 0x6e);
        let magenta = rgb(0xd6, 0x4c, 0xff);
        let amber = rgb(0xff, 0xb8, 0x2e);
        let body = rgb(0x8f, 0xd4, 0xd4);
        let t = Theme {
            name: to_owned("cyberpunk"),
            dark: true,
            syntax: true,
            heading: [
                Style::new().fg(cyan_bright).bold(),
                Style::new().fg(cyan).bold(),
                Style::new().fg(crimson_bright).bold(),
                Style::new().fg(cyan_dim).bold(),
                Style::new().fg(magenta),
                Style::new().fg(cyan_dim),
            ],
            screen: Style::new().fg(body).bg(base),
            text: Style::new().fg(body),
            emph: Style::new().fg(cyan).italic(),
            strong: Style::new().fg(cyan_bright).bold(),
            strike: Style::new().fg(cyan_dim).strikethrough(),
            code: Style::new().fg(amber),
            code_bg: Style::new().bg(rgb(0x0a, 0x14, 0x1a)),
            quote: Style::new().fg(cyan_dim).italic(),
            quote_gutter: Style::new().fg(crimson),
            link: Style::new().fg(cyan).underline(),
            link_selected: Style::new().fg(base).bg(cyan).bold(),
            table_border: Style::new().fg(crimson),
            table_header: Style::new().fg(crimson_bright).bold(),
            list_marker: Style::new().fg(crimson),
            task_done: Style::new().fg(cyan),
            search_match: Style::new().fg(base).bg(cyan_dim),
            search_current: Style::new().fg(base).bg(crimson_bright).bold(),
            status_bar: Style::new().fg(cyan).bg(rgb(0x0d, 0x1a, 0x1f)),
            toc: Style::new().fg(cyan_dim),
            toc_selected: Style::new().fg(base).bg(cyan).bold(),
            fold_marker: Style::new().fg(crimson),
            diagram: Style::new().fg(cyan),
            warning: Style::new().fg(crimson_bright).bold(),
        };
        assert(theme_styles(t) =~= cyberpunk_palette());
        t
    }
}

/// The styles of the built-in `crt` theme, in [`theme_styles`] order.
pub open spec fn crt_palette() -> Seq<Style> {
    let base = rgb(0x00, 0x14, 0x08);
    let bright = rgb(0xcc, 0xff, 0xcc);
    let green = rgb(0x33, 0xff, 0x33);
    let mid = rgb(0x2b, 0xcc, 0x2b);
    let dim = rgb(0x1d, 0x8a, 0x1d);
    let amber = rgb(0xff, 0xb0, 0x00);
    seq![
        Style::new().fg(bright).bold().underline(),
        Style::new().fg(bright).bold(),
        Style::new().fg(green).bold(),
        Style::new().fg(green),
        Style::new().fg(mid),
        Style::new().fg(dim),
        Style::new().fg(green).bg(base),
        Style::new().fg(green),
        Style::new().fg(green).underline(),
        Style::new().fg(bright).bold(),
        Style::new().fg(dim).strikethrough(),
        Style::new().fg(amber),
        Style::new().bg(rgb(0x00, 0x22, 0x0e)),
        Style::new().fg(mid),
        Style::new().fg(dim),
        Style::new().fg(bright).underline(),
        Style::new().fg(base).bg(bright).bold(),
        Style::new().fg(dim),
        Style::new().fg(bright).bold(),
        Style::new().fg(green),
        Style::new().fg(amber),
        Style::new().fg(base).bg(mid),
        Style::new().fg(base).bg(green).bold(),
        Style::new().fg(base).bg(green).bold(),
        Style::new().fg(mid),
        Style::new().fg(base).bg(green).bold(),
        Style::new().fg(amber),
        Style::new().fg(green),
        Style::new().fg(amber).bold()
    ]
}

/// Whether `t` is the built-in `crt` theme.
pub open spec fn is_crt_theme(t: Theme) -> bool {
    &&& t.name@ == "crt"@
    &&& t.dark == true
    &&& t.syntax == false
    &&& theme_styles(t) == crt_palette()
}

impl Theme {
    /// The built-in `crt` theme.
    pub fn crt() -> (t: Theme)
        ensures
            is_crt_theme(t),
    {
        let base = rgb(0x00, 0x14, 0x08);
        let bright = rgb(0xcc, 0xff, 0xcc);
        let green = rgb(0x33, 0xff, 0x33);
        let mid = rgb(0x2b, 0xcc, 0x2b);
        let dim = rgb(0x1d, 0x8a, 0x1d);
        let amber = rgb(0xff, 0xb0, 0x00);
        let t = Theme {
            name: to_owned("crt"),
            dark: true,
            syntax: false,
            heading: [
                Style::new().fg(bright).bold().underline(),
                Style::new().fg(bright).bold(),
                Style::new().fg(green).bold(),
                Style::new().fg(green),
                Style::new().fg(mid),
                Style::new().fg(dim),
            ],
            screen: Style::new().fg(green).bg(base),
            text: Style::new().fg(green),
            emph: Style::new().fg(green).underline(),
            strong: Style::new().fg(bright).bold(),
            strike: Style::new().fg(dim).strikethrough(),
            code: Style::new().fg(amber),
            code_bg: Style::new().bg(rgb(0x00, 0x22, 0x0e)),
            quote: Style::new().fg(mid),
            quote_gutter: Style::new().fg(dim),
            link: Style::new().fg(bright).underline(),
            link_selected: Style::new().fg(base).bg(bright).bold(),
            table_border: Style::new().fg(dim),
            table_header: Style::new().fg(bright).bold(),
            list_marker: Style::new().fg(green),
            task_done: Style::new().fg(amber),
            search_match: Style::new().fg(base).bg(mid),
            search_current: Style::new().fg(base).bg(green).bold(),
            status_bar: Style::new().fg(base).bg(green).bold(),
            toc: Style::new().fg(mid),
            toc_selected: Style::new().fg(base).bg(green).bold(),
            fold_marker: Style::new().fg(amber),
            diagram: Style::new().fg(green),
            warning: Style::new().fg(amber).bold(),
        };
        assert(theme_styles(t) =~= crt_palette());
        t
    }
}


/// Whether `t` is the built-in theme called `name`, when there is one.
pub open spec fn is_builtin_theme(name: Seq<char>, t: Theme) -> bool {
    if name == "dark"@ {
        is_dark_theme(t)
    } else if name == "light"@ {
        is_light_theme(t)
    } else if name == "crt"@ {
        is_crt_theme(t)
    } else {
        name == "cyberpunk"@ && is_cyberpunk_theme(t)
    }
}

/// Whether `name` names a built-in theme.
pub open spec fn is_builtin_name(name: Seq<char>) -> bool {
    name == "dark"@ || name == "light"@ || name == "crt"@ || name == "cyberpunk"@
}

/// The theme `auto` resolves to: light on a light background, else dark.
pub open spec fn is_auto_theme(light_background: bool, t: Theme) -> bool {
    if light_background {
        is_light_theme(t)
    } else {
        is_dark_theme(t)
    }
}

impl Default for Theme {
    fn default() -> (t: Self)
        ensures
            is_dark_theme(t),
    {
        Theme::dark()
    }
}

impl Theme {
    /// A built-in theme by name (`dark`, `light`, `crt`, `cyberpunk`), or
    /// `None`.
    pub fn builtin(name: &str) -> (out: Option<Theme>)
        ensures
            is_builtin_name(name@) <==> out is Some,
            out matches Some(t) ==> is_builtin_theme(name@, t),
    {
        if str_eq(name, "dark") {
            Some(Theme::dark())
        } else if str_eq(name, "light") {
            Some(Theme::light())
        } else if str_eq(name, "crt") {
            Some(Theme::crt())
        } else if str_eq(name, "cyberpunk") {
            Some(Theme::cyberpunk())
        } else {
            None
        }
    }

    /// Resolve `auto` from what the environment says of the background:
    /// light on a light background, dark otherwise.
    pub fn auto(light_background: bool) -> (t: Theme)
        ensures
            is_auto_theme(light_background, t),
    {
        if light_background {
            Theme::light()
        } else {
            Theme::dark()
        }
    }

    /// Resolve a theme name (`auto`, a built-in name, or an unknown custom
    /// name, which falls back to `auto`).
    pub fn resolve(name: &str, light_background: bool) -> (t: Theme)
        ensures
            is_builtin_name(name@) ==> is_builtin_theme(name@, t),
            !is_builtin_name(name@) ==> is_auto_theme(light_background, t),
    {
        if str_eq(name, "auto") {
            proof {
                reveal_strlit("auto");
                reveal_strlit("dark");
                reveal_strlit("light");
                reveal_strlit("crt");
                reveal_strlit("cyberpunk");
                assert(name@ == "auto"@);
                assert("auto"@[0] != "dark"@[0]);
                assert("auto"@[0] != "light"@[0]);
                assert("auto"@[0] != "crt"@[0]);
                assert("auto"@[0] != "cyberpunk"@[0]);
                assert(!is_builtin_name(name@));
            }
            return Theme::auto(light_background);
        }
        match Theme::builtin(name) {
            Some(t) => t,
            None => Theme::auto(light_background),
        }
    }

    /// Every style of this theme, in [`theme_styles`] order.
    pub fn styles(&self) -> (out: Vec<Style>)
        ensures
            out@ == theme_styles(*self),
    {
        let v = vec![
            self.heading[0], self.heading[1], self.heading[2], self.heading[3], self.heading[4],
            self.heading[5], self.screen, self.text, self.emph, self.strong, self.strike,
            self.code, self.code_bg, self.quote, self.quote_gutter, self.link,
            self.link_selected, self.table_border, self.table_header, self.list_marker,
            self.task_done, self.search_match, self.search_current, self.status_bar, self.toc,
            self.toc_selected, self.fold_marker, self.diagram, self.warning,
        ];
        assert(v@ =~= theme_styles(*self));
        v
    }

    /// A copy of this theme with every style reduced to `level`.
    pub fn downgraded(&self, level: ColorLevel) -> (t: Theme)
        ensures
            t.name@ == self.name@,
            t.dark == self.dark,
            t.syntax == self.syntax,
            theme_styles(t) == theme_styles(*self).map_values(|s: Style| style_downgrade(s, level)),
    {
        let t = Theme {
            name: to_owned(self.name.as_str()),
            dark: self.dark,
            syntax: self.syntax,
            heading: [
                self.heading[0].downgrade(level),
                self.heading[1].downgrade(level),
                self.heading[2].downgrade(level),
                self.heading[3].downgrade(level),
                self.heading[4].downgrade(level),
                self.heading[5].downgrade(level),
            ],
            screen: self.screen.downgrade(level),
            text: self.text.downgrade(level),
            emph: self.emph.downgrade(level),
            strong: self.strong.downgrade(level),
            strike: self.strike.downgrade(level),
            code: self.code.downgrade(level),
            code_bg: self.code_bg.downgrade(level),
            quote: self.quote.downgrade(level),
            quote_gutter: self.quote_gutter.downgrade(level),
            link: self.link.downgrade(level),
            link_selected: self.link_selected.downgrade(level),
            table_border: self.table_border.downgrade(level),
            table_header: self.table_header.downgrade(level),
            list_marker: self.list_marker.downgrade(level),
            task_done: self.task_done.downgrade(level),
            search_match: self.search_match.downgrade(level),
            search_current: self.search_current.downgrade(level),
            status_bar: self.status_bar.downgrade(level),
            toc: self.toc.downgrade(level),
            toc_selected: self.toc_selected.downgrade(level),
            fold_marker: self.fold_marker.downgrade(level),
            diagram: self.diagram.downgrade(level),
            warning: self.warning.downgrade(level),
        };
        assert(theme_styles(t) =~= theme_styles(*self).map_values(|s: Style| style_downgrade(s, level)));
        t
    }

    /// Style for a heading level (levels outside 1..=6 clamp).
    pub fn heading(&self, level: u8) -> (s: Style)
        ensures
            s == self.heading[if level < 1 { 0 } else if level > 6 { 5 } else { level - 1 }],
    {
        let l: u8 = if level < 1 { 1 } else if level > 6 { 6 } else { level };
        let idx = (l - 1) as usize;
        self.heading[idx]
    }
}

/// The last `;`-separated field of `s` (what `rsplit(';').next()` gives).
pub open spec fn last_field(s: Seq<char>) -> Seq<char>
    decreases s.len(),
{
    if s.len() == 0 {
        s
    } else if s.last() == ';' {
        Seq::empty()
    } else {
        last_field(s.drop_last()).push(s.last())
    }
}

fn last_field_of(s: &[char]) -> (out: Vec<char>)
    ensures
        out@ == last_field(s@),
{
    let mut start = s.len();
    proof {
        assert(s@.take(start as int) == s@);
        assert(s@.skip(start as int) == Seq::<char>::empty());
    }
    while start > 0 && s[start - 1] != ';'
        invariant
            start <= s@.len(),
            forall|k: int| start <= k < s@.len() ==> s@[k] != ';',
            last_field(s@) == last_field(s@.take(start as int)) + s@.skip(start as int),
        decreases start,
    {
        proof {
            let t = s@.take(start as int);
            assert(t.drop_last() == s@.take(start - 1));
            assert(t.last() == s@[start - 1]);
            assert(s@.skip(start - 1) == seq![s@[start - 1]] + s@.skip(start as int));
        }
        start -= 1;
    }
    proof {
        if start > 0 {
            assert(s@.take(start as int).last() == ';');
        }
        assert(last_field(s@.take(start as int)) == Seq::<char>::empty());
    }
    let mut out: Vec<char> = Vec::new();
    let mut k = start;
    while k < s.len()
        invariant
            start <= k <= s@.len(),
            out@ == s@.subrange(start as int, k as int),
        decreases s@.len() - k,
    {
        out.push(s[k]);
        k += 1;
        assert(s@.subrange(start as int, k as int) == s@.subrange(start as int, k - 1).push(s@[k - 1]));
    }
    assert(out@ =~= s@.skip(start as int));
    out
}

/// The background the environment announces: `COLORFGBG` (`fg;bg`, sometimes
/// `fg;default;bg`) decides when its last field is a number, 7 and 15 meaning
/// light; otherwise Apple Terminal (whose factory profile is light) counts as
/// light; anything else as dark.
pub open spec fn light_background_spec(colorfgbg: Option<Seq<char>>, term_program: Option<Seq<char>>) -> bool {
    match colorfgbg {
        Some(v) if parse_u32_spec(trim(last_field(v))) is Some => {
            let idx = parse_u32_spec(trim(last_field(v)))->0;
            idx == 7 || idx == 15
        },
        _ => match term_program {
            Some(p) => p == "Apple_Terminal"@,
            None => false,
        },
    }
}

/// Trivial light-background detection from the `COLORFGBG` and
/// `TERM_PROGRAM` environment values.
pub fn detect_light_background(colorfgbg: Option<&str>, term_program: Option<&str>) -> (b: bool)
    ensures
        b == light_background_spec(
            match colorfgbg { Some(v) => Some(v@), None => None },
            match term_program { Some(v) => Some(v@), None => None },
        ),
{
    if let Some(fgbg) = colorfgbg {
        let cs = chars_of(fgbg);
        let last = last_field_of(cs.as_slice());
        let t = trim_chars(last.as_slice());
        if let Some(idx) = parse_u32(t.as_slice()) {
            return idx == 7 || idx == 15;
        }
    }
    if let Some(prog) = term_program {
        if str_eq(prog, "Apple_Terminal") {
            return true;
        }
    }
    false
}

/// Downgrading keeps a style's text attributes and fits its colours to the
/// level: at 16 colours every colour is a palette index below 16, at 256
/// colours every colour is a palette index, and at no colour there are no
/// colours left, a background turning into reverse video.
pub proof fn law_downgrade_fits_the_level(s: Style, level: ColorLevel)
    ensures
        ({
            let d = style_downgrade(s, level);
            &&& d.bold == s.bold && d.italic == s.italic && d.underline == s.underline
                && d.strikethrough == s.strikethrough
            &&& level == ColorLevel::Ansi16 ==> (d.fg matches Some(c) ==> (c matches Color::Indexed(i) && i < 16))
                && (d.bg matches Some(c) ==> (c matches Color::Indexed(i) && i < 16))
            &&& level == ColorLevel::Ansi256 ==> (d.fg matches Some(c) ==> c is Indexed) && (d.bg matches Some(c)
                ==> c is Indexed)
            &&& level == ColorLevel::NoColor ==> d.fg is None && d.bg is None && (s.bg is Some ==> d.reverse)
            &&& level != ColorLevel::NoColor ==> (d.fg is Some <==> s.fg is Some) && (d.bg is Some <==> s.bg is Some)
        }),
{
    reveal(style_downgrade);
    match s.fg {
        Some(c) => {
            let (r, g, b) = color_rgb(c);
            lemma_nearest16_range((r, g, b), 16);
        },
        None => {},
    }
    match s.bg {
        Some(c) => {
            let (r, g, b) = color_rgb(c);
            lemma_nearest16_range((r, g, b), 16);
        },
        None => {},
    }
}

} // verus!
