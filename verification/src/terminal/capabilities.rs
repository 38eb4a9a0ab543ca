//! Terminal capability detection.
//!
//! Detection is based purely on environment variables, whether standard
//! output is a terminal, and the terminal size; it never writes a query escape
//! sequence to the terminal. The cost is a slightly coarser result, so it
//! always fails toward the conservative mode and lets the user override
//! anything through configuration, `MDLESS_*` variables or flags.
use vstd::prelude::*;
use crate::config::schema::{ColorMode, ImageMode, Osc8Mode};
use crate::util::DEFAULT_CELL_PIXELS;
use crate::util::text::{
    ascii_lower, ascii_upper, chars_of, parse_u32, parse_u32_spec, push_char, push_decimal,
    push_str, seq_contains, starts_with, str_contains, str_eq, str_starts_with, string_of,
    to_ascii_lower, to_ascii_upper, to_owned, trim, trim_chars, trim_str, decimal, push_spaces,
};

verus! {

/// How much colour the terminal can display.
#[derive(Debug, Clone, Copy, PartialEq, Eq, PartialOrd, Ord, Structural)]
pub enum ColorLevel {
    /// Monochrome: no SGR colour sequences at all.
    NoColor,
    /// The 8/16 basic ANSI colours.
    Ansi16,
    /// The 256-colour palette.
    Ansi256,
    /// 24-bit RGB.
    TrueColor,
}

impl Default for ColorLevel {
    fn default() -> (l: Self)
        ensures
            l == ColorLevel::NoColor,
    {
        ColorLevel::NoColor
    }
}

/// The canonical name of a colour level.
pub open spec fn level_name(l: ColorLevel) -> Seq<char> {
    match l {
        ColorLevel::NoColor => "none"@,
        ColorLevel::Ansi16 => "ansi16"@,
        ColorLevel::Ansi256 => "ansi256"@,
        ColorLevel::TrueColor => "truecolor"@,
    }
}

/// The colour level a (trimmed, lower-cased) name stands for.
pub open spec fn level_of_name(n: Seq<char>) -> Option<ColorLevel> {
    if n == "none"@ || n == "off"@ || n == "never"@ || n == "0"@ {
        Some(ColorLevel::NoColor)
    } else if n == "16"@ || n == "ansi16"@ || n == "ansi"@ || n == "basic"@ {
        Some(ColorLevel::Ansi16)
    } else if n == "256"@ || n == "ansi256"@ || n == "256color"@ {
        Some(ColorLevel::Ansi256)
    } else if n == "truecolor"@ || n == "24bit"@ || n == "rgb"@ {
        Some(ColorLevel::TrueColor)
    } else {
        None
    }
}

/// A name as the parsers compare it: trimmed and lower-cased.
pub open spec fn norm(s: Seq<char>) -> Seq<char> {
    ascii_lower(trim(s))
}

fn normalized(s: &str) -> (out: String)
    ensures
        out@ == norm(s@),
{
    let t = trim_str(s);
    to_ascii_lower(t.as_str())
}

fn eq_any(s: &str, options: &[&str]) -> (b: bool)
    ensures
        b == exists|i: int| 0 <= i < options@.len() && s@ == (#[trigger] options@[i])@,
{
    let mut i: usize = 0;
    while i < options.len()
        invariant
            i <= options@.len(),
            forall|j: int| 0 <= j < i ==> s@ != (#[trigger] options@[j])@,
        decreases options@.len() - i,
    {
        if str_eq(s, options[i]) {
            return true;
        }
        i += 1;
    }
    false
}

impl ColorLevel {
    /// Canonical lower-case name used in reports and `MDLESS_COLOR`.
    pub fn as_str(self) -> (s: &'static str)
        ensures
            s@ == level_name(self),
    {
        match self {
            ColorLevel::NoColor => "none",
            ColorLevel::Ansi16 => "ansi16",
            ColorLevel::Ansi256 => "ansi256",
            ColorLevel::TrueColor => "truecolor",
        }
    }

    /// Parse a level name (`none`, `16`, `ansi16`, `256`, `ansi256`,
    /// `truecolor`, `24bit`, ...); `None` for anything else.
    pub fn parse(s: &str) -> (out: Option<ColorLevel>)
        ensures
            out == level_of_name(norm(s@)),
    {
        let n = normalized(s);
        let n = n.as_str();
        if str_eq(n, "none") || str_eq(n, "off") || str_eq(n, "never") || str_eq(n, "0") {
            Some(ColorLevel::NoColor)
        } else if str_eq(n, "16") || str_eq(n, "ansi16") || str_eq(n, "ansi") || str_eq(n, "basic") {
            Some(ColorLevel::Ansi16)
        } else if str_eq(n, "256") || str_eq(n, "ansi256") || str_eq(n, "256color") {
            Some(ColorLevel::Ansi256)
        } else if str_eq(n, "truecolor") || str_eq(n, "24bit") || str_eq(n, "rgb") {
            Some(ColorLevel::TrueColor)
        } else {
            None
        }
    }
}

/// Which inline-image protocol the terminal understands.
#[derive(Debug, Clone, Copy, PartialEq, Eq, Structural)]
pub enum ImageSupport {
    /// No inline images; callers must fall back to text.
    NoImage,
    /// Kitty graphics protocol.
    Kitty,
    /// DEC Sixel graphics.
    Sixel,
    /// iTerm2 inline images (OSC 1337).
    Iterm2,
}

impl Default for ImageSupport {
    fn default() -> (s: Self)
        ensures
            s == ImageSupport::NoImage,
    {
        ImageSupport::NoImage
    }
}

/// The canonical name of an image protocol.
pub open spec fn image_name(s: ImageSupport) -> Seq<char> {
    match s {
        ImageSupport::NoImage => "none"@,
        ImageSupport::Kitty => "kitty"@,
        ImageSupport::Sixel => "sixel"@,
        ImageSupport::Iterm2 => "iterm2"@,
    }
}

/// The protocol a (trimmed, lower-cased) name stands for.
pub open spec fn image_of_name(n: Seq<char>) -> Option<ImageSupport> {
    if n == "none"@ || n == "off"@ || n == "never"@ || n == "0"@ {
        Some(ImageSupport::NoImage)
    } else if n == "kitty"@ {
        Some(ImageSupport::Kitty)
    } else if n == "sixel"@ {
        Some(ImageSupport::Sixel)
    } else if n == "iterm2"@ || n == "iterm"@ {
        Some(ImageSupport::Iterm2)
    } else {
        None
    }
}

impl ImageSupport {
    /// Canonical lower-case name used in reports and `MDLESS_IMAGES`.
    pub fn as_str(self) -> (s: &'static str)
        ensures
            s@ == image_name(self),
    {
        match self {
            ImageSupport::NoImage => "none",
            ImageSupport::Kitty => "kitty",
            ImageSupport::Sixel => "sixel",
            ImageSupport::Iterm2 => "iterm2",
        }
    }

    /// Parse a protocol name; `None` for unknown values.
    pub fn parse(s: &str) -> (out: Option<ImageSupport>)
        ensures
            out == image_of_name(norm(s@)),
    {
        let n = normalized(s);
        let n = n.as_str();
        if str_eq(n, "none") || str_eq(n, "off") || str_eq(n, "never") || str_eq(n, "0") {
            Some(ImageSupport::NoImage)
        } else if str_eq(n, "kitty") {
            Some(ImageSupport::Kitty)
        } else if str_eq(n, "sixel") {
            Some(ImageSupport::Sixel)
        } else if str_eq(n, "iterm2") || str_eq(n, "iterm") {
            Some(ImageSupport::Iterm2)
        } else {
            None
        }
    }

    /// Whether any inline-image protocol is available.
    pub fn is_some(self) -> (b: bool)
        ensures
            b == (self != ImageSupport::NoImage),
    {
        !matches!(self, ImageSupport::NoImage)
    }
}

/// Terminal geometry passed into the pure detection core.
#[derive(Debug, Clone, Copy, PartialEq, Eq)]
pub struct TerminalSize {
    /// Width in cells.
    pub cols: u16,
    /// Height in cells.
    pub rows: u16,
    /// Size of one cell in pixels, if the terminal reported it.
    pub cell_pixels: Option<(u16, u16)>,
    /// Whether the output stream is a terminal.
    pub is_tty: bool,
}

impl Default for TerminalSize {
    fn default() -> (s: Self)
        ensures
            s == (TerminalSize { cols: 80, rows: 24, cell_pixels: None, is_tty: true }),
    {
        TerminalSize { cols: 80, rows: 24, cell_pixels: None, is_tty: true }
    }
}

/// The size a terminal query settles on: the reported size when both
/// dimensions are positive (80x24 otherwise), and the cell size in pixels
/// when the window's pixel size and cell counts are all positive.
pub open spec fn settled_size(
    is_tty: bool,
    cells: Option<(u16, u16)>,
    window: Option<(u16, u16, u16, u16)>,
) -> TerminalSize {
    let (cols, rows) = match cells {
        Some((c, r)) if c > 0 && r > 0 => (c, r),
        _ => (80u16, 24u16),
    };
    let cell_pixels = match window {
        Some((w, h, c, r)) if w > 0 && h > 0 && c > 0 && r > 0 => Some(((w / c) as u16, (h / r) as u16)),
        _ => None,
    };
    TerminalSize { cols, rows, cell_pixels, is_tty }
}

impl TerminalSize {
    /// A non-interactive fallback: 80x24, not a tty.
    pub fn non_tty() -> (s: Self)
        ensures
            s == (TerminalSize { cols: 80, rows: 24, cell_pixels: None, is_tty: false }),
    {
        TerminalSize { cols: 80, rows: 24, cell_pixels: None, is_tty: false }
    }

    /// The geometry from what the terminal reported: `cells` is its
    /// `(columns, rows)`, `window` its `(width px, height px, columns, rows)`.
    /// Never fails: an unavailable report yields the conservative default.
    pub fn from_report(
        is_tty: bool,
        cells: Option<(u16, u16)>,
        window: Option<(u16, u16, u16, u16)>,
    ) -> (s: Self)
        ensures
            s == settled_size(is_tty, cells, window),
    {
        let mut size = TerminalSize { cols: 80, rows: 24, cell_pixels: None, is_tty };
        if let Some((cols, rows)) = cells {
            if cols > 0 && rows > 0 {
                size.cols = cols;
                size.rows = rows;
            }
        }
        if let Some((w, h, c, r)) = window {
            if w > 0 && h > 0 && c > 0 && r > 0 {
                size.cell_pixels = Some((w / c, h / r));
            }
        }
        size
    }
}

/// One decision made by [`detect_from`], for the capability report.
#[derive(Debug, Clone, PartialEq, Eq)]
pub struct Evidence {
    /// Capability name, e.g. `color`.
    pub capability: &'static str,
    /// The resulting value, e.g. `truecolor`.
    pub value: String,
    /// What decided it, e.g. `COLORTERM=truecolor`.
    pub reason: String,
}

/// Explicit overrides applied on top of detection (configuration and
/// command line; `MDLESS_*` variables are part of the environment).
#[derive(Debug, Clone, Copy, PartialEq, Eq, Structural)]
pub struct CapabilityOverrides {
    /// `color` / `--color`.
    pub color: Option<ColorMode>,
    /// Force an exact colour level.
    pub color_level: Option<ColorLevel>,
    /// `links.osc8`.
    pub osc8: Option<Osc8Mode>,
    /// `mermaid.images` / `--mermaid-images`.
    pub images: Option<ImageMode>,
    /// Force a specific image protocol.
    pub image_protocol: Option<ImageSupport>,
    /// `mouse` / `--mouse` / `--no-mouse`.
    pub mouse: Option<bool>,
    /// `--width`.
    pub width: Option<u16>,
    /// Force Unicode box drawing on or off.
    pub unicode_box: Option<bool>,
    /// Assume tmux passthrough is enabled.
    pub allow_passthrough: Option<bool>,
}

impl Default for CapabilityOverrides {
    fn default() -> (o: Self)
        ensures
            o == CapabilityOverrides::none(),
    {
        CapabilityOverrides::none()
    }
}

impl CapabilityOverrides {
    /// No override at all.
    #[verifier::allow_in_spec]
    pub fn none() -> Self
        returns
            (CapabilityOverrides {
                color: None,
                color_level: None,
                osc8: None,
                images: None,
                image_protocol: None,
                mouse: None,
                width: None,
                unicode_box: None,
                allow_passthrough: None,
            }),
    {
        CapabilityOverrides {
            color: None,
            color_level: None,
            osc8: None,
            images: None,
            image_protocol: None,
            mouse: None,
            width: None,
            unicode_box: None,
            allow_passthrough: None,
        }
    }

    /// The overrides implied by the configuration's `color`, `links.osc8`,
    /// `mermaid.images` and `mouse` settings.
    pub fn from_config(color: ColorMode, osc8: Osc8Mode, images: ImageMode, mouse: bool) -> (o: Self)
        ensures
            o == (CapabilityOverrides {
                color: Some(color),
                osc8: Some(osc8),
                images: Some(images),
                mouse: Some(mouse),
                ..CapabilityOverrides::none()
            }),
    {
        CapabilityOverrides {
            color: Some(color),
            osc8: Some(osc8),
            images: Some(images),
            mouse: Some(mouse),
            ..CapabilityOverrides::none()
        }
    }
}

/// The process environment as name/value pairs; a later pair for the same
/// name replaces an earlier one.
#[derive(Debug, Clone)]
pub struct Env {
    /// The pairs, in the order they were set.
    pub vars: Vec<(String, String)>,
}

/// The pairs of an environment as plain values.
pub open spec fn env_pairs(e: Env) -> Seq<(Seq<char>, Seq<char>)> {
    e.vars@.map_values(|p: (String, String)| (p.0@, p.1@))
}

/// The value of `k` in `pairs`: that of its last pair, if any.
pub open spec fn lookup(pairs: Seq<(Seq<char>, Seq<char>)>, k: Seq<char>) -> Option<Seq<char>>
    decreases pairs.len(),
{
    if pairs.len() == 0 {
        None
    } else if pairs.last().0 == k {
        Some(pairs.last().1)
    } else {
        lookup(pairs.drop_last(), k)
    }
}

impl Env {
    /// The empty environment.
    pub fn new() -> (e: Env)
        ensures
            env_pairs(e).len() == 0,
    {
        let e = Env { vars: Vec::new() };
        assert(env_pairs(e) =~= Seq::<(Seq<char>, Seq<char>)>::empty());
        e
    }

    /// Set `key` to `value`.
    pub fn set(&mut self, key: &str, value: &str)
        ensures
            env_pairs(*final(self)) == env_pairs(*old(self)).push((key@, value@)),
    {
        let ghost before = env_pairs(*self);
        self.vars.push((to_owned(key), to_owned(value)));
        assert(env_pairs(*self) =~= before.push((key@, value@)));
    }

    /// The value of `key`, if it is set.
    pub fn get(&self, key: &str) -> (out: Option<&str>)
        ensures
            match out {
                Some(v) => lookup(env_pairs(*self), key@) == Some(v@),
                None => lookup(env_pairs(*self), key@) is None,
            },
    {
        let ghost ps = env_pairs(*self);
        let mut i = self.vars.len();
        assert(ps.take(i as int) == ps);
        while i > 0
            invariant
                i <= self.vars@.len(),
                ps == env_pairs(*self),
                lookup(ps, key@) == lookup(ps.take(i as int), key@),
            decreases i,
        {
            proof {
                assert(ps.take(i as int).last() == ps[i - 1]);
                assert(ps.take(i as int).drop_last() == ps.take(i - 1));
            }
            if str_eq(self.vars[i - 1].0.as_str(), key) {
                return Some(self.vars[i - 1].1.as_str());
            }
            i -= 1;
        }
        None
    }

    /// Whether `key` is set.
    pub fn contains(&self, key: &str) -> (b: bool)
        ensures
            b == (lookup(env_pairs(*self), key@) is Some),
    {
        self.get(key).is_some()
    }
}


/// The value of `k` in an environment.
pub open spec fn env_get(e: Env, k: Seq<char>) -> Option<Seq<char>> {
    lookup(env_pairs(e), k)
}

/// Whether `k` is set in an environment.
pub open spec fn env_has(e: Env, k: Seq<char>) -> bool {
    env_get(e, k) is Some
}

/// A flag value that counts as "on": `1`, `true`, `yes` or `on` (trimmed,
/// any case).
pub open spec fn truthy_spec(v: Option<Seq<char>>) -> bool {
    match v {
        Some(s) => {
            let n = norm(s);
            n == "1"@ || n == "true"@ || n == "yes"@ || n == "on"@
        },
        None => false,
    }
}

/// A boolean setting: `1/true/yes/on/always` or `0/false/no/off/never`.
pub open spec fn parse_bool_spec(v: Option<Seq<char>>) -> Option<bool> {
    match v {
        Some(s) => {
            let n = norm(s);
            if n == "1"@ || n == "true"@ || n == "yes"@ || n == "on"@ || n == "always"@ {
                Some(true)
            } else if n == "0"@ || n == "false"@ || n == "no"@ || n == "off"@ || n == "never"@ {
                Some(false)
            } else {
                None
            }
        },
        None => None,
    }
}

/// An optional `&str` as an optional character sequence.
pub open spec fn opt_view(v: Option<&str>) -> Option<Seq<char>> {
    match v {
        Some(s) => Some(s@),
        None => None,
    }
}

/// Whether a flag value counts as "on".
pub fn truthy(value: Option<&str>) -> (b: bool)
    ensures
        b == truthy_spec(opt_view(value)),
{
    match value {
        Some(v) => {
            let n = normalized(v);
            let n = n.as_str();
            str_eq(n, "1") || str_eq(n, "true") || str_eq(n, "yes") || str_eq(n, "on")
        },
        None => false,
    }
}

/// Parse a boolean setting.
pub fn parse_bool(value: Option<&str>) -> (out: Option<bool>)
    ensures
        out == parse_bool_spec(opt_view(value)),
{
    match value {
        Some(v) => {
            let n = normalized(v);
            let n = n.as_str();
            if str_eq(n, "1") || str_eq(n, "true") || str_eq(n, "yes") || str_eq(n, "on") || str_eq(n, "always") {
                Some(true)
            } else if str_eq(n, "0") || str_eq(n, "false") || str_eq(n, "no") || str_eq(n, "off") || str_eq(n, "never") {
                Some(false)
            } else {
                None
            }
        },
        None => None,
    }
}

/// The part of `s` before its first `.` (all of it when there is none).
pub open spec fn before_dot(s: Seq<char>) -> Seq<char>
    decreases s.len(),
{
    if s.len() == 0 {
        s
    } else if s[0] == '.' {
        Seq::empty()
    } else {
        seq![s[0]] + before_dot(s.drop_first())
    }
}

/// The part of `s` after its first `.`, if it has one.
pub open spec fn after_dot(s: Seq<char>) -> Option<Seq<char>>
    decreases s.len(),
{
    if s.len() == 0 {
        None
    } else if s[0] == '.' {
        Some(s.drop_first())
    } else {
        after_dot(s.drop_first())
    }
}

/// `"3.4.19"` gives `(3, 4)`: the first two dot-separated numbers, the minor
/// one 0 when it is missing or not a number.
pub open spec fn parse_version_spec(v: Seq<char>) -> Option<(u32, u32)> {
    let t = trim(v);
    match parse_u32_spec(before_dot(t)) {
        Some(major) => {
            let minor = match after_dot(t) {
                Some(r) => match parse_u32_spec(before_dot(r)) {
                    Some(m) => m,
                    None => 0,
                },
                None => 0,
            };
            Some((major, minor))
        },
        None => None,
    }
}

/// `VTE_VERSION` is the version scaled by 100 per component: `6003` is
/// 0.60.3, giving `(0, 60)`.
pub open spec fn parse_vte_spec(v: Seq<char>) -> Option<(u32, u32)> {
    match parse_u32_spec(trim(v)) {
        Some(n) => Some((0u32, n / 100)),
        None => None,
    }
}

/// `KONSOLE_VERSION` is e.g. `211200` (21.12.0); older ones are dotted.
pub open spec fn parse_konsole_spec(v: Seq<char>) -> Option<(u32, u32)> {
    match parse_u32_spec(trim(v)) {
        Some(n) => if n >= 100_000 {
            Some((n / 10_000, (n / 100) % 100))
        } else {
            parse_version_spec(v)
        },
        None => None,
    }
}

/// Index of the first `.` of `s` at or after `from`, or `s.len()`.
fn find_dot(s: &[char], from: usize) -> (i: usize)
    requires
        from <= s@.len(),
    ensures
        from <= i <= s@.len(),
        i < s@.len() ==> s@[i as int] == '.',
        forall|k: int| from <= k < i ==> s@[k] != '.',
{
    let mut i = from;
    while i < s.len() && s[i] != '.'
        invariant
            from <= i <= s@.len(),
            forall|k: int| from <= k < i ==> s@[k] != '.',
        decreases s@.len() - i,
    {
        i += 1;
    }
    i
}

proof fn lemma_dot_split(s: Seq<char>, i: int)
    requires
        0 <= i <= s.len(),
        i < s.len() ==> s[i] == '.',
        forall|k: int| 0 <= k < i ==> s[k] != '.',
    ensures
        before_dot(s) == s.take(i),
        after_dot(s) == if i < s.len() { Some(s.skip(i + 1)) } else { None },
    decreases s.len(),
{
    if s.len() > 0 && i > 0 {
        lemma_dot_split(s.drop_first(), i - 1);
        assert(seq![s[0]] + s.drop_first().take(i - 1) == s.take(i));
        if i < s.len() {
            assert(s.drop_first().skip(i) =~= s.skip(i + 1));
        }
    } else if s.len() > 0 {
        assert(s.take(0) == Seq::<char>::empty());
        assert(s.drop_first() == s.skip(1));
    } else {
        assert(s.take(0) == s);
    }
}

fn chars_between(s: &[char], lo: usize, hi: usize) -> (out: Vec<char>)
    requires
        lo <= hi <= s@.len(),
    ensures
        out@ == s@.subrange(lo as int, hi as int),
{
    let mut out: Vec<char> = Vec::new();
    let mut k = lo;
    while k < hi
        invariant
            lo <= k <= hi <= s@.len(),
            out@ == s@.subrange(lo as int, k as int),
        decreases hi - k,
    {
        out.push(s[k]);
        k += 1;
        assert(s@.subrange(lo as int, k as int) == s@.subrange(lo as int, k - 1).push(s@[k - 1]));
    }
    out
}

/// Parse a dotted version: `"3.4.19"` gives `(3, 4)`.
pub fn parse_version(value: &str) -> (out: Option<(u32, u32)>)
    ensures
        out == parse_version_spec(value@),
{
    let cs = chars_of(value);
    let t = trim_chars(cs.as_slice());
    let d1 = find_dot(t.as_slice(), 0);
    proof {
        lemma_dot_split(t@, d1 as int);
    }
    let first = chars_between(t.as_slice(), 0, d1);
    let major = match parse_u32(first.as_slice()) {
        Some(m) => m,
        None => return None,
    };
    if d1 >= t.len() {
        return Some((major, 0));
    }
    let d2 = find_dot(t.as_slice(), d1 + 1);
    let ghost r = t@.skip(d1 + 1);
    proof {
        assert forall|k: int| 0 <= k < d2 - (d1 + 1) implies r[k] != '.' by {
            assert(r[k] == t@[d1 + 1 + k]);
        }
        if d2 < t@.len() {
            assert(r[d2 - (d1 + 1)] == t@[d2 as int]);
        }
        lemma_dot_split(r, d2 - (d1 + 1));
        assert(r.take(d2 - (d1 + 1)) == t@.subrange(d1 + 1, d2 as int));
    }
    let second = chars_between(t.as_slice(), d1 + 1, d2);
    let minor = match parse_u32(second.as_slice()) {
        Some(m) => m,
        None => 0,
    };
    Some((major, minor))
}

/// Parse `VTE_VERSION`: `6003` gives `(0, 60)`.
pub fn parse_vte_version(value: &str) -> (out: Option<(u32, u32)>)
    ensures
        out == parse_vte_spec(value@),
{
    let cs = chars_of(value);
    let t = trim_chars(cs.as_slice());
    match parse_u32(t.as_slice()) {
        Some(n) => Some((0, n / 100)),
        None => None,
    }
}

/// Parse `KONSOLE_VERSION`: `211200` gives `(21, 12)`.
pub fn parse_konsole_version(value: &str) -> (out: Option<(u32, u32)>)
    ensures
        out == parse_konsole_spec(value@),
{
    let cs = chars_of(value);
    let t = trim_chars(cs.as_slice());
    match parse_u32(t.as_slice()) {
        Some(n) => if n >= 100_000 {
            Some((n / 10_000, (n / 100) % 100))
        } else {
            parse_version(value)
        },
        None => None,
    }
}


/// `a` followed by `b`.
fn cat(a: &str, b: &str) -> (out: String)
    ensures
        out@ == a@ + b@,
{
    let mut out = to_owned(a);
    push_str(&mut out, b);
    out
}

/// `true` or `false`.
pub open spec fn bool_text(b: bool) -> Seq<char> {
    if b {
        "true"@
    } else {
        "false"@
    }
}

fn bool_str(b: bool) -> (s: &'static str)
    ensures
        s@ == bool_text(b),
{
    if b {
        "true"
    } else {
        "false"
    }
}

/// A recognised terminal emulator family.
#[derive(Debug, Clone, Copy, PartialEq, Eq, Structural)]
pub enum Family {
    /// kitty.
    Kitty,
    /// WezTerm.
    WezTerm,
    /// iTerm2.
    Iterm2,
    /// Apple Terminal.
    AppleTerminal,
    /// Konsole.
    Konsole,
    /// foot.
    Foot,
    /// mlterm.
    Mlterm,
    /// contour.
    Contour,
    /// A VTE-based terminal (GNOME Terminal and friends).
    Vte,
    /// Windows Terminal.
    WindowsTerminal,
    /// Alacritty.
    Alacritty,
    /// An xterm or xterm-compatible terminal.
    Xterm,
    /// `TERM=dumb`.
    Dumb,
    /// Anything else.
    Unknown,
}

/// The family the environment points at, `term` and `program` being the
/// lower-cased `TERM` and `TERM_PROGRAM`.
pub open spec fn ident_family(e: Env, term: Seq<char>, program: Seq<char>) -> Family {
    if term == "dumb"@ {
        Family::Dumb
    } else if env_has(e, "KITTY_WINDOW_ID"@) || seq_contains(term, "kitty"@) {
        Family::Kitty
    } else if env_has(e, "WEZTERM_EXECUTABLE"@) || program == "wezterm"@ {
        Family::WezTerm
    } else if program == "iterm.app"@ {
        Family::Iterm2
    } else if program == "apple_terminal"@ {
        Family::AppleTerminal
    } else if env_has(e, "KONSOLE_VERSION"@) {
        Family::Konsole
    } else if starts_with(term, "foot"@) {
        Family::Foot
    } else if starts_with(term, "mlterm"@) {
        Family::Mlterm
    } else if starts_with(term, "contour"@) || program == "contour"@ {
        Family::Contour
    } else if env_has(e, "WT_SESSION"@) {
        Family::WindowsTerminal
    } else if starts_with(term, "alacritty"@) || env_has(e, "ALACRITTY_WINDOW_ID"@) {
        Family::Alacritty
    } else if env_has(e, "VTE_VERSION"@) {
        Family::Vte
    } else if starts_with(term, "xterm"@) {
        Family::Xterm
    } else {
        Family::Unknown
    }
}

/// Why the terminal is identified as it is: the variable or `TERM` value
/// that decided it.
pub open spec fn ident_reason(e: Env, term: Seq<char>, program: Seq<char>) -> Seq<char> {
    if term == "dumb"@ {
        "TERM=dumb"@
    } else if env_has(e, "KITTY_WINDOW_ID"@) {
        "KITTY_WINDOW_ID is set"@
    } else if seq_contains(term, "kitty"@) {
        "TERM="@ + term
    } else if env_has(e, "WEZTERM_EXECUTABLE"@) || program == "wezterm"@ {
        "WEZTERM_EXECUTABLE/TERM_PROGRAM=WezTerm"@
    } else if program == "iterm.app"@ {
        "TERM_PROGRAM=iTerm.app"@
    } else if program == "apple_terminal"@ {
        "TERM_PROGRAM=Apple_Terminal"@
    } else if env_has(e, "KONSOLE_VERSION"@) {
        "KONSOLE_VERSION="@ + env_get(e, "KONSOLE_VERSION"@)->Some_0
    } else if starts_with(term, "foot"@) || starts_with(term, "mlterm"@) {
        "TERM="@ + term
    } else if starts_with(term, "contour"@) || program == "contour"@ {
        "contour"@
    } else if env_has(e, "WT_SESSION"@) {
        "WT_SESSION is set"@
    } else if starts_with(term, "alacritty"@) || env_has(e, "ALACRITTY_WINDOW_ID"@) {
        "TERM=alacritty*/ALACRITTY_WINDOW_ID"@
    } else if env_has(e, "VTE_VERSION"@) {
        "VTE_VERSION="@ + env_get(e, "VTE_VERSION"@)->Some_0
    } else if term.len() == 0 {
        "TERM is unset"@
    } else {
        "TERM="@ + term
    }
}

/// The report name of a family.
pub open spec fn family_name(f: Family) -> Seq<char> {
    match f {
        Family::Kitty => "kitty"@,
        Family::WezTerm => "wezterm"@,
        Family::Iterm2 => "iterm2"@,
        Family::AppleTerminal => "apple-terminal"@,
        Family::Konsole => "konsole"@,
        Family::Foot => "foot"@,
        Family::Mlterm => "mlterm"@,
        Family::Contour => "contour"@,
        Family::Vte => "vte"@,
        Family::WindowsTerminal => "windows-terminal"@,
        Family::Alacritty => "alacritty"@,
        Family::Xterm => "xterm"@,
        Family::Dumb => "dumb"@,
        Family::Unknown => "unknown"@,
    }
}

/// The emulator version the environment exposes for a family.
pub open spec fn ident_version(e: Env, f: Family) -> Option<(u32, u32)> {
    match f {
        Family::Iterm2 => match env_get(e, "TERM_PROGRAM_VERSION"@) {
            Some(v) => parse_version_spec(v),
            None => None,
        },
        Family::Konsole => match env_get(e, "KONSOLE_VERSION"@) {
            Some(v) => parse_konsole_spec(v),
            None => None,
        },
        Family::Vte => match env_get(e, "VTE_VERSION"@) {
            Some(v) => parse_vte_spec(v),
            None => None,
        },
        _ => None,
    }
}

/// The identified terminal.
#[derive(Debug, Clone)]
pub struct TerminalIdent {
    /// Emulator family.
    pub family: Family,
    /// Report name.
    pub name: &'static str,
    /// What identified it.
    pub reason: String,
    /// Parsed emulator version, when the environment exposes one.
    pub version: Option<(u32, u32)>,
}

fn ident(family: Family, name: &'static str, reason: String, version: Option<(u32, u32)>) -> (t: TerminalIdent)
    ensures
        t.family == family,
        t.name == name,
        t.version == version,
        t.reason == reason,
{
    TerminalIdent { family, name, reason, version }
}

impl TerminalIdent {
    /// Identify the terminal; `term` and `program` are the lower-cased
    /// `TERM` and `TERM_PROGRAM`.
    pub fn detect(env: &Env, term: &str, program: &str) -> (t: TerminalIdent)
        ensures
            t.family == ident_family(*env, term@, program@),
            t.name@ == family_name(t.family),
            t.version == ident_version(*env, t.family),
            t.reason@ == ident_reason(*env, term@, program@),
    {
        proof {
            reveal_strlit("dumb");
            reveal_strlit("TERM=dumb");
            reveal_strlit("KITTY_WINDOW_ID");
            reveal_strlit("KITTY_WINDOW_ID is set");
            reveal_strlit("kitty");
            reveal_strlit("TERM=");
            reveal_strlit("WEZTERM_EXECUTABLE");
            reveal_strlit("wezterm");
            reveal_strlit("WEZTERM_EXECUTABLE/TERM_PROGRAM=WezTerm");
            reveal_strlit("iterm.app");
            reveal_strlit("TERM_PROGRAM=iTerm.app");
            reveal_strlit("apple_terminal");
            reveal_strlit("TERM_PROGRAM=Apple_Terminal");
            reveal_strlit("KONSOLE_VERSION");
            reveal_strlit("KONSOLE_VERSION=");
            reveal_strlit("foot");
            reveal_strlit("mlterm");
            reveal_strlit("contour");
            reveal_strlit("WT_SESSION");
            reveal_strlit("WT_SESSION is set");
            reveal_strlit("alacritty");
            reveal_strlit("ALACRITTY_WINDOW_ID");
            reveal_strlit("TERM=alacritty*/ALACRITTY_WINDOW_ID");
            reveal_strlit("VTE_VERSION");
            reveal_strlit("VTE_VERSION=");
            reveal_strlit("xterm");
            reveal_strlit("TERM is unset");
        }
        if str_eq(term, "dumb") {
            return ident(Family::Dumb, "dumb", to_owned("TERM=dumb"), None);
        }
        if env.contains("KITTY_WINDOW_ID") {
            return ident(Family::Kitty, "kitty", to_owned("KITTY_WINDOW_ID is set"), None);
        }
        if str_contains(term, "kitty") {
            return ident(Family::Kitty, "kitty", cat("TERM=", term), None);
        }
        if env.contains("WEZTERM_EXECUTABLE") || str_eq(program, "wezterm") {
            return ident(Family::WezTerm, "wezterm", to_owned("WEZTERM_EXECUTABLE/TERM_PROGRAM=WezTerm"), None);
        }
        if str_eq(program, "iterm.app") {
            let version = match env.get("TERM_PROGRAM_VERSION") {
                Some(v) => parse_version(v),
                None => None,
            };
            return ident(Family::Iterm2, "iterm2", to_owned("TERM_PROGRAM=iTerm.app"), version);
        }
        if str_eq(program, "apple_terminal") {
            return ident(Family::AppleTerminal, "apple-terminal", to_owned("TERM_PROGRAM=Apple_Terminal"), None);
        }
        if let Some(v) = env.get("KONSOLE_VERSION") {
            return ident(Family::Konsole, "konsole", cat("KONSOLE_VERSION=", v), parse_konsole_version(v));
        }
        if str_starts_with(term, "foot") {
            return ident(Family::Foot, "foot", cat("TERM=", term), None);
        }
        if str_starts_with(term, "mlterm") {
            return ident(Family::Mlterm, "mlterm", cat("TERM=", term), None);
        }
        if str_starts_with(term, "contour") || str_eq(program, "contour") {
            return ident(Family::Contour, "contour", to_owned("contour"), None);
        }
        if env.contains("WT_SESSION") {
            return ident(Family::WindowsTerminal, "windows-terminal", to_owned("WT_SESSION is set"), None);
        }
        if str_starts_with(term, "alacritty") || env.contains("ALACRITTY_WINDOW_ID") {
            return ident(Family::Alacritty, "alacritty", to_owned("TERM=alacritty*/ALACRITTY_WINDOW_ID"), None);
        }
        if let Some(v) = env.get("VTE_VERSION") {
            return ident(Family::Vte, "vte", cat("VTE_VERSION=", v), parse_vte_version(v));
        }
        if str_starts_with(term, "xterm") {
            return ident(Family::Xterm, "xterm", cat("TERM=", term), None);
        }
        if term.is_empty() {
            return ident(Family::Unknown, "unknown", to_owned("TERM is unset"), None);
        }
        ident(Family::Unknown, "unknown", cat("TERM=", term), None)
    }
}

/// Whether a family is a known true-colour terminal.
pub open spec fn truecolor_family(f: Family) -> bool {
    f == Family::Kitty || f == Family::WezTerm || f == Family::Iterm2 || f == Family::Foot
        || f == Family::Contour
}

/// The colour depth the terminal announces.
pub open spec fn color_depth_spec(term: Seq<char>, colorterm: Seq<char>, f: Family) -> ColorLevel {
    if colorterm == "truecolor"@ || colorterm == "24bit"@ {
        ColorLevel::TrueColor
    } else if seq_contains(term, "truecolor"@) || seq_contains(term, "direct"@) {
        ColorLevel::TrueColor
    } else if truecolor_family(f) {
        ColorLevel::TrueColor
    } else if seq_contains(term, "256color"@) {
        ColorLevel::Ansi256
    } else if colorterm.len() > 0 {
        ColorLevel::Ansi16
    } else if term.len() == 0 {
        ColorLevel::NoColor
    } else {
        ColorLevel::Ansi16
    }
}

/// Why the terminal announces the depth [`color_depth_spec`] gives: the
/// variable or terminal that decided it.
pub open spec fn color_depth_reason(term: Seq<char>, colorterm: Seq<char>, f: Family, name: Seq<char>) -> Seq<char> {
    if colorterm == "truecolor"@ || colorterm == "24bit"@ {
        "COLORTERM="@ + colorterm
    } else if seq_contains(term, "truecolor"@) || seq_contains(term, "direct"@) {
        "TERM="@ + term
    } else if truecolor_family(f) {
        "known true-colour terminal: "@ + name
    } else if seq_contains(term, "256color"@) {
        "TERM="@ + term
    } else if colorterm.len() > 0 {
        "COLORTERM="@ + colorterm
    } else if term.len() == 0 {
        "TERM is unset"@
    } else {
        "TERM="@ + term
    }
}

fn color_depth(term: &str, colorterm: &str, id: &TerminalIdent) -> (out: (ColorLevel, String))
    ensures
        out.0 == color_depth_spec(term@, colorterm@, id.family),
        out.1@ == color_depth_reason(term@, colorterm@, id.family, id.name@),
{
    if str_eq(colorterm, "truecolor") || str_eq(colorterm, "24bit") {
        return (ColorLevel::TrueColor, cat("COLORTERM=", colorterm));
    }
    if str_contains(term, "truecolor") || str_contains(term, "direct") {
        return (ColorLevel::TrueColor, cat("TERM=", term));
    }
    match id.family {
        Family::Kitty | Family::WezTerm | Family::Iterm2 | Family::Foot | Family::Contour => {
            return (ColorLevel::TrueColor, cat("known true-colour terminal: ", id.name));
        },
        _ => {},
    }
    if str_contains(term, "256color") {
        return (ColorLevel::Ansi256, cat("TERM=", term));
    }
    if !colorterm.is_empty() {
        return (ColorLevel::Ansi16, cat("COLORTERM=", colorterm));
    }
    if term.is_empty() {
        return (ColorLevel::NoColor, to_owned("TERM is unset"));
    }
    (ColorLevel::Ansi16, cat("TERM=", term))
}

/// `CLICOLOR_FORCE` is set to something other than empty or `0`.
pub open spec fn clicolor_forced(e: Env) -> bool {
    match env_get(e, "CLICOLOR_FORCE"@) {
        Some(v) => v.len() > 0 && v != "0"@,
        None => false,
    }
}

/// The colour level detected before any override: `NO_COLOR` wins, then
/// `CLICOLOR_FORCE` (at least 16 colours, even without a terminal), then no
/// colour without a terminal, for `CLICOLOR=0` or a dumb terminal, and
/// otherwise the depth the terminal announces.
pub open spec fn detected_color(e: Env, term: Seq<char>, colorterm: Seq<char>, f: Family, is_tty: bool) -> ColorLevel {
    if env_has(e, "NO_COLOR"@) {
        ColorLevel::NoColor
    } else if clicolor_forced(e) {
        let d = color_depth_spec(term, colorterm, f);
        if d == ColorLevel::NoColor {
            ColorLevel::Ansi16
        } else {
            d
        }
    } else if !is_tty {
        ColorLevel::NoColor
    } else if env_get(e, "CLICOLOR"@) == Some("0"@) {
        ColorLevel::NoColor
    } else if f == Family::Dumb {
        ColorLevel::NoColor
    } else {
        color_depth_spec(term, colorterm, f)
    }
}

/// Why the colour level [`detected_color`] gives was chosen.
pub open spec fn detected_color_reason(e: Env, term: Seq<char>, colorterm: Seq<char>, f: Family, name: Seq<char>, is_tty: bool) -> Seq<char> {
    if env_has(e, "NO_COLOR"@) {
        "NO_COLOR is set"@
    } else if clicolor_forced(e) {
        "CLICOLOR_FORCE ("@ + color_depth_reason(term, colorterm, f, name) + ")"@
    } else if !is_tty {
        "stdout is not a terminal"@
    } else if env_get(e, "CLICOLOR"@) == Some("0"@) {
        "CLICOLOR=0"@
    } else if f == Family::Dumb {
        "TERM=dumb"@
    } else {
        color_depth_reason(term, colorterm, f, name)
    }
}

fn detect_color(term: &str, colorterm: &str, id: &TerminalIdent, is_tty: bool, env: &Env) -> (out: (ColorLevel, String))
    ensures
        out.0 == detected_color(*env, term@, colorterm@, id.family, is_tty),
        out.1@ == detected_color_reason(*env, term@, colorterm@, id.family, id.name@, is_tty),
{
    if env.contains("NO_COLOR") {
        return (ColorLevel::NoColor, to_owned("NO_COLOR is set"));
    }
    let forced = match env.get("CLICOLOR_FORCE") {
        Some(v) => !v.is_empty() && !str_eq(v, "0"),
        None => false,
    };
    if forced {
        let (level, why) = color_depth(term, colorterm, id);
        let level = match level {
            ColorLevel::NoColor => ColorLevel::Ansi16,
            other => other,
        };
        let mut reason = cat("CLICOLOR_FORCE (", why.as_str());
        push_char(&mut reason, ')');
        proof {
            reveal_strlit(")");
            assert(reason@ == "CLICOLOR_FORCE ("@ + why@ + ")"@);
        }
        return (level, reason);
    }
    if !is_tty {
        return (ColorLevel::NoColor, to_owned("stdout is not a terminal"));
    }
    let clicolor_off = match env.get("CLICOLOR") {
        Some(v) => str_eq(v, "0"),
        None => false,
    };
    if clicolor_off {
        return (ColorLevel::NoColor, to_owned("CLICOLOR=0"));
    }
    if let Family::Dumb = id.family {
        return (ColorLevel::NoColor, to_owned("TERM=dumb"));
    }
    color_depth(term, colorterm, id)
}

/// What a locale variable says of UTF-8, when it is set and not empty.
pub open spec fn locale_utf8(v: Option<Seq<char>>) -> Option<bool> {
    match v {
        Some(s) if s.len() > 0 => {
            let up = ascii_upper(s);
            Some(seq_contains(up, "UTF-8"@) || seq_contains(up, "UTF8"@))
        },
        _ => None,
    }
}

/// Unicode box drawing is safe when the first of `LC_ALL`, `LC_CTYPE` and
/// `LANG` that is set and not empty announces UTF-8.
pub open spec fn detected_unicode(e: Env) -> bool {
    match locale_utf8(env_get(e, "LC_ALL"@)) {
        Some(b) => b,
        None => match locale_utf8(env_get(e, "LC_CTYPE"@)) {
            Some(b) => b,
            None => match locale_utf8(env_get(e, "LANG"@)) {
                Some(b) => b,
                None => false,
            },
        },
    }
}

fn locale_decides(env: &Env, var: &'static str) -> (out: Option<(bool, String)>)
    ensures
        match out {
            Some((b, r)) => locale_utf8(env_get(*env, var@)) == Some(b) && r@ == locale_reason(
                var@,
                env_get(*env, var@)->Some_0,
            ),
            None => locale_utf8(env_get(*env, var@)) is None,
        },
{
    proof {
        reveal_strlit("=");
        reveal_strlit(" (not UTF-8)");
    }
    match env.get(var) {
        Some(value) => {
            if value.is_empty() {
                return None;
            }
            let up = to_ascii_upper(value);
            let utf8 = str_contains(up.as_str(), "UTF-8") || str_contains(up.as_str(), "UTF8");
            let mut reason = cat(var, "=");
            push_str(&mut reason, value);
            if !utf8 {
                push_str(&mut reason, " (not UTF-8)");
            }
            Some((utf8, reason))
        },
        None => None,
    }
}

fn detect_unicode(env: &Env, term: &str) -> (out: (bool, String))
    requires
        term@ == term_of(*env),
    ensures
        out.0 == detected_unicode(*env),
        out.1@ == detected_unicode_reason(*env),
{
    proof {
        reveal_strlit("LC_ALL");
        reveal_strlit("LC_CTYPE");
        reveal_strlit("LANG");
        reveal_strlit("dumb");
        reveal_strlit("TERM=dumb");
        reveal_strlit("no LC_ALL/LC_CTYPE/LANG announcing UTF-8 (conservative default)");
    }
    if let Some(r) = locale_decides(env, "LC_ALL") {
        return r;
    }
    if let Some(r) = locale_decides(env, "LC_CTYPE") {
        return r;
    }
    if let Some(r) = locale_decides(env, "LANG") {
        return r;
    }
    if str_eq(term, "dumb") {
        return (false, to_owned("TERM=dumb"));
    }
    (false, to_owned("no LC_ALL/LC_CTYPE/LANG announcing UTF-8 (conservative default)"))
}

/// Whether a terminal family (at a version) implements OSC 8.
pub open spec fn family_osc8(f: Family, version: Option<(u32, u32)>) -> bool {
    match f {
        Family::Kitty | Family::WezTerm | Family::Iterm2 | Family::Foot | Family::Contour => true,
        Family::Vte => match version {
            Some((major, minor)) => major > 0 || minor >= 50,
            None => false,
        },
        Family::Konsole => match version {
            Some((major, _)) => major >= 20,
            None => false,
        },
        Family::WindowsTerminal => true,
        _ => false,
    }
}

/// OSC 8 before any override: never without a terminal, nor inside a
/// multiplexer without passthrough; otherwise what the family implements.
pub open spec fn detected_osc8(f: Family, version: Option<(u32, u32)>, tmux: bool, passthrough: bool, is_tty: bool) -> bool {
    is_tty && !(tmux && !passthrough) && family_osc8(f, version)
}

fn detect_osc8(id: &TerminalIdent, env: &Env, tmux: bool, passthrough: bool, is_tty: bool) -> (out: (bool, String))
    ensures
        out.0 == detected_osc8(id.family, id.version, tmux, passthrough, is_tty),
        out.1@ == detected_osc8_reason(*env, id.family, id.version, id.name@, tmux, passthrough, is_tty),
{
    proof {
        reveal_strlit("stdout is not a terminal");
        reveal_strlit(" supports OSC 8");
        reveal_strlit("VTE_VERSION");
        reveal_strlit("?");
        reveal_strlit("VTE_VERSION=");
        reveal_strlit(" (>= 0.50)");
        reveal_strlit("VTE older than 0.50");
        reveal_strlit("Konsole ");
        reveal_strlit(" (>= 20) supports OSC 8");
        reveal_strlit("Konsole older than 20.x");
        reveal_strlit("Windows Terminal supports OSC 8");
        reveal_strlit("Apple Terminal has no OSC 8");
        reveal_strlit("Alacritty support is version dependent");
        reveal_strlit("no evidence of OSC 8 support for ");
        reveal_strlit("inside tmux without `allow-passthrough on`");
    }
    if !is_tty {
        return (false, to_owned("stdout is not a terminal"));
    }
    let supported: (bool, String) = match id.family {
        Family::Kitty | Family::WezTerm | Family::Iterm2 | Family::Foot | Family::Contour => {
            (true, cat(id.name, " supports OSC 8"))
        },
        Family::Vte => match id.version {
            Some((major, minor)) if major > 0 || minor >= 50 => {
                let v = match env.get("VTE_VERSION") {
                    Some(v) => v,
                    None => "?",
                };
                let mut reason = cat("VTE_VERSION=", v);
                push_str(&mut reason, " (>= 0.50)");
                (true, reason)
            },
            _ => (false, to_owned("VTE older than 0.50")),
        },
        Family::Konsole => match id.version {
            Some((major, _)) if major >= 20 => {
                let mut reason = to_owned("Konsole ");
                push_decimal(&mut reason, major as u64);
                push_str(&mut reason, " (>= 20) supports OSC 8");
                (true, reason)
            },
            _ => (false, to_owned("Konsole older than 20.x")),
        },
        Family::WindowsTerminal => (true, to_owned("Windows Terminal supports OSC 8")),
        Family::AppleTerminal => (false, to_owned("Apple Terminal has no OSC 8")),
        Family::Alacritty => (false, to_owned("Alacritty support is version dependent")),
        _ => (false, cat("no evidence of OSC 8 support for ", id.name)),
    };
    if tmux && !passthrough {
        return (false, to_owned("inside tmux without `allow-passthrough on`"));
    }
    supported
}

/// The image protocol before any override.
pub open spec fn detected_images(e: Env, term: Seq<char>, f: Family, is_tty: bool) -> ImageSupport {
    if !is_tty {
        ImageSupport::NoImage
    } else if env_has(e, "KITTY_WINDOW_ID"@) || seq_contains(term, "kitty"@) {
        ImageSupport::Kitty
    } else {
        match f {
            Family::WezTerm | Family::Iterm2 => ImageSupport::Iterm2,
            Family::Foot | Family::Mlterm | Family::Contour => ImageSupport::Sixel,
            _ => if seq_contains(term, "sixel"@) {
                ImageSupport::Sixel
            } else {
                ImageSupport::NoImage
            },
        }
    }
}

fn detect_images(id: &TerminalIdent, env: &Env, term: &str, is_tty: bool) -> (out: (ImageSupport, String))
    ensures
        out.0 == detected_images(*env, term@, id.family, is_tty),
        out.1@ == detected_images_reason(*env, term@, id.family, id.name@, is_tty),
{
    proof {
        reveal_strlit("stdout is not a terminal");
        reveal_strlit("KITTY_WINDOW_ID");
        reveal_strlit("kitty");
        reveal_strlit("KITTY_WINDOW_ID / TERM=*kitty*");
        reveal_strlit("WezTerm implements the iTerm2 inline-image protocol");
        reveal_strlit("TERM_PROGRAM=iTerm.app");
        reveal_strlit("foot supports Sixel");
        reveal_strlit("mlterm supports Sixel");
        reveal_strlit("contour supports Sixel");
        reveal_strlit("sixel");
        reveal_strlit("TERM=");
        reveal_strlit(" announces sixel");
        reveal_strlit("no known image protocol for ");
    }
    if !is_tty {
        return (ImageSupport::NoImage, to_owned("stdout is not a terminal"));
    }
    if env.contains("KITTY_WINDOW_ID") || str_contains(term, "kitty") {
        return (ImageSupport::Kitty, to_owned("KITTY_WINDOW_ID / TERM=*kitty*"));
    }
    match id.family {
        Family::WezTerm => (ImageSupport::Iterm2, to_owned("WezTerm implements the iTerm2 inline-image protocol")),
        Family::Iterm2 => (ImageSupport::Iterm2, to_owned("TERM_PROGRAM=iTerm.app")),
        Family::Foot => (ImageSupport::Sixel, to_owned("foot supports Sixel")),
        Family::Mlterm => (ImageSupport::Sixel, to_owned("mlterm supports Sixel")),
        Family::Contour => (ImageSupport::Sixel, to_owned("contour supports Sixel")),
        _ => {
            if str_contains(term, "sixel") {
                let mut reason = cat("TERM=", term);
                push_str(&mut reason, " announces sixel");
                (ImageSupport::Sixel, reason)
            } else {
                (ImageSupport::NoImage, cat("no known image protocol for ", id.name))
            }
        },
    }
}


/// The detected terminal capabilities.
#[derive(Debug)]
pub struct Capabilities {
    /// Colour depth.
    pub color: ColorLevel,
    /// Whether Unicode box-drawing characters are safe to emit.
    pub unicode_box: bool,
    /// Whether OSC 8 hyperlinks are supported.
    pub osc8: bool,
    /// Inline-image protocol.
    pub images: ImageSupport,
    /// Whether mouse reporting may be enabled.
    pub mouse: bool,
    /// Running inside tmux (or GNU screen).
    pub tmux: bool,
    /// Running over SSH.
    pub ssh: bool,
    /// Terminal size in cells, `(cols, rows)`.
    pub size: (u16, u16),
    /// Size of a single cell in pixels, when known.
    pub cell_pixels: Option<(u16, u16)>,
    /// Whether output goes to a terminal at all.
    pub is_tty: bool,
    /// Whether tmux passthrough may be assumed.
    pub tmux_passthrough: bool,
    /// The terminal identity used for the decisions.
    pub terminal: String,
    /// Per-capability evidence, in report order.
    pub evidence: Vec<Evidence>,
}

impl Default for Capabilities {
    fn default() -> (c: Self)
        ensures
            c.color == ColorLevel::NoColor,
            !c.unicode_box && !c.osc8 && !c.mouse && !c.tmux && !c.ssh && !c.is_tty && !c.tmux_passthrough,
            c.images == ImageSupport::NoImage,
            c.size == (80u16, 24u16),
            c.cell_pixels is None,
            c.terminal@ == "unknown"@,
            c.evidence@.len() == 0,
    {
        Capabilities {
            color: ColorLevel::NoColor,
            unicode_box: false,
            osc8: false,
            images: ImageSupport::NoImage,
            mouse: false,
            tmux: false,
            ssh: false,
            size: (80, 24),
            cell_pixels: None,
            is_tty: false,
            tmux_passthrough: false,
            terminal: to_owned("unknown"),
            evidence: Vec::new(),
        }
    }
}

/// The value of `k`, or the empty string.
pub open spec fn get_or_empty(e: Env, k: Seq<char>) -> Seq<char> {
    match env_get(e, k) {
        Some(v) => v,
        None => Seq::empty(),
    }
}

/// Lower-cased `TERM`.
#[verifier::opaque]
pub open spec fn term_of(e: Env) -> Seq<char> {
    ascii_lower(get_or_empty(e, "TERM"@))
}

/// Lower-cased `COLORTERM`.
#[verifier::opaque]
pub open spec fn colorterm_of(e: Env) -> Seq<char> {
    ascii_lower(get_or_empty(e, "COLORTERM"@))
}

/// Lower-cased `TERM_PROGRAM`.
#[verifier::opaque]
pub open spec fn program_of(e: Env) -> Seq<char> {
    ascii_lower(get_or_empty(e, "TERM_PROGRAM"@))
}

/// The identified family.
#[verifier::opaque]
pub open spec fn family_of(e: Env) -> Family {
    ident_family(e, term_of(e), program_of(e))
}

/// Running inside tmux or GNU screen.
#[verifier::opaque]
pub open spec fn mux_spec(e: Env) -> bool {
    env_has(e, "TMUX"@) || starts_with(term_of(e), "tmux"@) || env_has(e, "STY"@) || starts_with(
        term_of(e),
        "screen"@,
    )
}

/// Running over SSH.
#[verifier::opaque]
pub open spec fn ssh_spec(e: Env) -> bool {
    env_has(e, "SSH_TTY"@) || env_has(e, "SSH_CONNECTION"@)
}

/// Whether tmux passthrough may be assumed: the override, else either of
/// `MDLESS_TMUX_PASSTHROUGH` and `MDLESS_FORCE_IMAGES`.
#[verifier::opaque]
pub open spec fn passthrough_spec(e: Env, o: CapabilityOverrides) -> bool {
    match o.allow_passthrough {
        Some(v) => v,
        None => truthy_spec(env_get(e, "MDLESS_TMUX_PASSTHROUGH"@)) || truthy_spec(
            env_get(e, "MDLESS_FORCE_IMAGES"@),
        ),
    }
}

/// The colour level after every override: `MDLESS_COLOR`, then the forced
/// level, then the `color` mode (`never` removes colour, `always` turns none
/// into 16 colours).
#[verifier::opaque]
pub open spec fn color_spec(e: Env, size: TerminalSize, o: CapabilityOverrides) -> ColorLevel {
    let c0 = detected_color(e, term_of(e), colorterm_of(e), family_of(e), size.is_tty);
    let c1 = match level_of_name(norm(get_or_empty(e, "MDLESS_COLOR"@))) {
        Some(l) => l,
        None => c0,
    };
    let c2 = match o.color_level {
        Some(l) => l,
        None => c1,
    };
    match o.color {
        Some(ColorMode::Never) => ColorLevel::NoColor,
        Some(ColorMode::Always) => if c2 == ColorLevel::NoColor {
            ColorLevel::Ansi16
        } else {
            c2
        },
        _ => c2,
    }
}

/// Why the colour level [`color_spec`] gives was chosen: the detection's
/// reason, unless `MDLESS_COLOR`, an explicit level or the `color` mode
/// decided.
pub open spec fn color_reason_spec(e: Env, size: TerminalSize, o: CapabilityOverrides) -> Seq<char> {
    let c0 = detected_color(e, term_of(e), colorterm_of(e), family_of(e), size.is_tty);
    let r0 = detected_color_reason(e, term_of(e), colorterm_of(e), family_of(e), family_name(family_of(e)), size.is_tty);
    let m = get_or_empty(e, "MDLESS_COLOR"@);
    let (c1, r1) = match level_of_name(norm(m)) {
        Some(l) => (l, "MDLESS_COLOR="@ + m),
        None => (c0, r0),
    };
    let (c2, r2) = match o.color_level {
        Some(l) => (l, "explicit override"@),
        None => (c1, r1),
    };
    match o.color {
        Some(ColorMode::Never) => "configuration/CLI: color = never"@,
        Some(ColorMode::Always) => if c2 == ColorLevel::NoColor {
            "configuration/CLI: color = always (conservative ansi16)"@
        } else {
            r2
        },
        _ => r2,
    }
}

/// Unicode box drawing after `MDLESS_UNICODE` and the override.
#[verifier::opaque]
pub open spec fn unicode_spec(e: Env, o: CapabilityOverrides) -> bool {
    let u1 = match parse_bool_spec(env_get(e, "MDLESS_UNICODE"@)) {
        Some(b) => b,
        None => detected_unicode(e),
    };
    match o.unicode_box {
        Some(b) => b,
        None => u1,
    }
}

/// OSC 8 after `MDLESS_OSC8` and the `links.osc8` mode; never for a
/// colourless non-terminal.
#[verifier::opaque]
pub open spec fn osc8_spec(e: Env, size: TerminalSize, o: CapabilityOverrides) -> bool {
    let f = family_of(e);
    let o0 = detected_osc8(f, ident_version(e, f), mux_spec(e), passthrough_spec(e, o), size.is_tty);
    let o1 = match parse_bool_spec(env_get(e, "MDLESS_OSC8"@)) {
        Some(b) => b,
        None => o0,
    };
    let o2 = match o.osc8 {
        Some(Osc8Mode::Never) => false,
        Some(Osc8Mode::Always) => true,
        _ => o1,
    };
    if color_spec(e, size, o) == ColorLevel::NoColor && !size.is_tty {
        false
    } else {
        o2
    }
}

/// The image protocol after the multiplexer rule, `MDLESS_IMAGES`, the
/// forced protocol and the `mermaid.images` mode; never without a terminal
/// unless `MDLESS_FORCE_IMAGES` says so.
#[verifier::opaque]
pub open spec fn images_spec(e: Env, size: TerminalSize, o: CapabilityOverrides) -> ImageSupport {
    let i0 = detected_images(e, term_of(e), family_of(e), size.is_tty);
    let i1 = if mux_spec(e) && i0 != ImageSupport::NoImage && !passthrough_spec(e, o) {
        ImageSupport::NoImage
    } else {
        i0
    };
    let i2 = match image_of_name(norm(get_or_empty(e, "MDLESS_IMAGES"@))) {
        Some(i) => i,
        None => i1,
    };
    let i3 = match o.image_protocol {
        Some(i) => i,
        None => i2,
    };
    let i4 = if o.images == Some(ImageMode::Never) {
        ImageSupport::NoImage
    } else {
        i3
    };
    if !size.is_tty && !truthy_spec(env_get(e, "MDLESS_FORCE_IMAGES"@)) {
        ImageSupport::NoImage
    } else {
        i4
    }
}

/// Whether the terminal can report mouse events at all.
pub open spec fn mouse_capable(e: Env, size: TerminalSize) -> bool {
    size.is_tty && term_of(e) != "dumb"@ && term_of(e).len() > 0
}

/// Mouse reporting: requests (`MDLESS_MOUSE`, then the override) only ever
/// narrow what the terminal can do.
#[verifier::opaque]
pub open spec fn mouse_spec(e: Env, size: TerminalSize, o: CapabilityOverrides) -> bool {
    let capable = mouse_capable(e, size);
    let m1 = match parse_bool_spec(env_get(e, "MDLESS_MOUSE"@)) {
        Some(r) => r && capable,
        None => capable,
    };
    match o.mouse {
        Some(r) => r && capable,
        None => m1,
    }
}

/// Why a multiplexer is assumed or not.
pub open spec fn mux_reason_spec(e: Env) -> Seq<char> {
    if env_has(e, "TMUX"@) {
        "TMUX is set"@
    } else if starts_with(term_of(e), "tmux"@) {
        "TERM="@ + term_of(e)
    } else if env_has(e, "STY"@) || starts_with(term_of(e), "screen"@) {
        "GNU screen (STY/TERM=screen*)"@
    } else {
        "no TMUX/STY, TERM is not a multiplexer"@
    }
}

/// Why the session counts as remote or not.
pub open spec fn ssh_reason_spec(e: Env) -> Seq<char> {
    if env_has(e, "SSH_TTY"@) {
        "SSH_TTY is set"@
    } else if env_has(e, "SSH_CONNECTION"@) {
        "SSH_CONNECTION is set"@
    } else {
        "no SSH_TTY/SSH_CONNECTION"@
    }
}

/// The reason a locale variable `var` set to `v` gives.
pub open spec fn locale_reason(var: Seq<char>, v: Seq<char>) -> Seq<char> {
    var + "="@ + v + if locale_utf8(Some(v)) == Some(true) { Seq::empty() } else { " (not UTF-8)"@ }
}

/// Why box drawing is detected as safe or not: the first locale variable
/// that decides, else `TERM=dumb`, else the conservative default.
pub open spec fn detected_unicode_reason(e: Env) -> Seq<char> {
    if locale_utf8(env_get(e, "LC_ALL"@)) is Some {
        locale_reason("LC_ALL"@, env_get(e, "LC_ALL"@)->Some_0)
    } else if locale_utf8(env_get(e, "LC_CTYPE"@)) is Some {
        locale_reason("LC_CTYPE"@, env_get(e, "LC_CTYPE"@)->Some_0)
    } else if locale_utf8(env_get(e, "LANG"@)) is Some {
        locale_reason("LANG"@, env_get(e, "LANG"@)->Some_0)
    } else if term_of(e) == "dumb"@ {
        "TERM=dumb"@
    } else {
        "no LC_ALL/LC_CTYPE/LANG announcing UTF-8 (conservative default)"@
    }
}

/// Why box drawing is on or off: the override, else `MDLESS_UNICODE`, else
/// the detection.
pub open spec fn unicode_reason_spec(e: Env, o: CapabilityOverrides) -> Seq<char> {
    if o.unicode_box is Some {
        "explicit override"@
    } else if parse_bool_spec(env_get(e, "MDLESS_UNICODE"@)) is Some {
        "MDLESS_UNICODE"@
    } else {
        detected_unicode_reason(e)
    }
}

/// Why the size is what it is: a positive `--width`, else the terminal's.
pub open spec fn size_reason_spec(o: CapabilityOverrides) -> Seq<char> {
    match o.width {
        Some(w) => if w > 0 { "--width="@ + decimal(w as nat) } else { "ioctl(TIOCGWINSZ) via crossterm"@ },
        None => "ioctl(TIOCGWINSZ) via crossterm"@,
    }
}

/// Why tmux passthrough is assumed or not.
pub open spec fn passthrough_reason(p: bool) -> Seq<char> {
    if p {
        "forced (MDLESS_TMUX_PASSTHROUGH/MDLESS_FORCE_IMAGES or config)"@
    } else {
        "not assumed; tmux needs `set -g allow-passthrough on`"@
    }
}

/// Where the cell size comes from.
pub open spec fn cells_reason() -> Seq<char> {
    "crossterm window_size()"@
}

/// Why the terminal family (at its version) implements OSC 8 or not.
pub open spec fn family_osc8_reason(e: Env, f: Family, version: Option<(u32, u32)>, name: Seq<char>) -> Seq<char> {
    match f {
        Family::Kitty | Family::WezTerm | Family::Iterm2 | Family::Foot | Family::Contour => name + " supports OSC 8"@,
        Family::Vte => match version {
            Some((major, minor)) => if major > 0 || minor >= 50 {
                "VTE_VERSION="@ + (match env_get(e, "VTE_VERSION"@) {
                    Some(v) => v,
                    None => "?"@,
                }) + " (>= 0.50)"@
            } else {
                "VTE older than 0.50"@
            },
            None => "VTE older than 0.50"@,
        },
        Family::Konsole => match version {
            Some((major, _)) => if major >= 20 {
                "Konsole "@ + decimal(major as nat) + " (>= 20) supports OSC 8"@
            } else {
                "Konsole older than 20.x"@
            },
            None => "Konsole older than 20.x"@,
        },
        Family::WindowsTerminal => "Windows Terminal supports OSC 8"@,
        Family::AppleTerminal => "Apple Terminal has no OSC 8"@,
        Family::Alacritty => "Alacritty support is version dependent"@,
        _ => "no evidence of OSC 8 support for "@ + name,
    }
}

/// Why OSC 8 is detected or not: never without a terminal, nor inside a
/// multiplexer without passthrough; else what the family implements.
pub open spec fn detected_osc8_reason(e: Env, f: Family, version: Option<(u32, u32)>, name: Seq<char>, tmux: bool, passthrough: bool, is_tty: bool) -> Seq<char> {
    if !is_tty {
        "stdout is not a terminal"@
    } else if tmux && !passthrough {
        "inside tmux without `allow-passthrough on`"@
    } else {
        family_osc8_reason(e, f, version, name)
    }
}

/// Why OSC 8 links are on or off: the detection, `MDLESS_OSC8`, the
/// `links.osc8` mode, and never for a colourless non-terminal.
pub open spec fn osc8_reason_spec(e: Env, size: TerminalSize, o: CapabilityOverrides) -> Seq<char> {
    let f = family_of(e);
    let r0 = detected_osc8_reason(e, f, ident_version(e, f), family_name(f), mux_spec(e), passthrough_spec(e, o), size.is_tty);
    let r1 = if parse_bool_spec(env_get(e, "MDLESS_OSC8"@)) is Some { "MDLESS_OSC8"@ } else { r0 };
    let r2 = match o.osc8 {
        Some(Osc8Mode::Never) => "configuration/CLI: links.osc8 = never"@,
        Some(Osc8Mode::Always) => "configuration/CLI: links.osc8 = always"@,
        _ => r1,
    };
    if color_spec(e, size, o) == ColorLevel::NoColor && !size.is_tty { "not a terminal"@ } else { r2 }
}

/// Why an image protocol is detected or not.
pub open spec fn detected_images_reason(e: Env, term: Seq<char>, f: Family, name: Seq<char>, is_tty: bool) -> Seq<char> {
    if !is_tty {
        "stdout is not a terminal"@
    } else if env_has(e, "KITTY_WINDOW_ID"@) || seq_contains(term, "kitty"@) {
        "KITTY_WINDOW_ID / TERM=*kitty*"@
    } else {
        match f {
            Family::WezTerm => "WezTerm implements the iTerm2 inline-image protocol"@,
            Family::Iterm2 => "TERM_PROGRAM=iTerm.app"@,
            Family::Foot => "foot supports Sixel"@,
            Family::Mlterm => "mlterm supports Sixel"@,
            Family::Contour => "contour supports Sixel"@,
            _ => if seq_contains(term, "sixel"@) {
                "TERM="@ + term + " announces sixel"@
            } else {
                "no known image protocol for "@ + name
            },
        }
    }
}

/// Why the image protocol is what it is, step by step as in
/// [`images_spec`].
pub open spec fn images_reason_spec(e: Env, size: TerminalSize, o: CapabilityOverrides) -> Seq<char> {
    let f = family_of(e);
    let i0 = detected_images(e, term_of(e), f, size.is_tty);
    let r0 = detected_images_reason(e, term_of(e), f, family_name(f), size.is_tty);
    let tmux_blocks = mux_spec(e) && i0 != ImageSupport::NoImage && !passthrough_spec(e, o);
    let i1 = if tmux_blocks { ImageSupport::NoImage } else { i0 };
    let r1 = if tmux_blocks {
        "inside tmux without passthrough; enable with `set -g allow-passthrough on` or MDLESS_FORCE_IMAGES=1"@
    } else {
        r0
    };
    let forced = image_of_name(norm(get_or_empty(e, "MDLESS_IMAGES"@)));
    let i2 = match forced {
        Some(i) => i,
        None => i1,
    };
    let r2 = if forced is Some { "MDLESS_IMAGES="@ + get_or_empty(e, "MDLESS_IMAGES"@) } else { r1 };
    let i3 = match o.image_protocol {
        Some(i) => i,
        None => i2,
    };
    let r3 = if o.image_protocol is Some { "explicit override"@ } else { r2 };
    let r4 = match o.images {
        Some(ImageMode::Never) => "configuration/CLI: mermaid.images = never"@,
        Some(ImageMode::Always) => if i3 == ImageSupport::NoImage {
            r3 + " (mermaid.images = always: no protocol found)"@
        } else {
            r3
        },
        _ => r3,
    };
    if !size.is_tty && !truthy_spec(env_get(e, "MDLESS_FORCE_IMAGES"@)) { "stdout is not a terminal"@ } else { r4 }
}

/// Why mouse reporting is on or off: what the terminal can do, unless
/// `MDLESS_MOUSE` and then the override asked, and whether the request had
/// to be refused.
pub open spec fn mouse_reason_spec(e: Env, size: TerminalSize, o: CapabilityOverrides) -> Seq<char> {
    let capable = mouse_capable(e, size);
    let r0 = if capable {
        "terminal supports X10/SGR mouse reporting"@
    } else if !size.is_tty {
        "stdout is not a terminal"@
    } else {
        "TERM="@ + term_of(e) + " cannot report mouse events"@
    };
    let r1 = match parse_bool_spec(env_get(e, "MDLESS_MOUSE"@)) {
        Some(req) => if req && !capable {
            "MDLESS_MOUSE requested it, but the terminal cannot report mouse events"@
        } else {
            "MDLESS_MOUSE"@
        },
        None => r0,
    };
    match o.mouse {
        Some(req) => if req && !capable {
            "configuration/CLI: mouse requested it, but the terminal cannot report mouse events"@
        } else {
            "configuration/CLI: mouse"@
        },
        None => r1,
    }
}

/// Why the terminal counts as one or not.
pub open spec fn tty_reason(tty: bool) -> Seq<char> {
    if tty { "stdout is a terminal"@ } else { "stdout is not a terminal (piped/redirected)"@ }
}

/// The column count: a positive `--width`, else the terminal's.
pub open spec fn cols_spec(size: TerminalSize, o: CapabilityOverrides) -> u16 {
    match o.width {
        Some(w) if w > 0 => w,
        _ => size.cols,
    }
}

/// `a` + `x` + `b` as decimal numbers.
pub open spec fn dims_text(a: u16, b: u16) -> Seq<char> {
    decimal(a as nat).push('x') + decimal(b as nat)
}

/// The report's capability names and values for the given decisions, in
/// order; the passthrough line is there only inside a multiplexer.
pub open spec fn evidence_seq(
    tmux: bool,
    ssh: bool,
    passthrough: bool,
    terminal: Seq<char>,
    tty: bool,
    color: ColorLevel,
    unicode_box: bool,
    osc8: bool,
    images: ImageSupport,
    mouse: bool,
    size: Seq<char>,
    cells: Seq<char>,
) -> Seq<(Seq<char>, Seq<char>)> {
    let head = seq![("multiplexer"@, bool_text(tmux)), ("ssh"@, bool_text(ssh))];
    let head2 = if tmux {
        head.push(("tmux-passthrough"@, bool_text(passthrough)))
    } else {
        head
    };
    head2 + seq![
        ("terminal"@, terminal),
        ("tty"@, bool_text(tty)),
        ("color"@, level_name(color)),
        ("unicode-box"@, bool_text(unicode_box)),
        ("osc8"@, bool_text(osc8)),
        ("images"@, image_name(images)),
        ("mouse"@, bool_text(mouse)),
        ("size"@, size),
        ("cell-pixels"@, cells),
    ]
}

/// The cell-size value of the report.
pub open spec fn cells_text(c: Option<(u16, u16)>) -> Seq<char> {
    match c {
        Some((w, h)) => dims_text(w, h),
        None => "unknown (assuming 8x16)"@,
    }
}

/// The capability names and values of the report, in order.
pub open spec fn evidence_spec(e: Env, size: TerminalSize, o: CapabilityOverrides) -> Seq<(Seq<char>, Seq<char>)> {
    evidence_seq(
        mux_spec(e),
        ssh_spec(e),
        passthrough_spec(e, o),
        family_name(family_of(e)),
        size.is_tty,
        color_spec(e, size, o),
        unicode_spec(e, o),
        osc8_spec(e, size, o),
        images_spec(e, size, o),
        mouse_spec(e, size, o),
        dims_text(cols_spec(size, o), size.rows),
        cells_text(size.cell_pixels),
    )
}

/// An evidence record as plain values.
pub open spec fn evidence_view(ev: Evidence) -> (Seq<char>, Seq<char>) {
    (ev.capability@, ev.value@)
}

/// Evidence records as plain values.
pub open spec fn evidence_views(v: Seq<Evidence>) -> Seq<(Seq<char>, Seq<char>)>
    decreases v.len(),
{
    if v.len() == 0 {
        Seq::empty()
    } else {
        evidence_views(v.drop_last()).push(evidence_view(v.last()))
    }
}

fn push_evidence(ev: &mut Vec<Evidence>, capability: &'static str, value: String, reason: String)
    ensures
        evidence_views(final(ev)@) == evidence_views(old(ev)@).push((capability@, value@)),
        final(ev)@.len() == old(ev)@.len() + 1,
        forall|k: int| 0 <= k < old(ev)@.len() ==> #[trigger] final(ev)@[k] == old(ev)@[k],
        final(ev)@[old(ev)@.len() as int].reason@ == reason@,
{
    let ghost before = ev@;
    ev.push(Evidence { capability, value, reason });
    assert(ev@.drop_last() == before);
}

fn get_lower(env: &Env, key: &str) -> (out: String)
    ensures
        out@ == ascii_lower(get_or_empty(*env, key@)),
{
    match env.get(key) {
        Some(v) => to_ascii_lower(v),
        None => String::new(),
    }
}

fn get_or_blank<'a>(env: &'a Env, key: &str) -> (out: &'a str)
    ensures
        out@ == get_or_empty(*env, key@),
{
    match env.get(key) {
        Some(v) => v,
        None => {
            proof {
                reveal_strlit("");
            }
            ""
        },
    }
}

fn dims(a: u16, b: u16) -> (out: String)
    ensures
        out@ == dims_text(a, b),
{
    let mut out = String::new();
    push_decimal(&mut out, a as u64);
    push_char(&mut out, 'x');
    push_decimal(&mut out, b as u64);
    out
}


fn mux_decision(env: &Env, term: &str) -> (out: (bool, String))
    requires
        term@ == term_of(*env),
    ensures
        out.0 == mux_spec(*env),
        out.1@ == mux_reason_spec(*env),
{
    reveal(mux_spec);
    proof {
        reveal_strlit("TMUX");
        reveal_strlit("tmux");
        reveal_strlit("STY");
        reveal_strlit("screen");
        reveal_strlit("TMUX is set");
        reveal_strlit("TERM=");
        reveal_strlit("GNU screen (STY/TERM=screen*)");
        reveal_strlit("no TMUX/STY, TERM is not a multiplexer");
    }
    if env.contains("TMUX") {
        (true, to_owned("TMUX is set"))
    } else if str_starts_with(term, "tmux") {
        (true, cat("TERM=", term))
    } else if env.contains("STY") || str_starts_with(term, "screen") {
        (true, to_owned("GNU screen (STY/TERM=screen*)"))
    } else {
        (false, to_owned("no TMUX/STY, TERM is not a multiplexer"))
    }
}

fn ssh_decision(env: &Env) -> (out: (bool, String))
    ensures
        out.0 == ssh_spec(*env),
        out.1@ == ssh_reason_spec(*env),
{
    reveal(ssh_spec);
    proof {
        reveal_strlit("SSH_TTY");
        reveal_strlit("SSH_CONNECTION");
        reveal_strlit("SSH_TTY is set");
        reveal_strlit("SSH_CONNECTION is set");
        reveal_strlit("no SSH_TTY/SSH_CONNECTION");
    }
    if env.contains("SSH_TTY") {
        (true, to_owned("SSH_TTY is set"))
    } else if env.contains("SSH_CONNECTION") {
        (true, to_owned("SSH_CONNECTION is set"))
    } else {
        (false, to_owned("no SSH_TTY/SSH_CONNECTION"))
    }
}

fn passthrough_decision(env: &Env, o: &CapabilityOverrides) -> (b: bool)
    ensures
        b == passthrough_spec(*env, *o),
{
    reveal(passthrough_spec);
    match o.allow_passthrough {
        Some(v) => v,
        None => truthy(env.get("MDLESS_TMUX_PASSTHROUGH")) || truthy(env.get("MDLESS_FORCE_IMAGES")),
    }
}

fn color_decision(
    env: &Env,
    term: &str,
    colorterm: &str,
    id: &TerminalIdent,
    size: TerminalSize,
    o: &CapabilityOverrides,
) -> (out: (ColorLevel, String))
    requires
        term@ == term_of(*env),
        colorterm@ == colorterm_of(*env),
        id.family == family_of(*env),
        id.name@ == family_name(id.family),
    ensures
        out.0 == color_spec(*env, size, *o),
        out.1@ == color_reason_spec(*env, size, *o),
{
    reveal(color_spec);
    reveal(family_of);
    reveal(term_of);
    reveal(colorterm_of);
    let (mut color, mut reason) = detect_color(term, colorterm, id, size.is_tty, env);
    let mdless_color = get_or_blank(env, "MDLESS_COLOR");
    if let Some(level) = ColorLevel::parse(mdless_color) {
        color = level;
        reason = cat("MDLESS_COLOR=", mdless_color);
    }
    if let Some(level) = o.color_level {
        color = level;
        reason = to_owned("explicit override");
    }
    match o.color {
        Some(ColorMode::Never) => {
            color = ColorLevel::NoColor;
            reason = to_owned("configuration/CLI: color = never");
        },
        Some(ColorMode::Always) => {
            if let ColorLevel::NoColor = color {
                color = ColorLevel::Ansi16;
                reason = to_owned("configuration/CLI: color = always (conservative ansi16)");
            }
        },
        _ => {},
    }
    (color, reason)
}

fn unicode_decision(env: &Env, term: &str, o: &CapabilityOverrides) -> (out: (bool, String))
    requires
        term@ == term_of(*env),
    ensures
        out.0 == unicode_spec(*env, *o),
        out.1@ == unicode_reason_spec(*env, *o),
{
    proof {
        reveal_strlit("MDLESS_UNICODE");
        reveal_strlit("explicit override");
    }
    reveal(unicode_spec);
    let (mut unicode_box, mut reason) = detect_unicode(env, term);
    if let Some(v) = parse_bool(env.get("MDLESS_UNICODE")) {
        unicode_box = v;
        reason = to_owned("MDLESS_UNICODE");
    }
    if let Some(v) = o.unicode_box {
        unicode_box = v;
        reason = to_owned("explicit override");
    }
    (unicode_box, reason)
}

fn osc8_decision(
    env: &Env,
    id: &TerminalIdent,
    tmux: bool,
    passthrough: bool,
    size: TerminalSize,
    o: &CapabilityOverrides,
    color: ColorLevel,
) -> (out: (bool, String))
    requires
        id.family == family_of(*env),
        id.version == ident_version(*env, id.family),
        id.name@ == family_name(id.family),
        tmux == mux_spec(*env),
        passthrough == passthrough_spec(*env, *o),
        color == color_spec(*env, size, *o),
    ensures
        out.0 == osc8_spec(*env, size, *o),
        out.1@ == osc8_reason_spec(*env, size, *o),
{
    proof {
        reveal_strlit("MDLESS_OSC8");
        reveal_strlit("configuration/CLI: links.osc8 = never");
        reveal_strlit("configuration/CLI: links.osc8 = always");
        reveal_strlit("not a terminal");
    }
    reveal(osc8_spec);
    reveal(family_of);
    reveal(mux_spec);
    reveal(passthrough_spec);
    let (mut osc8, mut reason) = detect_osc8(id, env, tmux, passthrough, size.is_tty);
    if let Some(v) = parse_bool(env.get("MDLESS_OSC8")) {
        osc8 = v;
        reason = to_owned("MDLESS_OSC8");
    }
    match o.osc8 {
        Some(Osc8Mode::Never) => {
            osc8 = false;
            reason = to_owned("configuration/CLI: links.osc8 = never");
        },
        Some(Osc8Mode::Always) => {
            osc8 = true;
            reason = to_owned("configuration/CLI: links.osc8 = always");
        },
        _ => {},
    }
    if let ColorLevel::NoColor = color {
        if !size.is_tty {
            osc8 = false;
            reason = to_owned("not a terminal");
        }
    }
    (osc8, reason)
}

fn images_decision(
    env: &Env,
    id: &TerminalIdent,
    term: &str,
    tmux: bool,
    passthrough: bool,
    size: TerminalSize,
    o: &CapabilityOverrides,
) -> (out: (ImageSupport, String))
    requires
        term@ == term_of(*env),
        id.family == family_of(*env),
        id.name@ == family_name(id.family),
        tmux == mux_spec(*env),
        passthrough == passthrough_spec(*env, *o),
    ensures
        out.0 == images_spec(*env, size, *o),
        out.1@ == images_reason_spec(*env, size, *o),
{
    reveal(images_spec);
    proof {
        reveal_strlit("inside tmux without passthrough; enable with `set -g allow-passthrough on` or MDLESS_FORCE_IMAGES=1");
        reveal_strlit("MDLESS_IMAGES");
        reveal_strlit("MDLESS_IMAGES=");
        reveal_strlit("explicit override");
        reveal_strlit("configuration/CLI: mermaid.images = never");
        reveal_strlit(" (mermaid.images = always: no protocol found)");
        reveal_strlit("stdout is not a terminal");
        reveal_strlit("MDLESS_FORCE_IMAGES");
    }
    reveal(family_of);
    reveal(term_of);
    reveal(mux_spec);
    reveal(passthrough_spec);
    let (mut images, mut reason) = detect_images(id, env, term, size.is_tty);
    if tmux && images.is_some() && !passthrough {
        images = ImageSupport::NoImage;
        reason = to_owned(
            "inside tmux without passthrough; enable with `set -g allow-passthrough on` or MDLESS_FORCE_IMAGES=1",
        );
    }
    let forced_name = get_or_blank(env, "MDLESS_IMAGES");
    if let Some(forced) = ImageSupport::parse(forced_name) {
        images = forced;
        reason = cat("MDLESS_IMAGES=", forced_name);
    }
    if let Some(forced) = o.image_protocol {
        images = forced;
        reason = to_owned("explicit override");
    }
    match o.images {
        Some(ImageMode::Never) => {
            images = ImageSupport::NoImage;
            reason = to_owned("configuration/CLI: mermaid.images = never");
        },
        Some(ImageMode::Always) => {
            if let ImageSupport::NoImage = images {
                push_str(&mut reason, " (mermaid.images = always: no protocol found)");
            }
        },
        _ => {},
    }
    if !size.is_tty && !truthy(env.get("MDLESS_FORCE_IMAGES")) {
        images = ImageSupport::NoImage;
        reason = to_owned("stdout is not a terminal");
    }
    (images, reason)
}

fn mouse_decision(env: &Env, term: &str, size: TerminalSize, o: &CapabilityOverrides) -> (out: (bool, String))
    requires
        term@ == term_of(*env),
    ensures
        out.0 == mouse_spec(*env, size, *o),
        out.1@ == mouse_reason_spec(*env, size, *o),
{
    reveal(mouse_spec);
    reveal(term_of);
    proof {
        reveal_strlit("terminal supports X10/SGR mouse reporting");
        reveal_strlit("stdout is not a terminal");
        reveal_strlit("TERM=");
        reveal_strlit(" cannot report mouse events");
        reveal_strlit("MDLESS_MOUSE requested it, but the terminal cannot report mouse events");
        reveal_strlit("MDLESS_MOUSE");
        reveal_strlit("configuration/CLI: mouse requested it, but the terminal cannot report mouse events");
        reveal_strlit("configuration/CLI: mouse");
        reveal_strlit("dumb");
    }
    let capable = size.is_tty && !str_eq(term, "dumb") && !term.is_empty();
    let mut mouse = capable;
    let mut reason = if capable {
        to_owned("terminal supports X10/SGR mouse reporting")
    } else if !size.is_tty {
        to_owned("stdout is not a terminal")
    } else {
        let mut r = cat("TERM=", term);
        push_str(&mut r, " cannot report mouse events");
        r
    };
    if let Some(requested) = parse_bool(env.get("MDLESS_MOUSE")) {
        mouse = requested && capable;
        reason = if requested && !capable {
            to_owned("MDLESS_MOUSE requested it, but the terminal cannot report mouse events")
        } else {
            to_owned("MDLESS_MOUSE")
        };
    }
    if let Some(requested) = o.mouse {
        mouse = requested && capable;
        reason = if requested && !capable {
            to_owned("configuration/CLI: mouse requested it, but the terminal cannot report mouse events")
        } else {
            to_owned("configuration/CLI: mouse")
        };
    }
    (mouse, reason)
}


/// The position of the colour record in the report: after the multiplexer,
/// ssh, (tmux passthrough,) terminal and tty records.
pub open spec fn color_index(tmux: bool) -> int {
    if tmux { 5 } else { 4 }
}

/// The report's records for the given decisions and reasons.
fn evidence_list(
    tmux: (bool, String),
    ssh: (bool, String),
    passthrough: bool,
    terminal: (&'static str, String),
    tty: bool,
    color: (ColorLevel, String),
    unicode_box: (bool, String),
    osc8: (bool, String),
    images: (ImageSupport, String),
    mouse: (bool, String),
    size: (String, String),
    cells: String,
) -> (ev: Vec<Evidence>)
    ensures
        evidence_views(ev@) == evidence_seq(
            tmux.0,
            ssh.0,
            passthrough,
            terminal.0@,
            tty,
            color.0,
            unicode_box.0,
            osc8.0,
            images.0,
            mouse.0,
            size.0@,
            cells@,
        ),
        ev@[color_index(tmux.0)].reason@ == color.1@,
        ev@[color_index(tmux.0) - 1].reason@ == tty_reason(tty),
        ev@[color_index(tmux.0) - 2].reason@ == terminal.1@,
        ev@[0].reason@ == tmux.1@,
        ev@[1].reason@ == ssh.1@,
        ev@[color_index(tmux.0) + 1].reason@ == unicode_box.1@,
        ev@[color_index(tmux.0) + 2].reason@ == osc8.1@,
        ev@[color_index(tmux.0) + 3].reason@ == images.1@,
        ev@[color_index(tmux.0) + 5].reason@ == size.1@,
        ev@[color_index(tmux.0) + 6].reason@ == cells_reason(),
        tmux.0 ==> ev@[2].reason@ == passthrough_reason(passthrough),
        ev@[color_index(tmux.0) + 4].reason@ == mouse.1@,
{
    let mut ev: Vec<Evidence> = Vec::new();
    assert(evidence_views(ev@) == Seq::<(Seq<char>, Seq<char>)>::empty());
    push_evidence(&mut ev, "multiplexer", to_owned(bool_str(tmux.0)), tmux.1);
    push_evidence(&mut ev, "ssh", to_owned(bool_str(ssh.0)), ssh.1);
    if tmux.0 {
        let why = if passthrough {
            "forced (MDLESS_TMUX_PASSTHROUGH/MDLESS_FORCE_IMAGES or config)"
        } else {
            "not assumed; tmux needs `set -g allow-passthrough on`"
        };
        proof {
            reveal_strlit("forced (MDLESS_TMUX_PASSTHROUGH/MDLESS_FORCE_IMAGES or config)");
            reveal_strlit("not assumed; tmux needs `set -g allow-passthrough on`");
        }
        push_evidence(&mut ev, "tmux-passthrough", to_owned(bool_str(passthrough)), to_owned(why));
        assert(ev@[2].reason@ == passthrough_reason(passthrough));
    }
    let ghost h = evidence_views(ev@);
    let ghost tri = ev@.len();
    push_evidence(&mut ev, "terminal", to_owned(terminal.0), terminal.1);
    assert(ev@[tri as int].reason@ == terminal.1@);
    let tty_why = if tty {
        "stdout is a terminal"
    } else {
        "stdout is not a terminal (piped/redirected)"
    };
    let ghost ti = ev@.len();
    proof {
        reveal_strlit("stdout is a terminal");
        reveal_strlit("stdout is not a terminal (piped/redirected)");
    }
    push_evidence(&mut ev, "tty", to_owned(bool_str(tty)), to_owned(tty_why));
    assert(ev@[ti as int].reason@ == tty_reason(tty));
    let ghost ci = ev@.len();
    push_evidence(&mut ev, "color", to_owned(color.0.as_str()), color.1);
    assert(ci == color_index(tmux.0));
    assert(ev@[ci as int].reason@ == color.1@);
    let ghost ui = ev@.len();
    push_evidence(&mut ev, "unicode-box", to_owned(bool_str(unicode_box.0)), unicode_box.1);
    assert(ev@[ui as int].reason@ == unicode_box.1@);
    let ghost oi = ev@.len();
    push_evidence(&mut ev, "osc8", to_owned(bool_str(osc8.0)), osc8.1);
    push_evidence(&mut ev, "images", to_owned(images.0.as_str()), images.1);
    assert(ev@[oi as int].reason@ == osc8.1@);
    assert(ev@[oi as int + 1].reason@ == images.1@);
    let ghost mi = ev@.len();
    push_evidence(&mut ev, "mouse", to_owned(bool_str(mouse.0)), mouse.1);
    assert(mi == color_index(tmux.0) + 4);
    assert(ev@[mi as int].reason@ == mouse.1@);
    let ghost si = ev@.len();
    push_evidence(&mut ev, "size", size.0, size.1);
    assert(ev@[si as int].reason@ == size.1@);
    proof {
        reveal_strlit("crossterm window_size()");
    }
    push_evidence(&mut ev, "cell-pixels", cells, to_owned("crossterm window_size()"));
    assert(ev@[si as int + 1].reason@ == cells_reason());
    assert(evidence_views(ev@) =~= evidence_seq(
        tmux.0,
        ssh.0,
        passthrough,
        terminal.0@,
        tty,
        color.0,
        unicode_box.0,
        osc8.0,
        images.0,
        mouse.0,
        size.0@,
        cells@,
    ));
    ev
}

/// The pure detection core: environment, geometry and overrides decide every
/// capability; the evidence lists each decision with its value and reason.
pub fn detect_from(env: &Env, size: TerminalSize, overrides: &CapabilityOverrides) -> (c: Capabilities)
    ensures
        c.color == color_spec(*env, size, *overrides),
        c.unicode_box == unicode_spec(*env, *overrides),
        c.osc8 == osc8_spec(*env, size, *overrides),
        c.images == images_spec(*env, size, *overrides),
        c.mouse == mouse_spec(*env, size, *overrides),
        c.tmux == mux_spec(*env),
        c.ssh == ssh_spec(*env),
        c.size == (cols_spec(size, *overrides), size.rows),
        c.cell_pixels == size.cell_pixels,
        c.is_tty == size.is_tty,
        c.tmux_passthrough == (mux_spec(*env) && passthrough_spec(*env, *overrides)),
        c.terminal@ == family_name(family_of(*env)),
        evidence_views(c.evidence@) == evidence_spec(*env, size, *overrides),
        c.evidence@[color_index(mux_spec(*env))].reason@ == color_reason_spec(*env, size, *overrides),
        c.evidence@[color_index(mux_spec(*env)) - 1].reason@ == tty_reason(size.is_tty),
        c.evidence@[0].reason@ == mux_reason_spec(*env),
        c.evidence@[color_index(mux_spec(*env)) - 2].reason@ == ident_reason(*env, term_of(*env), program_of(*env)),
        c.evidence@[1].reason@ == ssh_reason_spec(*env),
        c.evidence@[color_index(mux_spec(*env)) + 1].reason@ == unicode_reason_spec(*env, *overrides),
        c.evidence@[color_index(mux_spec(*env)) + 2].reason@ == osc8_reason_spec(*env, size, *overrides),
        c.evidence@[color_index(mux_spec(*env)) + 3].reason@ == images_reason_spec(*env, size, *overrides),
        c.evidence@[color_index(mux_spec(*env)) + 5].reason@ == size_reason_spec(*overrides),
        c.evidence@[color_index(mux_spec(*env)) + 6].reason@ == cells_reason(),
        mux_spec(*env) ==> c.evidence@[2].reason@ == passthrough_reason(passthrough_spec(*env, *overrides)),
        c.evidence@[color_index(mux_spec(*env)) + 4].reason@ == mouse_reason_spec(*env, size, *overrides),
{
    reveal(term_of);
    reveal(colorterm_of);
    reveal(program_of);
    reveal(family_of);
    let o = overrides;
    let term = get_lower(env, "TERM");
    let colorterm = get_lower(env, "COLORTERM");
    let program = get_lower(env, "TERM_PROGRAM");
    let (tmux, mux_reason) = mux_decision(env, term.as_str());
    let (ssh, ssh_reason) = ssh_decision(env);
    let passthrough = passthrough_decision(env, o);
    let id = TerminalIdent::detect(env, term.as_str(), program.as_str());
    let (color, color_reason) = color_decision(env, term.as_str(), colorterm.as_str(), &id, size, o);
    let (unicode_box, unicode_reason) = unicode_decision(env, term.as_str(), o);
    let (osc8, osc8_reason) = osc8_decision(env, &id, tmux, passthrough, size, o, color);
    let (images, images_reason) = images_decision(env, &id, term.as_str(), tmux, passthrough, size, o);
    let (mouse, mouse_reason) = mouse_decision(env, term.as_str(), size, o);
    let cols = match o.width {
        Some(w) if w > 0 => w,
        _ => size.cols,
    };
    proof {
        reveal_strlit("--width=");
        reveal_strlit("ioctl(TIOCGWINSZ) via crossterm");
    }
    let size_why = match o.width {
        Some(w) if w > 0 => {
            let mut r = to_owned("--width=");
            push_decimal(&mut r, w as u64);
            r
        },
        _ => to_owned("ioctl(TIOCGWINSZ) via crossterm"),
    };
    let cell_value = match size.cell_pixels {
        Some((w, h)) => dims(w, h),
        None => to_owned("unknown (assuming 8x16)"),
    };
    let ev = evidence_list(
        (tmux, mux_reason),
        (ssh, ssh_reason),
        passthrough,
        (id.name, to_owned(id.reason.as_str())),
        size.is_tty,
        (color, color_reason),
        (unicode_box, unicode_reason),
        (osc8, osc8_reason),
        (images, images_reason),
        (mouse, mouse_reason),
        (dims(cols, size.rows), size_why),
        cell_value,
    );
    Capabilities {
        color,
        unicode_box,
        osc8,
        images,
        mouse,
        tmux,
        ssh,
        size: (cols, size.rows),
        cell_pixels: size.cell_pixels,
        is_tty: size.is_tty,
        tmux_passthrough: tmux && passthrough,
        terminal: to_owned(id.name),
        evidence: ev,
    }
}


/// `yes` or `no`.
pub open spec fn yes_no_text(b: bool) -> Seq<char> {
    if b {
        "yes"@
    } else {
        "no"@
    }
}

fn yes_no(v: bool) -> (s: &'static str)
    ensures
        s@ == yes_no_text(v),
{
    if v {
        "yes"
    } else {
        "no"
    }
}

/// `s` padded with spaces to `w` characters (what `{:<w$}` writes).
pub open spec fn pad_chars(s: Seq<char>, w: nat) -> Seq<char> {
    if s.len() < w {
        s + crate::util::text::spaces((w - s.len()) as nat)
    } else {
        s
    }
}

/// The widest capability name in characters, at least 10.
pub open spec fn cap_width(ev: Seq<Evidence>) -> nat
    decreases ev.len(),
{
    if ev.len() == 0 {
        10
    } else {
        let w = cap_width(ev.drop_last());
        let l = ev.last().capability@.len();
        if l > w {
            l
        } else {
            w
        }
    }
}

/// The widest value in characters (8 when there is none), at most 24.
pub open spec fn value_width(ev: Seq<Evidence>) -> nat {
    let m = max_value_len(ev);
    let m2 = if ev.len() == 0 { 8 } else { m };
    if m2 > 24 {
        24
    } else {
        m2
    }
}

/// The widest value in characters.
pub open spec fn max_value_len(ev: Seq<Evidence>) -> nat
    decreases ev.len(),
{
    if ev.len() == 0 {
        0
    } else {
        let w = max_value_len(ev.drop_last());
        let lb = ev.last().value@.len();
        if lb > w {
            lb
        } else {
            w
        }
    }
}

/// One line of the report's evidence table.
pub open spec fn evidence_line(e: Evidence, cw: nat, vw: nat) -> Seq<char> {
    "  "@ + pad_chars(e.capability@, cw) + "  "@ + pad_chars(e.value@, vw) + "  "@ + e.reason@ + "\n"@
}

/// The evidence table.
pub open spec fn evidence_table(ev: Seq<Evidence>, cw: nat, vw: nat) -> Seq<char>
    decreases ev.len(),
{
    if ev.len() == 0 {
        Seq::empty()
    } else {
        evidence_table(ev.drop_last(), cw, vw) + evidence_line(ev.last(), cw, vw)
    }
}

/// The cell size a report shows: the reported one when both sides are
/// positive, the default otherwise.
pub open spec fn cell_size_spec(c: Option<(u16, u16)>) -> (u16, u16) {
    match c {
        Some((w, h)) if w > 0 && h > 0 => (w, h),
        _ => (8u16, 16u16),
    }
}

/// The summary that closes the report.
pub open spec fn summary_text(c: Capabilities) -> Seq<char> {
    let (cw, ch) = cell_size_spec(c.cell_pixels);
    "\nsummary\n"@
        + "  color        "@ + level_name(c.color) + "\n"@
        + "  unicode box  "@ + yes_no_text(c.unicode_box) + "\n"@
        + "  osc 8 links  "@ + yes_no_text(c.osc8) + "\n"@
        + "  images       "@ + image_name(c.images) + "\n"@
        + "  mouse        "@ + yes_no_text(c.mouse) + "\n"@
        + "  tmux         "@ + yes_no_text(c.tmux) + "\n"@
        + "  ssh          "@ + yes_no_text(c.ssh) + "\n"@
        + "  size         "@ + dims_text(c.size.0, c.size.1) + "\n"@
        + "  cell size    "@ + dims_text(cw, ch) + " px"@
        + (if c.cell_pixels is Some { Seq::empty() } else { " (assumed)"@ }) + "\n"@
        + (if c.tmux && !c.tmux_passthrough {
            "\nnote: inside tmux, images and OSC 8 require `set -g allow-passthrough on`\n"@
        } else {
            Seq::empty()
        })
}

/// The whole report.
pub open spec fn describe_spec(c: Capabilities) -> Seq<char> {
    "mdless terminal capabilities\n"@
        + "(detection is environment-based only; mdless never queries the terminal)\n\n"@
        + evidence_table(c.evidence@, cap_width(c.evidence@), value_width(c.evidence@))
        + summary_text(c)
}

fn push_padded(out: &mut String, s: &str, w: usize)
    ensures
        final(out)@ == old(out)@ + pad_chars(s@, w as nat),
{
    let cs = chars_of(s);
    push_str(out, s);
    if cs.len() < w {
        push_spaces(out, w - cs.len());
    }
}

impl Capabilities {
    /// Cell size in pixels, falling back to [`DEFAULT_CELL_PIXELS`].
    pub fn cell_size(&self) -> (out: (u16, u16))
        ensures
            out == cell_size_spec(self.cell_pixels),
    {
        match self.cell_pixels {
            Some((w, h)) => if w > 0 && h > 0 {
                (w, h)
            } else {
                DEFAULT_CELL_PIXELS
            },
            None => DEFAULT_CELL_PIXELS,
        }
    }

    /// The human-readable capability report: every capability with its value
    /// and the evidence that decided it, then a summary.
    pub fn describe(&self) -> (out: String)
        ensures
            out@ == describe_spec(*self),
    {
        let mut out = to_owned("mdless terminal capabilities\n");
        push_str(&mut out, "(detection is environment-based only; mdless never queries the terminal)\n\n");
        let table = evidence_report(&self.evidence);
        push_str(&mut out, table.as_str());
        let tail = self.summary();
        push_str(&mut out, tail.as_str());
        out
    }

    /// The summary that closes the report.
    pub fn summary(&self) -> (out: String)
        ensures
            out@ == summary_text(*self),
    {
        let mut out = to_owned("\nsummary\n");
        push_str(&mut out, "  color        ");
        push_str(&mut out, self.color.as_str());
        push_str(&mut out, "\n");
        push_str(&mut out, "  unicode box  ");
        push_str(&mut out, yes_no(self.unicode_box));
        push_str(&mut out, "\n");
        push_str(&mut out, "  osc 8 links  ");
        push_str(&mut out, yes_no(self.osc8));
        push_str(&mut out, "\n");
        push_str(&mut out, "  images       ");
        push_str(&mut out, self.images.as_str());
        push_str(&mut out, "\n");
        push_str(&mut out, "  mouse        ");
        push_str(&mut out, yes_no(self.mouse));
        push_str(&mut out, "\n");
        push_str(&mut out, "  tmux         ");
        push_str(&mut out, yes_no(self.tmux));
        push_str(&mut out, "\n");
        push_str(&mut out, "  ssh          ");
        push_str(&mut out, yes_no(self.ssh));
        push_str(&mut out, "\n");
        push_str(&mut out, "  size         ");
        let d = dims(self.size.0, self.size.1);
        push_str(&mut out, d.as_str());
        push_str(&mut out, "\n");
        let (cwp, chp) = self.cell_size();
        push_str(&mut out, "  cell size    ");
        let d2 = dims(cwp, chp);
        push_str(&mut out, d2.as_str());
        push_str(&mut out, " px");
        if self.cell_pixels.is_none() {
            push_str(&mut out, " (assumed)");
        }
        push_str(&mut out, "\n");
        if self.tmux && !self.tmux_passthrough {
            push_str(&mut out, "\nnote: inside tmux, images and OSC 8 require `set -g allow-passthrough on`\n");
        }
        assert(out@ =~= summary_text(*self));
        out
    }
}

/// The evidence table of a report.
fn evidence_report(ev: &Vec<Evidence>) -> (out: String)
    ensures
        out@ == evidence_table(ev@, cap_width(ev@), value_width(ev@)),
{
    let mut out = String::new();
    let mut cw: usize = 10;
    let mut mv: usize = 0;
    let mut i: usize = 0;
    while i < ev.len()
        invariant
            i <= ev@.len(),
            cw == cap_width(ev@.take(i as int)),
            mv == max_value_len(ev@.take(i as int)),
        decreases ev@.len() - i,
    {
        proof {
            assert(ev@.take(i + 1).drop_last() == ev@.take(i as int));
            assert(ev@.take(i + 1).last() == ev@[i as int]);
        }
        let cl = chars_of(ev[i].capability).len();
        if cl > cw {
            cw = cl;
        }
        let vl = chars_of(ev[i].value.as_str()).len();
        if vl > mv {
            mv = vl;
        }
        i += 1;
    }
    assert(ev@.take(ev@.len() as int) == ev@);
    let m2 = if ev.len() == 0 { 8 } else { mv };
    let vw = if m2 > 24 { 24 } else { m2 };
    let mut k: usize = 0;
    assert(evidence_table(ev@.take(0), cw as nat, vw as nat) == Seq::<char>::empty());
    while k < ev.len()
        invariant
            k <= ev@.len(),
            out@ == evidence_table(ev@.take(k as int), cw as nat, vw as nat),
        decreases ev@.len() - k,
    {
        push_str(&mut out, "  ");
        push_padded(&mut out, ev[k].capability, cw);
        push_str(&mut out, "  ");
        push_padded(&mut out, ev[k].value.as_str(), vw);
        push_str(&mut out, "  ");
        push_str(&mut out, ev[k].reason.as_str());
        push_str(&mut out, "\n");
        proof {
            assert(ev@.take(k + 1).drop_last() == ev@.take(k as int));
            assert(ev@.take(k + 1).last() == ev@[k as int]);
        }
        k += 1;
    }
    out
}

// ---------------------------------------------------------------------------
// Laws of detection
// ---------------------------------------------------------------------------

/// Requests only narrow the mouse: whatever `MDLESS_MOUSE` and the override
/// ask for, mouse reporting is on only for a terminal that can report it (a
/// tty whose `TERM` is set and not `dumb`).
pub proof fn law_mouse_requests_only_narrow(e: Env, size: TerminalSize, o: CapabilityOverrides)
    ensures
        mouse_spec(e, size, o) ==> mouse_capable(e, size),
        !size.is_tty ==> !mouse_spec(e, size, o),
{
    reveal(mouse_spec);
}

/// `NO_COLOR` wins over what the terminal announces (`COLORTERM`, `TERM`,
/// `CLICOLOR_FORCE`): without an explicit colour level or `color = always`,
/// a set `NO_COLOR` means no colour, and without a `color` mode the report
/// names `NO_COLOR` as the reason.
pub proof fn law_no_color_wins(e: Env, size: TerminalSize, o: CapabilityOverrides)
    requires
        env_has(e, "NO_COLOR"@),
        level_of_name(norm(get_or_empty(e, "MDLESS_COLOR"@))) is None,
        o.color_level is None,
        o.color != Some(ColorMode::Always),
    ensures
        color_spec(e, size, o) == ColorLevel::NoColor,
        o.color is None ==> color_reason_spec(e, size, o) == "NO_COLOR is set"@,
{
    reveal(color_spec);
}

/// Without a terminal there are no images (unless `MDLESS_FORCE_IMAGES`
/// insists), no mouse, and no hyperlinks when there is no colour either.
pub proof fn law_no_tty_disables_optional(e: Env, size: TerminalSize, o: CapabilityOverrides)
    requires
        !size.is_tty,
    ensures
        !truthy_spec(env_get(e, "MDLESS_FORCE_IMAGES"@)) ==> images_spec(e, size, o) == ImageSupport::NoImage,
        !mouse_spec(e, size, o),
        color_spec(e, size, o) == ColorLevel::NoColor ==> !osc8_spec(e, size, o),
{
    reveal(images_spec);
    reveal(mouse_spec);
    reveal(osc8_spec);
}

/// Inside tmux or GNU screen without passthrough, images are off unless a
/// protocol is named explicitly (`MDLESS_IMAGES`, the override), and
/// hyperlinks are off unless they are asked for (`MDLESS_OSC8`, the
/// `links.osc8` mode).
pub proof fn law_multiplexer_blocks_escapes(e: Env, size: TerminalSize, o: CapabilityOverrides)
    requires
        mux_spec(e),
        !passthrough_spec(e, o),
    ensures
        image_of_name(norm(get_or_empty(e, "MDLESS_IMAGES"@))) is None && o.image_protocol is None
            ==> images_spec(e, size, o) == ImageSupport::NoImage,
        parse_bool_spec(env_get(e, "MDLESS_OSC8"@)) is None && o.osc8 != Some(Osc8Mode::Always)
            ==> !osc8_spec(e, size, o),
{
    reveal(images_spec);
    reveal(osc8_spec);
}


/// `CLICOLOR=0` turns colour off: unless `CLICOLOR_FORCE` forces it, and
/// unless `MDLESS_COLOR` names a level, an explicit level is given or the
/// `color` mode is `always`, the colour level is none; and on a terminal,
/// without `NO_COLOR` and without a `color` mode, `CLICOLOR=0` is the
/// reason given.
pub proof fn law_clicolor_zero_turns_colour_off(e: Env, size: TerminalSize, o: CapabilityOverrides)
    requires
        env_get(e, "CLICOLOR"@) == Some("0"@),
        !clicolor_forced(e),
        level_of_name(norm(get_or_empty(e, "MDLESS_COLOR"@))) is None,
        o.color_level is None,
        o.color != Some(ColorMode::Always),
    ensures
        color_spec(e, size, o) == ColorLevel::NoColor,
        size.is_tty && !env_has(e, "NO_COLOR"@) && o.color is None ==> color_reason_spec(e, size, o) == "CLICOLOR=0"@,
{
    reveal(color_spec);
}


/// A dumb terminal gets no colour, and neither does a non-terminal, unless
/// `CLICOLOR_FORCE` forces colour or `MDLESS_COLOR`, an explicit level or
/// the `color` mode `always` decide otherwise.
pub proof fn law_dumb_or_piped_output_is_colourless(e: Env, size: TerminalSize, o: CapabilityOverrides)
    requires
        family_of(e) == Family::Dumb || !size.is_tty,
        !clicolor_forced(e),
        level_of_name(norm(get_or_empty(e, "MDLESS_COLOR"@))) is None,
        o.color_level is None,
        o.color != Some(ColorMode::Always),
    ensures
        color_spec(e, size, o) == ColorLevel::NoColor,
{
    reveal(color_spec);
}

/// `CLICOLOR_FORCE` gives colour, at least 16 colours, even without a
/// terminal: unless `NO_COLOR` is set or `MDLESS_COLOR`, an explicit level or
/// the `color` mode `never` decide otherwise.
pub proof fn law_clicolor_force_gives_colour(e: Env, size: TerminalSize, o: CapabilityOverrides)
    requires
        clicolor_forced(e),
        !env_has(e, "NO_COLOR"@),
        level_of_name(norm(get_or_empty(e, "MDLESS_COLOR"@))) is None,
        o.color_level is None,
        o.color != Some(ColorMode::Never),
    ensures
        color_spec(e, size, o) != ColorLevel::NoColor,
{
    reveal(color_spec);
}
} // verus!
