//! Native ASCII/Unicode flowchart rendering.
//!
//! A small Sugiyama-style pipeline:
//!
//! 1. **Layering**: longest-path layering over the graph. Cycles are broken
//!    deterministically by a depth-first search in node-declaration order;
//!    the ignored back edges are still drawn.
//! 2. **Ordering**: barycentre heuristic, four alternating sweeps, ties
//!    broken by the current position, so identical input gives identical
//!    output. Barycentres are compared exactly, as fractions.
//! 3. **Sizing**: labels are wrapped to a maximum box width measured in
//!    display cells.
//! 4. **Placement and routing**: boxes are painted onto a character grid and
//!    edges are routed orthogonally through the gaps between layers.
//!
//! Output lines never exceed [`RenderOptions::width_cells`]: labels are
//! shortened step by step, and when even the narrowest attempt is too wide,
//! [`NativeError::TooWide`] lets the caller fall back to the source.
use vstd::prelude::*;
use crate::mermaid::ast::{ArrowKind, Diagram, DiagramEdge, EdgeStyle, NodeShape, Orientation, diagram_wf};
use crate::util::text::{chars_of, is_white, is_whitespace, push_char, push_str, spaces, string_of, to_owned};
use crate::util::unicode::{
    char_cells, char_width, display_width, fits, fitting_prefix, grapheme_clusters, graphemes, is_segmentation, pad_to_width,
    ellipsized, split_at_width, truncate_with_ellipsis, width,
};

verus! {

/// Options for [`render`].
#[derive(Debug, Clone, PartialEq, Eq)]
pub struct RenderOptions {
    /// Maximum number of terminal columns the diagram may occupy; `0` means
    /// unlimited.
    pub width_cells: usize,
    /// Draw with box-drawing characters; `false` selects the ASCII fallback.
    pub unicode_box: bool,
    /// Preferred maximum label width (in display cells) before wrapping.
    pub max_label_width: usize,
}

impl Default for RenderOptions {
    fn default() -> (o: Self)
        ensures
            o.width_cells == 80,
            o.unicode_box,
            o.max_label_width == 32,
    {
        RenderOptions { width_cells: 80, unicode_box: true, max_label_width: 32 }
    }
}

/// Why the native renderer declined to draw a diagram.
#[derive(Debug, Clone, PartialEq, Eq)]
pub enum NativeError {
    /// The diagram declares no nodes.
    Empty,
    /// Even with maximally shortened labels the diagram is wider than the
    /// available terminal width.
    TooWide {
        /// Columns the narrowest attempt required.
        needed: usize,
        /// Columns available.
        available: usize,
    },
}

impl NativeError {
    /// The error's message.
    pub fn describe(&self) -> (s: String)
        ensures
            self matches NativeError::Empty ==> s@ == "the diagram contains no nodes"@,
            self matches NativeError::TooWide { needed, available } ==> s@ == "diagram needs "@
                + crate::util::text::decimal(needed as nat) + " columns but only "@
                + crate::util::text::decimal(available as nat) + " are available"@,
    {
        match self {
            NativeError::Empty => to_owned("the diagram contains no nodes"),
            NativeError::TooWide { needed, available } => {
                let mut s = to_owned("diagram needs ");
                crate::util::text::push_decimal(&mut s, *needed as u64);
                push_str(&mut s, " columns but only ");
                crate::util::text::push_decimal(&mut s, *available as u64);
                push_str(&mut s, " are available");
                s
            },
        }
    }
}

/// Strings short enough for every width computation of the renderer (a
/// machine limit: no string of that many characters fits in memory).
pub open spec fn small(s: Seq<char>) -> bool {
    s.len() <= usize::MAX / 16
}

/// Every label and note of the diagram is [`small`].
pub open spec fn diagram_fits(d: Diagram) -> bool {
    &&& forall|i: int| 0 <= i < d.nodes@.len() ==> small((#[trigger] d.nodes@[i]).label@)
    &&& forall|i: int| 0 <= i < d.edges@.len() ==> ((#[trigger] d.edges@[i]).label matches Some(l)
        ==> small(l@))
    &&& forall|i: int| 0 <= i < d.unsupported_notes@.len() ==> small(
        (#[trigger] d.unsupported_notes@[i])@,
    )
}

/// Whether every label and note of `d` is [`small`].
pub fn check_fits(d: &Diagram) -> (b: bool)
    ensures
        b == diagram_fits(*d),
{
    let mut i: usize = 0;
    while i < d.nodes.len()
        invariant
            i <= d.nodes@.len(),
            forall|k: int| 0 <= k < i ==> small((#[trigger] d.nodes@[k]).label@),
        decreases d.nodes@.len() - i,
    {
        if chars_of(d.nodes[i].label.as_str()).len() > usize::MAX / 16 {
            return false;
        }
        i += 1;
    }
    let mut i: usize = 0;
    while i < d.edges.len()
        invariant
            i <= d.edges@.len(),
            forall|k: int| 0 <= k < i ==> ((#[trigger] d.edges@[k]).label matches Some(l) ==> small(l@)),
        decreases d.edges@.len() - i,
    {
        if let Some(l) = &d.edges[i].label {
            if chars_of(l.as_str()).len() > usize::MAX / 16 {
                return false;
            }
        }
        i += 1;
    }
    let mut i: usize = 0;
    while i < d.unsupported_notes.len()
        invariant
            i <= d.unsupported_notes@.len(),
            forall|k: int| 0 <= k < i ==> small((#[trigger] d.unsupported_notes@[k])@),
        decreases d.unsupported_notes@.len() - i,
    {
        if chars_of(d.unsupported_notes[i].as_str()).len() > usize::MAX / 16 {
            return false;
        }
        i += 1;
    }
    true
}

// ---------------------------------------------------------------------------
// Box and edge glyphs
// ---------------------------------------------------------------------------

/// Border characters of a node box.
#[derive(Clone, Copy)]
pub struct BoxChars {
    pub tl: char,
    pub tr: char,
    pub bl: char,
    pub br: char,
    pub top: char,
    pub bottom: char,
    pub left: char,
    pub right: char,
}

/// The border of a box of `shape`: ASCII `+-|` without Unicode, otherwise
/// square (`Rect`, double sides for `Subroutine`), rounded (`Round`,
/// `Stadium`), rounded with `(` `)` sides (`Circle`), slanted corners
/// (`Diamond`; `Hexagon` with an overline top and underscore bottom), or
/// rounded with double top and bottom (`Cylinder`).
pub open spec fn box_chars_spec(shape: NodeShape, unicode: bool) -> (char, char, char, char, char, char, char, char) {
    if !unicode {
        ('+', '+', '+', '+', '-', '-', '|', '|')
    } else {
        match shape {
            NodeShape::Rect => ('┌', '┐', '└', '┘', '─', '─', '│', '│'),
            NodeShape::Subroutine => ('┌', '┐', '└', '┘', '─', '─', '║', '║'),
            NodeShape::Round | NodeShape::Stadium => ('╭', '╮', '╰', '╯', '─', '─', '│', '│'),
            NodeShape::Circle => ('╭', '╮', '╰', '╯', '─', '─', '(', ')'),
            NodeShape::Diamond => ('╱', '╲', '╲', '╱', '─', '─', '│', '│'),
            NodeShape::Hexagon => ('╱', '╲', '╲', '╱', '‾', '_', '│', '│'),
            NodeShape::Cylinder => ('╭', '╮', '╰', '╯', '═', '═', '│', '│'),
        }
    }
}

pub open spec fn box_chars_view(b: BoxChars) -> (char, char, char, char, char, char, char, char) {
    (b.tl, b.tr, b.bl, b.br, b.top, b.bottom, b.left, b.right)
}

/// The border characters of a box of `shape`.
pub fn box_chars(shape: NodeShape, unicode: bool) -> (b: BoxChars)
    ensures
        box_chars_view(b) == box_chars_spec(shape, unicode),
{
    if !unicode {
        return BoxChars {
            tl: '+',
            tr: '+',
            bl: '+',
            br: '+',
            top: '-',
            bottom: '-',
            left: '|',
            right: '|',
        };
    }
    match shape {
        NodeShape::Rect | NodeShape::Subroutine => {
            let side = if shape == NodeShape::Subroutine { '║' } else { '│' };
            BoxChars { tl: '┌', tr: '┐', bl: '└', br: '┘', top: '─', bottom: '─', left: side, right: side }
        },
        NodeShape::Round | NodeShape::Stadium => BoxChars {
            tl: '╭',
            tr: '╮',
            bl: '╰',
            br: '╯',
            top: '─',
            bottom: '─',
            left: '│',
            right: '│',
        },
        NodeShape::Circle => BoxChars {
            tl: '╭',
            tr: '╮',
            bl: '╰',
            br: '╯',
            top: '─',
            bottom: '─',
            left: '(',
            right: ')',
        },
        NodeShape::Diamond => BoxChars {
            tl: '╱',
            tr: '╲',
            bl: '╲',
            br: '╱',
            top: '─',
            bottom: '─',
            left: '│',
            right: '│',
        },
        NodeShape::Hexagon => BoxChars {
            tl: '╱',
            tr: '╲',
            bl: '╲',
            br: '╱',
            top: '‾',
            bottom: '_',
            left: '│',
            right: '│',
        },
        NodeShape::Cylinder => BoxChars {
            tl: '╭',
            tr: '╮',
            bl: '╰',
            br: '╯',
            top: '═',
            bottom: '═',
            left: '│',
            right: '│',
        },
    }
}

/// Edge glyphs of one line style.
#[derive(Clone, Copy)]
pub struct Glyphs {
    pub horiz: char,
    pub vert: char,
    pub right: char,
    pub left: char,
    pub down: char,
    pub up: char,
    /// Corner joining the west and south arms.
    pub ws: char,
    /// Corner joining the west and north arms.
    pub wn: char,
    /// Corner joining the east and south arms.
    pub es: char,
    /// Corner joining the east and north arms.
    pub en: char,
}

pub open spec fn glyphs_view(g: Glyphs) -> (char, char, char, char, char, char, char, char, char, char) {
    (g.horiz, g.vert, g.right, g.left, g.down, g.up, g.ws, g.wn, g.es, g.en)
}

/// Edge glyphs: ASCII (`.`/`=`/`-` lines, `:`/`|` verticals, `><v^` heads,
/// `+` corners) or box drawing (dashed, double or light lines, solid
/// triangle heads, light corners).
pub open spec fn glyphs_spec(style: EdgeStyle, unicode: bool) -> (char, char, char, char, char, char, char, char, char, char) {
    if !unicode {
        (
            match style {
                EdgeStyle::Dotted => '.',
                EdgeStyle::Thick => '=',
                _ => '-',
            },
            match style {
                EdgeStyle::Dotted => ':',
                _ => '|',
            },
            '>',
            '<',
            'v',
            '^',
            '+',
            '+',
            '+',
            '+',
        )
    } else {
        (
            match style {
                EdgeStyle::Dotted => '┄',
                EdgeStyle::Thick => '═',
                _ => '─',
            },
            match style {
                EdgeStyle::Dotted => '┆',
                EdgeStyle::Thick => '║',
                _ => '│',
            },
            '▶',
            '◀',
            '▼',
            '▲',
            '┐',
            '┘',
            '┌',
            '└',
        )
    }
}

/// The edge glyphs of `style`.
pub fn glyphs(style: EdgeStyle, unicode: bool) -> (g: Glyphs)
    ensures
        glyphs_view(g) == glyphs_spec(style, unicode),
        g == glyphs_of(style, unicode),
{
    if !unicode {
        let horiz = match style {
            EdgeStyle::Dotted => '.',
            EdgeStyle::Thick => '=',
            _ => '-',
        };
        let vert = match style {
            EdgeStyle::Dotted => ':',
            _ => '|',
        };
        return Glyphs { horiz, vert, right: '>', left: '<', down: 'v', up: '^', ws: '+', wn: '+', es: '+', en: '+' };
    }
    let horiz = match style {
        EdgeStyle::Dotted => '┄',
        EdgeStyle::Thick => '═',
        _ => '─',
    };
    let vert = match style {
        EdgeStyle::Dotted => '┆',
        EdgeStyle::Thick => '║',
        _ => '│',
    };
    Glyphs { horiz, vert, right: '▶', left: '◀', down: '▼', up: '▲', ws: '┐', wn: '┘', es: '┌', en: '└' }
}

/// Corner joining a horizontal arm coming from `dir` with a vertical arm
/// towards `down`.
pub open spec fn turn_from_spec(g: Glyphs, dir: int, down: bool) -> char {
    if dir > 0 {
        if down { g.ws } else { g.wn }
    } else {
        if down { g.es } else { g.en }
    }
}

/// The corner where a horizontal arm coming from `dir` turns towards `down`.
pub fn turn_from_horizontal(g: &Glyphs, dir: isize, down: bool) -> (c: char)
    ensures
        c == turn_from_spec(*g, dir as int, down),
{
    if dir > 0 {
        if down { g.ws } else { g.wn }
    } else {
        if down { g.es } else { g.en }
    }
}

/// Corner joining a vertical arm arriving from `down` with a horizontal arm
/// leaving towards `dir`.
pub open spec fn turn_to_spec(g: Glyphs, dir: int, down: bool) -> char {
    if dir > 0 {
        if down { g.en } else { g.es }
    } else {
        if down { g.wn } else { g.ws }
    }
}

/// The corner where a vertical arm from `down` turns towards `dir`.
pub fn turn_to_horizontal(g: &Glyphs, dir: isize, down: bool) -> (c: char)
    ensures
        c == turn_to_spec(*g, dir as int, down),
{
    if dir > 0 {
        if down { g.en } else { g.es }
    } else {
        if down { g.wn } else { g.ws }
    }
}

// ---------------------------------------------------------------------------
// Label wrapping
// ---------------------------------------------------------------------------

/// Lines finished so far, the line being filled, and its display width.
pub type WrapState = (Seq<Seq<char>>, Seq<char>, nat);

/// The first piece cut off an over-wide word: the widest prefix of whole
/// grapheme clusters that fits in `max`, or else the first cluster alone;
/// `None` for a word without clusters.
pub open spec fn split_word_spec(word: Seq<char>, max: nat) -> Option<(Seq<char>, Seq<char>)> {
    let gs = grapheme_clusters(word);
    let k = fitting_prefix(gs, max) as int;
    if gs.take(k).flatten().len() > 0 {
        Some((gs.take(k).flatten(), gs.skip(k).flatten()))
    } else if gs.len() == 0 {
        None
    } else {
        Some((gs[0], word.subrange(gs[0].len() as int, word.len() as int)))
    }
}

/// Cuts pieces off `word` while it is wider than `max`: the line being
/// filled is closed first, then each piece is a line of its own. Gives the
/// new state and what is left of the word (`fuel` bounds the steps; the
/// word's length is always enough).
pub open spec fn chop_spec(word: Seq<char>, max: nat, st: WrapState, fuel: nat) -> (WrapState, Seq<char>)
    decreases fuel,
{
    if fuel == 0 || display_width(word) <= max {
        (st, word)
    } else {
        match split_word_spec(word, max) {
            None => (st, word),
            Some((head, rest)) => {
                let closed: WrapState = if st.1.len() > 0 {
                    (st.0.push(st.1), Seq::empty(), 0)
                } else {
                    st
                };
                chop_spec(rest, max, (closed.0.push(head), closed.1, closed.2), (fuel - 1) as nat)
            },
        }
    }
}

/// Places a word that fits: it starts the line when the line is empty, joins
/// it after one space when that still fits in `max`, or else closes the line
/// and starts the next.
pub open spec fn place_spec(st: WrapState, word: Seq<char>, max: nat) -> WrapState {
    let w = display_width(word);
    if st.1.len() == 0 {
        (st.0, word, w)
    } else if st.2 + 1 + w <= max {
        (st.0, st.1 + seq![' '] + word, st.2 + 1 + w)
    } else {
        (st.0.push(st.1), word, w)
    }
}

/// One whitespace-delimited word, chopped and then placed.
pub open spec fn flush_spec(st: WrapState, word: Seq<char>, max: nat) -> WrapState {
    let (s1, rest) = chop_spec(word, max, st, word.len());
    place_spec(s1, rest, max)
}

/// The lines at the end: the open line is closed when it holds anything, and
/// an empty result becomes one empty line.
pub open spec fn finish_spec(st: WrapState) -> Seq<Seq<char>> {
    let out = if st.1.len() > 0 { st.0.push(st.1) } else { st.0 };
    if out.len() == 0 { seq![Seq::empty()] } else { out }
}

/// Greedy wrapping of `cs[i..]`, with `pending` the word read so far.
pub open spec fn wrap_chars(cs: Seq<char>, i: int, max: nat, st: WrapState, pending: Seq<char>) -> Seq<Seq<char>>
    decreases cs.len() - i,
{
    if i >= cs.len() || i < 0 {
        if pending.len() > 0 { finish_spec(flush_spec(st, pending, max)) } else { finish_spec(st) }
    } else if is_white(cs[i]) {
        let st2 = if pending.len() > 0 { flush_spec(st, pending, max) } else { st };
        wrap_chars(cs, i + 1, max, st2, Seq::empty())
    } else {
        wrap_chars(cs, i + 1, max, st, pending.push(cs[i]))
    }
}

/// The lines of [`wrap_label`]: `label` wrapped to `max` cells (at least 1).
pub open spec fn wrap_label_spec(label: Seq<char>, max: nat) -> Seq<Seq<char>> {
    let m: nat = if max < 1 { 1 } else { max };
    wrap_chars(label, 0, m, (Seq::empty(), Seq::empty(), 0), Seq::empty())
}

/// The characters `cs[lo..hi]` as a string.
fn slice_string(cs: &Vec<char>, lo: usize, hi: usize) -> (out: String)
    requires
        lo <= hi <= cs@.len(),
    ensures
        out@ == cs@.subrange(lo as int, hi as int),
{
    let mut v: Vec<char> = Vec::new();
    let mut k = lo;
    while k < hi
        invariant
            lo <= k <= hi <= cs@.len(),
            v@ == cs@.subrange(lo as int, k as int),
        decreases hi - k,
    {
        v.push(cs[k]);
        k += 1;
    }
    string_of(v.as_slice())
}

/// Splits off the first piece of an over-wide word: the widest prefix that
/// fits in `max`, or its first grapheme cluster when not even that fits.
/// `None` only for an empty word.
fn split_word(word: &String, max: usize) -> (out: Option<(String, String)>)
    requires
        fits(word@),
    ensures
        match out {
            Some((head, rest)) => {
                &&& split_word_spec(word@, max as nat) == Some((head@, rest@))
                &&& head@.len() > 0
                &&& head@ + rest@ == word@
            },
            None => split_word_spec(word@, max as nat) is None && word@.len() == 0,
        },
{
    let (head, tail) = split_at_width(word.as_str(), max);
    if !head.as_str().is_empty() {
        return Some((head, tail));
    }
    let gs = graphemes(word.as_str());
    if gs.len() == 0 {
        proof {
            assert(grapheme_clusters(word@).len() == 0);
            assert(grapheme_clusters(word@).flatten() =~= Seq::<char>::empty());
        }
        return None;
    }
    let first = gs[0].as_str();
    let cs = chars_of(word.as_str());
    let fl = chars_of(first).len();
    proof {
        let g = grapheme_clusters(word@);
        assert(gs@.map_values(|s: String| s@)[0] == g[0]);
        crate::util::unicode::lemma_flatten_split(g, 1);
        assert(g.take(1) =~= seq![g[0]]);
        assert(seq![g[0]].flatten() =~= g[0]) by {
            reveal_with_fuel(Seq::flatten, 2);
        }
    }
    let rest = slice_string(&cs, fl, cs.len());
    let head = to_owned(first);
    Some((head, rest))
}

/// Greedy word wrap on display width; words wider than `max` are split on
/// grapheme boundaries, and a single cluster wider than `max` stands alone
/// on its line. Always at least one line (an empty label gives `[""]`).
pub fn wrap_label(label: &str, max: usize) -> (out: Vec<String>)
    requires
        small(label@),
    ensures
        strings_view(out@) == wrap_label_spec(label@, max as nat),
        out@.len() >= 1,
        forall|i: int| 0 <= i < out@.len() ==> small((#[trigger] out@[i])@),
{
    let m = if max < 1 { 1 } else { max };
    let cs = chars_of(label);
    let n = cs.len();
    let mut out: Vec<String> = Vec::new();
    let mut current = String::new();
    let mut current_w: usize = 0;
    let mut i: usize = 0;
    let ghost target = wrap_label_spec(label@, max as nat);
    proof {
        assert(strings_view(out@) =~= Seq::<Seq<char>>::empty());
    }
    while i < n
        invariant
            n == cs@.len(),
            cs@ == label@,
            small(label@),
            i <= n,
            m >= 1,
            current_w <= m,
            current@.len() <= i,
            current@.len() > 0 && i < n ==> (current@.len() + 1 <= i || is_white(cs@[i as int])),
            forall|k: int| 0 <= k < out@.len() ==> small((#[trigger] out@[k])@),
            wrap_chars(cs@, i as int, m as nat, (strings_view(out@), current@, current_w as nat), Seq::empty())
                == target,
        decreases n - i,
    {
        if is_whitespace(cs[i]) {
            i += 1;
            continue;
        }
        let start = i;
        let ghost st0: WrapState = (strings_view(out@), current@, current_w as nat);
        proof {
            assert(cs@.subrange(start as int, start as int) =~= Seq::<char>::empty());
        }
        while i < n && !is_whitespace(cs[i])
            invariant
                start <= i <= n,
                start < n && !is_white(cs@[start as int]),
                n == cs@.len(),
                wrap_chars(cs@, i as int, m as nat, st0, cs@.subrange(start as int, i as int)) == target,
            decreases n - i,
        {
            proof {
                assert(cs@.subrange(start as int, i as int).push(cs@[i as int]) =~= cs@.subrange(
                    start as int,
                    i + 1,
                ));
            }
            i += 1;
        }
        let mut word = slice_string(&cs, start, i);
        let ghost word0 = word@;
        let ghost chopped = chop_spec(word0, m as nat, st0, word0.len());
        let ghost mut fuel: nat = word0.len();
        loop
            invariant
                word@.len() <= i - start,
                i <= n,
                n == cs@.len(),
                small(label@),
                cs@ == label@,
                m >= 1,
                current_w <= m,
                current@.len() <= i,
                current@.len() > 0 ==> current@.len() + 1 <= start,
                i >= n || is_white(cs@[i as int]),
                start <= i,
                forall|k: int| 0 <= k < out@.len() ==> small((#[trigger] out@[k])@),
                fuel >= word@.len(),
                chop_spec(word@, m as nat, (strings_view(out@), current@, current_w as nat), fuel)
                    == chopped,
            ensures
                display_width(word@) <= m,
                word@.len() <= i - start,
                current_w <= m,
                current@.len() <= i,
                current@.len() > 0 ==> current@.len() + 1 <= start,
                forall|k: int| 0 <= k < out@.len() ==> small((#[trigger] out@[k])@),
                chopped == ((strings_view(out@), current@, current_w as nat), word@),
            decreases word@.len(),
        {
            if width(word.as_str()) <= m {
                break;
            }
            match split_word(&word, m) {
                Some((head, rest)) => {
                    let ghost before = strings_view(out@);
                    if !current.as_str().is_empty() {
                        out.push(current);
                        proof {
                            assert(strings_view(out@) =~= before.push(current@));
                        }
                        current = String::new();
                        current_w = 0;
                    }
                    let ghost mid = strings_view(out@);
                    out.push(head);
                    proof {
                        assert(strings_view(out@) =~= mid.push(head@));
                        fuel = (fuel - 1) as nat;
                    }
                    word = rest;
                },
                None => {
                    break;
                },
            }
        }
        let w = width(word.as_str());
        let ghost wc = word@;
        let ghost st1: WrapState = (strings_view(out@), current@, current_w as nat);
        if current.as_str().is_empty() {
            current = word;
            current_w = w;
        } else if current_w < m && w <= m - current_w - 1 {
            push_char(&mut current, ' ');
            push_str(&mut current, word.as_str());
            current_w = current_w + 1 + w;
        } else {
            out.push(current);
            proof {
                assert(strings_view(out@) =~= st1.0.push(st1.1));
            }
            current = word;
            current_w = w;
        }
        proof {
            assert((strings_view(out@), current@, current_w as nat) == flush_spec(st0, word0, m as nat));
            assert(wrap_chars(cs@, i as int, m as nat, (strings_view(out@), current@, current_w as nat), Seq::empty())
                == wrap_chars(cs@, i as int, m as nat, st0, word0));
        }
    }
    let ghost st_end = strings_view(out@);
    if !current.as_str().is_empty() {
        out.push(current);
        proof {
            assert(strings_view(out@) =~= st_end.push(current@));
        }
    }
    if out.len() == 0 {
        out.push(String::new());
        proof {
            assert(strings_view(out@) =~= seq![Seq::<char>::empty()]);
        }
    }
    out
}

// ---------------------------------------------------------------------------
// Canvas
// ---------------------------------------------------------------------------

/// Coordinates and sizes beyond this bound are refused before painting, so
/// that every sum of two of them, and its conversion to `isize`, is exact.
pub open spec fn coord_ok(v: int) -> bool {
    0 <= v <= usize::MAX / 16
}

/// A character grid: `h` rows of `w` cells, with the cells that belong to a
/// node box marked as blocked.
pub struct Canvas {
    pub w: usize,
    pub h: usize,
    pub cells: Vec<Vec<char>>,
    pub blocked: Vec<Vec<bool>>,
}

/// `g` with the cell in column `x` of row `y` replaced by `c`.
pub open spec fn with_cell<T>(g: Seq<Seq<T>>, x: int, y: int, c: T) -> Seq<Seq<T>> {
    g.update(y, g[y].update(x, c))
}

/// The characters and box marks of a grid `w` cells wide and `h` high.
pub type GridView = (Seq<Seq<char>>, Seq<Seq<bool>>);

/// Box painting of one cell: the character is written and the cell marked,
/// when it lies inside the grid.
pub open spec fn paint_cell(v: GridView, w: nat, h: nat, x: int, y: int, c: char) -> GridView {
    if x < w && y < h {
        (with_cell(v.0, x, y, c), with_cell(v.1, x, y, true))
    } else {
        v
    }
}

/// Edge drawing of one cell: the character is written unless the cell lies
/// outside the grid or belongs to a box.
pub open spec fn force_cell(v: GridView, w: nat, h: nat, x: int, y: int, c: char) -> GridView {
    if x < w && y < h && !v.1[y][x] {
        (with_cell(v.0, x, y, c), v.1)
    } else {
        v
    }
}

/// Line drawing of one cell: the character is written only into a blank
/// cell inside the grid that belongs to no box.
pub open spec fn put_cell(v: GridView, w: nat, h: nat, x: int, y: int, c: char) -> GridView {
    if 0 <= x < w && 0 <= y < h && !v.1[y][x] && v.0[y][x] == ' ' {
        (with_cell(v.0, x, y, c), v.1)
    } else {
        v
    }
}

/// Corner drawing of one cell: the corner is merged with what the cell
/// holds, unless the cell lies outside the grid or belongs to a box.
pub open spec fn join_cell(v: GridView, w: nat, h: nat, x: int, y: int, c: char) -> GridView {
    if 0 <= x < w && 0 <= y < h && !v.1[y][x] {
        (with_cell(v.0, x, y, merge_corner_spec(v.0[y][x], c)), v.1)
    } else {
        v
    }
}

/// Whether cell `(x, y)` lies inside the grid, outside every box, and is
/// blank.
pub open spec fn cell_free(v: GridView, w: nat, h: nat, x: int, y: int) -> bool {
    0 <= x < w && 0 <= y < h && !v.1[y][x] && v.0[y][x] == ' '
}

/// Whether the cells that `s` needs from column `x` of row `y` on are all
/// free (and `s` needs any).
pub open spec fn text_fits_free(v: GridView, w: nat, h: nat, x: int, y: int, s: Seq<char>) -> bool {
    &&& display_width(s) > 0
    &&& x + display_width(s) <= usize::MAX + 1
    &&& forall|c: int| x <= c < x + display_width(s) ==> #[trigger] cell_free(v, w, h, c, y)
}

/// `s` written as edge text from column `x` of row `y` on when it fits in
/// free cells; otherwise nothing.
pub open spec fn text_if_free_spec(v: GridView, w: nat, h: nat, x: int, y: int, s: Seq<char>) -> GridView {
    if text_fits_free(v, w, h, x, y, s) { force_text_spec(v, w, h, x, y, s) } else { v }
}

/// Line drawing of the cells `x0..=x1` of row `y`, left to right.
pub open spec fn put_row(v: GridView, w: nat, h: nat, x0: int, x1: int, y: int, c: char) -> GridView
    decreases x1 + 1 - x0,
{
    if x0 > x1 {
        v
    } else {
        put_row(put_cell(v, w, h, x0, y, c), w, h, x0 + 1, x1, y, c)
    }
}

/// Line drawing of the cells `y0..=y1` of column `x`, top to bottom.
pub open spec fn put_col(v: GridView, w: nat, h: nat, x: int, y0: int, y1: int, c: char) -> GridView
    decreases y1 + 1 - y0,
{
    if y0 > y1 {
        v
    } else {
        put_col(put_cell(v, w, h, x, y0, c), w, h, x, y0 + 1, y1, c)
    }
}

/// The column after a character drawn in column `x`: one cell on, or its
/// width when wider (never past `usize::MAX`).
pub open spec fn advance(x: int, c: char) -> int {
    let step: int = if char_cells(c) < 1 { 1 } else { char_cells(c) as int };
    if x + step > usize::MAX { usize::MAX as int } else { x + step }
}

/// The characters `cs` painted from column `x` of row `y` on.
pub open spec fn paint_text_spec(v: GridView, w: nat, h: nat, x: int, y: int, cs: Seq<char>) -> GridView
    decreases cs.len(),
{
    if cs.len() == 0 {
        v
    } else {
        paint_text_spec(paint_cell(v, w, h, x, y, cs[0]), w, h, advance(x, cs[0]), y, cs.drop_first())
    }
}

/// The characters `cs` drawn as edge text from column `x` of row `y` on.
pub open spec fn force_text_spec(v: GridView, w: nat, h: nat, x: int, y: int, cs: Seq<char>) -> GridView
    decreases cs.len(),
{
    if cs.len() == 0 {
        v
    } else {
        force_text_spec(force_cell(v, w, h, x, y, cs[0]), w, h, advance(x, cs[0]), y, cs.drop_first())
    }
}

/// `r` without its trailing blanks.
pub open spec fn trim_end_blanks(r: Seq<char>) -> Seq<char>
    decreases r.len(),
{
    if r.len() > 0 && r.last() == ' ' {
        trim_end_blanks(r.drop_last())
    } else {
        r
    }
}

impl Canvas {
    /// Every row has `w` cells, in both layers.
    pub open spec fn wf(&self) -> bool {
        &&& self.cells@.len() == self.h
        &&& self.blocked@.len() == self.h
        &&& forall|y: int| 0 <= y < self.h ==> (#[trigger] self.cells@[y])@.len() == self.w
        &&& forall|y: int| 0 <= y < self.h ==> (#[trigger] self.blocked@[y])@.len() == self.w
        &&& coord_ok(self.w as int)
        &&& coord_ok(self.h as int)
    }

    /// The characters and box marks, row by row.
    pub open spec fn view_grid(&self) -> GridView {
        (self.cells@.map_values(|r: Vec<char>| r@), self.blocked@.map_values(|r: Vec<bool>| r@))
    }

    /// Whether `(x, y)` lies outside the grid or belongs to a box.
    pub open spec fn blocked_at(&self, x: int, y: int) -> bool {
        x >= self.w || y >= self.h || self.view_grid().1[y][x]
    }

    /// Whether `(x, y)` lies inside the grid, outside every box, and is blank.
    pub open spec fn free_at(&self, x: int, y: int) -> bool {
        !self.blocked_at(x, y) && self.view_grid().0[y][x] == ' '
    }

    /// A blank, unblocked grid.
    pub fn new(w: usize, h: usize) -> (c: Self)
        requires
            coord_ok(w as int),
            coord_ok(h as int),
        ensures
            c.wf(),
            c.w == w,
            c.h == h,
            c.view_grid() == blank_grid(w as nat, h as nat),
    {
        let mut cells: Vec<Vec<char>> = Vec::new();
        let mut blocked: Vec<Vec<bool>> = Vec::new();
        let mut y: usize = 0;
        while y < h
            invariant
                y <= h,
                cells@.len() == y,
                blocked@.len() == y,
                forall|k: int| 0 <= k < y ==> (#[trigger] cells@[k])@.len() == w,
                forall|k: int| 0 <= k < y ==> (#[trigger] blocked@[k])@.len() == w,
                forall|k: int, x: int| 0 <= k < y && 0 <= x < w ==> #[trigger] cells@[k]@[x] == ' ',
                forall|k: int, x: int| 0 <= k < y && 0 <= x < w ==> !#[trigger] blocked@[k]@[x],
            decreases h - y,
        {
            let mut row: Vec<char> = Vec::new();
            let mut brow: Vec<bool> = Vec::new();
            let mut x: usize = 0;
            while x < w
                invariant
                    x <= w,
                    row@.len() == x,
                    brow@.len() == x,
                    forall|k: int| 0 <= k < x ==> row@[k] == ' ',
                    forall|k: int| 0 <= k < x ==> !brow@[k],
                decreases w - x,
            {
                row.push(' ');
                brow.push(false);
                x += 1;
            }
            cells.push(row);
            blocked.push(brow);
            y += 1;
        }
        let c = Canvas { w, h, cells, blocked };
        let ghost b = blank_grid(w as nat, h as nat);
        assert forall|yy: int| 0 <= yy < h implies #[trigger] c.view_grid().0[yy] == b.0[yy] by {
            assert(c.view_grid().0[yy] =~= b.0[yy]);
        }
        assert forall|yy: int| 0 <= yy < h implies #[trigger] c.view_grid().1[yy] == b.1[yy] by {
            assert(c.view_grid().1[yy] =~= b.1[yy]);
        }
        assert(c.view_grid().0 =~= b.0);
        assert(c.view_grid().1 =~= b.1);
        c
    }

    /// Whether `(x, y)` belongs to a box; cells outside the grid count as
    /// blocked.
    pub fn is_blocked(&self, x: usize, y: usize) -> (b: bool)
        requires
            self.wf(),
        ensures
            b == self.blocked_at(x as int, y as int),
    {
        if y >= self.h || x >= self.w {
            return true;
        }
        proof {
            assert(self.view_grid().1[y as int] == self.blocked@[y as int]@);
        }
        self.blocked[y][x]
    }

    /// Whether `(x, y)` exists, is not part of a box and is still blank.
    pub fn is_free(&self, x: usize, y: usize) -> (b: bool)
        requires
            self.wf(),
        ensures
            b == self.free_at(x as int, y as int),
    {
        if self.is_blocked(x, y) {
            return false;
        }
        proof {
            assert(self.view_grid().0[y as int] == self.cells@[y as int]@);
        }
        self.cells[y][x] == ' '
    }

    fn set_cell(&mut self, x: usize, y: usize, c: char)
        requires
            old(self).wf(),
            x < old(self).w,
            y < old(self).h,
        ensures
            final(self).wf(),
            final(self).w == old(self).w,
            final(self).h == old(self).h,
            final(self).blocked == old(self).blocked,
            final(self).view_grid() == (with_cell(old(self).view_grid().0, x as int, y as int, c), old(self).view_grid().1),
    {
        let ghost g0 = self.view_grid().0;
        let mut row: Vec<char> = Vec::new();
        self.cells.set_and_swap(y, &mut row);
        row.set(x, c);
        self.cells.set_and_swap(y, &mut row);
        proof {
            assert(g0[y as int] == old(self).cells@[y as int]@);
            assert(self.view_grid().0 =~= with_cell(g0, x as int, y as int, c));
        }
    }

    fn set_blocked(&mut self, x: usize, y: usize)
        requires
            old(self).wf(),
            x < old(self).w,
            y < old(self).h,
        ensures
            final(self).wf(),
            final(self).w == old(self).w,
            final(self).h == old(self).h,
            final(self).cells == old(self).cells,
            final(self).view_grid() == (old(self).view_grid().0, with_cell(old(self).view_grid().1, x as int, y as int, true)),
    {
        let ghost m0 = self.view_grid().1;
        let mut row: Vec<bool> = Vec::new();
        self.blocked.set_and_swap(y, &mut row);
        row.set(x, true);
        self.blocked.set_and_swap(y, &mut row);
        proof {
            assert(m0[y as int] == old(self).blocked@[y as int]@);
            assert(self.view_grid().1 =~= with_cell(m0, x as int, y as int, true));
        }
    }

    /// Writes `c` unless the cell belongs to a box or is already used.
    pub fn put(&mut self, x: usize, y: usize, c: char)
        requires
            old(self).wf(),
        ensures
            final(self).wf(),
            final(self).w == old(self).w,
            final(self).h == old(self).h,
            final(self).view_grid() == put_cell(
                old(self).view_grid(),
                old(self).w as nat,
                old(self).h as nat,
                x as int,
                y as int,
                c,
            ),
    {
        if self.is_free(x, y) {
            self.set_cell(x, y, c);
        }
    }

    /// Writes `c` over any previous edge glyph, but never over a box.
    pub fn force(&mut self, x: usize, y: usize, c: char)
        requires
            old(self).wf(),
        ensures
            final(self).wf(),
            final(self).w == old(self).w,
            final(self).h == old(self).h,
            final(self).view_grid() == force_cell(
                old(self).view_grid(),
                old(self).w as nat,
                old(self).h as nat,
                x as int,
                y as int,
                c,
            ),
    {
        if self.is_blocked(x, y) {
            return;
        }
        self.set_cell(x, y, c);
    }

    /// Writes a corner glyph, merging it with a corner already drawn there so
    /// that two edges meeting in one cell become a tee.
    pub fn join(&mut self, x: usize, y: usize, c: char)
        requires
            old(self).wf(),
        ensures
            final(self).wf(),
            final(self).w == old(self).w,
            final(self).h == old(self).h,
            final(self).view_grid() == join_cell(
                old(self).view_grid(),
                old(self).w as nat,
                old(self).h as nat,
                x as int,
                y as int,
                c,
            ),
    {
        if self.is_blocked(x, y) {
            return;
        }
        let old = self.cells[y][x];
        proof {
            assert(self.view_grid().0[y as int] == self.cells@[y as int]@);
        }
        let merged = merge_corner(old, c);
        self.force(x, y, merged);
    }

    /// Box painting: writes unconditionally and marks the cell as occupied.
    pub fn paint(&mut self, x: usize, y: usize, c: char)
        requires
            old(self).wf(),
        ensures
            final(self).wf(),
            final(self).w == old(self).w,
            final(self).h == old(self).h,
            final(self).view_grid() == paint_cell(
                old(self).view_grid(),
                old(self).w as nat,
                old(self).h as nat,
                x as int,
                y as int,
                c,
            ),
    {
        if x < self.w && y < self.h {
            self.set_cell(x, y, c);
            self.set_blocked(x, y);
        }
    }

    /// Paints the characters of `s` from `(x, y)` on, each advancing by its
    /// width (at least one cell).
    pub fn paint_text(&mut self, x: usize, y: usize, s: &str)
        requires
            old(self).wf(),
        ensures
            final(self).wf(),
            final(self).w == old(self).w,
            final(self).h == old(self).h,
            final(self).view_grid() == paint_text_spec(
                old(self).view_grid(),
                old(self).w as nat,
                old(self).h as nat,
                x as int,
                y as int,
                s@,
            ),
    {
        let cs = chars_of(s);
        let mut cx = x;
        let mut k: usize = 0;
        let ghost target = paint_text_spec(
            self.view_grid(),
            self.w as nat,
            self.h as nat,
            x as int,
            y as int,
            s@,
        );
        proof {
            assert(cs@.skip(0) =~= s@);
        }
        while k < cs.len()
            invariant
                self.wf(),
                self.w == old(self).w,
                self.h == old(self).h,
                k <= cs@.len(),
                cs@ == s@,
                paint_text_spec(self.view_grid(), self.w as nat, self.h as nat, cx as int, y as int, cs@.skip(k as int))
                    == target,
            decreases cs@.len() - k,
        {
            let c = cs[k];
            proof {
                assert(cs@.skip(k as int)[0] == c);
                assert(cs@.skip(k as int).drop_first() =~= cs@.skip(k + 1));
            }
            self.paint(cx, y, c);
            let cw = char_width(c);
            cx = cx.saturating_add(if cw < 1 { 1 } else { cw });
            k += 1;
        }
        proof {
            assert(cs@.skip(k as int) =~= Seq::<char>::empty());
        }
    }

    /// Writes `s` from `(x, y)` on only if every cell it needs is free.
    pub fn text_if_free(&mut self, x: usize, y: usize, s: &str) -> (written: bool)
        requires
            old(self).wf(),
            fits(s@),
        ensures
            final(self).wf(),
            final(self).w == old(self).w,
            final(self).h == old(self).h,
            written == text_fits_free(old(self).view_grid(), old(self).w as nat, old(self).h as nat, x as int, y as int, s@),
            final(self).view_grid() == text_if_free_spec(
                old(self).view_grid(),
                old(self).w as nat,
                old(self).h as nat,
                x as int,
                y as int,
                s@,
            ),
    {
        let w = width(s);
        if w == 0 {
            return false;
        }
        let mut i: usize = 0;
        let ghost s0 = *self;
        while i < w
            invariant
                self.wf(),
                *self == s0,
                s0 == *old(self),
                i <= w,
                w == display_width(s@),
                x + i <= usize::MAX + 1,
                forall|c: int| x <= c < x + i ==> #[trigger] cell_free(s0.view_grid(), s0.w as nat, s0.h as nat, c, y as int),
            decreases w - i,
        {
            match x.checked_add(i) {
                Some(cx) => {
                    let free = self.is_free(cx, y);
                    proof {
                        assert(free == cell_free(s0.view_grid(), s0.w as nat, s0.h as nat, cx as int, y as int));
                    }
                    if !free {
                        return false;
                    }
                },
                None => {
                    return false;
                },
            }
            i += 1;
        }
        let cs = chars_of(s);
        let mut cx = x;
        let mut k: usize = 0;
        let ghost target = force_text_spec(
            self.view_grid(),
            self.w as nat,
            self.h as nat,
            x as int,
            y as int,
            s@,
        );
        proof {
            assert(cs@.skip(0) =~= s@);
        }
        while k < cs.len()
            invariant
                self.wf(),
                self.w == old(self).w,
                self.h == old(self).h,
                k <= cs@.len(),
                cs@ == s@,
                force_text_spec(self.view_grid(), self.w as nat, self.h as nat, cx as int, y as int, cs@.skip(k as int))
                    == target,
            decreases cs@.len() - k,
        {
            let c = cs[k];
            proof {
                assert(cs@.skip(k as int)[0] == c);
                assert(cs@.skip(k as int).drop_first() =~= cs@.skip(k + 1));
            }
            self.force(cx, y, c);
            let cw = char_width(c);
            cx = cx.saturating_add(if cw < 1 { 1 } else { cw });
            k += 1;
        }
        proof {
            assert(cs@.skip(k as int) =~= Seq::<char>::empty());
        }
        true
    }

    /// The rows as strings, trailing blanks removed.
    pub fn into_lines(self) -> (out: Vec<String>)
        requires
            self.wf(),
        ensures
            out@.len() == self.h,
            forall|i: int| 0 <= i < out@.len() ==> (#[trigger] out@[i])@.len() <= self.w,
            forall|i: int| 0 <= i < out@.len() ==> (#[trigger] out@[i])@ == trim_end_blanks(self.view_grid().0[i]),
    {
        let mut out: Vec<String> = Vec::new();
        let mut y: usize = 0;
        while y < self.h
            invariant
                self.wf(),
                y <= self.h,
                out@.len() == y,
                forall|i: int| 0 <= i < out@.len() ==> (#[trigger] out@[i])@.len() <= self.w,
                forall|i: int| 0 <= i < out@.len() ==> (#[trigger] out@[i])@ == trim_end_blanks(self.view_grid().0[i]),
            decreases self.h - y,
        {
            let row = &self.cells[y];
            let mut end = row.len();
            proof {
                assert(row@.take(end as int) =~= row@);
            }
            while end > 0 && row[end - 1] == ' '
                invariant
                    end <= row@.len(),
                    trim_end_blanks(row@.take(end as int)) == trim_end_blanks(row@),
                decreases end,
            {
                proof {
                    assert(row@.take(end as int).drop_last() =~= row@.take(end - 1));
                }
                end -= 1;
            }
            let line = slice_string(row, 0, end);
            proof {
                assert(row@.subrange(0, end as int) =~= row@.take(end as int));
                assert(self.view_grid().0[y as int] == row@);
            }
            out.push(line);
            y += 1;
        }
        out
    }
}

/// The glyph that results from drawing corner `c` over `old`: a blank takes
/// `c`, equal glyphs stay, two opposite corners or a corner over a line
/// become the tee (or cross) that joins them, and anything else is replaced.
pub open spec fn merge_corner_spec(old: char, c: char) -> char {
    if old == ' ' {
        c
    } else if old == c {
        old
    } else if (old == '├' && c == '┤') || (old == '┤' && c == '├') || (old == '┴' && c == '┬')
        || (old == '┬' && c == '┴') || old == '┼' {
        '┼'
    } else if (old == '┌' && c == '└') || (old == '└' && c == '┌') || (old == '│' && c == '┌')
        || (old == '│' && c == '└') || old == '├' {
        '├'
    } else if (old == '┐' && c == '┘') || (old == '┘' && c == '┐') || (old == '│' && c == '┐')
        || (old == '│' && c == '┘') || old == '┤' {
        '┤'
    } else if (old == '└' && c == '┘') || (old == '┘' && c == '└') || (old == '─' && c == '└')
        || (old == '─' && c == '┘') || old == '┴' {
        '┴'
    } else if (old == '┌' && c == '┐') || (old == '┐' && c == '┌') || (old == '─' && c == '┌')
        || (old == '─' && c == '┐') || old == '┬' {
        '┬'
    } else {
        c
    }
}

pub fn merge_corner(old: char, c: char) -> (m: char)
    ensures
        m == merge_corner_spec(old, c),
{
    if old == ' ' {
        c
    } else if old == c {
        old
    } else if (old == '├' && c == '┤') || (old == '┤' && c == '├') || (old == '┴' && c == '┬')
        || (old == '┬' && c == '┴') || old == '┼' {
        '┼'
    } else if (old == '┌' && c == '└') || (old == '└' && c == '┌') || (old == '│' && c == '┌')
        || (old == '│' && c == '└') || old == '├' {
        '├'
    } else if (old == '┐' && c == '┘') || (old == '┘' && c == '┐') || (old == '│' && c == '┐')
        || (old == '│' && c == '┘') || old == '┤' {
        '┤'
    } else if (old == '└' && c == '┘') || (old == '┘' && c == '└') || (old == '─' && c == '└')
        || (old == '─' && c == '┘') || old == '┴' {
        '┴'
    } else if (old == '┌' && c == '┐') || (old == '┐' && c == '┌') || (old == '─' && c == '┌')
        || (old == '─' && c == '┐') || old == '┬' {
        '┬'
    } else {
        c
    }
}

/// Position and size of a placed box.
#[derive(Clone, Copy)]
pub struct Rect {
    pub x: usize,
    pub y: usize,
    pub w: usize,
    pub h: usize,
}

pub open spec fn rect_ok(r: Rect) -> bool {
    coord_ok(r.x as int) && coord_ok(r.y as int) && coord_ok(r.w as int) && coord_ok(r.h as int)
}

/// A node box before placement: its wrapped label lines and size.
pub struct Boxed {
    pub lines: Vec<String>,
    pub w: usize,
    pub h: usize,
    pub shape: NodeShape,
}

/// The cells `x..x+k` of row `y` painted blank, left to right.
pub open spec fn fill_row(v: GridView, gw: nat, gh: nat, x: int, y: int, k: nat) -> GridView
    decreases k,
{
    if k == 0 {
        v
    } else {
        paint_cell(fill_row(v, gw, gh, x, y, (k - 1) as nat), gw, gh, x + k - 1, y, ' ')
    }
}

/// The first `k` rows of the `w`-wide rectangle at `(x, y)` painted blank.
pub open spec fn fill_rect(v: GridView, gw: nat, gh: nat, x: int, y: int, w: nat, k: nat) -> GridView
    decreases k,
{
    if k == 0 {
        v
    } else {
        fill_row(fill_rect(v, gw, gh, x, y, w, (k - 1) as nat), gw, gh, x, y + k - 1, w)
    }
}

/// The top and bottom borders of a box of height `h` at `(x, y)`, columns
/// `1..k`, painted column by column.
pub open spec fn box_rims(v: GridView, gw: nat, gh: nat, x: int, y: int, h: int, top: char, bottom: char, k: nat) -> GridView
    decreases k,
{
    if k <= 1 {
        v
    } else {
        let p = box_rims(v, gw, gh, x, y, h, top, bottom, (k - 1) as nat);
        paint_cell(paint_cell(p, gw, gh, x + k - 1, y, top), gw, gh, x + k - 1, y + h - 1, bottom)
    }
}

/// The first `k` label lines of a box `w` wide at `(x, y)`: each on its own
/// row below the top border, between the side borders, two cells in.
pub open spec fn box_lines(v: GridView, gw: nat, gh: nat, x: int, y: int, w: int, left: char, right: char, lines: Seq<Seq<char>>, k: nat) -> GridView
    decreases k,
{
    if k == 0 {
        v
    } else {
        let p = box_lines(v, gw, gh, x, y, w, left, right, lines, (k - 1) as nat);
        let row: int = if y + 1 + (k - 1) > usize::MAX { usize::MAX as int } else { y + 1 + (k - 1) };
        paint_text_spec(
            paint_cell(paint_cell(p, gw, gh, x, row, left), gw, gh, x + w - 1, row, right),
            gw,
            gh,
            x + 2,
            row,
            lines[k - 1],
        )
    }
}

/// The box of `lines` and `shape` painted at `r`: its area blanked, then
/// the corners, the top and bottom borders, and each label line with its
/// side borders; nothing for a box under two cells wide or high.
pub open spec fn box_spec(v: GridView, gw: nat, gh: nat, lines: Seq<Seq<char>>, shape: NodeShape, r: Rect, unicode: bool) -> GridView {
    let (tl, tr, bl, br, top, bottom, left, right) = box_chars_spec(shape, unicode);
    let (x, y, w, h) = (r.x as int, r.y as int, r.w as int, r.h as int);
    if w < 2 || h < 2 {
        v
    } else {
        let v1 = fill_rect(v, gw, gh, x, y, w as nat, h as nat);
        let v2 = paint_cell(v1, gw, gh, x, y, tl);
        let v3 = paint_cell(v2, gw, gh, x + w - 1, y, tr);
        let v4 = paint_cell(v3, gw, gh, x, y + h - 1, bl);
        let v5 = paint_cell(v4, gw, gh, x + w - 1, y + h - 1, br);
        let v6 = box_rims(v5, gw, gh, x, y, h, top, bottom, (w - 1) as nat);
        box_lines(v6, gw, gh, x, y, w, left, right, lines, lines.len())
    }
}

/// Paints the border, the blank interior and the label lines of a box.
fn paint_box(canvas: &mut Canvas, b: &Boxed, r: Rect, unicode: bool)
    requires
        old(canvas).wf(),
        rect_ok(r),
    ensures
        final(canvas).wf(),
        final(canvas).w == old(canvas).w,
        final(canvas).h == old(canvas).h,
        final(canvas).view_grid() == box_spec(
            old(canvas).view_grid(),
            old(canvas).w as nat,
            old(canvas).h as nat,
            strings_view(b.lines@),
            b.shape,
            r,
            unicode,
        ),
{
    let ch = box_chars(b.shape, unicode);
    let (x, y, w, h) = (r.x, r.y, r.w, r.h);
    if w < 2 || h < 2 {
        return;
    }
    let ghost gw = canvas.w as nat;
    let ghost gh = canvas.h as nat;
    let ghost v0 = canvas.view_grid();
    let mut row: usize = 0;
    while row < h
        invariant
            canvas.wf(),
            canvas.w == old(canvas).w,
            canvas.h == old(canvas).h,
            gw == canvas.w,
            gh == canvas.h,
            row <= h,
            rect_ok(r),
            x == r.x && y == r.y && w == r.w && h == r.h,
            canvas.view_grid() == fill_rect(v0, gw, gh, x as int, y as int, w as nat, row as nat),
        decreases h - row,
    {
        let ghost vr = canvas.view_grid();
        let mut col: usize = 0;
        while col < w
            invariant
                canvas.wf(),
                canvas.w == old(canvas).w,
                canvas.h == old(canvas).h,
                gw == canvas.w,
                gh == canvas.h,
                col <= w,
                row < h,
                rect_ok(r),
                x == r.x && y == r.y && w == r.w && h == r.h,
                canvas.view_grid() == fill_row(vr, gw, gh, x as int, (y + row) as int, col as nat),
            decreases w - col,
        {
            canvas.paint(x + col, y + row, ' ');
            col += 1;
        }
        row += 1;
    }
    canvas.paint(x, y, ch.tl);
    canvas.paint(x + w - 1, y, ch.tr);
    canvas.paint(x, y + h - 1, ch.bl);
    canvas.paint(x + w - 1, y + h - 1, ch.br);
    let ghost v5 = canvas.view_grid();
    let mut i: usize = 1;
    while i < w - 1
        invariant
            canvas.wf(),
            canvas.w == old(canvas).w,
            canvas.h == old(canvas).h,
            gw == canvas.w,
            gh == canvas.h,
            1 <= i <= w - 1,
            rect_ok(r),
            w >= 2 && h >= 2,
            x == r.x && y == r.y && w == r.w && h == r.h,
            canvas.view_grid() == box_rims(v5, gw, gh, x as int, y as int, h as int, ch.top, ch.bottom, i as nat),
        decreases w - 1 - i,
    {
        canvas.paint(x + i, y, ch.top);
        canvas.paint(x + i, y + h - 1, ch.bottom);
        i += 1;
    }
    let ghost v6 = canvas.view_grid();
    let ghost lines = strings_view(b.lines@);
    let mut k: usize = 0;
    while k < b.lines.len()
        invariant
            canvas.wf(),
            canvas.w == old(canvas).w,
            canvas.h == old(canvas).h,
            gw == canvas.w,
            gh == canvas.h,
            k <= b.lines@.len(),
            rect_ok(r),
            w >= 2 && h >= 2,
            x == r.x && y == r.y && w == r.w && h == r.h,
            lines == strings_view(b.lines@),
            canvas.view_grid() == box_lines(v6, gw, gh, x as int, y as int, w as int, ch.left, ch.right, lines, k as nat),
        decreases b.lines@.len() - k,
    {
        let row = (y + 1).saturating_add(k);
        canvas.paint(x, row, ch.left);
        canvas.paint(x + w - 1, row, ch.right);
        proof {
            assert(lines[k as int] == b.lines@[k as int]@);
        }
        canvas.paint_text(x + 2, row, b.lines[k].as_str());
        k += 1;
    }
}

// ---------------------------------------------------------------------------
// Step 1: layering
// ---------------------------------------------------------------------------

/// `vs[i].push(x)`.
fn push_at(vs: &mut Vec<Vec<usize>>, i: usize, x: usize)
    requires
        i < old(vs)@.len(),
    ensures
        final(vs)@.len() == old(vs)@.len(),
        final(vs)@[i as int]@ == old(vs)@[i as int]@.push(x),
        forall|k: int| 0 <= k < old(vs)@.len() && k != i ==> final(vs)@[k] == old(vs)@[k],
{
    let mut row: Vec<usize> = Vec::new();
    vs.set_and_swap(i, &mut row);
    row.push(x);
    vs.set_and_swap(i, &mut row);
}

/// `n` empty lists.
fn empty_lists(n: usize) -> (out: Vec<Vec<usize>>)
    ensures
        out@.len() == n,
        forall|k: int| 0 <= k < n ==> (#[trigger] out@[k])@.len() == 0,
{
    let mut out: Vec<Vec<usize>> = Vec::new();
    let mut i: usize = 0;
    while i < n
        invariant
            i <= n,
            out@.len() == i,
            forall|k: int| 0 <= k < i ==> (#[trigger] out@[k])@.len() == 0,
        decreases n - i,
    {
        out.push(Vec::new());
        i += 1;
    }
    out
}

/// `n` copies of `x`.
fn filled_usize(n: usize, x: usize) -> (out: Vec<usize>)
    ensures
        out@.len() == n,
        forall|k: int| 0 <= k < n ==> #[trigger] out@[k] == x,
{
    let mut out: Vec<usize> = Vec::new();
    let mut i: usize = 0;
    while i < n
        invariant
            i <= n,
            out@.len() == i,
            forall|k: int| 0 <= k < i ==> #[trigger] out@[k] == x,
        decreases n - i,
    {
        out.push(x);
        i += 1;
    }
    out
}

/// A copy of a list of indices.
fn copy_list(v: &Vec<usize>) -> (out: Vec<usize>)
    ensures
        out@ == v@,
{
    let mut out: Vec<usize> = Vec::new();
    let mut i: usize = 0;
    while i < v.len()
        invariant
            i <= v@.len(),
            out@ == v@.take(i as int),
        decreases v@.len() - i,
    {
        out.push(v[i]);
        i += 1;
        assert(v@.take(i as int) == v@.take(i - 1).push(v@[i - 1]));
    }
    assert(v@.take(v@.len() as int) == v@);
    out
}

/// The endpoints `(from, to)` of each edge, in source order.
pub open spec fn edge_ends(d: Diagram) -> Seq<(usize, usize)> {
    d.edges@.map_values(|e: DiagramEdge| (e.from, e.to))
}

/// For each of `n` nodes, the indices of the first `k` edges that leave it,
/// in source order; self-loops are left out.
pub open spec fn out_edges(ends: Seq<(usize, usize)>, n: nat, k: nat) -> Seq<Seq<usize>>
    decreases k,
{
    if k == 0 {
        Seq::new(n, |i: int| Seq::<usize>::empty())
    } else {
        let prev = out_edges(ends, n, (k - 1) as nat);
        let e = ends[k - 1];
        if e.0 != e.1 && e.0 < n {
            prev.update(e.0 as int, prev[e.0 as int].push((k - 1) as usize))
        } else {
            prev
        }
    }
}

/// The search's stack of `(node, next out-edge)` frames, the colour of each
/// node (0 unvisited, 1 on the stack, 2 done), the back-edge marks and the
/// steps taken.
pub type DfsState = (Seq<(usize, usize)>, Seq<usize>, Seq<bool>, nat);

/// One step of the search from the frame on top of the stack: a frame whose
/// edges are exhausted finishes its node; otherwise its next edge is
/// followed, entering an unvisited target or marking an edge into a node
/// still on the stack as a back edge.
pub open spec fn dfs_step(adj: Seq<Seq<usize>>, ends: Seq<(usize, usize)>, n: nat, s: DfsState) -> DfsState {
    let (stack, colour, back, steps) = s;
    let top = stack.len() - 1;
    let (node, idx) = stack[top];
    if node >= n {
        (stack.drop_last(), colour, back, steps + 1)
    } else if idx >= adj[node as int].len() {
        (stack.drop_last(), colour.update(node as int, 2), back, steps + 1)
    } else {
        let ei = adj[node as int][idx as int];
        let stack1 = stack.update(top, (node, (idx + 1) as usize));
        if ei >= ends.len() {
            (stack1, colour, back, steps + 1)
        } else {
            let t = ends[ei as int].1;
            if t < n && colour[t as int] == 0 {
                (stack1.push((t, 0usize)), colour.update(t as int, 1), back, steps + 1)
            } else if t < n && colour[t as int] == 1 {
                (stack1, colour, back.update(ei as int, true), steps + 1)
            } else {
                (stack1, colour, back, steps + 1)
            }
        }
    }
}

/// The search from `root` on, at the head of the loop over roots.
pub open spec fn dfs_roots(adj: Seq<Seq<usize>>, ends: Seq<(usize, usize)>, n: nat, budget: nat, root: nat, colour: Seq<usize>, back: Seq<bool>, steps: nat) -> Seq<bool>
    decreases n - root, budget - steps, 1nat,
{
    if root >= n || steps > budget {
        back
    } else if colour[root as int] != 0 {
        dfs_roots(adj, ends, n, budget, root + 1, colour, back, steps)
    } else {
        dfs_frames(adj, ends, n, budget, root, (seq![(root as usize, 0usize)], colour.update(root as int, 1), back, steps))
    }
}

/// The search while the stack started at `root` is worked off, within the
/// step budget.
pub open spec fn dfs_frames(adj: Seq<Seq<usize>>, ends: Seq<(usize, usize)>, n: nat, budget: nat, root: nat, s: DfsState) -> Seq<bool>
    decreases n - root, budget - s.3, 0nat,
{
    if root >= n || s.3 > budget {
        s.2
    } else if s.0.len() > 0 && s.3 < budget {
        dfs_frames(adj, ends, n, budget, root, dfs_step(adj, ends, n, s))
    } else {
        dfs_roots(adj, ends, n, budget, root + 1, s.1, s.2, s.3)
    }
}

/// The back edges of a diagram with `n` nodes and edge endpoints `ends`:
/// self-loops, and the edges that the depth-first search from the nodes in
/// declaration order, following edges in source order for at most `n + m`
/// steps, finds pointing into a node still on its stack.
pub open spec fn back_edges_spec(ends: Seq<(usize, usize)>, n: nat) -> Seq<bool> {
    let budget: nat = if n + ends.len() > usize::MAX { usize::MAX as nat } else { n + ends.len() };
    dfs_roots(
        out_edges(ends, n, ends.len()),
        ends,
        n,
        budget,
        0,
        Seq::new(n, |i: int| 0usize),
        Seq::new(ends.len(), |i: int| ends[i].0 == ends[i].1),
        0,
    )
}

proof fn lemma_roots_keep_marks(adj: Seq<Seq<usize>>, ends: Seq<(usize, usize)>, n: nat, budget: nat, root: nat, colour: Seq<usize>, back: Seq<bool>, steps: nat, i: int)
    requires
        0 <= i < back.len(),
        back[i],
        back.len() == ends.len(),
    ensures
        dfs_roots(adj, ends, n, budget, root, colour, back, steps).len() == back.len(),
        dfs_roots(adj, ends, n, budget, root, colour, back, steps)[i],
    decreases n - root, budget - steps, 1nat,
{
    if root >= n || steps > budget {
    } else if colour[root as int] != 0 {
        lemma_roots_keep_marks(adj, ends, n, budget, root + 1, colour, back, steps, i);
    } else {
        lemma_frames_keep_marks(adj, ends, n, budget, root, (seq![(root as usize, 0usize)], colour.update(root as int, 1), back, steps), i);
    }
}

proof fn lemma_frames_keep_marks(adj: Seq<Seq<usize>>, ends: Seq<(usize, usize)>, n: nat, budget: nat, root: nat, s: DfsState, i: int)
    requires
        0 <= i < s.2.len(),
        s.2[i],
        s.2.len() == ends.len(),
    ensures
        dfs_frames(adj, ends, n, budget, root, s).len() == s.2.len(),
        dfs_frames(adj, ends, n, budget, root, s)[i],
    decreases n - root, budget - s.3, 0nat,
{
    if root >= n || s.3 > budget {
    } else if s.0.len() > 0 && s.3 < budget {
        let s1 = dfs_step(adj, ends, n, s);
        assert(s1.2.len() == s.2.len() && s1.2[i]);
        assert(s1.3 == s.3 + 1);
        lemma_frames_keep_marks(adj, ends, n, budget, root, s1, i);
    } else {
        lemma_roots_keep_marks(adj, ends, n, budget, root + 1, s.1, s.2, s.3, i);
    }
}

/// Every self-loop is a back edge: the search starts with them marked and
/// never clears a mark.
pub proof fn law_self_loops_are_back_edges(ends: Seq<(usize, usize)>, n: nat, i: int)
    requires
        0 <= i < ends.len(),
        ends[i].0 == ends[i].1,
    ensures
        back_edges_spec(ends, n).len() == ends.len(),
        back_edges_spec(ends, n)[i],
{
    let budget: nat = if n + ends.len() > usize::MAX { usize::MAX as nat } else { n + ends.len() };
    let back0 = Seq::new(ends.len(), |k: int| ends[k].0 == ends[k].1);
    lemma_roots_keep_marks(out_edges(ends, n, ends.len()), ends, n, budget, 0, Seq::new(n, |k: int| 0usize), back0, 0, i);
}

/// The index lists as sequences.
pub open spec fn lists_view(v: Seq<Vec<usize>>) -> Seq<Seq<usize>> {
    v.map_values(|l: Vec<usize>| l@)
}

/// Marks the edges that close a cycle in a depth-first search that starts
/// from the nodes in declaration order and follows edges in source order;
/// self-loops are always marked. Each node is expanded once and each edge
/// followed once, so `n + m` steps complete the search.
fn back_edges(diagram: &Diagram) -> (back: Vec<bool>)
    ensures
        back@ == back_edges_spec(edge_ends(*diagram), diagram.nodes@.len()),
        back@.len() == diagram.edges@.len(),
{
    let n = diagram.nodes.len();
    let m = diagram.edges.len();
    let ghost ends = edge_ends(*diagram);
    let mut back: Vec<bool> = Vec::new();
    let mut out = empty_lists(n);
    proof {
        assert forall|k: int| 0 <= k < n implies #[trigger] lists_view(out@)[k] == out_edges(ends, n as nat, 0)[k] by {
            assert(lists_view(out@)[k] =~= Seq::<usize>::empty());
        }
        assert(lists_view(out@) =~= out_edges(ends, n as nat, 0));
    }
    let mut ei: usize = 0;
    while ei < m
        invariant
            ei <= m,
            m == diagram.edges@.len(),
            ends == edge_ends(*diagram),
            back@ =~= Seq::new(ei as nat, |i: int| ends[i].0 == ends[i].1),
            out@.len() == n,
            lists_view(out@) == out_edges(ends, n as nat, ei as nat),
        decreases m - ei,
    {
        let e = &diagram.edges[ei];
        proof {
            assert(ends[ei as int] == (e.from, e.to));
        }
        let ghost prev = lists_view(out@);
        if e.from != e.to {
            if e.from < n {
                push_at(&mut out, e.from, ei);
                proof {
                    assert(lists_view(out@) =~= prev.update(e.from as int, prev[e.from as int].push(ei)));
                }
            }
            back.push(false);
        } else {
            back.push(true);
        }
        ei += 1;
    }
    let ghost adj = out_edges(ends, n as nat, m as nat);
    let mut state: Vec<usize> = filled_usize(n, 0);
    proof {
        assert(state@ =~= Seq::new(n as nat, |i: int| 0usize));
        assert(ends.len() == m);
    }
    let budget = n.saturating_add(m);
    let ghost target = back_edges_spec(ends, n as nat);
    let mut steps: usize = 0;
    let mut root: usize = 0;
    while root < n
        invariant
            root <= n,
            n == diagram.nodes@.len(),
            m == diagram.edges@.len(),
            ends.len() == m,
            ends == edge_ends(*diagram),
            back@.len() == m,
            out@.len() == n,
            lists_view(out@) == adj,
            state@.len() == n,
            steps <= budget,
            dfs_roots(adj, ends, n as nat, budget as nat, root as nat, state@, back@, steps as nat) == target,
        decreases n - root,
    {
        if state[root] != 0 {
            root += 1;
            continue;
        }
        let mut stack: Vec<(usize, usize)> = Vec::new();
        stack.push((root, 0));
        state.set(root, 1);
        proof {
            assert(stack@ =~= seq![(root, 0usize)]);
        }
        while stack.len() > 0 && steps < budget
            invariant
                root < n,
                n == diagram.nodes@.len(),
                m == diagram.edges@.len(),
                ends.len() == m,
                ends == edge_ends(*diagram),
                back@.len() == m,
                out@.len() == n,
                lists_view(out@) == adj,
                state@.len() == n,
                steps <= budget,
                dfs_frames(adj, ends, n as nat, budget as nat, root as nat, (stack@, state@, back@, steps as nat)) == target,
            decreases budget - steps,
        {
            let ghost s0: DfsState = (stack@, state@, back@, steps as nat);
            steps += 1;
            let top = stack.len() - 1;
            let (node, idx) = stack[top];
            if node >= n {
                stack.pop();
                proof {
                    assert((stack@, state@, back@, steps as nat) == dfs_step(adj, ends, n as nat, s0));
                }
                continue;
            }
            proof {
                assert(adj[node as int] == out@[node as int]@);
            }
            if idx >= out[node].len() {
                state.set(node, 2);
                stack.pop();
                proof {
                    assert((stack@, state@, back@, steps as nat) == dfs_step(adj, ends, n as nat, s0));
                }
                continue;
            }
            let ei = out[node][idx];
            stack.set(top, (node, idx + 1));
            if ei >= m {
                proof {
                    assert((stack@, state@, back@, steps as nat) == dfs_step(adj, ends, n as nat, s0));
                }
                continue;
            }
            let target_node = diagram.edges[ei].to;
            proof {
                assert(ends[ei as int].1 == target_node);
            }
            if target_node < n {
                if state[target_node] == 0 {
                    state.set(target_node, 1);
                    stack.push((target_node, 0));
                } else if state[target_node] == 1 {
                    back.set(ei, true);
                }
            }
            proof {
                assert((stack@, state@, back@, steps as nat) == dfs_step(adj, ends, n as nat, s0));
            }
        }
        root += 1;
    }
    back
}

/// For each of `n` nodes, the targets of the first `k` edges that leave it
/// and are not back edges, in source order.
pub open spec fn fwd_lists(ends: Seq<(usize, usize)>, back: Seq<bool>, n: nat, k: nat) -> Seq<Seq<usize>>
    decreases k,
{
    if k == 0 {
        Seq::new(n, |i: int| Seq::<usize>::empty())
    } else {
        let prev = fwd_lists(ends, back, n, (k - 1) as nat);
        let e = ends[k - 1];
        if !back[k - 1] && e.0 < n {
            prev.update(e.0 as int, prev[e.0 as int].push(e.1))
        } else {
            prev
        }
    }
}

/// `d + 1`, or `d` when that does not fit.
pub open spec fn sat_inc(d: usize) -> usize {
    if d == usize::MAX { d } else { (d + 1) as usize }
}

/// For each of `n` nodes, how many of the first `k` edges that are not back
/// edges enter it.
pub open spec fn in_degrees(ends: Seq<(usize, usize)>, back: Seq<bool>, n: nat, k: nat) -> Seq<usize>
    decreases k,
{
    if k == 0 {
        Seq::new(n, |i: int| 0usize)
    } else {
        let prev = in_degrees(ends, back, n, (k - 1) as nat);
        let e = ends[k - 1];
        if !back[k - 1] && e.1 < n {
            prev.update(e.1 as int, sat_inc(prev[e.1 as int]))
        } else {
            prev
        }
    }
}

/// The nodes among the first `k` without incoming forward edges, in order.
pub open spec fn zero_nodes(indeg: Seq<usize>, k: nat) -> Seq<usize>
    decreases k,
{
    if k == 0 {
        Seq::empty()
    } else {
        let p = zero_nodes(indeg, (k - 1) as nat);
        if indeg[k - 1] == 0 { p.push((k - 1) as usize) } else { p }
    }
}

/// The layers, the in-degrees still outstanding and the queue of the
/// longest-path layering.
pub type KahnState = (Seq<usize>, Seq<usize>, Seq<usize>);

/// The first `k` forward edges of a node on layer `lv`, followed: each
/// target sits at least one layer further, loses one outstanding in-degree,
/// and joins the queue when it has none left.
pub open spec fn relax(targets: Seq<usize>, n: nat, lv: nat, s: KahnState, k: nat) -> KahnState
    decreases k,
{
    if k == 0 {
        s
    } else {
        let p = relax(targets, n, lv, s, (k - 1) as nat);
        let t = targets[k - 1];
        if t >= n {
            p
        } else {
            let layer = if p.0[t as int] < lv + 1 { p.0.update(t as int, (lv + 1) as usize) } else { p.0 };
            let d = p.1[t as int];
            if d > 0 {
                (layer, p.1.update(t as int, (d - 1) as usize), if d - 1 == 0 { p.2.push(t) } else { p.2 })
            } else {
                (layer, p.1, p.2)
            }
        }
    }
}

/// The layers once the queue is worked off from position `head` on (at
/// most `n` nodes are taken from it).
pub open spec fn kahn(fwd: Seq<Seq<usize>>, n: nat, head: nat, s: KahnState) -> Seq<usize>
    decreases n - head,
{
    if head >= s.2.len() || head >= n {
        s.0
    } else {
        let v = s.2[head as int];
        if v >= n {
            kahn(fwd, n, head + 1, s)
        } else {
            kahn(fwd, n, head + 1, relax(fwd[v as int], n, s.0[v as int] as nat, s, fwd[v as int].len()))
        }
    }
}

/// The layer of each node of a diagram with `n` nodes and edge endpoints
/// `ends`: longest-path layering over the edges that are not back edges,
/// in queue order from the nodes without incoming forward edges.
pub open spec fn layers_spec(ends: Seq<(usize, usize)>, n: nat) -> Seq<usize> {
    let back = back_edges_spec(ends, n);
    let indeg = in_degrees(ends, back, n, ends.len());
    kahn(fwd_lists(ends, back, n, ends.len()), n, 0, (Seq::new(n, |i: int| 0usize), indeg, zero_nodes(indeg, n)))
}

/// Longest-path layering over the edges that are not back edges, in queue
/// (Kahn) order: a node's layer is one more than the largest layer of a
/// node with a forward edge into it, and roots are on layer 0.
fn layering(diagram: &Diagram) -> (out: (Vec<usize>, Vec<bool>))
    ensures
        out.0@ == layers_spec(edge_ends(*diagram), diagram.nodes@.len()),
        out.1@ == back_edges_spec(edge_ends(*diagram), diagram.nodes@.len()),
        out.0@.len() == diagram.nodes@.len(),
        out.1@.len() == diagram.edges@.len(),
        forall|v: int| 0 <= v < out.0@.len() ==> #[trigger] out.0@[v] <= diagram.nodes@.len(),
{
    let n = diagram.nodes.len();
    let m = diagram.edges.len();
    let ghost ends = edge_ends(*diagram);
    let back = back_edges(diagram);
    let mut indeg = filled_usize(n, 0);
    let mut fwd = empty_lists(n);
    proof {
        assert forall|k: int| 0 <= k < n implies #[trigger] lists_view(fwd@)[k] == fwd_lists(ends, back@, n as nat, 0)[k] by {
            assert(lists_view(fwd@)[k] =~= Seq::<usize>::empty());
        }
        assert(lists_view(fwd@) =~= fwd_lists(ends, back@, n as nat, 0));
        assert(indeg@ =~= in_degrees(ends, back@, n as nat, 0));
    }
    let mut ei: usize = 0;
    while ei < m
        invariant
            ei <= m,
            m == diagram.edges@.len(),
            ends == edge_ends(*diagram),
            back@.len() == m,
            indeg@.len() == n,
            fwd@.len() == n,
            lists_view(fwd@) == fwd_lists(ends, back@, n as nat, ei as nat),
            indeg@ == in_degrees(ends, back@, n as nat, ei as nat),
        decreases m - ei,
    {
        let ghost f0 = lists_view(fwd@);
        let ghost d0 = indeg@;
        if !back[ei] {
            let e = &diagram.edges[ei];
            proof {
                assert(ends[ei as int] == (e.from, e.to));
            }
            if e.from < n {
                push_at(&mut fwd, e.from, e.to);
                proof {
                    assert(lists_view(fwd@) =~= f0.update(e.from as int, f0[e.from as int].push(e.to)));
                }
            }
            if e.to < n {
                let d = indeg[e.to];
                indeg.set(e.to, d.saturating_add(1));
            }
        }
        ei += 1;
    }
    let ghost fwd_v = lists_view(fwd@);
    let ghost indeg0 = indeg@;
    let mut layer = filled_usize(n, 0);
    proof {
        assert(layer@ =~= Seq::new(n as nat, |i: int| 0usize));
    }
    let mut queue: Vec<usize> = Vec::new();
    let mut v: usize = 0;
    while v < n
        invariant
            v <= n,
            indeg@.len() == n,
            indeg@ == indeg0,
            queue@ == zero_nodes(indeg0, v as nat),
        decreases n - v,
    {
        if indeg[v] == 0 {
            queue.push(v);
        }
        v += 1;
    }
    let ghost target = kahn(fwd_v, n as nat, 0, (layer@, indeg@, queue@));
    let mut head: usize = 0;
    while head < queue.len() && head < n
        invariant
            head <= n,
            layer@.len() == n,
            indeg@.len() == n,
            fwd@.len() == n,
            lists_view(fwd@) == fwd_v,
            forall|u: int| 0 <= u < n ==> #[trigger] layer@[u] <= head,
            kahn(fwd_v, n as nat, head as nat, (layer@, indeg@, queue@)) == target,
        decreases n - head,
    {
        let v = queue[head];
        head += 1;
        if v >= n {
            continue;
        }
        let targets = copy_list(&fwd[v]);
        proof {
            assert(targets@ == fwd_v[v as int]);
        }
        let lv = layer[v];
        let ghost s0: KahnState = (layer@, indeg@, queue@);
        let mut k: usize = 0;
        while k < targets.len()
            invariant
                k <= targets@.len(),
                head <= n,
                lv + 1 <= head,
                layer@.len() == n,
                indeg@.len() == n,
                forall|u: int| 0 <= u < n ==> #[trigger] layer@[u] <= head,
                (layer@, indeg@, queue@) == relax(targets@, n as nat, lv as nat, s0, k as nat),
            decreases targets@.len() - k,
        {
            let t = targets[k];
            if t < n {
                if layer[t] < lv + 1 {
                    layer.set(t, lv + 1);
                }
                let d = indeg[t];
                if d > 0 {
                    indeg.set(t, d - 1);
                    if d - 1 == 0 {
                        queue.push(t);
                    }
                }
            }
            k += 1;
        }
    }
    (layer, back)
}

// ---------------------------------------------------------------------------
// Step 2: ordering
// ---------------------------------------------------------------------------

/// `a/b < c/d`, compared exactly when both cross products fit in 128 bits,
/// else by the integer quotients.
pub open spec fn frac_less(a: u128, b: u128, c: u128, d: u128) -> bool {
    if a * d <= u128::MAX && c * b <= u128::MAX {
        a * d < c * b
    } else {
        a / b < c / d
    }
}

/// `a/b < c/d` for positive denominators, compared exactly.
fn fraction_less(a: u128, b: u128, c: u128, d: u128) -> (r: bool)
    requires
        b > 0,
        d > 0,
    ensures
        r == frac_less(a, b, c, d),
{
    match (a.checked_mul(d), c.checked_mul(b)) {
        (Some(x), Some(y)) => x < y,
        _ => a / b < c / d,
    }
}

/// The first `k` nodes of `bucket`, each recorded at its index in `pos`.
pub open spec fn sync_bucket(bucket: Seq<usize>, pos: Seq<usize>, k: nat) -> Seq<usize>
    decreases k,
{
    if k == 0 {
        pos
    } else {
        let p = sync_bucket(bucket, pos, (k - 1) as nat);
        let v = bucket[k - 1];
        if v < p.len() { p.update(v as int, (k - 1) as usize) } else { p }
    }
}

/// The nodes of the first `k` buckets, each recorded at its index within
/// its bucket.
pub open spec fn sync_all(layers: Seq<Seq<usize>>, pos: Seq<usize>, k: nat) -> Seq<usize>
    decreases k,
{
    if k == 0 {
        pos
    } else {
        let p = sync_all(layers, pos, (k - 1) as nat);
        sync_bucket(layers[k - 1], p, layers[k - 1].len())
    }
}

/// `a + b`, or `u128::MAX` when that does not fit.
pub open spec fn sat_add_u128(a: u128, b: u128) -> u128 {
    if a + b > u128::MAX { u128::MAX } else { (a + b) as u128 }
}

/// The sum of the recorded positions of the first `k` of `ns` (0 for one
/// without a position), saturating.
pub open spec fn pos_sum(ns: Seq<usize>, pos: Seq<usize>, k: nat) -> u128
    decreases k,
{
    if k == 0 {
        0
    } else {
        let u = ns[k - 1];
        let p: usize = if u < pos.len() { pos[u as int] } else { 0 };
        sat_add_u128(pos_sum(ns, pos, (k - 1) as nat), p as u128)
    }
}

/// The barycentre of node `v` at index `idx` of its bucket, as a fraction:
/// the mean position of its neighbours, or its own index when it has none.
pub open spec fn barycentre(v: usize, idx: nat, neighbours: Seq<Seq<usize>>, pos: Seq<usize>) -> (u128, u128) {
    if v < neighbours.len() && neighbours[v as int].len() > 0 {
        (pos_sum(neighbours[v as int], pos, neighbours[v as int].len()), neighbours[v as int].len() as u128)
    } else {
        (idx as u128, 1)
    }
}

/// Where `(num, den)` goes in `sorted` from `j` on: before the first entry
/// whose fraction is greater.
pub open spec fn insert_at(sorted: Seq<(u128, u128, usize)>, num: u128, den: u128, j: nat) -> nat
    decreases sorted.len() - j,
{
    if j >= sorted.len() || frac_less(num, den, sorted[j as int].0, sorted[j as int].1) {
        j
    } else {
        insert_at(sorted, num, den, j + 1)
    }
}

/// The first `k` nodes of `bucket` in stable order of barycentre.
pub open spec fn sorted_upto(bucket: Seq<usize>, neighbours: Seq<Seq<usize>>, pos: Seq<usize>, k: nat) -> Seq<(u128, u128, usize)>
    decreases k,
{
    if k == 0 {
        Seq::empty()
    } else {
        let s = sorted_upto(bucket, neighbours, pos, (k - 1) as nat);
        let (num, den) = barycentre(bucket[k - 1], (k - 1) as nat, neighbours, pos);
        s.insert(insert_at(s, num, den, 0) as int, (num, den, bucket[k - 1]))
    }
}

/// `layers` with bucket `li` reordered by barycentre over `neighbours`.
pub open spec fn reorder_spec(layers: Seq<Seq<usize>>, li: int, neighbours: Seq<Seq<usize>>, pos: Seq<usize>) -> Seq<Seq<usize>> {
    let s = sorted_upto(layers[li], neighbours, pos, layers[li].len());
    layers.update(li, s.map_values(|e: (u128, u128, usize)| e.2))
}

/// `position[v]` := index of `v` within its bucket, for every bucket.
fn sync_positions(layers: &Vec<Vec<usize>>, position: &mut Vec<usize>)
    ensures
        final(position)@ == sync_all(lists_view(layers@), old(position)@, layers@.len()),
{
    let ghost lv = lists_view(layers@);
    let mut li: usize = 0;
    while li < layers.len()
        invariant
            li <= layers@.len(),
            lv == lists_view(layers@),
            position@ == sync_all(lv, old(position)@, li as nat),
        decreases layers@.len() - li,
    {
        let ghost p0 = position@;
        proof {
            assert(lv[li as int] == layers@[li as int]@);
        }
        let mut i: usize = 0;
        while i < layers[li].len()
            invariant
                li < layers@.len(),
                i <= layers@[li as int]@.len(),
                lv == lists_view(layers@),
                lv[li as int] == layers@[li as int]@,
                position@ == sync_bucket(lv[li as int], p0, i as nat),
            decreases layers@[li as int]@.len() - i,
        {
            let v = layers[li][i];
            if v < position.len() {
                position.set(v, i);
            }
            i += 1;
        }
        li += 1;
    }
}

/// One barycentre pass over bucket `li`: nodes are stably sorted by the mean
/// position of their neighbours in the adjacent layer (their own index when
/// they have none).
fn reorder_bucket(layers: &mut Vec<Vec<usize>>, li: usize, neighbours: &Vec<Vec<usize>>, position: &Vec<usize>)
    requires
        li < old(layers)@.len(),
    ensures
        final(layers)@.len() == old(layers)@.len(),
        lists_view(final(layers)@) == reorder_spec(lists_view(old(layers)@), li as int, lists_view(neighbours@), position@),
{
    let ghost nv = lists_view(neighbours@);
    let bucket = copy_list(&layers[li]);
    proof {
        assert(bucket@ == lists_view(layers@)[li as int]);
    }
    let mut sorted: Vec<(u128, u128, usize)> = Vec::new();
    let mut idx: usize = 0;
    while idx < bucket.len()
        invariant
            idx <= bucket@.len(),
            nv == lists_view(neighbours@),
            sorted@ == sorted_upto(bucket@, nv, position@, idx as nat),
            forall|k: int| 0 <= k < sorted@.len() ==> (#[trigger] sorted@[k]).1 > 0,
        decreases bucket@.len() - idx,
    {
        let v = bucket[idx];
        let mut num: u128 = idx as u128;
        let mut den: u128 = 1;
        if v < neighbours.len() && neighbours[v].len() > 0 {
            let ns = &neighbours[v];
            proof {
                assert(nv[v as int] == ns@);
            }
            let mut sum: u128 = 0;
            let mut k: usize = 0;
            while k < ns.len()
                invariant
                    k <= ns@.len(),
                    sum == pos_sum(ns@, position@, k as nat),
                decreases ns@.len() - k,
            {
                let u = ns[k];
                let p: usize = if u < position.len() { position[u] } else { 0 };
                sum = sum.saturating_add(p as u128);
                k += 1;
            }
            num = sum;
            den = ns.len() as u128;
        }
        proof {
            assert((num, den) == barycentre(v, idx as nat, nv, position@));
        }
        let mut j: usize = 0;
        while j < sorted.len() && !fraction_less(num, den, sorted[j].0, sorted[j].1)
            invariant
                j <= sorted@.len(),
                den > 0,
                forall|k: int| 0 <= k < sorted@.len() ==> (#[trigger] sorted@[k]).1 > 0,
                insert_at(sorted@, num, den, 0) == insert_at(sorted@, num, den, j as nat),
            decreases sorted@.len() - j,
        {
            j += 1;
        }
        let ghost s0 = sorted@;
        sorted.insert(j, (num, den, v));
        idx += 1;
        proof {
            assert(sorted@ == s0.insert(insert_at(s0, num, den, 0) as int, (num, den, v)));
            assert forall|k: int| 0 <= k < sorted@.len() implies (#[trigger] sorted@[k]).1 > 0 by {
                if k < j {
                    assert(sorted@[k] == s0[k]);
                } else if k == j {
                } else {
                    assert(sorted@[k] == s0[k - 1]);
                }
            }
        }
    }
    let mut nb: Vec<usize> = Vec::new();
    let mut k: usize = 0;
    while k < sorted.len()
        invariant
            k <= sorted@.len(),
            nb@ == sorted@.take(k as int).map_values(|e: (u128, u128, usize)| e.2),
        decreases sorted@.len() - k,
    {
        nb.push(sorted[k].2);
        k += 1;
        proof {
            assert(sorted@.take(k as int) == sorted@.take(k - 1).push(sorted@[k - 1]));
            assert(nb@ =~= sorted@.take(k as int).map_values(|e: (u128, u128, usize)| e.2));
        }
    }
    let ghost l0 = lists_view(layers@);
    layers.set(li, nb);
    proof {
        assert(sorted@.take(sorted@.len() as int) == sorted@);
        assert(lists_view(layers@) =~= l0.update(li as int, sorted@.map_values(|e: (u128, u128, usize)| e.2)));
    }
}

/// For each of `n` nodes, the sources of the first `k` edges that enter it
/// (`preds`, when `into`) or the targets of those that leave it; self-loops
/// are left out.
pub open spec fn neighbour_lists(ends: Seq<(usize, usize)>, n: nat, into: bool, k: nat) -> Seq<Seq<usize>>
    decreases k,
{
    if k == 0 {
        Seq::new(n, |i: int| Seq::<usize>::empty())
    } else {
        let prev = neighbour_lists(ends, n, into, (k - 1) as nat);
        let e = ends[k - 1];
        let (at, other) = if into { (e.1, e.0) } else { (e.0, e.1) };
        if e.0 != e.1 && at < n {
            prev.update(at as int, prev[at as int].push(other))
        } else {
            prev
        }
    }
}

/// The first `k` nodes put into the buckets of their layers, in declaration
/// order; a layer beyond `count` is left out.
pub open spec fn buckets(layer: Seq<usize>, count: nat, k: nat) -> Seq<Seq<usize>>
    decreases k,
{
    if k == 0 {
        Seq::new(count, |i: int| Seq::<usize>::empty())
    } else {
        let prev = buckets(layer, count, (k - 1) as nat);
        let l = layer[k - 1];
        if l < count { prev.update(l as int, prev[l as int].push((k - 1) as usize)) } else { prev }
    }
}

/// The first `k` passes of one sweep over `count` buckets: downwards
/// (bucket 1 on, over predecessors) or upwards (from the second-to-last
/// bucket back, over successors), positions recorded after each pass.
pub open spec fn sweep_passes(layers: Seq<Seq<usize>>, pos: Seq<usize>, preds: Seq<Seq<usize>>, succs: Seq<Seq<usize>>, down: bool, count: nat, k: nat) -> (Seq<Seq<usize>>, Seq<usize>)
    decreases k,
{
    if k == 0 {
        (layers, pos)
    } else {
        let (l, p) = sweep_passes(layers, pos, preds, succs, down, count, (k - 1) as nat);
        let li: int = if down { k as int } else { count - k };
        let l2 = reorder_spec(l, li, if down { preds } else { succs }, p);
        (l2, sync_all(l2, p, l2.len()))
    }
}

/// The first `s` sweeps, alternating downwards and upwards.
pub open spec fn sweeps(layers: Seq<Seq<usize>>, pos: Seq<usize>, preds: Seq<Seq<usize>>, succs: Seq<Seq<usize>>, count: nat, s: nat) -> (Seq<Seq<usize>>, Seq<usize>)
    decreases s,
{
    if s == 0 {
        (layers, pos)
    } else {
        let (l, p) = sweeps(layers, pos, preds, succs, count, (s - 1) as nat);
        sweep_passes(l, p, preds, succs, (s - 1) % 2 == 0, count, count)
    }
}

/// The node order within each of `layer_count` layers for a diagram with
/// `n` nodes, edge endpoints `ends` and node layers `layer`: declaration
/// order, then four barycentre sweeps.
pub open spec fn ordering_spec(ends: Seq<(usize, usize)>, n: nat, layer: Seq<usize>, layer_count: nat) -> Seq<Seq<usize>> {
    let start = buckets(layer, layer_count, layer.len());
    let passes: nat = if layer_count >= 1 { (layer_count - 1) as nat } else { 0 };
    sweeps(
        start,
        sync_all(start, Seq::new(n, |i: int| 0usize), start.len()),
        neighbour_lists(ends, n, true, ends.len()),
        neighbour_lists(ends, n, false, ends.len()),
        passes,
        4,
    ).0
}

/// Node order for every layer: bucketed by layer in declaration order, then
/// four alternating barycentre sweeps (down over predecessors, up over
/// successors).
fn ordering(diagram: &Diagram, layer: &Vec<usize>, layer_count: usize) -> (layers: Vec<Vec<usize>>)
    ensures
        layers@.len() == layer_count,
        lists_view(layers@) == ordering_spec(edge_ends(*diagram), diagram.nodes@.len(), layer@, layer_count as nat),
{
    let ghost ends = edge_ends(*diagram);
    let mut layers = empty_lists(layer_count);
    proof {
        assert forall|k: int| 0 <= k < layer_count implies #[trigger] lists_view(layers@)[k] == buckets(layer@, layer_count as nat, 0)[k] by {
            assert(lists_view(layers@)[k] =~= Seq::<usize>::empty());
        }
        assert(lists_view(layers@) =~= buckets(layer@, layer_count as nat, 0));
    }
    let mut v: usize = 0;
    while v < layer.len()
        invariant
            v <= layer@.len(),
            layers@.len() == layer_count,
            lists_view(layers@) == buckets(layer@, layer_count as nat, v as nat),
        decreases layer@.len() - v,
    {
        let l = layer[v];
        let ghost b0 = lists_view(layers@);
        if l < layer_count {
            push_at(&mut layers, l, v);
            proof {
                assert(lists_view(layers@) =~= b0.update(l as int, b0[l as int].push(v)));
            }
        }
        v += 1;
    }
    let n = diagram.nodes.len();
    let mut preds = empty_lists(n);
    let mut succs = empty_lists(n);
    proof {
        assert forall|k: int| 0 <= k < n implies #[trigger] lists_view(preds@)[k] == neighbour_lists(ends, n as nat, true, 0)[k] by {
            assert(lists_view(preds@)[k] =~= Seq::<usize>::empty());
        }
        assert forall|k: int| 0 <= k < n implies #[trigger] lists_view(succs@)[k] == neighbour_lists(ends, n as nat, false, 0)[k] by {
            assert(lists_view(succs@)[k] =~= Seq::<usize>::empty());
        }
        assert(lists_view(preds@) =~= neighbour_lists(ends, n as nat, true, 0));
        assert(lists_view(succs@) =~= neighbour_lists(ends, n as nat, false, 0));
    }
    let mut ei: usize = 0;
    while ei < diagram.edges.len()
        invariant
            ei <= diagram.edges@.len(),
            ends == edge_ends(*diagram),
            preds@.len() == n,
            succs@.len() == n,
            lists_view(preds@) == neighbour_lists(ends, n as nat, true, ei as nat),
            lists_view(succs@) == neighbour_lists(ends, n as nat, false, ei as nat),
        decreases diagram.edges@.len() - ei,
    {
        let e = &diagram.edges[ei];
        proof {
            assert(ends[ei as int] == (e.from, e.to));
        }
        let ghost p0 = lists_view(preds@);
        let ghost s0 = lists_view(succs@);
        if e.from != e.to {
            if e.to < n {
                push_at(&mut preds, e.to, e.from);
                proof {
                    assert(lists_view(preds@) =~= p0.update(e.to as int, p0[e.to as int].push(e.from)));
                }
            }
            if e.from < n {
                push_at(&mut succs, e.from, e.to);
                proof {
                    assert(lists_view(succs@) =~= s0.update(e.from as int, s0[e.from as int].push(e.to)));
                }
            }
        }
        ei += 1;
    }
    let ghost pv = lists_view(preds@);
    let ghost sv = lists_view(succs@);
    let mut position = filled_usize(n, 0);
    proof {
        assert(position@ =~= Seq::new(n as nat, |i: int| 0usize));
    }
    sync_positions(&layers, &mut position);
    let count = if layer_count >= 1 { layer_count - 1 } else { 0 };
    let ghost start = lists_view(layers@);
    proof {
        assert(start == buckets(layer@, layer_count as nat, layer@.len()));
        assert(start.len() == layers@.len());
    }
    let mut sweep: usize = 0;
    while sweep < 4
        invariant
            sweep <= 4,
            layers@.len() == layer_count,
            count == (if layer_count >= 1 { layer_count - 1 } else { 0 }),
            lists_view(preds@) == pv,
            lists_view(succs@) == sv,
            (lists_view(layers@), position@) == sweeps(start, sync_all(start, Seq::new(n as nat, |i: int| 0usize), start.len()), pv, sv, count as nat, sweep as nat),
        decreases 4 - sweep,
    {
        let down = sweep % 2 == 0;
        let ghost l0 = lists_view(layers@);
        let ghost q0 = position@;
        let mut k: usize = 0;
        while k < count
            invariant
                k <= count,
                count < layer_count || count == 0,
                layers@.len() == layer_count,
                lists_view(preds@) == pv,
                lists_view(succs@) == sv,
                (lists_view(layers@), position@) == sweep_passes(l0, q0, pv, sv, down, count as nat, k as nat),
            decreases count - k,
        {
            let li = if down { k + 1 } else { count - 1 - k };
            if down {
                reorder_bucket(&mut layers, li, &preds, &position);
            } else {
                reorder_bucket(&mut layers, li, &succs, &position);
            }
            sync_positions(&layers, &mut position);
            k += 1;
        }
        sweep += 1;
    }
    layers
}

// ---------------------------------------------------------------------------
// Step 3: boxes
// ---------------------------------------------------------------------------

/// The display width of the widest of `lines` (0 for none).
pub open spec fn widest_width(lines: Seq<Seq<char>>) -> nat
    decreases lines.len(),
{
    if lines.len() == 0 {
        0
    } else {
        let p = widest_width(lines.drop_last());
        let d = display_width(lines.last());
        if d > p { d } else { p }
    }
}

/// The widest of `lines`, in display cells.
fn max_width(lines: &Vec<String>) -> (w: usize)
    requires
        forall|i: int| 0 <= i < lines@.len() ==> fits((#[trigger] lines@[i])@),
    ensures
        w == widest_width(strings_view(lines@)),
        forall|i: int| 0 <= i < lines@.len() ==> display_width((#[trigger] lines@[i])@) <= w,
        lines@.len() == 0 ==> w == 0,
        lines@.len() > 0 ==> exists|i: int| 0 <= i < lines@.len() && display_width((#[trigger] lines@[i])@) == w,
        lines@.len() > 0 ==> exists|i: int| 0 <= i < lines@.len() && w <= 3 * (#[trigger] lines@[i])@.len(),
{
    let mut w: usize = 0;
    let mut at: usize = 0;
    let mut i: usize = 0;
    while i < lines.len()
        invariant
            i <= lines@.len(),
            forall|k: int| 0 <= k < lines@.len() ==> fits((#[trigger] lines@[k])@),
            forall|k: int| 0 <= k < i ==> display_width((#[trigger] lines@[k])@) <= w,
            i > 0 ==> at < i && display_width(lines@[at as int]@) == w && w <= 3 * lines@[at as int]@.len(),
            i == 0 ==> w == 0,
            w == widest_width(strings_view(lines@).take(i as int)),
        decreases lines@.len() - i,
    {
        let lw = width(lines[i].as_str());
        proof {
            let v = strings_view(lines@);
            assert(v.take(i + 1).drop_last() =~= v.take(i as int));
            assert(v.take(i + 1).last() == lines@[i as int]@);
        }
        if i == 0 || lw > w {
            w = lw;
            at = i;
        }
        i += 1;
    }
    proof {
        assert(strings_view(lines@).take(lines@.len() as int) =~= strings_view(lines@));
    }
    proof {
        if lines@.len() > 0 {
            assert(display_width(lines@[at as int]@) == w);
            assert(w <= 3 * lines@[at as int]@.len());
        }
    }
    w
}

/// The box of a node whose label is `label`, wrapped to `max_label`: the
/// label's lines, two cells of padding and a border on each side of the
/// widest, a border row above and below.
pub open spec fn box_of(b: Boxed, label: Seq<char>, shape: NodeShape, max_label: usize) -> bool {
    &&& strings_view(b.lines@) == wrap_label_spec(label, max_label as nat)
    &&& b.w == widest_width(strings_view(b.lines@)) + 4
    &&& b.h as int == if b.lines@.len() + 2 > usize::MAX { usize::MAX as int } else { b.lines@.len() + 2int }
    &&& b.shape == shape
}

/// Wraps each node label to `max_label` and sizes its box: two cells of
/// padding and a border on each side, a border row above and below.
fn build_boxes(diagram: &Diagram, max_label: usize) -> (boxes: Vec<Boxed>)
    requires
        diagram_fits(*diagram),
    ensures
        boxes@.len() == diagram.nodes@.len(),
        forall|i: int| 0 <= i < boxes@.len() ==> box_of(
            #[trigger] boxes@[i],
            diagram.nodes@[i].label@,
            diagram.nodes@[i].shape,
            max_label,
        ),
{
    let mut boxes: Vec<Boxed> = Vec::new();
    let mut i: usize = 0;
    while i < diagram.nodes.len()
        invariant
            i <= diagram.nodes@.len(),
            boxes@.len() == i,
            diagram_fits(*diagram),
            forall|k: int| 0 <= k < i ==> box_of(
                #[trigger] boxes@[k],
                diagram.nodes@[k].label@,
                diagram.nodes@[k].shape,
                max_label,
            ),
        decreases diagram.nodes@.len() - i,
    {
        let node = &diagram.nodes[i];
        let lines = wrap_label(node.label.as_str(), max_label);
        proof {
            assert forall|k: int| 0 <= k < lines@.len() implies fits((#[trigger] lines@[k])@) by {
                assert(small(lines@[k]@));
            }
        }
        let inner = max_width(&lines);
        proof {
            let k = choose|k: int| 0 <= k < lines@.len() && inner <= 3 * (#[trigger] lines@[k])@.len();
            assert(small(lines@[k]@));
        }
        let h = lines.len().saturating_add(2);
        boxes.push(Boxed { lines, w: inner + 4, h, shape: node.shape });
        i += 1;
    }
    boxes
}

// ---------------------------------------------------------------------------
// Step 4: placement and routing
// ---------------------------------------------------------------------------

pub const H_GAP: usize = 5;
pub const V_GAP: usize = 3;
pub const NODE_SPACING: usize = 1;
pub const COL_SPACING: usize = 3;
/// Maximum number of detour lanes reserved for edges spanning more than one
/// layer.
pub const MAX_CHANNELS: usize = 8;

/// `a + b`, or `usize::MAX` when that does not fit.
pub open spec fn sat_add(a: usize, b: usize) -> usize {
    if a + b > usize::MAX { usize::MAX } else { (a + b) as usize }
}

/// `a - b`, or 0 when `b` is larger.
pub open spec fn sat_sub(a: usize, b: usize) -> usize {
    if a >= b { (a - b) as usize } else { 0 }
}

/// The size of each box along the layer axis and across it.
pub open spec fn box_dims(boxes: Seq<Boxed>, horizontal: bool) -> Seq<(usize, usize)> {
    boxes.map_values(|b: Boxed| if horizontal { (b.w, b.h) } else { (b.h, b.w) })
}

/// The largest size along the layer axis among the first `k` nodes of
/// `bucket` (0 for none).
pub open spec fn span_main(bucket: Seq<usize>, dims: Seq<(usize, usize)>, k: nat) -> usize
    decreases k,
{
    if k == 0 {
        0
    } else {
        let p = span_main(bucket, dims, (k - 1) as nat);
        let v = bucket[k - 1];
        if v < dims.len() && dims[v as int].0 > p { dims[v as int].0 } else { p }
    }
}

/// The sizes across the layer axis of the first `k` nodes of `bucket`,
/// added up (saturating).
pub open spec fn sum_cross(bucket: Seq<usize>, dims: Seq<(usize, usize)>, k: nat) -> usize
    decreases k,
{
    if k == 0 {
        0
    } else {
        let p = sum_cross(bucket, dims, (k - 1) as nat);
        let v = bucket[k - 1];
        if v < dims.len() { sat_add(p, dims[v as int].1) } else { p }
    }
}

/// The extent of a bucket across the layer axis: its boxes and the spacing
/// between each two of them.
pub open spec fn lane_cross(bucket: Seq<usize>, dims: Seq<(usize, usize)>, spacing: usize) -> usize {
    let between: int = if bucket.len() >= 1 { bucket.len() - 1 } else { 0 };
    let gaps: usize = if between * spacing > usize::MAX { usize::MAX } else { (between * spacing) as usize };
    sat_add(sum_cross(bucket, dims, bucket.len()), gaps)
}

/// The largest extent across the layer axis among the first `k` buckets.
pub open spec fn max_cross(layers: Seq<Seq<usize>>, dims: Seq<(usize, usize)>, spacing: usize, k: nat) -> usize
    decreases k,
{
    if k == 0 {
        0
    } else {
        let p = max_cross(layers, dims, spacing, (k - 1) as nat);
        let c = lane_cross(layers[k - 1], dims, spacing);
        if c > p { c } else { p }
    }
}

/// Positions along and across the layer axis, and the running offset.
pub type PlaceState = (Seq<usize>, Seq<usize>, usize);

/// The first `k` nodes of a bucket placed: each centred in the layer's span
/// from `origin` on, stacked across from the state's offset with `spacing`
/// between boxes.
pub open spec fn place_bucket(bucket: Seq<usize>, dims: Seq<(usize, usize)>, spacing: usize, span: usize, origin: usize, s: PlaceState, k: nat) -> PlaceState
    decreases k,
{
    if k == 0 {
        s
    } else {
        let p = place_bucket(bucket, dims, spacing, span, origin, s, (k - 1) as nat);
        let v = bucket[k - 1];
        if v < dims.len() {
            (
                p.0.update(v as int, sat_add(origin, (sat_sub(span, dims[v as int].0) / 2) as usize)),
                p.1.update(v as int, p.2),
                sat_add(sat_add(p.2, dims[v as int].1), spacing),
            )
        } else {
            p
        }
    }
}

/// The first `k` layers placed one after another along the layer axis,
/// `gaps[i]` (or `default_gap`) between layer `i` and the next; each bucket
/// centred across within `maxc`. The state's offset is the extent reached.
pub open spec fn place_layers(layers: Seq<Seq<usize>>, dims: Seq<(usize, usize)>, spacing: usize, gaps: Seq<usize>, default_gap: usize, maxc: usize, k: nat) -> PlaceState
    decreases k,
{
    if k == 0 {
        (Seq::new(dims.len(), |i: int| 0usize), Seq::new(dims.len(), |i: int| 0usize), 0)
    } else {
        let p = place_layers(layers, dims, spacing, gaps, default_gap, maxc, (k - 1) as nat);
        let b = layers[k - 1];
        let span = span_main(b, dims, b.len());
        let start = (sat_sub(maxc, lane_cross(b, dims, spacing)) / 2) as usize;
        let q = place_bucket(b, dims, spacing, span, p.2, (p.0, p.1, start), b.len());
        let o = sat_add(p.2, span);
        let gap = if k - 1 < gaps.len() { gaps[k - 1] } else { default_gap };
        (q.0, q.1, if k < layers.len() { sat_add(o, gap) } else { o })
    }
}

/// Places boxes for `LR`/`RL`: layers become columns, each box centred in
/// its column, the column's boxes stacked and centred vertically. Returns
/// the positions and the content size.
fn place_horizontal(layers: &Vec<Vec<usize>>, boxes: &Vec<Boxed>, gaps: &Vec<usize>) -> (out: (Vec<usize>, Vec<usize>, usize, usize))
    ensures
        ({
            let dims = box_dims(boxes@, true);
            let maxc = max_cross(lists_view(layers@), dims, NODE_SPACING, layers@.len());
            let p = place_layers(lists_view(layers@), dims, NODE_SPACING, gaps@, H_GAP, maxc, layers@.len());
            &&& out.0@ == p.0
            &&& out.1@ == p.1
            &&& out.2 == p.2
            &&& out.3 == maxc
        }),
        out.0@.len() == boxes@.len(),
        out.1@.len() == boxes@.len(),
{
    let n = boxes.len();
    let ghost lv = lists_view(layers@);
    let ghost dims = box_dims(boxes@, true);
    let mut col_w: Vec<usize> = Vec::new();
    let mut col_h: Vec<usize> = Vec::new();
    let mut max_h: usize = 0;
    let mut li: usize = 0;
    while li < layers.len()
        invariant
            li <= layers@.len(),
            col_w@.len() == li,
            col_h@.len() == li,
            n == boxes@.len(),
            lv == lists_view(layers@),
            dims == box_dims(boxes@, true),
            forall|j: int| 0 <= j < li ==> #[trigger] col_w@[j] == span_main(lv[j], dims, lv[j].len()),
            forall|j: int| 0 <= j < li ==> #[trigger] col_h@[j] == lane_cross(lv[j], dims, NODE_SPACING),
            max_h == max_cross(lv, dims, NODE_SPACING, li as nat),
        decreases layers@.len() - li,
    {
        let bucket = &layers[li];
        proof {
            assert(lv[li as int] == bucket@);
        }
        let mut wmax: usize = 0;
        let mut sum: usize = 0;
        let mut k: usize = 0;
        while k < bucket.len()
            invariant
                k <= bucket@.len(),
                n == boxes@.len(),
                dims == box_dims(boxes@, true),
                wmax == span_main(bucket@, dims, k as nat),
                sum == sum_cross(bucket@, dims, k as nat),
            decreases bucket@.len() - k,
        {
            let v = bucket[k];
            if v < n {
                proof {
                    assert(dims[v as int] == (boxes@[v as int].w, boxes@[v as int].h));
                }
                if boxes[v].w > wmax {
                    wmax = boxes[v].w;
                }
                sum = sum.saturating_add(boxes[v].h);
            }
            k += 1;
        }
        let spacing = if bucket.len() >= 1 { bucket.len() - 1 } else { 0 };
        let gaps_h = match spacing.checked_mul(NODE_SPACING) {
            Some(v) => v,
            None => usize::MAX,
        };
        let hh = sum.saturating_add(gaps_h);
        if hh > max_h {
            max_h = hh;
        }
        col_w.push(wmax);
        col_h.push(hh);
        li += 1;
    }
    let mut xs = filled_usize(n, 0);
    let mut ys = filled_usize(n, 0);
    proof {
        assert(xs@ =~= Seq::new(dims.len(), |i: int| 0usize));
        assert(ys@ =~= Seq::new(dims.len(), |i: int| 0usize));
    }
    let mut x: usize = 0;
    let mut li: usize = 0;
    while li < layers.len()
        invariant
            li <= layers@.len(),
            col_w@.len() == layers@.len(),
            col_h@.len() == layers@.len(),
            n == boxes@.len(),
            lv == lists_view(layers@),
            dims == box_dims(boxes@, true),
            forall|j: int| 0 <= j < layers@.len() ==> #[trigger] col_w@[j] == span_main(lv[j], dims, lv[j].len()),
            forall|j: int| 0 <= j < layers@.len() ==> #[trigger] col_h@[j] == lane_cross(lv[j], dims, NODE_SPACING),
            max_h == max_cross(lv, dims, NODE_SPACING, layers@.len()),
            (xs@, ys@, x) == place_layers(lv, dims, NODE_SPACING, gaps@, H_GAP, max_h, li as nat),
            xs@.len() == n,
            ys@.len() == n,
        decreases layers@.len() - li,
    {
        let mut y = max_h.saturating_sub(col_h[li]) / 2;
        let width = col_w[li];
        let bucket = &layers[li];
        proof {
            assert(lv[li as int] == bucket@);
        }
        let ghost s0: PlaceState = (xs@, ys@, y);
        let mut k: usize = 0;
        while k < bucket.len()
            invariant
                k <= bucket@.len(),
                xs@.len() == n,
                ys@.len() == n,
                n == boxes@.len(),
                dims == box_dims(boxes@, true),
                (xs@, ys@, y) == place_bucket(bucket@, dims, NODE_SPACING, width, x, s0, k as nat),
            decreases bucket@.len() - k,
        {
            let v = bucket[k];
            if v < n {
                proof {
                    assert(dims[v as int] == (boxes@[v as int].w, boxes@[v as int].h));
                }
                xs.set(v, x.saturating_add(width.saturating_sub(boxes[v].w) / 2));
                ys.set(v, y);
                y = y.saturating_add(boxes[v].h).saturating_add(NODE_SPACING);
            }
            k += 1;
        }
        x = x.saturating_add(width);
        if li + 1 < layers.len() {
            let gap = if li < gaps.len() { gaps[li] } else { H_GAP };
            x = x.saturating_add(gap);
        }
        li += 1;
    }
    (xs, ys, x, max_h)
}

/// Places boxes for `TD`/`BT`: layers become rows, each box centred in its
/// row, the row's boxes side by side and centred horizontally.
fn place_vertical(layers: &Vec<Vec<usize>>, boxes: &Vec<Boxed>, gaps: &Vec<usize>) -> (out: (Vec<usize>, Vec<usize>, usize, usize))
    ensures
        ({
            let dims = box_dims(boxes@, false);
            let maxc = max_cross(lists_view(layers@), dims, COL_SPACING, layers@.len());
            let p = place_layers(lists_view(layers@), dims, COL_SPACING, gaps@, V_GAP, maxc, layers@.len());
            &&& out.0@ == p.1
            &&& out.1@ == p.0
            &&& out.2 == maxc
            &&& out.3 == p.2
        }),
        out.0@.len() == boxes@.len(),
        out.1@.len() == boxes@.len(),
{
    let n = boxes.len();
    let ghost lv = lists_view(layers@);
    let ghost dims = box_dims(boxes@, false);
    let mut row_h: Vec<usize> = Vec::new();
    let mut row_w: Vec<usize> = Vec::new();
    let mut max_w: usize = 0;
    let mut li: usize = 0;
    while li < layers.len()
        invariant
            li <= layers@.len(),
            row_h@.len() == li,
            row_w@.len() == li,
            n == boxes@.len(),
            lv == lists_view(layers@),
            dims == box_dims(boxes@, false),
            forall|j: int| 0 <= j < li ==> #[trigger] row_h@[j] == span_main(lv[j], dims, lv[j].len()),
            forall|j: int| 0 <= j < li ==> #[trigger] row_w@[j] == lane_cross(lv[j], dims, COL_SPACING),
            max_w == max_cross(lv, dims, COL_SPACING, li as nat),
        decreases layers@.len() - li,
    {
        let bucket = &layers[li];
        proof {
            assert(lv[li as int] == bucket@);
        }
        let mut hmax: usize = 0;
        let mut sum: usize = 0;
        let mut k: usize = 0;
        while k < bucket.len()
            invariant
                k <= bucket@.len(),
                n == boxes@.len(),
                dims == box_dims(boxes@, false),
                hmax == span_main(bucket@, dims, k as nat),
                sum == sum_cross(bucket@, dims, k as nat),
            decreases bucket@.len() - k,
        {
            let v = bucket[k];
            if v < n {
                proof {
                    assert(dims[v as int] == (boxes@[v as int].h, boxes@[v as int].w));
                }
                if boxes[v].h > hmax {
                    hmax = boxes[v].h;
                }
                sum = sum.saturating_add(boxes[v].w);
            }
            k += 1;
        }
        let spacing = if bucket.len() >= 1 { bucket.len() - 1 } else { 0 };
        let gaps_w = match spacing.checked_mul(COL_SPACING) {
            Some(v) => v,
            None => usize::MAX,
        };
        let ww = sum.saturating_add(gaps_w);
        if ww > max_w {
            max_w = ww;
        }
        row_h.push(hmax);
        row_w.push(ww);
        li += 1;
    }
    let mut xs = filled_usize(n, 0);
    let mut ys = filled_usize(n, 0);
    proof {
        assert(xs@ =~= Seq::new(dims.len(), |i: int| 0usize));
        assert(ys@ =~= Seq::new(dims.len(), |i: int| 0usize));
    }
    let mut y: usize = 0;
    let mut li: usize = 0;
    while li < layers.len()
        invariant
            li <= layers@.len(),
            row_h@.len() == layers@.len(),
            row_w@.len() == layers@.len(),
            n == boxes@.len(),
            lv == lists_view(layers@),
            dims == box_dims(boxes@, false),
            forall|j: int| 0 <= j < layers@.len() ==> #[trigger] row_h@[j] == span_main(lv[j], dims, lv[j].len()),
            forall|j: int| 0 <= j < layers@.len() ==> #[trigger] row_w@[j] == lane_cross(lv[j], dims, COL_SPACING),
            max_w == max_cross(lv, dims, COL_SPACING, layers@.len()),
            (ys@, xs@, y) == place_layers(lv, dims, COL_SPACING, gaps@, V_GAP, max_w, li as nat),
            xs@.len() == n,
            ys@.len() == n,
        decreases layers@.len() - li,
    {
        let mut x = max_w.saturating_sub(row_w[li]) / 2;
        let height = row_h[li];
        let bucket = &layers[li];
        proof {
            assert(lv[li as int] == bucket@);
        }
        let ghost s0: PlaceState = (ys@, xs@, x);
        let mut k: usize = 0;
        while k < bucket.len()
            invariant
                k <= bucket@.len(),
                xs@.len() == n,
                ys@.len() == n,
                n == boxes@.len(),
                dims == box_dims(boxes@, false),
                (ys@, xs@, x) == place_bucket(bucket@, dims, COL_SPACING, height, y, s0, k as nat),
            decreases bucket@.len() - k,
        {
            let v = bucket[k];
            if v < n {
                proof {
                    assert(dims[v as int] == (boxes@[v as int].h, boxes@[v as int].w));
                }
                xs.set(v, x);
                ys.set(v, y.saturating_add(height.saturating_sub(boxes[v].h) / 2));
                x = x.saturating_add(boxes[v].w).saturating_add(COL_SPACING);
            }
            k += 1;
        }
        y = y.saturating_add(height);
        if li + 1 < layers.len() {
            let gap = if li < gaps.len() { gaps[li] } else { V_GAP };
            y = y.saturating_add(gap);
        }
        li += 1;
    }
    (xs, ys, max_w, y)
}

/// The cells of row `y` from `from` towards `to` in direction `dir`, `to`
/// itself included when `inclusive`, drawn as a line of `c`.
pub open spec fn hline_spec(v: GridView, w: nat, h: nat, from: int, to: int, dir: int, inclusive: bool, y: int, c: char) -> GridView {
    let (lo, hi) = if dir > 0 {
        (from, if inclusive { to } else { to - 1 })
    } else {
        (if inclusive { to } else { to + 1 }, from)
    };
    put_row(v, w, h, if lo < 0 { 0 } else { lo }, hi, y, c)
}

/// The cells of column `x` from `from` towards `to` (exclusive) in
/// direction `dir`, drawn as a line of `c`.
pub open spec fn vline_spec(v: GridView, w: nat, h: nat, x: int, from: int, to: int, dir: int, c: char) -> GridView {
    let (lo, hi) = if dir > 0 { (from, to - 1) } else { (to + 1, from) };
    put_col(v, w, h, x, if lo < 0 { 0 } else { lo }, hi, c)
}

/// Puts `c` on row `y` at the cells from `from` stepping by `dir` towards
/// `to`, `to` itself included when `inclusive`.
fn hline(canvas: &mut Canvas, from: isize, to: isize, dir: isize, inclusive: bool, y: usize, c: char)
    requires
        old(canvas).wf(),
        -2 <= from <= usize::MAX / 4,
        -2 <= to <= usize::MAX / 4,
    ensures
        final(canvas).wf(),
        final(canvas).w == old(canvas).w,
        final(canvas).h == old(canvas).h,
        final(canvas).view_grid() == hline_spec(
            old(canvas).view_grid(),
            old(canvas).w as nat,
            old(canvas).h as nat,
            from as int,
            to as int,
            dir as int,
            inclusive,
            y as int,
            c,
        ),
{
    let (lo, hi) = if dir > 0 {
        (from, if inclusive { to } else { to - 1 })
    } else {
        (if inclusive { to } else { to + 1 }, from)
    };
    let mut x = if lo < 0 { 0 } else { lo };
    let ghost target = hline_spec(
        canvas.view_grid(),
        canvas.w as nat,
        canvas.h as nat,
        from as int,
        to as int,
        dir as int,
        inclusive,
        y as int,
        c,
    );
    while x <= hi
        invariant
            canvas.wf(),
            canvas.w == old(canvas).w,
            canvas.h == old(canvas).h,
            0 <= x,
            hi <= usize::MAX / 4,
            put_row(canvas.view_grid(), canvas.w as nat, canvas.h as nat, x as int, hi as int, y as int, c) == target,
        decreases hi + 1 - x,
    {
        canvas.put(x as usize, y, c);
        x += 1;
    }
}

/// Puts `c` in column `x` at the rows from `from` stepping by `dir` towards
/// `to` (exclusive).
fn vline(canvas: &mut Canvas, x: usize, from: isize, to: isize, dir: isize, c: char)
    requires
        old(canvas).wf(),
        -2 <= from <= usize::MAX / 4,
        -2 <= to <= usize::MAX / 4,
    ensures
        final(canvas).wf(),
        final(canvas).w == old(canvas).w,
        final(canvas).h == old(canvas).h,
        final(canvas).view_grid() == vline_spec(
            old(canvas).view_grid(),
            old(canvas).w as nat,
            old(canvas).h as nat,
            x as int,
            from as int,
            to as int,
            dir as int,
            c,
        ),
{
    let (lo, hi) = if dir > 0 { (from, to - 1) } else { (to + 1, from) };
    let mut y = if lo < 0 { 0 } else { lo };
    let ghost target = vline_spec(
        canvas.view_grid(),
        canvas.w as nat,
        canvas.h as nat,
        x as int,
        from as int,
        to as int,
        dir as int,
        c,
    );
    while y <= hi
        invariant
            canvas.wf(),
            canvas.w == old(canvas).w,
            canvas.h == old(canvas).h,
            0 <= y,
            hi <= usize::MAX / 4,
            put_col(canvas.view_grid(), canvas.w as nat, canvas.h as nat, x as int, y as int, hi as int, c) == target,
        decreases hi + 1 - y,
    {
        canvas.put(x, y as usize, c);
        y += 1;
    }
}

/// `max(v, 0)` as an index.
fn clamp0(v: isize) -> (u: usize)
    requires
        v <= usize::MAX / 4,
    ensures
        v >= 0 ==> u == v,
        v < 0 ==> u == 0,
{
    if v < 0 { 0 } else { v as usize }
}

/// `s` cut to `max` cells with an ellipsis.
pub open spec fn shorten_spec(s: Seq<char>, max: nat) -> Seq<char> {
    ellipsized(s, max, "…"@)
}

/// Shortens `s` to at most `max` cells, marking the cut with an ellipsis.
fn shorten(s: &str, max: usize) -> (out: String)
    requires
        small(s@),
    ensures
        out@ == shorten_spec(s@, max as nat),
        fits(out@),
{
    proof {
        reveal_strlit("…");
    }
    truncate_with_ellipsis(s, max, "…")
}

/// `label`, shortened to the inclusive cell range between `a` and `b` of
/// row `y`, written centred there as edge text; nothing when the range
/// starts left of the grid or the shortened label is empty.
pub open spec fn h_label_spec(v: GridView, w: nat, h: nat, label: Seq<char>, a: int, b: int, y: int) -> GridView {
    let (lo, hi) = if a <= b { (a, b) } else { (b, a) };
    let room = hi - lo + 1;
    let text = shorten_spec(label, room as nat);
    let tw = display_width(text);
    if lo < 0 || tw == 0 || tw > room {
        v
    } else {
        force_text_spec(v, w, h, lo + (room - tw) / 2, y, text)
    }
}

/// Writes `label` centred in the inclusive cell range between `a` and `b`
/// of row `y`.
fn place_h_label(canvas: &mut Canvas, label: &str, a: isize, b: isize, y: usize)
    requires
        old(canvas).wf(),
        small(label@),
        -2 <= a <= usize::MAX / 4,
        -2 <= b <= usize::MAX / 4,
    ensures
        final(canvas).wf(),
        final(canvas).w == old(canvas).w,
        final(canvas).h == old(canvas).h,
        final(canvas).view_grid() == h_label_spec(
            old(canvas).view_grid(),
            old(canvas).w as nat,
            old(canvas).h as nat,
            label@,
            a as int,
            b as int,
            y as int,
        ),
{
    let (lo, hi) = if a <= b { (a, b) } else { (b, a) };
    if lo < 0 {
        return;
    }
    let room = (hi - lo + 1) as usize;
    let text = shorten(label, room);
    let w = width(text.as_str());
    if w == 0 || w > room {
        return;
    }
    let x = lo as usize + (room - w) / 2;
    let cs = chars_of(text.as_str());
    let mut cx = x;
    let mut k: usize = 0;
    let ghost target = force_text_spec(canvas.view_grid(), canvas.w as nat, canvas.h as nat, x as int, y as int, text@);
    proof {
        assert(cs@.skip(0) =~= text@);
    }
    while k < cs.len()
        invariant
            canvas.wf(),
            canvas.w == old(canvas).w,
            canvas.h == old(canvas).h,
            k <= cs@.len(),
            cs@ == text@,
            force_text_spec(canvas.view_grid(), canvas.w as nat, canvas.h as nat, cx as int, y as int, cs@.skip(k as int))
                == target,
        decreases cs@.len() - k,
    {
        let c = cs[k];
        proof {
            assert(cs@.skip(k as int)[0] == c);
            assert(cs@.skip(k as int).drop_first() =~= cs@.skip(k + 1));
        }
        canvas.force(cx, y, c);
        let cw = char_width(c);
        cx = cx.saturating_add(if cw < 1 { 1 } else { cw });
        k += 1;
    }
    proof {
        assert(cs@.skip(k as int) =~= Seq::<char>::empty());
    }
}

/// `max(v, 0)`.
pub open spec fn clamp_spec(v: int) -> int {
    if v < 0 { 0 } else { v }
}

/// The characters of an optional label.
pub open spec fn label_view(l: Option<&str>) -> Option<Seq<char>> {
    match l {
        Some(s) => Some(s@),
        None => None,
    }
}

/// An edge between adjacent layers of an `LR`/`RL` diagram drawn on `v`:
/// from the source box's side facing the target to the cell before the
/// target's side, straight along the source's centre row when both centre
/// rows agree, else with a vertical jog in the middle of the gap; the head
/// glyph at the target end (a line glyph without arrow), the tail glyph at
/// the source end for a double arrow, and the label centred on the last
/// horizontal run. Nothing when the boxes overlap horizontally or the gap is
/// under two cells.
pub open spec fn route_h_spec(v: GridView, w: nat, h: nat, s: Rect, t: Rect, label: Option<Seq<char>>, arrow: ArrowKind, g: Glyphs) -> GridView {
    let sy: int = s.y + s.h / 2;
    let ty: int = t.y + t.h / 2;
    let fwd = t.x >= s.x + s.w;
    let start: int = if fwd { s.x + s.w } else { s.x - 1 };
    let end: int = if fwd { t.x - 1 } else { t.x + t.w };
    let dir: int = if fwd { 1 } else { -1 };
    let free: int = if dir > 0 { end - start + 1 } else { start - end + 1 };
    let head = if dir > 0 { g.right } else { g.left };
    let tail = if dir > 0 { g.left } else { g.right };
    let arrow_x = end - dir;
    let head_glyph = if arrow == ArrowKind::NoArrow { g.horiz } else { head };
    if !(fwd || s.x >= t.x + t.w) || start < 0 || end < 0 || free < 2 || arrow_x < 0 {
        v
    } else if sy == ty {
        let v1 = hline_spec(v, w, h, start + dir, arrow_x, dir, true, sy, g.horiz);
        let v2 = force_cell(v1, w, h, arrow_x, sy, head_glyph);
        let v3 = if arrow == ArrowKind::DoubleArrow { force_cell(v2, w, h, clamp_spec(start + dir), sy, tail) } else { v2 };
        match label {
            Some(l) => h_label_spec(v3, w, h, l, start + dir, arrow_x - dir, sy),
            None => v3,
        }
    } else {
        let mid: int = if dir > 0 { start + free / 2 } else { start - free / 2 };
        let down = ty > sy;
        let (lo, hi) = if down { (sy, ty) } else { (ty, sy) };
        let v1 = hline_spec(v, w, h, start + dir, mid, dir, false, sy, g.horiz);
        let v2 = join_cell(v1, w, h, clamp_spec(mid), sy, turn_from_spec(g, dir, down));
        let v3 = put_col(v2, w, h, clamp_spec(mid), lo + 1, hi - 1, g.vert);
        let v4 = join_cell(v3, w, h, clamp_spec(mid), ty, turn_to_spec(g, dir, down));
        let v5 = hline_spec(v4, w, h, mid + dir, arrow_x, dir, false, ty, g.horiz);
        let v6 = force_cell(v5, w, h, arrow_x, ty, head_glyph);
        let v7 = if arrow == ArrowKind::DoubleArrow { force_cell(v6, w, h, clamp_spec(start + dir), sy, tail) } else { v6 };
        match label {
            Some(l) => h_label_spec(v7, w, h, l, mid + dir, arrow_x - dir, ty),
            None => v7,
        }
    }
}

/// An edge between adjacent layers of a `TD`/`BT` diagram drawn on `v`:
/// straight down (or up) the source's centre column when both centre
/// columns agree, else with a horizontal jog in the middle of the gap; the
/// head glyph on the last row before the target, the tail glyph on the
/// first row for a double arrow, and the label (at most 24 cells) beside
/// the line where its cells are free. Nothing when the boxes overlap
/// vertically.
pub open spec fn route_v_spec(v: GridView, w: nat, h: nat, s: Rect, t: Rect, label: Option<Seq<char>>, arrow: ArrowKind, g: Glyphs) -> GridView {
    let sx: int = s.x + s.w / 2;
    let tx: int = t.x + t.w / 2;
    let fwd = t.y >= s.y + s.h;
    let start: int = if fwd { s.y + s.h } else { s.y - 1 };
    let end: int = if fwd { t.y - 1 } else { t.y + t.h };
    let dir: int = if fwd { 1 } else { -1 };
    let free: int = if dir > 0 { end - start + 1 } else { start - end + 1 };
    let head = if dir > 0 { g.down } else { g.up };
    let tail = if dir > 0 { g.up } else { g.down };
    let down = dir > 0;
    let end_glyph = if arrow == ArrowKind::NoArrow { g.vert } else { head };
    if !(fwd || s.y >= t.y + t.h) || start < 0 || end < 0 || free < 1 {
        v
    } else if sx == tx {
        let v1 = vline_spec(v, w, h, sx, start, end, dir, g.vert);
        let v2 = force_cell(v1, w, h, sx, clamp_spec(end), end_glyph);
        let v3 = if arrow == ArrowKind::DoubleArrow { force_cell(v2, w, h, sx, clamp_spec(start), tail) } else { v2 };
        match label {
            Some(l) => text_if_free_spec(v3, w, h, sx + 2, clamp_spec(start), shorten_spec(l, 24)),
            None => v3,
        }
    } else {
        let mid: int = if dir > 0 { start + free / 2 } else { start - free / 2 };
        let hdir: int = if tx > sx { 1 } else { -1 };
        let midr = clamp_spec(mid);
        let (lo, hi) = if tx > sx { (sx, tx) } else { (tx, sx) };
        let v1 = vline_spec(v, w, h, sx, start, mid, dir, g.vert);
        let v2 = join_cell(v1, w, h, sx, midr, turn_to_spec(g, hdir, down));
        let v3 = put_row(v2, w, h, lo + 1, hi - 1, midr, g.horiz);
        let v4 = join_cell(v3, w, h, tx, midr, turn_from_spec(g, hdir, down));
        let v5 = vline_spec(v4, w, h, tx, mid + dir, end, dir, g.vert);
        let v6 = force_cell(v5, w, h, tx, clamp_spec(end), end_glyph);
        let v7 = if arrow == ArrowKind::DoubleArrow { force_cell(v6, w, h, sx, clamp_spec(start), tail) } else { v6 };
        match label {
            Some(l) => {
                let text = shorten_spec(l, 24);
                let y = clamp_spec(mid + dir);
                if text_fits_free(v7, w, h, tx + 2, y, text) {
                    force_text_spec(v7, w, h, tx + 2, y, text)
                } else {
                    text_if_free_spec(v7, w, h, hi + 2, midr, text)
                }
            },
            None => v7,
        }
    }
}

/// An edge spanning several layers of an `LR`/`RL` diagram drawn on `v`
/// through the detour row `lane` below the diagram: down from beside the
/// source, along the lane, and up into the target box from underneath,
/// with the label (at most 24 cells) on the lane where its cells are free.
/// Nothing when the source's side lies left of the grid or the lane is not
/// below the source's centre row.
pub open spec fn route_long_h_spec(v: GridView, w: nat, h: nat, s: Rect, t: Rect, label: Option<Seq<char>>, g: Glyphs, lane: int) -> GridView {
    let sy: int = s.y + s.h / 2;
    let to_right = t.x >= s.x + s.w;
    let dir: int = if to_right { 1 } else { -1 };
    let x1: int = if to_right { s.x + s.w } else { s.x - 1 };
    let xt: int = t.x + t.w / 2;
    let entry: int = t.y + t.h;
    let hdir: int = if xt > x1 { 1 } else { -1 };
    let (lo, hi) = if xt > x1 { (x1, xt) } else { (xt, x1) };
    if x1 < 0 || lane <= sy {
        v
    } else {
        let v1 = force_cell(v, w, h, x1, sy, turn_from_spec(g, dir, true));
        let v2 = put_col(v1, w, h, x1, sy + 1, lane - 1, g.vert);
        let v3 = force_cell(v2, w, h, x1, lane, turn_to_spec(g, hdir, true));
        let v4 = put_row(v3, w, h, lo + 1, hi - 1, lane, g.horiz);
        let v5 = if xt != x1 { force_cell(v4, w, h, xt, lane, turn_from_spec(g, hdir, false)) } else { v4 };
        let v6 = put_col(v5, w, h, xt, entry + 1, lane - 1, g.vert);
        let v7 = force_cell(v6, w, h, xt, entry, g.up);
        match label {
            Some(l) => text_if_free_spec(v7, w, h, lo + 1, lane, shorten_spec(l, 24)),
            None => v7,
        }
    }
}

/// An edge spanning several layers of a `TD`/`BT` diagram drawn on `v`
/// through the detour column `lane` right of the diagram: right from above
/// or below the source, along the lane, and left into the target box's
/// right side, with the label (at most 24 cells) beside the source where
/// its cells are free. Nothing when the source's side lies above the grid
/// or the lane is not right of the source's centre column.
pub open spec fn route_long_v_spec(v: GridView, w: nat, h: nat, s: Rect, t: Rect, label: Option<Seq<char>>, g: Glyphs, lane: int) -> GridView {
    let sx: int = s.x + s.w / 2;
    let downward = t.y >= s.y + s.h;
    let y1: int = if downward { s.y + s.h } else { s.y - 1 };
    let yt: int = t.y + t.h / 2;
    let entry: int = t.x + t.w;
    let vdown = yt > y1;
    let (lo, hi) = if yt > y1 { (y1, yt) } else { (yt, y1) };
    if y1 < 0 || lane <= sx {
        v
    } else {
        let v1 = force_cell(v, w, h, sx, y1, turn_to_spec(g, 1, downward));
        let v2 = put_row(v1, w, h, sx + 1, lane - 1, y1, g.horiz);
        let v3 = force_cell(v2, w, h, lane, y1, turn_from_spec(g, 1, vdown));
        let v4 = put_col(v3, w, h, lane, lo + 1, hi - 1, g.vert);
        let v5 = if yt != y1 { join_cell(v4, w, h, lane, yt, turn_to_spec(g, -1, vdown)) } else { v4 };
        let v6 = put_row(v5, w, h, entry + 1, lane - 1, yt, g.horiz);
        let v7 = force_cell(v6, w, h, entry, yt, g.left);
        match label {
            Some(l) => text_if_free_spec(v7, w, h, sx + 2, y1, shorten_spec(l, 24)),
            None => v7,
        }
    }
}

/// Routes an edge between two layers of an `LR`/`RL` diagram: straight when
/// both centre rows agree, otherwise with one vertical jog in the middle of
/// the gap; the head glyph marks the target end.
#[verifier::spinoff_prover]
#[verifier::rlimit(40)]
fn route_horizontal(canvas: &mut Canvas, s: Rect, t: Rect, label: Option<&str>, arrow: ArrowKind, g: &Glyphs)
    requires
        old(canvas).wf(),
        rect_ok(s),
        rect_ok(t),
        label matches Some(l) ==> small(l@),
    ensures
        final(canvas).wf(),
        final(canvas).w == old(canvas).w,
        final(canvas).h == old(canvas).h,
        final(canvas).view_grid() == route_h_spec(old(canvas).view_grid(), old(canvas).w as nat, old(canvas).h as nat, s, t, label_view(label), arrow, *g),
{
    let sy = s.y + s.h / 2;
    let ty = t.y + t.h / 2;
    let start: isize;
    let end: isize;
    let dir: isize;
    if t.x >= s.x + s.w {
        start = (s.x + s.w) as isize;
        end = t.x as isize - 1;
        dir = 1;
    } else if s.x >= t.x + t.w {
        start = s.x as isize - 1;
        end = (t.x + t.w) as isize;
        dir = -1;
    } else {
        return;
    }
    if start < 0 || end < 0 {
        return;
    }
    let free = if dir > 0 { end - start + 1 } else { start - end + 1 };
    if free < 2 {
        return;
    }
    let head = if dir > 0 { g.right } else { g.left };
    let tail = if dir > 0 { g.left } else { g.right };
    let arrow_x = end - dir;
    if arrow_x < 0 {
        return;
    }
    let head_glyph = match arrow {
        ArrowKind::NoArrow => g.horiz,
        _ => head,
    };
    if sy == ty {
        hline(canvas, start + dir, arrow_x, dir, true, sy, g.horiz);
        canvas.force(clamp0(arrow_x), sy, head_glyph);
        if arrow == ArrowKind::DoubleArrow {
            canvas.force(clamp0(start + dir), sy, tail);
        }
        if let Some(l) = label {
            place_h_label(canvas, l, start + dir, arrow_x - dir, sy);
        }
        return;
    }
    let mid = if dir > 0 { start + free / 2 } else { start - free / 2 };
    let down = ty > sy;
    hline(canvas, start + dir, mid, dir, false, sy, g.horiz);
    canvas.join(clamp0(mid), sy, turn_from_horizontal(g, dir, down));
    let (lo, hi) = if down { (sy, ty) } else { (ty, sy) };
    let mut y = lo + 1;
    let ghost v2 = canvas.view_grid();
    let ghost cm = clamp_spec(mid as int);
    while y < hi
        invariant
            canvas.wf(),
            canvas.w == old(canvas).w,
            canvas.h == old(canvas).h,
            hi <= usize::MAX / 4,
            -2 <= mid <= usize::MAX / 4,
            cm == clamp_spec(mid as int),
            lo + 1 <= y,
            put_col(canvas.view_grid(), canvas.w as nat, canvas.h as nat, cm as int, y as int, hi - 1, g.vert)
                == put_col(v2, canvas.w as nat, canvas.h as nat, cm as int, lo + 1, hi - 1, g.vert),
        decreases hi - y,
    {
        canvas.put(clamp0(mid), y, g.vert);
        y += 1;
    }
    canvas.join(clamp0(mid), ty, turn_to_horizontal(g, dir, down));
    hline(canvas, mid + dir, arrow_x, dir, false, ty, g.horiz);
    canvas.force(clamp0(arrow_x), ty, head_glyph);
    if arrow == ArrowKind::DoubleArrow {
        canvas.force(clamp0(start + dir), sy, tail);
    }
    if let Some(l) = label {
        place_h_label(canvas, l, mid + dir, arrow_x - dir, ty);
    }
}

/// Routes an edge between two layers of a `TD`/`BT` diagram: straight when
/// both centre columns agree, otherwise with one horizontal jog in the
/// middle of the gap; the label goes beside the line.
#[verifier::spinoff_prover]
#[verifier::rlimit(40)]
fn route_vertical(canvas: &mut Canvas, s: Rect, t: Rect, label: Option<&str>, arrow: ArrowKind, g: &Glyphs)
    requires
        old(canvas).wf(),
        rect_ok(s),
        rect_ok(t),
        label matches Some(l) ==> small(l@),
    ensures
        final(canvas).wf(),
        final(canvas).w == old(canvas).w,
        final(canvas).h == old(canvas).h,
        final(canvas).view_grid() == route_v_spec(old(canvas).view_grid(), old(canvas).w as nat, old(canvas).h as nat, s, t, label_view(label), arrow, *g),
{
    let sx = s.x + s.w / 2;
    let tx = t.x + t.w / 2;
    let start: isize;
    let end: isize;
    let dir: isize;
    if t.y >= s.y + s.h {
        start = (s.y + s.h) as isize;
        end = t.y as isize - 1;
        dir = 1;
    } else if s.y >= t.y + t.h {
        start = s.y as isize - 1;
        end = (t.y + t.h) as isize;
        dir = -1;
    } else {
        return;
    }
    if start < 0 || end < 0 {
        return;
    }
    let free = if dir > 0 { end - start + 1 } else { start - end + 1 };
    if free < 1 {
        return;
    }
    let head = if dir > 0 { g.down } else { g.up };
    let tail = if dir > 0 { g.up } else { g.down };
    let down = dir > 0;
    let end_glyph = if arrow == ArrowKind::NoArrow { g.vert } else { head };
    if sx == tx {
        vline(canvas, sx, start, end, dir, g.vert);
        canvas.force(sx, clamp0(end), end_glyph);
        if arrow == ArrowKind::DoubleArrow {
            canvas.force(sx, clamp0(start), tail);
        }
        if let Some(l) = label {
            let text = shorten(l, 24);
            canvas.text_if_free(sx + 2, clamp0(start), text.as_str());
        }
        return;
    }
    let mid = if dir > 0 { start + free / 2 } else { start - free / 2 };
    let hdir: isize = if tx > sx { 1 } else { -1 };
    vline(canvas, sx, start, mid, dir, g.vert);
    let midr = clamp0(mid);
    canvas.join(sx, midr, turn_to_horizontal(g, hdir, down));
    let (lo, hi) = if tx > sx { (sx, tx) } else { (tx, sx) };
    let mut x = lo + 1;
    let ghost v2 = canvas.view_grid();
    while x < hi
        invariant
            canvas.wf(),
            canvas.w == old(canvas).w,
            canvas.h == old(canvas).h,
            hi <= usize::MAX / 4,
            lo + 1 <= x,
            put_row(canvas.view_grid(), canvas.w as nat, canvas.h as nat, x as int, hi - 1, midr as int, g.horiz)
                == put_row(v2, canvas.w as nat, canvas.h as nat, lo + 1, hi - 1, midr as int, g.horiz),
        decreases hi - x,
    {
        canvas.put(x, midr, g.horiz);
        x += 1;
    }
    canvas.join(tx, midr, turn_from_horizontal(g, hdir, down));
    vline(canvas, tx, mid + dir, end, dir, g.vert);
    canvas.force(tx, clamp0(end), end_glyph);
    if arrow == ArrowKind::DoubleArrow {
        canvas.force(sx, clamp0(start), tail);
    }
    if let Some(l) = label {
        let text = shorten(l, 24);
        let y = clamp0(mid + dir);
        if !canvas.text_if_free(tx + 2, y, text.as_str()) {
            canvas.text_if_free(hi + 2, midr, text.as_str());
        }
    }
}

/// Routes an edge spanning more than one layer of an `LR`/`RL` diagram
/// through a detour lane below the diagram, entering the target box from
/// underneath.
#[verifier::spinoff_prover]
#[verifier::rlimit(40)]
fn route_long_horizontal(canvas: &mut Canvas, s: Rect, t: Rect, label: Option<&str>, g: &Glyphs, lane: usize)
    requires
        old(canvas).wf(),
        rect_ok(s),
        rect_ok(t),
        coord_ok(lane as int),
        label matches Some(l) ==> small(l@),
    ensures
        final(canvas).wf(),
        final(canvas).w == old(canvas).w,
        final(canvas).h == old(canvas).h,
        final(canvas).view_grid() == route_long_h_spec(old(canvas).view_grid(), old(canvas).w as nat, old(canvas).h as nat, s, t, label_view(label), *g, lane as int),
{
    let sy = s.y + s.h / 2;
    let to_right = t.x >= s.x + s.w;
    let dir: isize = if to_right { 1 } else { -1 };
    let x1: isize = if to_right { (s.x + s.w) as isize } else { s.x as isize - 1 };
    if x1 < 0 || lane <= sy {
        return;
    }
    let x1u = x1 as usize;
    let xt = t.x + t.w / 2;
    let entry = t.y + t.h;
    canvas.force(x1u, sy, turn_from_horizontal(g, dir, true));
    let mut y = sy + 1;
    let ghost v1 = canvas.view_grid();
    while y < lane
        invariant
            canvas.wf(),
            canvas.w == old(canvas).w,
            canvas.h == old(canvas).h,
            coord_ok(lane as int),
            sy + 1 <= y,
            put_col(canvas.view_grid(), canvas.w as nat, canvas.h as nat, x1u as int, y as int, lane - 1, g.vert)
                == put_col(v1, canvas.w as nat, canvas.h as nat, x1u as int, sy + 1, lane - 1, g.vert),
        decreases lane - y,
    {
        canvas.put(x1u, y, g.vert);
        y += 1;
    }
    let hdir: isize = if xt > x1u { 1 } else { -1 };
    canvas.force(x1u, lane, turn_to_horizontal(g, hdir, true));
    let (lo, hi) = if xt > x1u { (x1u, xt) } else { (xt, x1u) };
    let mut x = lo + 1;
    let ghost v3 = canvas.view_grid();
    while x < hi
        invariant
            canvas.wf(),
            canvas.w == old(canvas).w,
            canvas.h == old(canvas).h,
            hi <= usize::MAX / 4,
            lo + 1 <= x,
            put_row(canvas.view_grid(), canvas.w as nat, canvas.h as nat, x as int, hi - 1, lane as int, g.horiz)
                == put_row(v3, canvas.w as nat, canvas.h as nat, lo + 1, hi - 1, lane as int, g.horiz),
        decreases hi - x,
    {
        canvas.put(x, lane, g.horiz);
        x += 1;
    }
    if xt != x1u {
        canvas.force(xt, lane, turn_from_horizontal(g, hdir, false));
    }
    let mut y = entry + 1;
    let ghost v5 = canvas.view_grid();
    while y < lane
        invariant
            canvas.wf(),
            canvas.w == old(canvas).w,
            canvas.h == old(canvas).h,
            coord_ok(lane as int),
            entry + 1 <= y,
            put_col(canvas.view_grid(), canvas.w as nat, canvas.h as nat, xt as int, y as int, lane - 1, g.vert)
                == put_col(v5, canvas.w as nat, canvas.h as nat, xt as int, entry + 1, lane - 1, g.vert),
        decreases lane - y,
    {
        canvas.put(xt, y, g.vert);
        y += 1;
    }
    canvas.force(xt, entry, g.up);
    if let Some(l) = label {
        let text = shorten(l, 24);
        canvas.text_if_free(lo + 1, lane, text.as_str());
    }
}

/// Routes an edge spanning more than one layer of a `TD`/`BT` diagram
/// through a detour lane right of the diagram, entering the target box from
/// the right.
#[verifier::spinoff_prover]
#[verifier::rlimit(40)]
fn route_long_vertical(canvas: &mut Canvas, s: Rect, t: Rect, label: Option<&str>, g: &Glyphs, lane: usize)
    requires
        old(canvas).wf(),
        rect_ok(s),
        rect_ok(t),
        coord_ok(lane as int),
        label matches Some(l) ==> small(l@),
    ensures
        final(canvas).wf(),
        final(canvas).w == old(canvas).w,
        final(canvas).h == old(canvas).h,
        final(canvas).view_grid() == route_long_v_spec(old(canvas).view_grid(), old(canvas).w as nat, old(canvas).h as nat, s, t, label_view(label), *g, lane as int),
{
    let sx = s.x + s.w / 2;
    let downward = t.y >= s.y + s.h;
    let y1: isize = if downward { (s.y + s.h) as isize } else { s.y as isize - 1 };
    if y1 < 0 || lane <= sx {
        return;
    }
    let y1u = y1 as usize;
    let yt = t.y + t.h / 2;
    let entry = t.x + t.w;
    canvas.force(sx, y1u, turn_to_horizontal(g, 1, downward));
    let mut x = sx + 1;
    let ghost v1 = canvas.view_grid();
    while x < lane
        invariant
            canvas.wf(),
            canvas.w == old(canvas).w,
            canvas.h == old(canvas).h,
            coord_ok(lane as int),
            sx + 1 <= x,
            put_row(canvas.view_grid(), canvas.w as nat, canvas.h as nat, x as int, lane - 1, y1u as int, g.horiz)
                == put_row(v1, canvas.w as nat, canvas.h as nat, sx + 1, lane - 1, y1u as int, g.horiz),
        decreases lane - x,
    {
        canvas.put(x, y1u, g.horiz);
        x += 1;
    }
    let vdown = yt > y1u;
    canvas.force(lane, y1u, turn_from_horizontal(g, 1, vdown));
    let (lo, hi) = if yt > y1u { (y1u, yt) } else { (yt, y1u) };
    let mut y = lo + 1;
    let ghost v3 = canvas.view_grid();
    while y < hi
        invariant
            canvas.wf(),
            canvas.w == old(canvas).w,
            canvas.h == old(canvas).h,
            hi <= usize::MAX / 4,
            lo + 1 <= y,
            put_col(canvas.view_grid(), canvas.w as nat, canvas.h as nat, lane as int, y as int, hi - 1, g.vert)
                == put_col(v3, canvas.w as nat, canvas.h as nat, lane as int, lo + 1, hi - 1, g.vert),
        decreases hi - y,
    {
        canvas.put(lane, y, g.vert);
        y += 1;
    }
    if yt != y1u {
        canvas.join(lane, yt, turn_to_horizontal(g, -1, vdown));
    }
    let mut x = entry + 1;
    let ghost v5 = canvas.view_grid();
    while x < lane
        invariant
            canvas.wf(),
            canvas.w == old(canvas).w,
            canvas.h == old(canvas).h,
            coord_ok(lane as int),
            entry + 1 <= x,
            put_row(canvas.view_grid(), canvas.w as nat, canvas.h as nat, x as int, lane - 1, yt as int, g.horiz)
                == put_row(v5, canvas.w as nat, canvas.h as nat, entry + 1, lane - 1, yt as int, g.horiz),
        decreases lane - x,
    {
        canvas.put(x, yt, g.horiz);
        x += 1;
    }
    canvas.force(entry, yt, g.left);
    if let Some(l) = label {
        let text = shorten(l, 24);
        canvas.text_if_free(sx + 2, y1u, text.as_str());
    }
}

/// `|a - b|`.
fn abs_diff(a: usize, b: usize) -> (d: usize)
    ensures
        d == if a >= b { a - b } else { b - a },
{
    if a >= b { a - b } else { b - a }
}

/// The glyphs of `style` as a value.
pub open spec fn glyphs_of(style: EdgeStyle, unicode: bool) -> Glyphs {
    let t = glyphs_spec(style, unicode);
    Glyphs { horiz: t.0, vert: t.1, right: t.2, left: t.3, down: t.4, up: t.5, ws: t.6, wn: t.7, es: t.8, en: t.9 }
}

/// The highest of the first `k` layers (0 for none).
pub open spec fn top_layer(layer: Seq<usize>, k: nat) -> usize
    decreases k,
{
    if k == 0 {
        0
    } else {
        let p = top_layer(layer, (k - 1) as nat);
        if layer[k - 1] > p { layer[k - 1] } else { p }
    }
}

/// The buckets in drawing order: the last layer first for `RL`/`BT`.
pub open spec fn drawing_order(layers: Seq<Seq<usize>>, reversed: bool) -> Seq<Seq<usize>> {
    if reversed { layers.reverse() } else { layers }
}

/// `pos` with the first `k` nodes of `bucket` (those below `n`) recorded at
/// rank `li`.
pub open spec fn rank_bucket(bucket: Seq<usize>, n: nat, li: usize, pos: Seq<usize>, k: nat) -> Seq<usize>
    decreases k,
{
    if k == 0 {
        pos
    } else {
        let p = rank_bucket(bucket, n, li, pos, (k - 1) as nat);
        let v = bucket[k - 1];
        if v < n { p.update(v as int, li) } else { p }
    }
}

/// The rank (drawing-order bucket index) of each of `n` nodes after the
/// first `li` buckets (0 for a node in none of them).
pub open spec fn ranks(ordered: Seq<Seq<usize>>, n: nat, li: nat) -> Seq<usize>
    decreases li,
{
    if li == 0 {
        Seq::new(n, |i: int| 0usize)
    } else {
        let b = ordered[li - 1];
        rank_bucket(b, n, (li - 1) as usize, ranks(ordered, n, (li - 1) as nat), b.len())
    }
}

/// The gaps between layers after the first `k` edges: a labelled edge
/// between adjacent ranks widens the gap between them to its label's width
/// plus six cells (`LR`/`RL`) or to four rows (`TD`/`BT`).
pub open spec fn widen_gaps(edges: Seq<DiagramEdge>, n: nat, pos: Seq<usize>, horizontal: bool, gaps: Seq<usize>, k: nat) -> Seq<usize>
    decreases k,
{
    if k == 0 {
        gaps
    } else {
        let g = widen_gaps(edges, n, pos, horizontal, gaps, (k - 1) as nat);
        let e = edges[k - 1];
        if e.from < n && e.to < n {
            let a = pos[e.from as int];
            let b = pos[e.to as int];
            let (lo, hi) = if a <= b { (a, b) } else { (b, a) };
            if lo < hi && hi - lo == 1 {
                match e.label {
                    Some(l) => {
                        let need: int = if horizontal { display_width(l@) + 6int } else { 4int };
                        if lo < g.len() && g[lo as int] < need { g.update(lo as int, need as usize) } else { g }
                    },
                    None => g,
                }
            } else {
                g
            }
        } else {
            g
        }
    }
}

/// Whether an edge is drawn: visible, not a loop, between known nodes.
pub open spec fn drawn_edge(e: DiagramEdge, n: nat) -> bool {
    e.style != EdgeStyle::Invisible && e.from != e.to && e.from < n && e.to < n
}

/// Whether a drawn edge spans two ranks or more.
pub open spec fn long_edge(e: DiagramEdge, n: nat, pos: Seq<usize>) -> bool {
    &&& drawn_edge(e, n)
    &&& (if pos[e.from as int] >= pos[e.to as int] {
        pos[e.from as int] - pos[e.to as int]
    } else {
        pos[e.to as int] - pos[e.from as int]
    }) >= 2
}

/// How many of the first `k` edges are long.
pub open spec fn long_edges(edges: Seq<DiagramEdge>, n: nat, pos: Seq<usize>, k: nat) -> nat
    decreases k,
{
    if k == 0 {
        0
    } else {
        long_edges(edges, n, pos, (k - 1) as nat) + if long_edge(edges[k - 1], n, pos) { 1nat } else { 0nat }
    }
}

/// The room labels need beside the drawing: the widest label among the
/// first `k` edges plus three cells (0 without labels).
pub open spec fn label_room(edges: Seq<DiagramEdge>, k: nat) -> usize
    decreases k,
{
    if k == 0 {
        0
    } else {
        let p = label_room(edges, (k - 1) as nat);
        match edges[k - 1].label {
            Some(l) => if display_width(l@) + 3 > p { (display_width(l@) + 3) as usize } else { p },
            None => p,
        }
    }
}

/// The grid size for content `cw` by `ch`: room for labels (at most 24
/// cells) and one border column right of an `LR`/`RL` drawing and the
/// detour lanes and two rows below it; room for labels, the lanes and two
/// columns right of a `TD`/`BT` drawing and one row below it.
pub open spec fn canvas_size(horizontal: bool, cw: usize, ch: usize, channels: usize, room: usize) -> (usize, usize) {
    if horizontal {
        let extra = if room < 24 { room } else { 24 };
        (sat_add(sat_add(cw, extra), 1), sat_add(sat_add(ch, channels), 2))
    } else {
        (sat_add(sat_add(sat_add(cw, room), channels), 2), sat_add(ch, 1))
    }
}

/// The box rectangle of each node.
pub open spec fn rects_of(xs: Seq<usize>, ys: Seq<usize>, dims: Seq<(usize, usize)>) -> Seq<Rect> {
    Seq::new(dims.len(), |v: int| Rect { x: xs[v], y: ys[v], w: dims[v].0, h: dims[v].1 })
}

/// An empty grid `w` cells wide and `h` high.
pub open spec fn blank_grid(w: nat, h: nat) -> GridView {
    (Seq::new(h, |y: int| Seq::new(w, |x: int| ' ')), Seq::new(h, |y: int| Seq::new(w, |x: int| false)))
}

/// The boxes of the first `k` nodes painted, in declaration order.
pub open spec fn paint_boxes(v: GridView, gw: nat, gh: nat, d: Diagram, max_label: usize, rects: Seq<Rect>, unicode: bool, k: nat) -> GridView
    decreases k,
{
    if k == 0 {
        v
    } else {
        box_spec(
            paint_boxes(v, gw, gh, d, max_label, rects, unicode, (k - 1) as nat),
            gw,
            gh,
            wrap_label_spec(d.nodes@[k - 1].label@, max_label as nat),
            d.nodes@[k - 1].shape,
            rects[k - 1],
            unicode,
        )
    }
}

/// The first `k` edges routed in source order, and the next free detour
/// lane: a long edge takes the next lane, and goes through it while one of
/// the `channels` lanes is left (below the content for `LR`/`RL`, right of
/// it for `TD`/`BT`); every other drawn edge goes straight across the gap.
pub open spec fn route_edges(v: GridView, gw: nat, gh: nat, edges: Seq<DiagramEdge>, n: nat, pos: Seq<usize>, rects: Seq<Rect>, unicode: bool, horizontal: bool, channels: nat, cw: usize, ch: usize, k: nat) -> (GridView, usize)
    decreases k,
{
    if k == 0 {
        (v, 0)
    } else {
        let (p, lane) = route_edges(v, gw, gh, edges, n, pos, rects, unicode, horizontal, channels, cw, ch, (k - 1) as nat);
        let e = edges[k - 1];
        if drawn_edge(e, n) {
            let s = rects[e.from as int];
            let t = rects[e.to as int];
            let long = long_edge(e, n, pos);
            let g = glyphs_of(e.style, unicode);
            let label: Option<Seq<char>> = match e.label {
                Some(l) => Some(l@),
                None => None,
            };
            let next = if long { sat_inc(lane) } else { lane };
            if long && lane < channels {
                (
                    if horizontal {
                        route_long_h_spec(p, gw, gh, s, t, label, g, ch + 1 + lane)
                    } else {
                        route_long_v_spec(p, gw, gh, s, t, label, g, cw + 1 + lane)
                    },
                    next,
                )
            } else {
                (
                    if horizontal {
                        route_h_spec(p, gw, gh, s, t, label, e.arrow, g)
                    } else {
                        route_v_spec(p, gw, gh, s, t, label, e.arrow, g)
                    },
                    next,
                )
            }
        } else {
            (p, lane)
        }
    }
}

/// `lines` without its trailing empty lines.
pub open spec fn drop_blank_tail(lines: Seq<Seq<char>>) -> Seq<Seq<char>>
    decreases lines.len(),
{
    if lines.len() > 0 && lines.last().len() == 0 {
        drop_blank_tail(lines.drop_last())
    } else {
        lines
    }
}

/// For each of the first `k` notes, an empty line and the note in
/// brackets.
pub open spec fn note_lines(notes: Seq<String>, k: nat) -> Seq<Seq<char>>
    decreases k,
{
    if k == 0 {
        Seq::empty()
    } else {
        note_lines(notes, (k - 1) as nat).push(Seq::empty()).push("[note: "@ + notes[k - 1]@ + seq![']'])
    }
}

/// The drawing of `d` with labels wrapped at `max_label`: layered, ordered,
/// sized, placed and routed, as rows without trailing blanks and without
/// trailing empty rows, followed by the notes on what could not be shown;
/// `None` when the grid or a box would exceed the coordinate bound.
pub open spec fn paint_spec(d: Diagram, unicode: bool, max_label: usize) -> Option<Seq<Seq<char>>> {
    let n = d.nodes@.len();
    let edges = d.edges@;
    let pos = node_ranks(d);
    let horizontal = d.orientation == Orientation::Lr || d.orientation == Orientation::Rl;
    let (xs, ys, content_w, content_h) = placement_spec(d, max_label);
    let longs = long_edges(edges, n, pos, edges.len());
    let channels: usize = if longs < MAX_CHANNELS { longs as usize } else { MAX_CHANNELS };
    let (cw, chh) = canvas_size(horizontal, content_w, content_h, channels, label_room(edges, edges.len()));
    let rects = rects_of(xs, ys, node_dims(d, max_label));
    if cw > usize::MAX / 16 || chh > usize::MAX / 16 || cw * chh > usize::MAX / 8 || exists|v: int| 0 <= v < n && !rect_ok(#[trigger] rects[v]) {
        None
    } else {
        let boxed = paint_boxes(blank_grid(cw as nat, chh as nat), cw as nat, chh as nat, d, max_label, rects, unicode, n);
        let routed = route_edges(boxed, cw as nat, chh as nat, edges, n, pos, rects, unicode, horizontal, channels as nat, content_w, content_h, edges.len()).0;
        let rows = drop_blank_tail(routed.0.map_values(|r: Seq<char>| trim_end_blanks(r)));
        Some(if d.has_unsupported_features { rows + note_lines(d.unsupported_notes@, d.unsupported_notes@.len()) } else { rows })
    }
}

/// The number of layers of `d`: one more than the highest.
pub open spec fn layer_count_of(d: Diagram) -> usize {
    let layer = layers_spec(edge_ends(d), d.nodes@.len());
    sat_add(top_layer(layer, layer.len()), 1)
}

/// The buckets of `d` in drawing order.
pub open spec fn ordered_of(d: Diagram) -> Seq<Seq<usize>> {
    let n = d.nodes@.len();
    let ends = edge_ends(d);
    drawing_order(
        ordering_spec(ends, n, layers_spec(ends, n), layer_count_of(d) as nat),
        d.orientation == Orientation::Rl || d.orientation == Orientation::Bt,
    )
}

/// The rank of each node of `d` in drawing order.
pub open spec fn node_ranks(d: Diagram) -> Seq<usize> {
    ranks(ordered_of(d), d.nodes@.len(), ordered_of(d).len())
}

/// The box size `(w, h)` of each node of `d` with labels wrapped at
/// `max_label`.
pub open spec fn node_dims(d: Diagram, max_label: usize) -> Seq<(usize, usize)> {
    Seq::new(d.nodes@.len(), |v: int| {
        let lines = wrap_label_spec(d.nodes@[v].label@, max_label as nat);
        (
            (widest_width(lines) + 4) as usize,
            (if lines.len() + 2 > usize::MAX { usize::MAX as int } else { lines.len() + 2int }) as usize,
        )
    })
}

/// The box positions `(xs, ys)` of `d` and the content size: the layers
/// placed one after another with the gaps that edge labels need.
pub open spec fn placement_spec(d: Diagram, max_label: usize) -> (Seq<usize>, Seq<usize>, usize, usize) {
    let n = d.nodes@.len();
    let edges = d.edges@;
    let ordered = ordered_of(d);
    let layer_count = layer_count_of(d);
    let horizontal = d.orientation == Orientation::Lr || d.orientation == Orientation::Rl;
    let gap_count: nat = if layer_count >= 1 { (layer_count - 1) as nat } else { 0 };
    let gaps = widen_gaps(edges, n, node_ranks(d), horizontal, Seq::new(gap_count, |i: int| if horizontal { H_GAP } else { V_GAP }), edges.len());
    let dims = box_dims_of(node_dims(d, max_label), horizontal);
    let spacing = if horizontal { NODE_SPACING } else { COL_SPACING };
    let maxc = max_cross(ordered, dims, spacing, ordered.len());
    let placed = place_layers(ordered, dims, spacing, gaps, if horizontal { H_GAP } else { V_GAP }, maxc, ordered.len());
    if horizontal { (placed.0, placed.1, placed.2, maxc) } else { (placed.1, placed.0, maxc, placed.2) }
}

/// Box sizes as `(w, h)` taken along and across the layer axis.
pub open spec fn box_dims_of(dims: Seq<(usize, usize)>, horizontal: bool) -> Seq<(usize, usize)> {
    dims.map_values(|p: (usize, usize)| if horizontal { p } else { (p.1, p.0) })
}

/// Lays the diagram out with labels wrapped at `max_label` and paints it:
/// the rows of the canvas without trailing blanks, trailing empty rows
/// removed, then a `[note: ...]` line (after an empty one) for each
/// unsupported-feature note. `None` when the canvas would be too large to
/// address.
/// Paints the box of every node, in declaration order.
fn paint_all_boxes(canvas: &mut Canvas, diagram: &Diagram, boxes: &Vec<Boxed>, rects: &Vec<Rect>, unicode: bool, max_label: usize)
    requires
        old(canvas).wf(),
        boxes@.len() == diagram.nodes@.len(),
        rects@.len() == diagram.nodes@.len(),
        forall|k: int| 0 <= k < rects@.len() ==> rect_ok(#[trigger] rects@[k]),
        forall|k: int| 0 <= k < boxes@.len() ==> box_of(
            #[trigger] boxes@[k],
            diagram.nodes@[k].label@,
            diagram.nodes@[k].shape,
            max_label,
        ),
    ensures
        final(canvas).wf(),
        final(canvas).w == old(canvas).w,
        final(canvas).h == old(canvas).h,
        final(canvas).view_grid() == paint_boxes(
            old(canvas).view_grid(),
            old(canvas).w as nat,
            old(canvas).h as nat,
            *diagram,
            max_label,
            rects@,
            unicode,
            diagram.nodes@.len(),
        ),
{
    let n = boxes.len();
    let mut v: usize = 0;
    while v < n
        invariant
            v <= n,
            n == boxes@.len(),
            n == diagram.nodes@.len(),
            rects@.len() == n,
            forall|k: int| 0 <= k < n ==> rect_ok(#[trigger] rects@[k]),
            forall|k: int| 0 <= k < n ==> box_of(
                #[trigger] boxes@[k],
                diagram.nodes@[k].label@,
                diagram.nodes@[k].shape,
                max_label,
            ),
            canvas.wf(),
            canvas.w == old(canvas).w,
            canvas.h == old(canvas).h,
            canvas.view_grid() == paint_boxes(
                old(canvas).view_grid(),
                old(canvas).w as nat,
                old(canvas).h as nat,
                *diagram,
                max_label,
                rects@,
                unicode,
                v as nat,
            ),
        decreases n - v,
    {
        proof {
            assert(box_of(boxes@[v as int], diagram.nodes@[v as int].label@, diagram.nodes@[v as int].shape, max_label));
        }
        paint_box(canvas, &boxes[v], rects[v], unicode);
        v += 1;
    }
}

/// Routes every drawn edge, in source order, handing the detour lanes out
/// to long edges while `channels` of them are left.
fn route_all(
    canvas: &mut Canvas,
    diagram: &Diagram,
    pos_of: &Vec<usize>,
    rects: &Vec<Rect>,
    unicode: bool,
    horizontal: bool,
    channels: usize,
    content_w: usize,
    content_h: usize,
    room: usize,
)
    requires
        old(canvas).wf(),
        diagram_fits(*diagram),
        pos_of@.len() == diagram.nodes@.len(),
        rects@.len() == diagram.nodes@.len(),
        forall|k: int| 0 <= k < rects@.len() ==> rect_ok(#[trigger] rects@[k]),
        coord_ok(old(canvas).w as int),
        coord_ok(old(canvas).h as int),
        horizontal ==> old(canvas).h == content_h + channels + 2,
        !horizontal ==> old(canvas).w == content_w + room + channels + 2,
    ensures
        final(canvas).wf(),
        final(canvas).w == old(canvas).w,
        final(canvas).h == old(canvas).h,
        final(canvas).view_grid() == route_edges(
            old(canvas).view_grid(),
            old(canvas).w as nat,
            old(canvas).h as nat,
            diagram.edges@,
            diagram.nodes@.len(),
            pos_of@,
            rects@,
            unicode,
            horizontal,
            channels as nat,
            content_w,
            content_h,
            diagram.edges@.len(),
        ).0,
{
    let n = diagram.nodes.len();
    let mut lane_next: usize = 0;
    let mut ei: usize = 0;
    while ei < diagram.edges.len()
        invariant
            ei <= diagram.edges@.len(),
            n == diagram.nodes@.len(),
            diagram_fits(*diagram),
            pos_of@.len() == n,
            rects@.len() == n,
            forall|k: int| 0 <= k < n ==> rect_ok(#[trigger] rects@[k]),
            canvas.wf(),
            canvas.w == old(canvas).w,
            canvas.h == old(canvas).h,
            coord_ok(canvas.w as int),
            coord_ok(canvas.h as int),
            horizontal ==> canvas.h == content_h + channels + 2,
            !horizontal ==> canvas.w == content_w + room + channels + 2,
            (canvas.view_grid(), lane_next) == route_edges(
                old(canvas).view_grid(),
                old(canvas).w as nat,
                old(canvas).h as nat,
                diagram.edges@,
                n as nat,
                pos_of@,
                rects@,
                unicode,
                horizontal,
                channels as nat,
                content_w,
                content_h,
                ei as nat,
            ),
        decreases diagram.edges@.len() - ei,
    {
        let e = &diagram.edges[ei];
        if e.style != EdgeStyle::Invisible && e.from != e.to && e.from < n && e.to < n {
            let s = rects[e.from];
            let t = rects[e.to];
            let is_long = abs_diff(pos_of[e.from], pos_of[e.to]) >= 2;
            let lane: Option<usize> = if is_long {
                let k = lane_next;
                lane_next = lane_next.saturating_add(1);
                Some(k)
            } else {
                None
            };
            let g = glyphs(e.style, unicode);
            let label: Option<&str> = match &e.label {
                Some(l) => Some(l.as_str()),
                None => None,
            };
            assert(label matches Some(l) ==> small(l@));
            match lane {
                Some(k) if k < channels => {
                    if horizontal {
                        route_long_horizontal(canvas, s, t, label, &g, content_h + 1 + k);
                    } else {
                        route_long_vertical(canvas, s, t, label, &g, content_w + 1 + k);
                    }
                },
                _ => {
                    if horizontal {
                        route_horizontal(canvas, s, t, label, e.arrow, &g);
                    } else {
                        route_vertical(canvas, s, t, label, e.arrow, &g);
                    }
                },
            }
        }
        ei += 1;
    }
}

/// The rows of the finished grid without trailing blanks and trailing empty
/// rows, followed, when the diagram has features that are not drawn, by an
/// empty line and the bracketed note for each of its notes.
fn finish_lines(canvas: Canvas, diagram: &Diagram) -> (lines: Vec<String>)
    requires
        canvas.wf(),
        diagram_fits(*diagram),
    ensures
        forall|i: int| 0 <= i < lines@.len() ==> fits((#[trigger] lines@[i])@),
        ({
            let rows = drop_blank_tail(canvas.view_grid().0.map_values(|r: Seq<char>| trim_end_blanks(r)));
            strings_view(lines@) == if diagram.has_unsupported_features {
                rows + note_lines(diagram.unsupported_notes@, diagram.unsupported_notes@.len())
            } else {
                rows
            }
        }),
{
    let ghost cw = canvas.w;
    let ghost grid = canvas.view_grid();
    let mut lines = canvas.into_lines();
    let ghost rows0 = grid.0.map_values(|r: Seq<char>| trim_end_blanks(r));
    proof {
        assert(strings_view(lines@) =~= rows0);
    }
    while lines.len() > 0 && lines[lines.len() - 1].as_str().is_empty()
        invariant
            forall|i: int| 0 <= i < lines@.len() ==> (#[trigger] lines@[i])@.len() <= cw,
            coord_ok(cw as int),
            drop_blank_tail(strings_view(lines@)) == drop_blank_tail(rows0),
        decreases lines@.len(),
    {
        let ghost l0 = strings_view(lines@);
        lines.pop();
        proof {
            assert(strings_view(lines@) =~= l0.drop_last());
        }
    }
    proof {
        assert(strings_view(lines@) == drop_blank_tail(rows0));
        assert forall|i: int| 0 <= i < lines@.len() implies fits((#[trigger] lines@[i])@) by {
            assert(lines@[i]@.len() <= cw);
        }
    }
    let ghost rows = strings_view(lines@);
    if diagram.has_unsupported_features {
        let mut k: usize = 0;
        proof {
            assert(rows + note_lines(diagram.unsupported_notes@, 0) =~= rows);
        }
        while k < diagram.unsupported_notes.len()
            invariant
                k <= diagram.unsupported_notes@.len(),
                diagram_fits(*diagram),
                forall|i: int| 0 <= i < lines@.len() ==> fits((#[trigger] lines@[i])@),
                strings_view(lines@) == rows + note_lines(diagram.unsupported_notes@, k as nat),
            decreases diagram.unsupported_notes@.len() - k,
        {
            assert(small(diagram.unsupported_notes@[k as int]@));
            proof {
                reveal_strlit("[note: ");
            }
            let ghost l0 = strings_view(lines@);
            lines.push(String::new());
            let mut note = to_owned("[note: ");
            push_str(&mut note, diagram.unsupported_notes[k].as_str());
            push_char(&mut note, ']');
            proof {
                assert(note@ =~= "[note: "@ + diagram.unsupported_notes@[k as int]@ + seq![']']);
            }
            lines.push(note);
            k += 1;
            proof {
                assert(strings_view(lines@) =~= l0.push(Seq::empty()).push(
                    "[note: "@ + diagram.unsupported_notes@[k - 1]@ + seq![']'],
                ));
            }
        }
    }
    lines
}

fn layout_and_paint(diagram: &Diagram, opts: &RenderOptions, max_label: usize) -> (out: Option<Vec<String>>)
    requires
        diagram_fits(*diagram),
    ensures
        out matches Some(lines) ==> forall|i: int| 0 <= i < lines@.len() ==> fits((#[trigger] lines@[i])@),
        match paint_spec(*diagram, opts.unicode_box, max_label) {
            Some(ls) => out matches Some(lines) && strings_view(lines@) == ls,
            None => out is None,
        },
{
    let n = diagram.nodes.len();
    let ghost ends = edge_ends(*diagram);
    let ghost edges = diagram.edges@;
    let (layer, _back) = layering(diagram);
    let mut top: usize = 0;
    let mut v: usize = 0;
    while v < layer.len()
        invariant
            v <= layer@.len(),
            top == top_layer(layer@, v as nat),
        decreases layer@.len() - v,
    {
        if layer[v] > top {
            top = layer[v];
        }
        v += 1;
    }
    let layer_count = top.saturating_add(1);
    let layers = ordering(diagram, &layer, layer_count);
    let boxes = build_boxes(diagram, max_label);
    let reversed = diagram.orientation.is_reversed();
    let ghost lv = lists_view(layers@);
    let mut ordered: Vec<Vec<usize>> = Vec::new();
    if reversed {
        let mut k: usize = layers.len();
        while k > 0
            invariant
                k <= layers@.len(),
                lv == lists_view(layers@),
                lists_view(ordered@) == lv.reverse().take(layers@.len() - k),
            decreases k,
        {
            let ghost o0 = lists_view(ordered@);
            ordered.push(copy_list(&layers[k - 1]));
            k -= 1;
            proof {
                assert(lv.reverse().take(layers@.len() - k) =~= o0.push(lv[k as int]));
                assert(lists_view(ordered@) =~= o0.push(lv[k as int]));
            }
        }
        proof {
            assert(lv.reverse().take(layers@.len() as int) =~= lv.reverse());
        }
    } else {
        let mut k: usize = 0;
        while k < layers.len()
            invariant
                k <= layers@.len(),
                lv == lists_view(layers@),
                lists_view(ordered@) == lv.take(k as int),
            decreases layers@.len() - k,
        {
            let ghost o0 = lists_view(ordered@);
            ordered.push(copy_list(&layers[k]));
            k += 1;
            proof {
                assert(lv.take(k as int) =~= o0.push(lv[k - 1]));
                assert(lists_view(ordered@) =~= o0.push(lv[k - 1]));
            }
        }
        proof {
            assert(lv.take(layers@.len() as int) =~= lv);
        }
    }
    let ghost ov = lists_view(ordered@);
    proof {
        assert(ov == drawing_order(lv, diagram.orientation == Orientation::Rl || diagram.orientation == Orientation::Bt));
    }
    let mut pos_of = filled_usize(n, 0);
    proof {
        assert(pos_of@ =~= ranks(ov, n as nat, 0));
    }
    let mut li: usize = 0;
    while li < ordered.len()
        invariant
            li <= ordered@.len(),
            pos_of@.len() == n,
            ov == lists_view(ordered@),
            pos_of@ == ranks(ov, n as nat, li as nat),
        decreases ordered@.len() - li,
    {
        let ghost p0 = pos_of@;
        proof {
            assert(ov[li as int] == ordered@[li as int]@);
        }
        let mut k: usize = 0;
        while k < ordered[li].len()
            invariant
                li < ordered@.len(),
                k <= ordered@[li as int]@.len(),
                pos_of@.len() == n,
                ov == lists_view(ordered@),
                ov[li as int] == ordered@[li as int]@,
                pos_of@ == rank_bucket(ov[li as int], n as nat, li, p0, k as nat),
            decreases ordered@[li as int]@.len() - k,
        {
            let v = ordered[li][k];
            if v < n {
                pos_of.set(v, li);
            }
            k += 1;
        }
        li += 1;
    }
    let ghost pos = pos_of@;
    let horizontal = diagram.orientation.is_horizontal();
    let gap_count = if layer_count >= 1 { layer_count - 1 } else { 0 };
    let mut gaps = filled_usize(gap_count, if horizontal { H_GAP } else { V_GAP });
    let ghost gaps0 = gaps@;
    proof {
        assert(gaps0 =~= Seq::new(gap_count as nat, |i: int| if horizontal { H_GAP } else { V_GAP }));
    }
    let mut ei: usize = 0;
    while ei < diagram.edges.len()
        invariant
            ei <= diagram.edges@.len(),
            edges == diagram.edges@,
            diagram_fits(*diagram),
            gaps@.len() == gap_count,
            pos_of@.len() == n,
            pos_of@ == pos,
            gaps@ == widen_gaps(edges, n as nat, pos, horizontal, gaps0, ei as nat),
        decreases diagram.edges@.len() - ei,
    {
        let e = &diagram.edges[ei];
        if e.from < n && e.to < n {
            let a = pos_of[e.from];
            let b = pos_of[e.to];
            let (lo, hi) = if a <= b { (a, b) } else { (b, a) };
            if lo < hi && hi - lo == 1 {
                if let Some(label) = &e.label {
                    assert(small(label@));
                    let need = if horizontal { width(label.as_str()) + 6 } else { 4 };
                    if lo < gaps.len() && gaps[lo] < need {
                        gaps.set(lo, need);
                    }
                }
            }
        }
        ei += 1;
    }
    let ghost dims = Seq::new(n as nat, |v: int| {
        let lines = wrap_label_spec(diagram.nodes@[v].label@, max_label as nat);
        (
            (widest_width(lines) + 4) as usize,
            (if lines.len() + 2 > usize::MAX { usize::MAX as int } else { lines.len() + 2int }) as usize,
        )
    });
    proof {
        assert forall|v: int| 0 <= v < n implies #[trigger] box_dims(boxes@, horizontal)[v] == box_dims_of(dims, horizontal)[v] by {
            assert(box_of(boxes@[v], diagram.nodes@[v].label@, diagram.nodes@[v].shape, max_label));
        }
        assert(box_dims(boxes@, horizontal) =~= box_dims_of(dims, horizontal));
    }
    let (xs, ys, content_w, content_h) = if horizontal {
        place_horizontal(&ordered, &boxes, &gaps)
    } else {
        place_vertical(&ordered, &boxes, &gaps)
    };
    let mut long_count: usize = 0;
    let mut label_room_w: usize = 0;
    let mut ei: usize = 0;
    while ei < diagram.edges.len()
        invariant
            ei <= diagram.edges@.len(),
            edges == diagram.edges@,
            diagram_fits(*diagram),
            pos_of@.len() == n,
            pos_of@ == pos,
            long_count <= ei,
            long_count == long_edges(edges, n as nat, pos, ei as nat),
            label_room_w == label_room(edges, ei as nat),
        decreases diagram.edges@.len() - ei,
    {
        let e = &diagram.edges[ei];
        if e.style != EdgeStyle::Invisible && e.from != e.to && e.from < n && e.to < n
            && abs_diff(pos_of[e.from], pos_of[e.to]) >= 2 {
            long_count += 1;
        }
        if let Some(label) = &e.label {
            assert(small(label@));
            let room = width(label.as_str()) + 3;
            if room > label_room_w {
                label_room_w = room;
            }
        }
        ei += 1;
    }
    let channels = if long_count < MAX_CHANNELS { long_count } else { MAX_CHANNELS };
    let (cw, chh) = if horizontal {
        let extra = if label_room_w < 24 { label_room_w } else { 24 };
        (content_w.saturating_add(extra).saturating_add(1), content_h.saturating_add(channels).saturating_add(2))
    } else {
        (content_w.saturating_add(label_room_w).saturating_add(channels).saturating_add(2), content_h.saturating_add(1))
    };
    proof {
        assert((cw, chh) == canvas_size(horizontal, content_w, content_h, channels, label_room_w));
    }
    if cw > usize::MAX / 16 || chh > usize::MAX / 16 {
        return None;
    }
    match cw.checked_mul(chh) {
        Some(cells) => {
            if cells > usize::MAX / 8 {
                return None;
            }
        },
        None => {
            return None;
        },
    }
    proof {
        assert(dims == node_dims(*diagram, max_label));
        assert(pos == node_ranks(*diagram));
        assert((xs@, ys@, content_w, content_h) == placement_spec(*diagram, max_label));
    }
    let ghost rs = rects_of(xs@, ys@, dims);
    let mut rects: Vec<Rect> = Vec::new();
    let mut v: usize = 0;
    while v < n
        invariant
            v <= n,
            n == boxes@.len(),
            n == dims.len(),
            xs@.len() == n,
            ys@.len() == n,
            rs == rects_of(xs@, ys@, dims),
            xs@ == placement_spec(*diagram, max_label).0,
            ys@ == placement_spec(*diagram, max_label).1,
            dims == node_dims(*diagram, max_label),
            box_dims(boxes@, horizontal) == box_dims_of(dims, horizontal),
            rects@ == rs.take(v as int),
            forall|k: int| 0 <= k < v ==> rect_ok(#[trigger] rects@[k]),
        decreases n - v,
    {
        let r = Rect { x: xs[v], y: ys[v], w: boxes[v].w, h: boxes[v].h };
        proof {
            assert(box_dims(boxes@, horizontal)[v as int] == box_dims_of(dims, horizontal)[v as int]);
            assert(r == rs[v as int]);
        }
        if r.x > usize::MAX / 16 || r.y > usize::MAX / 16 || r.w > usize::MAX / 16 || r.h > usize::MAX / 16 {
            proof {
                let ps = placement_spec(*diagram, max_label);
                let sr = rects_of(ps.0, ps.1, node_dims(*diagram, max_label));
                assert(sr == rs);
                assert(!rect_ok(sr[v as int]));
            }
            return None;
        }
        rects.push(r);
        v += 1;
        proof {
            assert(rs.take(v as int) =~= rs.take(v - 1).push(r));
        }
    }
    proof {
        assert(rs.take(n as int) =~= rs);
    }
    let mut canvas = Canvas::new(cw, chh);
    paint_all_boxes(&mut canvas, diagram, &boxes, &rects, opts.unicode_box, max_label);
    route_all(&mut canvas, diagram, &pos_of, &rects, opts.unicode_box, horizontal, channels, content_w, content_h, label_room_w);
    let lines = finish_lines(canvas, diagram);
    Some(lines)
}

/// The column limit of `opts`: `width_cells`, or unlimited for `0`.
pub open spec fn limit_of(opts: RenderOptions) -> nat {
    if opts.width_cells == 0 { usize::MAX as nat } else { opts.width_cells as nat }
}

/// The character sequences of a list of strings.
pub open spec fn strings_view(v: Seq<String>) -> Seq<Seq<char>> {
    v.map_values(|l: String| l@)
}

/// `lines` are the rows `raw`, each followed by the blanks that bring its
/// display width to `w`, the width of the widest row.
pub open spec fn padded_rows(lines: Seq<Seq<char>>, raw: Seq<Seq<char>>, w: nat) -> bool {
    &&& lines.len() == raw.len()
    &&& forall|i: int| 0 <= i < raw.len() ==> display_width(#[trigger] raw[i]) <= w
    &&& forall|i: int| 0 <= i < raw.len() ==> #[trigger] lines[i] == raw[i] + spaces((w - display_width(raw[i])) as nat)
    &&& raw.len() == 0 ==> w == 0
    &&& raw.len() > 0 ==> exists|i: int| 0 <= i < raw.len() && display_width(#[trigger] raw[i]) == w
}

/// `lines` are rows padded to a common width of at most `limit` cells.
pub open spec fn padded_within(lines: Seq<Seq<char>>, limit: nat) -> bool {
    exists|raw: Seq<Seq<char>>, w: nat| w <= limit && #[trigger] padded_rows(lines, raw, w)
}

/// The label widths tried, in order: `first`, then 24, 16, 12, 8, 6 and 3
/// cells, leaving out 0 and a width equal to the one tried just before.
pub open spec fn attempts_spec(first: usize) -> Seq<usize> {
    let cands = seq![first, 24usize, 16usize, 12usize, 8usize, 6usize, 3usize];
    attempts_upto(cands, 7)
}

/// The first `k` of `cands`, without zeros and without repeats of the one
/// just before.
pub open spec fn attempts_upto(cands: Seq<usize>, k: nat) -> Seq<usize>
    decreases k,
{
    if k == 0 {
        Seq::empty()
    } else {
        let p = attempts_upto(cands, (k - 1) as nat);
        let m = cands[k - 1];
        if m >= 1 && (p.len() == 0 || p.last() != m) { p.push(m) } else { p }
    }
}

/// `lines`, each followed by the blanks that bring it to `w` cells.
pub open spec fn pad_all(lines: Seq<Seq<char>>, w: nat) -> Seq<Seq<char>> {
    lines.map_values(|l: Seq<char>| l + spaces((w - display_width(l)) as nat))
}

/// The outcome of trying `attempts[a..]`: the first drawing whose widest
/// row fits in `limit`, padded to that width; else too wide, reporting the
/// narrowest drawing seen (`narrowest` so far).
pub open spec fn render_from(d: Diagram, unicode: bool, limit: nat, attempts: Seq<usize>, a: nat, narrowest: usize) -> Result<Seq<Seq<char>>, NativeError>
    decreases attempts.len() - a,
{
    if a >= attempts.len() {
        Err(NativeError::TooWide { needed: narrowest, available: limit as usize })
    } else {
        match paint_spec(d, unicode, attempts[a as int]) {
            Some(ls) => {
                let w = widest_width(ls);
                if w <= limit {
                    Ok(pad_all(ls, w))
                } else {
                    render_from(d, unicode, limit, attempts, a + 1, if w < narrowest { w as usize } else { narrowest })
                }
            },
            None => render_from(d, unicode, limit, attempts, a + 1, narrowest),
        }
    }
}

/// The outcome of [`render`].
pub open spec fn render_spec(d: Diagram, opts: RenderOptions) -> Result<Seq<Seq<char>>, NativeError> {
    if d.nodes@.len() == 0 {
        Err(NativeError::Empty)
    } else {
        render_from(d, opts.unicode_box, limit_of(opts), attempts_spec(opts.max_label_width), 0, usize::MAX)
    }
}

/// Renders `diagram` into padded terminal lines.
///
/// Labels are wrapped at `max_label_width` first, then at 24, 16, 12, 8, 6
/// and 3 cells; the first attempt whose widest row fits the column limit is
/// returned, every row padded with blanks to the width of the widest. A
/// diagram without nodes is refused with [`NativeError::Empty`]; when no
/// attempt fits, [`NativeError::TooWide`] reports the narrowest attempt.
pub fn render(diagram: &Diagram, opts: &RenderOptions) -> (r: Result<Vec<String>, NativeError>)
    requires
        diagram_fits(*diagram),
    ensures
        (r matches Err(NativeError::Empty)) <==> diagram.nodes@.len() == 0,
        r matches Ok(lines) ==> padded_within(strings_view(lines@), limit_of(*opts)),
        r matches Err(NativeError::TooWide { needed, available }) ==> available == limit_of(*opts)
            && (needed > available || needed == usize::MAX),
        match render_spec(*diagram, *opts) {
            Ok(ls) => r matches Ok(lines) && strings_view(lines@) == ls,
            Err(e) => r == Err::<Vec<String>, NativeError>(e),
        },
{
    if diagram.nodes.len() == 0 {
        return Err(NativeError::Empty);
    }
    let limit = if opts.width_cells == 0 { usize::MAX } else { opts.width_cells };
    let candidates: [usize; 7] = [opts.max_label_width, 24, 16, 12, 8, 6, 3];
    let mut attempts: Vec<usize> = Vec::new();
    let ghost cands = seq![opts.max_label_width, 24usize, 16usize, 12usize, 8usize, 6usize, 3usize];
    proof {
        assert(candidates@ == cands);
    }
    let mut c: usize = 0;
    while c < 7
        invariant
            c <= 7,
            candidates@ == cands,
            attempts@ == attempts_upto(cands, c as nat),
        decreases 7 - c,
    {
        let m = candidates[c];
        if m >= 1 && (attempts.len() == 0 || attempts[attempts.len() - 1] != m) {
            attempts.push(m);
        }
        c += 1;
    }
    let mut narrowest = usize::MAX;
    let mut a: usize = 0;
    while a < attempts.len()
        invariant
            a <= attempts@.len(),
            diagram_fits(*diagram),
            limit == limit_of(*opts),
            diagram.nodes@.len() > 0,
            narrowest > limit || narrowest == usize::MAX,
            attempts@ == attempts_spec(opts.max_label_width),
            render_from(*diagram, opts.unicode_box, limit as nat, attempts@, a as nat, narrowest)
                == render_spec(*diagram, *opts),
        decreases attempts@.len() - a,
    {
        match layout_and_paint(diagram, opts, attempts[a]) {
            Some(lines) => {
                let w = max_width(&lines);
                if w <= limit {
                    let mut out: Vec<String> = Vec::new();
                    let mut k: usize = 0;
                    while k < lines.len()
                        invariant
                            k <= lines@.len(),
                            out@.len() == k,
                            forall|i: int| 0 <= i < lines@.len() ==> fits((#[trigger] lines@[i])@),
                            forall|i: int| 0 <= i < lines@.len() ==> display_width((#[trigger] lines@[i])@) <= w,
                            forall|i: int| 0 <= i < k ==> (#[trigger] out@[i])@ == lines@[i]@ + spaces(
                                (w - display_width(lines@[i]@)) as nat,
                            ),
                        decreases lines@.len() - k,
                    {
                        let padded = pad_to_width(lines[k].as_str(), w);
                        out.push(padded);
                        k += 1;
                    }
                    proof {
                        let raw = lines@.map_values(|l: String| l@);
                        let view = strings_view(out@);
                        assert forall|i: int| 0 <= i < raw.len() implies display_width(#[trigger] raw[i]) <= w by {
                            assert(raw[i] == lines@[i]@);
                        }
                        assert forall|i: int| 0 <= i < raw.len() implies #[trigger] view[i] == raw[i]
                            + spaces((w - display_width(raw[i])) as nat) by {
                            assert(raw[i] == lines@[i]@);
                            assert(view[i] == out@[i]@);
                        }
                        if raw.len() > 0 {
                            let i = choose|i: int| 0 <= i < lines@.len() && display_width((#[trigger] lines@[i])@) == w;
                            assert(raw[i] == lines@[i]@);
                            assert(display_width(raw[i]) == w);
                        }
                        assert(padded_rows(view, raw, w as nat));
                        assert((w as nat) <= limit_of(*opts));
                        assert(padded_within(strings_view(out@), limit_of(*opts)));
                        assert(strings_view(out@) =~= pad_all(raw, w as nat));
                    }
                    return Ok(out);
                }
                if w < narrowest {
                    narrowest = w;
                }
            },
            None => {},
        }
        a += 1;
    }
    Err(NativeError::TooWide { needed: narrowest, available: limit })
}


proof fn lemma_widest_width(ls: Seq<Seq<char>>)
    ensures
        forall|i: int| 0 <= i < ls.len() ==> display_width(#[trigger] ls[i]) <= widest_width(ls),
        ls.len() == 0 ==> widest_width(ls) == 0,
        ls.len() > 0 ==> exists|i: int| 0 <= i < ls.len() && display_width(#[trigger] ls[i]) == widest_width(ls),
    decreases ls.len(),
{
    if ls.len() > 0 {
        let init = ls.drop_last();
        lemma_widest_width(init);
        assert forall|i: int| 0 <= i < ls.len() implies display_width(#[trigger] ls[i]) <= widest_width(ls) by {
            if i < init.len() {
                assert(ls[i] == init[i]);
            }
        }
        if display_width(ls.last()) > widest_width(init) {
            assert(display_width(ls[ls.len() - 1]) == widest_width(ls));
        } else if init.len() > 0 {
            let i = choose|i: int| 0 <= i < init.len() && display_width(#[trigger] init[i]) == widest_width(init);
            assert(ls[i] == init[i]);
        } else {
            assert(display_width(ls[0]) == widest_width(ls));
        }
    }
}

proof fn lemma_render_from_padded(d: Diagram, unicode: bool, limit: nat, attempts: Seq<usize>, a: nat, narrowest: usize)
    ensures
        render_from(d, unicode, limit, attempts, a, narrowest) matches Ok(ls) ==> padded_within(ls, limit),
    decreases attempts.len() - a,
{
    if a < attempts.len() {
        match paint_spec(d, unicode, attempts[a as int]) {
            Some(ls) => {
                let w = widest_width(ls);
                if w <= limit {
                    lemma_widest_width(ls);
                    let out = pad_all(ls, w);
                    assert(padded_rows(out, ls, w));
                } else {
                    lemma_render_from_padded(d, unicode, limit, attempts, a + 1, if w < narrowest { w as usize } else { narrowest });
                }
            },
            None => lemma_render_from_padded(d, unicode, limit, attempts, a + 1, narrowest),
        }
    }
}

/// The lines of a drawn diagram share one width, no wider than the
/// requested width: each is a row of the drawing followed by the blanks
/// that bring it to the width of the widest row, and that width is within
/// the limit (no limit for a width of 0).
pub proof fn law_drawn_lines_share_one_width(d: Diagram, opts: RenderOptions)
    ensures
        render_spec(d, opts) matches Ok(ls) ==> padded_within(ls, limit_of(opts)),
{
    if d.nodes@.len() > 0 {
        lemma_render_from_padded(d, opts.unicode_box, limit_of(opts), attempts_spec(opts.max_label_width), 0, usize::MAX);
    }
}


/// The three drawn edge styles look different: with box drawing, solid,
/// dotted and thick edges use pairwise different horizontal and vertical
/// line glyphs; in ASCII their horizontal glyphs differ, and a dotted edge's
/// vertical glyph differs from the others'.
pub proof fn law_edge_styles_are_distinguishable()
    ensures
        glyphs_spec(EdgeStyle::Dotted, true).0 != glyphs_spec(EdgeStyle::Solid, true).0,
        glyphs_spec(EdgeStyle::Dotted, true).0 != glyphs_spec(EdgeStyle::Thick, true).0,
        glyphs_spec(EdgeStyle::Solid, true).0 != glyphs_spec(EdgeStyle::Thick, true).0,
        glyphs_spec(EdgeStyle::Dotted, true).1 != glyphs_spec(EdgeStyle::Solid, true).1,
        glyphs_spec(EdgeStyle::Dotted, true).1 != glyphs_spec(EdgeStyle::Thick, true).1,
        glyphs_spec(EdgeStyle::Solid, true).1 != glyphs_spec(EdgeStyle::Thick, true).1,
        glyphs_spec(EdgeStyle::Dotted, false).0 != glyphs_spec(EdgeStyle::Solid, false).0,
        glyphs_spec(EdgeStyle::Dotted, false).0 != glyphs_spec(EdgeStyle::Thick, false).0,
        glyphs_spec(EdgeStyle::Solid, false).0 != glyphs_spec(EdgeStyle::Thick, false).0,
        glyphs_spec(EdgeStyle::Dotted, false).1 != glyphs_spec(EdgeStyle::Solid, false).1,
        glyphs_spec(EdgeStyle::Dotted, false).1 != glyphs_spec(EdgeStyle::Thick, false).1,
{
}


/// The four arrowheads of every edge style point different ways: right,
/// left, down and up are pairwise different glyphs, and none of them is a
/// line glyph of the edge.
pub proof fn law_arrowheads_are_distinct(style: EdgeStyle, unicode: bool)
    ensures
        ({
            let g = glyphs_spec(style, unicode);
            &&& g.2 != g.3 && g.2 != g.4 && g.2 != g.5 && g.3 != g.4 && g.3 != g.5 && g.4 != g.5
            &&& g.2 != g.0 && g.3 != g.0 && g.4 != g.0 && g.5 != g.0
            &&& g.2 != g.1 && g.3 != g.1 && g.4 != g.1 && g.5 != g.1
        }),
{
}
} // verus!
