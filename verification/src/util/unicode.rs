//! Unicode-aware width, truncation, padding and word wrapping.
//!
//! Every width in the engine is a *display width in terminal cells* measured
//! here. Wide East-Asian characters count as two cells, combining marks as
//! zero, and emoji ZWJ sequences and variation-selector sequences count as one
//! two-cell grapheme cluster.
//!
//! Grapheme segmentation and the width of a single character come from the
//! `unicode-segmentation` and `unicode-width` crates; everything built on top
//! of them is verified here against the segmentation of the input string.
use vstd::prelude::*;
use vstd::seq_lib::lemma_flatten_concat;
use unicode_segmentation::UnicodeSegmentation;
use unicode_width::UnicodeWidthChar;
use crate::layout::inline::{sat_add, sat_sub, split_word_at, split_word_spec};
use crate::util::text::{chars_of, to_owned, push_char, push_chars, push_spaces, push_str, spaces, string_of, is_white, is_whitespace};

verus! {

broadcast use vstd::seq::Seq::group_seq_flatten;

/// Zero-width joiner.
pub const ZWJ: char = '\u{200d}';
/// Emoji presentation selector.
pub const VS16: char = '\u{fe0f}';
/// Text presentation selector.
pub const VS15: char = '\u{fe0e}';

// ---------------------------------------------------------------------------
// The two facts taken from the outside crates
// ---------------------------------------------------------------------------

/// The extended grapheme clusters of a character sequence, as
/// `unicode-segmentation` computes them.
pub uninterp spec fn grapheme_clusters(s: Seq<char>) -> Seq<Seq<char>>;

/// The width `unicode-width` assigns to one character (`None` for controls).
pub uninterp spec fn unicode_char_width(c: char) -> Option<usize>;

/// A segmentation of `s`: non-empty pieces that, concatenated, give back `s`.
pub open spec fn is_segmentation(gs: Seq<Seq<char>>, s: Seq<char>) -> bool {
    &&& gs.flatten() == s
    &&& forall|i: int| 0 <= i < gs.len() ==> #[trigger] gs[i].len() > 0
}

/// The grapheme clusters of `s` (`UnicodeSegmentation::graphemes(s, true)`).
///
/// Trusted: the result is the crate's segmentation of `s`, and, as the
/// iterator hands out consecutive non-empty slices of `s`, the clusters are
/// non-empty and concatenate back to `s`.
#[verifier::external_body]
fn segment(s: &str) -> (out: Vec<String>)
    ensures
        out@.map_values(|g: String| g@) == grapheme_clusters(s@),
        is_segmentation(out@.map_values(|g: String| g@), s@),
{
    s.graphemes(true).map(|g| g.to_string()).collect()
}

/// `UnicodeWidthChar::width(c)`.
///
/// Trusted: the value is the crate's width of `c`; as its source shows, it is
/// `None` exactly for the C0 and C1 control characters (below U+0020 and
/// U+007F..U+009F), `Some(1)` for printable ASCII, and never more than 3.
#[verifier::external_body]
fn char_width_opt(c: char) -> (w: Option<usize>)
    ensures
        w == unicode_char_width(c),
        w is None <==> ((c as u32) < 0x20 || (0x7f <= (c as u32) && (c as u32) < 0xa0)),
        (0x20 <= (c as u32) && (c as u32) < 0x7f) ==> w == Some(1usize),
        w matches Some(n) ==> n <= 3,
{
    UnicodeWidthChar::width(c)
}

// ---------------------------------------------------------------------------
// Model
// ---------------------------------------------------------------------------

/// Inputs whose widths fit comfortably in a `usize` (a machine limit: no
/// string of that many characters fits in memory).
pub open spec fn fits(s: Seq<char>) -> bool {
    s.len() <= usize::MAX / 8
}

/// Cells of one character: its width, controls count zero. (`unicode-width`
/// never reports more than 3; the bound is written out so that sums of widths
/// can be bounded without measuring every character first.)
pub open spec fn char_cells(c: char) -> nat {
    match unicode_char_width(c) {
        Some(w) => if w <= 3 { w as nat } else { 3 },
        None => 0,
    }
}

/// Sum of the cells of the characters of `g`, text selectors excluded.
pub open spec fn cells_sum(g: Seq<char>) -> nat
    decreases g.len(),
{
    if g.len() == 0 {
        0
    } else {
        cells_sum(g.drop_last()) + if g.last() == VS15 {
            0
        } else {
            char_cells(g.last())
        }
    }
}

/// Display width of one grapheme cluster: an emoji sequence (ZWJ or VS16) is
/// two cells, anything else is the sum of its characters' cells.
pub open spec fn cluster_width(g: Seq<char>) -> nat {
    if g.len() == 0 {
        0
    } else if g.contains(ZWJ) || g.contains(VS16) {
        2
    } else {
        cells_sum(g)
    }
}

/// Total display width of a sequence of clusters.
pub open spec fn clusters_width(gs: Seq<Seq<char>>) -> nat
    decreases gs.len(),
{
    if gs.len() == 0 {
        0
    } else {
        clusters_width(gs.drop_last()) + cluster_width(gs.last())
    }
}

/// Printable ASCII (`0x20..=0x7e`): one cell per character.
pub open spec fn is_printable_ascii(c: char) -> bool {
    0x20 <= (c as u32) && (c as u32) < 0x7f
}

pub open spec fn all_printable_ascii(s: Seq<char>) -> bool {
    forall|i: int| 0 <= i < s.len() ==> is_printable_ascii(#[trigger] s[i])
}

/// Display width of a string: one cell per character for printable ASCII,
/// otherwise the sum of its grapheme clusters' widths.
pub open spec fn display_width(s: Seq<char>) -> nat {
    if all_printable_ascii(s) {
        s.len()
    } else {
        clusters_width(grapheme_clusters(s))
    }
}

// ---------------------------------------------------------------------------
// Lemmas
// ---------------------------------------------------------------------------

pub proof fn lemma_cells_sum_bound(g: Seq<char>)
    ensures
        cells_sum(g) <= 3 * g.len(),
    decreases g.len(),
{
    if g.len() > 0 {
        lemma_cells_sum_bound(g.drop_last());
    }
}

pub proof fn lemma_cluster_width_bound(g: Seq<char>)
    ensures
        cluster_width(g) <= 3 * g.len(),
{
    lemma_cells_sum_bound(g);
    if g.contains(ZWJ) || g.contains(VS16) {
        assert(g.len() > 0);
    }
}

pub proof fn lemma_clusters_width_bound(gs: Seq<Seq<char>>)
    ensures
        clusters_width(gs) <= 3 * gs.flatten().len(),
    decreases gs.len(),
{
    if gs.len() > 0 {
        lemma_clusters_width_bound(gs.drop_last());
        lemma_cluster_width_bound(gs.last());
        assert(gs.drop_last().push(gs.last()) == gs);
        gs.drop_last().lemma_flatten_push(gs.last());
    }
}

pub proof fn lemma_clusters_width_push(gs: Seq<Seq<char>>, g: Seq<char>)
    ensures
        clusters_width(gs.push(g)) == clusters_width(gs) + cluster_width(g),
{
    assert(gs.push(g).drop_last() == gs);
}

pub proof fn lemma_clusters_width_take(gs: Seq<Seq<char>>, k: int)
    requires
        0 <= k < gs.len(),
    ensures
        clusters_width(gs.take(k + 1)) == clusters_width(gs.take(k)) + cluster_width(gs[k]),
{
    assert(gs.take(k + 1).drop_last() == gs.take(k));
}

pub proof fn lemma_clusters_width_concat(a: Seq<Seq<char>>, b: Seq<Seq<char>>)
    ensures
        clusters_width(a + b) == clusters_width(a) + clusters_width(b),
    decreases b.len(),
{
    if b.len() == 0 {
        assert(a + b == a);
    } else {
        lemma_clusters_width_concat(a, b.drop_last());
        assert((a + b).drop_last() == a + b.drop_last());
    }
}

pub proof fn lemma_clusters_width_mono(gs: Seq<Seq<char>>, j: int, k: int)
    requires
        0 <= j <= k <= gs.len(),
    ensures
        clusters_width(gs.take(j)) <= clusters_width(gs.take(k)),
    decreases k - j,
{
    if j < k {
        lemma_clusters_width_mono(gs, j, k - 1);
        lemma_clusters_width_take(gs, k - 1);
    }
}

/// The flattening of a segmentation splits at any cluster boundary.
pub proof fn lemma_flatten_split(gs: Seq<Seq<char>>, k: int)
    requires
        0 <= k <= gs.len(),
    ensures
        gs.flatten() == gs.take(k).flatten() + gs.skip(k).flatten(),
{
    assert(gs == gs.take(k) + gs.skip(k));
    lemma_flatten_concat(gs.take(k), gs.skip(k));
}

pub proof fn lemma_flatten_take_push(gs: Seq<Seq<char>>, k: int)
    requires
        0 <= k < gs.len(),
    ensures
        gs.take(k + 1).flatten() == gs.take(k).flatten() + gs[k],
{
    assert(gs.take(k + 1) == gs.take(k).push(gs[k]));
    gs.take(k).lemma_flatten_push(gs[k]);
}

// ---------------------------------------------------------------------------
// Executable functions
// ---------------------------------------------------------------------------

/// Display width of a single character (0 for combining marks and controls).
pub fn char_width(c: char) -> (w: usize)
    ensures
        w == char_cells(c),
        w <= 3,
{
    match char_width_opt(c) {
        Some(w) => w,
        None => 0,
    }
}

/// Whether `c` is printable ASCII (`0x20..=0x7e`).
fn is_printable_ascii_char(c: char) -> (b: bool)
    ensures
        b == is_printable_ascii(c),
{
    let n = c as u32;
    0x20 <= n && n < 0x7f
}

/// Whether every character of `cs` is printable ASCII.
fn all_printable(cs: &[char]) -> (b: bool)
    ensures
        b == all_printable_ascii(cs@),
{
    let mut i: usize = 0;
    while i < cs.len()
        invariant
            i <= cs@.len(),
            forall|j: int| 0 <= j < i ==> is_printable_ascii(#[trigger] cs@[j]),
        decreases cs@.len() - i,
    {
        if !is_printable_ascii_char(cs[i]) {
            return false;
        }
        i += 1;
    }
    true
}

fn contains_char(cs: &[char], c: char) -> (b: bool)
    ensures
        b == cs@.contains(c),
{
    let mut i: usize = 0;
    while i < cs.len()
        invariant
            i <= cs@.len(),
            forall|j: int| 0 <= j < i ==> cs@[j] != c,
        decreases cs@.len() - i,
    {
        if cs[i] == c {
            return true;
        }
        i += 1;
    }
    false
}

/// Width of a cluster given by its characters.
pub fn cluster_cells(g: &[char]) -> (w: usize)
    requires
        fits(g@),
    ensures
        w == cluster_width(g@),
{
    if g.len() == 0 {
        return 0;
    }
    if contains_char(g, ZWJ) || contains_char(g, VS16) {
        return 2;
    }
    let mut w: usize = 0;
    let mut i: usize = 0;
    while i < g.len()
        invariant
            i <= g@.len(),
            fits(g@),
            w == cells_sum(g@.take(i as int)),
        decreases g@.len() - i,
    {
        proof {
            lemma_cells_sum_bound(g@.take(i as int));
            assert(g@.take(i + 1).drop_last() == g@.take(i as int));
        }
        let c = g[i];
        if c != VS15 {
            w = w + char_width(c);
        }
        i += 1;
    }
    assert(g@.take(g@.len() as int) == g@);
    w
}

/// Display width of one grapheme cluster in terminal cells.
///
/// * clusters containing a ZWJ or an emoji presentation selector are treated
///   as a single emoji of width 2,
/// * a cluster whose base character is wide counts 2,
/// * combining marks add nothing,
/// * control characters count 0.
pub fn grapheme_width(cluster: &str) -> (w: usize)
    requires
        fits(cluster@),
    ensures
        w == cluster_width(cluster@),
{
    let cs = chars_of(cluster);
    cluster_cells(cs.as_slice())
}

/// The grapheme clusters of `s`, in order.
pub fn graphemes(s: &str) -> (out: Vec<String>)
    ensures
        out@.map_values(|g: String| g@) == grapheme_clusters(s@),
        is_segmentation(grapheme_clusters(s@), s@),
{
    segment(s)
}

/// The clusters of `s` as character vectors, with their widths.
pub(crate) fn clusters_of(s: &str) -> (out: (Vec<Vec<char>>, Vec<usize>))
    requires
        fits(s@),
    ensures
        out.0@.len() == grapheme_clusters(s@).len(),
        out.1@.len() == out.0@.len(),
        forall|i: int| 0 <= i < out.0@.len() ==> #[trigger] out.0@[i]@ == grapheme_clusters(s@)[i],
        forall|i: int| 0 <= i < out.1@.len() ==> #[trigger] out.1@[i] == cluster_width(grapheme_clusters(s@)[i]),
        is_segmentation(grapheme_clusters(s@), s@),
{
    let strs = segment(s);
    let ghost gs = grapheme_clusters(s@);
    assert(strs@.len() == gs.len()) by {
        assert(strs@.map_values(|g: String| g@).len() == strs@.len());
    }
    let mut cl: Vec<Vec<char>> = Vec::new();
    let mut ws: Vec<usize> = Vec::new();
    let mut i: usize = 0;
    while i < strs.len()
        invariant
            i <= strs@.len(),
            strs@.len() == gs.len(),
            strs@.map_values(|g: String| g@) == gs,
            is_segmentation(gs, s@),
            fits(s@),
            cl@.len() == i,
            ws@.len() == i,
            forall|j: int| 0 <= j < i ==> #[trigger] cl@[j]@ == gs[j],
            forall|j: int| 0 <= j < i ==> #[trigger] ws@[j] == cluster_width(gs[j]),
        decreases strs@.len() - i,
    {
        let cs = chars_of(strs[i].as_str());
        assert(cs@ == gs[i as int]) by {
            assert(strs@.map_values(|g: String| g@)[i as int] == strs@[i as int]@);
        }
        proof {
            gs.lemma_flatten_length_ge_single_element_length(i as int);
            gs.lemma_flatten_and_flatten_alt_are_equivalent();
        }
        let w = cluster_cells(cs.as_slice());
        cl.push(cs);
        ws.push(w);
        i += 1;
    }
    (cl, ws)
}

/// Display width of a string in terminal cells.
pub fn width(s: &str) -> (w: usize)
    requires
        fits(s@),
    ensures
        w == display_width(s@),
        w <= 3 * s@.len(),
{
    let cs = chars_of(s);
    if all_printable(cs.as_slice()) {
        return cs.len();
    }
    let (cl, ws) = clusters_of(s);
    let ghost gs = grapheme_clusters(s@);
    let mut total: usize = 0;
    let mut i: usize = 0;
    proof {
        lemma_clusters_width_bound(gs);
    }
    while i < ws.len()
        invariant
            i <= ws@.len(),
            ws@.len() == gs.len(),
            forall|j: int| 0 <= j < ws@.len() ==> #[trigger] ws@[j] == cluster_width(gs[j]),
            total == clusters_width(gs.take(i as int)),
            clusters_width(gs) <= 3 * gs.flatten().len(),
            gs.flatten() == s@,
            fits(s@),
        decreases ws@.len() - i,
    {
        proof {
            lemma_clusters_width_take(gs, i as int);
            lemma_clusters_width_mono(gs, i + 1, gs.len() as int);
            assert(gs.take(gs.len() as int) == gs);
        }
        total = total + ws[i];
        i += 1;
    }
    assert(gs.take(gs.len() as int) == gs);
    total
}

/// Number of leading clusters of `gs` whose total width stays within `max`.
pub open spec fn fitting_prefix(gs: Seq<Seq<char>>, max: nat) -> nat
    decreases gs.len(),
{
    if gs.len() == 0 {
        0
    } else if cluster_width(gs[0]) > max {
        0
    } else {
        1 + fitting_prefix(gs.drop_first(), (max - cluster_width(gs[0])) as nat)
    }
}

/// `fitting_prefix` is the largest prefix whose width is at most `max`.
pub proof fn lemma_fitting_prefix(gs: Seq<Seq<char>>, max: nat)
    ensures
        fitting_prefix(gs, max) <= gs.len(),
        clusters_width(gs.take(fitting_prefix(gs, max) as int)) <= max,
        fitting_prefix(gs, max) < gs.len() ==> clusters_width(
            gs.take(fitting_prefix(gs, max) + 1 as int),
        ) > max,
    decreases gs.len(),
{
    if gs.len() > 0 && cluster_width(gs[0]) <= max {
        let rest = gs.drop_first();
        let m2 = (max - cluster_width(gs[0])) as nat;
        lemma_fitting_prefix(rest, m2);
        let k = fitting_prefix(rest, m2);
        lemma_width_cons(gs, k as int);
        if k < rest.len() {
            lemma_width_cons(gs, k + 1 as int);
        }
    } else if gs.len() > 0 {
        assert(gs.take(1) == seq![gs[0]]);
        assert(gs.take(1).drop_last() == Seq::<Seq<char>>::empty());
    }
    if gs.len() == 0 {
        assert(gs.take(0) == gs);
    } else if cluster_width(gs[0]) > max {
        assert(gs.take(0) == Seq::<Seq<char>>::empty());
    }
}

/// Width of `g :: rest.take(k)` splits off the head.
proof fn lemma_width_cons(gs: Seq<Seq<char>>, k: int)
    requires
        gs.len() > 0,
        0 <= k <= gs.len() - 1,
    ensures
        clusters_width(gs.take(k + 1)) == cluster_width(gs[0]) + clusters_width(
            gs.drop_first().take(k),
        ),
{
    let one = seq![gs[0]];
    assert(gs.take(k + 1) == one + gs.drop_first().take(k));
    lemma_clusters_width_concat(one, gs.drop_first().take(k));
    assert(one.drop_last() == Seq::<Seq<char>>::empty());
    assert(one.last() == gs[0]);
    assert(clusters_width(one) == clusters_width(one.drop_last()) + cluster_width(one.last()));
}

/// Split `s` at the last grapheme boundary whose prefix width is `<= max`.
///
/// Returns `(head, tail)`; `head` is never wider than `max` and never splits a
/// grapheme cluster. A wide character straddling the limit stays in `tail`.
pub fn split_at_width(s: &str, max: usize) -> (out: (String, String))
    requires
        fits(s@),
    ensures
        ({
            let gs = grapheme_clusters(s@);
            let k = fitting_prefix(gs, max as nat) as int;
            &&& out.0@ == gs.take(k).flatten()
            &&& out.1@ == gs.skip(k).flatten()
        }),
        out.0@ + out.1@ == s@,
        is_segmentation(grapheme_clusters(s@), s@),
{
    let (cl, ws) = clusters_of(s);
    let ghost gs = grapheme_clusters(s@);
    let k = fitting_count(&ws, max);
    proof {
        lemma_fitting_prefix(gs, max as nat);
        assert(ws@.len() == gs.len());
        lemma_flatten_split(gs, k as int);
    }
    let head = join_clusters(&cl, 0, k);
    let tail = join_clusters(&cl, k, cl.len());
    proof {
        assert(cl@.subrange(0, k as int).map_values(|g: Vec<char>| g@) == gs.take(k as int));
        assert(cl@.subrange(k as int, cl@.len() as int).map_values(|g: Vec<char>| g@) == gs.skip(
            k as int,
        ));
    }
    (head, tail)
}

/// Count of leading widths (as cluster widths) fitting within `max`.
pub(crate) fn fitting_count(ws: &Vec<usize>, max: usize) -> (k: usize)
    ensures
        forall|gs: Seq<Seq<char>>|
            gs.len() == ws@.len() && (forall|j: int|
                0 <= j < ws@.len() ==> #[trigger] ws@[j] == cluster_width(gs[j])) ==> k
                == fitting_prefix(gs, max as nat),
        k <= ws@.len(),
{
    let mut used: usize = 0;
    let mut i: usize = 0;
    proof {
        assert forall|gs: Seq<Seq<char>>| gs.len() == ws@.len() implies gs.skip(0) == gs by {}
    }
    while i < ws.len()
        invariant
            i <= ws@.len(),
            used <= max,
            forall|gs: Seq<Seq<char>>|
                gs.len() == ws@.len() && (forall|j: int|
                    0 <= j < ws@.len() ==> #[trigger] ws@[j] == cluster_width(gs[j])) ==> ({
                    &&& fitting_prefix(gs, max as nat) == i + fitting_prefix(
                        gs.skip(i as int),
                        (max - used) as nat,
                    )
                }),
        decreases ws@.len() - i,
    {
        if ws[i] > max - used {
            proof {
                assert forall|gs: Seq<Seq<char>>|
                    gs.len() == ws@.len() && (forall|j: int|
                        0 <= j < ws@.len() ==> #[trigger] ws@[j] == cluster_width(
                            gs[j],
                        )) implies fitting_prefix(gs, max as nat) == i by {
                    assert(gs.skip(i as int)[0] == gs[i as int]);
                    assert(ws@[i as int] == cluster_width(gs[i as int]));
                }
            }
            return i;
        }
        proof {
            assert forall|gs: Seq<Seq<char>>|
                gs.len() == ws@.len() && (forall|j: int|
                    0 <= j < ws@.len() ==> #[trigger] ws@[j] == cluster_width(
                        gs[j],
                    )) implies fitting_prefix(gs, max as nat) == (i + 1) + fitting_prefix(
                    gs.skip(i + 1),
                    (max - (used + ws@[i as int])) as nat,
                ) by {
                assert(gs.skip(i as int)[0] == gs[i as int]);
                assert(ws@[i as int] == cluster_width(gs[i as int]));
                assert(gs.skip(i as int).drop_first() == gs.skip(i + 1));
            }
        }
        used = used + ws[i];
        i += 1;
    }
    proof {
        assert forall|gs: Seq<Seq<char>>|
            gs.len() == ws@.len() && (forall|j: int|
                0 <= j < ws@.len() ==> #[trigger] ws@[j] == cluster_width(
                    gs[j],
                )) implies fitting_prefix(gs, max as nat) == i by {
            assert(gs.skip(i as int).len() == 0);
        }
    }
    i
}

/// Concatenation of the clusters `cl[from..to]` as a string.
pub(crate) fn join_clusters(cl: &Vec<Vec<char>>, from: usize, to: usize) -> (out: String)
    requires
        from <= to <= cl@.len(),
    ensures
        out@ == cl@.subrange(from as int, to as int).map_values(|g: Vec<char>| g@).flatten(),
{
    let mut out = String::new();
    let mut i = from;
    while i < to
        invariant
            from <= i <= to <= cl@.len(),
            out@ == cl@.subrange(from as int, i as int).map_values(|g: Vec<char>| g@).flatten(),
        decreases to - i,
    {
        let ghost before = cl@.subrange(from as int, i as int).map_values(|g: Vec<char>| g@);
        push_chars(&mut out, cl[i].as_slice());
        proof {
            assert(cl@.subrange(from as int, i + 1).map_values(|g: Vec<char>| g@) == before.push(
                cl@[i as int]@,
            ));
            before.lemma_flatten_push(cl@[i as int]@);
        }
        i += 1;
    }
    out
}


/// Truncate `s` to at most `max` cells on a grapheme boundary.
pub fn truncate_to_width(s: &str, max: usize) -> (out: String)
    requires
        fits(s@),
    ensures
        ({
            let gs = grapheme_clusters(s@);
            out@ == gs.take(fitting_prefix(gs, max as nat) as int).flatten()
        }),
        out@.len() <= s@.len(),
{
    split_at_width(s, max).0
}

/// `s` cut to `max` cells: unchanged when it fits, else its widest prefix of
/// whole clusters that leaves room for `ellipsis`, followed by `ellipsis`
/// when that fits at all.
pub open spec fn ellipsized(s: Seq<char>, max: nat, ellipsis: Seq<char>) -> Seq<char> {
    if display_width(s) <= max {
        s
    } else {
        let ew = display_width(ellipsis);
        let keep: nat = if max >= ew { (max - ew) as nat } else { 0 };
        let gs = grapheme_clusters(s);
        let head = gs.take(fitting_prefix(gs, keep) as int).flatten();
        if max >= ew { head + ellipsis } else { head }
    }
}

/// Truncate `s` to `max` cells, appending `ellipsis` if truncation happened.
pub fn truncate_with_ellipsis(s: &str, max: usize, ellipsis: &str) -> (out: String)
    requires
        fits(s@),
        fits(ellipsis@),
    ensures
        out@ == ellipsized(s@, max as nat, ellipsis@),
        display_width(s@) <= max ==> out@ == s@,
        display_width(s@) > max ==> ({
            let ew = display_width(ellipsis@);
            let keep = if max >= ew { max - ew } else { 0 };
            let gs = grapheme_clusters(s@);
            let head = gs.take(fitting_prefix(gs, keep as nat) as int).flatten();
            out@ == if max >= ew { head + ellipsis@ } else { head }
        }),
        out@.len() <= s@.len() + ellipsis@.len(),
{
    if width(s) <= max {
        return crate::util::text::to_owned(s);
    }
    let ew = width(ellipsis);
    let keep = if max >= ew { max - ew } else { 0 };
    let mut out = truncate_to_width(s, keep);
    if max >= ew {
        push_str(&mut out, ellipsis);
    }
    out
}

/// Pad `s` with spaces on the right to exactly `target` cells (a longer string
/// is returned unchanged).
pub fn pad_to_width(s: &str, target: usize) -> (out: String)
    requires
        fits(s@),
    ensures
        display_width(s@) >= target ==> out@ == s@,
        display_width(s@) < target ==> out@ == s@ + spaces((target - display_width(s@)) as nat),
{
    let w = width(s);
    let mut out = crate::util::text::to_owned(s);
    if w < target {
        push_spaces(&mut out, target - w);
    }
    out
}

/// Pad `s` on the left (right-align).
pub fn pad_left_to_width(s: &str, target: usize) -> (out: String)
    requires
        fits(s@),
    ensures
        display_width(s@) >= target ==> out@ == s@,
        display_width(s@) < target ==> out@ == spaces((target - display_width(s@)) as nat) + s@,
{
    let w = width(s);
    if w >= target {
        return crate::util::text::to_owned(s);
    }
    let mut out = String::new();
    push_spaces(&mut out, target - w);
    push_str(&mut out, s);
    out
}

/// Centre `s` within `target` cells.
pub fn center_to_width(s: &str, target: usize) -> (out: String)
    requires
        fits(s@),
    ensures
        display_width(s@) >= target ==> out@ == s@,
        display_width(s@) < target ==> ({
            let gap = (target - display_width(s@)) as nat;
            out@ == spaces(gap / 2) + s@ + spaces((gap - gap / 2) as nat)
        }),
{
    let w = width(s);
    if w >= target {
        return crate::util::text::to_owned(s);
    }
    let left = (target - w) / 2;
    let right = target - w - left;
    let mut out = String::new();
    push_spaces(&mut out, left);
    push_str(&mut out, s);
    push_spaces(&mut out, right);
    out
}

/// Whether a cluster is exactly one tab.
pub open spec fn is_tab(g: Seq<char>) -> bool {
    g == seq!['\t']
}

/// Tab expansion of the clusters `gs` starting at column `col`.
pub open spec fn expand_from(gs: Seq<Seq<char>>, tab: nat, col: nat) -> Seq<char>
    recommends
        tab > 0,
    decreases gs.len(),
{
    if gs.len() == 0 || tab == 0 {
        Seq::empty()
    } else if is_tab(gs[0]) {
        let n = (tab - col % tab) as nat;
        spaces(n) + expand_from(gs.drop_first(), tab, col + n)
    } else {
        gs[0] + expand_from(gs.drop_first(), tab, col + cluster_width(gs[0]))
    }
}

/// Expand tabs to the next multiple of `tab_width` (minimum 1).
pub fn expand_tabs(line: &str, tab_width: usize) -> (out: String)
    requires
        fits(line@),
        line@.contains('\t') ==> line@.len() * (tab_width + 4) <= usize::MAX,
    ensures
        !line@.contains('\t') ==> out@ == line@,
        line@.contains('\t') ==> out@ == expand_from(
            grapheme_clusters(line@),
            if tab_width == 0 { 1 } else { tab_width as nat },
            0,
        ),
{
    let cs = chars_of(line);
    if !contains_char(cs.as_slice(), '\t') {
        return crate::util::text::to_owned(line);
    }
    let tab = if tab_width == 0 { 1 } else { tab_width };
    let (cl, ws) = clusters_of(line);
    let ghost gs = grapheme_clusters(line@);
    let mut out = String::new();
    let mut col: usize = 0;
    let mut i: usize = 0;
    let tab_cluster: Vec<char> = vec!['\t'];
    proof {
        assert(gs.skip(0) == gs);
        assert(gs.take(0).flatten().len() == 0);
    }
    while i < cl.len()
        invariant
            i <= cl@.len(),
            cl@.len() == gs.len(),
            ws@.len() == gs.len(),
            tab_cluster@ == seq!['\t'],
            forall|j: int| 0 <= j < cl@.len() ==> #[trigger] cl@[j]@ == gs[j],
            forall|j: int| 0 <= j < ws@.len() ==> #[trigger] ws@[j] == cluster_width(gs[j]),
            is_segmentation(gs, line@),
            tab > 0,
            tab as int == (if tab_width == 0 { 1 } else { tab_width as int }),
            line@.len() * (tab_width + 4) <= usize::MAX,
            col <= gs.take(i as int).flatten().len() * (tab + 3),
            out@ + expand_from(gs.skip(i as int), tab as nat, col as nat) == expand_from(
                gs,
                tab as nat,
                0,
            ),
        decreases cl@.len() - i,
    {
        proof {
            lemma_flatten_take_push(gs, i as int);
            lemma_flatten_split(gs, i + 1);
            lemma_cluster_width_bound(gs[i as int]);
            assert(gs.skip(i as int).drop_first() == gs.skip(i + 1));
            assert(gs.skip(i as int)[0] == gs[i as int]);
            let a = gs.take(i as int).flatten().len();
            let b = gs[i as int].len();
            let t = tab as int + 3;
            assert(b >= 1);
            assert((a + b) * t == a * t + b * t) by (nonlinear_arith);
            assert(b * t >= t) by (nonlinear_arith) requires b >= 1, t >= 0;
            assert(b * t >= 3 * b) by (nonlinear_arith) requires b >= 1, t >= 3;
            assert(a + b <= line@.len());
            assert((a + b) * t <= line@.len() * (tab_width + 4)) by (nonlinear_arith)
                requires a + b <= line@.len(), t <= tab_width + 4, a + b >= 0, t >= 0;
        }
        if crate::util::text::chars_eq(cl[i].as_slice(), tab_cluster.as_slice()) {
            let n = tab - (col % tab);
            push_spaces(&mut out, n);
            col = col + n;
        } else {
            push_chars(&mut out, cl[i].as_slice());
            col = col + ws[i];
        }
        i += 1;
    }
    assert(gs.skip(gs.len() as int).len() == 0);
    out
}

/// The columns `[start, end)` of the clusters `gs` laid out from column `col`,
/// appended to `acc`: fully visible clusters are copied, a wide cluster cut by
/// an edge contributes one space per visible cell, and a zero-width cluster
/// follows the cluster it attaches to.
pub open spec fn slice_from(
    gs: Seq<Seq<char>>,
    col: nat,
    start: nat,
    end: nat,
    acc: Seq<char>,
) -> Seq<char>
    decreases gs.len(),
{
    if gs.len() == 0 {
        acc
    } else {
        let g = gs[0];
        let gw = cluster_width(g);
        let rest = gs.drop_first();
        if gw == 0 {
            slice_from(
                rest,
                col,
                start,
                end,
                if col > start && col <= end && acc.len() > 0 {
                    acc + g
                } else {
                    acc
                },
            )
        } else if col + gw <= start || col >= end {
            slice_from(rest, col + gw, start, end, acc)
        } else if col >= start && col + gw <= end {
            slice_from(rest, col + gw, start, end, acc + g)
        } else {
            let hi = if col + gw < end { col + gw } else { end };
            let lo = if col > start { col } else { start };
            slice_from(rest, col + gw, start, end, acc + spaces((hi - lo) as nat))
        }
    }
}

/// The columns `[start, start + len)` of `s` (the end saturating at the
/// largest `usize`).
pub open spec fn columns_of(s: Seq<char>, start: usize, len: usize) -> Seq<char> {
    if len == 0 {
        Seq::empty()
    } else {
        slice_from(
            grapheme_clusters(s),
            0,
            start as nat,
            (if start + len <= usize::MAX { (start + len) as int } else { usize::MAX as int }) as nat,
            Seq::empty(),
        )
    }
}

/// Extract the columns `[start, start + len)` of `s` as a new string.
///
/// If a wide grapheme straddles either cut, it is replaced by spaces for the
/// covered half so that the result is exactly as wide as the visible region
/// and no character is ever split in half.
pub fn slice_columns(s: &str, start: usize, len: usize) -> (out: String)
    requires
        fits(s@),
    ensures
        out@ == columns_of(s@, start, len),
{
    if len == 0 {
        return String::new();
    }
    let end = start.saturating_add(len);
    let (cl, ws) = clusters_of(s);
    let ghost gs = grapheme_clusters(s@);
    let mut out = String::new();
    let mut col: usize = 0;
    let mut i: usize = 0;
    proof {
        assert(gs.skip(0) == gs);
        lemma_clusters_width_bound(gs);
        assert(gs.take(0) == Seq::<Seq<char>>::empty());
        assert(gs.take(0).flatten() =~= Seq::<char>::empty());
    }
    while i < cl.len()
        invariant
            i <= cl@.len(),
            cl@.len() == gs.len(),
            ws@.len() == gs.len(),
            forall|j: int| 0 <= j < cl@.len() ==> #[trigger] cl@[j]@ == gs[j],
            forall|j: int| 0 <= j < ws@.len() ==> #[trigger] ws@[j] == cluster_width(gs[j]),
            is_segmentation(gs, s@),
            fits(s@),
            clusters_width(gs) <= 3 * gs.flatten().len(),
            col == clusters_width(gs.take(i as int)),
            start <= end,
            slice_from(gs.skip(i as int), col as nat, start as nat, end as nat, out@)
                == slice_from(gs, 0, start as nat, end as nat, Seq::empty()),
        decreases cl@.len() - i,
    {
        proof {
            lemma_clusters_width_take(gs, i as int);
            lemma_clusters_width_mono(gs, i + 1, gs.len() as int);
            assert(gs.take(gs.len() as int) == gs);
            assert(gs.skip(i as int).drop_first() == gs.skip(i + 1));
            assert(gs.skip(i as int)[0] == gs[i as int]);
        }
        let gw = ws[i];
        if gw == 0 {
            if col > start && col <= end && !out.as_str().is_empty() {
                push_chars(&mut out, cl[i].as_slice());
            }
            i += 1;
            continue;
        }
        let g_end = col + gw;
        if g_end <= start || col >= end {
            col = g_end;
            i += 1;
            continue;
        }
        if col >= start && g_end <= end {
            push_chars(&mut out, cl[i].as_slice());
        } else {
            let hi = if g_end < end { g_end } else { end };
            let lo = if col > start { col } else { start };
            push_spaces(&mut out, hi - lo);
        }
        col = g_end;
        i += 1;
    }
    assert(gs.skip(gs.len() as int).len() == 0);
    out
}


// ---------------------------------------------------------------------------
// Tokens
// ---------------------------------------------------------------------------

/// Kind of a token produced by [`tokenize`].
#[derive(Debug, Clone, Copy, PartialEq, Eq, Structural)]
pub enum TokenKind {
    /// A run of non-space characters that should not be broken unless it does
    /// not fit on a line by itself.
    Word,
    /// A run of whitespace: a break opportunity, dropped at line ends.
    Space,
}

/// A token with its display width.
#[derive(Debug, Clone, PartialEq, Eq)]
pub struct Token {
    /// Token text.
    pub text: String,
    /// Token class.
    pub kind: TokenKind,
    /// Display width.
    pub width: usize,
}

/// A token as plain values: its characters, its kind and its width.
pub open spec fn token_view(t: Token) -> (Seq<char>, TokenKind, nat) {
    (t.text@, t.kind, t.width as nat)
}

/// Whether every character of `g` is white space.
pub open spec fn is_space_cluster(g: Seq<char>) -> bool {
    forall|i: int| 0 <= i < g.len() ==> #[trigger] is_white(g[i])
}

/// The kind a cluster gives the token it belongs to.
pub open spec fn cluster_kind(g: Seq<char>) -> TokenKind {
    if is_space_cluster(g) {
        TokenKind::Space
    } else {
        TokenKind::Word
    }
}

/// A wide cluster (two or more cells, not space) is a token of its own.
pub open spec fn is_wide_word(g: Seq<char>) -> bool {
    cluster_width(g) >= 2 && cluster_kind(g) == TokenKind::Word
}

/// `acc` with the token under construction appended, if there is one.
pub open spec fn flush_token(
    acc: Seq<(Seq<char>, TokenKind, nat)>,
    has: bool,
    kind: TokenKind,
    text: Seq<char>,
    w: nat,
) -> Seq<(Seq<char>, TokenKind, nat)> {
    if has && text.len() > 0 {
        acc.push((text, kind, w))
    } else {
        acc
    }
}

/// Tokens of the clusters `gs`, continuing from a token under construction
/// (`has`, `kind`, `text`, `w`) after the finished tokens `acc`.
///
/// A cluster extends the current token when it is of the same kind and not
/// wide; otherwise the current token ends and a new one starts with it. A
/// wide word cluster also ends its own token at once.
pub open spec fn tokens_from(
    gs: Seq<Seq<char>>,
    has: bool,
    kind: TokenKind,
    text: Seq<char>,
    w: nat,
    acc: Seq<(Seq<char>, TokenKind, nat)>,
) -> Seq<(Seq<char>, TokenKind, nat)>
    decreases gs.len(),
{
    if gs.len() == 0 {
        flush_token(acc, has, kind, text, w)
    } else {
        let g = gs[0];
        let gw = cluster_width(g);
        let k = cluster_kind(g);
        let wide = is_wide_word(g);
        let rest = gs.drop_first();
        let extend = has && kind == k && !wide;
        let text1 = if extend { text + g } else { g };
        let w1 = if extend { w + gw } else { gw };
        let acc1 = if extend { acc } else { flush_token(acc, has, kind, text, w) };
        if wide {
            tokens_from(rest, false, k, Seq::empty(), 0, flush_token(acc1, true, k, text1, w1))
        } else {
            tokens_from(rest, true, k, text1, w1, acc1)
        }
    }
}

/// The tokens of a string.
pub open spec fn tokens_of(s: Seq<char>) -> Seq<(Seq<char>, TokenKind, nat)> {
    tokens_from(grapheme_clusters(s), false, TokenKind::Word, Seq::empty(), 0, Seq::empty())
}

/// Whether every character of `cs` is white space.
fn all_white(cs: &[char]) -> (b: bool)
    ensures
        b == is_space_cluster(cs@),
{
    let mut i: usize = 0;
    while i < cs.len()
        invariant
            i <= cs@.len(),
            forall|j: int| 0 <= j < i ==> #[trigger] is_white(cs@[j]),
        decreases cs@.len() - i,
    {
        if !is_whitespace(cs[i]) {
            return false;
        }
        i += 1;
    }
    true
}

/// Split text into word/space tokens.
///
/// Break opportunities are whitespace boundaries *and* the boundaries around
/// wide (East-Asian / emoji) graphemes, so CJK text wraps at any character as
/// required for wide characters.
pub fn tokenize(s: &str) -> (out: Vec<Token>)
    requires
        fits(s@),
    ensures
        out@.map_values(|t: Token| token_view(t)) == tokens_of(s@),
        forall|k: int| 0 <= k < out@.len() ==> (#[trigger] out@[k]).text@.len() <= s@.len(),
{
    let (cl, ws) = clusters_of(s);
    let ghost gs = grapheme_clusters(s@);
    let mut out: Vec<Token> = Vec::new();
    let mut has = false;
    let mut kind = TokenKind::Word;
    let mut text = String::new();
    let mut w: usize = 0;
    let mut i: usize = 0;
    proof {
        assert(gs.skip(0) == gs);
        lemma_clusters_width_bound(gs);
        assert(gs.take(0) == Seq::<Seq<char>>::empty());
        assert(gs.take(0).flatten() =~= Seq::<char>::empty());
        assert(out@.map_values(|t: Token| token_view(t)) == Seq::<(Seq<char>, TokenKind, nat)>::empty());
        assert(text@ == Seq::<char>::empty());
    }
    while i < cl.len()
        invariant
            i <= cl@.len(),
            cl@.len() == gs.len(),
            ws@.len() == gs.len(),
            forall|j: int| 0 <= j < cl@.len() ==> #[trigger] cl@[j]@ == gs[j],
            forall|j: int| 0 <= j < ws@.len() ==> #[trigger] ws@[j] == cluster_width(gs[j]),
            fits(s@),
            gs.flatten() == s@,
            clusters_width(gs) <= 3 * gs.flatten().len(),
            w <= clusters_width(gs.take(i as int)),
            tokens_from(gs.skip(i as int), has, kind, text@, w as nat,
                out@.map_values(|t: Token| token_view(t))) == tokens_of(s@),
            text@.len() <= gs.take(i as int).flatten().len(),
            gs.take(i as int).flatten().len() <= s@.len(),
            forall|k: int| 0 <= k < out@.len() ==> (#[trigger] out@[k]).text@.len() <= s@.len(),
        decreases cl@.len() - i,
    {
        proof {
            lemma_flatten_take_push(gs, i as int);
            lemma_flatten_split(gs, i + 1);
            lemma_clusters_width_take(gs, i as int);
            lemma_clusters_width_mono(gs, i + 1, gs.len() as int);
            assert(gs.take(gs.len() as int) == gs);
            assert(gs.skip(i as int).drop_first() == gs.skip(i + 1));
            assert(gs.skip(i as int)[0] == gs[i as int]);
        }
        let gw = ws[i];
        let space = all_white(cl[i].as_slice());
        let k = if space { TokenKind::Space } else { TokenKind::Word };
        let wide = gw >= 2 && !space;
        let same = match (kind, k) {
            (TokenKind::Word, TokenKind::Word) => true,
            (TokenKind::Space, TokenKind::Space) => true,
            _ => false,
        };
        if has && same && !wide {
            push_chars(&mut text, cl[i].as_slice());
            w = w + gw;
        } else {
            let ghost before = out@.map_values(|t: Token| token_view(t));
            if has && !text.as_str().is_empty() {
                let t = Token { text, kind, width: w };
                out.push(t);
                assert(out@.map_values(|t: Token| token_view(t)) == before.push(token_view(t)));
            }
            text = crate::util::text::string_of(cl[i].as_slice());
            w = gw;
        }
        has = true;
        kind = k;
        if wide {
            let ghost before = out@.map_values(|t: Token| token_view(t));
            if !text.as_str().is_empty() {
                let t = Token { text, kind, width: w };
                out.push(t);
                assert(out@.map_values(|t: Token| token_view(t)) == before.push(token_view(t)));
            }
            text = String::new();
            w = 0;
            has = false;
        }
        i += 1;
    }
    let ghost before = out@.map_values(|t: Token| token_view(t));
    proof {
        assert(gs.take(i as int) == gs);
    }
    if has && !text.as_str().is_empty() {
        let t = Token { text, kind, width: w };
        out.push(t);
        assert(out@.map_values(|t: Token| token_view(t)) == before.push(token_view(t)));
    }
    out
}


// ---------------------------------------------------------------------------
// Word wrapping
// ---------------------------------------------------------------------------

proof fn lemma_cells_printable(g: Seq<char>)
    requires
        all_printable_ascii(g),
        forall|c: char| is_printable_ascii(c) ==> #[trigger] unicode_char_width(c) == Some(1usize),
    ensures
        cells_sum(g) == g.len(),
    decreases g.len(),
{
    if g.len() > 0 {
        assert(all_printable_ascii(g.drop_last()));
        lemma_cells_printable(g.drop_last());
        assert(is_printable_ascii(g[g.len() - 1]));
        assert(g.last() != VS15);
    }
}

proof fn lemma_clusters_printable(gs: Seq<Seq<char>>)
    requires
        all_printable_ascii(gs.flatten()),
        forall|c: char| is_printable_ascii(c) ==> #[trigger] unicode_char_width(c) == Some(1usize),
    ensures
        clusters_width(gs) == gs.flatten().len(),
    decreases gs.len(),
{
    if gs.len() > 0 {
        let init = gs.drop_last();
        let g = gs.last();
        assert(gs == init.push(g));
        init.lemma_flatten_push(g);
        assert(gs.flatten() == init.flatten() + g);
        assert(all_printable_ascii(init.flatten())) by {
            assert forall|i: int| 0 <= i < init.flatten().len() implies is_printable_ascii(#[trigger] init.flatten()[i]) by {
                assert(gs.flatten()[i] == init.flatten()[i]);
            }
        }
        assert(all_printable_ascii(g)) by {
            assert forall|i: int| 0 <= i < g.len() implies is_printable_ascii(#[trigger] g[i]) by {
                assert(gs.flatten()[init.flatten().len() + i] == g[i]);
            }
        }
        lemma_clusters_printable(init);
        lemma_cells_printable(g);
        if g.contains(ZWJ) {
            let j = choose|j: int| 0 <= j < g.len() && g[j] == ZWJ;
            assert(is_printable_ascii(g[j]));
        }
        if g.contains(VS16) {
            let j = choose|j: int| 0 <= j < g.len() && g[j] == VS16;
            assert(is_printable_ascii(g[j]));
        }
    }
}

/// The display width of a string is the sum of the widths of its grapheme
/// clusters: the one-cell-per-character count of printable ASCII is what
/// the clusters give, however the text is segmented. Stated for the
/// segmentation `unicode-segmentation` gives and the widths
/// `unicode-width` gives printable ASCII, as the trusted wrappers report
/// them.
pub proof fn law_width_is_sum_of_cluster_widths(s: Seq<char>)
    requires
        is_segmentation(grapheme_clusters(s), s),
        forall|c: char| is_printable_ascii(c) ==> #[trigger] unicode_char_width(c) == Some(1usize),
    ensures
        display_width(s) == clusters_width(grapheme_clusters(s)),
{
    if all_printable_ascii(s) {
        lemma_clusters_printable(grapheme_clusters(s));
    }
}

/// The state of a text wrap: finished lines, the current line, its width
/// and the pending blanks.
pub type TextWrapState = (Seq<Seq<char>>, Seq<char>, usize, usize);

/// A word placed at the end of the current line: whole when it fits in the
/// room `a - w` left, else its fitting part (at least one cluster on an
/// empty line), then a new line for the rest; `fuel` bounds the steps.
pub open spec fn text_word_spec(
    lines: Seq<Seq<char>>,
    cur: Seq<char>,
    w: usize,
    rest: Seq<char>,
    a: usize,
    rest_w: usize,
    fuel: nat,
) -> (Seq<Seq<char>>, Seq<char>, usize)
    decreases fuel,
{
    if fuel == 0 {
        (lines, cur, w)
    } else {
        let room = sat_sub(a, w);
        let rwd = display_width(rest);
        if rwd <= room {
            (lines, cur + rest, sat_add(w, rwd as usize))
        } else {
            let (head, tail) = split_word_spec(rest, room, cur.len() == 0);
            let lines1 = lines.push(cur + head);
            if tail.len() == 0 {
                (lines1, Seq::empty(), 0)
            } else {
                text_word_spec(lines1, Seq::empty(), 0, tail, rest_w, rest_w, (fuel - 1) as nat)
            }
        }
    }
}

/// One token placed: blanks after some text become pending, each run
/// counting at most `rest_w` cells; a word starts a new line when it does
/// not fit after the pending blanks, else the blanks are written out
/// first; then the word is placed.
pub open spec fn text_token_spec(st: TextWrapState, tok: (Seq<char>, TokenKind, nat), first_w: usize, rest_w: usize) -> TextWrapState {
    let (lines, cur, w, pending) = st;
    match tok.1 {
        TokenKind::Space => if cur.len() > 0 {
            (lines, cur, w, sat_add(pending, if tok.2 < rest_w { tok.2 as usize } else { rest_w }))
        } else {
            st
        },
        TokenKind::Word => {
            let a = if lines.len() == 0 { first_w } else { rest_w };
            let over = w + pending + tok.2 > a;
            let (lines1, cur1, w1, a1) = if cur.len() > 0 && over {
                (lines.push(cur), Seq::empty(), 0usize, rest_w)
            } else if cur.len() > 0 && pending > 0 {
                (lines, cur + spaces(pending as nat), sat_add(w, pending), a)
            } else {
                (lines, cur, w, a)
            };
            let r = text_word_spec(lines1, cur1, w1, tok.0, a1, rest_w, 2 * tok.0.len() + 2);
            (r.0, r.1, r.2, 0)
        },
    }
}

/// The first `k` tokens placed.
pub open spec fn text_tokens_spec(toks: Seq<(Seq<char>, TokenKind, nat)>, k: int, first_w: usize, rest_w: usize) -> TextWrapState
    decreases k,
{
    if k <= 0 {
        (Seq::empty(), Seq::empty(), 0, 0)
    } else {
        text_token_spec(text_tokens_spec(toks, k - 1, first_w, rest_w), toks[k - 1], first_w, rest_w)
    }
}

/// The lines of `text` wrapped greedily at `first_width` cells for the first
/// line and `rest_width` for the others (each at least one): the tokens
/// placed in order, and the current line when it is not empty or is the
/// only one.
pub open spec fn wrap_text_spec(text: Seq<char>, first_width: usize, rest_width: usize) -> Seq<Seq<char>> {
    let fw: usize = if first_width < 1 { 1 } else { first_width };
    let rw: usize = if rest_width < 1 { 1 } else { rest_width };
    let toks = tokens_of(text);
    let st = text_tokens_spec(toks, toks.len() as int, fw, rw);
    if st.1.len() > 0 || st.0.len() == 0 {
        st.0.push(st.1)
    } else {
        st.0
    }
}

/// The characters of each line.
pub open spec fn line_views(v: Seq<String>) -> Seq<Seq<char>> {
    v.map_values(|l: String| l@)
}

/// The test that keeps a character when blanks are dropped.
pub open spec fn not_blank() -> spec_fn(char) -> bool {
    |c: char| !is_white(c)
}

/// `s` without its white space.
pub open spec fn no_blanks(s: Seq<char>) -> Seq<char> {
    s.filter(not_blank())
}

/// The texts of tokens, in order.
pub open spec fn tokens_text(ts: Seq<(Seq<char>, TokenKind, nat)>) -> Seq<char>
    decreases ts.len(),
{
    if ts.len() == 0 {
        Seq::empty()
    } else {
        tokens_text(ts.drop_last()) + ts.last().0
    }
}

/// Every blank token of `ts` is white space only.
pub open spec fn blank_tokens_blank(ts: Seq<(Seq<char>, TokenKind, nat)>) -> bool {
    forall|i: int| 0 <= i < ts.len() && (#[trigger] ts[i]).1 == TokenKind::Space ==> no_blanks(ts[i].0) == Seq::<char>::empty()
}

pub proof fn lemma_no_blanks_add(a: Seq<char>, b: Seq<char>)
    ensures
        no_blanks(a + b) == no_blanks(a) + no_blanks(b),
{
    Seq::filter_distributes_over_add(a, b, not_blank());
}

pub proof fn lemma_white_no_blanks(g: Seq<char>)
    requires
        is_space_cluster(g),
    ensures
        no_blanks(g) == Seq::<char>::empty(),
    decreases g.len(),
{
    reveal(Seq::filter);
    if g.len() > 0 {
        assert(is_space_cluster(g.drop_last()));
        lemma_white_no_blanks(g.drop_last());
        assert(is_white(g[g.len() - 1]));
        assert(!(not_blank())(g.last()));
        assert(g.filter(not_blank()) == g.drop_last().filter(not_blank()));
    } else {
        assert(g =~= Seq::<char>::empty());
    }
}

proof fn lemma_flush_text(acc: Seq<(Seq<char>, TokenKind, nat)>, has: bool, kind: TokenKind, text: Seq<char>, w: nat)
    requires
        has || text.len() == 0,
        blank_tokens_blank(acc),
        has && kind == TokenKind::Space ==> no_blanks(text) == Seq::<char>::empty(),
    ensures
        tokens_text(flush_token(acc, has, kind, text, w)) == tokens_text(acc) + text,
        blank_tokens_blank(flush_token(acc, has, kind, text, w)),
{
    if has && text.len() > 0 {
        let r = acc.push((text, kind, w));
        assert(r.drop_last() == acc);
        assert forall|i: int| 0 <= i < r.len() && (#[trigger] r[i]).1 == TokenKind::Space implies no_blanks(r[i].0)
            == Seq::<char>::empty() by {
            if i < acc.len() {
                assert(r[i] == acc[i]);
            }
        }
    } else {
        assert(tokens_text(acc) + text =~= tokens_text(acc));
    }
}

pub proof fn lemma_tokens_from_text(
    gs: Seq<Seq<char>>,
    has: bool,
    kind: TokenKind,
    text: Seq<char>,
    w: nat,
    acc: Seq<(Seq<char>, TokenKind, nat)>,
)
    requires
        has || text.len() == 0,
        blank_tokens_blank(acc),
        has && kind == TokenKind::Space ==> no_blanks(text) == Seq::<char>::empty(),
    ensures
        blank_tokens_blank(tokens_from(gs, has, kind, text, w, acc)),
        no_blanks(tokens_text(tokens_from(gs, has, kind, text, w, acc))) == no_blanks(tokens_text(acc) + text + gs.flatten()),
    decreases gs.len(),
{
    if gs.len() == 0 {
        lemma_flush_text(acc, has, kind, text, w);
        assert(gs.flatten() == Seq::<char>::empty());
        assert(tokens_text(acc) + text + gs.flatten() =~= tokens_text(acc) + text);
    } else {
        let g = gs[0];
        let gw = cluster_width(g);
        let k = cluster_kind(g);
        let wide = is_wide_word(g);
        let rest = gs.drop_first();
        let extend = has && kind == k && !wide;
        let text1 = if extend { text + g } else { g };
        let w1 = if extend { w + gw } else { gw };
        let acc1 = if extend { acc } else { flush_token(acc, has, kind, text, w) };
        assert(gs.flatten() == g + rest.flatten());
        if k == TokenKind::Space {
            lemma_white_no_blanks(g);
        }
        if extend {
            if k == TokenKind::Space {
                lemma_no_blanks_add(text, g);
            }
            assert(tokens_text(acc1) + text1 =~= tokens_text(acc) + text + g);
        } else {
            lemma_flush_text(acc, has, kind, text, w);
            assert(tokens_text(acc1) + text1 =~= tokens_text(acc) + text + g);
        }
        if wide {
            lemma_flush_text(acc1, true, k, text1, w1);
            lemma_tokens_from_text(rest, false, k, Seq::empty(), 0, flush_token(acc1, true, k, text1, w1));
            assert(tokens_text(flush_token(acc1, true, k, text1, w1)) + Seq::<char>::empty() + rest.flatten() =~= tokens_text(acc)
                + text + gs.flatten());
        } else {
            lemma_tokens_from_text(rest, true, k, text1, w1, acc1);
            assert(tokens_text(acc1) + text1 + rest.flatten() =~= tokens_text(acc) + text + gs.flatten());
        }
    }
}

/// Every grapheme segmentation `unicode-segmentation` gives is one.
pub open spec fn segmentations_hold() -> bool {
    forall|s: Seq<char>| #[trigger] is_segmentation(grapheme_clusters(s), s)
}

pub proof fn lemma_split_word_parts(rest: Seq<char>, room: usize, line_empty: bool)
    requires
        segmentations_hold(),
        rest.len() > 0,
    ensures
        split_word_spec(rest, room, line_empty).0 + split_word_spec(rest, room, line_empty).1 == rest,
        line_empty ==> split_word_spec(rest, room, line_empty).0.len() > 0,
{
    let gs = grapheme_clusters(rest);
    assert(is_segmentation(gs, rest));
    let k = fitting_prefix(gs, room as nat) as int;
    lemma_fitting_prefix(gs, room as nat);
    lemma_flatten_split(gs, k);
    if gs.len() == 0 {
        assert(gs.flatten() =~= Seq::<char>::empty());
    }
    let head = gs.take(k).flatten();
    if head.len() == 0 && line_empty {
        lemma_flatten_split(gs, 1);
        assert(gs.take(1) =~= seq![gs[0]]);
        assert(seq![gs[0]].flatten() =~= gs[0]) by {
            reveal_with_fuel(Seq::flatten, 2);
        }
        assert(gs[0] + rest.subrange(gs[0].len() as int, rest.len() as int) =~= rest);
    }
}

proof fn lemma_word_text(lines: Seq<Seq<char>>, cur: Seq<char>, w: usize, rest: Seq<char>, a: usize, rest_w: usize, fuel: nat)
    requires
        segmentations_hold(),
        fuel >= rest.len() * 2 + (if cur.len() > 0 { 1int } else { 0int }) + 1,
    ensures
        ({
            let r = text_word_spec(lines, cur, w, rest, a, rest_w, fuel);
            r.0.flatten() + r.1 == lines.flatten() + cur + rest
        }),
    decreases fuel,
{
    let room = sat_sub(a, w);
    let rwd = display_width(rest);
    if rwd <= room {
        assert(lines.flatten() + (cur + rest) =~= lines.flatten() + cur + rest);
    } else {
        if rest.len() == 0 {
            assert(display_width(rest) == 0) by {
                assert(all_printable_ascii(rest));
            }
        }
        lemma_split_word_parts(rest, room, cur.len() == 0);
        let (head, tail) = split_word_spec(rest, room, cur.len() == 0);
        let lines1 = lines.push(cur + head);
        lines.lemma_flatten_push(cur + head);
        if tail.len() == 0 {
            assert(lines1.flatten() + Seq::<char>::empty() =~= lines.flatten() + cur + rest);
        } else {
            lemma_word_text(lines1, Seq::empty(), 0, tail, rest_w, rest_w, (fuel - 1) as nat);
            assert(lines1.flatten() + Seq::<char>::empty() + tail =~= lines.flatten() + cur + rest);
        }
    }
}

proof fn lemma_token_text(st: TextWrapState, tok: (Seq<char>, TokenKind, nat), first_w: usize, rest_w: usize)
    requires
        segmentations_hold(),
        tok.1 == TokenKind::Space ==> no_blanks(tok.0) == Seq::<char>::empty(),
    ensures
        ({
            let r = text_token_spec(st, tok, first_w, rest_w);
            no_blanks(r.0.flatten() + r.1) == no_blanks(st.0.flatten() + st.1) + no_blanks(tok.0)
        }),
{
    let (lines, cur, w, pending) = st;
    match tok.1 {
        TokenKind::Space => {
            assert(no_blanks(st.0.flatten() + st.1) + no_blanks(tok.0) =~= no_blanks(st.0.flatten() + st.1));
        },
        TokenKind::Word => {
            let a = if lines.len() == 0 { first_w } else { rest_w };
            let over = w + pending + tok.2 > a;
            let (lines1, cur1, w1, a1) = if cur.len() > 0 && over {
                (lines.push(cur), Seq::<char>::empty(), 0usize, rest_w)
            } else if cur.len() > 0 && pending > 0 {
                (lines, cur + spaces(pending as nat), sat_add(w, pending), a)
            } else {
                (lines, cur, w, a)
            };
            if cur.len() > 0 && over {
                lines.lemma_flatten_push(cur);
                assert(lines1.flatten() + cur1 =~= lines.flatten() + cur);
            } else if cur.len() > 0 && pending > 0 {
                assert(is_space_cluster(spaces(pending as nat))) by {
                    assert forall|i: int| 0 <= i < spaces(pending as nat).len() implies #[trigger] is_white(
                        spaces(pending as nat)[i],
                    ) by {
                        assert((' ' as u32) == 0x20);
                    }
                }
                lemma_white_no_blanks(spaces(pending as nat));
                lemma_no_blanks_add(lines.flatten() + cur, spaces(pending as nat));
                assert(lines1.flatten() + cur1 =~= lines.flatten() + cur + spaces(pending as nat));
            }
            assert(no_blanks(lines1.flatten() + cur1) == no_blanks(lines.flatten() + cur));
            lemma_word_text(lines1, cur1, w1, tok.0, a1, rest_w, 2 * tok.0.len() + 2);
            let r = text_word_spec(lines1, cur1, w1, tok.0, a1, rest_w, 2 * tok.0.len() + 2);
            lemma_no_blanks_add(lines1.flatten() + cur1, tok.0);
        },
    }
}

proof fn lemma_tokens_wrap_text(toks: Seq<(Seq<char>, TokenKind, nat)>, k: int, first_w: usize, rest_w: usize)
    requires
        segmentations_hold(),
        blank_tokens_blank(toks),
        0 <= k <= toks.len(),
    ensures
        ({
            let st = text_tokens_spec(toks, k, first_w, rest_w);
            no_blanks(st.0.flatten() + st.1) == no_blanks(tokens_text(toks.take(k)))
        }),
    decreases k,
{
    if k > 0 {
        lemma_tokens_wrap_text(toks, k - 1, first_w, rest_w);
        lemma_token_text(text_tokens_spec(toks, k - 1, first_w, rest_w), toks[k - 1], first_w, rest_w);
        assert(toks.take(k).drop_last() == toks.take(k - 1));
        lemma_no_blanks_add(tokens_text(toks.take(k - 1)), toks[k - 1].0);
    } else {
        assert(Seq::<Seq<char>>::empty().flatten() + Seq::<char>::empty() =~= Seq::<char>::empty());
        assert(toks.take(0) =~= Seq::<(Seq<char>, TokenKind, nat)>::empty());
    }
}

/// Wrapping keeps the text: leaving out the white space, the wrapped
/// lines read exactly as the text does (blanks between words are the only
/// thing a wrap adds or drops). Stated for the segmentation
/// `unicode-segmentation` gives, as its trusted wrapper reports it.
pub proof fn law_wrap_keeps_the_text(text: Seq<char>, first_width: usize, rest_width: usize)
    requires
        segmentations_hold(),
    ensures
        no_blanks(wrap_text_spec(text, first_width, rest_width).flatten()) == no_blanks(text),
{
    let fw: usize = if first_width < 1 { 1 } else { first_width };
    let rw: usize = if rest_width < 1 { 1 } else { rest_width };
    let gs = grapheme_clusters(text);
    assert(is_segmentation(gs, text));
    lemma_tokens_from_text(gs, false, TokenKind::Word, Seq::empty(), 0, Seq::empty());
    let toks = tokens_of(text);
    assert(tokens_text(Seq::<(Seq<char>, TokenKind, nat)>::empty()) + Seq::<char>::empty() + gs.flatten() =~= text);
    lemma_tokens_wrap_text(toks, toks.len() as int, fw, rw);
    assert(toks.take(toks.len() as int) == toks);
    let st = text_tokens_spec(toks, toks.len() as int, fw, rw);
    if st.1.len() > 0 || st.0.len() == 0 {
        st.0.lemma_flatten_push(st.1);
    } else {
        assert(st.0.flatten() + st.1 =~= st.0.flatten());
    }
}

/// A word placed at the end of the current line (see [`text_word_spec`]).
fn place_text_word(lines: &mut Vec<String>, cur: &mut String, cur_w: &mut usize, word: &String, a: usize, rest_w: usize)
    requires
        fits(word@),
        a >= 1,
        rest_w >= 1,
    ensures
        (line_views(final(lines)@), final(cur)@, *final(cur_w)) == text_word_spec(
            line_views(old(lines)@),
            old(cur)@,
            *old(cur_w),
            word@,
            a,
            rest_w,
            2 * word@.len() + 2,
        ),
{
    let ghost fuel0: nat = 2 * word@.len() + 2;
    let ghost target = text_word_spec(line_views(lines@), cur@, *cur_w, word@, a, rest_w, fuel0);
    let mut rest = to_owned(word.as_str());
    let mut a = a;
    let ghost mut fuel: nat = fuel0;
    loop
        invariant_except_break
            target == text_word_spec(line_views(lines@), cur@, *cur_w, rest@, a, rest_w, fuel),
            fuel >= rest@.len() * 2 + (if cur@.len() > 0 { 1int } else { 0int }) + 1,
        invariant
            fits(rest@),
            a >= 1,
            rest_w >= 1,
        ensures
            target == (line_views(lines@), cur@, *cur_w),
        decreases rest@.len() * 2 + if cur@.len() > 0 { 1int } else { 0int },
    {
        let room = a.saturating_sub(*cur_w);
        let rw = width(rest.as_str());
        if rw <= room {
            push_str(cur, rest.as_str());
            *cur_w = cur_w.saturating_add(rw);
            break;
        }
        proof {
            if rest@.len() == 0 {
                assert(display_width(rest@) == 0);
            }
        }
        let (head, tail) = split_word_at(&rest, room, cur.as_str().is_empty());
        push_str(cur, head.as_str());
        rest = tail;
        let mut done = String::new();
        std::mem::swap(&mut done, cur);
        let ghost lines_before = lines@;
        let ghost pushed = done@;
        lines.push(done);
        *cur_w = 0;
        a = rest_w;
        proof {
            assert(line_views(lines@) =~= line_views(lines_before).push(pushed));
            fuel = (fuel - 1) as nat;
        }
        if rest.as_str().is_empty() {
            break;
        }
    }
}

/// Word-wrap plain text (see [`wrap_text_spec`]).
///
/// `first_width` applies to the first line, `rest_width` to all following ones
/// (hanging indent). Words that do not fit on a line of their own are hard
/// broken at grapheme boundaries (long URLs). Widths of `0` are clamped to `1`
/// so this function always terminates. There is always at least one line.
pub fn wrap(text: &str, first_width: usize, rest_width: usize) -> (out: Vec<String>)
    requires
        fits(text@),
    ensures
        line_views(out@) == wrap_text_spec(text@, first_width, rest_width),
        out@.len() >= 1,
{
    let first_w = if first_width < 1 { 1 } else { first_width };
    let rest_w = if rest_width < 1 { 1 } else { rest_width };
    let tokens = tokenize(text);
    let ghost toks = tokens@.map_values(|t: Token| token_view(t));
    let mut lines: Vec<String> = Vec::new();
    let mut cur = String::new();
    let mut cur_w: usize = 0;
    let mut pending: usize = 0;
    let mut ti: usize = 0;
    proof {
        assert(line_views(lines@) =~= Seq::<Seq<char>>::empty());
    }
    while ti < tokens.len()
        invariant
            ti <= tokens@.len(),
            fits(text@),
            toks == tokens@.map_values(|t: Token| token_view(t)),
            toks == tokens_of(text@),
            forall|k: int| 0 <= k < tokens@.len() ==> (#[trigger] tokens@[k]).text@.len() <= text@.len(),
            first_w >= 1,
            rest_w >= 1,
            first_w == (if first_width < 1 { 1 } else { first_width }),
            rest_w == (if rest_width < 1 { 1 } else { rest_width }),
            (line_views(lines@), cur@, cur_w, pending) == text_tokens_spec(toks, ti as int, first_w, rest_w),
        decreases tokens@.len() - ti,
    {
        let token = &tokens[ti];
        assert(toks[ti as int] == token_view(*token));
        match token.kind {
            TokenKind::Space => {
                if !cur.as_str().is_empty() {
                    let add = if token.width < rest_w { token.width } else { rest_w };
                    pending = pending.saturating_add(add);
                }
            },
            TokenKind::Word => {
                let mut a = if lines.len() == 0 { first_w } else { rest_w };
                let over = match cur_w.checked_add(pending) {
                    Some(x) => match x.checked_add(token.width) {
                        Some(y) => y > a,
                        None => true,
                    },
                    None => true,
                };
                if !cur.as_str().is_empty() && over {
                    let mut done = String::new();
                    std::mem::swap(&mut done, &mut cur);
                    let ghost lines_before = lines@;
                    let ghost pushed = done@;
                    lines.push(done);
                    cur_w = 0;
                    a = rest_w;
                    proof {
                        assert(line_views(lines@) =~= line_views(lines_before).push(pushed));
                    }
                } else if !cur.as_str().is_empty() && pending > 0 {
                    push_spaces(&mut cur, pending);
                    cur_w = cur_w.saturating_add(pending);
                }
                pending = 0;
                assert(token.text@.len() <= text@.len());
                place_text_word(&mut lines, &mut cur, &mut cur_w, &token.text, a, rest_w);
            },
        }
        ti += 1;
    }
    proof {
        assert(toks.len() == tokens@.len());
    }
    if !cur.as_str().is_empty() || lines.len() == 0 {
        let ghost lines_before = lines@;
        let ghost pushed = cur@;
        lines.push(cur);
        proof {
            assert(line_views(lines@) =~= line_views(lines_before).push(pushed));
        }
    }
    lines
}

} // verus!
