//! Viewport helpers: vertical windowing and grapheme/width-correct
//! horizontal slicing.
use vstd::prelude::*;
use crate::render::primitives::{RenderLine, StyledSpan, span_width, spans_width, spans_fit};
use crate::render::theme::Style;
use crate::util::unicode::{columns_of, slice_columns, fits};

verus! {

/// Largest sensible `top_line` for a document of `total` lines in a window of
/// `height` lines (the last screen is never scrolled past).
pub fn max_top_line(total: usize, height: usize) -> (t: usize)
    ensures
        t == (if total > (if height == 0 { 1 } else { height }) {
            total - (if height == 0 { 1 } else { height })
        } else {
            0
        }),
{
    let h = if height == 0 { 1 } else { height };
    if total > h {
        total - h
    } else {
        0
    }
}

/// Scroll percentage shown in the status bar: how far the bottom of the
/// window is into the document, rounded down; 100 for an empty document.
pub open spec fn percent_spec(top_line: usize, height: usize, total: usize) -> u8 {
    if total == 0 {
        100
    } else {
        let h = if height == 0 { 1 } else { height as int };
        let bottom = if top_line + h < total { top_line + h } else { total as int };
        let p = bottom * 100 / (total as int);
        (if p > 100 { 100 } else { p }) as u8
    }
}

/// Scroll percentage shown in the status bar.
pub fn percent(top_line: usize, height: usize, total: usize) -> (p: u8)
    ensures
        p == percent_spec(top_line, height, total),
{
    if total == 0 {
        return 100;
    }
    let h = if height == 0 { 1 } else { height };
    let bottom: usize = if top_line < total && h < total - top_line { top_line + h } else { total };
    let b = bottom as u128;
    let t = total as u128;
    let q: u128 = (b * 100) / t;
    assert(q <= 100) by (nonlinear_arith)
        requires
            b <= t,
            t > 0,
            q as int == (b as int * 100) / (t as int),
    ;
    q as u8
}

/// A span's look and text as plain values.
pub open spec fn span_parts(s: StyledSpan) -> (Seq<char>, Style, Option<usize>, bool) {
    (s.text@, s.style, s.link, s.search_match)
}

/// The visible pieces of the spans `ss` (starting at column `col`) in the
/// columns `[h, end)`, appended to `acc`: spans wholly left of the window are
/// skipped, the walk stops at the first span right of it, and every other
/// span contributes its visible columns, unless they come out empty.
pub open spec fn slice_spans(
    ss: Seq<StyledSpan>,
    col: nat,
    h: nat,
    end: nat,
    acc: Seq<(Seq<char>, Style, Option<usize>, bool)>,
) -> Seq<(Seq<char>, Style, Option<usize>, bool)>
    decreases ss.len(),
{
    if ss.len() == 0 {
        acc
    } else {
        let s = ss[0];
        let w = span_width(s);
        let span_end = col + w;
        if span_end <= h {
            slice_spans(ss.drop_first(), span_end, h, end, acc)
        } else if col >= end {
            acc
        } else {
            let vs = if col > h { col } else { h };
            let ve = if span_end < end { span_end } else { end };
            let text = columns_of(s.text@, (vs - col) as usize, (ve - vs) as usize);
            let acc1 = if text.len() > 0 {
                acc.push((text, s.style, s.link, s.search_match))
            } else {
                acc
            };
            slice_spans(ss.drop_first(), span_end, h, end, acc1)
        }
    }
}

proof fn lemma_spans_width_cons(ss: Seq<StyledSpan>)
    requires
        ss.len() > 0,
    ensures
        spans_width(ss) == span_width(ss[0]) + spans_width(ss.drop_first()),
    decreases ss.len(),
{
    if ss.len() > 1 {
        lemma_spans_width_cons(ss.drop_last());
        assert(ss.drop_last()[0] == ss[0]);
        assert(ss.drop_last().drop_first() == ss.drop_first().drop_last());
        assert(ss.drop_first().last() == ss.last());
    } else {
        assert(ss.drop_last().len() == 0);
        assert(ss.drop_first().len() == 0);
        assert(ss.last() == ss[0]);
        assert(spans_width(ss.drop_last()) == 0);
        assert(spans_width(ss.drop_first()) == 0);
    }
}

/// Slice one line to the columns `[h_offset, h_offset + width)`.
///
/// Never splits a grapheme cluster: a wide character straddling either edge is
/// replaced by spaces for the half that is visible, so the result is exactly
/// as wide as the visible region.
pub fn slice_line(line: &RenderLine, h_offset: usize, width: usize) -> (out: Vec<StyledSpan>)
    requires
        spans_fit(line.spans@),
    ensures
        width == 0 ==> out@.len() == 0,
        width > 0 ==> out@.map_values(|s: StyledSpan| span_parts(s)) == slice_spans(
            line.spans@,
            0,
            h_offset as nat,
            (if h_offset + width <= usize::MAX { (h_offset + width) as int } else { usize::MAX as int }) as nat,
            Seq::empty(),
        ),
{
    let mut out: Vec<StyledSpan> = Vec::new();
    if width == 0 {
        return out;
    }
    let end = h_offset.saturating_add(width);
    let ghost ss = line.spans@;
    let mut col: usize = 0;
    let mut i: usize = 0;
    let mut done = false;
    proof {
        assert(ss.skip(0) == ss);
        assert(ss.take(0).len() == 0);
        assert(out@.map_values(|s: StyledSpan| span_parts(s)) == Seq::<(Seq<char>, Style, Option<usize>, bool)>::empty());
    }
    while i < line.spans.len() && !done
        invariant
            i <= ss.len(),
            ss == line.spans@,
            h_offset <= end,
            end == h_offset ==> h_offset == usize::MAX,
            done ==> i < ss.len() && col >= end && col + span_width(ss[i as int]) > h_offset,
            spans_fit(ss),
            col + spans_width(ss.skip(i as int)) == spans_width(ss),
            slice_spans(ss.skip(i as int), col as nat, h_offset as nat, end as nat,
                out@.map_values(|s: StyledSpan| span_parts(s))) == slice_spans(ss, 0, h_offset as nat, end as nat, Seq::empty()),
        decreases ss.len() - i + (if done { 0int } else { 1int }),
    {
        proof {
            lemma_spans_width_cons(ss.skip(i as int));
            assert(ss.skip(i as int)[0] == ss[i as int]);
            assert(ss.skip(i as int).drop_first() == ss.skip(i + 1));
        }
        let span = &line.spans[i];
        let w = span.width();
        let span_end = col + w;
        if span_end <= h_offset {
            col = span_end;
            i += 1;
            continue;
        }
        if col >= end {
            done = true;
            continue;
        }
        let vis_start = if col > h_offset { col } else { h_offset };
        let vis_end = if span_end < end { span_end } else { end };
        let text = slice_columns(span.text.as_str(), vis_start - col, vis_end - vis_start);
        if !text.as_str().is_empty() {
            let ghost before = out@.map_values(|s: StyledSpan| span_parts(s));
            let piece = StyledSpan { text, style: span.style, link: span.link, search_match: span.search_match };
            out.push(piece);
            assert(out@.map_values(|s: StyledSpan| span_parts(s)) == before.push(span_parts(piece)));
        }
        col = span_end;
        i += 1;
    }
    proof {
        if !done {
            assert(ss.skip(i as int).len() == 0);
        } else {
            assert(ss.skip(i as int)[0] == ss[i as int]);
        }
    }
    out
}

/// The scroll percentage never exceeds 100, and the window scrolled as far
/// down as it goes shows 100.
pub proof fn law_bottom_is_full(total: usize, height: usize)
    ensures
        percent_spec(0, height, total) <= 100,
        percent_spec(
            (if total > (if height == 0 { 1 } else { height }) {
                total - (if height == 0 { 1 } else { height })
            } else {
                0
            }) as usize,
            height,
            total,
        ) == 100,
{
    if total > 0 {
        let t = total as int;
        assert(t * 100 / t == 100) by (nonlinear_arith)
            requires
                t > 0,
        ;
    }
}

/// The concatenated texts of runs given as parts.
pub open spec fn parts_text(ps: Seq<(Seq<char>, Style, Option<usize>, bool)>) -> Seq<char>
    decreases ps.len(),
{
    if ps.len() == 0 {
        Seq::empty()
    } else {
        parts_text(ps.drop_last()) + ps.last().0
    }
}

/// The text of [`slice_line`]: the visible columns of a line as plain text.
pub fn slice_line_text(line: &RenderLine, h_offset: usize, width: usize) -> (s: String)
    requires
        spans_fit(line.spans@),
    ensures
        width == 0 ==> s@.len() == 0,
        width > 0 ==> s@ == parts_text(
            slice_spans(
                line.spans@,
                0,
                h_offset as nat,
                (if h_offset + width <= usize::MAX { (h_offset + width) as int } else { usize::MAX as int }) as nat,
                Seq::empty(),
            ),
        ),
{
    let spans = slice_line(line, h_offset, width);
    let ghost parts = spans@.map_values(|x: StyledSpan| span_parts(x));
    let mut out = String::new();
    let mut i: usize = 0;
    while i < spans.len()
        invariant
            i <= spans@.len(),
            parts == spans@.map_values(|x: StyledSpan| span_parts(x)),
            out@ == parts_text(parts.take(i as int)),
        decreases spans@.len() - i,
    {
        crate::util::text::push_str(&mut out, spans[i].text.as_str());
        proof {
            assert(parts.take(i + 1).drop_last() == parts.take(i as int));
            assert(parts.take(i + 1).last() == span_parts(spans@[i as int]));
        }
        i += 1;
    }
    assert(parts.take(spans@.len() as int) == parts);
    out
}

} // verus!
