//! Inline layout: styled runs of text and their wrapping into lines.
use vstd::prelude::*;
use crate::render::primitives::{LinkId, StyledSpan, spans_fit, spans_width, total_width};
use crate::render::theme::Style;
use crate::util::text::{chars_of, push_spaces, push_str, spaces, to_owned};
use crate::util::unicode::{
    TokenKind, display_width, fits, grapheme_clusters, graphemes, split_at_width, tokenize, width, blank_tokens_blank,
    lemma_no_blanks_add, lemma_split_word_parts, lemma_tokens_from_text, lemma_white_no_blanks, no_blanks, segmentations_hold,
    tokens_text,
};

verus! {

/// One un-wrapped run of inline content with its position in the node's
/// plain text.
#[derive(Debug, Clone, PartialEq)]
pub struct Piece {
    /// Text of the run (never contains `\n`).
    pub text: String,
    /// Style to render it with.
    pub style: Style,
    /// Link the run belongs to.
    pub link: Option<LinkId>,
    /// Whether the run overlaps a search match.
    pub search: bool,
    /// Byte offset of `text` in the node's plain text.
    pub plain_start: usize,
    /// `true` for an explicit hard break (the run itself is empty).
    pub hard_break: bool,
}

/// The text and look of a span.
pub open spec fn span_view(s: StyledSpan) -> (Seq<char>, Style, Option<LinkId>, bool) {
    (s.text@, s.style, s.link, s.search_match)
}

/// A line's spans, viewed.
pub open spec fn line_view(line: Seq<StyledSpan>) -> Seq<(Seq<char>, Style, Option<LinkId>, bool)> {
    line.map_values(|s: StyledSpan| span_view(s))
}

/// What appending `text` with a look does to a line: nothing for empty
/// text; the text joins the last span when that span has the same style,
/// link and search flag; otherwise a new span is added.
pub open spec fn push_span_spec(
    line: Seq<(Seq<char>, Style, Option<LinkId>, bool)>,
    text: Seq<char>,
    style: Style,
    link: Option<LinkId>,
    search: bool,
) -> Seq<(Seq<char>, Style, Option<LinkId>, bool)> {
    if text.len() == 0 {
        line
    } else if line.len() > 0 && line.last().1 == style && line.last().2 == link && line.last().3 == search {
        line.drop_last().push((line.last().0 + text, style, link, search))
    } else {
        line.push((text, style, link, search))
    }
}

/// Appends a span to a line, merging it with the previous one when
/// possible.
pub fn push_span(line: &mut Vec<StyledSpan>, text: &str, style: Style, link: Option<LinkId>, search: bool)
    ensures
        line_view(final(line)@) == push_span_spec(line_view(old(line)@), text@, style, link, search),
{
    if text.is_empty() {
        return;
    }
    let n = line.len();
    if n > 0 {
        let same = line[n - 1].style == style && line[n - 1].link == link && line[n - 1].search_match == search;
        if same {
            let ghost before = line@;
            let last = line.pop().unwrap();
            let mut t = last.text;
            push_str(&mut t, text);
            line.push(StyledSpan { text: t, style, link, search_match: search });
            proof {
                assert(line_view(line@) =~= line_view(before).drop_last().push(
                    (line_view(before).last().0 + text@, style, link, search),
                ));
            }
            return;
        }
    }
    let ghost before = line@;
    line.push(StyledSpan { text: to_owned(text), style, link, search_match: search });
    proof {
        assert(line_view(line@) =~= line_view(before).push((text@, style, link, search)));
    }
}

/// Total display width of a line of spans.
pub fn line_width(spans: &Vec<StyledSpan>) -> (w: usize)
    requires
        spans_fit(spans@),
    ensures
        w == spans_width(spans@),
{
    total_width(spans)
}

/// A line of spans, viewed.
pub type LineV = Seq<(Seq<char>, Style, Option<LinkId>, bool)>;

/// Style, link and search flag of a run.
pub type LookT = (Style, Option<LinkId>, bool);

/// Lines of spans, viewed.
pub open spec fn lines_view(ls: Seq<Vec<StyledSpan>>) -> Seq<LineV> {
    ls.map_values(|l: Vec<StyledSpan>| line_view(l@))
}

/// `a - b`, or 0.
pub open spec fn sat_sub(a: usize, b: usize) -> usize {
    if a >= b { (a - b) as usize } else { 0 }
}

/// `a + b`, or `usize::MAX`.
pub open spec fn sat_add(a: usize, b: usize) -> usize {
    if a + b > usize::MAX { usize::MAX } else { (a + b) as usize }
}

/// The first step of a word that does not fit the `room` left on the line:
/// its widest prefix that fits, or, on an empty line where not even one
/// cluster fits, its first cluster; and the rest.
pub open spec fn split_word_spec(rest: Seq<char>, room: usize, line_empty: bool) -> (Seq<char>, Seq<char>) {
    let gs = grapheme_clusters(rest);
    let k = crate::util::unicode::fitting_prefix(gs, room as nat) as int;
    let head = gs.take(k).flatten();
    if head.len() == 0 && line_empty {
        (gs[0], rest.subrange(gs[0].len() as int, rest.len() as int))
    } else {
        (head, gs.skip(k).flatten())
    }
}

/// The width available to the next line: `first` for the first line,
/// `rest` after that.
pub open spec fn avail_spec(lines: Seq<LineV>, first: usize, rest: usize) -> usize {
    if lines.len() == 0 { first } else { rest }
}

/// A word placed at the end of the current line: whole when it fits in
/// the room `a - w` left, else its fitting part, then a new line for the
/// rest (see [`split_word_spec`]); `fuel` bounds the steps.
pub open spec fn word_spec(
    lines: Seq<LineV>,
    cur: LineV,
    w: usize,
    rest: Seq<char>,
    a: usize,
    look: LookT,
    rest_w: usize,
    fuel: nat,
) -> (Seq<LineV>, LineV, usize)
    decreases fuel,
{
    if fuel == 0 {
        (lines, cur, w)
    } else {
        let room = sat_sub(a, w);
        let rw = display_width(rest);
        if rw <= room {
            (lines, push_span_spec(cur, rest, look.0, look.1, look.2), sat_add(w, rw as usize))
        } else {
            let (head, tail) = split_word_spec(rest, room, cur.len() == 0);
            let lines1 = lines.push(push_span_spec(cur, head, look.0, look.1, look.2));
            if tail.len() == 0 {
                (lines1, Seq::empty(), 0)
            } else {
                word_spec(lines1, Seq::empty(), 0, tail, rest_w, look, rest_w, (fuel - 1) as nat)
            }
        }
    }
}

/// The state of a wrap: finished lines, the current line and its width,
/// pending blanks and their look.
pub type WrapState = (Seq<LineV>, LineV, usize, usize, Option<LookT>);

/// One token of a piece placed: blanks become pending (not at a line
/// start); a word breaks the line when it does not fit after the pending
/// blanks, else the blanks are written out first, and then the word is
/// placed.
pub open spec fn token_spec(
    st: WrapState,
    tok: (Seq<char>, TokenKind, nat),
    look: LookT,
    first_w: usize,
    rest_w: usize,
) -> WrapState {
    let (lines, cur, w, pending, pstyle) = st;
    match tok.1 {
        TokenKind::Space => if cur.len() > 0 {
            (lines, cur, w, sat_add(pending, tok.2 as usize), Some(look))
        } else {
            st
        },
        TokenKind::Word => {
            let a = avail_spec(lines, first_w, rest_w);
            let over = w + pending + tok.2 > a;
            let (lines1, cur1, w1, a1) = if cur.len() > 0 && over {
                (lines.push(cur), Seq::empty(), 0usize, avail_spec(lines.push(cur), first_w, rest_w))
            } else if cur.len() > 0 && pending > 0 {
                let bl: LookT = match pstyle {
                    Some(p) => p,
                    None => (look.0, look.1, false),
                };
                (lines, push_span_spec(cur, spaces(pending as nat), bl.0, bl.1, bl.2), sat_add(w, pending), a)
            } else {
                (lines, cur, w, a)
            };
            let r = word_spec(lines1, cur1, w1, tok.0, a1, look, rest_w, 2 * tok.0.len() + 2);
            (r.0, r.1, r.2, 0, None)
        },
    }
}

/// The first `k` tokens of a piece placed.
pub open spec fn tokens_spec(
    st: WrapState,
    toks: Seq<(Seq<char>, TokenKind, nat)>,
    k: int,
    look: LookT,
    first_w: usize,
    rest_w: usize,
) -> WrapState
    decreases k,
{
    if k <= 0 {
        st
    } else {
        token_spec(tokens_spec(st, toks, k - 1, look, first_w, rest_w), toks[k - 1], look, first_w, rest_w)
    }
}

/// A piece placed: a hard break ends the line, other pieces are placed
/// token by token.
pub open spec fn piece_spec(st: WrapState, p: PieceV, first_w: usize, rest_w: usize) -> WrapState {
    if p.5 {
        (st.0.push(st.1), Seq::empty(), 0, 0, None)
    } else {
        let toks = crate::util::unicode::tokens_of(p.0);
        tokens_spec(st, toks, toks.len() as int, (p.1, p.2, p.3), first_w, rest_w)
    }
}

/// The first `k` pieces placed.
pub open spec fn pieces_spec(ps: Seq<PieceV>, k: int, first_w: usize, rest_w: usize) -> WrapState
    decreases k,
{
    if k <= 0 {
        (Seq::empty(), Seq::empty(), 0, 0, None)
    } else {
        piece_spec(pieces_spec(ps, k - 1, first_w, rest_w), ps[k - 1], first_w, rest_w)
    }
}

/// The lines of a wrap: the placed pieces' lines, and the current line when
/// it is not empty or is the only one.
pub open spec fn wrap_spec(ps: Seq<PieceV>, first_width: usize, rest_width: usize) -> Seq<LineV> {
    let fw: usize = if first_width < 1 { 1 } else { first_width };
    let rw: usize = if rest_width < 1 { 1 } else { rest_width };
    let st = pieces_spec(ps, ps.len() as int, fw, rw);
    if st.1.len() > 0 || st.0.len() == 0 {
        st.0.push(st.1)
    } else {
        st.0
    }
}

/// The first step when a word does not fit the room left on the line: the
/// widest prefix that fits, or, on an empty line, at least its first
/// grapheme cluster, so that every step makes progress.
pub(crate) fn split_word_at(rest: &String, room: usize, line_empty: bool) -> (out: (String, String))
    requires
        fits(rest@),
        rest@.len() > 0,
    ensures
        out.0@ + out.1@ == rest@,
        line_empty ==> out.0@.len() > 0,
        (out.0@, out.1@) == split_word_spec(rest@, room, line_empty),
{
    let (head, tail) = split_at_width(rest.as_str(), room);
    if head.as_str().is_empty() && line_empty {
        let gs = graphemes(rest.as_str());
        proof {
            let g = grapheme_clusters(rest@);
            if g.len() == 0 {
                assert(g.flatten() =~= Seq::<char>::empty());
            }
        }
        let first = gs[0].as_str();
        let fl = chars_of(first).len();
        let cs = chars_of(rest.as_str());
        proof {
            let g = grapheme_clusters(rest@);
            assert(gs@.map_values(|s: String| s@)[0] == g[0]);
            crate::util::unicode::lemma_flatten_split(g, 1);
            assert(g.take(1) =~= seq![g[0]]);
            assert(seq![g[0]].flatten() =~= g[0]) by {
                reveal_with_fuel(Seq::flatten, 2);
            }
        }
        let mut tail2: Vec<char> = Vec::new();
        let mut k = fl;
        while k < cs.len()
            invariant
                fl <= k <= cs@.len(),
                tail2@ == cs@.subrange(fl as int, k as int),
            decreases cs@.len() - k,
        {
            tail2.push(cs[k]);
            k += 1;
        }
        return (to_owned(first), crate::util::text::string_of(tail2.as_slice()));
    }
    (head, tail)
}

/// A word placed at the end of the current line (see [`word_spec`]).
pub(crate) fn place_word(
    lines: &mut Vec<Vec<StyledSpan>>,
    cur: &mut Vec<StyledSpan>,
    cur_w: &mut usize,
    word: &String,
    a: usize,
    look: LookT,
    rest_w: usize,
)
    requires
        fits(word@),
        a >= 1,
        rest_w >= 1,
        forall|i: int, j: int|
            0 <= i < old(lines)@.len() && 0 <= j < old(lines)@[i]@.len() ==> (#[trigger] old(lines)@[i]@[j]).text@.len() > 0,
        forall|j: int| 0 <= j < old(cur)@.len() ==> (#[trigger] old(cur)@[j]).text@.len() > 0,
    ensures
        (lines_view(final(lines)@), line_view(final(cur)@), *final(cur_w)) == word_spec(
            lines_view(old(lines)@),
            line_view(old(cur)@),
            *old(cur_w),
            word@,
            a,
            look,
            rest_w,
            2 * word@.len() + 2,
        ),
        forall|i: int, j: int|
            0 <= i < final(lines)@.len() && 0 <= j < final(lines)@[i]@.len() ==> (#[trigger] final(lines)@[i]@[j]).text@.len() > 0,
        forall|j: int| 0 <= j < final(cur)@.len() ==> (#[trigger] final(cur)@[j]).text@.len() > 0,
{
    let ghost fuel0: nat = 2 * word@.len() + 2;
    let ghost target = word_spec(lines_view(lines@), line_view(cur@), *cur_w, word@, a, look, rest_w, fuel0);
    let mut rest = to_owned(word.as_str());
    let mut a = a;
    let ghost mut fuel: nat = fuel0;
    loop
        invariant_except_break
            target == word_spec(lines_view(lines@), line_view(cur@), *cur_w, rest@, a, look, rest_w, fuel),
            fuel >= rest@.len() * 2 + (if cur@.len() > 0 { 1int } else { 0int }) + 1,
        invariant
            fits(rest@),
            a >= 1,
            rest_w >= 1,
            forall|i: int, j: int| 0 <= i < lines@.len() && 0 <= j < lines@[i]@.len() ==> (#[trigger] lines@[i]@[j]).text@.len() > 0,
            forall|j: int| 0 <= j < cur@.len() ==> (#[trigger] cur@[j]).text@.len() > 0,
        ensures
            target == (lines_view(lines@), line_view(cur@), *cur_w),
        decreases rest@.len() * 2 + if cur@.len() > 0 { 1int } else { 0int },
    {
        let room = a.saturating_sub(*cur_w);
        let rw = width(rest.as_str());
        if rw <= room {
            let ghost before = cur@;
            push_span(cur, rest.as_str(), look.0, look.1, look.2);
            proof {
                lemma_push_keeps_nonempty(before, cur@, rest@, look.0, look.1, look.2);
            }
            *cur_w = cur_w.saturating_add(rw);
            break;
        }
        proof {
            if rest@.len() == 0 {
                assert(display_width(rest@) == 0);
            }
        }
        let (head, tail) = split_word_at(&rest, room, cur.len() == 0);
        let ghost before = cur@;
        let ghost lines_before = lines@;
        push_span(cur, head.as_str(), look.0, look.1, look.2);
        proof {
            lemma_push_keeps_nonempty(before, cur@, head@, look.0, look.1, look.2);
        }
        rest = tail;
        let mut done: Vec<StyledSpan> = Vec::new();
        std::mem::swap(&mut done, cur);
        let ghost pushed = done@;
        lines.push(done);
        *cur_w = 0;
        a = rest_w;
        proof {
            assert(lines_view(lines@) =~= lines_view(lines_before).push(line_view(pushed)));
            assert(line_view(cur@) =~= Seq::<(Seq<char>, Style, Option<LinkId>, bool)>::empty());
            fuel = (fuel - 1) as nat;
        }
        if rest.as_str().is_empty() {
            break;
        }
    }
}

/// Wraps styled pieces into lines (see [`wrap_spec`]).
///
/// `first_width` applies to the first line and `rest_width` to the
/// continuation lines (hanging indent); both count at least one cell. White
/// space between words becomes single runs of blanks and is dropped at line
/// starts; a hard break starts a new line; words never split a grapheme
/// cluster, and a word that cannot fit on a line of its own is hard broken.
/// There is always at least one line, and no span is empty.
pub fn wrap_pieces(pieces: &Vec<Piece>, first_width: usize, rest_width: usize) -> (out: Vec<Vec<StyledSpan>>)
    requires
        forall|i: int| 0 <= i < pieces@.len() ==> fits((#[trigger] pieces@[i]).text@),
    ensures
        lines_view(out@) == wrap_spec(pieces_v(pieces@), first_width, rest_width),
        out@.len() >= 1,
        forall|i: int, j: int| 0 <= i < out@.len() && 0 <= j < out@[i]@.len() ==> (#[trigger] out@[i]@[j]).text@.len() > 0,
{
    let first_w = if first_width < 1 { 1 } else { first_width };
    let rest_w = if rest_width < 1 { 1 } else { rest_width };
    let mut lines: Vec<Vec<StyledSpan>> = Vec::new();
    let mut cur: Vec<StyledSpan> = Vec::new();
    let mut cur_w: usize = 0;
    let mut pending: usize = 0;
    let mut pending_style: Option<LookT> = None;
    let mut pi: usize = 0;
    proof {
        assert(lines_view(lines@) =~= Seq::<LineV>::empty());
        assert(line_view(cur@) =~= Seq::<(Seq<char>, Style, Option<LinkId>, bool)>::empty());
    }
    while pi < pieces.len()
        invariant
            pi <= pieces@.len(),
            forall|i: int| 0 <= i < pieces@.len() ==> fits((#[trigger] pieces@[i]).text@),
            forall|i: int, j: int| 0 <= i < lines@.len() && 0 <= j < lines@[i]@.len() ==> (#[trigger] lines@[i]@[j]).text@.len() > 0,
            forall|j: int| 0 <= j < cur@.len() ==> (#[trigger] cur@[j]).text@.len() > 0,
            first_w >= 1,
            rest_w >= 1,
            first_w == (if first_width < 1 { 1 } else { first_width }),
            rest_w == (if rest_width < 1 { 1 } else { rest_width }),
            (lines_view(lines@), line_view(cur@), cur_w, pending, pending_style) == pieces_spec(pieces_v(pieces@), pi as int, first_w, rest_w),
        decreases pieces@.len() - pi,
    {
        let piece = &pieces[pi];
        assert(pieces_v(pieces@)[pi as int] == piece_v(*piece));
        if piece.hard_break {
            let mut done: Vec<StyledSpan> = Vec::new();
            std::mem::swap(&mut done, &mut cur);
            let ghost lines_before = lines@;
            let ghost pushed = done@;
            lines.push(done);
            cur_w = 0;
            pending = 0;
            pending_style = None;
            proof {
                assert(lines_view(lines@) =~= lines_view(lines_before).push(line_view(pushed)));
                assert(line_view(cur@) =~= Seq::<(Seq<char>, Style, Option<LinkId>, bool)>::empty());
            }
            pi += 1;
            continue;
        }
        let tokens = tokenize(piece.text.as_str());
        let ghost toks = tokens@.map_values(|t: crate::util::unicode::Token| crate::util::unicode::token_view(t));
        let ghost st0: WrapState = (lines_view(lines@), line_view(cur@), cur_w, pending, pending_style);
        let look: LookT = (piece.style, piece.link, piece.search);
        let mut ti: usize = 0;
        while ti < tokens.len()
            invariant
                ti <= tokens@.len(),
                fits(piece.text@),
                toks == tokens@.map_values(|t: crate::util::unicode::Token| crate::util::unicode::token_view(t)),
                toks == crate::util::unicode::tokens_of(piece.text@),
                forall|k: int| 0 <= k < tokens@.len() ==> (#[trigger] tokens@[k]).text@.len() <= piece.text@.len(),
                forall|i: int, j: int| 0 <= i < lines@.len() && 0 <= j < lines@[i]@.len() ==> (#[trigger] lines@[i]@[j]).text@.len() > 0,
                forall|j: int| 0 <= j < cur@.len() ==> (#[trigger] cur@[j]).text@.len() > 0,
                first_w >= 1,
                rest_w >= 1,
                look == (piece.style, piece.link, piece.search),
                (lines_view(lines@), line_view(cur@), cur_w, pending, pending_style) == tokens_spec(st0, toks, ti as int, look, first_w, rest_w),
            decreases tokens@.len() - ti,
        {
            let token = &tokens[ti];
            assert(toks[ti as int] == crate::util::unicode::token_view(*token));
            match token.kind {
                TokenKind::Space => {
                    if cur.len() > 0 {
                        pending = pending.saturating_add(token.width);
                        pending_style = Some(look);
                    }
                },
                TokenKind::Word => {
                    let mut a = if lines.len() == 0 { first_w } else { rest_w };
                    let over = match cur_w.checked_add(pending) {
                        Some(x) => match x.checked_add(token.width) {
                            Some(y) => y > a,
                            None => true,
                        },
                        None => true,
                    };
                    if cur.len() > 0 && over {
                        let mut done: Vec<StyledSpan> = Vec::new();
                        std::mem::swap(&mut done, &mut cur);
                        let ghost lines_before = lines@;
                        let ghost pushed = done@;
                        lines.push(done);
                        cur_w = 0;
                        a = if lines.len() == 0 { first_w } else { rest_w };
                        proof {
                            assert(lines_view(lines@) =~= lines_view(lines_before).push(line_view(pushed)));
                            assert(line_view(cur@) =~= Seq::<(Seq<char>, Style, Option<LinkId>, bool)>::empty());
                        }
                    } else if cur.len() > 0 && pending > 0 {
                        let (st, lk, se) = match pending_style {
                            Some(p) => p,
                            None => (piece.style, piece.link, false),
                        };
                        let mut blanks = String::new();
                        push_spaces(&mut blanks, pending);
                        let ghost before = cur@;
                        push_span(&mut cur, blanks.as_str(), st, lk, se);
                        proof {
                            lemma_push_keeps_nonempty(before, cur@, blanks@, st, lk, se);
                        }
                        cur_w = cur_w.saturating_add(pending);
                    }
                    pending = 0;
                    pending_style = None;
                    assert(token.text@.len() <= piece.text@.len());
                    place_word(&mut lines, &mut cur, &mut cur_w, &token.text, a, look, rest_w);
                },
            }
            ti += 1;
        }
        proof {
            assert(toks.len() == tokens@.len());
        }
        pi += 1;
    }
    let ghost st = pieces_spec(pieces_v(pieces@), pieces@.len() as int, first_w, rest_w);
    if cur.len() > 0 || lines.len() == 0 {
        let ghost lines_before = lines@;
        let ghost pushed = cur@;
        lines.push(cur);
        proof {
            assert(lines_view(lines@) =~= lines_view(lines_before).push(line_view(pushed)));
        }
    }
    lines
}

/// Appending non-empty or empty text keeps every span of a line non-empty.
proof fn lemma_push_keeps_nonempty(
    before: Seq<StyledSpan>,
    after: Seq<StyledSpan>,
    text: Seq<char>,
    style: Style,
    link: Option<LinkId>,
    search: bool,
)
    requires
        forall|j: int| 0 <= j < before.len() ==> (#[trigger] before[j]).text@.len() > 0,
        line_view(after) == push_span_spec(line_view(before), text, style, link, search),
    ensures
        forall|j: int| 0 <= j < after.len() ==> (#[trigger] after[j]).text@.len() > 0,
{
    let lb = line_view(before);
    let la = line_view(after);
    assert(la.len() == after.len());
    assert forall|j: int| 0 <= j < after.len() implies (#[trigger] after[j]).text@.len() > 0 by {
        assert(la[j] == span_view(after[j]));
        if text.len() == 0 {
            assert(lb[j] == span_view(before[j]));
        } else if lb.len() > 0 && lb.last().1 == style && lb.last().2 == link && lb.last().3 == search {
            if j < before.len() - 1 {
                assert(lb[j] == span_view(before[j]));
            } else {
                assert(lb.last() == span_view(before[before.len() - 1]));
            }
        } else {
            if j < before.len() {
                assert(lb[j] == span_view(before[j]));
            }
        }
    }
}


// ---------------------------------------------------------------------------
// Search matches inside pieces
// ---------------------------------------------------------------------------

/// A piece, viewed: text, style, link, search flag, start and hard break.
pub type PieceV = (Seq<char>, Style, Option<LinkId>, bool, usize, bool);

/// A piece, viewed.
pub open spec fn piece_v(p: Piece) -> PieceV {
    (p.text@, p.style, p.link, p.search, p.plain_start, p.hard_break)
}

/// The match `m` (a range of positions in the node's plain text) overlaps
/// the positions `s..e`.
pub open spec fn overlaps(m: (usize, usize), s: int, e: int) -> bool {
    m.0 < e && m.1 > s
}

/// Some match overlaps `s..e`.
pub open spec fn any_overlap(ms: Seq<(usize, usize)>, s: int, e: int) -> bool {
    exists|k: int| 0 <= k < ms.len() && overlaps(#[trigger] ms[k], s, e)
}

/// Position `c` inside a piece that starts at `s` and is `len` long is a
/// cut: a match overlapping the piece starts or ends there.
pub open spec fn is_cut(ms: Seq<(usize, usize)>, s: int, len: int, c: int) -> bool {
    0 < c < len && exists|k: int|
        0 <= k < ms.len() && overlaps(#[trigger] ms[k], s, s + len) && (ms[k].0 == s + c || ms[k].1 == s + c)
}

/// The first cut from `j` on, or the piece's end.
pub open spec fn next_cut(ms: Seq<(usize, usize)>, s: int, len: int, j: int) -> int
    decreases len - j,
{
    if j >= len {
        len
    } else if is_cut(ms, s, len, j) {
        j
    } else {
        next_cut(ms, s, len, j + 1)
    }
}

pub proof fn lemma_next_cut(ms: Seq<(usize, usize)>, s: int, len: int, j: int)
    ensures
        j <= len ==> j <= next_cut(ms, s, len, j) <= len,
        j > len ==> next_cut(ms, s, len, j) == len,
    decreases len - j,
{
    if j < len && !is_cut(ms, s, len, j) {
        lemma_next_cut(ms, s, len, j + 1);
    }
}

/// Position `x` of the plain text lies in a match.
pub open spec fn covered(ms: Seq<(usize, usize)>, x: int) -> bool {
    exists|k: int| 0 <= k < ms.len() && (#[trigger] ms[k]).0 <= x < ms[k].1
}

/// The piece `p` cut at every cut from position `i` on; each part is
/// flagged when its first position lies in a match, and keeps the hard
/// break only when it ends the piece.
pub open spec fn cut_from(p: PieceV, ms: Seq<(usize, usize)>, i: int) -> Seq<PieceV>
    decreases p.0.len() - i,
{
    let len = p.0.len() as int;
    let s = p.4 as int;
    if i < 0 || i >= len {
        Seq::empty()
    } else {
        let j = next_cut(ms, s, len, i + 1);
        proof {
            lemma_next_cut(ms, s, len, i + 1);
        }
        seq![(p.0.subrange(i, j), p.1, p.2, covered(ms, s + i), (s + i) as usize, p.5 && j == len)] + cut_from(p, ms, j)
    }
}

/// One piece with the matches applied: unchanged when it is empty, when no
/// match overlaps it, or when its end is past the last position a `usize`
/// can name; else cut at the matches' ends.
pub open spec fn piece_matched(p: PieceV, ms: Seq<(usize, usize)>) -> Seq<PieceV> {
    let s = p.4 as int;
    if p.0.len() == 0 || s + p.0.len() > usize::MAX || !any_overlap(ms, s, s + p.0.len()) {
        seq![p]
    } else {
        cut_from(p, ms, 0)
    }
}

/// The first `k` pieces with the matches applied.
pub open spec fn matched_upto(ps: Seq<PieceV>, ms: Seq<(usize, usize)>, k: int) -> Seq<PieceV>
    decreases k,
{
    if k <= 0 {
        Seq::empty()
    } else {
        matched_upto(ps, ms, k - 1) + piece_matched(ps[k - 1], ms)
    }
}

/// The views of pieces.
pub open spec fn pieces_v(ps: Seq<Piece>) -> Seq<PieceV> {
    ps.map_values(|q: Piece| piece_v(q))
}

fn overlap_any(ms: &Vec<(usize, usize)>, s: usize, e: usize) -> (b: bool)
    ensures
        b == any_overlap(ms@, s as int, e as int),
{
    let mut k: usize = 0;
    while k < ms.len()
        invariant
            k <= ms@.len(),
            forall|q: int| 0 <= q < k ==> !overlaps(#[trigger] ms@[q], s as int, e as int),
        decreases ms@.len() - k,
    {
        if ms[k].0 < e && ms[k].1 > s {
            assert(overlaps(ms@[k as int], s as int, e as int));
            return true;
        }
        k += 1;
    }
    false
}

fn cut_at(ms: &Vec<(usize, usize)>, s: usize, len: usize, c: usize) -> (b: bool)
    requires
        s + len <= usize::MAX,
    ensures
        b == is_cut(ms@, s as int, len as int, c as int),
{
    if c == 0 || c >= len {
        return false;
    }
    let e = s + len;
    let mut k: usize = 0;
    while k < ms.len()
        invariant
            k <= ms@.len(),
            e == s + len,
            0 < c < len,
            s + len <= usize::MAX,
            forall|q: int|
                0 <= q < k ==> !(overlaps(#[trigger] ms@[q], s as int, s + len) && (ms@[q].0 == s + c || ms@[q].1
                    == s + c)),
        decreases ms@.len() - k,
    {
        let (a, b) = ms[k];
        if a < e && b > s && (a == s + c || b == s + c) {
            assert(overlaps(ms@[k as int], s as int, s + len));
            return true;
        }
        k += 1;
    }
    false
}

fn covered_at(ms: &Vec<(usize, usize)>, x: usize) -> (b: bool)
    ensures
        b == covered(ms@, x as int),
{
    let mut k: usize = 0;
    while k < ms.len()
        invariant
            k <= ms@.len(),
            forall|q: int| 0 <= q < k ==> !((#[trigger] ms@[q]).0 <= x < ms@[q].1),
        decreases ms@.len() - k,
    {
        if ms[k].0 <= x && x < ms[k].1 {
            return true;
        }
        k += 1;
    }
    false
}

/// The characters `cs[i..j]` as a string.
fn substring(cs: &Vec<char>, i: usize, j: usize) -> (out: String)
    requires
        i <= j <= cs@.len(),
    ensures
        out@ == cs@.subrange(i as int, j as int),
{
    let mut part: Vec<char> = Vec::new();
    let mut k = i;
    while k < j
        invariant
            i <= k <= j,
            j <= cs@.len(),
            part@ == cs@.subrange(i as int, k as int),
        decreases j - k,
    {
        part.push(cs[k]);
        k += 1;
    }
    crate::util::text::string_of(part.as_slice())
}

/// `p` cut at the ends of the matches that fall inside it (see
/// [`cut_from`]).
fn cut_piece(p: &Piece, ms: &Vec<(usize, usize)>) -> (out: Vec<Piece>)
    requires
        p.plain_start + p.text@.len() <= usize::MAX,
    ensures
        out@.map_values(|q: Piece| piece_v(q)) == cut_from(piece_v(*p), ms@, 0),
{
    let cs = chars_of(p.text.as_str());
    let len = cs.len();
    let s = p.plain_start;
    let mut out: Vec<Piece> = Vec::new();
    let mut i: usize = 0;
    proof {
        assert(out@.map_values(|q: Piece| piece_v(q)) =~= Seq::<PieceV>::empty());
    }
    while i < len
        invariant
            i <= len,
            len == p.text@.len(),
            cs@ == p.text@,
            s == p.plain_start,
            s + len <= usize::MAX,
            out@.map_values(|q: Piece| piece_v(q)) + cut_from(piece_v(*p), ms@, i as int) == cut_from(piece_v(*p), ms@, 0),
        decreases len - i,
    {
        let mut j = i + 1;
        proof {
            lemma_next_cut(ms@, s as int, len as int, i + 1);
        }
        while j < len && !cut_at(ms, s, len, j)
            invariant
                i < j <= len,
                s + len <= usize::MAX,
                next_cut(ms@, s as int, len as int, j as int) == next_cut(ms@, s as int, len as int, i + 1),
            decreases len - j,
        {
            j += 1;
        }
        let text = substring(&cs, i, j);
        let search = covered_at(ms, s + i);
        let ghost before = out@.map_values(|q: Piece| piece_v(q));
        let q = Piece { text, style: p.style, link: p.link, search, plain_start: s + i, hard_break: p.hard_break && j == len };
        out.push(q);
        proof {
            assert(out@.map_values(|q: Piece| piece_v(q)) =~= before.push(piece_v(q)));
            assert(cut_from(piece_v(*p), ms@, i as int) == seq![piece_v(q)] + cut_from(piece_v(*p), ms@, j as int));
            assert(before.push(piece_v(q)) + cut_from(piece_v(*p), ms@, j as int) =~= before + cut_from(piece_v(*p), ms@, i as int));
        }
        i = j;
    }
    proof {
        assert(out@.map_values(|q: Piece| piece_v(q)) + cut_from(piece_v(*p), ms@, i as int) == out@.map_values(|q: Piece| piece_v(q)));
    }
    out
}

/// Marks search matches in pieces: every piece a match overlaps is cut at
/// the match's ends, and the parts inside a match are flagged (see
/// [`matched_upto`]). Match ranges and piece starts are positions in the
/// node's plain text.
pub fn apply_matches(pieces: &Vec<Piece>, matches: &Vec<(usize, usize)>) -> (out: Vec<Piece>)
    ensures
        pieces_v(out@) == matched_upto(pieces_v(pieces@), matches@, pieces@.len() as int),
{
    let mut out: Vec<Piece> = Vec::new();
    let mut i: usize = 0;
    proof {
        assert(out@.map_values(|q: Piece| piece_v(q)) =~= Seq::<PieceV>::empty());
    }
    while i < pieces.len()
        invariant
            i <= pieces@.len(),
            pieces_v(out@) == matched_upto(pieces_v(pieces@), matches@, i as int),
        decreases pieces@.len() - i,
    {
        let p = &pieces[i];
        let ghost before = out@.map_values(|q: Piece| piece_v(q));
        let n = p.text.as_str().unicode_len();
        assert(pieces_v(pieces@)[i as int] == piece_v(*p));
        if n == 0 || p.plain_start > usize::MAX - n || !overlap_any(matches, p.plain_start, p.plain_start + n) {
            out.push(Piece {
                text: to_owned(p.text.as_str()),
                style: p.style,
                link: p.link,
                search: p.search,
                plain_start: p.plain_start,
                hard_break: p.hard_break,
            });
            proof {
                assert(out@.map_values(|q: Piece| piece_v(q)) =~= before.push(piece_v(*p)));
                assert(before.push(piece_v(*p)) =~= before + seq![piece_v(*p)]);
            }
        } else {
            let mut parts = cut_piece(p, matches);
            let ghost pv = parts@.map_values(|q: Piece| piece_v(q));
            out.append(&mut parts);
            proof {
                assert(out@.map_values(|q: Piece| piece_v(q)) =~= before + pv);
            }
        }
        i += 1;
    }
    out
}


/// The text of pieces, in order.
pub open spec fn pieces_text(ps: Seq<PieceV>) -> Seq<char>
    decreases ps.len(),
{
    if ps.len() == 0 {
        Seq::empty()
    } else {
        pieces_text(ps.drop_last()) + ps.last().0
    }
}

proof fn lemma_pieces_text_one(x: PieceV)
    ensures
        pieces_text(seq![x]) == x.0,
{
    assert(seq![x].drop_last() =~= Seq::<PieceV>::empty());
    assert(seq![x].last() == x);
    assert(pieces_text(Seq::<PieceV>::empty()) == Seq::<char>::empty());
    assert(Seq::<char>::empty() + x.0 =~= x.0);
}

proof fn lemma_pieces_text_concat(a: Seq<PieceV>, b: Seq<PieceV>)
    ensures
        pieces_text(a + b) == pieces_text(a) + pieces_text(b),
    decreases b.len(),
{
    if b.len() == 0 {
        assert(a + b == a);
    } else {
        lemma_pieces_text_concat(a, b.drop_last());
        assert((a + b).drop_last() == a + b.drop_last());
        assert((a + b).last() == b.last());
    }
}

proof fn lemma_cut_text(p: PieceV, ms: Seq<(usize, usize)>, i: int)
    requires
        0 <= i <= p.0.len(),
    ensures
        pieces_text(cut_from(p, ms, i)) == p.0.subrange(i, p.0.len() as int),
    decreases p.0.len() - i,
{
    let len = p.0.len() as int;
    let s = p.4 as int;
    if i < len {
        let j = next_cut(ms, s, len, i + 1);
        lemma_next_cut(ms, s, len, i + 1);
        lemma_cut_text(p, ms, j);
        let head = seq![(p.0.subrange(i, j), p.1, p.2, covered(ms, s + i), (s + i) as usize, p.5 && j == len)];
        lemma_pieces_text_concat(head, cut_from(p, ms, j));
        lemma_pieces_text_one(head[0]);
        assert(head == seq![head[0]]);
        assert(p.0.subrange(i, j) + p.0.subrange(j, len) =~= p.0.subrange(i, len));
    } else {
        assert(p.0.subrange(i, len) =~= Seq::<char>::empty());
    }
}

proof fn lemma_matched_text(ps: Seq<PieceV>, ms: Seq<(usize, usize)>, k: int)
    requires
        0 <= k <= ps.len(),
    ensures
        pieces_text(matched_upto(ps, ms, k)) == pieces_text(ps.take(k)),
    decreases k,
{
    if k > 0 {
        lemma_matched_text(ps, ms, k - 1);
        let p = ps[k - 1];
        lemma_pieces_text_concat(matched_upto(ps, ms, k - 1), piece_matched(p, ms));
        let s = p.4 as int;
        if p.0.len() == 0 || s + p.0.len() > usize::MAX || !any_overlap(ms, s, s + p.0.len()) {
            lemma_pieces_text_one(p);
        } else {
            lemma_cut_text(p, ms, 0);
            assert(p.0.subrange(0, p.0.len() as int) == p.0);
        }
        assert(ps.take(k).drop_last() == ps.take(k - 1));
    }
}

/// Marking search matches never changes the text: the pieces with the
/// matches applied spell out exactly what the pieces spelled out.
pub proof fn law_matches_keep_the_text(ps: Seq<PieceV>, ms: Seq<(usize, usize)>)
    ensures
        pieces_text(matched_upto(ps, ms, ps.len() as int)) == pieces_text(ps),
{
    lemma_matched_text(ps, ms, ps.len() as int);
    assert(ps.take(ps.len() as int) == ps);
}

/// The text of a line of spans.
pub open spec fn line_text(l: LineV) -> Seq<char>
    decreases l.len(),
{
    if l.len() == 0 {
        Seq::empty()
    } else {
        line_text(l.drop_last()) + l.last().0
    }
}

pub proof fn lemma_line_text_concat(a: LineV, b: LineV)
    ensures
        line_text(a + b) == line_text(a) + line_text(b),
    decreases b.len(),
{
    if b.len() == 0 {
        assert(a + b == a);
    } else {
        lemma_line_text_concat(a, b.drop_last());
        assert((a + b).drop_last() == a + b.drop_last());
        assert((a + b).last() == b.last());
    }
}

pub proof fn lemma_push_span_text(l: LineV, t: Seq<char>, style: Style, link: Option<LinkId>, search: bool)
    ensures
        line_text(push_span_spec(l, t, style, link, search)) == line_text(l) + t,
{
    if t.len() == 0 {
        assert(line_text(l) + t =~= line_text(l));
    } else if l.len() > 0 && l.last().1 == style && l.last().2 == link && l.last().3 == search {
        let r = l.drop_last().push((l.last().0 + t, style, link, search));
        assert(r.drop_last() == l.drop_last());
        assert(line_text(l) == line_text(l.drop_last()) + l.last().0);
        assert(line_text(r) =~= line_text(l) + t);
    } else {
        let r = l.push((t, style, link, search));
        assert(r.drop_last() == l);
    }
}


/// The text of lines, one after the other.
pub open spec fn lines_text(ls: Seq<LineV>) -> Seq<char>
    decreases ls.len(),
{
    if ls.len() == 0 {
        Seq::empty()
    } else {
        lines_text(ls.drop_last()) + line_text(ls.last())
    }
}

proof fn lemma_lines_text_push(ls: Seq<LineV>, l: LineV)
    ensures
        lines_text(ls.push(l)) == lines_text(ls) + line_text(l),
{
    assert(ls.push(l).drop_last() == ls);
}

proof fn lemma_word_spec_text(
    lines: Seq<LineV>,
    cur: LineV,
    w: usize,
    rest: Seq<char>,
    a: usize,
    look: LookT,
    rest_w: usize,
    fuel: nat,
)
    requires
        segmentations_hold(),
        fuel >= rest.len() * 2 + (if cur.len() > 0 { 1int } else { 0int }) + 1,
    ensures
        ({
            let r = word_spec(lines, cur, w, rest, a, look, rest_w, fuel);
            lines_text(r.0) + line_text(r.1) == lines_text(lines) + line_text(cur) + rest
        }),
    decreases fuel,
{
    let room = sat_sub(a, w);
    let rwd = display_width(rest);
    if rwd <= room {
        lemma_push_span_text(cur, rest, look.0, look.1, look.2);
    } else {
        if rest.len() == 0 {
            assert(display_width(rest) == 0) by {
                assert(crate::util::unicode::all_printable_ascii(rest));
            }
        }
        lemma_split_word_parts(rest, room, cur.len() == 0);
        let (head, tail) = split_word_spec(rest, room, cur.len() == 0);
        let cur1 = push_span_spec(cur, head, look.0, look.1, look.2);
        lemma_push_span_text(cur, head, look.0, look.1, look.2);
        let lines1 = lines.push(cur1);
        lemma_lines_text_push(lines, cur1);
        assert(line_text(Seq::<(Seq<char>, Style, Option<LinkId>, bool)>::empty()) == Seq::<char>::empty());
        if tail.len() == 0 {
            assert(lines_text(lines1) + Seq::<char>::empty() =~= lines_text(lines) + line_text(cur) + rest);
        } else {
            lemma_word_spec_text(lines1, Seq::empty(), 0, tail, rest_w, look, rest_w, (fuel - 1) as nat);
            assert(lines_text(lines1) + Seq::<char>::empty() + tail =~= lines_text(lines) + line_text(cur) + rest);
        }
    }
}

/// The text of a wrap state: its finished lines and its current line.
pub open spec fn state_text(st: WrapState) -> Seq<char> {
    lines_text(st.0) + line_text(st.1)
}

proof fn lemma_token_spec_text(st: WrapState, tok: (Seq<char>, TokenKind, nat), look: LookT, first_w: usize, rest_w: usize)
    requires
        segmentations_hold(),
        tok.1 == TokenKind::Space ==> no_blanks(tok.0) == Seq::<char>::empty(),
    ensures
        no_blanks(state_text(token_spec(st, tok, look, first_w, rest_w))) == no_blanks(state_text(st)) + no_blanks(tok.0),
{
    let (lines, cur, w, pending, pstyle) = st;
    match tok.1 {
        TokenKind::Space => {
            assert(no_blanks(state_text(st)) + no_blanks(tok.0) =~= no_blanks(state_text(st)));
        },
        TokenKind::Word => {
            let a = avail_spec(lines, first_w, rest_w);
            let over = w + pending + tok.2 > a;
            let (lines1, cur1, w1, a1) = if cur.len() > 0 && over {
                (lines.push(cur), Seq::empty(), 0usize, avail_spec(lines.push(cur), first_w, rest_w))
            } else if cur.len() > 0 && pending > 0 {
                let bl: LookT = match pstyle {
                    Some(p) => p,
                    None => (look.0, look.1, false),
                };
                (lines, push_span_spec(cur, spaces(pending as nat), bl.0, bl.1, bl.2), sat_add(w, pending), a)
            } else {
                (lines, cur, w, a)
            };
            assert(line_text(Seq::<(Seq<char>, Style, Option<LinkId>, bool)>::empty()) == Seq::<char>::empty());
            if cur.len() > 0 && over {
                lemma_lines_text_push(lines, cur);
                assert(lines_text(lines1) + line_text(cur1) =~= lines_text(lines) + line_text(cur));
            } else if cur.len() > 0 && pending > 0 {
                let bl: LookT = match pstyle {
                    Some(p) => p,
                    None => (look.0, look.1, false),
                };
                lemma_push_span_text(cur, spaces(pending as nat), bl.0, bl.1, bl.2);
                assert(crate::util::unicode::is_space_cluster(spaces(pending as nat))) by {
                    assert forall|i: int| 0 <= i < spaces(pending as nat).len() implies #[trigger] crate::util::text::is_white(
                        spaces(pending as nat)[i],
                    ) by {
                        assert((' ' as u32) == 0x20);
                    }
                }
                lemma_white_no_blanks(spaces(pending as nat));
                lemma_no_blanks_add(lines_text(lines) + line_text(cur), spaces(pending as nat));
                assert(lines_text(lines1) + line_text(cur1) =~= lines_text(lines) + line_text(cur) + spaces(pending as nat));
            }
            assert(no_blanks(lines_text(lines1) + line_text(cur1)) == no_blanks(state_text(st)));
            lemma_word_spec_text(lines1, cur1, w1, tok.0, a1, look, rest_w, 2 * tok.0.len() + 2);
            lemma_no_blanks_add(lines_text(lines1) + line_text(cur1), tok.0);
        },
    }
}

proof fn lemma_tokens_spec_text(
    st: WrapState,
    toks: Seq<(Seq<char>, TokenKind, nat)>,
    k: int,
    look: LookT,
    first_w: usize,
    rest_w: usize,
)
    requires
        segmentations_hold(),
        blank_tokens_blank(toks),
        0 <= k <= toks.len(),
    ensures
        no_blanks(state_text(tokens_spec(st, toks, k, look, first_w, rest_w))) == no_blanks(state_text(st)) + no_blanks(
            tokens_text(toks.take(k)),
        ),
    decreases k,
{
    if k > 0 {
        lemma_tokens_spec_text(st, toks, k - 1, look, first_w, rest_w);
        lemma_token_spec_text(tokens_spec(st, toks, k - 1, look, first_w, rest_w), toks[k - 1], look, first_w, rest_w);
        assert(toks.take(k).drop_last() == toks.take(k - 1));
        lemma_no_blanks_add(tokens_text(toks.take(k - 1)), toks[k - 1].0);
    } else {
        assert(toks.take(0) =~= Seq::<(Seq<char>, TokenKind, nat)>::empty());
        assert(no_blanks(Seq::<char>::empty()) =~= Seq::<char>::empty()) by {
            reveal(Seq::filter);
        }
        assert(no_blanks(state_text(st)) + Seq::<char>::empty() =~= no_blanks(state_text(st)));
    }
}

proof fn lemma_pieces_spec_text(ps: Seq<PieceV>, k: int, first_w: usize, rest_w: usize)
    requires
        segmentations_hold(),
        forall|i: int| 0 <= i < ps.len() && (#[trigger] ps[i]).5 ==> ps[i].0.len() == 0,
        0 <= k <= ps.len(),
    ensures
        no_blanks(state_text(pieces_spec(ps, k, first_w, rest_w))) == no_blanks(pieces_text(ps.take(k))),
    decreases k,
{
    if k > 0 {
        lemma_pieces_spec_text(ps, k - 1, first_w, rest_w);
        let st = pieces_spec(ps, k - 1, first_w, rest_w);
        let p = ps[k - 1];
        assert(ps.take(k).drop_last() == ps.take(k - 1));
        lemma_no_blanks_add(pieces_text(ps.take(k - 1)), p.0);
        if p.5 {
            lemma_lines_text_push(st.0, st.1);
            assert(line_text(Seq::<(Seq<char>, Style, Option<LinkId>, bool)>::empty()) == Seq::<char>::empty());
            assert(p.0 =~= Seq::<char>::empty());
            assert(no_blanks(p.0) =~= Seq::<char>::empty()) by {
                reveal(Seq::filter);
            }
            assert(state_text(pieces_spec(ps, k, first_w, rest_w)) =~= state_text(st));
        } else {
            let toks = crate::util::unicode::tokens_of(p.0);
            let gs = crate::util::unicode::grapheme_clusters(p.0);
            assert(crate::util::unicode::is_segmentation(gs, p.0));
            lemma_tokens_from_text(gs, false, TokenKind::Word, Seq::empty(), 0, Seq::empty());
            assert(tokens_text(Seq::<(Seq<char>, TokenKind, nat)>::empty()) + Seq::<char>::empty() + gs.flatten() =~= p.0);
            lemma_tokens_spec_text(st, toks, toks.len() as int, (p.1, p.2, p.3), first_w, rest_w);
            assert(toks.take(toks.len() as int) == toks);
        }
    } else {
        assert(ps.take(0) =~= Seq::<PieceV>::empty());
        assert(state_text(pieces_spec(ps, 0, first_w, rest_w)) =~= Seq::<char>::empty()) by {
            assert(line_text(Seq::<(Seq<char>, Style, Option<LinkId>, bool)>::empty()) == Seq::<char>::empty());
        }
    }
}

/// Wrapping pieces keeps their text: leaving out the white space, the
/// lines read exactly as the pieces do. Stated for pieces whose hard
/// breaks are empty, as every hard break is, and for the segmentation
/// `unicode-segmentation` gives, as its trusted wrapper reports it.
pub proof fn law_wrap_pieces_keeps_the_text(ps: Seq<PieceV>, first_width: usize, rest_width: usize)
    requires
        segmentations_hold(),
        forall|i: int| 0 <= i < ps.len() && (#[trigger] ps[i]).5 ==> ps[i].0.len() == 0,
    ensures
        no_blanks(lines_text(wrap_spec(ps, first_width, rest_width))) == no_blanks(pieces_text(ps)),
{
    let fw: usize = if first_width < 1 { 1 } else { first_width };
    let rw: usize = if rest_width < 1 { 1 } else { rest_width };
    lemma_pieces_spec_text(ps, ps.len() as int, fw, rw);
    assert(ps.take(ps.len() as int) == ps);
    let st = pieces_spec(ps, ps.len() as int, fw, rw);
    if st.1.len() > 0 || st.0.len() == 0 {
        lemma_lines_text_push(st.0, st.1);
    } else {
        assert(line_text(st.1) == Seq::<char>::empty());
        assert(state_text(st) =~= lines_text(st.0));
    }
}

} // verus!
