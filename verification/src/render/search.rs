//! Search highlighting on a render tree.
//!
//! Marking flags the characters of every occurrence of a needle as search
//! matches, splitting spans where necessary; clearing drops the flags and
//! merges the spans back. Text, widths and line count are never touched.
use vstd::prelude::*;
use crate::render::primitives::{spans_text, LinkId, RenderLine, RenderTree, StyledSpan};
use crate::render::theme::Style;
use crate::util::text::{ascii_lower, chars_of, push_char};

verus! {

/// What a span looks like besides its text: style, link and match flag.
pub type Look = (Style, Option<LinkId>, bool);

/// The look of a span.
pub open spec fn look(s: StyledSpan) -> Look {
    (s.style, s.link, s.search_match)
}

/// A span as text and look.
pub open spec fn span_v(s: StyledSpan) -> (Seq<char>, Look) {
    (s.text@, look(s))
}

/// Spans as texts and looks.
pub open spec fn spans_v(ss: Seq<StyledSpan>) -> Seq<(Seq<char>, Look)> {
    ss.map_values(|s: StyledSpan| span_v(s))
}

/// `x` appended to the runs `m`, joining the last run when the looks agree.
pub open spec fn merge_step(m: Seq<(Seq<char>, Look)>, x: (Seq<char>, Look)) -> Seq<(Seq<char>, Look)> {
    if m.len() > 0 && m.last().1 == x.1 {
        m.update(m.len() - 1, (m.last().0 + x.0, x.1))
    } else {
        m.push(x)
    }
}

/// Neighbouring runs of one look merged into one.
pub open spec fn merged(rs: Seq<(Seq<char>, Look)>) -> Seq<(Seq<char>, Look)>
    decreases rs.len(),
{
    if rs.len() == 0 {
        Seq::empty()
    } else {
        merge_step(merged(rs.drop_last()), rs.last())
    }
}

/// The look of every character of a run of spans.
pub open spec fn look_seq(ss: Seq<StyledSpan>) -> Seq<Look>
    decreases ss.len(),
{
    if ss.len() == 0 {
        Seq::empty()
    } else {
        look_seq(ss.drop_last()) + Seq::new(ss.last().text@.len(), |i: int| look(ss.last()))
    }
}

/// One run per character.
pub open spec fn char_runs(cs: Seq<char>, ls: Seq<Look>) -> Seq<(Seq<char>, Look)> {
    Seq::new(cs.len(), |p: int| (seq![cs[p]], ls[p]))
}

/// Character `i` lies in one of the ranges `hits`.
pub open spec fn in_hits(hits: Seq<(int, int)>, i: int) -> bool {
    exists|k: int| 0 <= k < hits.len() && #[trigger] hits[k].0 <= i < hits[k].1
}

/// The looks with the characters inside `hits` flagged as matches.
pub open spec fn flag_looks(ls: Seq<Look>, hits: Seq<(int, int)>) -> Seq<Look> {
    Seq::new(ls.len(), |p: int| (ls[p].0, ls[p].1, ls[p].2 || in_hits(hits, p)))
}

/// Runs with their match flags cleared.
pub open spec fn unflag(rs: Seq<(Seq<char>, Look)>) -> Seq<(Seq<char>, Look)> {
    rs.map_values(|r: (Seq<char>, Look)| (r.0, (r.1.0, r.1.1, false)))
}

/// Ranges given as index pairs.
pub open spec fn hits_view(v: Seq<(usize, usize)>) -> Seq<(int, int)> {
    v.map_values(|p: (usize, usize)| (p.0 as int, p.1 as int))
}

/// `out` is `ss` with the characters inside `hits` marked: unchanged when
/// there is no hit, else the maximal runs of characters of one look.
pub open spec fn marked_spans(ss: Seq<StyledSpan>, hits: Seq<(int, int)>, out: Seq<StyledSpan>) -> bool {
    if hits.len() == 0 {
        out == ss
    } else {
        spans_v(out) == merged(char_runs(spans_text(ss), flag_looks(look_seq(ss), hits)))
    }
}

/// `out` is `ss` with the match flags cleared: unchanged when no span is
/// flagged, else the flags dropped and neighbouring spans of one look merged.
pub open spec fn cleared_spans(ss: Seq<StyledSpan>, out: Seq<StyledSpan>) -> bool {
    if forall|k: int| 0 <= k < ss.len() ==> !(#[trigger] ss[k]).search_match {
        out == ss
    } else {
        spans_v(out) == merged(unflag(spans_v(ss)))
    }
}

/// The leftmost non-overlapping occurrences of `pat` in `hay` from `from`
/// on, as character ranges.
pub open spec fn occurrences(hay: Seq<char>, pat: Seq<char>, from: int) -> Seq<(int, int)>
    decreases hay.len() - from,
{
    if pat.len() == 0 || from < 0 || from + pat.len() > hay.len() {
        Seq::empty()
    } else if hay.subrange(from, from + pat.len()) == pat {
        seq![(from, from + pat.len())] + occurrences(hay, pat, from + pat.len())
    } else {
        occurrences(hay, pat, from + 1)
    }
}

/// What `str::to_lowercase` returns for a string.
pub uninterp spec fn lowercase_of(s: Seq<char>) -> Seq<char>;

/// The number of bytes UTF-8 takes for `c`.
pub open spec fn scalar_len(c: char) -> nat {
    if (c as u32) < 0x80 {
        1
    } else if (c as u32) < 0x800 {
        2
    } else if (c as u32) < 0x10000 {
        3
    } else {
        4
    }
}

/// The byte offset of character `i` of `s` in its UTF-8 form.
pub open spec fn byte_at(s: Seq<char>, i: int) -> nat
    decreases i,
{
    if i <= 0 || i > s.len() {
        0
    } else {
        byte_at(s, i - 1) + scalar_len(s[i - 1])
    }
}

/// The character of `h`, from `j` on, that starts at byte `b`, if `b` is
/// on a character boundary of `h`.
pub open spec fn char_at_byte(h: Seq<char>, b: nat, j: int) -> Option<int>
    decreases h.len() + 1 - j,
{
    if j < 0 || j > h.len() {
        None
    } else if byte_at(h, j) == b {
        Some(j)
    } else if byte_at(h, j) > b {
        None
    } else {
        char_at_byte(h, b, j + 1)
    }
}

/// The hits found in the lower-cased text `l`, from the `k`-th on, carried
/// over to `h` by byte offset; the first whose ends are not character
/// boundaries of `h` stops the search.
pub open spec fn hits_in_hay(h: Seq<char>, l: Seq<char>, occ: Seq<(int, int)>, k: int) -> Seq<(int, int)>
    decreases occ.len() - k,
{
    if k < 0 || k >= occ.len() {
        Seq::empty()
    } else {
        match (char_at_byte(h, byte_at(l, occ[k].0), 0), char_at_byte(h, byte_at(l, occ[k].1), 0)) {
            (Some(x), Some(y)) => seq![(x, y)] + hits_in_hay(h, l, occ, k + 1),
            _ => Seq::empty(),
        }
    }
}

/// The hits of `needle` in `haystack`, given the lower-cased forms: every
/// occurrence, case-sensitively or in the lower-cased texts. Lower-casing
/// can change a text's length in bytes, which would misplace the
/// positions, so the insensitive search only runs when it keeps the
/// haystack's length in bytes; its hits are carried over by byte offset,
/// and the first one that does not fall on character boundaries of the
/// haystack ends the search. Nothing found is a missing highlight and never
/// a wrong one.
pub open spec fn hits_given(
    hay: Seq<char>,
    needle: Seq<char>,
    case_sensitive: bool,
    lowered_hay: Seq<char>,
    lowered_needle: Seq<char>,
) -> Seq<(int, int)> {
    if needle.len() == 0 || hay.len() == 0 {
        Seq::empty()
    } else if case_sensitive {
        occurrences(hay, needle, 0)
    } else if byte_at(lowered_hay, lowered_hay.len() as int) != byte_at(hay, hay.len() as int) {
        Seq::empty()
    } else {
        hits_in_hay(hay, lowered_hay, occurrences(lowered_hay, lowered_needle, 0), 0)
    }
}

/// The hits of `needle` in `haystack` (see [`hits_given`]).
pub open spec fn search_hits(hay: Seq<char>, needle: Seq<char>, case_sensitive: bool) -> Seq<(int, int)> {
    hits_given(hay, needle, case_sensitive, lowercase_of(hay), lowercase_of(needle))
}

/// Every character of `s` is ASCII.
pub open spec fn all_ascii(s: Seq<char>) -> bool {
    forall|i: int| 0 <= i < s.len() ==> (#[trigger] s[i] as u32) < 0x80
}

/// Lower-cases `s` with `str::to_lowercase`. The contract names the result;
/// of its value it claims only what the documentation of `to_lowercase` and
/// `to_ascii_lowercase` gives for ASCII text: `A` to `Z` become `a` to `z`,
/// and every other character stays.
#[verifier::external_body]
fn lowercase(s: &str) -> (r: String)
    ensures
        r@ == lowercase_of(s@),
        all_ascii(s@) ==> r@ == ascii_lower(s@),
{
    s.to_lowercase()
}

/// Whether `pat` occurs in `hay` at `at`.
fn matches_at(hay: &Vec<char>, pat: &Vec<char>, at: usize) -> (b: bool)
    requires
        at + pat@.len() <= hay@.len(),
    ensures
        b == (hay@.subrange(at as int, at + pat@.len()) == pat@),
{
    let mut i: usize = 0;
    while i < pat.len()
        invariant
            i <= pat@.len(),
            at + pat@.len() <= hay.len(),
            forall|j: int| 0 <= j < i ==> hay@[at + j] == #[trigger] pat@[j],
        decreases pat@.len() - i,
    {
        if hay[at + i] != pat[i] {
            assert(hay@.subrange(at as int, at + pat@.len())[i as int] != pat@[i as int]);
            return false;
        }
        i += 1;
    }
    assert(hay@.subrange(at as int, at + pat@.len()) =~= pat@);
    true
}

/// Every occurrence lies in the text, after `from`.
pub open spec fn within(occ: Seq<(int, int)>, n: int) -> bool {
    forall|q: int| 0 <= q < occ.len() ==> 0 <= (#[trigger] occ[q]).0 && occ[q].0 <= occ[q].1 && occ[q].1 <= n
}

proof fn lemma_occurrences_bounds(hay: Seq<char>, pat: Seq<char>, from: int)
    ensures
        within(occurrences(hay, pat, from), hay.len() as int),
    decreases hay.len() - from,
{
    if pat.len() == 0 || from < 0 || from + pat.len() > hay.len() {
        assert(occurrences(hay, pat, from).len() == 0);
    } else if hay.subrange(from, from + pat.len()) == pat {
        lemma_occurrences_bounds(hay, pat, from + pat.len());
        let rest = occurrences(hay, pat, from + pat.len());
        let all = occurrences(hay, pat, from);
        assert(all == seq![(from, from + pat.len())] + rest);
        assert forall|q: int| 0 <= q < all.len() implies 0 <= (#[trigger] all[q]).0 && all[q].0 <= all[q].1 && all[q].1
            <= hay.len() by {
            if q > 0 {
                assert(all[q] == rest[q - 1]);
            } else {
                assert(all[0] == (from, from + pat.len()));
            }
        }
    } else {
        lemma_occurrences_bounds(hay, pat, from + 1);
        assert(occurrences(hay, pat, from) == occurrences(hay, pat, from + 1));
    }
}

/// The leftmost non-overlapping occurrences of `pat` in `hay`.
fn occurrences_in(hay: &Vec<char>, pat: &Vec<char>) -> (out: Vec<(usize, usize)>)
    ensures
        hits_view(out@) == occurrences(hay@, pat@, 0),
{
    let mut out: Vec<(usize, usize)> = Vec::new();
    let n = hay.len();
    let m = pat.len();
    if m == 0 || m > n {
        return out;
    }
    let mut from: usize = 0;
    while from <= n - m
        invariant
            0 < m <= n,
            n == hay@.len(),
            m == pat@.len(),
            from <= n,
            occurrences(hay@, pat@, 0) == hits_view(out@) + occurrences(hay@, pat@, from as int),
        decreases n - from,
    {
        let ghost o = out@;
        if matches_at(hay, pat, from) {
            out.push((from, from + m));
            proof {
                assert(hits_view(out@) == hits_view(o) + seq![(from as int, from + m)]);
            }
            from = from + m;
        } else {
            from = from + 1;
        }
    }
    assert(hits_view(out@) + Seq::<(int, int)>::empty() =~= hits_view(out@));
    out
}

/// The hits of `needle` in `haystack` given the lower-cased forms of both
/// (see [`hits_given`]), as character ranges.
pub fn find_hits(
    haystack: &str,
    needle: &str,
    case_sensitive: bool,
    lowered_hay: &str,
    lowered_needle: &str,
) -> (out: Vec<(usize, usize)>)
    ensures
        hits_view(out@) == hits_given(haystack@, needle@, case_sensitive, lowered_hay@, lowered_needle@),
{
    let hay = chars_of(haystack);
    let pat = chars_of(needle);
    if pat.len() == 0 || hay.len() == 0 {
        return Vec::new();
    }
    if case_sensitive {
        return occurrences_in(&hay, &pat);
    }
    let low = chars_of(lowered_hay);
    let hp = byte_offsets(&hay);
    let lp = byte_offsets(&low);
    if lp[low.len()] != hp[hay.len()] {
        return Vec::new();
    }
    let low_pat = chars_of(lowered_needle);
    let occ = occurrences_in(&low, &low_pat);
    let ghost ov = hits_view(occ@);
    proof {
        lemma_occurrences_bounds(low@, low_pat@, 0);
        assert forall|q: int| 0 <= q < occ@.len() implies (#[trigger] occ@[q]).0 <= occ@[q].1 <= low@.len() by {
            assert(ov[q] == (occ@[q].0 as int, occ@[q].1 as int));
            assert(0 <= ov[q].0 && ov[q].0 <= ov[q].1 && ov[q].1 <= low@.len());
        }
    }
    let mut out: Vec<(usize, usize)> = Vec::new();
    let mut k: usize = 0;
    proof {
        assert(hits_view(out@) + hits_in_hay(hay@, low@, ov, 0) =~= hits_in_hay(hay@, low@, ov, 0));
    }
    while k < occ.len()
        invariant
            k <= occ@.len(),
            ov == hits_view(occ@),
            ov == occurrences(low@, low_pat@, 0),
            hay@ == haystack@,
            low@ == lowered_hay@,
            low_pat@ == lowered_needle@,
            pat@ == needle@,
            pat@.len() > 0,
            hay@.len() > 0,
            !case_sensitive,
            byte_at(low@, low@.len() as int) == byte_at(hay@, hay@.len() as int),
            hp@.len() == hay@.len() + 1,
            lp@.len() == low@.len() + 1,
            forall|i: int| 0 <= i <= hay@.len() ==> #[trigger] hp@[i] == byte_at(hay@, i),
            forall|i: int| 0 <= i <= low@.len() ==> #[trigger] lp@[i] == byte_at(low@, i),
            forall|q: int| 0 <= q < occ@.len() ==> (#[trigger] occ@[q]).0 <= occ@[q].1 <= low@.len(),
            hits_view(out@) + hits_in_hay(hay@, low@, ov, k as int) == hits_in_hay(hay@, low@, ov, 0),
        decreases occ@.len() - k,
    {
        let (a, b) = occ[k];
        assert(ov[k as int] == (a as int, b as int));
        assert(a <= b <= low@.len());
        assert(lp@[a as int] == byte_at(low@, a as int));
        assert(lp@[b as int] == byte_at(low@, b as int));
        let x = char_of_byte(&hp, Ghost(hay@), lp[a]);
        let y = char_of_byte(&hp, Ghost(hay@), lp[b]);
        match (x, y) {
            (Some(x), Some(y)) => {
                let ghost o = hits_view(out@);
                out.push((x, y));
                proof {
                    assert(hits_view(out@) =~= o.push((x as int, y as int)));
                    assert(hits_in_hay(hay@, low@, ov, k as int) == seq![(x as int, y as int)] + hits_in_hay(hay@, low@, ov, k + 1));
                    assert(hits_view(out@) + hits_in_hay(hay@, low@, ov, k + 1) =~= o + hits_in_hay(hay@, low@, ov, k as int));
                }
            },
            _ => {
                proof {
                    assert(hits_in_hay(hay@, low@, ov, k as int) == Seq::<(int, int)>::empty());
                    assert(hits_view(out@) + hits_in_hay(hay@, low@, ov, k as int) =~= hits_view(out@));
                }
                return out;
            },
        }
        k += 1;
    }
    proof {
        assert(hits_view(out@) + hits_in_hay(hay@, low@, ov, k as int) =~= hits_view(out@));
    }
    out
}

/// The byte offset of every character of `cs` and of its end.
fn byte_offsets(cs: &Vec<char>) -> (out: Vec<u128>)
    ensures
        out@.len() == cs@.len() + 1,
        forall|i: int| 0 <= i <= cs@.len() ==> #[trigger] out@[i] == byte_at(cs@, i),
{
    let mut out: Vec<u128> = Vec::new();
    let mut b: u128 = 0;
    out.push(0);
    let mut i: usize = 0;
    while i < cs.len()
        invariant
            i <= cs@.len(),
            out@.len() == i + 1,
            b == byte_at(cs@, i as int),
            b <= 4 * i,
            forall|q: int| 0 <= q <= i ==> #[trigger] out@[q] == byte_at(cs@, q),
        decreases cs@.len() - i,
    {
        let c = cs[i] as u32;
        let n: u128 = if c < 0x80 { 1 } else if c < 0x800 { 2 } else if c < 0x10000 { 3 } else { 4 };
        b = b + n;
        out.push(b);
        i += 1;
    }
    out
}

/// The character that starts at byte `b` of the text whose byte offsets
/// are `offs` (see [`char_at_byte`]).
fn char_of_byte(offs: &Vec<u128>, Ghost(h): Ghost<Seq<char>>, b: u128) -> (out: Option<usize>)
    requires
        offs@.len() == h.len() + 1,
        forall|i: int| 0 <= i <= h.len() ==> #[trigger] offs@[i] == byte_at(h, i),
    ensures
        out is Some <==> char_at_byte(h, b as nat, 0) is Some,
        out matches Some(j) ==> char_at_byte(h, b as nat, 0) == Some(j as int),
{
    let mut j: usize = 0;
    while j < offs.len()
        invariant
            j <= offs@.len(),
            offs@.len() == h.len() + 1,
            forall|i: int| 0 <= i <= h.len() ==> #[trigger] offs@[i] == byte_at(h, i),
            char_at_byte(h, b as nat, 0) == char_at_byte(h, b as nat, j as int),
        decreases offs@.len() - j,
    {
        if offs[j] == b {
            return Some(j);
        }
        if offs[j] > b {
            return None;
        }
        j += 1;
    }
    None
}

/// The hits of `needle` in `haystack` (see [`search_hits`]).
fn find_all(haystack: &str, needle: &str, case_sensitive: bool) -> (out: Vec<(usize, usize)>)
    ensures
        hits_view(out@) == search_hits(haystack@, needle@, case_sensitive),
{
    if needle.is_empty() || haystack.is_empty() || case_sensitive {
        return find_hits(haystack, needle, case_sensitive, haystack, needle);
    }
    let lowered_hay = lowercase(haystack);
    let lowered_needle = lowercase(needle);
    find_hits(haystack, needle, case_sensitive, lowered_hay.as_str(), lowered_needle.as_str())
}

proof fn lemma_look_seq_len(ss: Seq<StyledSpan>)
    ensures
        look_seq(ss).len() == spans_text(ss).len(),
    decreases ss.len(),
{
    if ss.len() > 0 {
        lemma_look_seq_len(ss.drop_last());
    }
}

/// The characters of a run of spans and the look of each.
fn char_looks(spans: &Vec<StyledSpan>) -> (out: (Vec<char>, Vec<Look>))
    ensures
        out.0@ == spans_text(spans@),
        out.1@ == look_seq(spans@),
{
    let mut cs: Vec<char> = Vec::new();
    let mut ls: Vec<Look> = Vec::new();
    let mut i: usize = 0;
    while i < spans.len()
        invariant
            i <= spans@.len(),
            cs@ == spans_text(spans@.take(i as int)),
            ls@ == look_seq(spans@.take(i as int)),
        decreases spans@.len() - i,
    {
        let sp = &spans[i];
        let t = chars_of(sp.text.as_str());
        let lk: Look = (sp.style, sp.link, sp.search_match);
        let ghost cs0 = cs@;
        let ghost ls0 = ls@;
        let mut j: usize = 0;
        while j < t.len()
            invariant
                j <= t@.len(),
                t@ == sp.text@,
                lk == look(*sp),
                cs@ == cs0 + t@.take(j as int),
                ls@ == ls0 + Seq::new(j as nat, |q: int| lk),
            decreases t@.len() - j,
        {
            cs.push(t[j]);
            ls.push(lk);
            j += 1;
            assert(cs@ =~= cs0 + t@.take(j as int));
            assert(ls@ =~= ls0 + Seq::new(j as nat, |q: int| lk));
        }
        proof {
            let tk = spans@.take(i + 1);
            assert(tk.drop_last() == spans@.take(i as int));
            assert(tk.last() == *sp);
            assert(t@.take(j as int) == t@);
            assert(Seq::new(j as nat, |q: int| lk) =~= Seq::new(tk.last().text@.len(), |q: int| look(tk.last())));
        }
        i += 1;
    }
    assert(spans@.take(spans@.len() as int) == spans@);
    (cs, ls)
}

/// Whether character `p` lies in one of the ranges `hits`.
fn covered(hits: &Vec<(usize, usize)>, p: usize) -> (b: bool)
    ensures
        b == in_hits(hits_view(hits@), p as int),
{
    let mut k: usize = 0;
    while k < hits.len()
        invariant
            k <= hits@.len(),
            forall|q: int| 0 <= q < k ==> !(#[trigger] hits@[q].0 <= p < hits@[q].1),
        decreases hits@.len() - k,
    {
        if hits[k].0 <= p && p < hits[k].1 {
            assert(hits_view(hits@)[k as int] == (hits@[k as int].0 as int, hits@[k as int].1 as int));
            return true;
        }
        k += 1;
    }
    assert forall|q: int| 0 <= q < hits_view(hits@).len() implies !(#[trigger] hits_view(hits@)[q].0 <= p
        < hits_view(hits@)[q].1) by {
        assert(hits_view(hits@)[q] == (hits@[q].0 as int, hits@[q].1 as int));
    }
    false
}

/// Whether two looks agree.
fn same_look_as(a: &Look, b: &Look) -> (r: bool)
    ensures
        r == (*a == *b),
{
    let same_link = match (a.1, b.1) {
        (Some(x), Some(y)) => x == y,
        (None, None) => true,
        _ => false,
    };
    a.0 == b.0 && same_link && a.2 == b.2
}

/// `spans` with the characters inside `hits` marked as search matches: the
/// maximal runs of characters of one look, each flagged when it lies in a
/// hit. Text and looks are otherwise kept; empty spans go. (A line with no
/// hit is left alone by its callers, see [`marked_spans`].)
#[verifier::spinoff_prover]
#[verifier::rlimit(30)]
pub fn mark_spans(spans: &Vec<StyledSpan>, hits: &Vec<(usize, usize)>) -> (out: Vec<StyledSpan>)
    ensures
        spans_v(out@) == merged(char_runs(spans_text(spans@), flag_looks(look_seq(spans@), hits_view(hits@)))),
{
    let (cs, ls) = char_looks(spans);
    proof {
        lemma_look_seq_len(spans@);
    }
    let ghost fl = flag_looks(ls@, hits_view(hits@));
    let ghost rs = char_runs(cs@, fl);
    let mut out: Vec<StyledSpan> = Vec::new();
    let mut p: usize = 0;
    while p < cs.len()
        invariant
            p <= cs@.len(),
            ls@.len() == cs@.len(),
            fl == flag_looks(ls@, hits_view(hits@)),
            rs == char_runs(cs@, fl),
            spans_v(out@) == merged(rs.take(p as int)),
        decreases cs@.len() - p,
    {
        let flag = ls[p].2 || covered(hits, p);
        let lk: Look = (ls[p].0, ls[p].1, flag);
        let c = cs[p];
        let ghost m = spans_v(out@);
        proof {
            assert(rs.take(p + 1).drop_last() == rs.take(p as int));
            assert(rs.take(p + 1).last() == rs[p as int]);
            assert(rs[p as int] == (seq![c], lk));
        }
        let n = out.len();
        let joins = if n > 0 {
            let last_look: Look = (out[n - 1].style, out[n - 1].link, out[n - 1].search_match);
            same_look_as(&last_look, &lk)
        } else {
            false
        };
        if joins {
            let mut last = out.pop().unwrap();
            push_char(&mut last.text, c);
            out.push(last);
            proof {
                assert(m.last().0 + seq![c] =~= m.last().0.push(c));
                assert(spans_v(out@) =~= m.update(m.len() - 1, (m.last().0 + seq![c], lk)));
            }
        } else {
            let mut t = String::new();
            push_char(&mut t, c);
            out.push(StyledSpan { text: t, style: lk.0, link: lk.1, search_match: lk.2 });
            proof {
                assert(spans_v(out@) =~= m.push((seq![c], lk)));
            }
        }
        p += 1;
    }
    assert(rs.take(cs@.len() as int) == rs);
    out
}

/// Merge neighbouring spans that carry the same look.
fn merge_spans(spans: &mut Vec<StyledSpan>)
    ensures
        spans_v(final(spans)@) == merged(spans_v(old(spans)@)),
{
    let mut all: Vec<StyledSpan> = Vec::new();
    std::mem::swap(&mut all, spans);
    let ghost src = all@;
    let n0 = all.len();
    let mut rev = crate::render::splice::reversed(all);
    let mut out: Vec<StyledSpan> = Vec::new();
    let mut k: usize = 0;
    while rev.len() > 0
        invariant
            k + rev@.len() == src.len(),
            src.len() == n0,
            forall|j: int| 0 <= j < rev@.len() ==> #[trigger] rev@[j] == src[src.len() - 1 - j],
            spans_v(out@) == merged(spans_v(src.take(k as int))),
        decreases rev@.len(),
    {
        let x = rev.pop().unwrap();
        let ghost m = spans_v(out@);
        proof {
            assert(x == src[k as int]);
            assert(spans_v(src.take(k + 1)).drop_last() =~= spans_v(src.take(k as int)));
            assert(spans_v(src.take(k + 1)).last() == span_v(x));
        }
        let n = out.len();
        let joins = n > 0 && out[n - 1].mergeable(&x);
        if joins {
            let mut last = out.pop().unwrap();
            crate::util::text::push_str(&mut last.text, x.text.as_str());
            out.push(last);
            proof {
                assert(spans_v(out@) =~= m.update(m.len() - 1, (m.last().0 + x.text@, look(x))));
            }
        } else {
            out.push(x);
            proof {
                assert(spans_v(out@) =~= m.push(span_v(x)));
            }
        }
        k += 1;
    }
    assert(src.take(src.len() as int) == src);
    *spans = out;
}

/// Clear the match flags of a run of spans and merge the spans back (see
/// [`cleared_spans`]).
pub fn clear_spans(spans: &mut Vec<StyledSpan>)
    ensures
        cleared_spans(old(spans)@, final(spans)@),
{
    let mut any = false;
    let mut k: usize = 0;
    while k < spans.len()
        invariant
            k <= spans@.len(),
            any == exists|q: int| 0 <= q < k && (#[trigger] spans@[q]).search_match,
        decreases spans@.len() - k,
    {
        if spans[k].search_match {
            any = true;
        }
        k += 1;
    }
    if !any {
        return;
    }
    let ghost src = spans@;
    let mut k: usize = 0;
    while k < spans.len()
        invariant
            k <= spans@.len(),
            spans@.len() == src.len(),
            forall|q: int| 0 <= q < k ==> span_v(#[trigger] spans@[q]) == (src[q].text@, (src[q].style, src[q].link, false)),
            forall|q: int| k <= q < spans@.len() ==> #[trigger] spans@[q] == src[q],
        decreases spans@.len() - k,
    {
        spans[k].search_match = false;
        k += 1;
    }
    assert(spans_v(spans@) =~= unflag(spans_v(src)));
    merge_spans(spans);
}

/// `b` is line `a` with its spans marked for the hits of `needle` in its
/// text; everything else of the line is kept.
pub open spec fn line_marked(a: RenderLine, b: RenderLine, needle: Seq<char>, case_sensitive: bool) -> bool {
    &&& b.node == a.node
    &&& b.kind == a.kind
    &&& b.width == a.width
    &&& b.node_offset == a.node_offset
    &&& marked_spans(a.spans@, search_hits(spans_text(a.spans@), needle, case_sensitive), b.spans@)
}

/// `b` is line `a` with its match flags cleared; everything else is kept.
pub open spec fn line_cleared(a: RenderLine, b: RenderLine) -> bool {
    &&& b.node == a.node
    &&& b.kind == a.kind
    &&& b.width == a.width
    &&& b.node_offset == a.node_offset
    &&& cleared_spans(a.spans@, b.spans@)
}

/// The end of the line range `[first, last)` clamped to `n` lines.
pub open spec fn clamp_end(last: usize, n: nat) -> int {
    if last < n {
        last as int
    } else {
        n as int
    }
}

/// Nothing but the lines of `after` differs from `before`.
pub open spec fn same_index(before: RenderTree, after: RenderTree) -> bool {
    &&& after.lines@.len() == before.lines@.len()
    &&& after.headings == before.headings
    &&& after.max_width == before.max_width
    &&& after.pending == before.pending
    &&& after.spans == before.spans
    &&& after.tail == before.tail
}

/// `after` is `before` with the lines `[first, min(last, n))` marked for
/// `needle`; unchanged when the needle is empty or the range is reversed.
pub open spec fn tree_marked(
    before: RenderTree,
    after: RenderTree,
    first: usize,
    last: usize,
    needle: Seq<char>,
    case_sensitive: bool,
) -> bool {
    let n = before.lines@.len();
    let e = clamp_end(last, n);
    if needle.len() == 0 || first > e {
        after == before
    } else {
        &&& same_index(before, after)
        &&& forall|j: int|
            0 <= j < n ==> if first <= j < e {
                line_marked(before.lines@[j], #[trigger] after.lines@[j], needle, case_sensitive)
            } else {
                after.lines@[j] == before.lines@[j]
            }
    }
}

/// `after` is `before` with the match flags of the lines
/// `[first, min(last, n))` cleared; unchanged when the range is reversed.
pub open spec fn tree_cleared(before: RenderTree, after: RenderTree, first: usize, last: usize) -> bool {
    let n = before.lines@.len();
    let e = clamp_end(last, n);
    if first > e {
        after == before
    } else {
        &&& same_index(before, after)
        &&& forall|j: int|
            0 <= j < n ==> if first <= j < e {
                line_cleared(before.lines@[j], #[trigger] after.lines@[j])
            } else {
                after.lines@[j] == before.lines@[j]
            }
    }
}

impl RenderTree {
    /// Mark every occurrence of `needle` in the lines `[first, last)` as a
    /// search match, splitting spans where necessary (see [`tree_marked`]).
    /// Text, widths and line count are untouched.
    pub fn mark_search(&mut self, first: usize, last: usize, needle: &str, case_sensitive: bool)
        ensures
            tree_marked(*old(self), *final(self), first, last, needle@, case_sensitive),
    {
        if needle.is_empty() {
            return;
        }
        let n = self.lines.len();
        let end = if last < n {
            last
        } else {
            n
        };
        if first > end {
            return;
        }
        let ghost before = *self;
        let mut j = first;
        while j < end
            invariant
                first <= j <= end,
                end == clamp_end(last, before.lines@.len()),
                needle@.len() > 0,
                same_index(before, *self),
                forall|q: int|
                    0 <= q < before.lines@.len() ==> if first <= q < j {
                        line_marked(before.lines@[q], #[trigger] self.lines@[q], needle@, case_sensitive)
                    } else {
                        self.lines@[q] == before.lines@[q]
                    },
            decreases end - j,
        {
            let text = self.lines[j].to_text();
            let hits = find_all(text.as_str(), needle, case_sensitive);
            if hits.len() > 0 {
                let spans = mark_spans(&self.lines[j].spans, &hits);
                self.lines[j].spans = spans;
            }
            j += 1;
        }
    }

    /// The first line in `[first, last)` whose text contains `needle`
    /// (read-only counterpart of [`RenderTree::mark_search`]); the range is
    /// clamped to the tree.
    pub fn find_line_with(&self, first: usize, last: usize, needle: &str, case_sensitive: bool) -> (out:
        Option<usize>)
        ensures
            match out {
                Some(i) => {
                    &&& needle@.len() > 0
                    &&& first <= i < clamp_end(last, self.lines@.len())
                    &&& search_hits(spans_text(self.lines@[i as int].spans@), needle@, case_sensitive).len() > 0
                    &&& forall|q: int|
                        first <= q < i ==> search_hits(
                            spans_text((#[trigger] self.lines@[q]).spans@),
                            needle@,
                            case_sensitive,
                        ).len() == 0
                },
                None => needle@.len() == 0 || forall|q: int|
                    first <= q < clamp_end(last, self.lines@.len()) ==> search_hits(
                        spans_text((#[trigger] self.lines@[q]).spans@),
                        needle@,
                        case_sensitive,
                    ).len() == 0,
            },
    {
        if needle.is_empty() {
            return None;
        }
        let n = self.lines.len();
        let end = if last < n {
            last
        } else {
            n
        };
        let mut j = first;
        while j < end
            invariant
                first <= j,
                needle@.len() > 0,
                end == clamp_end(last, self.lines@.len()),
                forall|q: int|
                    first <= q < j ==> search_hits(
                        spans_text((#[trigger] self.lines@[q]).spans@),
                        needle@,
                        case_sensitive,
                    ).len() == 0,
            decreases end - j,
        {
            let text = self.lines[j].to_text();
            let hits = find_all(text.as_str(), needle, case_sensitive);
            if hits.len() > 0 {
                return Some(j);
            }
            j += 1;
        }
        None
    }

    /// Undo [`RenderTree::mark_search`] over the lines `[first, last)`: drop
    /// the match flags and merge the spans back (see [`tree_cleared`]).
    pub fn clear_search(&mut self, first: usize, last: usize)
        ensures
            tree_cleared(*old(self), *final(self), first, last),
    {
        let n = self.lines.len();
        let end = if last < n {
            last
        } else {
            n
        };
        if first > end {
            return;
        }
        let ghost before = *self;
        let mut j = first;
        while j < end
            invariant
                first <= j <= end,
                end == clamp_end(last, before.lines@.len()),
                same_index(before, *self),
                forall|q: int|
                    0 <= q < before.lines@.len() ==> if first <= q < j {
                        line_cleared(before.lines@[q], #[trigger] self.lines@[q])
                    } else {
                        self.lines@[q] == before.lines@[q]
                    },
            decreases end - j,
        {
            clear_spans(&mut self.lines[j].spans);
            j += 1;
        }
    }
}

/// A run of spans in merged form: no span is empty and no two neighbours
/// share a look.
pub open spec fn run_form(ss: Seq<StyledSpan>) -> bool {
    &&& forall|k: int| 0 <= k < ss.len() ==> (#[trigger] ss[k]).text@.len() > 0
    &&& forall|j: int, k: int|
        #![trigger ss[j], ss[k]]
        0 <= j && k == j + 1 && k < ss.len() ==> look(ss[j]) != look(ss[k])
}

/// No span of the run is flagged as a search match.
pub open spec fn unflagged(ss: Seq<StyledSpan>) -> bool {
    forall|k: int| 0 <= k < ss.len() ==> !(#[trigger] ss[k]).search_match
}

/// No two neighbouring runs share a look.
pub open spec fn distinct_neighbours(rs: Seq<(Seq<char>, Look)>) -> bool {
    forall|j: int, k: int| #![trigger rs[j], rs[k]] 0 <= j && k == j + 1 && k < rs.len() ==> rs[j].1 != rs[k].1
}

/// The concatenated text of runs.
pub open spec fn runs_text(rs: Seq<(Seq<char>, Look)>) -> Seq<char>
    decreases rs.len(),
{
    if rs.len() == 0 {
        Seq::empty()
    } else {
        runs_text(rs.drop_last()) + rs.last().0
    }
}

/// A look with its match flag cleared.
pub open spec fn unflag_look(l: Look) -> Look {
    (l.0, l.1, false)
}

proof fn lemma_merge_step_twice(p: Seq<(Seq<char>, Look)>, a: Seq<char>, b: Seq<char>, l: Look)
    ensures
        merge_step(merge_step(p, (a, l)), (b, l)) == merge_step(p, (a + b, l)),
{
    if p.len() > 0 && p.last().1 == l {
        assert(p.last().0 + a + b =~= p.last().0 + (a + b));
        assert(merge_step(merge_step(p, (a, l)), (b, l)) =~= merge_step(p, (a + b, l)));
    } else {
        assert(merge_step(merge_step(p, (a, l)), (b, l)) =~= merge_step(p, (a + b, l)));
    }
}

proof fn lemma_unflag_merge_step(m: Seq<(Seq<char>, Look)>, r: (Seq<char>, Look))
    ensures
        merged(unflag(merge_step(m, r))) == merge_step(merged(unflag(m)), (r.0, unflag_look(r.1))),
{
    let u = (r.0, unflag_look(r.1));
    if m.len() > 0 && m.last().1 == r.1 {
        let d = m.drop_last();
        let a = m.last().0;
        let l = unflag_look(r.1);
        let ms = merge_step(m, r);
        assert(unflag(ms).drop_last() =~= unflag(d));
        assert(unflag(ms).last() == (a + r.0, l));
        assert(unflag(m).drop_last() =~= unflag(d));
        assert(unflag(m).last() == (a, l));
        lemma_merge_step_twice(merged(unflag(d)), a, r.0, l);
    } else {
        assert(unflag(m.push(r)) =~= unflag(m).push(u));
        assert(unflag(m.push(r)).drop_last() =~= unflag(m));
    }
}

/// Clearing the flags commutes with merging.
proof fn lemma_merged_unflag(rs: Seq<(Seq<char>, Look)>)
    ensures
        merged(unflag(merged(rs))) == merged(unflag(rs)),
    decreases rs.len(),
{
    if rs.len() > 0 {
        let d = rs.drop_last();
        lemma_merged_unflag(d);
        lemma_unflag_merge_step(merged(d), rs.last());
        assert(unflag(rs).drop_last() =~= unflag(d));
        assert(unflag(rs).last() == (rs.last().0, unflag_look(rs.last().1)));
    } else {
        assert(unflag(rs) =~= Seq::<(Seq<char>, Look)>::empty());
        assert(unflag(merged(rs)) =~= Seq::<(Seq<char>, Look)>::empty());
    }
}

proof fn lemma_merged_distinct(rs: Seq<(Seq<char>, Look)>)
    ensures
        distinct_neighbours(merged(rs)),
    decreases rs.len(),
{
    if rs.len() > 0 {
        lemma_merged_distinct(rs.drop_last());
        let m = merged(rs.drop_last());
        let x = rs.last();
        let r = merged(rs);
        assert forall|j: int, k: int| #![trigger r[j], r[k]] 0 <= j && k == j + 1 && k < r.len() implies r[j].1
            != r[k].1 by {
            if m.len() > 0 && m.last().1 == x.1 {
                assert(r[j].1 == m[j].1 && r[k].1 == m[k].1);
            } else if k < m.len() {
                assert(r[j] == m[j] && r[k] == m[k]);
            }
        }
    }
}

proof fn lemma_merged_identity(rs: Seq<(Seq<char>, Look)>)
    requires
        distinct_neighbours(rs),
    ensures
        merged(rs) == rs,
    decreases rs.len(),
{
    if rs.len() > 0 {
        let d = rs.drop_last();
        assert(distinct_neighbours(d)) by {
            assert forall|j: int, k: int| #![trigger d[j], d[k]] 0 <= j && k == j + 1 && k < d.len() implies d[j].1
                != d[k].1 by {
                assert(d[j] == rs[j] && d[k] == rs[k]);
            }
        }
        lemma_merged_identity(d);
        if d.len() > 0 {
            assert(d.last() == rs[rs.len() - 2]);
            assert(rs[rs.len() - 2].1 != rs[rs.len() - 1].1);
        }
        assert(d.push(rs.last()) =~= rs);
    }
}

proof fn lemma_runs_text_step(m: Seq<(Seq<char>, Look)>, x: (Seq<char>, Look))
    ensures
        runs_text(merge_step(m, x)) == runs_text(m) + x.0,
{
    if m.len() > 0 && m.last().1 == x.1 {
        let r = merge_step(m, x);
        assert(r.drop_last() =~= m.drop_last());
        assert(runs_text(m.drop_last()) + (m.last().0 + x.0) =~= runs_text(m.drop_last()) + m.last().0 + x.0);
    } else {
        assert(m.push(x).drop_last() =~= m);
    }
}

/// Merging keeps the text.
proof fn lemma_merged_text(rs: Seq<(Seq<char>, Look)>)
    ensures
        runs_text(merged(rs)) == runs_text(rs),
    decreases rs.len(),
{
    if rs.len() > 0 {
        lemma_merged_text(rs.drop_last());
        lemma_runs_text_step(merged(rs.drop_last()), rs.last());
    }
}

proof fn lemma_char_runs_text(cs: Seq<char>, ls: Seq<Look>)
    requires
        ls.len() == cs.len(),
    ensures
        runs_text(char_runs(cs, ls)) == cs,
    decreases cs.len(),
{
    if cs.len() > 0 {
        lemma_char_runs_text(cs.drop_last(), ls.drop_last());
        assert(char_runs(cs, ls).drop_last() =~= char_runs(cs.drop_last(), ls.drop_last()));
        assert(cs.drop_last() + seq![cs.last()] =~= cs);
    }
}

proof fn lemma_spans_v_text(ss: Seq<StyledSpan>)
    ensures
        runs_text(spans_v(ss)) == spans_text(ss),
    decreases ss.len(),
{
    if ss.len() > 0 {
        lemma_spans_v_text(ss.drop_last());
        assert(spans_v(ss).drop_last() =~= spans_v(ss.drop_last()));
    }
}

proof fn lemma_merged_push_run(a: Seq<(Seq<char>, Look)>, t: Seq<char>, l: Look, k: int)
    requires
        1 <= k <= t.len(),
        merged(a).len() == 0 || merged(a).last().1 != l,
    ensures
        merged(a + char_runs(t, Seq::new(t.len(), |i: int| l)).take(k)) == merged(a).push((t.take(k), l)),
    decreases k,
{
    let b = char_runs(t, Seq::new(t.len(), |i: int| l));
    let x = a + b.take(k);
    assert(x.drop_last() =~= a + b.take(k - 1));
    assert(x.last() == (seq![t[k - 1]], l));
    if k == 1 {
        assert(a + b.take(0) =~= a);
        assert(seq![t[0]] =~= t.take(1));
    } else {
        lemma_merged_push_run(a, t, l, k - 1);
        assert(t.take(k - 1) + seq![t[k - 1]] =~= t.take(k));
        assert(merge_step(merged(a).push((t.take(k - 1), l)), (seq![t[k - 1]], l)) =~= merged(a).push((t.take(k), l)));
    }
}

proof fn lemma_merged_runs(ss: Seq<StyledSpan>)
    requires
        run_form(ss),
    ensures
        merged(char_runs(spans_text(ss), look_seq(ss))) == spans_v(ss),
    decreases ss.len(),
{
    if ss.len() == 0 {
        assert(char_runs(spans_text(ss), look_seq(ss)) =~= Seq::<(Seq<char>, Look)>::empty());
        assert(spans_v(ss) =~= Seq::<(Seq<char>, Look)>::empty());
    } else {
        let d = ss.drop_last();
        let x = ss.last();
        assert(run_form(d)) by {
            assert forall|j: int, k: int| #![trigger d[j], d[k]] 0 <= j && k == j + 1 && k < d.len() implies look(d[j])
                != look(d[k]) by {
                assert(d[j] == ss[j] && d[k] == ss[k]);
            }
        }
        lemma_merged_runs(d);
        lemma_look_seq_len(d);
        let a = char_runs(spans_text(d), look_seq(d));
        let t = x.text@;
        let cl = Seq::new(t.len(), |i: int| look(x));
        assert(char_runs(spans_text(ss), look_seq(ss)) =~= a + char_runs(t, cl));
        assert(x == ss[ss.len() - 1]);
        assert(t.len() > 0);
        if d.len() > 0 {
            assert(spans_v(d).last() == span_v(ss[ss.len() - 2]));
            assert(look(ss[ss.len() - 2]) != look(ss[ss.len() - 1]));
        }
        lemma_merged_push_run(a, t, look(x), t.len() as int);
        assert(char_runs(t, cl).take(t.len() as int) =~= char_runs(t, cl));
        assert(t.take(t.len() as int) =~= t);
        assert(spans_v(d).push(span_v(x)) =~= spans_v(ss));
    }
}

proof fn lemma_look_seq_unflagged(ss: Seq<StyledSpan>)
    requires
        unflagged(ss),
    ensures
        forall|p: int| 0 <= p < look_seq(ss).len() ==> !(#[trigger] look_seq(ss)[p]).2,
    decreases ss.len(),
{
    if ss.len() > 0 {
        let d = ss.drop_last();
        assert(unflagged(d)) by {
            assert forall|k: int| 0 <= k < d.len() implies !(#[trigger] d[k]).search_match by {
                assert(d[k] == ss[k]);
            }
        }
        lemma_look_seq_unflagged(d);
        assert(!ss[ss.len() - 1].search_match);
        let ld = look_seq(d);
        let lx = Seq::new(ss.last().text@.len(), |i: int| look(ss.last()));
        assert(look_seq(ss) == ld + lx);
        assert forall|p: int| 0 <= p < look_seq(ss).len() implies !(#[trigger] look_seq(ss)[p]).2 by {
            if p < ld.len() {
                assert(look_seq(ss)[p] == ld[p]);
            } else {
                assert(look_seq(ss)[p] == lx[p - ld.len()]);
            }
        }
    }
}

/// Clearing the search flags of spans that were marked gives back the
/// spans as they were before marking, when they were in merged form and
/// unflagged, as the layout engine produces them; marking never changes the
/// text.
pub proof fn law_clear_undoes_mark(
    ss: Seq<StyledSpan>,
    hits: Seq<(int, int)>,
    marked: Seq<StyledSpan>,
    cleared: Seq<StyledSpan>,
)
    requires
        run_form(ss),
        unflagged(ss),
        marked_spans(ss, hits, marked),
        cleared_spans(marked, cleared),
    ensures
        spans_text(marked) == spans_text(ss),
        spans_v(cleared) == spans_v(ss),
{
    if hits.len() > 0 {
        let cs = spans_text(ss);
        let ls = look_seq(ss);
        lemma_look_seq_len(ss);
        lemma_look_seq_unflagged(ss);
        let r = char_runs(cs, flag_looks(ls, hits));
        // The text.
        lemma_spans_v_text(marked);
        lemma_merged_text(r);
        lemma_char_runs_text(cs, flag_looks(ls, hits));
        // The spans.
        lemma_merged_unflag(r);
        assert(unflag(r) =~= char_runs(cs, ls));
        lemma_merged_runs(ss);
        lemma_merged_distinct(r);
        if forall|k: int| 0 <= k < marked.len() ==> !(#[trigger] marked[k]).search_match {
            assert(unflag(merged(r)) =~= merged(r)) by {
                assert forall|k: int| 0 <= k < merged(r).len() implies #[trigger] unflag(merged(r))[k]
                    == merged(r)[k] by {
                    assert(spans_v(marked)[k] == span_v(marked[k]));
                }
            }
            lemma_merged_identity(merged(r));
        }
    }
}

/// Clearing the search flags of a range of lines that was marked gives back
/// every line's spans as they were before marking, when they were in merged
/// form and unflagged, as the layout engine produces them; marking never
/// changes a line's text, width, node, kind or offset, nor the tree's index.
pub proof fn law_clear_search_undoes_mark_search(
    t0: RenderTree,
    t1: RenderTree,
    t2: RenderTree,
    first: usize,
    last: usize,
    needle: Seq<char>,
    case_sensitive: bool,
)
    requires
        tree_marked(t0, t1, first, last, needle, case_sensitive),
        tree_cleared(t1, t2, first, last),
        forall|j: int|
            first <= j < clamp_end(last, t0.lines@.len()) ==> run_form((#[trigger] t0.lines@[j]).spans@)
                && unflagged(t0.lines@[j].spans@),
    ensures
        same_index(t0, t1),
        same_index(t0, t2),
        forall|j: int|
            0 <= j < t0.lines@.len() ==> spans_text((#[trigger] t1.lines@[j]).spans@) == spans_text(
                t0.lines@[j].spans@,
            ),
        forall|j: int|
            0 <= j < t0.lines@.len() ==> {
                let a = #[trigger] t0.lines@[j];
                let b = t2.lines@[j];
                &&& b.node == a.node
                &&& b.kind == a.kind
                &&& b.width == a.width
                &&& b.node_offset == a.node_offset
                &&& spans_v(b.spans@) == spans_v(a.spans@)
            },
{
    let n = t0.lines@.len();
    let e = clamp_end(last, n);
    assert forall|j: int| 0 <= j < n implies spans_text((#[trigger] t1.lines@[j]).spans@) == spans_text(
        t0.lines@[j].spans@,
    ) && {
        let a = t0.lines@[j];
        let b = t2.lines@[j];
        &&& b.node == a.node
        &&& b.kind == a.kind
        &&& b.width == a.width
        &&& b.node_offset == a.node_offset
        &&& spans_v(b.spans@) == spans_v(a.spans@)
    } by {
        let a = t0.lines@[j];
        let b = t1.lines@[j];
        let c = t2.lines@[j];
        if first <= j < e {
            if needle.len() == 0 {
                assert(b == a);
            } else {
                assert(line_marked(a, b, needle, case_sensitive));
            }
            assert(marked_spans(a.spans@, search_hits(spans_text(a.spans@), needle, case_sensitive), b.spans@));
            assert(line_cleared(b, c));
            law_clear_undoes_mark(a.spans@, search_hits(spans_text(a.spans@), needle, case_sensitive), b.spans@, c.spans@);
        } else {
            if !(needle.len() == 0 || first > e) {
                assert(b == a);
            }
            assert(c == b);
        }
    }
}

} // verus!
