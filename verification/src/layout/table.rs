//! Table layout settings and the allocation of the available width over
//! the columns.
//!
//! The preferred widths are used when they fit; otherwise the excess is
//! removed proportionally to each column's slack (`preferred - minimum`),
//! taking from the ordinary columns first and from the numeric or code
//! columns only when that is not enough, never going below a minimum. When
//! not even the minimum widths fit, they are returned and the caller decides
//! whether to scroll.
use vstd::prelude::*;
use crate::config::schema::TableMode;
use crate::layout::code::{lemma_matched_fit, line_sat_width, push_copy, sat_width};
use crate::layout::inline::{
    apply_matches, line_view, lines_view, matched_upto, piece_v, pieces_v, push_span, push_span_spec, sat_add, span_view,
    wrap_pieces, wrap_spec, LineV, Piece, PieceV,
};
use crate::render::primitives::{LinkId, StyledSpan};
use crate::render::theme::{style_patch, Style, Theme};
use crate::util::text::{chars_of, push_char, push_spaces, push_str, spaces, to_owned, trim, trim_str};
use crate::util::unicode::{display_width, fits, tokenize, token_view, tokens_of, width, Token, TokenKind};

verus! {

/// Upper bound for a column's minimum width: a longer unbreakable token is
/// hard broken rather than forcing the whole table to grow.
pub const MIN_WIDTH_CAP: usize = 16;

/// Options for table layout.
#[derive(Debug, Clone, Copy, PartialEq, Eq, Structural)]
pub struct TableOptions {
    /// Layout mode.
    pub mode: TableMode,
    /// Maximum width of a single column.
    pub max_column_width: usize,
    /// Unicode box drawing available (ASCII `+-|` fallback otherwise).
    pub unicode: bool,
}

impl Default for TableOptions {
    fn default() -> (o: Self)
        ensures
            o.mode == TableMode::Auto,
            o.max_column_width == 60,
            o.unicode,
    {
        TableOptions { mode: TableMode::Auto, max_column_width: 60, unicode: true }
    }
}

/// Measurements of one column.
#[derive(Debug, Clone, Copy, PartialEq, Eq, Structural)]
pub struct ColumnMeasure {
    /// Smallest width the column can be squeezed into.
    pub min: usize,
    /// Width at which no cell needs wrapping.
    pub preferred: usize,
    /// `true` when every non-empty cell is numeric or inline code: these
    /// columns are shrunk last.
    pub priority: bool,
}

/// A column's preferred width, at least one.
pub open spec fn pref_of(m: ColumnMeasure) -> nat {
    if m.preferred < 1 { 1 } else { m.preferred as nat }
}

/// A column's minimum width, at least one and at most its preferred width.
pub open spec fn min_of(m: ColumnMeasure) -> nat {
    let lo: nat = if m.min < 1 { 1 } else { m.min as nat };
    if lo > pref_of(m) { pref_of(m) } else { lo }
}

pub open spec fn total_pref(ms: Seq<ColumnMeasure>) -> nat
    decreases ms.len(),
{
    if ms.len() == 0 { 0 } else { total_pref(ms.drop_last()) + pref_of(ms.last()) }
}

pub open spec fn total_min(ms: Seq<ColumnMeasure>) -> nat
    decreases ms.len(),
{
    if ms.len() == 0 { 0 } else { total_min(ms.drop_last()) + min_of(ms.last()) }
}

proof fn lemma_totals_take(ms: Seq<ColumnMeasure>, i: int)
    requires
        0 <= i < ms.len(),
    ensures
        total_pref(ms.take(i + 1)) == total_pref(ms.take(i)) + pref_of(ms[i]),
        total_min(ms.take(i + 1)) == total_min(ms.take(i)) + min_of(ms[i]),
{
    assert(ms.take(i + 1).drop_last() == ms.take(i));
}

/// The sum of the first `k` entries of `s`.
pub open spec fn psum(s: Seq<usize>, k: int) -> int
    decreases k,
{
    if k <= 0 {
        0
    } else {
        psum(s, k - 1) + s[k - 1]
    }
}

/// The sum of all entries of `s`.
pub open spec fn sum_of(s: Seq<usize>) -> int {
    psum(s, s.len() as int)
}

/// Summed slack (`preferred - minimum`) of the columns of one class.
pub open spec fn class_slack(ms: Seq<ColumnMeasure>, prio: bool) -> int
    decreases ms.len(),
{
    if ms.len() == 0 {
        0
    } else {
        class_slack(ms.drop_last(), prio) + if ms.last().priority == prio {
            pref_of(ms.last()) - min_of(ms.last())
        } else {
            0
        }
    }
}

/// Summed slack (`width - minimum`) of the first `k` columns of one class.
pub open spec fn slack_upto(ws: Seq<usize>, mins: Seq<usize>, prios: Seq<bool>, prio: bool, k: int) -> int
    decreases k,
{
    if k <= 0 {
        0
    } else {
        slack_upto(ws, mins, prios, prio, k - 1) + if prios[k - 1] == prio {
            ws[k - 1] - mins[k - 1]
        } else {
            0
        }
    }
}

/// A column's floor share of `take` when `take` is spread over the slack
/// `total` in proportion to the column's own slack `s`.
pub open spec fn floor_share(s: int, take: int, total: int) -> int {
    s * take / total
}

/// Summed floor shares of the first `k` slacks.
pub open spec fn floors_upto(sl: Seq<usize>, take: int, total: int, k: int) -> int
    decreases k,
{
    if k <= 0 {
        0
    } else {
        floors_upto(sl, take, total, k - 1) + floor_share(sl[k - 1] as int, take, total)
    }
}

/// How many of the first `k` floor shares fall short of their slack.
pub open spec fn short_upto(sl: Seq<usize>, take: int, total: int, k: int) -> int
    decreases k,
{
    if k <= 0 {
        0
    } else {
        short_upto(sl, take, total, k - 1) + if floor_share(sl[k - 1] as int, take, total) < sl[k - 1] {
            1int
        } else {
            0
        }
    }
}

proof fn lemma_psum_update(s: Seq<usize>, i: int, v: usize, k: int)
    requires
        0 <= i < s.len(),
        0 <= k <= s.len(),
    ensures
        psum(s.update(i, v), k) == if i < k { psum(s, k) - s[i] + v } else { psum(s, k) },
    decreases k,
{
    if k > 0 {
        lemma_psum_update(s, i, v, k - 1);
    }
}

proof fn lemma_psum_push_all(s: Seq<usize>, v: usize, k: int)
    requires
        0 <= k <= s.len(),
    ensures
        psum(s.push(v), k) == psum(s, k),
    decreases k,
{
    if k > 0 {
        lemma_psum_push_all(s, v, k - 1);
    }
}

proof fn lemma_share_step(s: int, take: int, total: int)
    requires
        0 <= s,
        0 <= take <= total,
        0 < total,
    ensures
        0 <= floor_share(s, take, total) <= s,
        0 <= s * take - floor_share(s, take, total) * total <= total - 1,
        floor_share(s, take, total) == s ==> s * take - floor_share(s, take, total) * total == 0,
{
    let f = s * take / total;
    let r = s * take % total;
    vstd::arithmetic::div_mod::lemma_fundamental_div_mod(s * take, total);
    assert(0 <= r < total) by {
        vstd::arithmetic::div_mod::lemma_mod_bound(s * take, total);
    }
    assert(s * take == total * f + r);
    assert(0 <= s * take) by (nonlinear_arith)
        requires
            0 <= s,
            0 <= take,
    ;
    assert(s * take <= s * total) by (nonlinear_arith)
        requires
            0 <= s,
            take <= total,
    ;
    assert(0 <= f) by (nonlinear_arith)
        requires
            s * take == total * f + r,
            0 <= s * take,
            r < total,
            0 < total,
    ;
    assert(f <= s) by (nonlinear_arith)
        requires
            s * take == total * f + r,
            s * take <= s * total,
            0 <= r,
            0 < total,
    ;
    assert(f * total == total * f) by (nonlinear_arith);
    if f == s {
        assert(s * take - s * total <= 0) by (nonlinear_arith)
            requires
                0 <= s,
                take <= total,
        ;
    }
}

/// The residues of the floor shares add up to `total` times the part of
/// `take` the floors leave out, and each short share leaves less than
/// `total`.
proof fn lemma_residues(sl: Seq<usize>, take: int, total: int, k: int)
    requires
        0 <= take <= total,
        0 < total,
        0 <= k <= sl.len(),
    ensures
        0 <= psum(sl, k) * take - floors_upto(sl, take, total, k) * total <= (total - 1) * short_upto(
            sl,
            take,
            total,
            k,
        ),
        floors_upto(sl, take, total, k) <= psum(sl, k),
        0 <= short_upto(sl, take, total, k),
    decreases k,
{
    if k > 0 {
        lemma_residues(sl, take, total, k - 1);
        let s = sl[k - 1] as int;
        lemma_share_step(s, take, total);
        let a = psum(sl, k - 1);
        let b = floors_upto(sl, take, total, k - 1);
        let f = floor_share(s, take, total);
        let c = short_upto(sl, take, total, k - 1);
        let d: int = if f < s { 1 } else { 0 };
        assert((a + s) * take - (b + f) * total == (a * take - b * total) + (s * take - f * total)) by (nonlinear_arith);
        assert((total - 1) * (c + d) == (total - 1) * c + (total - 1) * d) by (nonlinear_arith);
        assert(s * take - f * total <= (total - 1) * d);
    }
}

/// The floor shares leave out no more of `take` than there are short shares.
proof fn lemma_rest_fits(sl: Seq<usize>, take: int, total: int)
    requires
        0 <= take <= total,
        0 < total,
        psum(sl, sl.len() as int) == total,
    ensures
        0 <= take - floors_upto(sl, take, total, sl.len() as int) <= short_upto(sl, take, total, sl.len() as int),
{
    let n = sl.len() as int;
    lemma_residues(sl, take, total, n);
    let sf = floors_upto(sl, take, total, n);
    let c = short_upto(sl, take, total, n);
    assert(total * take - sf * total == total * (take - sf)) by (nonlinear_arith);
    assert(0 <= take - sf) by (nonlinear_arith)
        requires
            0 <= total * (take - sf),
            0 < total,
    ;
    assert(take - sf <= c) by (nonlinear_arith)
        requires
            total * (take - sf) <= (total - 1) * c,
            0 < total,
            0 <= c,
    ;
}

/// Position `x` comes before `y` in the order of decreasing slack, ties by
/// position.
pub open spec fn slack_before(sl: Seq<usize>, x: int, y: int) -> bool {
    sl[x] > sl[y] || (sl[x] == sl[y] && x < y)
}

/// Positions `0 .. sl.len()` by decreasing slack, ties by position.
fn remainder_order(sl: &Vec<usize>) -> (order: Vec<usize>)
    ensures
        forall|k: int| 0 <= k < order@.len() ==> #[trigger] order@[k] < sl@.len(),
        forall|p: usize| p < sl@.len() ==> #[trigger] order@.contains(p),
        forall|a: int, b: int| 0 <= a < b < order@.len() ==> #[trigger] order@[a] != #[trigger] order@[b],
        forall|a: int, b: int| 0 <= a < b < order@.len() ==> slack_before(sl@, #[trigger] order@[a] as int, #[trigger] order@[b] as int),
{
    let mut order: Vec<usize> = Vec::new();
    let mut p: usize = 0;
    while p < sl.len()
        invariant
            p <= sl@.len(),
            forall|k: int| 0 <= k < order@.len() ==> #[trigger] order@[k] < p,
            forall|q: usize| q < p ==> #[trigger] order@.contains(q),
            forall|a: int, b: int| 0 <= a < b < order@.len() ==> #[trigger] order@[a] != #[trigger] order@[b],
            forall|a: int, b: int| 0 <= a < b < order@.len() ==> slack_before(sl@, #[trigger] order@[a] as int, #[trigger] order@[b] as int),
        decreases sl@.len() - p,
    {
        let sp = sl[p];
        let mut j: usize = 0;
        while j < order.len()
            invariant
                j <= order@.len(),
                p < sl@.len(),
                forall|k: int| 0 <= k < order@.len() ==> #[trigger] order@[k] < p,
                forall|k: int| 0 <= k < j ==> slack_before(sl@, #[trigger] order@[k] as int, p as int),
                sp == sl@[p as int],
            ensures
                j <= order@.len(),
                forall|k: int| 0 <= k < j ==> slack_before(sl@, #[trigger] order@[k] as int, p as int),
                j < order@.len() ==> sl@[order@[j as int] as int] < sl@[p as int],
            decreases order@.len() - j,
        {
            let o = order[j];
            let so = sl[o];
            if sp > so || (sp == so && p < o) {
                break;
            }
            assert(slack_before(sl@, order@[j as int] as int, p as int));
            j += 1;
        }
        let ghost before = order@;
        order.insert(j, p);
        proof {
            assert(order@[j as int] == p);
            assert forall|q: usize| q <= p implies #[trigger] order@.contains(q) by {
                if q < p {
                    assert(before.contains(q));
                    let w = choose|w: int| 0 <= w < before.len() && before[w] == q;
                    if w < j {
                        assert(order@[w] == before[w]);
                    } else {
                        assert(order@[w + 1] == before[w]);
                    }
                }
            }
            assert forall|k: int| 0 <= k < order@.len() implies #[trigger] order@[k] < p + 1 by {
                if k < j {
                    assert(order@[k] == before[k]);
                } else if k > j {
                    assert(order@[k] == before[k - 1]);
                }
            }
            if j < before.len() {
                assert(slack_before(sl@, p as int, before[j as int] as int));
            }
            assert forall|a: int, b: int| 0 <= a < b < order@.len() implies slack_before(sl@, #[trigger] order@[a] as int, #[trigger] order@[b] as int) by {
                let va = if a < j { before[a] } else if a == j { p } else { before[a - 1] };
                let vb = if b < j { before[b] } else if b == j { p } else { before[b - 1] };
                assert(order@[a] == va);
                assert(order@[b] == vb);
                if a != j && b != j {
                    let ia = if a < j { a } else { a - 1 };
                    let ib = if b < j { b } else { b - 1 };
                    assert(slack_before(sl@, before[ia] as int, before[ib] as int));
                } else if a == j {
                    assert(slack_before(sl@, before[j as int] as int, before[b - 1] as int) || b - 1 == j);
                }
            }
            assert forall|a: int, b: int| 0 <= a < b < order@.len() implies #[trigger] order@[a] != #[trigger] order@[b] by {
                let va = if a < j { before[a] } else if a == j { p } else { before[a - 1] };
                let vb = if b < j { before[b] } else if b == j { p } else { before[b - 1] };
                assert(order@[a] == va);
                assert(order@[b] == vb);
                if a != j && b != j {
                    let ia = if a < j { a } else { a - 1 };
                    let ib = if b < j { b } else { b - 1 };
                    assert(ia < ib);
                    assert(before[ia] != before[ib]);
                } else if a == j {
                    assert(before[b - 1] < p);
                } else {
                    assert(before[a] < p);
                }
            }
        }
        p += 1;
    }
    order
}

/// `take` spread over the slacks `sl` (summing to `total`) in proportion:
/// floor shares first, then one more for the largest slacks (ties by
/// position) until the shares add up to `take`. No share exceeds its slack.
fn spread(sl: &Vec<usize>, take: usize, total: u128) -> (shares: Vec<usize>)
    requires
        0 < total,
        take <= total,
        psum(sl@, sl@.len() as int) == total,
    ensures
        shares@.len() == sl@.len(),
        forall|p: int| 0 <= p < sl@.len() ==> #[trigger] shares@[p] <= sl@[p],
        forall|p: int| 0 <= p < sl@.len() ==> floor_share(sl@[p] as int, take as int, total as int) <= #[trigger] shares@[p]
            && shares@[p] <= floor_share(sl@[p] as int, take as int, total as int) + 1,
        forall|p: int, q: int|
            0 <= p < sl@.len() && 0 <= q < sl@.len() && floor_share(sl@[p] as int, take as int, total as int) < sl@[p]
                && slack_before(sl@, p, q) && #[trigger] shares@[q] == floor_share(sl@[q] as int, take as int, total as int) + 1
                ==> #[trigger] shares@[p] == floor_share(sl@[p] as int, take as int, total as int) + 1,
        sum_of(shares@) == take,
{
    let n = sl.len();
    let ghost t = take as int;
    let ghost tot = total as int;
    let mut shares: Vec<usize> = Vec::new();
    let mut given: u128 = 0;
    let mut p: usize = 0;
    while p < n
        invariant
            p <= n,
            n == sl@.len(),
            0 < total,
            take <= total,
            t == take,
            tot == total,
            shares@.len() == p,
            forall|q: int| 0 <= q < p ==> #[trigger] shares@[q] == floor_share(sl@[q] as int, t, tot),
            forall|q: int| 0 <= q < p ==> #[trigger] shares@[q] <= sl@[q],
            given == floors_upto(sl@, t, tot, p as int),
            psum(shares@, p as int) == given,
            given <= psum(sl@, p as int),
            psum(sl@, n as int) == total,
        decreases n - p,
    {
        proof {
            lemma_share_step(sl@[p as int] as int, t, tot);
            lemma_psum_prefix_le(sl@, p as int + 1, n as int);
        }
        let s = sl[p];
        assert((s as int) * (take as int) <= 0xffff_ffff_ffff_ffff * 0xffff_ffff_ffff_ffff) by (nonlinear_arith)
            requires
                s <= 0xffff_ffff_ffff_ffff,
                take <= 0xffff_ffff_ffff_ffff,
        ;
        let prod: u128 = (s as u128) * (take as u128);
        assert(prod == (s as int) * (take as int));
        let f: u128 = prod / total;
        assert(f == floor_share(s as int, t, tot));
        proof {
            lemma_psum_push_all(shares@, f as usize, p as int);
        }
        shares.push(f as usize);
        given = given + f;
        p += 1;
    }
    proof {
        lemma_rest_fits(sl@, t, tot);
    }
    let ghost floors = shares@;
    let ghost rest0 = take - given;
    let order = remainder_order(sl);
    let mut rest: u128 = take as u128 - given;
    let mut o: usize = 0;
    while o < order.len() && rest > 0
        invariant
            o <= order@.len(),
            n == sl@.len(),
            shares@.len() == n,
            floors.len() == n,
            forall|k: int| 0 <= k < order@.len() ==> #[trigger] order@[k] < n,
            forall|a: int, b: int| 0 <= a < b < order@.len() ==> #[trigger] order@[a] != #[trigger] order@[b],
            forall|q: int| 0 <= q < n ==> floors[q] <= #[trigger] shares@[q] && shares@[q] <= sl@[q],
            forall|q: int| 0 <= q < n ==> #[trigger] shares@[q] <= floors[q] + 1,
            forall|q: int| 0 <= q < n && !order@.take(o as int).contains(q as usize) ==> #[trigger] shares@[q] == floors[q],
            forall|a: int| 0 <= a < o && floors[order@[a] as int] < sl@[order@[a] as int] ==> #[trigger] shares@[order@[a] as int]
                == floors[order@[a] as int] + 1,
            forall|q: int| 0 <= q < n ==> #[trigger] floors[q] == floor_share(sl@[q] as int, t, tot),
            rest <= rest0,
            psum(shares@, n as int) == psum(floors, n as int) + (rest0 - rest),
            rest == 0 || forall|q: int|
                0 <= q < n && order@.take(o as int).contains(q as usize) && floors[q] < sl@[q]
                    ==> #[trigger] shares@[q] >= floors[q] + 1,
        decreases order@.len() - o,
    {
        let q = order[o];
        let ghost before = shares@;
        assert(!order@.take(o as int).contains(q)) by {
            if order@.take(o as int).contains(q) {
                let w = choose|w: int| 0 <= w < o && #[trigger] order@.take(o as int)[w] == q;
                assert(order@[w] == order@[o as int]);
            }
        }
        if shares[q] < sl[q] {
            let v = shares[q] + 1;
            shares.set(q, v);
            rest = rest - 1;
            proof {
                lemma_psum_update(before, q as int, v, n as int);
            }
        }
        proof {
            assert forall|a: int| 0 <= a < o + 1 && floors[order@[a] as int] < sl@[order@[a] as int] implies #[trigger] shares@[order@[a] as int]
                == floors[order@[a] as int] + 1 by {
                if a < o {
                    assert(order@[a] != order@[o as int]);
                }
            }
            assert forall|x: int| 0 <= x < n && !order@.take(o + 1).contains(x as usize) implies #[trigger] shares@[x] == floors[x] by {
                assert(order@.take(o + 1)[o as int] == q);
                if order@.take(o as int).contains(x as usize) {
                    let w = choose|w: int| 0 <= w < o && #[trigger] order@.take(o as int)[w] == x as usize;
                    assert(order@.take(o + 1)[w] == x as usize);
                }
            }
            assert forall|x: int|
                0 <= x < n && order@.take(o + 1).contains(x as usize) && floors[x] < sl@[x] implies #[trigger] shares@[x]
                >= floors[x] + 1 by {
                if rest > 0 {
                    if x != q as int {
                        let w = choose|w: int| 0 <= w < o + 1 && #[trigger] order@.take(o + 1)[w] == x as usize;
                        assert(order@.take(o as int)[w] == x as usize);
                    }
                }
            }
        }
        o += 1;
    }
    proof {
        assert forall|p: int, q: int|
            0 <= p < n && 0 <= q < n && floor_share(sl@[p] as int, t, tot) < sl@[p] && slack_before(sl@, p, q)
                && #[trigger] shares@[q] == floor_share(sl@[q] as int, t, tot) + 1 implies #[trigger] shares@[p]
            == floor_share(sl@[p] as int, t, tot) + 1 by {
            assert(shares@[q] != floors[q]);
            assert(order@.take(o as int).contains(q as usize));
            let b = choose|b: int| 0 <= b < o && #[trigger] order@.take(o as int)[b] == q as usize;
            assert(order@[b] == q as usize);
            assert(order@.contains(p as usize));
            let a = choose|a: int| 0 <= a < order@.len() && #[trigger] order@[a] == p as usize;
            if a > b {
                assert(slack_before(sl@, order@[b] as int, order@[a] as int));
            }
            assert(a != b);
            assert(a < o);
        }
        if rest > 0 {
            assert(order@.take(order@.len() as int) == order@);
            assert forall|q: int| 0 <= q < n implies #[trigger] shares@[q] >= floors[q] + if floors[q] < sl@[q] {
                1int
            } else {
                0
            } by {
                if floors[q] < sl@[q] {
                    assert(order@.contains(q as usize));
                    assert(order@.take(order@.len() as int).contains(q as usize));
                }
            }
            lemma_psum_lower(shares@, floors, sl@, t, tot, n as int);
            assert(floors_upto(sl@, t, tot, n as int) == psum(floors, n as int)) by {
                lemma_floors_psum(floors, sl@, t, tot, n as int);
            }
        }
    }
    shares
}

proof fn lemma_psum_prefix_le(s: Seq<usize>, k: int, n: int)
    requires
        0 <= k <= n <= s.len(),
    ensures
        psum(s, k) <= psum(s, n),
    decreases n - k,
{
    if k < n {
        lemma_psum_prefix_le(s, k, n - 1);
    }
}

proof fn lemma_floors_psum(floors: Seq<usize>, sl: Seq<usize>, take: int, total: int, k: int)
    requires
        0 <= k <= floors.len(),
        floors.len() == sl.len(),
        forall|q: int| 0 <= q < floors.len() ==> #[trigger] floors[q] == floor_share(sl[q] as int, take, total),
    ensures
        floors_upto(sl, take, total, k) == psum(floors, k),
    decreases k,
{
    if k > 0 {
        lemma_floors_psum(floors, sl, take, total, k - 1);
    }
}

proof fn lemma_psum_lower(shares: Seq<usize>, floors: Seq<usize>, sl: Seq<usize>, take: int, total: int, k: int)
    requires
        0 <= k <= shares.len(),
        shares.len() == floors.len(),
        floors.len() == sl.len(),
        forall|q: int| 0 <= q < floors.len() ==> #[trigger] floors[q] == floor_share(sl[q] as int, take, total),
        forall|q: int|
            0 <= q < shares.len() ==> #[trigger] shares[q] >= floors[q] + if floors[q] < sl[q] {
                1int
            } else {
                0
            },
    ensures
        psum(shares, k) >= psum(floors, k) + short_upto(sl, take, total, k),
    decreases k,
{
    if k > 0 {
        lemma_psum_lower(shares, floors, sl, take, total, k - 1);
        assert(shares[k - 1] >= floors[k - 1] + if floors[k - 1] < sl[k - 1] {
            1int
        } else {
            0
        });
    }
}

proof fn lemma_slack_push(ws: Seq<usize>, mins: Seq<usize>, prios: Seq<bool>, prio: bool, k: int)
    requires
        0 <= k,
    ensures
        slack_upto(ws, mins, prios, prio, k + 1) == slack_upto(ws, mins, prios, prio, k) + if prios[k] == prio {
            ws[k] - mins[k]
        } else {
            0
        },
{
}

proof fn lemma_slack_same(a: Seq<usize>, b: Seq<usize>, mins: Seq<usize>, prios: Seq<bool>, prio: bool, k: int)
    requires
        0 <= k <= a.len(),
        k <= b.len(),
        k <= prios.len(),
        forall|i: int| 0 <= i < k && prios[i] == prio ==> #[trigger] a[i] == b[i],
    ensures
        slack_upto(a, mins, prios, prio, k) == slack_upto(b, mins, prios, prio, k),
    decreases k,
{
    if k > 0 {
        lemma_slack_same(a, b, mins, prios, prio, k - 1);
    }
}

/// The positions of the columns of one class, in order, and their slacks.
fn class_slacks(widths: &Vec<usize>, mins: &Vec<usize>, prios: &Vec<bool>, prio: bool) -> (out: (
    Vec<usize>,
    Vec<usize>,
    u128,
))
    requires
        widths@.len() == mins@.len(),
        mins@.len() == prios@.len(),
        forall|i: int| 0 <= i < mins@.len() ==> #[trigger] mins@[i] <= widths@[i],
    ensures
        out.0@.len() == out.1@.len(),
        forall|q: int| 0 <= q < out.0@.len() ==> #[trigger] out.0@[q] < widths@.len(),
        forall|q: int| 0 <= q < out.0@.len() ==> prios@[#[trigger] out.0@[q] as int] == prio,
        forall|a: int, b: int| 0 <= a < b < out.0@.len() ==> #[trigger] out.0@[a] < #[trigger] out.0@[b],
        forall|i: usize| i < widths@.len() && prios@[i as int] == prio ==> #[trigger] out.0@.contains(i),
        forall|q: int| 0 <= q < out.1@.len() ==> #[trigger] out.1@[q] == widths@[out.0@[q] as int] - mins@[out.0@[q] as int],
        out.2 == psum(out.1@, out.1@.len() as int),
        out.2 == slack_upto(widths@, mins@, prios@, prio, widths@.len() as int),
{
    let n = widths.len();
    let mut idxs: Vec<usize> = Vec::new();
    let mut sl: Vec<usize> = Vec::new();
    let mut total: u128 = 0;
    let mut i: usize = 0;
    while i < n
        invariant
            i <= n,
            n == widths@.len(),
            widths@.len() == mins@.len(),
            mins@.len() == prios@.len(),
            forall|k: int| 0 <= k < mins@.len() ==> #[trigger] mins@[k] <= widths@[k],
            idxs@.len() == sl@.len(),
            forall|q: int| 0 <= q < idxs@.len() ==> #[trigger] idxs@[q] < i,
            forall|q: int| 0 <= q < idxs@.len() ==> prios@[#[trigger] idxs@[q] as int] == prio,
            forall|a: int, b: int| 0 <= a < b < idxs@.len() ==> #[trigger] idxs@[a] < #[trigger] idxs@[b],
            forall|k: usize| k < i && prios@[k as int] == prio ==> #[trigger] idxs@.contains(k),
            forall|q: int| 0 <= q < sl@.len() ==> #[trigger] sl@[q] == widths@[idxs@[q] as int] - mins@[idxs@[q] as int],
            total == psum(sl@, sl@.len() as int),
            total == slack_upto(widths@, mins@, prios@, prio, i as int),
            total <= i * 0xffff_ffff_ffff_ffff,
        decreases n - i,
    {
        proof {
            lemma_slack_push(widths@, mins@, prios@, prio, i as int);
        }
        if prios[i] == prio {
            let s = widths[i] - mins[i];
            let ghost before_i = idxs@;
            let ghost before_s = sl@;
            proof {
                lemma_psum_push_all(sl@, s, sl@.len() as int);
            }
            idxs.push(i);
            sl.push(s);
            assert(total + s <= (i + 1) * 0xffff_ffff_ffff_ffff) by (nonlinear_arith)
                requires
                    total <= i * 0xffff_ffff_ffff_ffff,
                    s <= 0xffff_ffff_ffff_ffff,
            ;
            assert((i + 1) * 0xffff_ffff_ffff_ffff < 0x1_0000_0000_0000_0000 * 0x1_0000_0000_0000_0000) by (nonlinear_arith)
                requires
                    i < 0x1_0000_0000_0000_0000,
            ;
            total = total + s as u128;
            proof {
                assert forall|k: usize| k < i + 1 && prios@[k as int] == prio implies #[trigger] idxs@.contains(k) by {
                    if k < i {
                        assert(before_i.contains(k));
                        let w = choose|w: int| 0 <= w < before_i.len() && before_i[w] == k;
                        assert(idxs@[w] == k);
                    } else {
                        assert(idxs@[idxs@.len() - 1] == k);
                    }
                }
            }
        } else {
            proof {
                assert forall|k: usize| k < i + 1 && prios@[k as int] == prio implies #[trigger] idxs@.contains(k) by {
                    if k < i {
                    }
                }
            }
        }
        i += 1;
    }
    (idxs, sl, total)
}

/// Column `i` has more slack (`width - minimum`) than column `j`, or as
/// much and comes first.
pub open spec fn wider_slack(ws: Seq<usize>, mins: Seq<usize>, i: int, j: int) -> bool {
    ws[i] - mins[i] > ws[j] - mins[j] || (ws[i] - mins[i] == ws[j] - mins[j] && i < j)
}

/// Take up to `excess` columns from the columns of one class, in proportion
/// to their slack (`width - minimum`) and never below a minimum. Returns how
/// many were taken: all of `excess`, or the whole slack when that is less.
fn shrink_pass(widths: &mut Vec<usize>, mins: &Vec<usize>, prios: &Vec<bool>, prio: bool, excess: usize) -> (took: usize)
    requires
        old(widths)@.len() == mins@.len(),
        mins@.len() == prios@.len(),
        forall|i: int| 0 <= i < mins@.len() ==> #[trigger] mins@[i] <= old(widths)@[i],
    ensures
        final(widths)@.len() == old(widths)@.len(),
        forall|i: int| 0 <= i < mins@.len() && prios@[i] != prio ==> #[trigger] final(widths)@[i] == old(widths)@[i],
        forall|i: int| 0 <= i < mins@.len() ==> mins@[i] <= #[trigger] final(widths)@[i] && final(widths)@[i] <= old(widths)@[i],
        took == if excess <= slack_upto(old(widths)@, mins@, prios@, prio, mins@.len() as int) {
            excess as int
        } else {
            slack_upto(old(widths)@, mins@, prios@, prio, mins@.len() as int)
        },
        sum_of(final(widths)@) + took == sum_of(old(widths)@),
        ({
            let slack = slack_upto(old(widths)@, mins@, prios@, prio, mins@.len() as int);
            let take: int = if excess <= slack { excess as int } else { slack };
            &&& slack > 0 ==> forall|i: int| 0 <= i < mins@.len() && prios@[i] == prio ==> floor_share(
                old(widths)@[i] - mins@[i],
                take,
                slack,
            ) <= old(widths)@[i] - #[trigger] final(widths)@[i] <= floor_share(old(widths)@[i] - mins@[i], take, slack) + 1
            &&& excess >= slack ==> forall|i: int| 0 <= i < mins@.len() && prios@[i] == prio ==> #[trigger] final(widths)@[i]
                == mins@[i]
            &&& slack > 0 ==> forall|i: int, j: int|
                0 <= i < mins@.len() && 0 <= j < mins@.len() && prios@[i] == prio && prios@[j] == prio
                    && floor_share(old(widths)@[i] - mins@[i], take, slack) < old(widths)@[i] - mins@[i]
                    && wider_slack(old(widths)@, mins@, i, j)
                    && old(widths)@[j] - #[trigger] final(widths)@[j] == floor_share(old(widths)@[j] - mins@[j], take, slack) + 1
                    ==> old(widths)@[i] - #[trigger] final(widths)@[i] == floor_share(old(widths)@[i] - mins@[i], take, slack) + 1
        }),
{
    let n = widths.len();
    let (idxs, sl, total) = class_slacks(widths, mins, prios, prio);
    if total == 0 {
        proof {
            assert forall|i: int| 0 <= i < mins@.len() && prios@[i] == prio implies #[trigger] widths@[i] == mins@[i] by {
                assert(idxs@.contains(i as usize));
                let w = choose|w: int| 0 <= w < idxs@.len() && #[trigger] idxs@[w] == i as usize;
                lemma_psum_zero(sl@, w, sl@.len() as int);
            }
        }
        return 0;
    }
    let take: usize = if (excess as u128) < total {
        excess
    } else {
        total as usize
    };
    let shares = spread(&sl, take, total);
    let ghost orig = widths@;
    let mut q: usize = 0;
    while q < idxs.len()
        invariant
            q <= idxs@.len(),
            n == orig.len(),
            widths@.len() == n,
            mins@.len() == n,
            idxs@.len() == sl@.len(),
            shares@.len() == sl@.len(),
            forall|m: int| 0 <= m < idxs@.len() ==> #[trigger] idxs@[m] < n,
            forall|a: int, b: int| 0 <= a < b < idxs@.len() ==> #[trigger] idxs@[a] < #[trigger] idxs@[b],
            forall|m: int| 0 <= m < sl@.len() ==> #[trigger] sl@[m] == orig[idxs@[m] as int] - mins@[idxs@[m] as int],
            forall|m: int| 0 <= m < sl@.len() ==> #[trigger] shares@[m] <= sl@[m],
            forall|m: int| 0 <= m < q ==> #[trigger] widths@[idxs@[m] as int] == orig[idxs@[m] as int] - shares@[m],
            forall|i: int| 0 <= i < n && !idxs@.take(q as int).contains(i as usize) ==> #[trigger] widths@[i] == orig[i],
            psum(widths@, n as int) == psum(orig, n as int) - psum(shares@, q as int),
        decreases idxs@.len() - q,
    {
        let i = idxs[q];
        let sh = shares[q];
        assert(!idxs@.take(q as int).contains(i)) by {
            if idxs@.take(q as int).contains(i) {
                let w = choose|w: int| 0 <= w < q && #[trigger] idxs@.take(q as int)[w] == i;
                assert(idxs@[w] < idxs@[q as int]);
            }
        }
        let ghost before = widths@;
        let v = widths[i] - sh;
        widths.set(i, v);
        proof {
            lemma_psum_update(before, i as int, v, n as int);
            assert forall|m: int| 0 <= m < q + 1 implies #[trigger] widths@[idxs@[m] as int] == orig[idxs@[m] as int]
                - shares@[m] by {
                if m < q {
                    assert(idxs@[m] < idxs@[q as int]);
                }
            }
            assert forall|k: int| 0 <= k < n && !idxs@.take(q + 1).contains(k as usize) implies #[trigger] widths@[k]
                == orig[k] by {
                assert(idxs@.take(q + 1)[q as int] == i);
                if k != i as int {
                    if idxs@.take(q as int).contains(k as usize) {
                        let w = choose|w: int| 0 <= w < q && #[trigger] idxs@.take(q as int)[w] == k as usize;
                        assert(idxs@.take(q + 1)[w] == k as usize);
                    }
                }
            }
        }
        q += 1;
    }
    proof {
        assert(idxs@.take(idxs@.len() as int) == idxs@);
        assert forall|i: int| 0 <= i < n implies mins@[i] <= #[trigger] widths@[i] && widths@[i] <= orig[i] by {
            if idxs@.contains(i as usize) {
                let w = choose|w: int| 0 <= w < idxs@.len() && #[trigger] idxs@[w] == i as usize;
                assert(widths@[idxs@[w] as int] == orig[idxs@[w] as int] - shares@[w]);
            }
        }
        assert forall|i: int| 0 <= i < n && prios@[i] != prio implies #[trigger] widths@[i] == orig[i] by {
            if idxs@.contains(i as usize) {
                let w = choose|w: int| 0 <= w < idxs@.len() && #[trigger] idxs@[w] == i as usize;
            }
        }
        assert forall|i: int| 0 <= i < n && prios@[i] == prio implies floor_share(orig[i] - mins@[i], take as int, total as int)
            <= orig[i] - #[trigger] widths@[i] <= floor_share(orig[i] - mins@[i], take as int, total as int) + 1 by {
            assert(idxs@.contains(i as usize));
            let w = choose|w: int| 0 <= w < idxs@.len() && #[trigger] idxs@[w] == i as usize;
            assert(widths@[idxs@[w] as int] == orig[idxs@[w] as int] - shares@[w]);
            assert(sl@[w] == orig[i] - mins@[i]);
        }
        assert forall|i: int, j: int|
            0 <= i < n && 0 <= j < n && prios@[i] == prio && prios@[j] == prio
                && floor_share(orig[i] - mins@[i], take as int, total as int) < orig[i] - mins@[i]
                && wider_slack(orig, mins@, i, j)
                && orig[j] - #[trigger] widths@[j] == floor_share(orig[j] - mins@[j], take as int, total as int) + 1
                implies orig[i] - #[trigger] widths@[i] == floor_share(orig[i] - mins@[i], take as int, total as int) + 1 by {
            assert(idxs@.contains(i as usize));
            let a = choose|a: int| 0 <= a < idxs@.len() && #[trigger] idxs@[a] == i as usize;
            assert(idxs@.contains(j as usize));
            let b = choose|b: int| 0 <= b < idxs@.len() && #[trigger] idxs@[b] == j as usize;
            assert(widths@[idxs@[a] as int] == orig[idxs@[a] as int] - shares@[a]);
            assert(widths@[idxs@[b] as int] == orig[idxs@[b] as int] - shares@[b]);
            assert(sl@[a] == orig[i] - mins@[i]);
            assert(sl@[b] == orig[j] - mins@[j]);
            if i < j {
                if a > b {
                    assert(idxs@[b] < idxs@[a]);
                }
            } else if i > j {
                if a < b {
                    assert(idxs@[a] < idxs@[b]);
                }
            }
            assert(slack_before(sl@, a, b));
            assert(shares@[b] == floor_share(sl@[b] as int, take as int, total as int) + 1);
        }
        if excess as u128 >= total {
            assert forall|i: int| 0 <= i < n && prios@[i] == prio implies #[trigger] widths@[i] == mins@[i] by {
                assert(idxs@.contains(i as usize));
                let w = choose|w: int| 0 <= w < idxs@.len() && #[trigger] idxs@[w] == i as usize;
                assert(widths@[idxs@[w] as int] == orig[idxs@[w] as int] - shares@[w]);
                vstd::arithmetic::div_mod::lemma_div_by_multiple(sl@[w] as int, total as int);
                assert(floor_share(sl@[w] as int, take as int, total as int) == sl@[w]);
            }
        }
    }
    take
}

proof fn lemma_psum_zero(s: Seq<usize>, w: int, k: int)
    requires
        0 <= w < k <= s.len(),
        psum(s, k) == 0,
    ensures
        s[w] == 0,
    decreases k,
{
    lemma_psum_nonneg(s, k - 1);
    if w < k - 1 {
        lemma_psum_zero(s, w, k - 1);
    }
}

proof fn lemma_psum_nonneg(s: Seq<usize>, k: int)
    requires
        0 <= k <= s.len(),
    ensures
        psum(s, k) >= 0,
    decreases k,
{
    if k > 0 {
        lemma_psum_nonneg(s, k - 1);
    }
}

proof fn lemma_class_slack(ms: Seq<ColumnMeasure>, ws: Seq<usize>, mins: Seq<usize>, prios: Seq<bool>, k: int)
    requires
        0 <= k <= ms.len(),
        ws.len() == ms.len(),
        mins.len() == ms.len(),
        prios.len() == ms.len(),
        forall|i: int| 0 <= i < ms.len() ==> #[trigger] ws[i] == pref_of(ms[i]),
        forall|i: int| 0 <= i < ms.len() ==> #[trigger] mins[i] == min_of(ms[i]),
        forall|i: int| 0 <= i < ms.len() ==> #[trigger] prios[i] == ms[i].priority,
    ensures
        slack_upto(ws, mins, prios, false, k) == class_slack(ms.take(k), false),
        slack_upto(ws, mins, prios, true, k) == class_slack(ms.take(k), true),
        slack_upto(ws, mins, prios, false, k) + slack_upto(ws, mins, prios, true, k) == total_pref(ms.take(k))
            - total_min(ms.take(k)),
        psum(ws, k) == total_pref(ms.take(k)),
    decreases k,
{
    if k > 0 {
        lemma_class_slack(ms, ws, mins, prios, k - 1);
        assert(ms.take(k).drop_last() == ms.take(k - 1));
    }
}

/// Column `i` can still give one more than its floor share of `take` over
/// the slack `total`, and has more slack than column `j` or as much and
/// comes first: it gets its extra one before `j` does.
pub open spec fn extra_goes_first(ms: Seq<ColumnMeasure>, i: int, j: int, take: int, total: int) -> bool {
    let si = pref_of(ms[i]) - min_of(ms[i]);
    let sj = pref_of(ms[j]) - min_of(ms[j]);
    &&& floor_share(si, take, total) < si
    &&& (si > sj || (si == sj && i < j))
}

/// Distributes `avail` content columns over the measured columns and
/// returns the content widths (without padding or borders). When the
/// preferred widths fit they are used verbatim; when not even the minimum
/// widths fit, the minimum widths are returned. Otherwise the excess is
/// removed in proportion to each column's slack (`preferred - minimum`),
/// taking from the ordinary columns first and from the numeric or code
/// columns only when that is not enough, so that the widths add up to
/// exactly `avail`; the rounding remainder goes to the columns of largest
/// slack, ties by position.
/// What [`allocate`] promises of the widths `ws` it gives for the
/// measures `ms` and `avail` content columns.
pub open spec fn allocate_ok(ms: Seq<ColumnMeasure>, avail: usize, ws: Seq<usize>) -> bool {
    &&& ws.len() == ms.len()
    &&& total_pref(ms) <= avail ==> forall|i: int|
            0 <= i < ms.len() ==> #[trigger] ws[i] == pref_of(ms[i])
    &&& total_pref(ms) > avail && total_min(ms) >= avail ==> forall|i: int|
            0 <= i < ms.len() ==> #[trigger] ws[i] == min_of(ms[i])
    &&& forall|i: int|
            0 <= i < ms.len() ==> min_of(ms[i]) <= #[trigger] ws[i] && ws[i] <= pref_of(
                ms[i],
            )
    &&& total_min(ms) < avail < total_pref(ms) && total_pref(ms) - avail <= usize::MAX
            ==> sum_of(ws) == avail
    &&& total_min(ms) < avail < total_pref(ms) && total_pref(ms) - avail <= class_slack(ms, false)
        ==> forall|i: int| 0 <= i < ms.len() && ms[i].priority ==> #[trigger] ws[i] == pref_of(ms[i])
    &&& ({
            let ex = total_pref(ms) - avail;
            let so = class_slack(ms, false);
            let sp = class_slack(ms, true);
            total_min(ms) < avail < total_pref(ms) && ex <= usize::MAX ==> {
                &&& so > 0 ==> forall|i: int| 0 <= i < ms.len() && !ms[i].priority ==> floor_share(
                    pref_of(ms[i]) - min_of(ms[i]),
                    if ex <= so { ex } else { so },
                    so,
                ) <= pref_of(ms[i]) - #[trigger] ws[i] <= floor_share(
                    pref_of(ms[i]) - min_of(ms[i]),
                    if ex <= so { ex } else { so },
                    so,
                ) + 1
                &&& ex >= so ==> forall|i: int| 0 <= i < ms.len() && !ms[i].priority ==> #[trigger] ws[i] == min_of(
                    ms[i],
                )
                &&& ex > so && sp > 0 ==> forall|i: int| 0 <= i < ms.len() && ms[i].priority ==> floor_share(
                    pref_of(ms[i]) - min_of(ms[i]),
                    ex - so,
                    sp,
                ) <= pref_of(ms[i]) - #[trigger] ws[i] <= floor_share(pref_of(ms[i]) - min_of(ms[i]), ex - so, sp) + 1
                &&& so > 0 ==> forall|i: int, j: int|
                    0 <= i < ms.len() && 0 <= j < ms.len() && !ms[i].priority && !ms[j].priority && extra_goes_first(
                        ms,
                        i,
                        j,
                        if ex <= so { ex } else { so },
                        so,
                    ) && pref_of(ms[j]) - #[trigger] ws[j] == floor_share(
                        pref_of(ms[j]) - min_of(ms[j]),
                        if ex <= so { ex } else { so },
                        so,
                    ) + 1 ==> pref_of(ms[i]) - #[trigger] ws[i] == floor_share(
                        pref_of(ms[i]) - min_of(ms[i]),
                        if ex <= so { ex } else { so },
                        so,
                    ) + 1
                &&& ex > so && sp > 0 ==> forall|i: int, j: int|
                    0 <= i < ms.len() && 0 <= j < ms.len() && ms[i].priority && ms[j].priority && extra_goes_first(
                        ms,
                        i,
                        j,
                        ex - so,
                        sp,
                    ) && pref_of(ms[j]) - #[trigger] ws[j] == floor_share(pref_of(ms[j]) - min_of(ms[j]), ex - so, sp) + 1
                        ==> pref_of(ms[i]) - #[trigger] ws[i] == floor_share(
                        pref_of(ms[i]) - min_of(ms[i]),
                        ex - so,
                        sp,
                    ) + 1
            }
        })
}

pub fn allocate(measures: &Vec<ColumnMeasure>, avail: usize) -> (widths: Vec<usize>)
    ensures
        allocate_ok(measures@, avail, widths@),
{
    let n = measures.len();
    let mut pref: Vec<usize> = Vec::new();
    let mut min: Vec<usize> = Vec::new();
    let mut prios: Vec<bool> = Vec::new();
    let mut tp: u128 = 0;
    let mut tm: u128 = 0;
    let mut i: usize = 0;
    while i < n
        invariant
            i <= n,
            n == measures@.len(),
            pref@.len() == i,
            min@.len() == i,
            prios@.len() == i,
            forall|k: int| 0 <= k < i ==> #[trigger] pref@[k] == pref_of(measures@[k]),
            forall|k: int| 0 <= k < i ==> #[trigger] min@[k] == min_of(measures@[k]),
            forall|k: int| 0 <= k < i ==> #[trigger] prios@[k] == measures@[k].priority,
            tp == total_pref(measures@.take(i as int)),
            tm == total_min(measures@.take(i as int)),
            tp <= i * 0xffff_ffff_ffff_ffff,
            tm <= tp,
        decreases n - i,
    {
        proof {
            lemma_totals_take(measures@, i as int);
        }
        let m = measures[i];
        let p: usize = if m.preferred < 1 {
            1
        } else {
            m.preferred
        };
        let lo: usize = if m.min < 1 {
            1
        } else {
            m.min
        };
        let mn: usize = if lo > p {
            p
        } else {
            lo
        };
        pref.push(p);
        min.push(mn);
        prios.push(m.priority);
        assert(tp + p <= (i + 1) * 0xffff_ffff_ffff_ffff) by (nonlinear_arith)
            requires
                tp <= i * 0xffff_ffff_ffff_ffff,
                p <= 0xffff_ffff_ffff_ffff,
        ;
        assert((i + 1) * 0xffff_ffff_ffff_ffff < 0x1_0000_0000_0000_0000 * 0x1_0000_0000_0000_0000) by (nonlinear_arith)
            requires
                i < 0x1_0000_0000_0000_0000,
        ;
        tp = tp + p as u128;
        tm = tm + mn as u128;
        i += 1;
    }
    proof {
        assert(measures@.take(n as int) == measures@);
        lemma_class_slack(measures@, pref@, min@, prios@, n as int);
    }
    if tp <= avail as u128 {
        return pref;
    }
    if tm >= avail as u128 {
        return min;
    }
    let excess: usize = if tp - avail as u128 > usize::MAX as u128 {
        usize::MAX
    } else {
        (tp - avail as u128) as usize
    };
    let mut widths = pref;
    let ghost w0 = widths@;
    let took = shrink_pass(&mut widths, &min, &prios, false, excess);
    let ghost w1 = widths@;
    let rest = excess - took;
    if rest > 0 {
        proof {
            lemma_slack_same(w1, w0, min@, prios@, true, n as int);
        }
        let _ = shrink_pass(&mut widths, &min, &prios, true, rest);
    }
    widths
}


/// Horizontal alignment of a table column.
#[derive(Debug, Clone, Copy, PartialEq, Eq, Structural)]
pub enum Alignment {
    /// No alignment given (left).
    NoAlign,
    /// `:--`.
    Left,
    /// `:-:`.
    Center,
    /// `--:`.
    Right,
}

/// One table cell: its plain text, and whether it is made of inline code
/// only (and not empty).
#[derive(Debug, Clone)]
pub struct TableCell {
    /// The cell's text.
    pub text: String,
    /// The cell is non-empty inline code only.
    pub code: bool,
}

/// A table: the header cells, the rows (possibly ragged) and the column
/// alignments.
#[derive(Debug, Clone)]
pub struct Table {
    /// Header cells.
    pub header: Vec<TableCell>,
    /// Body rows.
    pub rows: Vec<Vec<TableCell>>,
    /// Column alignments.
    pub alignments: Vec<Alignment>,
}

/// The longest row among the first `k`.
pub open spec fn longest_row(rows: Seq<Vec<TableCell>>, k: nat) -> nat
    decreases k,
{
    if k == 0 {
        0
    } else {
        let p = longest_row(rows, (k - 1) as nat);
        if rows[k - 1]@.len() > p { rows[k - 1]@.len() } else { p }
    }
}

/// The number of columns: the most of the header cells, the alignments and
/// the cells of any row.
pub open spec fn column_count_spec(t: Table) -> nat {
    let h = t.header@.len();
    let a = t.alignments@.len();
    let r = longest_row(t.rows@, t.rows@.len());
    let m = if h > a { h } else { a };
    if m > r { m } else { r }
}

/// Number of columns, tolerating ragged rows.
pub fn column_count(t: &Table) -> (n: usize)
    ensures
        n == column_count_spec(*t),
{
    let mut r: usize = 0;
    let mut k: usize = 0;
    while k < t.rows.len()
        invariant
            k <= t.rows@.len(),
            r == longest_row(t.rows@, k as nat),
        decreases t.rows@.len() - k,
    {
        if t.rows[k].len() > r {
            r = t.rows[k].len();
        }
        k += 1;
    }
    let h = t.header.len();
    let a = t.alignments.len();
    let m = if h > a { h } else { a };
    if m > r { m } else { r }
}

/// Every cell's text is short enough for the width computations.
pub open spec fn table_fits(t: Table) -> bool {
    &&& forall|c: int| 0 <= c < t.header@.len() ==> fits((#[trigger] t.header@[c]).text@)
    &&& forall|r: int, c: int| 0 <= r < t.rows@.len() && 0 <= c < t.rows@[r]@.len() ==> fits(
        (#[trigger] t.rows@[r]@[c]).text@,
    )
}

/// The widest word among the first `k` tokens (0 for none).
pub open spec fn widest_word(ts: Seq<(Seq<char>, TokenKind, nat)>, k: nat) -> nat
    decreases k,
{
    if k == 0 {
        0
    } else {
        let p = widest_word(ts, (k - 1) as nat);
        if ts[k - 1].1 == TokenKind::Word && ts[k - 1].2 > p { ts[k - 1].2 } else { p }
    }
}

/// The width of the longest unbreakable token of `s`.
pub open spec fn longest_token_spec(s: Seq<char>) -> nat {
    widest_word(tokens_of(s), tokens_of(s).len())
}

fn longest_token(text: &str) -> (w: usize)
    requires
        fits(text@),
    ensures
        w == longest_token_spec(text@),
{
    let ts = tokenize(text);
    let ghost tv = ts@.map_values(|t: Token| token_view(t));
    let mut w: usize = 0;
    let mut k: usize = 0;
    while k < ts.len()
        invariant
            k <= ts@.len(),
            tv == ts@.map_values(|t: Token| token_view(t)),
            w == widest_word(tv, k as nat),
        decreases ts@.len() - k,
    {
        proof {
            assert(tv[k as int] == token_view(ts@[k as int]));
        }
        if ts[k].kind == TokenKind::Word && ts[k].width > w {
            w = ts[k].width;
        }
        k += 1;
    }
    w
}

/// A character allowed in a numeric cell.
pub open spec fn numeric_char(c: char) -> bool {
    ('0' <= c && c <= '9') || c == '.' || c == ',' || c == '-' || c == '+' || c == '%' || c == ':' || c == '/'
        || c == ' ' || c == '_'
}

/// Whether `s`, trimmed, is non-empty and made of digits and number
/// punctuation only.
pub open spec fn is_numeric_spec(s: Seq<char>) -> bool {
    let t = trim(s);
    t.len() > 0 && forall|i: int| 0 <= i < t.len() ==> #[trigger] numeric_char(t[i])
}

fn is_numeric(text: &str) -> (b: bool)
    ensures
        b == is_numeric_spec(text@),
{
    let t = trim_str(text);
    let cs = chars_of(t.as_str());
    if cs.len() == 0 {
        return false;
    }
    let mut i: usize = 0;
    while i < cs.len()
        invariant
            i <= cs@.len(),
            cs@ == trim(text@),
            forall|j: int| 0 <= j < i ==> #[trigger] numeric_char(cs@[j]),
        decreases cs@.len() - i,
    {
        let c = cs[i];
        let ok = ('0' <= c && c <= '9') || c == '.' || c == ',' || c == '-' || c == '+' || c == '%' || c == ':'
            || c == '/' || c == ' ' || c == '_';
        if !ok {
            assert(!numeric_char(cs@[i as int]));
            return false;
        }
        i += 1;
    }
    true
}

/// The cells of column `c` that are present, top to bottom, each with its
/// text, whether it is code, and whether it has a say in the column being
/// numeric or code (every cell but the header).
pub open spec fn column_cells(t: Table, c: int) -> Seq<(Seq<char>, bool, bool)> {
    let head: Seq<(Seq<char>, bool, bool)> = if 0 <= c < t.header@.len() {
        seq![(t.header@[c].text@, t.header@[c].code, false)]
    } else {
        Seq::empty()
    };
    head + row_cells(t.rows@, c, t.rows@.len())
}

/// The cells of column `c` in the first `k` rows that have one.
pub open spec fn row_cells(rows: Seq<Vec<TableCell>>, c: int, k: nat) -> Seq<(Seq<char>, bool, bool)>
    decreases k,
{
    if k == 0 {
        Seq::empty()
    } else {
        let p = row_cells(rows, c, (k - 1) as nat);
        if 0 <= c < rows[k - 1]@.len() {
            p.push((rows[k - 1]@[c].text@, rows[k - 1]@[c].code, true))
        } else {
            p
        }
    }
}

/// Widest text, longest token, whether every cell with a say is numeric
/// or code, and whether any cell is non-blank, over the first `k` cells.
pub open spec fn measure_upto(cells: Seq<(Seq<char>, bool, bool)>, k: nat) -> (nat, nat, bool, bool)
    decreases k,
{
    if k == 0 {
        (0, 0, true, false)
    } else {
        let (p, m, pr, any) = measure_upto(cells, (k - 1) as nat);
        let (text, code, says) = cells[k - 1];
        let w = display_width(text);
        let l = longest_token_spec(text);
        let p2 = if w > p { w } else { p };
        let m2 = if l > m { l } else { m };
        if trim(text).len() > 0 {
            (p2, m2, if says { pr && (is_numeric_spec(text) || code) } else { pr }, true)
        } else {
            (p2, m2, pr, any)
        }
    }
}

proof fn lemma_measure_push(a: Seq<(Seq<char>, bool, bool)>, e: (Seq<char>, bool, bool), k: nat)
    requires
        k <= a.len(),
    ensures
        measure_upto(a.push(e), k) == measure_upto(a, k),
    decreases k,
{
    if k > 0 {
        lemma_measure_push(a, e, (k - 1) as nat);
        assert(a.push(e)[k - 1] == a[k - 1]);
    }
}

/// The measure of column `c`: the widest cell (capped by `cap`, at least
/// one) as preferred width, the longest unbreakable token (capped by
/// [`MIN_WIDTH_CAP`] and the preferred width, at least one) as minimum, and
/// priority when every non-blank body cell is numeric or code and some cell
/// is non-blank.
pub open spec fn column_measure_spec(t: Table, c: int, cap: nat) -> ColumnMeasure {
    let cells = column_cells(t, c);
    let (p, m, pr, any) = measure_upto(cells, cells.len());
    let pref: nat = if p < cap { p } else { cap };
    let pref1: nat = if pref < 1 { 1 } else { pref };
    let m1: nat = if m < MIN_WIDTH_CAP { m } else { MIN_WIDTH_CAP as nat };
    let m2: nat = if m1 < pref1 { m1 } else { pref1 };
    ColumnMeasure { min: (if m2 < 1 { 1 } else { m2 }) as usize, preferred: pref1 as usize, priority: pr && any }
}

/// The measures of every column of `t`, preferred widths capped at
/// `max_column_width` (at least one).
pub open spec fn measures_spec(t: Table, max_column_width: usize) -> Seq<ColumnMeasure> {
    let cap: nat = if max_column_width < 1 { 1 } else { max_column_width as nat };
    Seq::new(column_count_spec(t), |c: int| column_measure_spec(t, c, cap))
}

/// One measuring step over a cell.
fn measure_cell(acc: (usize, usize, bool, bool), text: &str, code: bool, says: bool) -> (out: (usize, usize, bool, bool))
    requires
        fits(text@),
    ensures
        ({
            let w = display_width(text@);
            let l = longest_token_spec(text@);
            let p2 = if w > acc.0 { w } else { acc.0 as nat };
            let m2 = if l > acc.1 { l } else { acc.1 as nat };
            (out.0 as nat, out.1 as nat, out.2, out.3) == if trim(text@).len() > 0 {
                (p2, m2, if says { acc.2 && (is_numeric_spec(text@) || code) } else { acc.2 }, true)
            } else {
                (p2, m2, acc.2, acc.3)
            }
        }),
{
    let (mut p, mut m, mut pr, mut any) = acc;
    let w = width(text);
    if w > p {
        p = w;
    }
    let l = longest_token(text);
    if l > m {
        m = l;
    }
    let t = trim_str(text);
    if !t.as_str().is_empty() {
        any = true;
        if says {
            pr = pr && (is_numeric(text) || code);
        }
    }
    (p, m, pr, any)
}

/// Measure every column of the table: preferred and minimum widths and
/// whether the column is numeric or code.
pub fn measure_columns(t: &Table, max_column_width: usize) -> (ms: Vec<ColumnMeasure>)
    requires
        table_fits(*t),
    ensures
        ms@ == measures_spec(*t, max_column_width),
{
    let ncols = column_count(t);
    let cap: usize = if max_column_width < 1 { 1 } else { max_column_width };
    let mut out: Vec<ColumnMeasure> = Vec::new();
    let mut c: usize = 0;
    while c < ncols
        invariant
            c <= ncols,
            ncols == column_count_spec(*t),
            cap as nat == (if max_column_width < 1 { 1 } else { max_column_width as nat }),
            table_fits(*t),
            out@.len() == c,
            forall|k: int| 0 <= k < c ==> #[trigger] out@[k] == column_measure_spec(*t, k, cap as nat),
        decreases ncols - c,
    {
        let ghost cells = column_cells(*t, c as int);
        let ghost head: Seq<(Seq<char>, bool, bool)> = if c < t.header@.len() {
            seq![(t.header@[c as int].text@, t.header@[c as int].code, false)]
        } else {
            Seq::empty()
        };
        let mut acc: (usize, usize, bool, bool) = (0, 0, true, false);
        if c < t.header.len() {
            acc = measure_cell(acc, t.header[c].text.as_str(), t.header[c].code, false);
        }
        proof {
            assert(head.len() <= 1);
            reveal_with_fuel(measure_upto, 2);
            assert(head + row_cells(t.rows@, c as int, 0) =~= head);
            assert((acc.0 as nat, acc.1 as nat, acc.2, acc.3) == measure_upto(head, head.len()));
        }
        let mut r: usize = 0;
        while r < t.rows.len()
            invariant
                r <= t.rows@.len(),
                table_fits(*t),
                head.len() <= 1,
                (acc.0 as nat, acc.1 as nat, acc.2, acc.3) == measure_upto(
                    head + row_cells(t.rows@, c as int, r as nat),
                    (head + row_cells(t.rows@, c as int, r as nat)).len(),
                ),
            decreases t.rows@.len() - r,
        {
            let ghost before = head + row_cells(t.rows@, c as int, r as nat);
            if c < t.rows[r].len() {
                let cell = &t.rows[r][c];
                proof {
                    assert(fits(t.rows@[r as int]@[c as int].text@));
                }
                acc = measure_cell(acc, cell.text.as_str(), cell.code, true);
                proof {
                    let e = (t.rows@[r as int]@[c as int].text@, t.rows@[r as int]@[c as int].code, true);
                    assert(head + row_cells(t.rows@, c as int, (r + 1) as nat) =~= before.push(e));
                    lemma_measure_push(before, e, before.len());
                    assert(before.push(e)[before.len() as int] == e);
                }
            } else {
                proof {
                    assert(head + row_cells(t.rows@, c as int, (r + 1) as nat) =~= before);
                }
            }
            r += 1;
        }
        proof {
            assert(head + row_cells(t.rows@, c as int, t.rows@.len()) == cells);
        }
        let (p, m, pr, any) = acc;
        let pref = if p < cap { p } else { cap };
        let pref = if pref < 1 { 1 } else { pref };
        let mn = if m < MIN_WIDTH_CAP { m } else { MIN_WIDTH_CAP };
        let mn = if mn < pref { mn } else { pref };
        let mn = if mn < 1 { 1 } else { mn };
        out.push(ColumnMeasure { min: mn, preferred: pref, priority: pr && any });
        c += 1;
    }
    proof {
        assert(out@ =~= measures_spec(*t, max_column_width));
    }
    out
}


// ---------------------------------------------------------------------------
// Drawing
// ---------------------------------------------------------------------------

/// The box-drawing glyphs, by index: horizontal, vertical, then the top,
/// middle and bottom rules' left, inner and right corners.
pub open spec fn glyph(unicode: bool, k: int) -> char {
    if unicode {
        if k == 0 { '\u{2500}' } else if k == 1 { '\u{2502}' } else if k == 2 { '\u{250c}' } else if k == 3 { '\u{252c}' }
        else if k == 4 { '\u{2510}' } else if k == 5 { '\u{251c}' } else if k == 6 { '\u{253c}' } else if k == 7 { '\u{2524}' }
        else if k == 8 { '\u{2514}' } else if k == 9 { '\u{2534}' } else { '\u{2518}' }
    } else {
        if k == 0 { '-' } else if k == 1 { '|' } else { '+' }
    }
}

fn glyph_of(unicode: bool, k: usize) -> (c: char)
    ensures
        c == glyph(unicode, k as int),
{
    if unicode {
        if k == 0 { '\u{2500}' } else if k == 1 { '\u{2502}' } else if k == 2 { '\u{250c}' } else if k == 3 { '\u{252c}' }
        else if k == 4 { '\u{2510}' } else if k == 5 { '\u{251c}' } else if k == 6 { '\u{253c}' } else if k == 7 { '\u{2524}' }
        else if k == 8 { '\u{2514}' } else if k == 9 { '\u{2534}' } else { '\u{2518}' }
    } else {
        if k == 0 { '-' } else if k == 1 { '|' } else { '+' }
    }
}

/// `n` copies of `c`.
pub open spec fn repeat_char(c: char, n: nat) -> Seq<char> {
    Seq::new(n, |i: int| c)
}

/// The text of a rule over the first `k` columns: in compact mode the
/// horizontal glyph over each column's width, two blanks between columns;
/// otherwise over each width plus its two padding cells, the inner corner
/// `mid` between columns.
pub open spec fn rule_body(ws: Seq<usize>, k: int, compact: bool, unicode: bool, mid: char) -> Seq<char>
    decreases k,
{
    if k <= 0 {
        Seq::empty()
    } else {
        let sep: Seq<char> = if k - 1 > 0 { if compact { seq![' ', ' '] } else { seq![mid] } } else { Seq::empty() };
        let n: nat = if compact { ws[k - 1] as nat } else { (ws[k - 1] + 2) as nat };
        rule_body(ws, k - 1, compact, unicode, mid) + sep + repeat_char(glyph(unicode, 0), n)
    }
}

/// A rule line with corners `l`, `m`, `r` (glyph indices): one span in the
/// border style; compact rules have no corners.
pub open spec fn rule_spec(ws: Seq<usize>, compact: bool, unicode: bool, l: int, m: int, r: int, border: Style) -> LineV {
    let body = rule_body(ws, ws.len() as int, compact, unicode, glyph(unicode, m));
    let text = if compact { body } else { seq![glyph(unicode, l)] + body + seq![glyph(unicode, r)] };
    seq![(text, border, None::<LinkId>, false)]
}

/// The text and the inline-code flag of column `c` of a row, empty when
/// the row is short.
pub open spec fn cell_v(cells: Seq<TableCell>, c: int) -> (Seq<char>, bool) {
    if 0 <= c < cells.len() { (cells[c].text@, cells[c].code) } else { (Seq::empty(), false) }
}

/// Where each of the first `k` cells starts in the table's plain text, and
/// where the text goes on after them: cells joined by one blank, from
/// `pos` (positions saturate at `usize::MAX`).
pub open spec fn cell_starts(cs: Seq<TableCell>, pos: usize, k: int) -> (Seq<usize>, usize)
    decreases k,
{
    if k <= 0 {
        (Seq::empty(), pos)
    } else {
        let (offs, p) = cell_starts(cs, pos, k - 1);
        let p1 = if k - 1 > 0 { sat_add(p, 1) } else { p };
        (offs.push(p1), sat_add(p1, cs[k - 1].text@.len() as usize))
    }
}

/// The cell starts of the header and of the first `r` rows, each row after
/// a line break, and where the text goes on.
pub open spec fn table_starts(t: Table, r: int) -> (Seq<Seq<usize>>, usize)
    decreases r,
{
    if r <= 0 {
        let h = cell_starts(t.header@, 0, t.header@.len() as int);
        (seq![h.0], h.1)
    } else {
        let (prev, p) = table_starts(t, r - 1);
        let row = t.rows@[r - 1]@;
        let c = cell_starts(row, sat_add(p, 1), row.len() as int);
        (prev.push(c.0), c.1)
    }
}

/// Where a cell starts, 0 for a cell the row does not have.
pub open spec fn start_of(offs: Seq<usize>, c: int) -> usize {
    if 0 <= c < offs.len() { offs[c] } else { 0 }
}

/// The one piece of a cell: its text in the base style, patched with the
/// code style for inline code.
pub open spec fn cell_piece(cell: (Seq<char>, bool), base: Style, theme: Theme, start: usize) -> PieceV {
    (cell.0, if cell.1 { style_patch(base, theme.code) } else { base }, None, false, start, false)
}

/// Pieces on one line, unwrapped.
pub open spec fn unwrapped(ps: Seq<PieceV>, k: int) -> LineV
    decreases k,
{
    if k <= 0 {
        Seq::empty()
    } else {
        let p = ps[k - 1];
        push_span_spec(unwrapped(ps, k - 1), p.0, p.1, p.2, p.3)
    }
}

/// The content lines of a cell: its piece with the matches applied,
/// wrapped at the column width, or on one line when not wrapping.
pub open spec fn cell_lines(cell: (Seq<char>, bool), base: Style, theme: Theme, ms: Seq<(usize, usize)>, start: usize, w: usize, wrap: bool) -> Seq<LineV> {
    let ps = matched_upto(seq![cell_piece(cell, base, theme, start)], ms, 1);
    if wrap { wrap_spec(ps, w, w) } else { seq![unwrapped(ps, ps.len() as int)] }
}

/// A content line aligned in `w` cells: unchanged when it is as wide,
/// else blanks in `style` to the right (none or left alignment), to the
/// left (right alignment), or split with the odd blank on the right
/// (centre).
pub open spec fn align_spans(content: LineV, w: usize, align: Alignment, style: Style) -> LineV {
    let cw = sat_width(content);
    if cw >= w {
        content
    } else {
        let pad = (w - cw) as nat;
        let (left, right): (nat, nat) = match align {
            Alignment::Right => (pad, 0),
            Alignment::Center => (pad / 2, (pad - pad / 2) as nat),
            _ => (0, pad),
        };
        let l: LineV = if left > 0 { seq![(spaces(left), style, None::<LinkId>, false)] } else { Seq::empty() };
        let r: LineV = if right > 0 { seq![(spaces(right), style, None::<LinkId>, false)] } else { Seq::empty() };
        l + content + r
    }
}

/// `spans` appended one by one with [`push_span_spec`].
pub open spec fn push_all(line: LineV, spans: LineV) -> LineV
    decreases spans.len(),
{
    if spans.len() == 0 {
        line
    } else {
        let s = spans.last();
        push_span_spec(push_all(line, spans.drop_last()), s.0, s.1, s.2, s.3)
    }
}

/// The alignment of column `c`.
pub open spec fn align_of(aligns: Seq<Alignment>, c: int) -> Alignment {
    if 0 <= c < aligns.len() { aligns[c] } else { Alignment::NoAlign }
}

/// Line `row_line` of a row over its first `k` columns, whose content
/// lines are `cols`.
pub open spec fn row_line_upto(
    cols: Seq<Seq<LineV>>,
    row_line: int,
    ws: Seq<usize>,
    aligns: Seq<Alignment>,
    compact: bool,
    unicode: bool,
    border: Style,
    cstyle: Style,
    k: int,
) -> LineV
    decreases k,
{
    if k <= 0 {
        if compact { Seq::empty() } else { push_span_spec(Seq::empty(), seq![glyph(unicode, 1)], border, None, false) }
    } else {
        let c = k - 1;
        let l0 = row_line_upto(cols, row_line, ws, aligns, compact, unicode, border, cstyle, k - 1);
        let l1 = if compact && c > 0 { push_span_spec(l0, seq![' ', ' '], Style::new(), None, false) } else { l0 };
        let l2 = if !compact { push_span_spec(l1, seq![' '], Style::new(), None, false) } else { l1 };
        let content: LineV = if row_line < cols[c].len() { cols[c][row_line] } else { Seq::empty() };
        let l3 = push_all(l2, align_spans(content, ws[c], align_of(aligns, c), cstyle));
        if !compact {
            push_span_spec(push_span_spec(l3, seq![' '], Style::new(), None, false), seq![glyph(unicode, 1)], border, None, false)
        } else {
            l3
        }
    }
}

/// The tallest of the first `k` columns' content, at least one line.
pub open spec fn row_height(cols: Seq<Seq<LineV>>, k: int) -> nat
    decreases k,
{
    if k <= 0 {
        1
    } else {
        let h = row_height(cols, k - 1);
        if cols[k - 1].len() > h { cols[k - 1].len() } else { h }
    }
}

/// The lines of a row whose columns' content lines are `cols`.
pub open spec fn row_lines(cols: Seq<Seq<LineV>>, ws: Seq<usize>, aligns: Seq<Alignment>, opts: TableOptions, border: Style, cstyle: Style) -> Seq<LineV> {
    let compact = opts.mode == TableMode::Compact;
    Seq::new(
        row_height(cols, cols.len() as int),
        |k: int| row_line_upto(cols, k, ws, aligns, compact, opts.unicode, border, cstyle, cols.len() as int),
    )
}

/// The content lines of every column of a row of `cells`.
pub open spec fn row_cols(
    cells: Seq<TableCell>,
    offs: Seq<usize>,
    base: Style,
    theme: Theme,
    ms: Seq<(usize, usize)>,
    ws: Seq<usize>,
    wrap: bool,
) -> Seq<Seq<LineV>> {
    Seq::new(ws.len(), |c: int| cell_lines(cell_v(cells, c), base, theme, ms, start_of(offs, c), ws[c], wrap))
}

/// The lines of the body rows before row `r`.
pub open spec fn body_lines(t: Table, theme: Theme, opts: TableOptions, ws: Seq<usize>, wrap: bool, ms: Seq<(usize, usize)>, r: int) -> Seq<LineV>
    decreases r,
{
    if r <= 0 {
        Seq::empty()
    } else {
        let offs = table_starts(t, t.rows@.len() as int).0[r];
        let cols = row_cols(t.rows@[r - 1]@, offs, Style::new(), theme, ms, ws, wrap);
        body_lines(t, theme, opts, ws, wrap, ms, r - 1) + row_lines(cols, ws, t.alignments@, opts, theme.table_border, Style::new())
    }
}

/// The lines of a table drawn with the column widths `ws`, cells wrapped
/// or not: a top rule (not compact), the header row, a middle rule, the
/// body rows and a bottom rule (not compact); nothing for a table without
/// columns.
pub open spec fn table_lines_spec(t: Table, theme: Theme, opts: TableOptions, ws: Seq<usize>, wrap: bool, ms: Seq<(usize, usize)>) -> Seq<LineV> {
    let compact = opts.mode == TableMode::Compact;
    let border = theme.table_border;
    if ws.len() == 0 {
        Seq::empty()
    } else {
        let hoffs = table_starts(t, t.rows@.len() as int).0[0];
        let hcols = row_cols(t.header@, hoffs, theme.table_header, theme, ms, ws, wrap);
        let top: Seq<LineV> = if compact { Seq::empty() } else { seq![rule_spec(ws, compact, opts.unicode, 2, 3, 4, border)] };
        let bottom: Seq<LineV> = if compact { Seq::empty() } else { seq![rule_spec(ws, compact, opts.unicode, 8, 9, 10, border)] };
        top + row_lines(hcols, ws, t.alignments@, opts, border, theme.table_header) + seq![rule_spec(ws, compact, opts.unicode, 5, 6, 7, border)]
            + body_lines(t, theme, opts, ws, wrap, ms, t.rows@.len() as int) + bottom
    }
}

/// Appends `n` copies of `c` to `s`.
fn push_repeat(s: &mut String, c: char, n: usize)
    ensures
        final(s)@ == old(s)@ + repeat_char(c, n as nat),
{
    let mut i: usize = 0;
    while i < n
        invariant
            i <= n,
            s@ == old(s)@ + repeat_char(c, i as nat),
        decreases n - i,
    {
        push_char(s, c);
        proof {
            assert(repeat_char(c, (i + 1) as nat) =~= repeat_char(c, i as nat).push(c));
            assert(old(s)@ + repeat_char(c, (i + 1) as nat) =~= (old(s)@ + repeat_char(c, i as nat)).push(c));
        }
        i += 1;
    }
}

/// A rule line (see [`rule_spec`]).
fn rule_line(ws: &Vec<usize>, compact: bool, unicode: bool, l: usize, m: usize, r: usize, border: Style) -> (out: Vec<StyledSpan>)
    ensures
        line_view(out@) == rule_spec(ws@, compact, unicode, l as int, m as int, r as int, border),
{
    let h = glyph_of(unicode, 0);
    let mid = glyph_of(unicode, m);
    let mut body = String::new();
    let mut k: usize = 0;
    while k < ws.len()
        invariant
            k <= ws@.len(),
            h == glyph(unicode, 0),
            mid == glyph(unicode, m as int),
            body@ == rule_body(ws@, k as int, compact, unicode, mid),
        decreases ws@.len() - k,
    {
        let ghost b0 = body@;
        if k > 0 {
            if compact {
                push_char(&mut body, ' ');
                push_char(&mut body, ' ');
            } else {
                push_char(&mut body, mid);
            }
        }
        let ghost b1 = body@;
        if compact {
            push_repeat(&mut body, h, ws[k]);
        } else {
            push_repeat(&mut body, h, ws[k]);
            push_char(&mut body, h);
            push_char(&mut body, h);
            proof {
                assert(repeat_char(h, (ws@[k as int] + 2) as nat) =~= repeat_char(h, ws@[k as int] as nat).push(h).push(h));
            }
        }
        proof {
            let sep: Seq<char> = if k > 0 { if compact { seq![' ', ' '] } else { seq![mid] } } else { Seq::empty() };
            assert(b1 =~= b0 + sep);
            let n: nat = if compact { ws@[k as int] as nat } else { (ws@[k as int] + 2) as nat };
            assert(body@ =~= b0 + sep + repeat_char(h, n));
        }
        k += 1;
    }
    let ghost bv = body@;
    let text = if compact {
        body
    } else {
        let mut t = String::new();
        let gl = glyph_of(unicode, l);
        let gr = glyph_of(unicode, r);
        push_char(&mut t, gl);
        push_str(&mut t, body.as_str());
        push_char(&mut t, gr);
        proof {
            assert(t@ =~= seq![gl] + bv + seq![gr]);
        }
        t
    };
    assert(text@ == (if compact { bv } else { seq![glyph(unicode, l as int)] + bv + seq![glyph(unicode, r as int)] }));
    let mut out: Vec<StyledSpan> = Vec::new();
    out.push(StyledSpan { text, style: border, link: None, search_match: false });
    proof {
        assert(line_view(out@) =~= rule_spec(ws@, compact, unicode, l as int, m as int, r as int, border));
    }
    out
}

/// The cell starts of a row (see [`cell_starts`]).
fn row_starts(cs: &Vec<TableCell>, pos: usize) -> (out: (Vec<usize>, usize))
    ensures
        (out.0@, out.1) == cell_starts(cs@, pos, cs@.len() as int),
{
    let mut offs: Vec<usize> = Vec::new();
    let mut p = pos;
    let mut k: usize = 0;
    while k < cs.len()
        invariant
            k <= cs@.len(),
            (offs@, p) == cell_starts(cs@, pos, k as int),
        decreases cs@.len() - k,
    {
        let p1 = if k > 0 { p.saturating_add(1) } else { p };
        offs.push(p1);
        p = p1.saturating_add(cs[k].text.as_str().unicode_len());
        k += 1;
    }
    (offs, p)
}

proof fn lemma_table_starts_len(t: Table, r: int)
    requires
        r >= 0,
    ensures
        table_starts(t, r).0.len() == r + 1,
    decreases r,
{
    if r > 0 {
        lemma_table_starts_len(t, r - 1);
    }
}

/// The cell starts of the header and of every row (see [`table_starts`]).
fn all_starts(t: &Table) -> (out: Vec<Vec<usize>>)
    ensures
        out@.map_values(|v: Vec<usize>| v@) == table_starts(*t, t.rows@.len() as int).0,
{
    let (h, mut p) = row_starts(&t.header, 0);
    let mut out: Vec<Vec<usize>> = Vec::new();
    out.push(h);
    proof {
        assert(out@.map_values(|v: Vec<usize>| v@) =~= table_starts(*t, 0).0);
    }
    let mut r: usize = 0;
    while r < t.rows.len()
        invariant
            r <= t.rows@.len(),
            (out@.map_values(|v: Vec<usize>| v@), p) == table_starts(*t, r as int),
        decreases t.rows@.len() - r,
    {
        let (c, q) = row_starts(&t.rows[r], p.saturating_add(1));
        let ghost before = out@.map_values(|v: Vec<usize>| v@);
        let ghost cv = c@;
        out.push(c);
        p = q;
        proof {
            assert(out@.map_values(|v: Vec<usize>| v@) =~= before.push(cv));
        }
        r += 1;
    }
    out
}

/// Pieces on one line (see [`unwrapped`]).
fn unwrapped_line(ps: &Vec<Piece>) -> (out: Vec<StyledSpan>)
    ensures
        line_view(out@) == unwrapped(pieces_v(ps@), ps@.len() as int),
{
    let mut line: Vec<StyledSpan> = Vec::new();
    let mut k: usize = 0;
    proof {
        assert(line_view(line@) =~= Seq::<(Seq<char>, Style, Option<LinkId>, bool)>::empty());
    }
    while k < ps.len()
        invariant
            k <= ps@.len(),
            line_view(line@) == unwrapped(pieces_v(ps@), k as int),
        decreases ps@.len() - k,
    {
        let p = &ps[k];
        assert(pieces_v(ps@)[k as int] == piece_v(*p));
        push_span(&mut line, p.text.as_str(), p.style, p.link, p.search);
        k += 1;
    }
    line
}

/// The content lines of one cell (see [`cell_lines`]).
fn cell_content(text: &String, code: bool, base: Style, theme: &Theme, ms: &Vec<(usize, usize)>, start: usize, w: usize, wrap: bool) -> (out: Vec<Vec<StyledSpan>>)
    requires
        fits(text@),
    ensures
        lines_view(out@) == cell_lines((text@, code), base, *theme, ms@, start, w, wrap),
{
    let style = if code { base.patch(theme.code) } else { base };
    let mut one: Vec<Piece> = Vec::new();
    one.push(Piece { text: to_owned(text.as_str()), style, link: None, search: false, plain_start: start, hard_break: false });
    proof {
        assert(pieces_v(one@) =~= seq![cell_piece((text@, code), base, *theme, start)]);
    }
    let ps = apply_matches(&one, ms);
    proof {
        lemma_matched_fit(pieces_v(one@), ms@, 1);
        assert forall|k: int| 0 <= k < ps@.len() implies fits((#[trigger] ps@[k]).text@) by {
            assert(pieces_v(ps@)[k] == piece_v(ps@[k]));
        }
    }
    if wrap {
        wrap_pieces(&ps, w, w)
    } else {
        let line = unwrapped_line(&ps);
        let ghost lv = line_view(line@);
        let v = vec![line];
        assert(lines_view(v@) =~= seq![lv]);
        v
    }
}

/// A content line aligned in its column (see [`align_spans`]).
fn align_line(content: &Vec<StyledSpan>, w: usize, align: Alignment, style: Style) -> (out: Vec<StyledSpan>)
    ensures
        line_view(out@) == align_spans(line_view(content@), w, align, style),
{
    let cw = line_sat_width(content);
    let mut out: Vec<StyledSpan> = Vec::new();
    if cw >= w {
        let mut j: usize = 0;
        proof {
            assert(line_view(out@) =~= line_view(content@.take(0)));
        }
        while j < content.len()
            invariant
                j <= content@.len(),
                line_view(out@) == line_view(content@.take(j as int)),
            decreases content@.len() - j,
        {
            push_copy(&mut out, &content[j]);
            proof {
                assert(line_view(content@.take(j + 1)) =~= line_view(content@.take(j as int)).push(span_view(content@[j as int])));
            }
            j += 1;
        }
        assert(content@.take(content@.len() as int) =~= content@);
        return out;
    }
    let pad = w - cw;
    let (left, right): (usize, usize) = match align {
        Alignment::Right => (pad, 0),
        Alignment::Center => (pad / 2, pad - pad / 2),
        _ => (0, pad),
    };
    proof {
        assert(line_view(out@) =~= Seq::<(Seq<char>, Style, Option<LinkId>, bool)>::empty());
    }
    if left > 0 {
        let mut s = String::new();
        push_spaces(&mut s, left);
        out.push(StyledSpan { text: s, style, link: None, search_match: false });
        proof {
            assert(line_view(out@) =~= seq![(spaces(left as nat), style, None::<LinkId>, false)]);
        }
    }
    let ghost l0 = line_view(out@);
    let mut j: usize = 0;
    while j < content.len()
        invariant
            j <= content@.len(),
            line_view(out@) == l0 + line_view(content@.take(j as int)),
        decreases content@.len() - j,
    {
        push_copy(&mut out, &content[j]);
        proof {
            assert(line_view(content@.take(j + 1)) =~= line_view(content@.take(j as int)).push(span_view(content@[j as int])));
        }
        j += 1;
    }
    assert(content@.take(content@.len() as int) =~= content@);
    if right > 0 {
        let mut s = String::new();
        push_spaces(&mut s, right);
        let ghost before = line_view(out@);
        out.push(StyledSpan { text: s, style, link: None, search_match: false });
        proof {
            assert(line_view(out@) =~= before.push((spaces(right as nat), style, None::<LinkId>, false)));
        }
    }
    proof {
        let pn = (w - cw) as nat;
        assert(pn == pad);
        assert(line_view(out@) =~= align_spans(line_view(content@), w, align, style));
    }
    out
}

/// Appends every span of `spans` with [`push_span`].
fn push_all_spans(line: &mut Vec<StyledSpan>, spans: &Vec<StyledSpan>)
    ensures
        line_view(final(line)@) == push_all(line_view(old(line)@), line_view(spans@)),
{
    let ghost l0 = line_view(line@);
    let mut j: usize = 0;
    proof {
        assert(line_view(spans@.take(0)) =~= Seq::<(Seq<char>, Style, Option<LinkId>, bool)>::empty());
    }
    while j < spans.len()
        invariant
            j <= spans@.len(),
            line_view(line@) == push_all(l0, line_view(spans@.take(j as int))),
        decreases spans@.len() - j,
    {
        let s = &spans[j];
        push_span(line, s.text.as_str(), s.style, s.link, s.search_match);
        proof {
            let t = line_view(spans@.take(j + 1));
            assert(t.drop_last() =~= line_view(spans@.take(j as int)));
            assert(t.last() == span_view(spans@[j as int]));
        }
        j += 1;
    }
    assert(spans@.take(spans@.len() as int) =~= spans@);
}

/// Content lines of every column, viewed.
pub open spec fn cols_view(cols: Seq<Vec<Vec<StyledSpan>>>) -> Seq<Seq<LineV>> {
    cols.map_values(|c: Vec<Vec<StyledSpan>>| lines_view(c@))
}

/// Appends the lines of a row (see [`row_lines`]).
fn emit_row(
    cols: &Vec<Vec<Vec<StyledSpan>>>,
    ws: &Vec<usize>,
    aligns: &Vec<Alignment>,
    opts: &TableOptions,
    border: Style,
    cstyle: Style,
    out: &mut Vec<Vec<StyledSpan>>,
)
    requires
        cols@.len() == ws@.len(),
    ensures
        lines_view(final(out)@) == lines_view(old(out)@) + row_lines(cols_view(cols@), ws@, aligns@, *opts, border, cstyle),
{
    let ghost cv = cols_view(cols@);
    let compact = match opts.mode {
        TableMode::Compact => true,
        _ => false,
    };
    let mut height: usize = 1;
    let mut k: usize = 0;
    while k < cols.len()
        invariant
            k <= cols@.len(),
            cv == cols_view(cols@),
            height == row_height(cv, k as int),
        decreases cols@.len() - k,
    {
        assert(cv[k as int] == lines_view(cols@[k as int]@));
        if cols[k].len() > height {
            height = cols[k].len();
        }
        k += 1;
    }
    let ghost target = row_lines(cv, ws@, aligns@, *opts, border, cstyle);
    let ghost before = lines_view(out@);
    let vch = glyph_of(opts.unicode, 1);
    let mut row_line: usize = 0;
    while row_line < height
        invariant
            row_line <= height,
            height == target.len(),
            cv == cols_view(cols@),
            cols@.len() == ws@.len(),
            compact == (opts.mode == TableMode::Compact),
            vch == glyph(opts.unicode, 1),
            target == row_lines(cv, ws@, aligns@, *opts, border, cstyle),
            lines_view(out@) == before + target.take(row_line as int),
        decreases height - row_line,
    {
        let mut line: Vec<StyledSpan> = Vec::new();
        proof {
            assert(line_view(line@) =~= Seq::<(Seq<char>, Style, Option<LinkId>, bool)>::empty());
        }
        if !compact {
            let mut v = String::new();
            push_char(&mut v, vch);
            proof {
                assert(v@ =~= seq![vch]);
            }
            push_span(&mut line, v.as_str(), border, None, false);
        }
        let mut c: usize = 0;
        while c < ws.len()
            invariant
                c <= ws@.len(),
                cv == cols_view(cols@),
                cols@.len() == ws@.len(),
                compact == (opts.mode == TableMode::Compact),
                vch == glyph(opts.unicode, 1),
                line_view(line@) == row_line_upto(cv, row_line as int, ws@, aligns@, compact, opts.unicode, border, cstyle, c as int),
            decreases ws@.len() - c,
        {
            if compact && c > 0 {
                let mut s = String::new();
                push_char(&mut s, ' ');
                push_char(&mut s, ' ');
                proof {
                    assert(s@ =~= seq![' ', ' ']);
                }
                push_span(&mut line, s.as_str(), Style::new(), None, false);
            }
            if !compact {
                let mut s = String::new();
                push_char(&mut s, ' ');
                proof {
                    assert(s@ =~= seq![' ']);
                }
                push_span(&mut line, s.as_str(), Style::new(), None, false);
            }
            let empty: Vec<StyledSpan> = Vec::new();
            let content = if row_line < cols[c].len() { &cols[c][row_line] } else { &empty };
            proof {
                assert(cv[c as int] == lines_view(cols@[c as int]@));
                if row_line < cols@[c as int]@.len() {
                    assert(cv[c as int][row_line as int] == line_view(cols@[c as int]@[row_line as int]@));
                } else {
                    assert(line_view(empty@) =~= Seq::<(Seq<char>, Style, Option<LinkId>, bool)>::empty());
                }
            }
            let align = if c < aligns.len() { aligns[c] } else { Alignment::NoAlign };
            let aligned = align_line(content, ws[c], align, cstyle);
            push_all_spans(&mut line, &aligned);
            if !compact {
                let mut s = String::new();
                push_char(&mut s, ' ');
                proof {
                    assert(s@ =~= seq![' ']);
                }
                push_span(&mut line, s.as_str(), Style::new(), None, false);
                let mut v = String::new();
                push_char(&mut v, vch);
                proof {
                    assert(v@ =~= seq![vch]);
                }
                push_span(&mut line, v.as_str(), border, None, false);
            }
            c += 1;
        }
        let ghost done = line_view(line@);
        assert(done == target[row_line as int]);
        let ghost out_before = out@;
        out.push(line);
        proof {
            assert(lines_view(out@) =~= lines_view(out_before).push(done));
            assert(target.take(row_line + 1) =~= target.take(row_line as int).push(target[row_line as int]));
        }
        row_line += 1;
    }
    assert(target.take(height as int) =~= target);
}

/// The content lines of every column of a row (see [`row_cols`]).
fn row_columns(
    cells: &Vec<TableCell>,
    offs: &Vec<usize>,
    base: Style,
    theme: &Theme,
    ms: &Vec<(usize, usize)>,
    ws: &Vec<usize>,
    wrap: bool,
) -> (out: Vec<Vec<Vec<StyledSpan>>>)
    requires
        forall|c: int| 0 <= c < cells@.len() ==> fits((#[trigger] cells@[c]).text@),
    ensures
        cols_view(out@) == row_cols(cells@, offs@, base, *theme, ms@, ws@, wrap),
        out@.len() == ws@.len(),
{
    let mut out: Vec<Vec<Vec<StyledSpan>>> = Vec::new();
    let empty = String::new();
    let mut c: usize = 0;
    while c < ws.len()
        invariant
            c <= ws@.len(),
            out@.len() == c,
            empty@ == Seq::<char>::empty(),
            forall|k: int| 0 <= k < cells@.len() ==> fits((#[trigger] cells@[k]).text@),
            forall|q: int| 0 <= q < c ==> #[trigger] cols_view(out@)[q] == row_cols(cells@, offs@, base, *theme, ms@, ws@, wrap)[q],
        decreases ws@.len() - c,
    {
        let (text, code) = if c < cells.len() { (&cells[c].text, cells[c].code) } else { (&empty, false) };
        let start = if c < offs.len() { offs[c] } else { 0 };
        proof {
            assert(fits(Seq::<char>::empty()));
        }
        let lines = cell_content(text, code, base, theme, ms, start, ws[c], wrap);
        let ghost before = out@;
        out.push(lines);
        proof {
            assert forall|q: int| 0 <= q < c + 1 implies #[trigger] cols_view(out@)[q] == row_cols(cells@, offs@, base, *theme, ms@, ws@, wrap)[q] by {
                if q < c {
                    assert(out@[q] == before[q]);
                    assert(cols_view(before)[q] == lines_view(before[q]@));
                }
            }
        }
        c += 1;
    }
    assert(cols_view(out@) =~= row_cols(cells@, offs@, base, *theme, ms@, ws@, wrap));
    out
}

/// Lays out a table with the given column widths (see
/// [`table_lines_spec`]).
pub fn layout_table_with(
    t: &Table,
    theme: &Theme,
    opts: &TableOptions,
    ws: &Vec<usize>,
    wrap: bool,
    matches: &Vec<(usize, usize)>,
) -> (out: Vec<Vec<StyledSpan>>)
    requires
        table_fits(*t),
    ensures
        lines_view(out@) == table_lines_spec(*t, *theme, *opts, ws@, wrap, matches@),
{
    let mut out: Vec<Vec<StyledSpan>> = Vec::new();
    proof {
        assert(lines_view(out@) =~= Seq::<LineV>::empty());
    }
    if ws.len() == 0 {
        return out;
    }
    let compact = match opts.mode {
        TableMode::Compact => true,
        _ => false,
    };
    let border = theme.table_border;
    let starts = all_starts(t);
    let ghost sv = starts@.map_values(|v: Vec<usize>| v@);
    assert(sv == table_starts(*t, t.rows@.len() as int).0);
    proof {
        lemma_table_starts_len(*t, t.rows@.len() as int);
    }
    assert(sv[0] == starts@[0]@);
    if !compact {
        let top = rule_line(ws, compact, opts.unicode, 2, 3, 4, border);
        let ghost tv = line_view(top@);
        out.push(top);
        proof {
            assert(lines_view(out@) =~= seq![tv]);
        }
    }
    let ghost top_part = lines_view(out@);
    let hcols = row_columns(&t.header, &starts[0], theme.table_header, theme, matches, ws, wrap);
    emit_row(&hcols, ws, &t.alignments, opts, border, theme.table_header, &mut out);
    let mid = rule_line(ws, compact, opts.unicode, 5, 6, 7, border);
    let ghost mv = line_view(mid@);
    let ghost before_mid = lines_view(out@);
    out.push(mid);
    proof {
        assert(lines_view(out@) =~= before_mid.push(mv));
    }
    let ghost head_part = lines_view(out@);
    let mut r: usize = 0;
    proof {
        assert(head_part + body_lines(*t, *theme, *opts, ws@, wrap, matches@, 0) =~= head_part);
    }
    while r < t.rows.len()
        invariant
            r <= t.rows@.len(),
            table_fits(*t),
            sv == starts@.map_values(|v: Vec<usize>| v@),
            sv == table_starts(*t, t.rows@.len() as int).0,
            starts@.len() == t.rows@.len() + 1,
            border == theme.table_border,
            lines_view(out@) == head_part + body_lines(*t, *theme, *opts, ws@, wrap, matches@, r as int),
        decreases t.rows@.len() - r,
    {
        proof {
            assert(sv[r + 1] == starts@[r + 1]@);
            assert forall|c: int| 0 <= c < t.rows@[r as int]@.len() implies fits((#[trigger] t.rows@[r as int]@[c]).text@) by {
            }
        }
        let cols = row_columns(&t.rows[r], &starts[r + 1], Style::new(), theme, matches, ws, wrap);
        emit_row(&cols, ws, &t.alignments, opts, border, Style::new(), &mut out);
        proof {
            assert(head_part + body_lines(*t, *theme, *opts, ws@, wrap, matches@, r + 1) =~= head_part + body_lines(
                *t,
                *theme,
                *opts,
                ws@,
                wrap,
                matches@,
                r as int,
            ) + row_lines(cols_view(cols@), ws@, t.alignments@, *opts, border, Style::new()));
        }
        r += 1;
    }
    if !compact {
        let bottom = rule_line(ws, compact, opts.unicode, 8, 9, 10, border);
        let ghost bv = line_view(bottom@);
        let ghost before_b = lines_view(out@);
        out.push(bottom);
        proof {
            assert(lines_view(out@) =~= before_b.push(bv));
        }
    }
    proof {
        assert(lines_view(out@) =~= table_lines_spec(*t, *theme, *opts, ws@, wrap, matches@));
    }
    out
}


/// The preferred widths of measured columns.
pub open spec fn preferred_widths(ms: Seq<ColumnMeasure>) -> Seq<usize> {
    ms.map_values(|m: ColumnMeasure| m.preferred)
}

/// The room a table with `n` columns leaves for cell content in `width`
/// columns (at least one): the width less two blanks between compact
/// columns, or less a border and two padding blanks per column and one
/// more border; 0 when that is more than the width.
pub open spec fn table_room(n: nat, compact: bool, width: usize) -> int {
    let w: int = if width < 1 { 1 } else { width as int };
    let overhead: int = if compact { 2 * (if n >= 1 { n - 1 } else { 0int }) } else { 3 * (n as int) + 1 };
    if w >= overhead { w - overhead } else { 0 }
}

/// The column widths `ws` and the wrapping `wrap` a table gets in
/// `width` columns: `scroll` keeps every column at its full content width
/// and does not wrap; `wrap` allocates the room (at least one per column);
/// `auto` and `compact` keep the preferred widths when they fit, else
/// allocate the room when the minimum widths fit, else `compact` allocates
/// at least one per column and `auto` scrolls.
pub open spec fn table_widths_ok(t: Table, opts: TableOptions, width: usize, ws: Seq<usize>, wrap: bool) -> bool {
    let n = column_count_spec(t);
    let ms = measures_spec(t, opts.max_column_width);
    let full = measures_spec(t, usize::MAX);
    let compact = opts.mode == TableMode::Compact;
    let avail = table_room(n, compact, width);
    let at_least: int = if avail < n { n as int } else { avail };
    match opts.mode {
        TableMode::Scroll => ws == preferred_widths(full) && !wrap,
        TableMode::Wrap => at_least <= usize::MAX && allocate_ok(ms, at_least as usize, ws) && wrap,
        _ => if total_pref(ms) <= avail {
            ws == preferred_widths(ms) && wrap
        } else if total_min(ms) <= avail {
            allocate_ok(ms, avail as usize, ws) && wrap
        } else if compact {
            at_least <= usize::MAX && allocate_ok(ms, at_least as usize, ws) && wrap
        } else {
            ws == preferred_widths(full) && !wrap
        },
    }
}

fn preferred_of(ms: &Vec<ColumnMeasure>) -> (out: Vec<usize>)
    ensures
        out@ == preferred_widths(ms@),
{
    let mut out: Vec<usize> = Vec::new();
    let mut i: usize = 0;
    while i < ms.len()
        invariant
            i <= ms@.len(),
            out@ == preferred_widths(ms@).take(i as int),
        decreases ms@.len() - i,
    {
        out.push(ms[i].preferred);
        proof {
            assert(preferred_widths(ms@).take(i + 1) =~= preferred_widths(ms@).take(i as int).push(ms@[i as int].preferred));
        }
        i += 1;
    }
    assert(preferred_widths(ms@).take(ms@.len() as int) =~= preferred_widths(ms@));
    out
}

/// The sums of the preferred and of the minimum widths.
fn totals(ms: &Vec<ColumnMeasure>) -> (out: (u128, u128))
    ensures
        out.0 == total_pref(ms@),
        out.1 == total_min(ms@),
{
    let mut tp: u128 = 0;
    let mut tm: u128 = 0;
    let mut i: usize = 0;
    while i < ms.len()
        invariant
            i <= ms@.len(),
            tp == total_pref(ms@.take(i as int)),
            tm == total_min(ms@.take(i as int)),
            tp <= i * (usize::MAX as int),
            tm <= tp,
        decreases ms@.len() - i,
    {
        let m = ms[i];
        let p: usize = if m.preferred < 1 { 1 } else { m.preferred };
        let lo: usize = if m.min < 1 { 1 } else { m.min };
        let mn: usize = if lo > p { p } else { lo };
        proof {
            assert(ms@.take(i + 1).drop_last() =~= ms@.take(i as int));
            assert(i * (usize::MAX as int) + (usize::MAX as int) == (i + 1) * (usize::MAX as int)) by (nonlinear_arith);
            assert((i + 1) * (usize::MAX as int) <= (usize::MAX as int) * (usize::MAX as int)) by (nonlinear_arith)
                requires
                    i + 1 <= usize::MAX,
            ;
            assert((usize::MAX as int) * (usize::MAX as int) < u128::MAX) by (nonlinear_arith);
        }
        tp = tp + p as u128;
        tm = tm + mn as u128;
        i += 1;
    }
    assert(ms@.take(ms@.len() as int) =~= ms@);
    (tp, tm)
}

/// The column widths and the wrapping for a table in `width` columns (see
/// [`table_widths_ok`]).
pub fn table_widths(t: &Table, opts: &TableOptions, width: usize) -> (out: (Vec<usize>, bool))
    requires
        table_fits(*t),
    ensures
        table_widths_ok(*t, *opts, width, out.0@, out.1),
{
    let n = column_count(t);
    let w: usize = if width < 1 { 1 } else { width };
    let compact = match opts.mode {
        TableMode::Compact => true,
        _ => false,
    };
    let overhead: u128 = if compact {
        if n >= 1 { 2 * ((n - 1) as u128) } else { 0 }
    } else {
        3 * (n as u128) + 1
    };
    let avail: usize = if (w as u128) >= overhead { (w as u128 - overhead) as usize } else { 0 };
    assert(avail == table_room(n as nat, compact, width));
    let at_least: usize = if avail < n { n } else { avail };
    let ms = measure_columns(t, opts.max_column_width);
    let (tp, tm) = totals(&ms);
    match opts.mode {
        TableMode::Scroll => {
            let full = measure_columns(t, usize::MAX);
            (preferred_of(&full), false)
        },
        TableMode::Wrap => (allocate(&ms, at_least), true),
        _ => {
            if tp <= avail as u128 {
                (preferred_of(&ms), true)
            } else if tm <= avail as u128 {
                (allocate(&ms, avail), true)
            } else if compact {
                (allocate(&ms, at_least), true)
            } else {
                let full = measure_columns(t, usize::MAX);
                (preferred_of(&full), false)
            }
        },
    }
}

/// Lays out a table into lines of spans (without outer indentation): the
/// column widths of [`table_widths`] drawn by [`layout_table_with`].
/// `matches` are ranges of positions in the table's plain text: the header
/// cells joined by blanks, then each row after a line break, its cells
/// joined by blanks.
pub fn layout_table(t: &Table, theme: &Theme, opts: &TableOptions, width: usize, matches: &Vec<(usize, usize)>) -> (out: Vec<Vec<StyledSpan>>)
    requires
        table_fits(*t),
    ensures
        column_count_spec(*t) == 0 ==> out@.len() == 0,
        exists|ws: Seq<usize>, wrap: bool|
            #[trigger] table_widths_ok(*t, *opts, width, ws, wrap) && lines_view(out@) == table_lines_spec(
                *t,
                *theme,
                *opts,
                ws,
                wrap,
                matches@,
            ),
{
    let (ws, wrap) = table_widths(t, opts, width);
    proof {
        if column_count_spec(*t) == 0 {
            assert(measures_spec(*t, opts.max_column_width).len() == 0);
            assert(measures_spec(*t, usize::MAX).len() == 0);
        }
    }
    let out = layout_table_with(t, theme, opts, &ws, wrap, matches);
    proof {
        if column_count_spec(*t) == 0 {
            assert(ws@.len() == 0);
            assert(lines_view(out@).len() == 0);
        }
    }
    out
}


proof fn lemma_row_height_one(cols: Seq<Seq<LineV>>, k: int)
    requires
        0 <= k <= cols.len(),
        forall|c: int| 0 <= c < cols.len() ==> (#[trigger] cols[c]).len() == 1,
    ensures
        row_height(cols, k) == 1,
    decreases k,
{
    if k > 0 {
        lemma_row_height_one(cols, k - 1);
    }
}

proof fn lemma_body_lines_unwrapped(t: Table, theme: Theme, opts: TableOptions, ws: Seq<usize>, ms: Seq<(usize, usize)>, r: int)
    requires
        0 <= r <= t.rows@.len(),
    ensures
        body_lines(t, theme, opts, ws, false, ms, r).len() == r,
    decreases r,
{
    if r > 0 {
        lemma_body_lines_unwrapped(t, theme, opts, ws, ms, r - 1);
        let offs = table_starts(t, t.rows@.len() as int).0[r];
        let cols = row_cols(t.rows@[r - 1]@, offs, Style::new(), theme, ms, ws, false);
        lemma_row_height_one(cols, cols.len() as int);
    }
}

/// A table whose cells are not wrapped has one line per row: the header
/// and every body row take one line each, with the top, middle and bottom
/// rules around them (only the middle rule in compact mode).
pub proof fn law_unwrapped_table_has_one_line_per_row(t: Table, theme: Theme, opts: TableOptions, ws: Seq<usize>, ms: Seq<(usize, usize)>)
    requires
        ws.len() > 0,
    ensures
        table_lines_spec(t, theme, opts, ws, false, ms).len() == t.rows@.len() + if opts.mode == TableMode::Compact {
            2int
        } else {
            4int
        },
{
    lemma_body_lines_unwrapped(t, theme, opts, ws, ms, t.rows@.len() as int);
    let hoffs = table_starts(t, t.rows@.len() as int).0[0];
    let hcols = row_cols(t.header@, hoffs, theme.table_header, theme, ms, ws, false);
    lemma_row_height_one(hcols, hcols.len() as int);
}


/// `n` blanks in `style` as one span, or nothing for none.
pub open spec fn blank_run(n: nat, style: Style) -> LineV {
    if n > 0 { seq![(spaces(n), style, None::<LinkId>, false)] } else { Seq::empty() }
}

/// Aligning a cell keeps its content and fills the column exactly: content
/// at least as wide as the column is left alone; otherwise blanks are added
/// on the left and right, as many as the column has room for, all on the
/// right for no or left alignment, all on the left for right alignment,
/// and for centring half of them (rounded down) on the left and the rest,
/// at most one more, on the right.
pub proof fn law_alignment_fills_the_column(content: LineV, w: usize, align: Alignment, style: Style)
    ensures
        sat_width(content) >= w ==> align_spans(content, w, align, style) == content,
        sat_width(content) < w ==> exists|l: nat, r: nat|
            #![trigger blank_run(l, style), blank_run(r, style)]
            {
                &&& l + r == w - sat_width(content)
                &&& align_spans(content, w, align, style) == blank_run(l, style) + content + blank_run(r, style)
                &&& (align == Alignment::NoAlign || align == Alignment::Left) ==> l == 0
                &&& align == Alignment::Right ==> r == 0
                &&& align == Alignment::Center ==> l == (w - sat_width(content)) / 2 && l <= r && r <= l + 1
            },
{
    let cw = sat_width(content);
    if cw < w {
        let pad = (w - cw) as nat;
        let (l, r): (nat, nat) = match align {
            Alignment::Right => (pad, 0),
            Alignment::Center => (pad / 2, (pad - pad / 2) as nat),
            _ => (0, pad),
        };
        assert(align_spans(content, w, align, style) == blank_run(l, style) + content + blank_run(r, style));
    }
}

} // verus!
