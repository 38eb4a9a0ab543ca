//! Incremental re-layout of a range of top-level nodes.
//!
//! A fold changes a contiguous run of top-level nodes and leaves the rest of
//! the document alone: [`RenderTree::splice_nodes`] puts a freshly laid-out
//! block in place of the lines of those nodes and moves every index of the
//! tree accordingly.
use vstd::prelude::*;
use crate::render::primitives::{
    assign_offsets, compute_headings, compute_max_width, offsets_ok, same_but_offset, NodeSpan,
    PendingCode, RenderLine, RenderTree,
};

verus! {

/// `v` after a splice put `added` lines in place of `removed` ones at an
/// earlier position: shifted by the difference, clamped to `usize`.
pub open spec fn moved(v: usize, added: usize, removed: usize) -> usize {
    let m = v + added - removed;
    if m < 0 {
        0
    } else if m > usize::MAX {
        usize::MAX
    } else {
        m as usize
    }
}

/// `base` with the items `[s, e)` replaced by `mid`.
pub open spec fn splice_seq<T>(base: Seq<T>, s: int, e: int, mid: Seq<T>) -> Seq<T> {
    base.take(s) + mid + base.skip(e)
}

/// Two runs of lines that agree but for their `node_offset`s.
pub open spec fn lines_match(a: Seq<RenderLine>, b: Seq<RenderLine>) -> bool {
    a.len() == b.len() && forall|j: int| 0 <= j < a.len() ==> same_but_offset(#[trigger] a[j], b[j])
}

/// A node span given relative to the block, placed at line `at`.
pub open spec fn placed_span(x: NodeSpan, at: usize) -> NodeSpan {
    NodeSpan { start: (x.start + at) as usize, ..x }
}

/// A node span below the spliced range, moved with it.
pub open spec fn moved_span(x: NodeSpan, added: usize, removed: usize) -> NodeSpan {
    NodeSpan { start: moved(x.start, added, removed), ..x }
}

/// A deferred code block given relative to the block, placed at line `at`.
pub open spec fn placed_pending(p: PendingCode, at: usize) -> PendingCode {
    PendingCode { start: (p.start + at) as usize, ..p }
}

/// A deferred code block below the spliced range, moved with it.
pub open spec fn moved_pending(p: PendingCode, added: usize, removed: usize) -> PendingCode {
    PendingCode { start: moved(p.start, added, removed), ..p }
}

/// The deferred code blocks that survive a splice of the lines `[s, e)`:
/// those above the range as they are, those below it moved; the ones that
/// started inside the range are dropped.
pub open spec fn kept_pending(ps: Seq<PendingCode>, s: usize, e: usize, added: usize, removed: usize) -> Seq<
    PendingCode,
>
    decreases ps.len(),
{
    if ps.len() == 0 {
        Seq::empty()
    } else {
        let r = kept_pending(ps.drop_last(), s, e, added, removed);
        let p = ps.last();
        if p.start < s {
            r.push(p)
        } else if p.start >= e {
            r.push(moved_pending(p, added, removed))
        } else {
            r
        }
    }
}

/// `x` inserted into `s` after every entry whose start is not greater.
pub open spec fn insert_by_start(s: Seq<PendingCode>, x: PendingCode) -> Seq<PendingCode>
    decreases s.len(),
{
    if s.len() == 0 {
        seq![x]
    } else if s.last().start <= x.start {
        s.push(x)
    } else {
        insert_by_start(s.drop_last(), x).push(s.last())
    }
}

/// `s` stably sorted by start line.
pub open spec fn sort_by_start(s: Seq<PendingCode>) -> Seq<PendingCode>
    decreases s.len(),
{
    if s.len() == 0 {
        Seq::empty()
    } else {
        insert_by_start(sort_by_start(s.drop_last()), s.last())
    }
}

/// Start lines never decrease along `s`.
pub open spec fn sorted_by_start(s: Seq<PendingCode>) -> bool {
    forall|i: int, j: int| 0 <= i <= j < s.len() ==> #[trigger] s[i].start <= #[trigger] s[j].start
}

/// First line of the spliced range: that of the node span `first`.
pub open spec fn range_start(spans: Seq<NodeSpan>, first: usize) -> usize {
    spans[first as int].start
}

/// End of the spliced range: the end of the node span `first + count - 1`.
pub open spec fn range_end(spans: Seq<NodeSpan>, first: usize, count: usize) -> int {
    spans[first + count - 1].start + spans[first + count - 1].len
}

/// A splice of `count` node spans from `first` is accepted: the spans exist
/// and cover an existing line range.
pub open spec fn splice_accepts(spans: Seq<NodeSpan>, n: nat, first: usize, count: usize) -> bool {
    &&& count > 0
    &&& first + count <= spans.len()
    &&& range_end(spans, first, count) <= n
    &&& range_start(spans, first) <= range_end(spans, first, count)
}

/// `after` is `before` with the node spans `first .. first + count` replaced
/// by a block of `lines`, `pending` and `spans` given relative to the block:
/// the lines are spliced (offsets recomputed), the node spans and deferred
/// blocks of the range replaced and those below it moved, the deferred blocks
/// kept sorted by start line, the tail moved, and every index consistent.
pub open spec fn spliced(
    before: RenderTree,
    after: RenderTree,
    first: usize,
    count: usize,
    lines: Seq<RenderLine>,
    pending: Seq<PendingCode>,
    spans: Seq<NodeSpan>,
) -> bool {
    let s = range_start(before.spans@, first);
    let e = range_end(before.spans@, first, count);
    let added = lines.len() as usize;
    let removed = (e - s) as usize;
    &&& after.wf()
    &&& lines_match(after.lines@, splice_seq(before.lines@, s as int, e, lines))
    &&& after.spans@ == before.spans@.take(first as int) + spans.map_values(
        |x: NodeSpan| placed_span(x, s),
    ) + before.spans@.skip(first + count).map_values(|x: NodeSpan| moved_span(x, added, removed))
    &&& after.pending@ == sort_by_start(
        kept_pending(before.pending@, s, e as usize, added, removed) + pending.map_values(
            |p: PendingCode| placed_pending(p, s),
        ),
    )
    &&& after.tail == if moved(before.tail, added, removed) < after.lines@.len() {
        moved(before.tail, added, removed)
    } else {
        after.lines@.len() as usize
    }
}

/// `v` moved by a splice (see [`moved`]).
pub fn move_index(v: usize, added: usize, removed: usize) -> (r: usize)
    ensures
        r == moved(v, added, removed),
{
    if v >= removed {
        let d = v - removed;
        if added > usize::MAX - d {
            usize::MAX
        } else {
            d + added
        }
    } else {
        let need = removed - v;
        if added >= need {
            added - need
        } else {
            0
        }
    }
}

/// The items of `v` in reverse order.
pub(crate) fn reversed<T>(v: Vec<T>) -> (r: Vec<T>)
    ensures
        r@.len() == v@.len(),
        forall|j: int| 0 <= j < v@.len() ==> #[trigger] r@[j] == v@[v@.len() - 1 - j],
{
    let ghost src = v@;
    let mut v = v;
    let mut r: Vec<T> = Vec::new();
    while v.len() > 0
        invariant
            r@.len() + v@.len() == src.len(),
            v@ == src.take(v@.len() as int),
            forall|j: int| 0 <= j < r@.len() ==> #[trigger] r@[j] == src[src.len() - 1 - j],
        decreases v@.len(),
    {
        let x = v.pop().unwrap();
        r.push(x);
    }
    r
}

/// The deferred code blocks that survive a splice of `[s, e)` (see
/// [`kept_pending`]).
fn keep_pending(ps: Vec<PendingCode>, s: usize, e: usize, added: usize, removed: usize) -> (out: Vec<
    PendingCode,
>)
    ensures
        out@ == kept_pending(ps@, s, e, added, removed),
{
    let ghost src = ps@;
    let n0 = ps.len();
    let mut rev = reversed(ps);
    let mut out: Vec<PendingCode> = Vec::new();
    let mut k: usize = 0;
    while rev.len() > 0
        invariant
            k + rev@.len() == src.len(),
            src.len() == n0,
            forall|j: int| 0 <= j < rev@.len() ==> #[trigger] rev@[j] == src[src.len() - 1 - j],
            out@ == kept_pending(src.take(k as int), s, e, added, removed),
        decreases rev@.len(),
    {
        let p = rev.pop().unwrap();
        proof {
            assert(p == src[k as int]);
            assert(src.take(k + 1).drop_last() == src.take(k as int));
        }
        if p.start < s {
            out.push(p);
        } else if p.start >= e {
            let m = move_index(p.start, added, removed);
            out.push(PendingCode { start: m, ..p });
        }
        k += 1;
    }
    assert(src.take(src.len() as int) == src);
    out
}

/// Append the deferred code blocks of a block placed at line `at`.
fn place_pending(out: &mut Vec<PendingCode>, ps: Vec<PendingCode>, at: usize)
    requires
        forall|k: int| 0 <= k < ps@.len() ==> #[trigger] ps@[k].start + at <= usize::MAX,
    ensures
        final(out)@ == old(out)@ + ps@.map_values(|p: PendingCode| placed_pending(p, at)),
{
    let ghost src = ps@;
    let ghost base = out@;
    let n0 = ps.len();
    let mut rev = reversed(ps);
    let mut k: usize = 0;
    while rev.len() > 0
        invariant
            k + rev@.len() == src.len(),
            src.len() == n0,
            forall|j: int| 0 <= j < rev@.len() ==> #[trigger] rev@[j] == src[src.len() - 1 - j],
            forall|q: int| 0 <= q < src.len() ==> #[trigger] src[q].start + at <= usize::MAX,
            out@ == base + src.take(k as int).map_values(|p: PendingCode| placed_pending(p, at)),
        decreases rev@.len(),
    {
        let p = rev.pop().unwrap();
        proof {
            assert(p == src[k as int]);
            assert(src.take(k + 1).map_values(|p: PendingCode| placed_pending(p, at)) == src.take(
                k as int,
            ).map_values(|p: PendingCode| placed_pending(p, at)).push(placed_pending(p, at)));
        }
        let st = p.start + at;
        out.push(PendingCode { start: st, ..p });
        k += 1;
    }
    assert(src.take(src.len() as int) == src);
}

proof fn lemma_insert_at(s: Seq<PendingCode>, x: PendingCode, j: int)
    requires
        0 <= j <= s.len(),
        forall|q: int| j <= q < s.len() ==> #[trigger] s[q].start > x.start,
        j == 0 || s[j - 1].start <= x.start,
    ensures
        insert_by_start(s, x) == s.insert(j, x),
    decreases s.len(),
{
    if s.len() == 0 {
        assert(s.insert(j, x) == seq![x]);
    } else if s.last().start <= x.start {
        assert(j == s.len());
        assert(s.insert(j, x) == s.push(x));
    } else {
        assert(j < s.len());
        lemma_insert_at(s.drop_last(), x, j);
        assert(s.drop_last().insert(j, x).push(s.last()) == s.insert(j, x));
    }
}

/// `ps` stably sorted by start line (see [`sort_by_start`]).
fn sort_pending(ps: Vec<PendingCode>) -> (out: Vec<PendingCode>)
    ensures
        out@ == sort_by_start(ps@),
{
    let ghost src = ps@;
    let n0 = ps.len();
    let mut rev = reversed(ps);
    let mut out: Vec<PendingCode> = Vec::new();
    let mut k: usize = 0;
    while rev.len() > 0
        invariant
            k + rev@.len() == src.len(),
            src.len() == n0,
            forall|j: int| 0 <= j < rev@.len() ==> #[trigger] rev@[j] == src[src.len() - 1 - j],
            out@ == sort_by_start(src.take(k as int)),
        decreases rev@.len(),
    {
        let p = rev.pop().unwrap();
        let mut j = out.len();
        while j > 0 && out[j - 1].start > p.start
            invariant
                j <= out@.len(),
                forall|q: int| j <= q < out@.len() ==> #[trigger] out@[q].start > p.start,
            decreases j,
        {
            j -= 1;
        }
        proof {
            assert(p == src[k as int]);
            assert(src.take(k + 1).drop_last() == src.take(k as int));
            lemma_insert_at(out@, p, j as int);
        }
        out.insert(j, p);
        k += 1;
    }
    assert(src.take(src.len() as int) == src);
    out
}

impl RenderTree {
    /// Replace the lines of the top-level nodes `first .. first + count` (of
    /// the node spans) with a freshly laid-out block, adjusting every index
    /// in the tree. `lines`, `pending` and `spans` use offsets relative to
    /// the start of the replaced range. The rest of the document keeps its
    /// lines and only its offsets move.
    ///
    /// Returns `false`, changing nothing, when the node range or the lines it
    /// covers do not exist.
    pub fn splice_nodes(
        &mut self,
        first: usize,
        count: usize,
        lines: Vec<RenderLine>,
        pending: Vec<PendingCode>,
        spans: Vec<NodeSpan>,
    ) -> (ok: bool)
        requires
            splice_accepts(old(self).spans@, old(self).lines@.len(), first, count) ==> forall|k: int|
                0 <= k < spans@.len() ==> #[trigger] spans@[k].start + old(self).spans@[first as int].start
                    <= usize::MAX,
            splice_accepts(old(self).spans@, old(self).lines@.len(), first, count) ==> forall|k: int|
                0 <= k < pending@.len() ==> #[trigger] pending@[k].start + old(self).spans@[first as int].start
                    <= usize::MAX,
        ensures
            ok == splice_accepts(old(self).spans@, old(self).lines@.len(), first, count),
            !ok ==> *final(self) == *old(self),
            ok ==> spliced(*old(self), *final(self), first, count, lines@, pending@, spans@),
    {
        let ns = self.spans.len();
        if count == 0 || first >= ns || count > ns - first {
            return false;
        }
        let start = self.spans[first].start;
        let last = self.spans[first + count - 1];
        let n = self.lines.len();
        if last.start > n || last.len > n - last.start {
            return false;
        }
        let old_end = last.start + last.len;
        if start > old_end {
            return false;
        }
        let added = lines.len();
        let removed = old_end - start;
        let ghost before = *self;
        assert(splice_accepts(before.spans@, before.lines@.len(), first, count));

        // The lines: the block in place of the range, offsets recomputed.
        let mut all: Vec<RenderLine> = Vec::new();
        std::mem::swap(&mut all, &mut self.lines);
        let mut below = all.split_off(old_end);
        all.truncate(start);
        let mut block = lines;
        all.append(&mut block);
        all.append(&mut below);
        assert(all@ == splice_seq(before.lines@, start as int, old_end as int, lines@));
        let all = assign_offsets(all);

        // Node spans: the block's in place of the range, the rest moved.
        let mut sp: Vec<NodeSpan> = Vec::new();
        std::mem::swap(&mut sp, &mut self.spans);
        let rest = sp.split_off(first + count);
        sp.truncate(first);
        let ghost head = sp@;
        let mut k: usize = 0;
        while k < spans.len()
            invariant
                k <= spans@.len(),
                first < before.spans@.len(),
                start == before.spans@[first as int].start,
                forall|q: int| 0 <= q < spans@.len() ==> #[trigger] spans@[q].start + start <= usize::MAX,
                sp@ == head + spans@.take(k as int).map_values(|x: NodeSpan| placed_span(x, start)),
            decreases spans@.len() - k,
        {
            let x = spans[k];
            proof {
                assert(spans@.take(k + 1).map_values(|x: NodeSpan| placed_span(x, start)) == spans@.take(
                    k as int,
                ).map_values(|x: NodeSpan| placed_span(x, start)).push(placed_span(x, start)));
            }
            sp.push(NodeSpan { start: x.start + start, ..x });
            k += 1;
        }
        assert(spans@.take(spans@.len() as int) == spans@);
        let ghost mid = sp@;
        let mut k: usize = 0;
        while k < rest.len()
            invariant
                k <= rest@.len(),
                sp@ == mid + rest@.take(k as int).map_values(|x: NodeSpan| moved_span(x, added, removed)),
            decreases rest@.len() - k,
        {
            let x = rest[k];
            proof {
                assert(rest@.take(k + 1).map_values(|x: NodeSpan| moved_span(x, added, removed))
                    == rest@.take(k as int).map_values(|x: NodeSpan| moved_span(x, added, removed)).push(
                    moved_span(x, added, removed),
                ));
            }
            let m = move_index(x.start, added, removed);
            sp.push(NodeSpan { start: m, ..x });
            k += 1;
        }
        assert(rest@.take(rest@.len() as int) == rest@);

        // Deferred code blocks: drop those of the range, move those below,
        // add the block's, and keep them sorted by start line.
        let mut old_pending: Vec<PendingCode> = Vec::new();
        std::mem::swap(&mut old_pending, &mut self.pending);
        let mut collected = keep_pending(old_pending, start, old_end, added, removed);
        place_pending(&mut collected, pending, start);
        let sorted = sort_pending(collected);

        self.headings = compute_headings(&all);
        self.max_width = compute_max_width(&all);
        let t = move_index(self.tail, added, removed);
        self.tail = if t < all.len() {
            t
        } else {
            all.len()
        };
        self.lines = all;
        self.spans = sp;
        self.pending = sorted;
        proof {
            let s = range_start(before.spans@, first);
            let e = range_end(before.spans@, first, count);
            assert(s == start);
            assert(e == old_end);
            assert(self.wf());
            assert(lines_match(self.lines@, splice_seq(before.lines@, s as int, e, lines@)));
            assert(self.spans@ == before.spans@.take(first as int) + spans@.map_values(
                |x: NodeSpan| placed_span(x, s),
            ) + before.spans@.skip(first + count).map_values(|x: NodeSpan| moved_span(x, added, removed)));
            assert(self.pending@ == sort_by_start(
                kept_pending(before.pending@, s, e as usize, added, removed) + pending@.map_values(
                    |p: PendingCode| placed_pending(p, s),
                ),
            ));
        }
        true
    }
}


/// The node spans `sp` tile the lines `[from, to)`: the first starts at
/// `from`, each starts where the previous one ends, and the last ends at
/// `to` (no span at all covers nothing).
pub open spec fn tiles(sp: Seq<NodeSpan>, from: int, to: int) -> bool {
    if sp.len() == 0 {
        from == to
    } else {
        &&& sp[0].start == from
        &&& forall|j: int, k: int|
            #![trigger sp[j], sp[k]]
            0 <= j && k == j + 1 && k < sp.len() ==> sp[k].start == sp[j].start + sp[j].len
        &&& sp.last().start + sp.last().len == to
    }
}

impl RenderTree {
    /// The node spans, when there are any, tile the body of the document:
    /// the lines before the trailing footnote section.
    pub open spec fn index_tiles(&self) -> bool {
        self.spans@.len() == 0 || tiles(self.spans@, 0, self.tail as int)
    }
}

proof fn lemma_tiles_upto(sp: Seq<NodeSpan>, from: int, to: int, k: int)
    requires
        tiles(sp, from, to),
        0 <= k < sp.len(),
    ensures
        from <= sp[k].start,
        forall|j: int| 0 <= j < k ==> #[trigger] sp[j].start + sp[j].len <= sp[k].start,
    decreases k,
{
    if k > 0 {
        lemma_tiles_upto(sp, from, to, k - 1);
        assert(sp[k].start == sp[k - 1].start + sp[k - 1].len);
    }
}

/// Spans that tile a range are in order, without overlap, inside the range.
proof fn lemma_tiles_ordered(sp: Seq<NodeSpan>, from: int, to: int)
    requires
        tiles(sp, from, to),
    ensures
        forall|j: int, k: int| 0 <= j < k < sp.len() ==> #[trigger] sp[j].start + sp[j].len <= #[trigger] sp[k].start,
        forall|k: int| 0 <= k < sp.len() ==> from <= #[trigger] sp[k].start && sp[k].start + sp[k].len <= to,
{
    assert forall|j: int, k: int| 0 <= j < k < sp.len() implies #[trigger] sp[j].start + sp[j].len <= #[trigger] sp[k].start by {
        lemma_tiles_upto(sp, from, to, k);
    }
    assert forall|k: int| 0 <= k < sp.len() implies from <= #[trigger] sp[k].start && sp[k].start + sp[k].len <= to by {
        lemma_tiles_upto(sp, from, to, k);
        if k < sp.len() - 1 {
            lemma_tiles_upto(sp, from, to, sp.len() - 1);
        }
    }
}

/// Two runs of lines with correct offsets that agree but for offsets are equal.
proof fn lemma_offsets_unique(a: Seq<RenderLine>, b: Seq<RenderLine>)
    requires
        lines_match(a, b),
        offsets_ok(a),
        offsets_ok(b),
    ensures
        a == b,
{
    assert forall|i: int| 0 <= i < a.len() implies a[i].node_offset == b[i].node_offset by {
        lemma_offsets_agree(a, b, i);
    }
    assert forall|i: int| 0 <= i < a.len() implies a[i] == b[i] by {
        assert(same_but_offset(a[i], b[i]));
    }
    assert(a =~= b);
}

proof fn lemma_offsets_agree(a: Seq<RenderLine>, b: Seq<RenderLine>, i: int)
    requires
        lines_match(a, b),
        offsets_ok(a),
        offsets_ok(b),
        0 <= i < a.len(),
    ensures
        a[i].node_offset == b[i].node_offset,
    decreases i,
{
    assert(same_but_offset(a[i], b[i]));
    if i > 0 {
        lemma_offsets_agree(a, b, i - 1);
        assert(same_but_offset(a[i - 1], b[i - 1]));
    }
}

/// A sorted run of deferred blocks is its own stable sort.
proof fn lemma_sort_sorted(s: Seq<PendingCode>)
    requires
        sorted_by_start(s),
    ensures
        sort_by_start(s) == s,
    decreases s.len(),
{
    if s.len() > 0 {
        let d = s.drop_last();
        assert(sorted_by_start(d));
        lemma_sort_sorted(d);
        if d.len() > 0 {
            assert(d.last().start <= s.last().start);
        }
        assert(d.push(s.last()) == s);
    }
}

/// The blocks kept by a splice when none of them starts inside the range.
pub open spec fn shift_outside(p: PendingCode, s: usize, added: usize, removed: usize) -> PendingCode {
    if p.start < s {
        p
    } else {
        moved_pending(p, added, removed)
    }
}

proof fn lemma_kept_all(ps: Seq<PendingCode>, s: usize, e: usize, added: usize, removed: usize)
    requires
        s <= e,
        forall|k: int| 0 <= k < ps.len() ==> #[trigger] ps[k].start < s || ps[k].start >= e,
    ensures
        kept_pending(ps, s, e, added, removed) == ps.map_values(
            |p: PendingCode| shift_outside(p, s, added, removed),
        ),
    decreases ps.len(),
{
    if ps.len() > 0 {
        let d = ps.drop_last();
        lemma_kept_all(d, s, e, added, removed);
        assert(ps.map_values(|p: PendingCode| shift_outside(p, s, added, removed)) == d.map_values(
            |p: PendingCode| shift_outside(p, s, added, removed),
        ).push(shift_outside(ps.last(), s, added, removed)));
    }
}

proof fn lemma_restore_lines(a0: Seq<RenderLine>, a1: Seq<RenderLine>, a2: Seq<RenderLine>, s: int, e: int)
    requires
        0 <= s <= e <= a0.len(),
        lines_match(a1, splice_seq(a0, s, e, Seq::empty())),
        lines_match(a2, splice_seq(a1, s, s, a0.subrange(s, e))),
        offsets_ok(a0),
        offsets_ok(a2),
    ensures
        a1.len() == a0.len() - (e - s),
        a2 == a0,
{
    let n = a0.len();
    let len = e - s;
    let hidden = a0.subrange(s, e);
    let l1 = splice_seq(a0, s, e, Seq::empty());
    let l2 = splice_seq(a1, s, s, hidden);
    assert(l2.len() == n);
    assert forall|j: int| 0 <= j < n implies same_but_offset(#[trigger] a2[j], a0[j]) by {
        assert(same_but_offset(a2[j], l2[j]));
        if j < s {
            assert(l2[j] == a1[j]);
            assert(same_but_offset(a1[j], l1[j]));
            assert(l1[j] == a0[j]);
        } else if j < e {
            assert(l2[j] == hidden[j - s]);
        } else {
            assert(l2[j] == a1[j - len]);
            assert(same_but_offset(a1[j - len], l1[j - len]));
            assert(l1[j - len] == a0[j]);
        }
    }
    lemma_offsets_unique(a2, a0);
}

proof fn lemma_restore_spans(
    sp0: Seq<NodeSpan>,
    sp1: Seq<NodeSpan>,
    sp2: Seq<NodeSpan>,
    first: int,
    tail: int,
)
    requires
        tiles(sp0, 0, tail),
        0 <= first < sp0.len(),
        sp1 == sp0.take(first) + seq![NodeSpan { start: 0, len: 0, ..sp0[first] }].map_values(
            |x: NodeSpan| placed_span(x, sp0[first].start),
        ) + sp0.skip(first + 1).map_values(|x: NodeSpan| moved_span(x, 0, sp0[first].len)),
        sp2 == sp1.take(first) + seq![NodeSpan { start: 0, ..sp0[first] }].map_values(
            |x: NodeSpan| placed_span(x, sp0[first].start),
        ) + sp1.skip(first + 1).map_values(|x: NodeSpan| moved_span(x, sp0[first].len, 0)),
    ensures
        sp1.len() == sp0.len(),
        sp1[first] == (NodeSpan { len: 0, ..sp0[first] }),
        sp2 == sp0,
{
    let v = sp0[first];
    let s = v.start;
    let len = v.len;
    assert(seq![NodeSpan { start: 0, len: 0, ..v }].map_values(|x: NodeSpan| placed_span(x, s)) =~= seq![
        NodeSpan { len: 0, ..v },
    ]);
    assert(seq![NodeSpan { start: 0, ..v }].map_values(|x: NodeSpan| placed_span(x, s)) =~= seq![v]);
    let rest0 = sp0.skip(first + 1);
    let rest1 = rest0.map_values(|x: NodeSpan| moved_span(x, 0, len));
    assert(sp1 =~= sp0.take(first) + seq![NodeSpan { len: 0, ..v }] + rest1);
    assert(sp1.take(first) =~= sp0.take(first));
    assert(sp1.skip(first + 1) =~= rest1);
    assert forall|k: int| 0 <= k < rest0.len() implies #[trigger] moved_span(
        moved_span(rest0[k], 0, len),
        len,
        0,
    ) == rest0[k] by {
        assert(rest0[k] == sp0[first + 1 + k]);
        lemma_tiles_upto(sp0, 0, tail, first + 1 + k);
        assert(sp0[first].start + sp0[first].len <= sp0[first + 1 + k].start);
    }
    assert(rest1.map_values(|x: NodeSpan| moved_span(x, len, 0)) =~= rest0);
    assert(sp2 =~= sp0.take(first) + seq![v] + rest0);
    assert(sp0 =~= sp0.take(first) + seq![v] + rest0);
}

proof fn lemma_restore_pending(p0: Seq<PendingCode>, p1: Seq<PendingCode>, p2: Seq<PendingCode>, s: usize, len: usize)
    requires
        s + len <= usize::MAX,
        sorted_by_start(p0),
        forall|k: int| 0 <= k < p0.len() ==> !(s <= #[trigger] p0[k].start < s + len),
        p1 == sort_by_start(
            kept_pending(p0, s, (s + len) as usize, 0, len) + Seq::<PendingCode>::empty().map_values(
                |p: PendingCode| placed_pending(p, s),
            ),
        ),
        p2 == sort_by_start(
            kept_pending(p1, s, s, len, 0) + Seq::<PendingCode>::empty().map_values(
                |p: PendingCode| placed_pending(p, s),
            ),
        ),
    ensures
        p2 == p0,
{
    let e = (s + len) as usize;
    lemma_kept_all(p0, s, e, 0, len);
    let q1 = p0.map_values(|p: PendingCode| shift_outside(p, s, 0, len));
    assert(Seq::<PendingCode>::empty().map_values(|p: PendingCode| placed_pending(p, s)) =~= Seq::<
        PendingCode,
    >::empty());
    assert(kept_pending(p0, s, e, 0, len) + Seq::<PendingCode>::empty() =~= q1);
    assert(sorted_by_start(q1)) by {
        assert forall|i: int, j: int| 0 <= i <= j < q1.len() implies #[trigger] q1[i].start
            <= #[trigger] q1[j].start by {
            assert(p0[i].start <= p0[j].start);
        }
    }
    lemma_sort_sorted(q1);
    assert(p1 == q1);
    lemma_kept_all(q1, s, s, len, 0);
    let q2 = q1.map_values(|p: PendingCode| shift_outside(p, s, len, 0));
    assert(q2 =~= p0) by {
        assert forall|k: int| 0 <= k < p0.len() implies q2[k] == p0[k] by {
            if p0[k].start >= e {
                assert(q1[k].start == p0[k].start - len);
            }
        }
    }
    assert(kept_pending(q1, s, s, len, 0) + Seq::<PendingCode>::empty() =~= p0);
    lemma_sort_sorted(p0);
}

/// Hiding the lines of a top-level node (splicing in an empty block for it)
/// and then splicing the same lines back in leaves the tree exactly as it
/// was: its lines, node spans, tail, heading index and widest line, and its
/// deferred code blocks when they are sorted and none starts inside the
/// node. Both splices are accepted, and while hidden the tree is shorter by
/// exactly the node's lines.
pub proof fn law_hide_then_show_restores(t0: RenderTree, t1: RenderTree, t2: RenderTree, first: usize)
    requires
        t0.wf(),
        t0.index_tiles(),
        first < t0.spans@.len(),
        spliced(
            t0,
            t1,
            first,
            1,
            Seq::empty(),
            Seq::empty(),
            seq![NodeSpan { start: 0, len: 0, ..t0.spans@[first as int] }],
        ),
        spliced(
            t1,
            t2,
            first,
            1,
            t0.lines@.subrange(
                t0.spans@[first as int].start as int,
                t0.spans@[first as int].start + t0.spans@[first as int].len,
            ),
            Seq::empty(),
            seq![NodeSpan { start: 0, ..t0.spans@[first as int] }],
        ),
    ensures
        splice_accepts(t0.spans@, t0.lines@.len(), first, 1),
        splice_accepts(t1.spans@, t1.lines@.len(), first, 1),
        t1.lines@.len() == t0.lines@.len() - t0.spans@[first as int].len,
        t2.lines@ == t0.lines@,
        t2.spans@ == t0.spans@,
        t2.tail == t0.tail,
        t2.headings@ == t0.headings@,
        t2.max_width == t0.max_width,
        sorted_by_start(t0.pending@) && (forall|k: int|
            0 <= k < t0.pending@.len() ==> !(t0.spans@[first as int].start <= #[trigger] t0.pending@[k].start
                < t0.spans@[first as int].start + t0.spans@[first as int].len)) ==> t2.pending@ == t0.pending@,
{
    let sp0 = t0.spans@;
    let v = sp0[first as int];
    let s = v.start;
    let len = v.len;
    let e = s + len;
    lemma_tiles_ordered(sp0, 0, t0.tail as int);
    assert(e <= t0.tail);
    assert(range_start(sp0, first) == s);
    assert(range_end(sp0, first, 1) == e);
    lemma_restore_spans(sp0, t1.spans@, t2.spans@, first as int, t0.tail as int);
    assert(range_start(t1.spans@, first) == s);
    assert(range_end(t1.spans@, first, 1) == s);
    lemma_restore_lines(t0.lines@, t1.lines@, t2.lines@, s as int, e);
    assert(t1.tail == t0.tail - len);
    if sorted_by_start(t0.pending@) && (forall|k: int|
        0 <= k < t0.pending@.len() ==> !(s <= #[trigger] t0.pending@[k].start < e)) {
        lemma_restore_pending(t0.pending@, t1.pending@, t2.pending@, s, len);
    }
}

proof fn lemma_tiles_concat(x: Seq<NodeSpan>, y: Seq<NodeSpan>, a: int, b: int, c: int)
    requires
        tiles(x, a, b),
        tiles(y, b, c),
    ensures
        tiles(x + y, a, c),
{
    let z = x + y;
    if x.len() == 0 {
        assert(z =~= y);
    } else if y.len() == 0 {
        assert(z =~= x);
    } else {
        assert(z[0] == x[0]);
        assert(z.last() == y.last());
        assert forall|i: int, k: int| 0 <= i && k == i + 1 && k < z.len() implies #[trigger] z[k].start == #[trigger] z[i].start + z[i].len by {
            if k < x.len() {
                assert(z[k] == x[k] && z[k - 1] == x[k - 1]);
            } else if k == x.len() {
                assert(z[k] == y[0] && z[k - 1] == x.last());
            } else {
                assert(z[k] == y[k - x.len()] && z[k - 1] == y[k - 1 - x.len()]);
            }
        }
    }
}

proof fn lemma_tiles_shift(x: Seq<NodeSpan>, y: Seq<NodeSpan>, a: int, b: int, d: int)
    requires
        tiles(x, a, b),
        y.len() == x.len(),
        forall|k: int| 0 <= k < x.len() ==> #[trigger] y[k].start == x[k].start + d && y[k].len == x[k].len,
    ensures
        tiles(y, a + d, b + d),
{
    if x.len() > 0 {
        assert(y[0].start == x[0].start + d);
        assert(y.last().start == x.last().start + d);
        assert forall|i: int, k: int| 0 <= i && k == i + 1 && k < y.len() implies #[trigger] y[k].start == #[trigger] y[i].start + y[i].len by {
            assert(x[k].start == x[k - 1].start + x[k - 1].len);
            assert(y[k - 1].start == x[k - 1].start + d);
        }
    }
}

proof fn lemma_tiles_bounds(sp: Seq<NodeSpan>, from: int, to: int, k: int)
    requires
        tiles(sp, from, to),
        0 <= k < sp.len(),
    ensures
        from <= sp[k].start,
        sp[k].start + sp[k].len <= to,
{
    lemma_tiles_upto(sp, from, to, k);
    if k < sp.len() - 1 {
        lemma_tiles_upto(sp, from, to, sp.len() - 1);
    }
}

proof fn lemma_tiles_split(sp: Seq<NodeSpan>, from: int, to: int, m: int)
    requires
        tiles(sp, from, to),
        0 <= m <= sp.len(),
    ensures
        tiles(sp.take(m), from, if m < sp.len() { sp[m].start as int } else { to }),
        tiles(sp.skip(m), if m < sp.len() { sp[m].start as int } else { to }, to),
{
    let a = sp.take(m);
    let b = sp.skip(m);
    if m > 0 {
        assert(a[0] == sp[0]);
        assert(a.last() == sp[m - 1]);
        if m < sp.len() {
            assert(sp[m].start == sp[m - 1].start + sp[m - 1].len);
        }
        assert forall|i: int, k: int| 0 <= i && k == i + 1 && k < a.len() implies #[trigger] a[k].start == #[trigger] a[i].start + a[i].len by {
            assert(a[k] == sp[k] && a[k - 1] == sp[k - 1]);
        }
    } else if sp.len() > 0 {
        assert(sp[0].start == from);
    }
    if m < sp.len() {
        assert(b[0] == sp[m]);
        assert(b.last() == sp.last());
        assert forall|i: int, k: int| 0 <= i && k == i + 1 && k < b.len() implies #[trigger] b[k].start == #[trigger] b[i].start + b[i].len by {
            assert(b[k] == sp[m + k] && b[k - 1] == sp[m + k - 1]);
        }
    }
}

proof fn lemma_tiling_core(
    sp0: Seq<NodeSpan>,
    t: int,
    first: int,
    count: int,
    spans: Seq<NodeSpan>,
    added: usize,
    removed: usize,
)
    requires
        tiles(sp0, 0, t),
        count > 0,
        0 <= first,
        first + count <= sp0.len(),
        sp0[first].start <= sp0[first + count - 1].start + sp0[first + count - 1].len,
        removed == sp0[first + count - 1].start + sp0[first + count - 1].len - sp0[first].start,
        t + added - removed <= usize::MAX,
        tiles(spans, 0, added as int),
    ensures
        tiles(
            sp0.take(first) + spans.map_values(|x: NodeSpan| placed_span(x, sp0[first].start))
                + sp0.skip(first + count).map_values(|x: NodeSpan| moved_span(x, added, removed)),
            0,
            t + added - removed,
        ),
{
    let s = sp0[first].start;
    let e = sp0[first + count - 1].start + sp0[first + count - 1].len;
    lemma_tiles_bounds(sp0, 0, t, first + count - 1);
    lemma_tiles_split(sp0, 0, t, first);
    let top = sp0.take(first);
    lemma_tiles_split(sp0, 0, t, first + count);
    let low = sp0.skip(first + count);
    if first + count < sp0.len() {
        assert(sp0[first + count].start == sp0[first + count - 1].start + sp0[first + count - 1].len);
    }
    assert(tiles(low, e, t));
    let blk = spans.map_values(|x: NodeSpan| placed_span(x, s));
    assert forall|k: int| 0 <= k < spans.len() implies #[trigger] blk[k].start == spans[k].start + s
        && blk[k].len == spans[k].len by {
        lemma_tiles_bounds(spans, 0, added as int, k);
    }
    lemma_tiles_shift(spans, blk, 0, added as int, s as int);
    let moved_low = low.map_values(|x: NodeSpan| moved_span(x, added, removed));
    assert forall|k: int| 0 <= k < low.len() implies #[trigger] moved_low[k].start == low[k].start + added
        - removed && moved_low[k].len == low[k].len by {
        lemma_tiles_bounds(low, e, t, k);
    }
    lemma_tiles_shift(low, moved_low, e, t, added - removed);
    lemma_tiles_concat(top, blk, 0, s as int, s + added);
    lemma_tiles_concat(top + blk, moved_low, 0, s + added, t + added - removed);
}

/// A splice whose block comes with node spans that tile the block keeps the
/// node spans of a tree tiling its body: the spans above the range, the
/// block's, and the moved ones below it follow each other without gap or
/// overlap up to the moved tail.
#[verifier::rlimit(40)]
pub proof fn law_splice_keeps_tiling(
    before: RenderTree,
    after: RenderTree,
    first: usize,
    count: usize,
    lines: Seq<RenderLine>,
    pending: Seq<PendingCode>,
    spans: Seq<NodeSpan>,
)
    requires
        before.wf(),
        before.index_tiles(),
        splice_accepts(before.spans@, before.lines@.len(), first, count),
        spliced(before, after, first, count, lines, pending, spans),
        tiles(spans, 0, lines.len() as int),
    ensures
        after.index_tiles(),
{
    let sp0 = before.spans@;
    let t = before.tail as int;
    let s = range_start(sp0, first) as int;
    let e = range_end(sp0, first, count);
    let added = lines.len() as usize;
    let removed = (e - s) as usize;
    let n = before.lines@.len();
    assert(after.lines.len() == after.lines@.len());
    assert(before.lines.len() == before.lines@.len());
    assert(after.lines@.len() == s + lines.len() + (n - e)) by {
        assert(lines_match(after.lines@, splice_seq(before.lines@, s, e, lines)));
        assert(before.lines@.take(s).len() == s);
        assert(before.lines@.skip(e).len() == n - e);
    }
    assert(after.lines@.len() <= usize::MAX);
    assert(s <= e <= n);
    assert(lines.len() <= usize::MAX);
    assert(added == lines.len());
    assert(removed == e - s);
    assert(after.lines@.len() == n - removed + added);
    lemma_tiles_bounds(sp0, 0, t, first + count - 1);
    lemma_tiling_core(sp0, t, first as int, count as int, spans, added, removed);
    assert(after.tail == t + added - removed);
}

} // verus!
