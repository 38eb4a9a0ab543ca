//! Render primitives: the contract between the layout engine and every
//! terminal renderer.
//!
//! A [`RenderTree`] is a flat list of [`RenderLine`]s. Each line knows the
//! [`NodeId`] it was produced from, so the application can anchor the viewport
//! semantically instead of by absolute line number.
use vstd::prelude::*;
use crate::render::theme::Style;
use crate::util::text::{push_str, to_owned, trim_end_chars, chars_of, push_chars, push_char, trim_end};
use crate::util::unicode::{display_width, fits, width};

verus! {

/// Identifier of a document node (dense, in document order).
pub type NodeId = usize;

/// Identifier of a link of the document.
pub type LinkId = usize;

/// One styled run of text inside a [`RenderLine`].
#[derive(Debug, Clone, PartialEq)]
pub struct StyledSpan {
    /// Text of the run. Never contains `\n` or `\t`.
    pub text: String,
    /// Visual style.
    pub style: Style,
    /// Link this run belongs to, if any.
    pub link: Option<LinkId>,
    /// `true` when the run overlaps a search match.
    pub search_match: bool,
}

impl Default for StyledSpan {
    fn default() -> (s: Self)
        ensures
            s.text@ == Seq::<char>::empty(),
            s.style == Style::new(),
            s.link is None,
            !s.search_match,
    {
        StyledSpan { text: String::new(), style: Style::new(), link: None, search_match: false }
    }
}

/// Display width of a span's text.
pub open spec fn span_width(s: StyledSpan) -> nat {
    display_width(s.text@)
}

/// Total display width of a run of spans.
pub open spec fn spans_width(ss: Seq<StyledSpan>) -> nat
    decreases ss.len(),
{
    if ss.len() == 0 {
        0
    } else {
        spans_width(ss.drop_last()) + span_width(ss.last())
    }
}

/// Every span is measurable and the total width fits in a `usize`.
pub open spec fn spans_fit(ss: Seq<StyledSpan>) -> bool {
    &&& forall|i: int| 0 <= i < ss.len() ==> fits(#[trigger] ss[i].text@)
    &&& spans_width(ss) <= usize::MAX
}

/// The concatenated text of a run of spans.
pub open spec fn spans_text(ss: Seq<StyledSpan>) -> Seq<char>
    decreases ss.len(),
{
    if ss.len() == 0 {
        Seq::empty()
    } else {
        spans_text(ss.drop_last()) + ss.last().text@
    }
}

/// Two spans carry the same styling and provenance.
pub open spec fn same_look(a: StyledSpan, b: StyledSpan) -> bool {
    a.style == b.style && a.link == b.link && a.search_match == b.search_match
}

proof fn lemma_spans_width_prefix(ss: Seq<StyledSpan>, k: int)
    requires
        0 <= k <= ss.len(),
    ensures
        spans_width(ss.take(k)) <= spans_width(ss),
    decreases ss.len() - k,
{
    if k < ss.len() {
        lemma_spans_width_prefix(ss.drop_last(), k);
        assert(ss.drop_last().take(k) == ss.take(k));
    } else {
        assert(ss.take(k) == ss);
    }
}

impl StyledSpan {
    /// A plain run with a style.
    pub fn new(text: &str, style: Style) -> (s: Self)
        ensures
            s.text@ == text@,
            s.style == style,
            s.link is None,
            !s.search_match,
    {
        StyledSpan { text: to_owned(text), style, link: None, search_match: false }
    }

    /// The same run with a link id attached.
    pub fn with_link(self, link: Option<LinkId>) -> (s: Self)
        ensures
            s == (StyledSpan { link, ..self }),
    {
        StyledSpan { link, ..self }
    }

    /// Display width of the run in terminal cells.
    pub fn width(&self) -> (w: usize)
        requires
            fits(self.text@),
        ensures
            w == span_width(*self),
    {
        width(self.text.as_str())
    }

    /// Whether two spans can be merged (same styling and provenance).
    pub fn mergeable(&self, other: &Self) -> (b: bool)
        ensures
            b == same_look(*self, *other),
    {
        let same_link = match (self.link, other.link) {
            (Some(a), Some(b)) => a == b,
            (None, None) => true,
            _ => false,
        };
        self.style == other.style && same_link && self.search_match == other.search_match
    }
}

/// Reference to an image (or diagram image) placed on a line. The layout
/// engine never encodes image data; it only reserves the cells.
#[derive(Debug, Clone, PartialEq, Eq)]
pub struct ImageRef {
    /// Opaque id assigned by the image/diagram provider.
    pub id: usize,
    /// Reserved width in terminal columns.
    pub cols: u16,
    /// Reserved height in terminal rows.
    pub rows: u16,
    /// Alt text, shown when the image cannot be drawn.
    pub alt: String,
}

/// What kind of content a line carries. Renderers may treat kinds specially
/// (e.g. images), but must render `spans` for every kind.
#[derive(Debug, Clone, PartialEq, Eq)]
pub enum LineKind {
    /// Prose, list items, quotes, footnotes.
    Text,
    /// A heading line of the given level (1..=6), or its underline.
    Heading(u8),
    /// A line inside a code block.
    Code,
    /// A table border, header or body line.
    TableRow,
    /// A line of a text-rendered diagram.
    Diagram,
    /// A line that reserves space for a terminal image.
    Image(ImageRef),
    /// The single visible line of a collapsed section.
    FoldedMarker,
    /// Intentionally empty spacing line.
    Blank,
}

/// One laid-out terminal line.
#[derive(Debug, Clone, PartialEq)]
pub struct RenderLine {
    /// Node this line was produced from (semantic anchoring).
    pub node: NodeId,
    /// Content runs, left to right.
    pub spans: Vec<StyledSpan>,
    /// Content classification.
    pub kind: LineKind,
    /// Display width in columns; may exceed the viewport width.
    pub width: usize,
    /// 0-based index of this line within the consecutive run of lines that
    /// belong to `node`.
    pub node_offset: usize,
}

impl RenderLine {
    /// Build a line from spans, computing `width`.
    pub fn new(node: NodeId, kind: LineKind, spans: Vec<StyledSpan>) -> (l: Self)
        requires
            spans_fit(spans@),
        ensures
            l.node == node,
            l.kind == kind,
            l.spans@ == spans@,
            l.width == spans_width(spans@),
            l.node_offset == 0,
    {
        let w = total_width(&spans);
        RenderLine { node, spans, kind, width: w, node_offset: 0 }
    }

    /// Concatenated plain text of the line (trailing spaces kept).
    pub fn to_text(&self) -> (s: String)
        ensures
            s@ == spans_text(self.spans@),
    {
        let mut out = String::new();
        let mut i: usize = 0;
        while i < self.spans.len()
            invariant
                i <= self.spans@.len(),
                out@ == spans_text(self.spans@.take(i as int)),
            decreases self.spans@.len() - i,
        {
            push_str(&mut out, self.spans[i].text.as_str());
            i += 1;
            assert(self.spans@.take(i as int).drop_last() == self.spans@.take(i - 1));
        }
        assert(self.spans@.take(self.spans@.len() as int) == self.spans@);
        out
    }
}

/// The summed width of `spans`.
pub fn total_width(spans: &Vec<StyledSpan>) -> (w: usize)
    requires
        spans_fit(spans@),
    ensures
        w == spans_width(spans@),
{
    let mut w: usize = 0;
    let mut i: usize = 0;
    while i < spans.len()
        invariant
            i <= spans@.len(),
            spans_fit(spans@),
            w == spans_width(spans@.take(i as int)),
        decreases spans@.len() - i,
    {
        proof {
            assert(spans@.take(i + 1).drop_last() == spans@.take(i as int));
            lemma_spans_width_prefix(spans@, i + 1);
        }
        let sw = spans[i].width();
        w = w + sw;
        i += 1;
    }
    assert(spans@.take(spans@.len() as int) == spans@);
    w
}

/// A code block whose syntax highlighting has been deferred. Realizing it
/// never changes the number of lines it occupies nor their widths.
#[derive(Debug, Clone, PartialEq)]
pub struct PendingCode {
    /// Node the block was produced from.
    pub node: NodeId,
    /// Index of the block's first line in the tree.
    pub start: usize,
    /// Number of lines the block occupies.
    pub len: usize,
    /// Prefix spans (quote gutters, list indentation) each line carries.
    pub prefix: Vec<StyledSpan>,
    /// Content width the block was laid out at.
    pub width: usize,
}

/// The line range one top-level document node produced.
#[derive(Debug, Clone, Copy, PartialEq, Eq, Structural)]
pub struct NodeSpan {
    /// The top-level node.
    pub node: NodeId,
    /// Index of its first line.
    pub start: usize,
    /// Number of lines it produced (0 when it is hidden).
    pub len: usize,
}


/// The `node_offset` every line must carry: its index within the consecutive
/// run of lines of its node.
pub open spec fn offsets_ok(lines: Seq<RenderLine>) -> bool {
    forall|i: int|
        0 <= i < lines.len() ==> #[trigger] lines[i].node_offset == (if i > 0 && lines[i - 1].node
            == lines[i].node {
            lines[i - 1].node_offset + 1
        } else {
            0
        })
}

/// The heading index of the first `n` lines: `(line, node, level)` for the
/// first line of each run of heading lines of one node, and `(line, node, 0)`
/// for every collapsed-section marker.
pub open spec fn headings_upto(lines: Seq<RenderLine>, n: int) -> Seq<(usize, NodeId, u8)>
    decreases n,
{
    if n <= 0 {
        Seq::empty()
    } else {
        let h = headings_upto(lines, n - 1);
        let l = lines[n - 1];
        match l.kind {
            LineKind::Heading(level) => if h.len() > 0 && h.last().1 == l.node {
                h
            } else {
                h.push(((n - 1) as usize, l.node, level))
            },
            LineKind::FoldedMarker => h.push(((n - 1) as usize, l.node, 0u8)),
            _ => h,
        }
    }
}

/// The heading index of a whole tree.
pub open spec fn headings_of(lines: Seq<RenderLine>) -> Seq<(usize, NodeId, u8)> {
    headings_upto(lines, lines.len() as int)
}

/// The widest of the first `n` lines.
pub open spec fn max_width_upto(lines: Seq<RenderLine>, n: int) -> usize
    decreases n,
{
    if n <= 0 {
        0
    } else {
        let m = max_width_upto(lines, n - 1);
        if lines[n - 1].width > m {
            lines[n - 1].width
        } else {
            m
        }
    }
}

/// The widest line.
pub open spec fn max_width_of(lines: Seq<RenderLine>) -> usize {
    max_width_upto(lines, lines.len() as int)
}

/// `a` is `b` with possibly another `node_offset`.
pub open spec fn same_but_offset(a: RenderLine, b: RenderLine) -> bool {
    a.node == b.node && a.spans == b.spans && a.kind == b.kind && a.width == b.width
}

/// The full laid-out document at one specific width.
#[derive(Debug, Clone)]
pub struct RenderTree {
    /// All lines in document order.
    pub lines: Vec<RenderLine>,
    /// Heading index, kept in step with `lines` by every method of the tree.
    pub headings: Vec<(usize, NodeId, u8)>,
    /// Widest line, kept in step with `lines`.
    pub max_width: usize,
    /// Code blocks whose highlighting is still deferred.
    pub pending: Vec<PendingCode>,
    /// Line spans of the top-level nodes, in document order.
    pub spans: Vec<NodeSpan>,
    /// First line of the trailing footnote section.
    pub tail: usize,
}

impl Default for RenderTree {
    fn default() -> (t: Self)
        ensures
            t.lines@.len() == 0,
            t.wf(),
    {
        RenderTree::new(Vec::new())
    }
}

/// `i` answers the anchor `(node, offset)`: it lies in the run of lines that
/// starts at the node's first line `s`, it is the first of them with the
/// wanted offset, or the run's last line when none has it.
pub open spec fn anchor_at_from(ls: Seq<RenderLine>, node: NodeId, offset: usize, s: int, i: int) -> bool {
    &&& 0 <= s <= i < ls.len()
    &&& forall|j: int| 0 <= j < s ==> #[trigger] ls[j].node != node
    &&& forall|j: int| s <= j <= i ==> #[trigger] ls[j].node == node
    &&& forall|j: int| s <= j < i ==> #[trigger] ls[j].node_offset != offset
    &&& (ls[i].node_offset == offset || i + 1 == ls.len() || ls[i + 1].node != node)
}

/// Some first line `s` of `node` makes `i` the answer to `(node, offset)`.
pub open spec fn anchor_answer(ls: Seq<RenderLine>, node: NodeId, offset: usize, i: int) -> bool {
    exists|s: int| anchor_at_from(ls, node, offset, s, i)
}

proof fn lemma_anchor_found(ls: Seq<RenderLine>, node: NodeId, offset: usize, s: int, i: int)
    requires
        anchor_at_from(ls, node, offset, s, i),
    ensures
        anchor_answer(ls, node, offset, i),
{
}

/// Whether a deferred code block overlaps the line range `[first, last)`.
pub open spec fn pending_overlaps(p: PendingCode, first: usize, last: usize) -> bool {
    p.start < last && p.start + p.len > first
}

impl RenderTree {
    /// The heading index.
    pub open spec fn heading_index(&self) -> Seq<(usize, NodeId, u8)> {
        self.headings@
    }

    /// The recorded widest line.
    pub open spec fn max_width_value(&self) -> usize {
        self.max_width
    }

    /// The deferred code blocks.
    pub open spec fn pending_index(&self) -> Seq<PendingCode> {
        self.pending@
    }

    /// The per-top-level-node line spans.
    pub open spec fn span_index(&self) -> Seq<NodeSpan> {
        self.spans@
    }

    /// The first line of the trailing footnote section.
    pub open spec fn tail_value(&self) -> usize {
        self.tail
    }

    /// The index tables agree with the lines: offsets restart at every node
    /// change, the heading index and widest line are those of the lines, and
    /// the tail is in range.
    pub open spec fn wf(&self) -> bool {
        &&& offsets_ok(self.lines@)
        &&& self.heading_index() == headings_of(self.lines@)
        &&& self.max_width_value() == max_width_of(self.lines@)
        &&& self.tail_value() <= self.lines@.len()
    }

    /// Build a tree from lines, computing the heading index and the maximum
    /// width; `node_offset` values are (re)assigned here. The tree has no
    /// node spans and no pending code blocks.
    pub fn new(lines: Vec<RenderLine>) -> (t: Self)
        ensures
            t.wf(),
            t.lines@.len() == lines@.len(),
            forall|i: int| 0 <= i < lines@.len() ==> same_but_offset(#[trigger] t.lines@[i], lines@[i]),
            t.pending_index().len() == 0,
            t.span_index().len() == 0,
            t.tail_value() == lines@.len(),
    {
        let tail = lines.len();
        RenderTree::with_index(lines, Vec::new(), Vec::new(), tail)
    }

    /// Build a tree from lines plus the layout engine's bookkeeping: the
    /// per-top-level-node line spans, the deferred code blocks, and the index
    /// of the first line of the trailing footnote section.
    pub fn with_index(
        lines: Vec<RenderLine>,
        pending: Vec<PendingCode>,
        spans: Vec<NodeSpan>,
        tail: usize,
    ) -> (t: Self)
        ensures
            t.wf(),
            t.lines@.len() == lines@.len(),
            forall|i: int| 0 <= i < lines@.len() ==> same_but_offset(#[trigger] t.lines@[i], lines@[i]),
            t.pending_index() == pending@,
            t.span_index() == spans@,
            t.tail_value() == if tail < lines@.len() { tail } else { lines@.len() as usize },
    {
        let lines = assign_offsets(lines);
        let headings = compute_headings(&lines);
        let max_width = compute_max_width(&lines);
        let tail = if tail < lines.len() { tail } else { lines.len() };
        RenderTree { lines, headings, max_width, pending, spans, tail }
    }

    /// Number of lines.
    pub fn len(&self) -> (n: usize)
        ensures
            n == self.lines@.len(),
    {
        self.lines.len()
    }

    /// `true` if the document produced no lines.
    pub fn is_empty(&self) -> (b: bool)
        ensures
            b == (self.lines@.len() == 0),
    {
        self.lines.len() == 0
    }

    /// Widest line in columns (the horizontal scroll range).
    pub fn max_width(&self) -> (w: usize)
        ensures
            w == self.max_width_value(),
    {
        self.max_width
    }

    /// Index of the first line produced by `node`, if the node is visible.
    pub fn first_line_of(&self, node: NodeId) -> (out: Option<usize>)
        ensures
            match out {
                Some(i) => i < self.lines@.len() && self.lines@[i as int].node == node && forall|j: int|
                    0 <= j < i ==> #[trigger] self.lines@[j].node != node,
                None => forall|j: int| 0 <= j < self.lines@.len() ==> #[trigger] self.lines@[j].node != node,
            },
    {
        let mut i: usize = 0;
        while i < self.lines.len()
            invariant
                i <= self.lines@.len(),
                forall|j: int| 0 <= j < i ==> #[trigger] self.lines@[j].node != node,
            decreases self.lines@.len() - i,
        {
            if self.lines[i].node == node {
                return Some(i);
            }
            i += 1;
        }
        None
    }

    /// Line index for the semantic anchor `(node, offset)`; the offset is
    /// clamped to the node's own lines. Returns `None` for hidden nodes.
    ///
    /// The answer lies in the run of lines that starts at the node's first
    /// line: the first of them with the wanted offset, else the run's last.
    pub fn line_index_for(&self, node: NodeId, offset: usize) -> (out: Option<usize>)
        ensures
            out is None <==> forall|j: int| 0 <= j < self.lines@.len() ==> #[trigger] self.lines@[j].node != node,
            out matches Some(i) ==> anchor_answer(self.lines@, node, offset, i as int),
    {
        let start = match self.first_line_of(node) {
            Some(s) => s,
            None => return None,
        };
        let ghost ls = self.lines@;
        let n = self.lines.len();
        let mut last = start;
        let mut idx = start;
        while idx < n
            invariant
                ls == self.lines@,
                n == ls.len(),
                start <= last <= idx <= n,
                start < n,
                ls[start as int].node == node,
                forall|j: int| 0 <= j < start ==> #[trigger] ls[j].node != node,
                idx > start ==> last == idx - 1,
                forall|j: int| start <= j < idx ==> #[trigger] ls[j].node == node,
                forall|j: int| start <= j < idx ==> #[trigger] ls[j].node_offset != offset,
            decreases n - idx,
        {
            let l = &self.lines[idx];
            if l.node != node {
                proof {
                    lemma_anchor_found(ls, node, offset, start as int, last as int);
                }
                return Some(last);
            }
            last = idx;
            if l.node_offset == offset {
                proof {
                    lemma_anchor_found(ls, node, offset, start as int, idx as int);
                }
                return Some(idx);
            }
            idx += 1;
        }
        proof {
            lemma_anchor_found(ls, node, offset, start as int, last as int);
        }
        Some(last)
    }

    /// The node a line came from.
    pub fn node_at(&self, line: usize) -> (out: Option<NodeId>)
        ensures
            out == if line < self.lines@.len() { Some(self.lines@[line as int].node) } else { None },
    {
        if line < self.lines.len() {
            Some(self.lines[line].node)
        } else {
            None
        }
    }

    /// The semantic anchor `(node, offset)` of a line.
    pub fn anchor_at(&self, line: usize) -> (out: Option<(NodeId, usize)>)
        ensures
            out == if line < self.lines@.len() {
                Some((self.lines@[line as int].node, self.lines@[line as int].node_offset))
            } else {
                None
            },
    {
        if line < self.lines.len() {
            Some((self.lines[line].node, self.lines[line].node_offset))
        } else {
            None
        }
    }

    /// All heading lines as `(line index, heading node, level)` in document
    /// order; collapsed section markers are reported with level `0`.
    pub fn heading_lines(&self) -> (out: &[(usize, NodeId, u8)])
        ensures
            out@ == self.heading_index(),
    {
        self.headings.as_slice()
    }

    /// Code blocks whose highlighting is still deferred.
    pub fn pending_code(&self) -> (out: &[PendingCode])
        ensures
            out@ == self.pending_index(),
    {
        self.pending.as_slice()
    }

    /// Line spans of every top-level node, in document order.
    pub fn node_spans(&self) -> (out: &[NodeSpan])
        ensures
            out@ == self.span_index(),
    {
        self.spans.as_slice()
    }

    /// Index of the first line of the trailing footnote section (or the
    /// number of lines when the document has none).
    pub fn tail_start(&self) -> (t: usize)
        ensures
            t == self.tail_value(),
    {
        self.tail
    }

    /// Remove and return the deferred code blocks overlapping the line range
    /// `[first, last)`; the others stay, in order.
    pub fn take_pending_in(&mut self, first: usize, last: usize) -> (taken: Vec<PendingCode>)
        ensures
            taken@ == old(self).pending_index().filter(|p: PendingCode| pending_overlaps(p, first, last)),
            final(self).pending_index() == old(self).pending_index().filter(
                |p: PendingCode| !pending_overlaps(p, first, last),
            ),
            final(self).lines@ == old(self).lines@,
            final(self).heading_index() == old(self).heading_index(),
            final(self).max_width_value() == old(self).max_width_value(),
            final(self).span_index() == old(self).span_index(),
            final(self).tail_value() == old(self).tail_value(),
    {
        let mut taken: Vec<PendingCode> = Vec::new();
        let mut kept: Vec<PendingCode> = Vec::new();
        let mut all: Vec<PendingCode> = Vec::new();
        std::mem::swap(&mut all, &mut self.pending);
        let ghost src = all@;
        let _n0 = all.len();
        let mut rev: Vec<PendingCode> = Vec::new();
        while all.len() > 0
            invariant
                rev@.len() + all@.len() == src.len(),
                src.len() <= usize::MAX,
                all@ == src.take(all@.len() as int),
                forall|j: int| 0 <= j < rev@.len() ==> #[trigger] rev@[j] == src[src.len() - 1 - j],
            decreases all@.len(),
        {
            let e = all.pop().unwrap();
            rev.push(e);
        }
        let mut k: usize = 0;
        while rev.len() > 0
            invariant
                k + rev@.len() == src.len(),
                src.len() <= usize::MAX,
                forall|j: int| 0 <= j < rev@.len() ==> #[trigger] rev@[j] == src[src.len() - 1 - j],
                taken@ == src.take(k as int).filter(|p: PendingCode| pending_overlaps(p, first, last)),
                kept@ == src.take(k as int).filter(|p: PendingCode| !pending_overlaps(p, first, last)),
            decreases rev@.len(),
        {
            let e = rev.pop().unwrap();
            proof {
                assert(e == src[k as int]);
                let t1 = src.take(k + 1);
                assert(t1.drop_last() == src.take(k as int));
                assert(t1.last() == src[k as int]);
                let p1 = |p: PendingCode| pending_overlaps(p, first, last);
                let p2 = |p: PendingCode| !pending_overlaps(p, first, last);
                assert(src.take(k as int).push(e) == t1);
                src.take(k as int).lemma_filter_push(e, p1);
                src.take(k as int).lemma_filter_push(e, p2);
            }
            let hit = if e.start >= last {
                false
            } else if e.start > first {
                true
            } else if e.start == first {
                e.len > 0
            } else {
                e.len > first - e.start
            };
            if hit {
                taken.push(e);
            } else {
                kept.push(e);
            }
            k += 1;
        }
        assert(src.take(src.len() as int) == src);
        self.pending = kept;
        taken
    }
}

/// `lines` with every `node_offset` recomputed.
pub fn assign_offsets(lines: Vec<RenderLine>) -> (out: Vec<RenderLine>)
    ensures
        out@.len() == lines@.len(),
        forall|j: int| 0 <= j < lines@.len() ==> same_but_offset(#[trigger] out@[j], lines@[j]),
        offsets_ok(out@),
{
    let mut lines = lines;
    let ghost orig = lines@;
    let mut i: usize = 0;
    while i < lines.len()
        invariant
            i <= lines@.len(),
            lines@.len() == orig.len(),
            forall|j: int| 0 <= j < orig.len() ==> same_but_offset(#[trigger] lines@[j], orig[j]),
            forall|j: int|
                0 <= j < i ==> #[trigger] lines@[j].node_offset == (if j > 0 && lines@[j - 1].node
                    == lines@[j].node {
                    lines@[j - 1].node_offset + 1
                } else {
                    0
                }),
            forall|j: int| 0 <= j < i ==> #[trigger] lines@[j].node_offset <= j,
        decreases lines@.len() - i,
    {
        let offset: usize = if i > 0 && lines[i - 1].node == lines[i].node {
            lines[i - 1].node_offset + 1
        } else {
            0
        };
        lines[i].node_offset = offset;
        i += 1;
    }
    lines
}

/// The heading index of `lines`.
pub fn compute_headings(lines: &Vec<RenderLine>) -> (out: Vec<(usize, NodeId, u8)>)
    ensures
        out@ == headings_of(lines@),
{
    let mut headings: Vec<(usize, NodeId, u8)> = Vec::new();
    let mut i: usize = 0;
    while i < lines.len()
        invariant
            i <= lines@.len(),
            headings@ == headings_upto(lines@, i as int),
        decreases lines@.len() - i,
    {
        let node = lines[i].node;
        match lines[i].kind {
            LineKind::Heading(level) => {
                let n = headings.len();
                if n == 0 || headings[n - 1].1 != node {
                    headings.push((i, node, level));
                }
            },
            LineKind::FoldedMarker => {
                headings.push((i, node, 0));
            },
            _ => {},
        }
        i += 1;
    }
    headings
}

/// The widest of `lines`.
pub fn compute_max_width(lines: &Vec<RenderLine>) -> (out: usize)
    ensures
        out == max_width_of(lines@),
{
    let mut m: usize = 0;
    let mut i: usize = 0;
    while i < lines.len()
        invariant
            i <= lines@.len(),
            m == max_width_upto(lines@, i as int),
        decreases lines@.len() - i,
    {
        if lines[i].width > m {
            m = lines[i].width;
        }
        i += 1;
    }
    m
}

impl RenderTree {
    /// Replace the *content* of `lines.len()` consecutive lines starting at
    /// `start`, keeping their node, kind and `node_offset`, and widen the
    /// recorded maximum width where a new line is wider.
    ///
    /// Returns `false`, changing nothing, when the range does not exist.
    pub fn replace_line_spans(&mut self, start: usize, lines: Vec<Vec<StyledSpan>>) -> (ok: bool)
        requires
            forall|k: int| 0 <= k < lines@.len() ==> spans_fit(#[trigger] lines@[k]@),
        ensures
            ok == (start + lines@.len() <= old(self).lines@.len()),
            !ok ==> *final(self) == *old(self),
            ok ==> {
                &&& final(self).lines@.len() == old(self).lines@.len()
                &&& forall|j: int|
                    0 <= j < old(self).lines@.len() && !(start <= j < start + lines@.len())
                        ==> #[trigger] final(self).lines@[j] == old(self).lines@[j]
                &&& forall|k: int|
                    0 <= k < lines@.len() ==> {
                        let l = #[trigger] final(self).lines@[start + k];
                        let o = old(self).lines@[start + k];
                        &&& l.spans@ == lines@[k]@
                        &&& l.width == spans_width(lines@[k]@)
                        &&& l.node == o.node
                        &&& l.kind == o.kind
                        &&& l.node_offset == o.node_offset
                    }
                &&& final(self).max_width >= old(self).max_width
                &&& forall|k: int| 0 <= k < lines@.len() ==> final(self).max_width >= spans_width(#[trigger] lines@[k]@)
                &&& final(self).headings == old(self).headings
                &&& final(self).pending == old(self).pending
                &&& final(self).spans == old(self).spans
                &&& final(self).tail == old(self).tail
            },
    {
        if start > self.lines.len() || lines.len() > self.lines.len() - start {
            return false;
        }
        let ghost before = self.lines@;
        let ghost news = lines@;
        let n = lines.len();
        let mut lines = lines;
        let mut rev: Vec<Vec<StyledSpan>> = Vec::new();
        while lines.len() > 0
            invariant
                rev@.len() + lines@.len() == n,
                n == news.len(),
                lines@ == news.take(lines@.len() as int),
                forall|j: int| 0 <= j < rev@.len() ==> #[trigger] rev@[j] == news[n - 1 - j],
            decreases lines@.len(),
        {
            let e = lines.pop().unwrap();
            rev.push(e);
        }
        let ghost old_max = self.max_width;
        let mut k: usize = 0;
        while rev.len() > 0
            invariant
                k + rev@.len() == n,
                n == news.len(),
                start + n <= before.len(),
                forall|j: int| 0 <= j < rev@.len() ==> #[trigger] rev@[j] == news[n - 1 - j],
                forall|q: int| 0 <= q < news.len() ==> spans_fit(#[trigger] news[q]@),
                self.lines@.len() == before.len(),
                forall|j: int|
                    0 <= j < before.len() && !(start <= j < start + k) ==> #[trigger] self.lines@[j] == before[j],
                forall|q: int|
                    0 <= q < k ==> {
                        let l = #[trigger] self.lines@[start + q];
                        let o = before[start + q];
                        &&& l.spans@ == news[q]@
                        &&& l.width == spans_width(news[q]@)
                        &&& l.node == o.node
                        &&& l.kind == o.kind
                        &&& l.node_offset == o.node_offset
                    },
                self.max_width >= old_max,
                forall|q: int| 0 <= q < k ==> self.max_width >= spans_width(#[trigger] news[q]@),
                self.headings == old(self).headings,
                self.pending == old(self).pending,
                self.spans == old(self).spans,
                self.tail == old(self).tail,
            decreases rev@.len(),
        {
            let spans = rev.pop().unwrap();
            assert(spans == news[k as int]);
            let w = total_width(&spans);
            let _nl = self.lines.len();
            let idx = start + k;
            self.lines[idx].width = w;
            self.lines[idx].spans = spans;
            if w > self.max_width {
                self.max_width = w;
            }
            k += 1;
        }
        true
    }

    /// Plain-text rendering of the whole tree: every line's text without
    /// trailing white space, each followed by a newline.
    pub fn to_plain_text(&self) -> (s: String)
        ensures
            s@ == plain_text(self.lines@),
    {
        let mut out = String::new();
        let mut i: usize = 0;
        while i < self.lines.len()
            invariant
                i <= self.lines@.len(),
                out@ == plain_text(self.lines@.take(i as int)),
            decreases self.lines@.len() - i,
        {
            let t = self.lines[i].to_text();
            let cs = chars_of(t.as_str());
            let trimmed = trim_end_chars(cs.as_slice());
            push_chars(&mut out, trimmed.as_slice());
            push_char(&mut out, '\n');
            i += 1;
            assert(self.lines@.take(i as int).drop_last() == self.lines@.take(i - 1));
        }
        assert(self.lines@.take(self.lines@.len() as int) == self.lines@);
        out
    }

    /// The lines visible in a window of `height` lines starting at
    /// `top_line`, clamped to the tree.
    pub fn visible_slice(&self, top_line: usize, height: usize) -> (out: &[RenderLine])
        ensures
            ({
                let n = self.lines@.len();
                let start = if top_line < n { top_line as int } else { n as int };
                let end = if start + height < n { start + height } else { n as int };
                out@ == self.lines@.subrange(start, end)
            }),
    {
        let n = self.lines.len();
        let start = if top_line < n { top_line } else { n };
        let end = if height < n - start { start + height } else { n };
        &self.lines.as_slice()[start..end]
    }
}

/// The plain text of a run of lines: each line's text without trailing white
/// space, followed by a newline.
pub open spec fn plain_text(lines: Seq<RenderLine>) -> Seq<char>
    decreases lines.len(),
{
    if lines.len() == 0 {
        Seq::empty()
    } else {
        plain_text(lines.drop_last()) + trim_end(spans_text(lines.last().spans@)).push('\n')
    }
}

proof fn lemma_headings_upto_prefix(a: Seq<RenderLine>, b: Seq<RenderLine>, n: int)
    requires
        0 <= n <= a.len(),
        n <= b.len(),
        forall|j: int| 0 <= j < n ==> a[j] == b[j],
    ensures
        headings_upto(a, n) == headings_upto(b, n),
    decreases n,
{
    if n > 0 {
        lemma_headings_upto_prefix(a, b, n - 1);
    }
}

proof fn lemma_max_width_upto_prefix(a: Seq<RenderLine>, b: Seq<RenderLine>, n: int)
    requires
        0 <= n <= a.len(),
        n <= b.len(),
        forall|j: int| 0 <= j < n ==> a[j] == b[j],
    ensures
        max_width_upto(a, n) == max_width_upto(b, n),
    decreases n,
{
    if n > 0 {
        lemma_max_width_upto_prefix(a, b, n - 1);
    }
}

/// Every node's lines form one contiguous run.
pub open spec fn node_runs_contiguous(ls: Seq<RenderLine>) -> bool {
    forall|a: int, b: int, c: int|
        0 <= a < b < c < ls.len() && #[trigger] ls[a].node == #[trigger] ls[c].node ==> #[trigger] ls[b].node == ls[a].node
}

proof fn lemma_run_offsets(ls: Seq<RenderLine>, s: int, j: int)
    requires
        offsets_ok(ls),
        0 <= s <= j < ls.len(),
        s == 0 || ls[s - 1].node != ls[s].node,
        forall|m: int| s <= m <= j ==> #[trigger] ls[m].node == ls[s].node,
    ensures
        ls[j].node_offset == j - s,
    decreases j - s,
{
    if j > s {
        lemma_run_offsets(ls, s, j - 1);
        assert(ls[j - 1].node == ls[j].node);
    } else {
        assert(ls[s].node_offset == 0);
    }
}

/// Looking an anchor up inverts reading it: on a tree whose nodes' lines
/// are contiguous, the line that [`RenderTree::line_index_for`] gives for
/// the anchor `(node, offset)` of line `i` (see [`RenderTree::anchor_at`])
/// is `i` itself.
pub proof fn law_anchor_lookup_inverts(t: RenderTree, i: int, k: int)
    requires
        t.wf(),
        node_runs_contiguous(t.lines@),
        0 <= i < t.lines@.len(),
        anchor_answer(t.lines@, t.lines@[i].node, t.lines@[i].node_offset, k),
    ensures
        k == i,
{
    let ls = t.lines@;
    let node = ls[i].node;
    let off = ls[i].node_offset;
    let s = choose|s: int| anchor_at_from(ls, node, off, s, k);
    assert(s <= i) by {
        if s > i {
            assert(ls[i].node != node);
        }
    }
    assert forall|m: int| s <= m <= i implies #[trigger] ls[m].node == ls[s].node by {
        if s < m && m < i {
            assert(ls[s].node == ls[i].node);
        }
    }
    if s > 0 {
        assert(ls[s - 1].node != node);
    }
    lemma_run_offsets(ls, s, i);
    if k < i {
        assert forall|m: int| s <= m <= k + 1 implies #[trigger] ls[m].node == ls[s].node by {}
        lemma_run_offsets(ls, s, k);
        assert(ls[k + 1].node == node);
        assert(ls[k].node_offset == off);
        assert(false);
    } else if k > i {
        assert(ls[i].node_offset != off);
    }
}


/// An offset past the last line of a node's run finds that last line: on a
/// tree whose nodes' lines are contiguous, the line that
/// [`RenderTree::line_index_for`] gives for `(node, offset)`, where line
/// `i` is the node's last line and `offset` is larger than its offset, is
/// `i`. (A node without a line gives `None`, which the lookup's contract
/// states for every tree.)
pub proof fn law_offset_past_run_finds_last_line(t: RenderTree, i: int, offset: usize, k: int)
    requires
        t.wf(),
        node_runs_contiguous(t.lines@),
        0 <= i < t.lines@.len(),
        i + 1 == t.lines@.len() || t.lines@[i + 1].node != t.lines@[i].node,
        offset > t.lines@[i].node_offset,
        anchor_answer(t.lines@, t.lines@[i].node, offset, k),
    ensures
        k == i,
{
    let ls = t.lines@;
    let node = ls[i].node;
    let s = choose|s: int| anchor_at_from(ls, node, offset, s, k);
    assert(s <= i) by {
        if s > i {
            assert(ls[i].node != node);
        }
    }
    assert forall|m: int| s <= m <= i implies #[trigger] ls[m].node == ls[s].node by {
        if s < m && m < i {
            assert(ls[s].node == ls[i].node);
        }
    }
    if s > 0 {
        assert(ls[s - 1].node != node);
    }
    lemma_run_offsets(ls, s, i);
    if k < i {
        assert forall|m: int| s <= m <= k + 1 implies #[trigger] ls[m].node == ls[s].node by {}
        lemma_run_offsets(ls, s, k);
        assert(ls[k + 1].node == node);
        assert(ls[k].node_offset != offset);
        assert(false);
    } else if k > i {
        assert(ls[i + 1].node == node);
    }
}

} // verus!
