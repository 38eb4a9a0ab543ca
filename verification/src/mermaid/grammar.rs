//! The grammar of the supported Mermaid flowchart subset, as the meaning of
//! each parsing step on the characters of a statement: where it stops, what
//! it reads, and which error it reports at which offset.
use vstd::prelude::*;
use crate::mermaid::ast::{ArrowKind, Diagram, DiagramEdge, DiagramNode, EdgeStyle, NodeShape, Subgraph};
use crate::mermaid::ast::Orientation;
use crate::util::text::{ascii_lower, is_white, lines_of, trim};

verus! {

/// A node as written: identifier, label if one was given, shape.
pub type NodeV = (Seq<char>, Option<Seq<char>>, NodeShape);

/// A connector: line style, arrow, label if one was given, and whether it
/// points at its left operand.
pub type ConnV = (EdgeStyle, ArrowKind, Option<Seq<char>>, bool);

/// A parse error inside a statement: character offset and message.
pub type ErrV = (int, Seq<char>);

/// `p` occurs in `s` at `k`.
pub open spec fn starts(s: Seq<char>, k: int, p: Seq<char>) -> bool {
    0 <= k && k + p.len() <= s.len() && s.subrange(k, k + p.len()) == p
}

/// The first position at or after `i` that is not white space.
pub open spec fn skip_spec(s: Seq<char>, i: int) -> int
    decreases s.len() - i,
{
    if i >= s.len() || i < 0 || !is_white(s[i]) {
        i
    } else {
        skip_spec(s, i + 1)
    }
}

/// The first position at or after `k` where `p` occurs, or the end.
pub open spec fn find_spec(s: Seq<char>, k: int, p: Seq<char>) -> int
    decreases s.len() - k,
{
    if k >= s.len() || k < 0 || starts(s, k, p) {
        k
    } else {
        find_spec(s, k + 1, p)
    }
}

/// How many times `c` repeats from `i` on.
pub open spec fn run_spec(s: Seq<char>, i: int, c: char) -> int
    decreases s.len() - i,
{
    if i >= s.len() || i < 0 || s[i] != c {
        0
    } else {
        1 + run_spec(s, i + 1, c)
    }
}

/// The rest of a quoted label from `k` on: `\` escapes the next character,
/// `"` ends the label, which must then be followed by `close`.
pub open spec fn quoted_spec(
    s: Seq<char>,
    k: int,
    escaped: bool,
    acc: Seq<char>,
    close: Seq<char>,
    open_at: int,
) -> Result<(Seq<char>, int), ErrV>
    decreases s.len() - k,
{
    if k >= s.len() || k < 0 {
        Err((open_at, "unterminated quoted label"@))
    } else {
        let c = s[k];
        if escaped {
            quoted_spec(s, k + 1, false, acc.push(c), close, open_at)
        } else if c == '\\' {
            quoted_spec(s, k + 1, true, acc, close, open_at)
        } else if c == '"' {
            let m = skip_spec(s, k + 1);
            if !starts(s, m, close) {
                Err((m, "expected \""@ + close + "\" after quoted label"@))
            } else {
                Ok((acc, m + close.len()))
            }
        } else {
            quoted_spec(s, k + 1, false, acc.push(c), close, open_at)
        }
    }
}

/// A label up to `close`: a quoted label, or the trimmed text before
/// `close`; `open_at` is where an unterminated label is reported.
pub open spec fn label_spec(s: Seq<char>, i: int, close: Seq<char>, open_at: int) -> Result<(Seq<char>, int), ErrV> {
    let j = skip_spec(s, i);
    if j < s.len() && s[j] == '"' {
        quoted_spec(s, j + 1, false, Seq::empty(), close, open_at)
    } else {
        let e = find_spec(s, j, close);
        if e >= s.len() {
            Err((open_at, "unterminated node label, expected \""@ + close + "\""@))
        } else {
            Ok((trim(s.subrange(j, e)), e + close.len()))
        }
    }
}

/// The shape opened at `i`, with its opening and closing brackets, in the
/// order the openings are tried.
pub open spec fn shape_spec(s: Seq<char>, i: int) -> Option<(Seq<char>, Seq<char>, NodeShape)> {
    if starts(s, i, "(["@) {
        Some(("(["@, "])"@, NodeShape::Stadium))
    } else if starts(s, i, "[["@) {
        Some(("[["@, "]]"@, NodeShape::Subroutine))
    } else if starts(s, i, "[("@) {
        Some(("[("@, ")]"@, NodeShape::Cylinder))
    } else if starts(s, i, "(("@) {
        Some(("(("@, "))"@, NodeShape::Circle))
    } else if starts(s, i, "{{"@) {
        Some(("{{"@, "}}"@, NodeShape::Hexagon))
    } else if starts(s, i, "["@) {
        Some(("["@, "]"@, NodeShape::Rect))
    } else if starts(s, i, "("@) {
        Some(("("@, ")"@, NodeShape::Round))
    } else if starts(s, i, "{"@) {
        Some(("{"@, "}"@, NodeShape::Diamond))
    } else if starts(s, i, ">"@) {
        Some((">"@, "]"@, NodeShape::Rect))
    } else {
        None
    }
}

/// Whether Unicode counts `c` as alphabetic or numeric.
pub open spec fn id_char(c: char) -> bool {
    crate::mermaid::parser::unicode_alphanumeric(c) || c == '_' || c == '.'
}

/// The end of the identifier starting at `k`.
pub open spec fn id_end(s: Seq<char>, k: int) -> int
    decreases s.len() - k,
{
    if k >= s.len() || k < 0 || !id_char(s[k]) {
        k
    } else {
        id_end(s, k + 1)
    }
}

/// A node: identifier, then an optional shape with its label.
pub open spec fn node_spec(s: Seq<char>, i: int) -> Result<(NodeV, int), ErrV> {
    let j = skip_spec(s, i);
    let e = id_end(s, j);
    if e == j {
        Err(
            (
                e,
                "expected a node identifier, found "@ + if e < s.len() {
                    crate::mermaid::parser::char_debug(s[e])
                } else {
                    "end of statement"@
                },
            ),
        )
    } else {
        let id = s.subrange(j, e);
        match shape_spec(s, e) {
            Some((o, c, shape)) => match label_spec(s, e + o.len(), c, e) {
                Ok((l, k)) => Ok(((id, Some(l), shape), k)),
                Err(x) => Err(x),
            },
            None => Ok(((id, None, NodeShape::Rect), e)),
        }
    }
}

/// The further members of a node group: `& node` as long as they come.
pub open spec fn group_rest(s: Seq<char>, i: int, acc: Seq<NodeV>) -> Result<(Seq<NodeV>, int), ErrV>
    decreases s.len() - i,
{
    let j = skip_spec(s, i);
    if j < s.len() && s[j] == '&' {
        match node_spec(s, skip_spec(s, j + 1)) {
            Err(x) => Err(x),
            Ok((n, k)) => if k <= i || k > s.len() {
                Ok((acc.push(n), k))
            } else {
                group_rest(s, k, acc.push(n))
            },
        }
    } else {
        Ok((acc, i))
    }
}

/// A node group: `a & b & ...`.
pub open spec fn group_spec(s: Seq<char>, i: int) -> Result<(Seq<NodeV>, int), ErrV> {
    match node_spec(s, i) {
        Err(x) => Err(x),
        Ok((n, k)) => group_rest(s, k, seq![n]),
    }
}

/// An inline connector label ` text <terminator>` read from `i`: whether a
/// head `>` follows, the trimmed non-empty text, and where it ends.
pub open spec fn inline_label_spec(s: Seq<char>, i: int, term: Seq<char>, tc: char) -> Option<(bool, Seq<char>, int)> {
    let e = find_spec(s, i, term);
    if e >= s.len() {
        None
    } else {
        let t = trim(s.subrange(i, e));
        if t.len() == 0 {
            None
        } else {
            let j = e + term.len();
            let j2 = j + run_spec(s, j, tc);
            let head = j2 < s.len() && s[j2] == '>';
            Some((head, t, if head { j2 + 1 } else { j2 }))
        }
    }
}

/// The message of a connector that cannot be read.
pub open spec fn connector_message() -> Seq<char> {
    "expected an edge connector (e.g. `-->`)"@
}

/// The line of a connector read from `p` (after an optional `<`): style,
/// right head, inline label, and where it ends.
pub open spec fn connector_line(s: Seq<char>, p: int, head_left: bool, start: int) -> Result<
    (EdgeStyle, bool, Option<Seq<char>>, int),
    ErrV,
> {
    let err = Err((start, connector_message()));
    let c = s[p];
    if c == '~' {
        let n = run_spec(s, p, '~');
        if n < 2 {
            err
        } else {
            Ok((EdgeStyle::Invisible, false, None, p + n))
        }
    } else if c == '=' {
        let n = run_spec(s, p, '=');
        let q = p + n;
        if n < 2 {
            err
        } else if q < s.len() && s[q] == '>' {
            Ok((EdgeStyle::Thick, true, None, q + 1))
        } else if n >= 3 || head_left {
            Ok((EdgeStyle::Thick, false, None, q))
        } else if q < s.len() && is_white(s[q]) {
            match inline_label_spec(s, q, "=="@, '=') {
                Some((h, t, k)) => Ok((EdgeStyle::Thick, h, Some(t), k)),
                None => err,
            }
        } else {
            err
        }
    } else if c == '-' && p + 1 < s.len() && s[p + 1] == '.' {
        let q = p + 1 + run_spec(s, p + 1, '.');
        if q < s.len() && is_white(s[q]) {
            match inline_label_spec(s, q, ".-"@, '-') {
                Some((h, t, k)) => Ok((EdgeStyle::Dotted, h, Some(t), k)),
                None => err,
            }
        } else if q < s.len() && s[q] == '-' {
            if q + 1 < s.len() && s[q + 1] == '>' {
                Ok((EdgeStyle::Dotted, true, None, q + 2))
            } else {
                Ok((EdgeStyle::Dotted, false, None, q + 1))
            }
        } else {
            err
        }
    } else if c == '-' {
        let n = run_spec(s, p, '-');
        let q = p + n;
        if n < 2 {
            err
        } else if q < s.len() && s[q] == '>' {
            Ok((EdgeStyle::Solid, true, None, q + 1))
        } else if n >= 3 || head_left {
            Ok((EdgeStyle::Solid, false, None, q))
        } else if q < s.len() && is_white(s[q]) {
            match inline_label_spec(s, q, "--"@, '-') {
                Some((h, t, k)) => Ok((EdgeStyle::Solid, h, Some(t), k)),
                None => err,
            }
        } else {
            err
        }
    } else {
        err
    }
}

/// The arrow of a connector line with its heads.
pub open spec fn arrow_of(style: EdgeStyle, head_left: bool, head_right: bool) -> ArrowKind {
    if style == EdgeStyle::Invisible {
        ArrowKind::NoArrow
    } else if head_left && head_right {
        ArrowKind::DoubleArrow
    } else if head_left || head_right {
        ArrowKind::Arrow
    } else {
        ArrowKind::NoArrow
    }
}

/// A connector read from `i`: an optional `<`, the line, and, when the line
/// has no inline label, an optional `|label|`.
pub open spec fn connector_spec(s: Seq<char>, i: int) -> Result<(ConnV, int), ErrV> {
    let head_left = i < s.len() && 0 <= i && s[i] == '<';
    let p = if head_left { i + 1 } else { i };
    if p >= s.len() || p < 0 {
        Err((i, connector_message()))
    } else {
        match connector_line(s, p, head_left, i) {
            Err(x) => Err(x),
            Ok((style, head_right, label, q)) => {
                let arrow = arrow_of(style, head_left, head_right);
                let reversed = head_left && !head_right;
                if label is None {
                    let m = skip_spec(s, q);
                    if m < s.len() && s[m] == '|' {
                        match label_spec(s, m + 1, "|"@, m) {
                            Ok((l, k)) => Ok(((style, arrow, Some(l), reversed), k)),
                            Err(x) => Err(x),
                        }
                    } else {
                        Ok(((style, arrow, None, reversed), q))
                    }
                } else {
                    Ok(((style, arrow, label, reversed), q))
                }
            },
        }
    }
}

/// A node of a diagram: identifier, label, shape.
pub type NodeD = (Seq<char>, Seq<char>, NodeShape);

/// An edge of a diagram: endpoints, label, style, arrow.
pub type EdgeD = (usize, usize, Option<Seq<char>>, EdgeStyle, ArrowKind);

/// A subgraph: title and the identifiers of its nodes.
pub type SubD = (Seq<char>, Seq<Seq<char>>);

/// A diagram without its orientation: nodes, edges, subgraphs, whether
/// something is not drawn faithfully, and the notes saying what.
pub type DiagV = (Seq<NodeD>, Seq<EdgeD>, Seq<SubD>, bool, Seq<Seq<char>>);

/// An optional string, viewed.
pub open spec fn opt_view(o: Option<String>) -> Option<Seq<char>> {
    match o {
        Some(v) => Some(v@),
        None => None,
    }
}

/// A diagram, viewed (without its orientation).
pub open spec fn diagram_v(d: Diagram) -> DiagV {
    (
        d.nodes@.map_values(|n: DiagramNode| (n.id@, n.label@, n.shape)),
        d.edges@.map_values(|e: DiagramEdge| (e.from, e.to, opt_view(e.label), e.style, e.arrow)),
        d.subgraphs@.map_values(|g: Subgraph| (g.title@, g.node_ids@.map_values(|x: String| x@))),
        d.has_unsupported_features,
        d.unsupported_notes@.map_values(|x: String| x@),
    )
}

/// The first node from `k` on with identifier `id`.
pub open spec fn find_id(nodes: Seq<NodeD>, id: Seq<char>, k: int) -> Option<int>
    decreases nodes.len() - k,
{
    if k >= nodes.len() || k < 0 {
        None
    } else if nodes[k].0 == id {
        Some(k)
    } else {
        find_id(nodes, id, k + 1)
    }
}

/// A written node entered into a diagram: a new identifier adds a node
/// (labelled with its identifier when no label was given); a known one is
/// relabelled and reshaped when a label is given again. Inside a subgraph,
/// the identifier is recorded there once.
pub open spec fn register_one(d: DiagV, n: NodeV, sub: Option<usize>) -> DiagV {
    let nodes = d.0;
    let nodes1 = match find_id(nodes, n.0, 0) {
        Some(ix) => match n.1 {
            Some(l) => nodes.update(ix, (nodes[ix].0, l, n.2)),
            None => nodes,
        },
        None => nodes.push(
            (
                n.0,
                match n.1 {
                    Some(l) => l,
                    None => n.0,
                },
                n.2,
            ),
        ),
    };
    let subs = d.2;
    let subs1 = match sub {
        Some(si) => if si < subs.len() && !subs[si as int].1.contains(n.0) {
            subs.update(si as int, (subs[si as int].0, subs[si as int].1.push(n.0)))
        } else {
            subs
        },
        None => subs,
    };
    (nodes1, d.1, subs1, d.3, d.4)
}

/// A node group entered into a diagram, member by member.
pub open spec fn register_spec(d: DiagV, g: Seq<NodeV>, sub: Option<usize>) -> DiagV
    decreases g.len(),
{
    if g.len() == 0 {
        d
    } else {
        register_one(register_spec(d, g.drop_last(), sub), g.last(), sub)
    }
}

/// The edge a connector makes from `p` to `q` (or back, when it points
/// left), when both are nodes of the diagram.
pub open spec fn edge_of(nodes: Seq<NodeD>, p: NodeV, q: NodeV, c: ConnV) -> Seq<EdgeD> {
    let (f, t) = if c.3 {
        (q.0, p.0)
    } else {
        (p.0, q.0)
    };
    match (find_id(nodes, f, 0), find_id(nodes, t, 0)) {
        (Some(a), Some(b)) => seq![(a as usize, b as usize, c.2, c.0, c.1)],
        _ => Seq::empty(),
    }
}

/// The edges from `p` to the first `k` nodes of `next`.
pub open spec fn edge_row(nodes: Seq<NodeD>, p: NodeV, next: Seq<NodeV>, c: ConnV, k: int) -> Seq<EdgeD>
    decreases k,
{
    if k <= 0 {
        Seq::empty()
    } else {
        edge_row(nodes, p, next, c, k - 1) + edge_of(nodes, p, next[k - 1], c)
    }
}

/// The edges from the first `k` nodes of `prev` to every node of `next`.
pub open spec fn edges_spec(nodes: Seq<NodeD>, prev: Seq<NodeV>, next: Seq<NodeV>, c: ConnV, k: int) -> Seq<EdgeD>
    decreases k,
{
    if k <= 0 {
        Seq::empty()
    } else {
        edges_spec(nodes, prev, next, c, k - 1) + edge_row(nodes, prev[k - 1], next, c, next.len() as int)
    }
}

/// A link `prev -c-> next` entered into a diagram: the nodes of `next`,
/// then an edge from every node of `prev` to every node of `next`.
pub open spec fn link_spec(d: DiagV, prev: Seq<NodeV>, next: Seq<NodeV>, c: ConnV, sub: Option<usize>) -> DiagV {
    let d1 = register_spec(d, next, sub);
    (d1.0, d1.1 + edges_spec(d1.0, prev, next, c, prev.len() as int), d1.2, d1.3, d1.4)
}

/// The rest of a flow statement from `i` on: connector and node group, as
/// long as they come.
pub open spec fn flow_rest(s: Seq<char>, i: int, d: DiagV, prev: Seq<NodeV>, sub: Option<usize>) -> Result<DiagV, ErrV>
    decreases s.len() - i,
{
    let j = skip_spec(s, i);
    if j >= s.len() || j < 0 {
        Ok(d)
    } else {
        match connector_spec(s, j) {
            Err(x) => Err(x),
            Ok((c, k)) => match group_spec(s, skip_spec(s, k)) {
                Err(x) => Err(x),
                Ok((next, k2)) => {
                    let d2 = link_spec(d, prev, next, c, sub);
                    if k2 <= j || k2 <= i || k2 > s.len() {
                        Ok(d2)
                    } else {
                        flow_rest(s, k2, d2, next, sub)
                    }
                },
            },
        }
    }
}

/// A flow statement: a node group, then connectors and node groups.
#[verifier::opaque]
pub open spec fn flow_spec(s: Seq<char>, d: DiagV, sub: Option<usize>) -> Result<DiagV, ErrV> {
    match group_spec(s, 0) {
        Err(x) => Err(x),
        Ok((g, k)) => flow_rest(s, k, register_spec(d, g, sub), g, sub),
    }
}

/// `id` identifies node `i`, and none before it.
pub proof fn lemma_find_id(nodes: Seq<NodeD>, id: Seq<char>, k: int, i: int)
    requires
        0 <= k <= i < nodes.len(),
        nodes[i].0 == id,
        forall|j: int| k <= j < i ==> (#[trigger] nodes[j]).0 != id,
    ensures
        find_id(nodes, id, k) == Some(i),
    decreases i - k,
{
    if k < i {
        lemma_find_id(nodes, id, k + 1, i);
    }
}

/// `id` identifies no node from `k` on.
pub proof fn lemma_find_id_none(nodes: Seq<NodeD>, id: Seq<char>, k: int)
    requires
        0 <= k,
        forall|j: int| k <= j < nodes.len() ==> (#[trigger] nodes[j]).0 != id,
    ensures
        find_id(nodes, id, k) is None,
    decreases nodes.len() - k,
{
    if k < nodes.len() {
        lemma_find_id_none(nodes, id, k + 1);
    }
}

/// A statement: its characters, 1-based line, 0-based column.
pub type StmtV = (Seq<char>, usize, usize);

/// The first position in `[lo, hi)` that is not white space, or `hi`.
pub open spec fn trim_from(cs: Seq<char>, lo: int, hi: int) -> int
    decreases hi - lo,
{
    if lo >= hi || lo < 0 || lo >= cs.len() || !is_white(cs[lo]) {
        lo
    } else {
        trim_from(cs, lo + 1, hi)
    }
}

/// The end of `[a, b)` without its trailing white space.
pub open spec fn trim_back(cs: Seq<char>, a: int, b: int) -> int
    decreases b - a,
{
    if b <= a || b - 1 >= cs.len() || b < 1 || !is_white(cs[b - 1]) {
        b
    } else {
        trim_back(cs, a, b - 1)
    }
}

/// The statement written in `[lo, hi)` of a line, unless it is blank.
pub open spec fn stmt_piece(cs: Seq<char>, lo: int, hi: int, line: usize) -> Seq<StmtV> {
    let a = trim_from(cs, lo, hi);
    let b = trim_back(cs, a, hi);
    if b == a {
        Seq::empty()
    } else {
        seq![(cs.subrange(a, b), line, a as usize)]
    }
}

/// The statements of a line from `i` on: `;` separates them outside quoted
/// text (where `\` escapes), and `%%` outside quoted text starts a comment.
pub open spec fn split_line(cs: Seq<char>, i: int, in_quote: bool, escaped: bool, start: int, line: usize) -> Seq<
    StmtV,
>
    decreases cs.len() - i,
{
    let n = cs.len() as int;
    if i >= n || i < 0 {
        if start < n {
            stmt_piece(cs, start, n, line)
        } else {
            Seq::empty()
        }
    } else {
        let c = cs[i];
        if in_quote {
            if escaped {
                split_line(cs, i + 1, true, false, start, line)
            } else if c == '\\' {
                split_line(cs, i + 1, true, true, start, line)
            } else if c == '"' {
                split_line(cs, i + 1, false, false, start, line)
            } else {
                split_line(cs, i + 1, true, false, start, line)
            }
        } else if c == '"' {
            split_line(cs, i + 1, true, false, start, line)
        } else if c == '%' && i + 1 < n && cs[i + 1] == '%' {
            if start < n {
                stmt_piece(cs, start, i, line)
            } else {
                Seq::empty()
            }
        } else if c == ';' {
            stmt_piece(cs, start, i, line) + split_line(cs, i + 1, false, false, i + 1, line)
        } else {
            split_line(cs, i + 1, false, false, start, line)
        }
    }
}

/// The statements of line `li` (0-based).
pub open spec fn line_stmts(cs: Seq<char>, li: int) -> Seq<StmtV> {
    if cs.len() + 2 > usize::MAX || li >= usize::MAX {
        Seq::empty()
    } else {
        split_line(cs, 0, false, false, 0, (li + 1) as usize)
    }
}

/// The statements of the first `k` lines.
pub open spec fn stmts_upto(ls: Seq<Seq<char>>, k: int) -> Seq<StmtV>
    decreases k,
{
    if k <= 0 {
        Seq::empty()
    } else {
        stmts_upto(ls, k - 1) + line_stmts(ls[k - 1], k - 1)
    }
}

/// The statements of a source.
pub open spec fn split_spec(src: Seq<char>) -> Seq<StmtV> {
    stmts_upto(lines_of(src), lines_of(src).len() as int)
}

/// The end of the word starting at `k`.
pub open spec fn word_end(s: Seq<char>, k: int) -> int
    decreases s.len() - k,
{
    if k >= s.len() || k < 0 || is_white(s[k]) {
        k
    } else {
        word_end(s, k + 1)
    }
}

/// The first white-space-separated word of a statement.
pub open spec fn first_word_spec(s: Seq<char>) -> Seq<char> {
    let a = skip_spec(s, 0);
    s.subrange(a, word_end(s, a))
}

/// Statement keywords that are accepted and ignored, in any ASCII case.
pub open spec fn ignored_keyword(w: Seq<char>) -> bool {
    let l = ascii_lower(w);
    l == "click"@ || l == "style"@ || l == "classdef"@ || l == "linkstyle"@ || l == "class"@ || l
        == "direction"@ || l == "acctitle"@
}

/// The characters of a quoted text from `k` on, `\` escaping the next one.
pub open spec fn unescape(t: Seq<char>, k: int, escaped: bool, acc: Seq<char>) -> Seq<char>
    decreases t.len() - k,
{
    if k >= t.len() || k < 0 {
        acc
    } else if escaped {
        unescape(t, k + 1, false, acc.push(t[k]))
    } else if t[k] == '\\' {
        unescape(t, k + 1, true, acc)
    } else {
        unescape(t, k + 1, false, acc.push(t[k]))
    }
}

/// A title, trimmed, without its quotes when it is quoted.
pub open spec fn unquote_spec(s: Seq<char>) -> Seq<char> {
    let t = trim(s);
    if t.len() >= 2 && t[0] == '"' && t[t.len() - 1] == '"' {
        unescape(t.subrange(0, t.len() - 1), 1, false, Seq::empty())
    } else {
        t
    }
}

/// Past the leading `subgraph` keywords from `i` on.
pub open spec fn past_keyword(text: Seq<char>, i: int) -> int
    decreases text.len() - i,
{
    if starts(text, i, "subgraph"@) && "subgraph"@.len() > 0 {
        past_keyword(text, i + "subgraph"@.len())
    } else {
        i
    }
}

/// The first `[` of `rest`, or its length.
pub open spec fn first_bracket(rest: Seq<char>, k: int) -> int
    decreases rest.len() - k,
{
    if k >= rest.len() || k < 0 || rest[k] == '[' {
        k
    } else {
        first_bracket(rest, k + 1)
    }
}

/// The title of a `subgraph` statement: the bracketed title when there is
/// one, else the rest of the statement, unquoted.
pub open spec fn title_spec(text: Seq<char>) -> Seq<char> {
    let i = past_keyword(text, 0);
    let rest = trim(text.subrange(i, text.len() as int));
    let open = first_bracket(rest, 0);
    if open < rest.len() {
        let inner0 = rest.subrange(open + 1, rest.len() as int);
        let inner = if inner0.len() > 0 && inner0.last() == ']' {
            inner0.drop_last()
        } else {
            inner0
        };
        unquote_spec(trim(inner))
    } else {
        unquote_spec(rest)
    }
}

/// `notes` with `n` added unless it is there.
pub open spec fn note_added(notes: Seq<Seq<char>>, n: Seq<char>) -> Seq<Seq<char>> {
    if notes.contains(n) {
        notes
    } else {
        notes.push(n)
    }
}

/// The note recorded for subgraphs.
pub open spec fn subgraph_note() -> Seq<char> {
    "subgraph grouping is not drawn in the terminal renderer"@
}

/// The statements from `k` on entered into a diagram: the header, subgraph
/// openings and ends, ignored keywords, and flow statements; an error is
/// reported with its source line and column.
pub open spec fn stmts_spec(st: Seq<StmtV>, k: int, d: DiagV, stack: Seq<usize>, header_seen: bool) -> Result<
    DiagV,
    (int, int, Seq<char>),
>
    decreases st.len() - k,
{
    if k >= st.len() || k < 0 {
        Ok(d)
    } else {
        let (cs, line, col) = st[k];
        let w = first_word_spec(cs);
        if !header_seen && (w == "graph"@ || w == "flowchart"@) {
            stmts_spec(st, k + 1, d, stack, true)
        } else if w == "subgraph"@ {
            let d1 = (d.0, d.1, d.2.push((title_spec(cs), Seq::empty())), true, note_added(d.4, subgraph_note()));
            stmts_spec(st, k + 1, d1, stack.push(d.2.len() as usize), true)
        } else if w == "end"@ && cs == "end"@ {
            stmts_spec(st, k + 1, d, if stack.len() > 0 { stack.drop_last() } else { stack }, true)
        } else if ignored_keyword(w) {
            stmts_spec(st, k + 1, d, stack, true)
        } else {
            match flow_spec(cs, d, if stack.len() > 0 { Some(stack.last()) } else { None }) {
                Err((at, m)) => Err((line as int, col + at + 1, m)),
                Ok(d1) => stmts_spec(st, k + 1, d1, stack, true),
            }
        }
    }
}

/// The empty diagram.
pub open spec fn empty_diagram() -> DiagV {
    (Seq::empty(), Seq::empty(), Seq::empty(), false, Seq::empty())
}

/// A flowchart source parsed: its statements entered into the empty diagram.
pub open spec fn parse_spec(src: Seq<char>) -> Result<DiagV, (int, int, Seq<char>)> {
    stmts_spec(split_spec(src), 0, empty_diagram(), Seq::empty(), false)
}

/// The name of a detected diagram kind.
pub open spec fn kind_label(v: (int, Orientation, Seq<char>)) -> Seq<char> {
    if v.0 == 0 {
        "flowchart"@
    } else if v.0 == 1 {
        "sequence diagram"@
    } else if v.0 == 2 {
        "class diagram"@
    } else if v.0 == 3 {
        "state diagram"@
    } else if v.0 == 4 {
        "entity relationship diagram"@
    } else if v.0 == 5 {
        "gantt chart"@
    } else if v.0 == 6 {
        "pie chart"@
    } else if v.0 == 7 {
        "user journey"@
    } else {
        v.2
    }
}

/// The message refusing a block that is not a flowchart.
pub open spec fn not_flowchart_message(v: (int, Orientation, Seq<char>)) -> Seq<char> {
    "native renderer supports flowcharts only, found "@ + if kind_label(v).len() == 0 {
        "an empty diagram"@
    } else {
        kind_label(v)
    }
}

} // verus!
