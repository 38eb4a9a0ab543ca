//! Parser for the supported Mermaid flowchart subset: `graph`/`flowchart`
//! headers, node shapes, quoted labels with escapes, the solid, dotted,
//! thick and invisible connectors with their heads and labels, chains,
//! `&` groups, `subgraph ... end`, `%%` comments and directives, and
//! statements that are accepted and ignored. `;` and newlines separate
//! statements.
//!
//! Parsing is total: [`parse`] returns a `Result` and never panics.
use vstd::prelude::*;
use crate::mermaid::ast::{
    ArrowKind, Diagram, DiagramEdge, DiagramNode, EdgeStyle, NodeShape, Subgraph, diagram_wf,
};
use crate::mermaid::detect::{diagram_kind, DiagramKind, kind_spec, kind_view};
use crate::mermaid::grammar::{
    ErrV, NodeV, label_spec, quoted_spec, skip_spec, starts, find_spec, shape_spec, id_char, id_end,
    node_spec, group_spec, group_rest, ConnV, run_spec, inline_label_spec, connector_message,
    connector_spec, connector_line, arrow_of, diagram_v, find_id, lemma_find_id, lemma_find_id_none,
    register_one, register_spec, edge_of, edge_row, edges_spec, link_spec, flow_rest, flow_spec, DiagV,
    EdgeD, SubD, NodeD, opt_view, StmtV, trim_from, trim_back, stmt_piece, split_line, line_stmts, stmts_upto,
    split_spec, word_end, first_word_spec, ignored_keyword, unescape, unquote_spec, past_keyword,
    first_bracket, title_spec, note_added, subgraph_note, stmts_spec, empty_diagram, parse_spec,
    kind_label, not_flowchart_message,
};
use crate::util::text::{
    chars_of, decimal, is_whitespace, is_white, lines, lines_of, push_char, push_chars, push_decimal,
    push_str, string_of, to_owned, trim_chars, chars_eq, str_eq,
};

verus! {

/// A parse failure with a 1-based source position.
#[derive(Debug, Clone, PartialEq, Eq)]
pub struct MermaidParseError {
    /// 1-based line number within the diagram source.
    pub line: usize,
    /// 1-based column (in characters) within that line.
    pub column: usize,
    /// Human-readable description.
    pub message: String,
}

impl MermaidParseError {
    /// An error at `(line, column)`.
    pub fn new(line: usize, column: usize, message: String) -> (e: Self)
        ensures
            e.line == line,
            e.column == column,
            e.message@ == message@,
    {
        MermaidParseError { line, column, message }
    }

    /// `mermaid: line L, column C: message`.
    pub fn describe(&self) -> (s: String)
        ensures
            s@ == "mermaid: line "@ + decimal(self.line as nat) + ", column "@ + decimal(
                self.column as nat,
            ) + ": "@ + self.message@,
    {
        let mut s = to_owned("mermaid: line ");
        push_decimal(&mut s, self.line as u64);
        push_str(&mut s, ", column ");
        push_decimal(&mut s, self.column as u64);
        push_str(&mut s, ": ");
        push_str(&mut s, self.message.as_str());
        s
    }
}

/// One logical statement with its source position.
pub struct Stmt {
    /// The statement's characters, without surrounding white space.
    pub chars: Vec<char>,
    /// 1-based source line.
    pub line: usize,
    /// 0-based character column of `chars[0]` within the source line.
    pub col: usize,
}

/// A statement's position is a valid 1-based line and its columns fit.
pub open spec fn stmt_ok(st: Stmt) -> bool {
    st.line >= 1 && st.col + st.chars@.len() + 2 <= usize::MAX
}

/// A statement, viewed.
pub open spec fn stmt_v(st: Stmt) -> StmtV {
    (st.chars@, st.line, st.col)
}

/// Statements, viewed.
pub open spec fn stmts_v(st: Seq<Stmt>) -> Seq<StmtV> {
    st.map_values(|x: Stmt| stmt_v(x))
}

fn push_stmt(out: &mut Vec<Stmt>, chars: &Vec<char>, lo: usize, hi: usize, line: usize)
    requires
        lo <= hi <= chars@.len(),
        line >= 1,
        chars@.len() + 2 <= usize::MAX,
        forall|k: int| 0 <= k < old(out)@.len() ==> stmt_ok(#[trigger] old(out)@[k]),
    ensures
        forall|k: int| 0 <= k < final(out)@.len() ==> stmt_ok(#[trigger] final(out)@[k]),
        stmts_v(final(out)@) == stmts_v(old(out)@) + stmt_piece(chars@, lo as int, hi as int, line),
{
    let mut a = lo;
    while a < hi && is_whitespace(chars[a])
        invariant
            lo <= a <= hi <= chars@.len(),
            trim_from(chars@, lo as int, hi as int) == trim_from(chars@, a as int, hi as int),
        decreases hi - a,
    {
        a += 1;
    }
    let mut b = hi;
    while b > a && is_whitespace(chars[b - 1])
        invariant
            a <= b <= hi <= chars@.len(),
            trim_back(chars@, a as int, hi as int) == trim_back(chars@, a as int, b as int),
        decreases b,
    {
        b -= 1;
    }
    if b == a {
        return;
    }
    let mut v: Vec<char> = Vec::new();
    let mut k = a;
    while k < b
        invariant
            a <= k <= b <= chars@.len(),
            v@ == chars@.subrange(a as int, k as int),
        decreases b - k,
    {
        v.push(chars[k]);
        k += 1;
        assert(v@ =~= chars@.subrange(a as int, k as int));
    }
    let ghost before = out@;
    out.push(Stmt { chars: v, line, col: a });
    assert(stmts_v(out@) =~= stmts_v(before).push((v@, line, a)));
}

/// Splits the source into logical statements, stripping `%%` comments
/// (outside quotes) and blank statements (see [`split_spec`]).
fn split_statements(source: &str) -> (out: Vec<Stmt>)
    ensures
        forall|k: int| 0 <= k < out@.len() ==> stmt_ok(#[trigger] out@[k]),
        stmts_v(out@) == split_spec(source@),
{
    let mut out: Vec<Stmt> = Vec::new();
    let ls = lines(source);
    let ghost lv = lines_of(source@);
    assert(ls@.len() == lv.len());
    let mut li: usize = 0;
    while li < ls.len()
        invariant
            li <= ls@.len(),
            lv == ls@.map_values(|l: Vec<char>| l@),
            forall|k: int| 0 <= k < out@.len() ==> stmt_ok(#[trigger] out@[k]),
            stmts_v(out@) == stmts_upto(lv, li as int),
        decreases ls@.len() - li,
    {
        let chars = &ls[li];
        assert(lv[li as int] == chars@);
        let n = chars.len();
        if n > usize::MAX - 2 || li == usize::MAX {
            li += 1;
            assert(stmts_upto(lv, li as int) =~= stmts_upto(lv, li - 1));
            continue;
        }
        let line = li + 1;
        let ghost base = stmts_v(out@);
        let mut in_quote = false;
        let mut escaped = false;
        let mut start: usize = 0;
        let mut i: usize = 0;
        while i < n
            invariant_except_break
                base + split_line(chars@, 0, false, false, 0, line) == stmts_v(out@) + split_line(
                    chars@,
                    i as int,
                    in_quote,
                    escaped,
                    start as int,
                    line,
                ),
            invariant
                n == chars@.len(),
                n + 2 <= usize::MAX,
                li < usize::MAX,
                line == li + 1,
                start <= i <= n,
                !in_quote ==> !escaped,
                forall|k: int| 0 <= k < out@.len() ==> stmt_ok(#[trigger] out@[k]),
            ensures
                start <= i <= n,
                base + split_line(chars@, 0, false, false, 0, line) == stmts_v(out@) + if start < n {
                    stmt_piece(chars@, start as int, i as int, line)
                } else {
                    Seq::<StmtV>::empty()
                },
            decreases n - i,
        {
            let c = chars[i];
            if in_quote {
                if escaped {
                    escaped = false;
                } else if c == '\\' {
                    escaped = true;
                } else if c == '"' {
                    in_quote = false;
                }
                i += 1;
            } else if c == '"' {
                in_quote = true;
                i += 1;
            } else if c == '%' && i + 1 < n && chars[i + 1] == '%' {
                break;
            } else {
                if c == ';' {
                    let ghost before = stmts_v(out@);
                    push_stmt(&mut out, chars, start, i, line);
                    proof {
                        assert(before + stmt_piece(chars@, start as int, i as int, line) + split_line(chars@, i + 1, false, false, i + 1, line)
                            =~= before + (stmt_piece(chars@, start as int, i as int, line) + split_line(chars@, i + 1, false, false, i + 1, line)));
                    }
                    start = i + 1;
                }
                i += 1;
            }
        }
        let ghost before = stmts_v(out@);
        if start < n {
            push_stmt(&mut out, chars, start, i, line);
        }
        proof {
            assert(stmts_v(out@) == base + line_stmts(chars@, li as int));
            assert(stmts_upto(lv, li + 1) == stmts_upto(lv, li as int) + line_stmts(lv[li as int], li as int));
        }
        li += 1;
    }
    proof {
        assert(ls@.len() == lv.len());
    }
    out
}

/// Whether `c` is alphabetic or numeric in Unicode's sense.
pub uninterp spec fn unicode_alphanumeric(c: char) -> bool;

/// `char::is_alphanumeric`.
///
/// Trusted: the result is std's Unicode `Alphabetic`-or-`Numeric` test, a
/// function of the character; for ASCII, as std documents, it holds exactly
/// of letters and digits.
#[verifier::external_body]
fn is_alphanumeric(c: char) -> (b: bool)
    ensures
        b == unicode_alphanumeric(c),
        (c as u32) < 0x80 ==> (b <==> (('a' <= c && c <= 'z') || ('A' <= c && c <= 'Z') || ('0' <= c && c <= '9'))),
{
    c.is_alphanumeric()
}

/// The `Debug` form of a character (`'x'`, with escapes where needed).
pub uninterp spec fn char_debug(c: char) -> Seq<char>;

/// `format!("{c:?}")`.
///
/// Trusted: the result is std's `Debug` rendering of the character, a
/// function of it alone.
#[verifier::external_body]
fn debug_char(c: char) -> (s: String)
    ensures
        s@ == char_debug(c),
{
    format!("{c:?}")
}

fn is_id_char(c: char) -> (b: bool)
    ensures
        b == (unicode_alphanumeric(c) || c == '_' || c == '.'),
        b == id_char(c),
{
    is_alphanumeric(c) || c == '_' || c == '.'
}

fn skip_ws(s: &Vec<char>, i: &mut usize)
    requires
        *old(i) <= s@.len(),
    ensures
        *old(i) <= *final(i) <= s@.len(),
        forall|k: int| *old(i) <= k < *final(i) ==> is_white(#[trigger] s@[k]),
        *final(i) < s@.len() ==> !is_white(s@[*final(i) as int]),
        *final(i) == skip_spec(s@, *old(i) as int),
{
    while *i < s.len() && is_whitespace(s[*i])
        invariant
            *old(i) <= *i <= s@.len(),
            forall|k: int| *old(i) <= k < *i ==> is_white(#[trigger] s@[k]),
            skip_spec(s@, *old(i) as int) == skip_spec(s@, *i as int),
        decreases s@.len() - *i,
    {
        *i = *i + 1;
    }
}

/// Whether the characters of `pat` occur in `s` at `i`.
fn starts_at(s: &Vec<char>, i: usize, pat: &str) -> (b: bool)
    ensures
        b == (i + pat@.len() <= s@.len() && s@.subrange(i as int, i + pat@.len()) == pat@),
        b == starts(s@, i as int, pat@),
{
    let p = chars_of(pat);
    if i > s.len() || p.len() > s.len() - i {
        return false;
    }
    let mut k: usize = 0;
    while k < p.len()
        invariant
            k <= p@.len(),
            p@ == pat@,
            i + p@.len() <= s@.len(),
            s@.len() <= usize::MAX,
            forall|j: int| 0 <= j < k ==> s@[i + j] == p@[j],
        decreases p@.len() - k,
    {
        if s[i + k] != p[k] {
            assert(s@.subrange(i as int, i + p@.len())[k as int] != p@[k as int]);
            return false;
        }
        k += 1;
    }
    assert(s@.subrange(i as int, i + p@.len()) =~= p@);
    true
}

fn pos(stmt: &Stmt, i: usize) -> (p: (usize, usize))
    requires
        stmt_ok(*stmt),
        i <= stmt.chars@.len(),
    ensures
        p.0 == stmt.line,
        p.1 == stmt.col + i + 1,
        p.0 >= 1 && p.1 >= 1,
{
    (stmt.line, stmt.col + i + 1)
}

/// A node as written: identifier, label if one was given, shape.
pub struct NodeSpec {
    /// Identifier.
    pub id: String,
    /// Label, when the node was written with a shape.
    pub label: Option<String>,
    /// Shape.
    pub shape: NodeShape,
}

/// An optional string, viewed.
pub open spec fn opt_v(o: Option<String>) -> Option<Seq<char>> {
    match o {
        Some(v) => Some(v@),
        None => None,
    }
}

/// A node as written, viewed.
pub open spec fn node_v(n: NodeSpec) -> NodeV {
    (n.id@, opt_v(n.label), n.shape)
}

/// A node group, viewed.
pub open spec fn group_v(g: Seq<NodeSpec>) -> Seq<NodeV> {
    g.map_values(|n: NodeSpec| node_v(n))
}

/// An edge connector.
pub struct Connector {
    /// Line style.
    pub style: EdgeStyle,
    /// Arrow decoration.
    pub arrow: ArrowKind,
    /// Label, when one was given.
    pub label: Option<String>,
    /// `true` for `<--`-style heads: the edge points at the left operand.
    pub reversed: bool,
}

/// An error carrying 1-based positions.
pub open spec fn err_ok<T>(r: Result<T, MermaidParseError>) -> bool {
    r matches Err(e) ==> e.line >= 1 && e.column >= 1
}

/// The error `x` of a statement, at its position in the source.
pub open spec fn err_is(e: MermaidParseError, stmt: Stmt, x: ErrV) -> bool {
    e.line == stmt.line && e.column == stmt.col + x.0 + 1 && e.message@ == x.1
}

/// `r` is the outcome `spec` of a step of a statement that ends at `end`.
pub open spec fn step_is<T, V>(
    r: Result<T, MermaidParseError>,
    spec: Result<(V, int), ErrV>,
    stmt: Stmt,
    end: usize,
    view: spec_fn(T) -> V,
) -> bool {
    match spec {
        Ok((v, k)) => r matches Ok(t) && view(t) == v && end == k,
        Err(x) => r matches Err(e) && err_is(e, stmt, x),
    }
}

fn err_at(stmt: &Stmt, at: usize, message: String) -> (e: MermaidParseError)
    requires
        stmt_ok(*stmt),
        at <= stmt.chars@.len(),
    ensures
        e.line >= 1 && e.column >= 1,
        err_is(e, *stmt, (at as int, message@)),
{
    let (line, col) = pos(stmt, at);
    MermaidParseError::new(line, col, message)
}

/// Reads a label up to `close`, honouring `"quoted, labels"` with `\"`
/// escapes; unquoted labels are trimmed.
fn parse_label(stmt: &Stmt, i: &mut usize, close: &str, open_at: usize) -> (r: Result<String, MermaidParseError>)
    requires
        stmt_ok(*stmt),
        *old(i) <= stmt.chars@.len(),
        open_at <= stmt.chars@.len(),
        close@.len() > 0,
    ensures
        *final(i) <= stmt.chars@.len(),
        err_ok(r),
        step_is(r, label_spec(stmt.chars@, *old(i) as int, close@, open_at as int), *stmt, *final(i), |l: String| l@),
{
    let s = &stmt.chars;
    skip_ws(s, i);
    if *i < s.len() && s[*i] == '"' {
        *i = *i + 1;
        let mut out = String::new();
        let mut escaped = false;
        let ghost q0 = *i;
        while *i < s.len()
            invariant
                *i <= s@.len(),
                s == &stmt.chars,
                stmt_ok(*stmt),
                close@.len() > 0,
                open_at <= stmt.chars@.len(),
                label_spec(s@, *old(i) as int, close@, open_at as int) == quoted_spec(s@, q0 as int, false, Seq::empty(), close@, open_at as int),
                quoted_spec(s@, q0 as int, false, Seq::empty(), close@, open_at as int) == quoted_spec(
                    s@,
                    *i as int,
                    escaped,
                    out@,
                    close@,
                    open_at as int,
                ),
            decreases s@.len() - *i,
        {
            let c = s[*i];
            *i = *i + 1;
            if escaped {
                push_char(&mut out, c);
                escaped = false;
            } else if c == '\\' {
                escaped = true;
            } else if c == '"' {
                skip_ws(s, i);
                if !starts_at(s, *i, close) {
                    let mut m = to_owned("expected \"");
                    push_str(&mut m, close);
                    push_str(&mut m, "\" after quoted label");
                    return Err(err_at(stmt, *i, m));
                }
                let cl = chars_of(close).len();
                *i = *i + cl;
                return Ok(out);
            } else {
                push_char(&mut out, c);
            }
        }
        return Err(err_at(stmt, open_at, to_owned("unterminated quoted label")));
    }
    let start = *i;
    while *i < s.len() && !starts_at(s, *i, close)
        invariant
            start <= *i <= s@.len(),
            find_spec(s@, start as int, close@) == find_spec(s@, *i as int, close@),
        decreases s@.len() - *i,
    {
        *i = *i + 1;
    }
    if *i >= s.len() {
        let mut m = to_owned("unterminated node label, expected \"");
        push_str(&mut m, close);
        push_char(&mut m, '"');
        proof {
            reveal_strlit("\"");
            assert(m@ =~= "unterminated node label, expected \""@ + close@ + "\""@);
        }
        return Err(err_at(stmt, open_at, m));
    }
    let mut label: Vec<char> = Vec::new();
    let mut k = start;
    while k < *i
        invariant
            start <= k <= *i,
            *i < s@.len(),
            label@ == s@.subrange(start as int, k as int),
        decreases *i - k,
    {
        label.push(s[k]);
        k += 1;
        assert(label@ =~= s@.subrange(start as int, k as int));
    }
    let cl = chars_of(close).len();
    *i = *i + cl;
    let t = trim_chars(label.as_slice());
    Ok(string_of(t.as_slice()))
}

/// The shape introduced by the opening bracket at `i`, with the brackets'
/// closing counterpart, in the order the openings are tried.
fn shape_at(s: &Vec<char>, i: usize) -> (out: Option<(&'static str, &'static str, NodeShape)>)
    ensures
        out matches Some((o, c, _)) ==> o@.len() > 0 && c@.len() > 0 && i + o@.len() <= s@.len(),
        match shape_spec(s@, i as int) {
            Some((o, c, sh)) => out matches Some((o2, c2, sh2)) && o2@ == o && c2@ == c && sh2 == sh,
            None => out is None,
        },
{
    proof {
        reveal_strlit("([");
        reveal_strlit("[[");
        reveal_strlit("[(");
        reveal_strlit("((");
        reveal_strlit("{{");
        reveal_strlit("[");
        reveal_strlit("(");
        reveal_strlit("{");
        reveal_strlit(">");
        reveal_strlit("])");
        reveal_strlit("]]");
        reveal_strlit(")]");
        reveal_strlit("))");
        reveal_strlit("}}");
        reveal_strlit("]");
        reveal_strlit(")");
        reveal_strlit("}");
    }
    if starts_at(s, i, "([") {
        Some(("([", "])", NodeShape::Stadium))
    } else if starts_at(s, i, "[[") {
        Some(("[[", "]]", NodeShape::Subroutine))
    } else if starts_at(s, i, "[(") {
        Some(("[(", ")]", NodeShape::Cylinder))
    } else if starts_at(s, i, "((") {
        Some(("((", "))", NodeShape::Circle))
    } else if starts_at(s, i, "{{") {
        Some(("{{", "}}", NodeShape::Hexagon))
    } else if starts_at(s, i, "[") {
        Some(("[", "]", NodeShape::Rect))
    } else if starts_at(s, i, "(") {
        Some(("(", ")", NodeShape::Round))
    } else if starts_at(s, i, "{") {
        Some(("{", "}", NodeShape::Diamond))
    } else if starts_at(s, i, ">") {
        Some((">", "]", NodeShape::Rect))
    } else {
        None
    }
}

fn parse_node(stmt: &Stmt, i: &mut usize) -> (r: Result<NodeSpec, MermaidParseError>)
    requires
        stmt_ok(*stmt),
        *old(i) <= stmt.chars@.len(),
    ensures
        *final(i) <= stmt.chars@.len(),
        err_ok(r),
        step_is(r, node_spec(stmt.chars@, *old(i) as int), *stmt, *final(i), |n: NodeSpec| node_v(n)),
{
    let s = &stmt.chars;
    skip_ws(s, i);
    let start = *i;
    while *i < s.len() && is_id_char(s[*i])
        invariant
            start <= *i <= s@.len(),
            id_end(s@, start as int) == id_end(s@, *i as int),
        decreases s@.len() - *i,
    {
        *i = *i + 1;
    }
    if *i == start {
        let mut m = to_owned("expected a node identifier, found ");
        if *i < s.len() {
            let d = debug_char(s[*i]);
            push_str(&mut m, d.as_str());
        } else {
            push_str(&mut m, "end of statement");
        }
        return Err(err_at(stmt, *i, m));
    }
    let mut idv: Vec<char> = Vec::new();
    let mut k = start;
    while k < *i
        invariant
            start <= k <= *i <= s@.len(),
            idv@ == s@.subrange(start as int, k as int),
        decreases *i - k,
    {
        idv.push(s[k]);
        k += 1;
        assert(idv@ =~= s@.subrange(start as int, k as int));
    }
    let id = string_of(idv.as_slice());
    match shape_at(s, *i) {
        Some((open, close, shape)) => {
            let open_at = *i;
            let ol = chars_of(open).len();
            *i = *i + ol;
            match parse_label(stmt, i, close, open_at) {
                Ok(label) => Ok(NodeSpec { id, label: Some(label), shape }),
                Err(e) => Err(e),
            }
        },
        None => Ok(NodeSpec { id, label: None, shape: NodeShape::Rect }),
    }
}

fn parse_node_group(stmt: &Stmt, i: &mut usize) -> (r: Result<Vec<NodeSpec>, MermaidParseError>)
    requires
        stmt_ok(*stmt),
        *old(i) <= stmt.chars@.len(),
    ensures
        *final(i) <= stmt.chars@.len(),
        err_ok(r),
        step_is(r, group_spec(stmt.chars@, *old(i) as int), *stmt, *final(i), |g: Vec<NodeSpec>| group_v(g@)),
{
    let s = &stmt.chars;
    let first = match parse_node(stmt, i) {
        Ok(n) => n,
        Err(e) => return Err(e),
    };
    let mut group = vec![first];
    assert(group_v(group@) =~= seq![node_v(first)]);
    loop
        invariant_except_break
            group_spec(s@, *old(i) as int) == group_rest(s@, *i as int, group_v(group@)),
        invariant
            *i <= s@.len(),
            s == &stmt.chars,
            stmt_ok(*stmt),
        ensures
            *i <= s@.len(),
            group_spec(s@, *old(i) as int) == Ok::<(Seq<NodeV>, int), ErrV>((group_v(group@), *i as int)),
        decreases s@.len() - *i,
    {
        let save = *i;
        skip_ws(s, i);
        if *i < s.len() && s[*i] == '&' {
            *i = *i + 1;
            skip_ws(s, i);
            let ghost acc = group_v(group@);
            match parse_node(stmt, i) {
                Ok(n) => {
                    group.push(n);
                    assert(group_v(group@) =~= acc.push(node_v(n)));
                },
                Err(e) => return Err(e),
            }
            if *i <= save {
                break;
            }
        } else {
            *i = save;
            break;
        }
    }
    Ok(group)
}

fn run_len(s: &Vec<char>, i: usize, c: char) -> (n: usize)
    requires
        i <= s@.len(),
    ensures
        i + n <= s@.len(),
        forall|k: int| i <= k < i + n ==> s@[k] == c,
        i + n < s@.len() ==> s@[i + n] != c,
        n == run_spec(s@, i as int, c),
{
    let mut n: usize = 0;
    let len = s.len();
    while i + n < len && s[i + n] == c
        invariant
            len == s@.len(),
            i + n <= s@.len(),
            forall|k: int| i <= k < i + n ==> s@[k] == c,
            run_spec(s@, i as int, c) == n + run_spec(s@, i + n, c),
        decreases s@.len() - (i + n),
    {
        n += 1;
    }
    n
}

/// The next occurrence of `pat` at or after `from`.
fn find_from(s: &Vec<char>, from: usize, pat: &str) -> (out: Option<usize>)
    requires
        from <= s@.len(),
    ensures
        out matches Some(k) ==> from <= k < s@.len() && k + pat@.len() <= s@.len(),
        match out {
            Some(k) => k == find_spec(s@, from as int, pat@),
            None => find_spec(s@, from as int, pat@) >= s@.len(),
        },
{
    let mut k = from;
    while k < s.len()
        invariant
            from <= k <= s@.len(),
            find_spec(s@, from as int, pat@) == find_spec(s@, k as int, pat@),
        decreases s@.len() - k,
    {
        if starts_at(s, k, pat) {
            return Some(k);
        }
        k += 1;
    }
    None
}

/// Parses ` text <terminator>[>]` after the connector's first part: the
/// head marker and the trimmed, non-empty label, or `None` when no
/// terminator follows.
fn parse_inline_label(s: &Vec<char>, i: &mut usize, terminator: &str, term_char: char) -> (out: Option<(bool, String)>)
    requires
        *old(i) <= s@.len(),
        terminator@.len() > 0,
    ensures
        *final(i) <= s@.len(),
        match inline_label_spec(s@, *old(i) as int, terminator@, term_char) {
            Some((h, t, k)) => out matches Some((h2, t2)) && h2 == h && t2@ == t && *final(i) == k,
            None => out is None && *final(i) == *old(i),
        },
{
    let text_start = *i;
    let len = s.len();
    let end = match find_from(s, text_start, terminator) {
        Some(e) => e,
        None => return None,
    };
    let mut label: Vec<char> = Vec::new();
    let mut k = text_start;
    while k < end
        invariant
            text_start <= k <= end,
            end < s@.len(),
            label@ == s@.subrange(text_start as int, k as int),
        decreases end - k,
    {
        label.push(s[k]);
        k += 1;
        assert(label@ =~= s@.subrange(text_start as int, k as int));
    }
    let t = trim_chars(label.as_slice());
    if t.len() == 0 {
        return None;
    }
    let tl = chars_of(terminator).len();
    let mut j = end + tl;
    let r = run_len(s, j, term_char);
    j = j + r;
    let head_right = j < s.len() && s[j] == '>';
    if head_right {
        j = j + 1;
    }
    *i = j;
    Some((head_right, string_of(t.as_slice())))
}

fn connector_error(stmt: &Stmt, at: usize) -> (e: MermaidParseError)
    requires
        stmt_ok(*stmt),
        at <= stmt.chars@.len(),
    ensures
        e.line >= 1 && e.column >= 1,
        err_is(e, *stmt, (at as int, connector_message())),
{
    err_at(stmt, at, to_owned("expected an edge connector (e.g. `-->`)"))
}

fn ws_at(s: &Vec<char>, i: usize) -> (b: bool)
    ensures
        b == (i < s@.len() && is_white(s@[i as int])),
{
    i < s.len() && is_whitespace(s[i])
}

/// A connector, viewed.
pub open spec fn conn_v(c: Connector) -> ConnV {
    (c.style, c.arrow, opt_v(c.label), c.reversed)
}

fn parse_connector(stmt: &Stmt, i: &mut usize) -> (r: Result<Connector, MermaidParseError>)
    requires
        stmt_ok(*stmt),
        *old(i) <= stmt.chars@.len(),
    ensures
        *final(i) <= stmt.chars@.len(),
        err_ok(r),
        step_is(r, connector_spec(stmt.chars@, *old(i) as int), *stmt, *final(i), |c: Connector| conn_v(c)),
{
    let s = &stmt.chars;
    let start = *i;
    let mut head_left = false;
    if *i < s.len() && s[*i] == '<' {
        head_left = true;
        *i = *i + 1;
    }
    if *i >= s.len() {
        return Err(connector_error(stmt, start));
    }
    let c = s[*i];
    let mut label: Option<String> = None;
    let style: EdgeStyle;
    let head_right: bool;
    if c == '~' {
        let n = run_len(s, *i, '~');
        if n < 2 {
            return Err(connector_error(stmt, start));
        }
        *i = *i + n;
        style = EdgeStyle::Invisible;
        head_right = false;
    } else if c == '=' {
        let n = run_len(s, *i, '=');
        if n < 2 {
            return Err(connector_error(stmt, start));
        }
        *i = *i + n;
        if *i < s.len() && s[*i] == '>' {
            *i = *i + 1;
            style = EdgeStyle::Thick;
            head_right = true;
        } else if n >= 3 || head_left {
            style = EdgeStyle::Thick;
            head_right = false;
        } else if ws_at(s, *i) {
            proof {
                reveal_strlit("==");
            }
            match parse_inline_label(s, i, "==", '=') {
                Some((h, text)) => {
                    label = Some(text);
                    style = EdgeStyle::Thick;
                    head_right = h;
                },
                None => return Err(connector_error(stmt, start)),
            }
        } else {
            return Err(connector_error(stmt, start));
        }
    } else if c == '-' && *i + 1 < s.len() && s[*i + 1] == '.' {
        *i = *i + 1;
        let dots = run_len(s, *i, '.');
        *i = *i + dots;
        if ws_at(s, *i) {
            proof {
                reveal_strlit(".-");
            }
            match parse_inline_label(s, i, ".-", '-') {
                Some((h, text)) => {
                    label = Some(text);
                    style = EdgeStyle::Dotted;
                    head_right = h;
                },
                None => return Err(connector_error(stmt, start)),
            }
        } else if *i < s.len() && s[*i] == '-' {
            *i = *i + 1;
            if *i < s.len() && s[*i] == '>' {
                *i = *i + 1;
                style = EdgeStyle::Dotted;
                head_right = true;
            } else {
                style = EdgeStyle::Dotted;
                head_right = false;
            }
        } else {
            return Err(connector_error(stmt, start));
        }
    } else if c == '-' {
        let n = run_len(s, *i, '-');
        if n < 2 {
            return Err(connector_error(stmt, start));
        }
        *i = *i + n;
        if *i < s.len() && s[*i] == '>' {
            *i = *i + 1;
            style = EdgeStyle::Solid;
            head_right = true;
        } else if n >= 3 || head_left {
            style = EdgeStyle::Solid;
            head_right = false;
        } else if ws_at(s, *i) {
            proof {
                reveal_strlit("--");
            }
            match parse_inline_label(s, i, "--", '-') {
                Some((h, text)) => {
                    label = Some(text);
                    style = EdgeStyle::Solid;
                    head_right = h;
                },
                None => return Err(connector_error(stmt, start)),
            }
        } else {
            return Err(connector_error(stmt, start));
        }
    } else {
        return Err(connector_error(stmt, start));
    }
    let arrow = match style {
        EdgeStyle::Invisible => ArrowKind::NoArrow,
        _ => if head_left && head_right {
            ArrowKind::DoubleArrow
        } else if head_left || head_right {
            ArrowKind::Arrow
        } else {
            ArrowKind::NoArrow
        },
    };
    let reversed = head_left && !head_right;
    if label.is_none() {
        let save = *i;
        skip_ws(s, i);
        if *i < s.len() && s[*i] == '|' {
            let open_at = *i;
            *i = *i + 1;
            proof {
                reveal_strlit("|");
            }
            match parse_label(stmt, i, "|", open_at) {
                Ok(l) => {
                    label = Some(l);
                },
                Err(e) => return Err(e),
            }
        } else {
            *i = save;
        }
    }
    Ok(Connector { style, arrow, label, reversed })
}

fn clone_string(s: &String) -> (out: String)
    ensures
        out@ == s@,
{
    to_owned(s.as_str())
}

fn clone_opt(s: &Option<String>) -> (out: Option<String>)
    ensures
        match s {
            Some(v) => out matches Some(w) && w@ == v@,
            None => out is None,
        },
{
    match s {
        Some(v) => Some(clone_string(v)),
        None => None,
    }
}

/// What [`Diagram::node_index`] returns is the first node with the id.
proof fn lemma_node_index(d: Diagram, id: Seq<char>, out: Option<usize>)
    requires
        match out {
            Some(i) => i < d.nodes@.len() && d.nodes@[i as int].id@ == id && forall|j: int|
                0 <= j < i ==> (#[trigger] d.nodes@[j]).id@ != id,
            None => forall|j: int| 0 <= j < d.nodes@.len() ==> (#[trigger] d.nodes@[j]).id@ != id,
        },
    ensures
        find_id(diagram_v(d).0, id, 0) == match out {
            Some(i) => Some(i as int),
            None => None::<int>,
        },
{
    let nv = diagram_v(d).0;
    match out {
        Some(i) => {
            assert forall|j: int| 0 <= j < i implies (#[trigger] nv[j]).0 != id by {
                assert(nv[j].0 == d.nodes@[j].id@);
            }
            lemma_find_id(nv, id, 0, i as int);
        },
        None => {
            assert forall|j: int| 0 <= j < nv.len() implies (#[trigger] nv[j]).0 != id by {
                assert(nv[j].0 == d.nodes@[j].id@);
            }
            lemma_find_id_none(nv, id, 0);
        },
    }
}

/// Adds the nodes of a group that are new, relabels the ones given a label
/// again, and records them in the open subgraph (see [`register_spec`]).
fn register_group(diagram: &mut Diagram, group: &Vec<NodeSpec>, subgraph: Option<usize>)
    requires
        diagram_wf(*old(diagram)),
    ensures
        diagram_wf(*final(diagram)),
        final(diagram).nodes@.len() >= old(diagram).nodes@.len(),
        final(diagram).edges@ == old(diagram).edges@,
        final(diagram).orientation == old(diagram).orientation,
        final(diagram).subgraphs@.len() == old(diagram).subgraphs@.len(),
        diagram_v(*final(diagram)) == register_spec(diagram_v(*old(diagram)), group_v(group@), subgraph),
{
    let ghost d0 = diagram_v(*diagram);
    let mut g: usize = 0;
    while g < group.len()
        invariant
            g <= group@.len(),
            diagram_wf(*diagram),
            diagram.nodes@.len() >= old(diagram).nodes@.len(),
            diagram.edges@ == old(diagram).edges@,
            diagram.orientation == old(diagram).orientation,
            diagram.subgraphs@.len() == old(diagram).subgraphs@.len(),
            d0 == diagram_v(*old(diagram)),
            diagram_v(*diagram) == register_spec(d0, group_v(group@).take(g as int), subgraph),
        decreases group@.len() - g,
    {
        let spec = &group[g];
        let ghost dcur = diagram_v(*diagram);
        proof {
            assert(group_v(group@).take(g + 1).drop_last() =~= group_v(group@).take(g as int));
            assert(group_v(group@).take(g + 1).last() == node_v(*spec));
        }
        let found = diagram.node_index(spec.id.as_str());
        proof {
            lemma_node_index(*diagram, spec.id@, found);
        }
        match found {
            Some(idx) => {
                if let Some(label) = &spec.label {
                    let ghost before = diagram.nodes@;
                    let node = DiagramNode { id: clone_string(&diagram.nodes[idx].id), label: clone_string(label), shape: spec.shape };
                    diagram.nodes.set(idx, node);
                    proof {
                        assert forall|a: int, b: int|
                            0 <= a < b < diagram.nodes@.len() implies (#[trigger] diagram.nodes@[a]).id@ != (#[trigger] diagram.nodes@[b]).id@ by {
                            assert(before[a].id@ != before[b].id@);
                        }
                        assert(diagram_v(*diagram).0 =~= dcur.0.update(idx as int, (dcur.0[idx as int].0, label@, spec.shape)));
                    }
                }
            },
            None => {
                let ghost before = diagram.nodes@;
                let label = match &spec.label {
                    Some(l) => clone_string(l),
                    None => clone_string(&spec.id),
                };
                diagram.nodes.push(DiagramNode { id: clone_string(&spec.id), label, shape: spec.shape });
                proof {
                    assert forall|a: int, b: int|
                        0 <= a < b < diagram.nodes@.len() implies (#[trigger] diagram.nodes@[a]).id@ != (#[trigger] diagram.nodes@[b]).id@ by {
                        if b < before.len() {
                            assert(before[a].id@ != before[b].id@);
                        } else {
                            assert(before[a].id@ != spec.id@);
                        }
                    }
                    assert(diagram_v(*diagram).0 =~= dcur.0.push(
                        (
                            spec.id@,
                            match opt_v(spec.label) {
                                Some(l) => l,
                                None => spec.id@,
                            },
                            spec.shape,
                        ),
                    ));
                }
            },
        }
        let ghost dmid = diagram_v(*diagram);
        assert(dmid.2 == dcur.2);
        if let Some(si) = subgraph {
            if si < diagram.subgraphs.len() {
                let mut present = false;
                let mut k: usize = 0;
                while k < diagram.subgraphs[si].node_ids.len()
                    invariant
                        si < diagram.subgraphs@.len(),
                        k <= diagram.subgraphs@[si as int].node_ids@.len(),
                        present == exists|q: int|
                            0 <= q < k && (#[trigger] diagram.subgraphs@[si as int].node_ids@[q])@ == spec.id@,
                    decreases diagram.subgraphs@[si as int].node_ids@.len() - k,
                {
                    if str_eq(diagram.subgraphs[si].node_ids[k].as_str(), spec.id.as_str()) {
                        present = true;
                    }
                    k += 1;
                }
                let ghost ids_v = diagram.subgraphs@[si as int].node_ids@.map_values(|x: String| x@);
                proof {
                    if present {
                        let q = choose|q: int|
                            0 <= q < k && (#[trigger] diagram.subgraphs@[si as int].node_ids@[q])@ == spec.id@;
                        assert(ids_v[q] == spec.id@);
                    } else {
                        assert forall|q: int| 0 <= q < ids_v.len() implies ids_v[q] != spec.id@ by {
                            assert(ids_v[q] == diagram.subgraphs@[si as int].node_ids@[q]@);
                        }
                    }
                    assert(present == ids_v.contains(spec.id@));
                    assert(dmid.2[si as int].1 == ids_v);
                }
                if !present {
                    let mut ids: Vec<String> = Vec::new();
                    let mut k: usize = 0;
                    while k < diagram.subgraphs[si].node_ids.len()
                        invariant
                            si < diagram.subgraphs@.len(),
                            k <= diagram.subgraphs@[si as int].node_ids@.len(),
                            ids_v == diagram.subgraphs@[si as int].node_ids@.map_values(|x: String| x@),
                            ids@.map_values(|x: String| x@) == ids_v.take(k as int),
                        decreases diagram.subgraphs@[si as int].node_ids@.len() - k,
                    {
                        let ghost before_ids = ids@;
                        let x = clone_string(&diagram.subgraphs[si].node_ids[k]);
                        assert(x@ == ids_v[k as int]);
                        ids.push(x);
                        assert(ids@.map_values(|x: String| x@) =~= before_ids.map_values(|x: String| x@).push(x@));
                        k += 1;
                        assert(ids@.map_values(|x: String| x@) =~= ids_v.take(k as int));
                    }
                    assert(ids@.map_values(|x: String| x@) == ids_v) by {
                        assert(ids_v.take(ids_v.len() as int) =~= ids_v);
                    }
                    let ghost before_ids = ids@;
                    let idc = clone_string(&spec.id);
                    ids.push(idc);
                    assert(ids@.map_values(|x: String| x@) =~= ids_v.push(spec.id@)) by {
                        assert(ids@.map_values(|x: String| x@) =~= before_ids.map_values(|x: String| x@).push(idc@));
                    }
                    let title = clone_string(&diagram.subgraphs[si].title);
                    let ghost before_subs = diagram.subgraphs@;
                    diagram.subgraphs.set(si, Subgraph { title, node_ids: ids });
                    proof {
                        assert(diagram_v(*diagram).2 =~= dmid.2.update(si as int, (dmid.2[si as int].0, ids_v.push(spec.id@))));
                    }
                }
            }
        }
        proof {
            assert(diagram_v(*diagram) == register_one(dcur, node_v(*spec), subgraph));
        }
        g += 1;
    }
    assert(group_v(group@).take(group@.len() as int) == group_v(group@));
}

/// `r` is the outcome `spec` of entering a statement into a diagram.
pub open spec fn entered_is(r: Result<(), MermaidParseError>, spec: Result<DiagV, ErrV>, stmt: Stmt, d: Diagram) -> bool {
    match spec {
        Ok(dv) => r is Ok && diagram_v(d) == dv,
        Err(x) => r matches Err(e) && err_is(e, stmt, x),
    }
}

fn parse_flow_statement(stmt: &Stmt, diagram: &mut Diagram, subgraph: Option<usize>) -> (r: Result<(), MermaidParseError>)
    requires
        stmt_ok(*stmt),
        diagram_wf(*old(diagram)),
    ensures
        diagram_wf(*final(diagram)),
        final(diagram).orientation == old(diagram).orientation,
        final(diagram).subgraphs@.len() == old(diagram).subgraphs@.len(),
        err_ok(r),
        entered_is(r, flow_spec(stmt.chars@, diagram_v(*old(diagram)), subgraph), *stmt, *final(diagram)),
{
    reveal(flow_spec);
    let s = &stmt.chars;
    let ghost d0 = diagram_v(*diagram);
    let mut i: usize = 0;
    let mut prev = match parse_node_group(stmt, &mut i) {
        Ok(g) => g,
        Err(e) => return Err(e),
    };
    register_group(diagram, &prev, subgraph);
    loop
        invariant_except_break
            flow_spec(s@, d0, subgraph) == flow_rest(s@, i as int, diagram_v(*diagram), group_v(prev@), subgraph),
        invariant
            i <= s@.len(),
            s == &stmt.chars,
            stmt_ok(*stmt),
            diagram_wf(*diagram),
            diagram.orientation == old(diagram).orientation,
            diagram.subgraphs@.len() == old(diagram).subgraphs@.len(),
            d0 == diagram_v(*old(diagram)),
        ensures
            flow_spec(s@, d0, subgraph) == Ok::<DiagV, ErrV>(diagram_v(*diagram)),
        decreases s@.len() - i,
    {
        let ghost i0 = i;
        skip_ws(s, &mut i);
        if i >= s.len() {
            break;
        }
        let before = i;
        let ghost dv0 = diagram_v(*diagram);
        let ghost prev_v = group_v(prev@);
        let conn = match parse_connector(stmt, &mut i) {
            Ok(c) => c,
            Err(e) => return Err(e),
        };
        skip_ws(s, &mut i);
        let next = match parse_node_group(stmt, &mut i) {
            Ok(g) => g,
            Err(e) => return Err(e),
        };
        register_group(diagram, &next, subgraph);
        let ghost next_v = group_v(next@);
        let ghost cv = conn_v(conn);
        let ghost d1 = diagram_v(*diagram);
        let ghost e1 = d1.1;
        assert(d1 == register_spec(dv0, next_v, subgraph));
        let mut a: usize = 0;
        while a < prev.len()
            invariant
                a <= prev@.len(),
                diagram_wf(*diagram),
                diagram.orientation == old(diagram).orientation,
                diagram.subgraphs@.len() == old(diagram).subgraphs@.len(),
                prev_v == group_v(prev@),
                next_v == group_v(next@),
                cv == conn_v(conn),
                diagram_v(*diagram).0 == d1.0,
                diagram_v(*diagram).2 == d1.2,
                diagram_v(*diagram).3 == d1.3,
                diagram_v(*diagram).4 == d1.4,
                diagram_v(*diagram).1 == e1 + edges_spec(d1.0, prev_v, next_v, cv, a as int),
            decreases prev@.len() - a,
        {
            let mut b: usize = 0;
            while b < next.len()
                invariant
                    b <= next@.len(),
                    a < prev@.len(),
                    diagram_wf(*diagram),
                    diagram.orientation == old(diagram).orientation,
                    diagram.subgraphs@.len() == old(diagram).subgraphs@.len(),
                    prev_v == group_v(prev@),
                    next_v == group_v(next@),
                    cv == conn_v(conn),
                    diagram_v(*diagram).0 == d1.0,
                    diagram_v(*diagram).2 == d1.2,
                    diagram_v(*diagram).3 == d1.3,
                    diagram_v(*diagram).4 == d1.4,
                    diagram_v(*diagram).1 == e1 + edges_spec(d1.0, prev_v, next_v, cv, a as int) + edge_row(
                        d1.0,
                        prev_v[a as int],
                        next_v,
                        cv,
                        b as int,
                    ),
                decreases next@.len() - b,
            {
                let (from_id, to_id) = if conn.reversed {
                    (next[b].id.as_str(), prev[a].id.as_str())
                } else {
                    (prev[a].id.as_str(), next[b].id.as_str())
                };
                let f = diagram.node_index(from_id);
                let t = diagram.node_index(to_id);
                proof {
                    lemma_node_index(*diagram, from_id@, f);
                    lemma_node_index(*diagram, to_id@, t);
                    assert(prev_v[a as int] == node_v(prev@[a as int]));
                    assert(next_v[b as int] == node_v(next@[b as int]));
                }
                let ghost edges_before = diagram_v(*diagram).1;
                if let (Some(from), Some(to)) = (f, t) {
                    let ghost before_edges = diagram.edges@;
                    let lab = clone_opt(&conn.label);
                    diagram.edges.push(DiagramEdge { from, to, label: lab, style: conn.style, arrow: conn.arrow });
                    proof {
                        assert forall|e: int| 0 <= e < diagram.edges@.len() implies (#[trigger] diagram.edges@[e]).from < diagram.nodes@.len()
                            && diagram.edges@[e].to < diagram.nodes@.len() by {
                            if e < before_edges.len() {
                                assert(diagram.edges@[e] == before_edges[e]);
                            }
                        }
                        assert(opt_view(lab) == opt_v(conn.label));
                        assert(diagram_v(*diagram).1 =~= edges_before + edge_of(d1.0, prev_v[a as int], next_v[b as int], cv));
                    }
                } else {
                    assert(edge_of(d1.0, prev_v[a as int], next_v[b as int], cv) =~= Seq::<EdgeD>::empty());
                }
                proof {
                    assert(e1 + edges_spec(d1.0, prev_v, next_v, cv, a as int) + edge_row(d1.0, prev_v[a as int], next_v, cv, b + 1)
                        =~= e1 + edges_spec(d1.0, prev_v, next_v, cv, a as int) + edge_row(d1.0, prev_v[a as int], next_v, cv, b as int)
                        + edge_of(d1.0, prev_v[a as int], next_v[b as int], cv));
                }
                b += 1;
            }
            proof {
                assert(e1 + edges_spec(d1.0, prev_v, next_v, cv, a + 1) =~= e1 + edges_spec(d1.0, prev_v, next_v, cv, a as int) + edge_row(
                    d1.0,
                    prev_v[a as int],
                    next_v,
                    cv,
                    next_v.len() as int,
                ));
            }
            a += 1;
        }
        proof {
            assert(diagram_v(*diagram) == link_spec(dv0, prev_v, next_v, cv, subgraph)) by {
                assert(diagram_v(*diagram).1 =~= d1.1 + edges_spec(d1.0, prev_v, next_v, cv, prev_v.len() as int));
            }
        }
        prev = next;
        if i <= before {
            break;
        }
    }
    Ok(())
}

/// The title of a `subgraph` statement: `subgraph one`, `subgraph one
/// [Title]`, `subgraph "A title"` (see [`title_spec`]).
fn parse_subgraph_title(text: &Vec<char>) -> (out: String)
    ensures
        out@ == title_spec(text@),
{
    proof {
        reveal_strlit("subgraph");
    }
    let mut i: usize = 0;
    let len = text.len();
    while starts_at(text, i, "subgraph")
        invariant
            i <= text@.len(),
            len == text@.len(),
            "subgraph"@.len() == 8,
            past_keyword(text@, 0) == past_keyword(text@, i as int),
        decreases text@.len() - i,
    {
        i += 8;
    }
    let mut rest0: Vec<char> = Vec::new();
    let mut k = i;
    while k < text.len()
        invariant
            i <= k <= text@.len(),
            rest0@ == text@.subrange(i as int, k as int),
        decreases text@.len() - k,
    {
        rest0.push(text[k]);
        k += 1;
        assert(rest0@ =~= text@.subrange(i as int, k as int));
    }
    let rest = trim_chars(rest0.as_slice());
    let mut open = rest.len();
    let mut j: usize = 0;
    while j < rest.len()
        invariant
            j <= rest@.len(),
            open <= rest@.len(),
            open == rest@.len() ==> first_bracket(rest@, 0) == first_bracket(rest@, j as int),
            open < rest@.len() ==> open == first_bracket(rest@, 0),
        decreases rest@.len() - j,
    {
        if rest[j] == '[' && open == rest.len() {
            open = j;
        }
        j += 1;
    }
    if open < rest.len() {
        let mut inner: Vec<char> = Vec::new();
        let mut k = open + 1;
        while k < rest.len()
            invariant
                open + 1 <= k <= rest@.len(),
                inner@ == rest@.subrange(open + 1, k as int),
            decreases rest@.len() - k,
        {
            inner.push(rest[k]);
            k += 1;
            assert(inner@ =~= rest@.subrange(open + 1, k as int));
        }
        if inner.len() > 0 && inner[inner.len() - 1] == ']' {
            inner.pop();
        }
        let t = trim_chars(inner.as_slice());
        return unquote(&t);
    }
    unquote(&rest)
}

/// A title, trimmed, without its quotes when it is quoted.
fn unquote(s: &Vec<char>) -> (out: String)
    ensures
        out@ == unquote_spec(s@),
{
    let t = trim_chars(s.as_slice());
    if t.len() >= 2 && t[0] == '"' && t[t.len() - 1] == '"' {
        let ghost tt = t@.subrange(0, t@.len() - 1);
        let mut out = String::new();
        let mut escaped = false;
        let mut k: usize = 1;
        while k < t.len() - 1
            invariant
                1 <= k <= t@.len() - 1,
                t@.len() >= 2,
                tt == t@.subrange(0, t@.len() - 1),
                unescape(tt, 1, false, Seq::empty()) == unescape(tt, k as int, escaped, out@),
            decreases t@.len() - 1 - k,
        {
            let c = t[k];
            assert(tt[k as int] == c);
            if escaped {
                push_char(&mut out, c);
                escaped = false;
            } else if c == '\\' {
                escaped = true;
            } else {
                push_char(&mut out, c);
            }
            k += 1;
        }
        out
    } else {
        string_of(t.as_slice())
    }
}

/// The first white-space-separated word of a statement.
fn first_word(s: &Vec<char>) -> (w: Vec<char>)
    ensures
        w@ == first_word_spec(s@),
{
    let mut i: usize = 0;
    while i < s.len() && is_whitespace(s[i])
        invariant
            i <= s@.len(),
            skip_spec(s@, 0) == skip_spec(s@, i as int),
        decreases s@.len() - i,
    {
        i += 1;
    }
    let a = i;
    let mut w: Vec<char> = Vec::new();
    while i < s.len() && !is_whitespace(s[i])
        invariant
            a <= i <= s@.len(),
            word_end(s@, a as int) == word_end(s@, i as int),
            w@ == s@.subrange(a as int, i as int),
        decreases s@.len() - i,
    {
        w.push(s[i]);
        i += 1;
        assert(w@ =~= s@.subrange(a as int, i as int));
    }
    w
}

fn lower_vec(s: &Vec<char>) -> (out: String)
    ensures
        out@ == crate::util::text::ascii_lower(s@),
{
    let st = string_of(s.as_slice());
    crate::util::text::to_ascii_lower(st.as_str())
}

/// Statement keywords that are accepted and ignored (compared without
/// regard to ASCII case).
fn is_ignored_keyword(word: &Vec<char>) -> (b: bool)
    ensures
        b == ignored_keyword(word@),
{
    let l = lower_vec(word);
    let l = l.as_str();
    str_eq(l, "click") || str_eq(l, "style") || str_eq(l, "classdef") || str_eq(l, "linkstyle")
        || str_eq(l, "class") || str_eq(l, "direction") || str_eq(l, "acctitle")
}

fn is_word(w: &Vec<char>, lit: &str) -> (b: bool)
    ensures
        b == (w@ == lit@),
{
    let l = chars_of(lit);
    chars_eq(w.as_slice(), l.as_slice())
}

proof fn lemma_kind_label(k: DiagramKind)
    ensures
        crate::mermaid::detect::kind_name(k) == kind_label(kind_view(k)),
{
}

/// Parses a Mermaid flowchart block into a [`Diagram`].
///
/// A block that is not a flowchart is refused at line 1, column 1. Otherwise
/// the statements are entered into the diagram in order (see
/// [`parse_spec`]); a statement that cannot be understood, or a label or
/// shape left unclosed, is refused at its position. Every edge of a parsed
/// diagram joins two of its nodes, and node identifiers are distinct.
pub fn parse(source: &str) -> (r: Result<Diagram, MermaidParseError>)
    ensures
        kind_spec(source@).0 != 0 ==> (r matches Err(e) && e.line == 1 && e.column == 1
            && e.message@ == not_flowchart_message(kind_spec(source@))),
        kind_spec(source@).0 == 0 ==> match parse_spec(source@) {
            Ok(dv) => r matches Ok(d) && d.orientation == kind_spec(source@).1 && diagram_v(d) == dv
                && diagram_wf(d),
            Err((l, c, m)) => r matches Err(e) && e.line == l && e.column == c && e.message@ == m,
        },
        r matches Ok(d) ==> kind_spec(source@).0 == 0 && d.orientation == kind_spec(source@).1
            && diagram_wf(d),
        err_ok(r),
{
    let kind = diagram_kind(source);
    let orientation = match kind {
        DiagramKind::Flowchart { orientation } => orientation,
        _ => {
            let mut m = to_owned("native renderer supports flowcharts only, found ");
            let name = kind.name();
            proof {
                lemma_kind_label(kind);
            }
            if name.is_empty() {
                push_str(&mut m, "an empty diagram");
            } else {
                push_str(&mut m, name);
            }
            return Err(MermaidParseError::new(1, 1, m));
        },
    };
    let statements = split_statements(source);
    let ghost sv = stmts_v(statements@);
    let mut diagram = Diagram {
        orientation,
        nodes: Vec::new(),
        edges: Vec::new(),
        subgraphs: Vec::new(),
        has_unsupported_features: false,
        unsupported_notes: Vec::new(),
    };
    let mut subgraph_stack: Vec<usize> = Vec::new();
    let mut header_seen = false;
    proof {
        assert(diagram_v(diagram) =~= empty_diagram()) by {
            assert(diagram_v(diagram).0 =~= Seq::<NodeD>::empty());
            assert(diagram_v(diagram).1 =~= Seq::<EdgeD>::empty());
            assert(diagram_v(diagram).2 =~= Seq::<SubD>::empty());
            assert(diagram_v(diagram).4 =~= Seq::<Seq<char>>::empty());
        }
        assert(subgraph_stack@ =~= Seq::<usize>::empty());
    }
    let mut si: usize = 0;
    while si < statements.len()
        invariant
            si <= statements@.len(),
            forall|k: int| 0 <= k < statements@.len() ==> stmt_ok(#[trigger] statements@[k]),
            diagram_wf(diagram),
            diagram.orientation == orientation,
            kind_spec(source@).0 == 0,
            orientation == kind_spec(source@).1,
            sv == stmts_v(statements@),
            sv == split_spec(source@),
            stmts_spec(sv, 0, empty_diagram(), Seq::empty(), false) == stmts_spec(sv, si as int, diagram_v(diagram), subgraph_stack@, header_seen),
        decreases statements@.len() - si,
    {
        let stmt = &statements[si];
        assert(sv[si as int] == stmt_v(*stmt));
        let word = first_word(&stmt.chars);
        if !header_seen {
            header_seen = true;
            if is_word(&word, "graph") || is_word(&word, "flowchart") {
                si += 1;
                continue;
            }
        }
        if is_word(&word, "subgraph") {
            let ghost d0 = diagram_v(diagram);
            let title = parse_subgraph_title(&stmt.chars);
            let ids: Vec<String> = Vec::new();
            assert(ids@.map_values(|x: String| x@) =~= Seq::<Seq<char>>::empty());
            let ghost subs0 = diagram.subgraphs@;
            let ghost sub_v = (title@, ids@.map_values(|x: String| x@));
            diagram.subgraphs.push(Subgraph { title, node_ids: ids });
            assert(diagram.subgraphs@.map_values(|g: Subgraph| (g.title@, g.node_ids@.map_values(|x: String| x@)))
                =~= subs0.map_values(|g: Subgraph| (g.title@, g.node_ids@.map_values(|x: String| x@))).push(sub_v));
            let idx = diagram.subgraphs.len() - 1;
            subgraph_stack.push(idx);
            let ghost notes0 = diagram.unsupported_notes@;
            diagram.note_unsupported("subgraph grouping is not drawn in the terminal renderer");
            proof {
                let nv = notes0.map_values(|x: String| x@);
                if exists|j: int| 0 <= j < notes0.len() && (#[trigger] notes0[j])@ == subgraph_note() {
                    let j = choose|j: int| 0 <= j < notes0.len() && (#[trigger] notes0[j])@ == subgraph_note();
                    assert(nv[j] == subgraph_note());
                } else {
                    assert forall|j: int| 0 <= j < nv.len() implies nv[j] != subgraph_note() by {
                        assert(nv[j] == notes0[j]@);
                    }
                }
                assert(diagram_v(diagram).4 == note_added(d0.4, subgraph_note()));
                assert(diagram_v(diagram).2 =~= d0.2.push((title_spec(stmt.chars@), Seq::<Seq<char>>::empty())));
                assert(diagram_v(diagram) == (d0.0, d0.1, d0.2.push((title_spec(stmt.chars@), Seq::<Seq<char>>::empty())), true, note_added(d0.4, subgraph_note())));
            }
            si += 1;
            continue;
        }
        if is_word(&word, "end") && is_word(&stmt.chars, "end") {
            let ghost st0 = subgraph_stack@;
            subgraph_stack.pop();
            proof {
                if st0.len() > 0 {
                    assert(subgraph_stack@ == st0.drop_last());
                }
            }
            si += 1;
            continue;
        }
        if is_ignored_keyword(&word) {
            si += 1;
            continue;
        }
        let current = if subgraph_stack.len() > 0 { Some(subgraph_stack[subgraph_stack.len() - 1]) } else { None };
        match parse_flow_statement(stmt, &mut diagram, current) {
            Ok(()) => {},
            Err(e) => return Err(e),
        }
        si += 1;
    }
    Ok(diagram)
}

} // verus!
