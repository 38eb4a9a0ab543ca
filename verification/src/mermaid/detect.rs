//! Diagram-kind detection: only flowcharts are natively renderable; every
//! other kind is reported so that the backend selection can apply its
//! fallback matrix.
use vstd::prelude::*;
use crate::mermaid::ast::{Orientation, orientation_of};
use crate::util::text::{
    is_white, is_whitespace, lines, lines_of, trim, trim_chars, starts_with, string_of,
    chars_eq, to_owned,
};

verus! {

/// The Mermaid diagram type of a source block.
#[derive(Debug, Clone, PartialEq, Eq)]
pub enum DiagramKind {
    /// `graph`/`flowchart` with the given orientation (defaults to `TD`).
    Flowchart {
        /// Flow direction from the header line.
        orientation: Orientation,
    },
    /// `sequenceDiagram`.
    Sequence,
    /// `classDiagram` / `classDiagram-v2`.
    Class,
    /// `stateDiagram` / `stateDiagram-v2`.
    State,
    /// `erDiagram`.
    Er,
    /// `gantt`.
    Gantt,
    /// `pie`.
    Pie,
    /// `journey`.
    Journey,
    /// Anything else (including an empty block); carries the first keyword.
    Unknown(String),
}

/// A kind as plain values: a tag (0 flowchart, 1 sequence, 2 class, 3 state,
/// 4 entity relationship, 5 gantt, 6 pie, 7 journey, 8 unknown), the
/// flowchart orientation (`TD` for the others) and the unknown keyword
/// (empty for the others).
pub open spec fn kind_view(k: DiagramKind) -> (int, Orientation, Seq<char>) {
    match k {
        DiagramKind::Flowchart { orientation } => (0, orientation, Seq::empty()),
        DiagramKind::Sequence => (1, Orientation::Td, Seq::empty()),
        DiagramKind::Class => (2, Orientation::Td, Seq::empty()),
        DiagramKind::State => (3, Orientation::Td, Seq::empty()),
        DiagramKind::Er => (4, Orientation::Td, Seq::empty()),
        DiagramKind::Gantt => (5, Orientation::Td, Seq::empty()),
        DiagramKind::Pie => (6, Orientation::Td, Seq::empty()),
        DiagramKind::Journey => (7, Orientation::Td, Seq::empty()),
        DiagramKind::Unknown(w) => (8, Orientation::Td, w@),
    }
}

/// The display name of a kind (its keyword for an unknown one).
pub open spec fn kind_name(k: DiagramKind) -> Seq<char> {
    match k {
        DiagramKind::Flowchart { .. } => "flowchart"@,
        DiagramKind::Sequence => "sequence diagram"@,
        DiagramKind::Class => "class diagram"@,
        DiagramKind::State => "state diagram"@,
        DiagramKind::Er => "entity relationship diagram"@,
        DiagramKind::Gantt => "gantt chart"@,
        DiagramKind::Pie => "pie chart"@,
        DiagramKind::Journey => "user journey"@,
        DiagramKind::Unknown(w) => w@,
    }
}

impl DiagramKind {
    /// `true` when the native terminal renderer can attempt this diagram:
    /// exactly the flowcharts.
    pub fn natively_supported(&self) -> (b: bool)
        ensures
            b == (self is Flowchart),
    {
        matches!(self, DiagramKind::Flowchart { .. })
    }

    /// Short human-readable name, used in fallback warnings.
    pub fn name(&self) -> (s: &str)
        ensures
            s@ == kind_name(*self),
    {
        match self {
            DiagramKind::Flowchart { .. } => "flowchart",
            DiagramKind::Sequence => "sequence diagram",
            DiagramKind::Class => "class diagram",
            DiagramKind::State => "state diagram",
            DiagramKind::Er => "entity relationship diagram",
            DiagramKind::Gantt => "gantt chart",
            DiagramKind::Pie => "pie chart",
            DiagramKind::Journey => "user journey",
            DiagramKind::Unknown(word) => word.as_str(),
        }
    }
}

/// A line that carries no diagram type: blank, a `%%` comment or a
/// `%%{init: ...}%%` directive.
pub open spec fn is_skippable(line: Seq<char>) -> bool {
    trim(line).len() == 0 || starts_with(trim(line), "%%"@)
}

/// The first line that can carry the diagram keyword.
pub open spec fn header_of(ls: Seq<Seq<char>>) -> Option<Seq<char>>
    decreases ls.len(),
{
    if ls.len() == 0 {
        None
    } else if !is_skippable(ls[0]) {
        Some(ls[0])
    } else {
        header_of(ls.drop_first())
    }
}

/// A keyword separator: white space or `;`.
pub open spec fn is_sep(c: char) -> bool {
    is_white(c) || c == ';'
}

/// The length of the run at the start of `s` whose characters do (`sep`) or
/// do not (`!sep`) separate keywords.
pub open spec fn run_prefix(s: Seq<char>, sep: bool) -> int
    decreases s.len(),
{
    if s.len() == 0 || is_sep(s[0]) != sep {
        0
    } else {
        1 + run_prefix(s.drop_first(), sep)
    }
}

pub proof fn lemma_run_prefix(s: Seq<char>, sep: bool)
    ensures
        0 <= run_prefix(s, sep) <= s.len(),
        forall|k: int| 0 <= k < run_prefix(s, sep) ==> is_sep(#[trigger] s[k]) == sep,
        run_prefix(s, sep) < s.len() ==> is_sep(s[run_prefix(s, sep)]) != sep,
    decreases s.len(),
{
    if s.len() > 0 && is_sep(s[0]) == sep {
        lemma_run_prefix(s.drop_first(), sep);
        assert forall|k: int| 0 <= k < run_prefix(s, sep) implies is_sep(#[trigger] s[k]) == sep by {
            if k > 0 {
                assert(s[k] == s.drop_first()[k - 1]);
            }
        }
    }
}

/// The first separator-delimited token of `s` (empty when there is none).
pub open spec fn first_token(s: Seq<char>) -> Seq<char> {
    let rest = s.skip(run_prefix(s, true));
    rest.take(run_prefix(rest, false))
}

/// The kind of the header `line` (already trimmed).
pub open spec fn kind_of_header(line: Seq<char>) -> (int, Orientation, Seq<char>) {
    let e = run_prefix(line, false);
    let kw = trim(line.take(e));
    let rest = line.skip(e);
    if kw == "graph"@ || kw == "flowchart"@ {
        let o = match orientation_of(first_token(rest)) {
            Some(o) => o,
            None => Orientation::Td,
        };
        (0, o, Seq::empty())
    } else if kw == "sequenceDiagram"@ {
        (1, Orientation::Td, Seq::empty())
    } else if kw == "classDiagram"@ || kw == "classDiagram-v2"@ {
        (2, Orientation::Td, Seq::empty())
    } else if kw == "stateDiagram"@ || kw == "stateDiagram-v2"@ {
        (3, Orientation::Td, Seq::empty())
    } else if kw == "erDiagram"@ {
        (4, Orientation::Td, Seq::empty())
    } else if kw == "gantt"@ {
        (5, Orientation::Td, Seq::empty())
    } else if kw == "pie"@ {
        (6, Orientation::Td, Seq::empty())
    } else if kw == "journey"@ {
        (7, Orientation::Td, Seq::empty())
    } else {
        (8, Orientation::Td, kw)
    }
}

/// The kind of a diagram source: decided by its first line that is not
/// blank, a comment or a directive; an empty block is unknown with an empty
/// keyword.
pub open spec fn kind_spec(src: Seq<char>) -> (int, Orientation, Seq<char>) {
    match header_of(lines_of(src)) {
        None => (8, Orientation::Td, Seq::empty()),
        Some(h) => kind_of_header(trim(h)),
    }
}

fn skippable(line: &[char]) -> (b: bool)
    ensures
        b == is_skippable(line@),
{
    let t = trim_chars(line);
    proof {
        reveal_strlit("%%");
    }
    if t.len() == 0 {
        return true;
    }
    if t.len() >= 2 && t[0] == '%' && t[1] == '%' {
        assert(t@.subrange(0, 2) =~= "%%"@);
        return true;
    }
    proof {
        if t@.len() >= 2 && starts_with(t@, "%%"@) {
            assert(t@.subrange(0, 2)[0] == t@[0]);
            assert(t@.subrange(0, 2)[1] == t@[1]);
        }
    }
    false
}

/// The first line of `source` that can carry the diagram keyword.
pub fn header_line(source: &str) -> (out: Option<Vec<char>>)
    ensures
        match out {
            Some(l) => header_of(lines_of(source@)) == Some(l@),
            None => header_of(lines_of(source@)) is None,
        },
{
    let ls = lines(source);
    let ghost lv = ls@.map_values(|l: Vec<char>| l@);
    let mut i: usize = 0;
    proof {
        assert(lv.skip(0) == lv);
    }
    while i < ls.len()
        invariant
            i <= ls@.len(),
            lv == ls@.map_values(|l: Vec<char>| l@),
            lv == lines_of(source@),
            header_of(lv.skip(i as int)) == header_of(lv),
        decreases ls@.len() - i,
    {
        proof {
            assert(lv.skip(i as int)[0] == ls@[i as int]@);
            assert(lv.skip(i as int).drop_first() == lv.skip(i + 1));
        }
        if !skippable(ls[i].as_slice()) {
            let mut out: Vec<char> = Vec::new();
            let mut k: usize = 0;
            while k < ls[i].len()
                invariant
                    i < ls@.len(),
                    k <= ls@[i as int]@.len(),
                    out@ == ls@[i as int]@.take(k as int),
                decreases ls@[i as int]@.len() - k,
            {
                out.push(ls[i][k]);
                k += 1;
                assert(ls@[i as int]@.take(k as int) == ls@[i as int]@.take(k - 1).push(ls@[i as int]@[k - 1]));
            }
            assert(ls@[i as int]@.take(ls@[i as int]@.len() as int) == ls@[i as int]@);
            return Some(out);
        }
        i += 1;
    }
    assert(lv.skip(ls@.len() as int).len() == 0);
    None
}

fn is_sep_char(c: char) -> (b: bool)
    ensures
        b == is_sep(c),
{
    is_whitespace(c) || c == ';'
}

fn run_len(s: &[char], from: usize, sep: bool) -> (end: usize)
    requires
        from <= s@.len(),
    ensures
        from <= end <= s@.len(),
        end - from == run_prefix(s@.skip(from as int), sep),
{
    let mut i = from;
    proof {
        lemma_run_prefix(s@.skip(from as int), sep);
    }
    while i < s.len() && is_sep_char(s[i]) == sep
        invariant
            from <= i <= s@.len(),
            forall|k: int| from <= k < i ==> is_sep(#[trigger] s@[k]) == sep,
        decreases s@.len() - i,
    {
        i += 1;
    }
    proof {
        let t = s@.skip(from as int);
        lemma_run_prefix(t, sep);
        let r = run_prefix(t, sep);
        if r < i - from {
            assert(t[r] == s@[from + r]);
        }
        if r > i - from {
            assert(t[i - from] == s@[i as int]);
        }
    }
    i
}

fn slice_vec(s: &[char], lo: usize, hi: usize) -> (out: Vec<char>)
    requires
        lo <= hi <= s@.len(),
    ensures
        out@ == s@.subrange(lo as int, hi as int),
{
    let mut out: Vec<char> = Vec::new();
    let mut k = lo;
    while k < hi
        invariant
            lo <= k <= hi <= s@.len(),
            out@ == s@.subrange(lo as int, k as int),
        decreases hi - k,
    {
        out.push(s[k]);
        k += 1;
        assert(s@.subrange(lo as int, k as int) == s@.subrange(lo as int, k - 1).push(s@[k - 1]));
    }
    out
}

fn eq_lit(a: &[char], lit: &str) -> (b: bool)
    ensures
        b == (a@ == lit@),
{
    let l = crate::util::text::chars_of(lit);
    chars_eq(a, l.as_slice())
}

/// Determines the diagram type by inspecting the first non-comment,
/// non-directive line of `source`; for `graph`/`flowchart` the next token is
/// the orientation, `TD` when it is absent or unrecognised.
pub fn diagram_kind(source: &str) -> (k: DiagramKind)
    ensures
        kind_view(k) == kind_spec(source@),
{
    let line = match header_line(source) {
        Some(l) => l,
        None => return DiagramKind::Unknown(String::new()),
    };
    let line = trim_chars(line.as_slice());
    let e = run_len(line.as_slice(), 0, false);
    proof {
        assert(line@.skip(0) == line@);
    }
    let kw0 = slice_vec(line.as_slice(), 0, e);
    let kw = trim_chars(kw0.as_slice());
    assert(kw0@ == line@.take(e as int));
    let k = kw.as_slice();
    if eq_lit(k, "graph") || eq_lit(k, "flowchart") {
        let t0 = run_len(line.as_slice(), e, true);
        let t1 = run_len(line.as_slice(), t0, false);
        let token = slice_vec(line.as_slice(), t0, t1);
        proof {
            let rest = line@.skip(e as int);
            assert(rest.skip(t0 - e) == line@.skip(t0 as int));
            assert(line@.skip(t0 as int).take(t1 - t0) == line@.subrange(t0 as int, t1 as int));
        }
        let ts = string_of(token.as_slice());
        let orientation = match Orientation::parse(ts.as_str()) {
            Some(o) => o,
            None => Orientation::Td,
        };
        DiagramKind::Flowchart { orientation }
    } else if eq_lit(k, "sequenceDiagram") {
        DiagramKind::Sequence
    } else if eq_lit(k, "classDiagram") || eq_lit(k, "classDiagram-v2") {
        DiagramKind::Class
    } else if eq_lit(k, "stateDiagram") || eq_lit(k, "stateDiagram-v2") {
        DiagramKind::State
    } else if eq_lit(k, "erDiagram") {
        DiagramKind::Er
    } else if eq_lit(k, "gantt") {
        DiagramKind::Gantt
    } else if eq_lit(k, "pie") {
        DiagramKind::Pie
    } else if eq_lit(k, "journey") {
        DiagramKind::Journey
    } else {
        DiagramKind::Unknown(string_of(k))
    }
}


/// The keyword of a diagram source: the leading run of its header line
/// (the first line that is not blank, a comment or a directive, trimmed)
/// up to the first blank or `;`.
pub open spec fn header_keyword(src: Seq<char>) -> Option<Seq<char>> {
    match header_of(lines_of(src)) {
        None => None,
        Some(h) => Some(trim(trim(h).take(run_prefix(trim(h), false)))),
    }
}

/// The keyword of the header line decides the diagram kind: `graph` and
/// `flowchart` are flowcharts, `sequenceDiagram` a sequence diagram,
/// `classDiagram` and `classDiagram-v2` class diagrams, `stateDiagram` and
/// `stateDiagram-v2` state diagrams, `erDiagram` an entity-relationship
/// diagram, `gantt`, `pie` and `journey` those kinds; any other keyword is
/// unknown and kept.
pub proof fn law_keyword_decides_kind(src: Seq<char>)
    ensures
        header_keyword(src) == Some("graph"@) || header_keyword(src) == Some("flowchart"@) ==> kind_spec(src).0 == 0,
        header_keyword(src) == Some("sequenceDiagram"@) ==> kind_spec(src).0 == 1,
        header_keyword(src) == Some("classDiagram"@) || header_keyword(src) == Some("classDiagram-v2"@) ==> kind_spec(src).0
            == 2,
        header_keyword(src) == Some("stateDiagram"@) || header_keyword(src) == Some("stateDiagram-v2"@) ==> kind_spec(src).0
            == 3,
        header_keyword(src) == Some("erDiagram"@) ==> kind_spec(src).0 == 4,
        header_keyword(src) == Some("gantt"@) ==> kind_spec(src).0 == 5,
        header_keyword(src) == Some("pie"@) ==> kind_spec(src).0 == 6,
        header_keyword(src) == Some("journey"@) ==> kind_spec(src).0 == 7,
        header_keyword(src) is Some ==> ({
            let k = header_keyword(src)->Some_0;
            (k != "graph"@ && k != "flowchart"@ && k != "sequenceDiagram"@ && k != "classDiagram"@ && k
                != "classDiagram-v2"@ && k != "stateDiagram"@ && k != "stateDiagram-v2"@ && k != "erDiagram"@ && k
                != "gantt"@ && k != "pie"@ && k != "journey"@) ==> kind_spec(src) == (8int, Orientation::Td, k)
        }),
{
    reveal_strlit("classDiagram");
    reveal_strlit("classDiagram-v2");
    reveal_strlit("erDiagram");
    reveal_strlit("flowchart");
    reveal_strlit("gantt");
    reveal_strlit("graph");
    reveal_strlit("journey");
    reveal_strlit("pie");
    reveal_strlit("sequenceDiagram");
    reveal_strlit("stateDiagram");
    reveal_strlit("stateDiagram-v2");
    assert("classDiagram"@[0] == 'c' && "classDiagram"@[1] == 'l' && "classDiagram"@[2] == 'a' && "classDiagram"@[3] == 's' && "classDiagram"@[4] == 's' && "classDiagram"@[5] == 'D' && "classDiagram"@[6] == 'i' && "classDiagram"@[7] == 'a' && "classDiagram"@[8] == 'g' && "classDiagram"@[9] == 'r' && "classDiagram"@[10] == 'a' && "classDiagram"@[11] == 'm' && "classDiagram"@.len() == 12);
    assert("classDiagram-v2"@[0] == 'c' && "classDiagram-v2"@[1] == 'l' && "classDiagram-v2"@[2] == 'a' && "classDiagram-v2"@[3] == 's' && "classDiagram-v2"@[4] == 's' && "classDiagram-v2"@[5] == 'D' && "classDiagram-v2"@[6] == 'i' && "classDiagram-v2"@[7] == 'a' && "classDiagram-v2"@[8] == 'g' && "classDiagram-v2"@[9] == 'r' && "classDiagram-v2"@[10] == 'a' && "classDiagram-v2"@[11] == 'm' && "classDiagram-v2"@[12] == '-' && "classDiagram-v2"@[13] == 'v' && "classDiagram-v2"@[14] == '2' && "classDiagram-v2"@.len() == 15);
    assert("erDiagram"@[0] == 'e' && "erDiagram"@[1] == 'r' && "erDiagram"@[2] == 'D' && "erDiagram"@[3] == 'i' && "erDiagram"@[4] == 'a' && "erDiagram"@[5] == 'g' && "erDiagram"@[6] == 'r' && "erDiagram"@[7] == 'a' && "erDiagram"@[8] == 'm' && "erDiagram"@.len() == 9);
    assert("flowchart"@[0] == 'f' && "flowchart"@[1] == 'l' && "flowchart"@[2] == 'o' && "flowchart"@[3] == 'w' && "flowchart"@[4] == 'c' && "flowchart"@[5] == 'h' && "flowchart"@[6] == 'a' && "flowchart"@[7] == 'r' && "flowchart"@[8] == 't' && "flowchart"@.len() == 9);
    assert("gantt"@[0] == 'g' && "gantt"@[1] == 'a' && "gantt"@[2] == 'n' && "gantt"@[3] == 't' && "gantt"@[4] == 't' && "gantt"@.len() == 5);
    assert("graph"@[0] == 'g' && "graph"@[1] == 'r' && "graph"@[2] == 'a' && "graph"@[3] == 'p' && "graph"@[4] == 'h' && "graph"@.len() == 5);
    assert("journey"@[0] == 'j' && "journey"@[1] == 'o' && "journey"@[2] == 'u' && "journey"@[3] == 'r' && "journey"@[4] == 'n' && "journey"@[5] == 'e' && "journey"@[6] == 'y' && "journey"@.len() == 7);
    assert("pie"@[0] == 'p' && "pie"@[1] == 'i' && "pie"@[2] == 'e' && "pie"@.len() == 3);
    assert("sequenceDiagram"@[0] == 's' && "sequenceDiagram"@[1] == 'e' && "sequenceDiagram"@[2] == 'q' && "sequenceDiagram"@[3] == 'u' && "sequenceDiagram"@[4] == 'e' && "sequenceDiagram"@[5] == 'n' && "sequenceDiagram"@[6] == 'c' && "sequenceDiagram"@[7] == 'e' && "sequenceDiagram"@[8] == 'D' && "sequenceDiagram"@[9] == 'i' && "sequenceDiagram"@[10] == 'a' && "sequenceDiagram"@[11] == 'g' && "sequenceDiagram"@[12] == 'r' && "sequenceDiagram"@[13] == 'a' && "sequenceDiagram"@[14] == 'm' && "sequenceDiagram"@.len() == 15);
    assert("stateDiagram"@[0] == 's' && "stateDiagram"@[1] == 't' && "stateDiagram"@[2] == 'a' && "stateDiagram"@[3] == 't' && "stateDiagram"@[4] == 'e' && "stateDiagram"@[5] == 'D' && "stateDiagram"@[6] == 'i' && "stateDiagram"@[7] == 'a' && "stateDiagram"@[8] == 'g' && "stateDiagram"@[9] == 'r' && "stateDiagram"@[10] == 'a' && "stateDiagram"@[11] == 'm' && "stateDiagram"@.len() == 12);
    assert("stateDiagram-v2"@[0] == 's' && "stateDiagram-v2"@[1] == 't' && "stateDiagram-v2"@[2] == 'a' && "stateDiagram-v2"@[3] == 't' && "stateDiagram-v2"@[4] == 'e' && "stateDiagram-v2"@[5] == 'D' && "stateDiagram-v2"@[6] == 'i' && "stateDiagram-v2"@[7] == 'a' && "stateDiagram-v2"@[8] == 'g' && "stateDiagram-v2"@[9] == 'r' && "stateDiagram-v2"@[10] == 'a' && "stateDiagram-v2"@[11] == 'm' && "stateDiagram-v2"@[12] == '-' && "stateDiagram-v2"@[13] == 'v' && "stateDiagram-v2"@[14] == '2' && "stateDiagram-v2"@.len() == 15);
}

} // verus!
