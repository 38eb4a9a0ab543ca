//! Code block options and fence language names.
use vstd::prelude::*;
use crate::layout::inline::{
    apply_matches, avail_spec, line_view, lines_view, matched_upto, piece_v, pieces_v, place_word, push_span, push_span_spec,
    sat_add, sat_sub, span_view, word_spec, LineV, Piece, PieceV, any_overlap, cut_from, lemma_next_cut, next_cut, piece_matched,
    law_matches_keep_the_text, pieces_text, line_text, lemma_push_span_text, lemma_line_text_concat,
};
use crate::render::primitives::{LinkId, StyledSpan};
use crate::render::theme::{style_patch, Style, Theme};
use crate::util::text::{
    ascii_lower, chars_of, decimal, decimal_string, is_white, is_whitespace, lemma_decimal_len, lines, lines_of, push_char,
    push_spaces, push_str, spaces, str_eq, string_of, to_ascii_lower, to_owned, trim, trim_chars,
};
use crate::util::unicode::{display_width, expand_from, expand_tabs, fits, grapheme_clusters, pad_left_to_width, width};

verus! {

/// Options that influence code block layout.
#[derive(Debug, Clone, Copy, PartialEq, Eq, Structural)]
pub struct CodeOptions {
    /// Soft-wrap long lines (otherwise the line is emitted at full width and
    /// the viewport scrolls horizontally).
    pub wrap: bool,
    /// Render a line-number gutter.
    pub line_numbers: bool,
    /// Tab expansion width.
    pub tab_width: usize,
    /// Unicode box drawing available (ASCII gutter otherwise).
    pub unicode: bool,
    /// Defer syntax highlighting: plain code styling first, highlighting
    /// later. Highlighting never changes how many lines a block occupies or
    /// how wide they are.
    pub lazy: bool,
}

impl Default for CodeOptions {
    fn default() -> (o: Self)
        ensures
            !o.wrap && !o.line_numbers && o.tab_width == 4 && o.unicode && !o.lazy,
    {
        CodeOptions { wrap: false, line_numbers: false, tab_width: 4, unicode: true, lazy: false }
    }
}

/// The leading run of non-white-space characters of `s`.
pub open spec fn first_word(s: Seq<char>) -> Seq<char>
    decreases s.len(),
{
    if s.len() == 0 || is_white(s[0]) {
        Seq::empty()
    } else {
        seq![s[0]] + first_word(s.drop_first())
    }
}

/// The highlighter's token for a lower-cased language name; the empty
/// token for an unknown language.
pub open spec fn token_for(k: Seq<char>) -> Seq<char> {
    if k == "rust"@ || k == "rs"@ {
        "rs"@
    } else if k == "sh"@ || k == "bash"@ || k == "zsh"@ || k == "shell"@ || k == "console"@ || k == "shell-session"@ {
        "sh"@
    } else if k == "python"@ || k == "py"@ || k == "python3"@ {
        "py"@
    } else if k == "javascript"@ || k == "js"@ || k == "node"@ || k == "mjs"@ {
        "js"@
    } else if k == "typescript"@ || k == "ts"@ || k == "tsx"@ {
        "ts"@
    } else if k == "yaml"@ || k == "yml"@ {
        "yaml"@
    } else if k == "toml"@ || k == "tml"@ {
        "toml"@
    } else if k == "json"@ || k == "jsonc"@ {
        "json"@
    } else if k == "markdown"@ || k == "md"@ || k == "mdown"@ {
        "md"@
    } else if k == "c"@ || k == "h"@ {
        "c"@
    } else if k == "cpp"@ || k == "c++"@ || k == "cxx"@ || k == "hpp"@ {
        "cpp"@
    } else if k == "go"@ || k == "golang"@ {
        "go"@
    } else if k == "java"@ {
        "java"@
    } else if k == "ruby"@ || k == "rb"@ {
        "rb"@
    } else if k == "php"@ {
        "php"@
    } else if k == "html"@ || k == "htm"@ {
        "html"@
    } else if k == "css"@ {
        "css"@
    } else if k == "scss"@ || k == "sass"@ {
        "scss"@
    } else if k == "xml"@ || k == "svg"@ {
        "xml"@
    } else if k == "sql"@ {
        "sql"@
    } else if k == "diff"@ || k == "patch"@ {
        "diff"@
    } else if k == "ini"@ || k == "cfg"@ || k == "conf"@ {
        "ini"@
    } else if k == "make"@ || k == "makefile"@ {
        "make"@
    } else if k == "perl"@ || k == "pl"@ {
        "pl"@
    } else if k == "lua"@ {
        "lua"@
    } else if k == "erlang"@ || k == "erl"@ {
        "erl"@
    } else if k == "haskell"@ || k == "hs"@ {
        "hs"@
    } else if k == "objc"@ || k == "objective-c"@ {
        "m"@
    } else if k == "cs"@ || k == "csharp"@ || k == "c#"@ {
        "cs"@
    } else if k == "tex"@ || k == "latex"@ {
        "tex"@
    } else if k == "text"@ || k == "plain"@ || k == "txt"@ || k == ""@ {
        "txt"@
    } else {
        ""@
    }
}

/// The lookup key of a fence info string: its first word, lower-cased.
pub open spec fn language_key(language: Seq<char>) -> Seq<char> {
    ascii_lower(first_word(trim(language)))
}

fn first_word_of(t: &Vec<char>) -> (out: Vec<char>)
    ensures
        out@ == first_word(t@),
{
    let mut end: usize = 0;
    while end < t.len() && !is_whitespace(t[end])
        invariant
            end <= t@.len(),
            forall|k: int| 0 <= k < end ==> !is_white(#[trigger] t@[k]),
        decreases t@.len() - end,
    {
        end += 1;
    }
    let mut out: Vec<char> = Vec::new();
    let mut i: usize = 0;
    while i < end
        invariant
            i <= end <= t@.len(),
            out@ == t@.take(i as int),
        decreases end - i,
    {
        out.push(t[i]);
        i += 1;
        assert(t@.take(i as int) == t@.take(i - 1).push(t@[i - 1]));
    }
    proof {
        lemma_first_word(t@, end as int);
    }
    out
}

proof fn lemma_first_word(s: Seq<char>, end: int)
    requires
        0 <= end <= s.len(),
        forall|k: int| 0 <= k < end ==> !is_white(#[trigger] s[k]),
        end == s.len() || is_white(s[end]),
    ensures
        first_word(s) == s.take(end),
    decreases end,
{
    if end == 0 {
        assert(s.take(0) =~= Seq::<char>::empty());
    } else {
        assert(!is_white(s[0]));
        let r = s.drop_first();
        assert forall|k: int| 0 <= k < end - 1 implies !is_white(#[trigger] r[k]) by {
            assert(r[k] == s[k + 1]);
        }
        if end < s.len() {
            assert(r[end - 1] == s[end]);
        }
        lemma_first_word(r, end - 1);
        assert(s.take(end) =~= seq![s[0]] + r.take(end - 1));
    }
}

/// Maps a fence info string to a highlighter lookup token. Unknown
/// languages give the empty token, which falls through to plain text.
pub fn language_token(language: &str) -> (out: &'static str)
    ensures
        out@ == token_for(language_key(language@)),
{
    let t = trim_chars(chars_of(language).as_slice());
    let w = first_word_of(&t);
    let lw = to_ascii_lower(string_of(w.as_slice()).as_str());
    let k = lw.as_str();
    if str_eq(k, "rust") || str_eq(k, "rs") {
        "rs"
    } else if str_eq(k, "sh") || str_eq(k, "bash") || str_eq(k, "zsh") || str_eq(k, "shell") || str_eq(k, "console") || str_eq(k, "shell-session") {
        "sh"
    } else if str_eq(k, "python") || str_eq(k, "py") || str_eq(k, "python3") {
        "py"
    } else if str_eq(k, "javascript") || str_eq(k, "js") || str_eq(k, "node") || str_eq(k, "mjs") {
        "js"
    } else if str_eq(k, "typescript") || str_eq(k, "ts") || str_eq(k, "tsx") {
        "ts"
    } else if str_eq(k, "yaml") || str_eq(k, "yml") {
        "yaml"
    } else if str_eq(k, "toml") || str_eq(k, "tml") {
        "toml"
    } else if str_eq(k, "json") || str_eq(k, "jsonc") {
        "json"
    } else if str_eq(k, "markdown") || str_eq(k, "md") || str_eq(k, "mdown") {
        "md"
    } else if str_eq(k, "c") || str_eq(k, "h") {
        "c"
    } else if str_eq(k, "cpp") || str_eq(k, "c++") || str_eq(k, "cxx") || str_eq(k, "hpp") {
        "cpp"
    } else if str_eq(k, "go") || str_eq(k, "golang") {
        "go"
    } else if str_eq(k, "java") {
        "java"
    } else if str_eq(k, "ruby") || str_eq(k, "rb") {
        "rb"
    } else if str_eq(k, "php") {
        "php"
    } else if str_eq(k, "html") || str_eq(k, "htm") {
        "html"
    } else if str_eq(k, "css") {
        "css"
    } else if str_eq(k, "scss") || str_eq(k, "sass") {
        "scss"
    } else if str_eq(k, "xml") || str_eq(k, "svg") {
        "xml"
    } else if str_eq(k, "sql") {
        "sql"
    } else if str_eq(k, "diff") || str_eq(k, "patch") {
        "diff"
    } else if str_eq(k, "ini") || str_eq(k, "cfg") || str_eq(k, "conf") {
        "ini"
    } else if str_eq(k, "make") || str_eq(k, "makefile") {
        "make"
    } else if str_eq(k, "perl") || str_eq(k, "pl") {
        "pl"
    } else if str_eq(k, "lua") {
        "lua"
    } else if str_eq(k, "erlang") || str_eq(k, "erl") {
        "erl"
    } else if str_eq(k, "haskell") || str_eq(k, "hs") {
        "hs"
    } else if str_eq(k, "objc") || str_eq(k, "objective-c") {
        "m"
    } else if str_eq(k, "cs") || str_eq(k, "csharp") || str_eq(k, "c#") {
        "cs"
    } else if str_eq(k, "tex") || str_eq(k, "latex") {
        "tex"
    } else if str_eq(k, "text") || str_eq(k, "plain") || str_eq(k, "txt") || str_eq(k, "") {
        "txt"
    } else {
        ""
    }
}


// ---------------------------------------------------------------------------
// Code block layout
// ---------------------------------------------------------------------------

/// Columns a continuation line of a wrapped code line is indented by.
pub const CONTINUATION_INDENT: usize = 2;

/// The characters of one highlighted line: its runs' texts, in order.
pub open spec fn runs_text(rs: Seq<(Style, String)>) -> Seq<char>
    decreases rs.len(),
{
    if rs.len() == 0 {
        Seq::empty()
    } else {
        runs_text(rs.drop_last()) + rs.last().1@
    }
}

/// Where the run `k` of a line that starts at `start` begins in the code's
/// plain text (counting saturates at `usize::MAX`).
pub open spec fn run_start(rs: Seq<(Style, String)>, start: usize, k: int) -> usize
    decreases k,
{
    if k <= 0 {
        start
    } else {
        sat_add(run_start(rs, start, k - 1), rs[k - 1].1@.len() as usize)
    }
}

/// The pieces of a highlighted line: each run on the code background, at
/// its position in the plain text.
pub open spec fn run_pieces(rs: Seq<(Style, String)>, bg: Style, start: usize) -> Seq<PieceV> {
    Seq::new(rs.len(), |k: int| (rs[k].1@, style_patch(bg, rs[k].0), None::<LinkId>, false, run_start(rs, start, k), false))
}

/// Where raw line `k` starts in the code: the lengths of the lines before
/// it, one more each for its line break (saturating).
pub open spec fn line_start(raw: Seq<Seq<char>>, k: int) -> usize
    decreases k,
{
    if k <= 0 {
        0
    } else {
        sat_add(line_start(raw, k - 1), sat_add(raw[k - 1].len() as usize, 1))
    }
}

/// A piece flagged as a search hit drawn in the search style.
pub open spec fn hit_styled(p: PieceV, hit: Style) -> PieceV {
    (p.0, if p.3 { style_patch(p.1, hit) } else { p.1 }, p.2, p.3, p.4, p.5)
}

/// The pieces of highlighted line `idx` of `code`: its runs, with the
/// search matches applied unless the raw line has a tab (whose expansion
/// moved the positions) or there is none.
pub open spec fn code_pieces(code: Seq<char>, rs: Seq<(Style, String)>, idx: int, theme: Theme, ms: Seq<(usize, usize)>) -> Seq<PieceV> {
    let raw = lines_of(code);
    let start: usize = if idx < raw.len() { line_start(raw, idx) } else { 0 };
    let has_tab = if idx < raw.len() { raw[idx].contains('\t') } else { true };
    let base = run_pieces(rs, theme.code_bg, start);
    let m = if has_tab || ms.len() == 0 { base } else { matched_upto(base, ms, base.len() as int) };
    m.map_values(|p: PieceV| hit_styled(p, theme.search_match))
}

/// The first `k` pieces of a code line hard broken at `avail` cells for the
/// first line and `cont` for the others (never at word boundaries).
pub open spec fn code_wrap_upto(ps: Seq<PieceV>, k: int, avail: usize, cont: usize) -> (Seq<LineV>, LineV, usize)
    decreases k,
{
    if k <= 0 {
        (Seq::empty(), Seq::empty(), 0)
    } else {
        let st = code_wrap_upto(ps, k - 1, avail, cont);
        let p = ps[k - 1];
        word_spec(st.0, st.1, st.2, p.0, avail_spec(st.0, avail, cont), (p.1, None, p.3), cont, 2 * p.0.len() + 2)
    }
}

/// The pieces of a code line as one line.
pub open spec fn code_unwrapped(ps: Seq<PieceV>, k: int) -> LineV
    decreases k,
{
    if k <= 0 {
        Seq::empty()
    } else {
        let p = ps[k - 1];
        push_span_spec(code_unwrapped(ps, k - 1), p.0, p.1, None, p.3)
    }
}

/// The content lines of a code line: hard broken when wrapping, else one.
pub open spec fn code_content(ps: Seq<PieceV>, wrap: bool, avail: usize, cont: usize) -> Seq<LineV> {
    if wrap {
        let st = code_wrap_upto(ps, ps.len() as int, avail, cont);
        st.0.push(st.1)
    } else {
        seq![code_unwrapped(ps, ps.len() as int)]
    }
}

/// The width of a line of spans, counted with saturation (a span too long
/// to measure counts as `usize::MAX`).
pub open spec fn sat_width(l: LineV) -> usize
    decreases l.len(),
{
    if l.len() == 0 {
        0
    } else if l.last().0.len() <= usize::MAX / 8 {
        sat_add(sat_width(l.drop_last()), display_width(l.last().0) as usize)
    } else {
        usize::MAX
    }
}

/// `s` right-aligned in `target` cells.
pub open spec fn pad_left_spec(s: Seq<char>, target: usize) -> Seq<char> {
    if display_width(s) >= target { s } else { spaces((target - display_width(s)) as nat) + s }
}

/// The geometry of a code block with `total` lines: the width of the line
/// numbers (0 without them), the gutter's width, and the room for the
/// first and the continuation lines of a code line.
pub open spec fn code_geometry(total: nat, opts: CodeOptions, width: usize) -> (usize, usize, usize, usize) {
    let w: usize = if width < 4 { 4 } else { width };
    let nw: usize = if opts.line_numbers { decimal(total).len() as usize } else { 0 };
    let gw: usize = if opts.line_numbers { sat_add(nw, 3) } else { 2 };
    let avail: usize = if sat_sub(w, gw) < 1 { 1 } else { sat_sub(w, gw) };
    let cont: usize = if sat_sub(avail, CONTINUATION_INDENT) < 1 { 1 } else { sat_sub(avail, CONTINUATION_INDENT) };
    (nw, gw, avail, cont)
}

/// The gutter of sub-line `sub` of code line `idx`: the right-aligned line
/// number on the first sub-line (blanks after it) and a bar, or the bar
/// alone.
pub open spec fn gutter_spec(idx: int, sub: int, nw: usize, opts: CodeOptions, style: Style) -> LineV {
    let bar: Seq<char> = if opts.unicode { seq!['\u{258f}'] } else { seq!['|'] };
    if opts.line_numbers {
        let label = if sub == 0 { pad_left_spec(decimal((idx + 1) as nat), nw) } else { spaces(nw as nat) };
        push_span_spec(push_span_spec(Seq::empty(), label, style, None, false), seq![' '] + bar + seq![' '], style, None, false)
    } else {
        push_span_spec(Seq::empty(), bar + seq![' '], style, None, false)
    }
}

/// One drawn line: the gutter, the continuation indent on a continuation
/// line, the content, and blanks up to `w` cells on the code background.
pub open spec fn code_line_spec(gutter: LineV, sub: int, content: LineV, bg: Style, w: usize) -> LineV {
    let l1 = if sub > 0 { push_span_spec(gutter, spaces(CONTINUATION_INDENT as nat), bg, None, false) } else { gutter };
    let l2 = l1 + content;
    let lw = sat_width(l2);
    if lw < w { push_span_spec(l2, spaces((w - lw) as nat), bg, None, false) } else { l2 }
}

/// The drawn lines of highlighted line `idx`.
pub open spec fn code_block_lines(
    code: Seq<char>,
    runs: Seq<Vec<(Style, String)>>,
    idx: int,
    theme: Theme,
    opts: CodeOptions,
    width: usize,
    ms: Seq<(usize, usize)>,
) -> Seq<LineV> {
    let (nw, gw, avail, cont) = code_geometry(runs.len(), opts, width);
    let w: usize = if width < 4 { 4 } else { width };
    let content = code_content(code_pieces(code, runs[idx]@, idx, theme, ms), opts.wrap, avail, cont);
    let gstyle = style_patch(theme.code_bg, theme.quote_gutter);
    Seq::new(content.len(), |sub: int| code_line_spec(gutter_spec(idx, sub, nw, opts, gstyle), sub, content[sub], theme.code_bg, w))
}

/// The drawn lines of the first `k` highlighted lines.
pub open spec fn code_lines_upto(
    code: Seq<char>,
    runs: Seq<Vec<(Style, String)>>,
    k: int,
    theme: Theme,
    opts: CodeOptions,
    width: usize,
    ms: Seq<(usize, usize)>,
) -> Seq<LineV>
    decreases k,
{
    if k <= 0 {
        Seq::empty()
    } else {
        code_lines_upto(code, runs, k - 1, theme, opts, width, ms) + code_block_lines(code, runs, k - 1, theme, opts, width, ms)
    }
}

/// Appends a copy of `s` to `line`, without merging.
pub(crate) fn push_copy(line: &mut Vec<StyledSpan>, s: &StyledSpan)
    ensures
        line_view(final(line)@) == line_view(old(line)@).push(span_view(*s)),
{
    let ghost before = line@;
    line.push(StyledSpan { text: to_owned(s.text.as_str()), style: s.style, link: s.link, search_match: s.search_match });
    proof {
        assert(line_view(line@) =~= line_view(before).push(span_view(*s)));
    }
}

/// Where each raw line starts in the code and whether it has a tab.
fn raw_line_info(raw: &Vec<Vec<char>>) -> (out: Vec<(usize, bool)>)
    ensures
        out@.len() == raw@.len(),
        forall|k: int| 0 <= k < raw@.len() ==> (#[trigger] out@[k]).0 == line_start(raw@.map_values(|l: Vec<char>| l@), k)
            && out@[k].1 == raw@[k]@.contains('\t'),
{
    let ghost rv = raw@.map_values(|l: Vec<char>| l@);
    let mut out: Vec<(usize, bool)> = Vec::new();
    let mut off: usize = 0;
    let mut k: usize = 0;
    while k < raw.len()
        invariant
            k <= raw@.len(),
            rv == raw@.map_values(|l: Vec<char>| l@),
            out@.len() == k,
            off == line_start(rv, k as int),
            forall|q: int| 0 <= q < k ==> (#[trigger] out@[q]).0 == line_start(rv, q) && out@[q].1 == raw@[q]@.contains('\t'),
        decreases raw@.len() - k,
    {
        let line = &raw[k];
        let mut tab = false;
        let mut j: usize = 0;
        while j < line.len()
            invariant
                j <= line@.len(),
                tab == (exists|q: int| 0 <= q < j && line@[q] == '\t'),
            decreases line@.len() - j,
        {
            if line[j] == '\t' {
                tab = true;
            }
            j += 1;
        }
        out.push((off, tab));
        assert(rv[k as int] == line@);
        off = off.saturating_add(line.len().saturating_add(1));
        k += 1;
    }
    out
}

/// The pieces of a highlighted line (see [`run_pieces`]).
fn build_pieces(rs: &Vec<(Style, String)>, bg: Style, start: usize) -> (out: Vec<Piece>)
    ensures
        pieces_v(out@) == run_pieces(rs@, bg, start),
{
    let mut out: Vec<Piece> = Vec::new();
    let mut rel = start;
    let mut k: usize = 0;
    while k < rs.len()
        invariant
            k <= rs@.len(),
            out@.len() == k,
            rel == run_start(rs@, start, k as int),
            forall|q: int| 0 <= q < k ==> #[trigger] pieces_v(out@)[q] == run_pieces(rs@, bg, start)[q],
            run_pieces(rs@, bg, start).len() == rs@.len(),
        decreases rs@.len() - k,
    {
        let text = to_owned(rs[k].1.as_str());
        let n = rs[k].1.as_str().unicode_len();
        let ghost before = out@;
        out.push(Piece { text, style: bg.patch(rs[k].0), link: None, search: false, plain_start: rel, hard_break: false });
        proof {
            assert(piece_v(out@[k as int]) == run_pieces(rs@, bg, start)[k as int]);
            assert forall|q: int| 0 <= q < k + 1 implies #[trigger] pieces_v(out@)[q] == run_pieces(rs@, bg, start)[q] by {
                assert(pieces_v(out@)[q] == piece_v(out@[q]));
                if q < k {
                    assert(out@[q] == before[q]);
                    assert(pieces_v(before)[q] == piece_v(before[q]));
                }
            }
        }
        rel = rel.saturating_add(n);
        k += 1;
    }
    assert(pieces_v(out@) =~= run_pieces(rs@, bg, start));
    out
}

/// The pieces with their search hits drawn in the search style.
fn mark_hits(ps: &Vec<Piece>, hit: Style) -> (out: Vec<Piece>)
    ensures
        pieces_v(out@) == pieces_v(ps@).map_values(|p: PieceV| hit_styled(p, hit)),
{
    let mut out: Vec<Piece> = Vec::new();
    let mut k: usize = 0;
    while k < ps.len()
        invariant
            k <= ps@.len(),
            out@.len() == k,
            forall|q: int| 0 <= q < k ==> #[trigger] piece_v(out@[q]) == hit_styled(piece_v(ps@[q]), hit),
        decreases ps@.len() - k,
    {
        let p = &ps[k];
        let style = if p.search { p.style.patch(hit) } else { p.style };
        out.push(Piece {
            text: to_owned(p.text.as_str()),
            style,
            link: p.link,
            search: p.search,
            plain_start: p.plain_start,
            hard_break: p.hard_break,
        });
        k += 1;
    }
    assert(pieces_v(out@) =~= pieces_v(ps@).map_values(|p: PieceV| hit_styled(p, hit)));
    out
}

/// A code line hard broken (see [`code_wrap_upto`]).
fn code_wrap(ps: &Vec<Piece>, avail: usize, cont: usize) -> (out: Vec<Vec<StyledSpan>>)
    requires
        avail >= 1,
        cont >= 1,
        forall|k: int| 0 <= k < ps@.len() ==> fits((#[trigger] ps@[k]).text@),
    ensures
        lines_view(out@) == ({
            let st = code_wrap_upto(pieces_v(ps@), ps@.len() as int, avail, cont);
            st.0.push(st.1)
        }),
{
    let mut lines: Vec<Vec<StyledSpan>> = Vec::new();
    let mut cur: Vec<StyledSpan> = Vec::new();
    let mut cur_w: usize = 0;
    let mut k: usize = 0;
    proof {
        assert(lines_view(lines@) =~= Seq::<LineV>::empty());
        assert(line_view(cur@) =~= Seq::<(Seq<char>, Style, Option<LinkId>, bool)>::empty());
    }
    while k < ps.len()
        invariant
            k <= ps@.len(),
            avail >= 1,
            cont >= 1,
            forall|q: int| 0 <= q < ps@.len() ==> fits((#[trigger] ps@[q]).text@),
            forall|i: int, j: int| 0 <= i < lines@.len() && 0 <= j < lines@[i]@.len() ==> (#[trigger] lines@[i]@[j]).text@.len() > 0,
            forall|j: int| 0 <= j < cur@.len() ==> (#[trigger] cur@[j]).text@.len() > 0,
            (lines_view(lines@), line_view(cur@), cur_w) == code_wrap_upto(pieces_v(ps@), k as int, avail, cont),
        decreases ps@.len() - k,
    {
        let p = &ps[k];
        assert(pieces_v(ps@)[k as int] == piece_v(*p));
        let a = if lines.len() == 0 { avail } else { cont };
        place_word(&mut lines, &mut cur, &mut cur_w, &p.text, a, (p.style, None, p.search), cont);
        k += 1;
    }
    let ghost before = lines@;
    let ghost last = cur@;
    lines.push(cur);
    proof {
        assert(lines_view(lines@) =~= lines_view(before).push(line_view(last)));
    }
    lines
}

/// A code line on one line (see [`code_unwrapped`]).
fn code_one_line(ps: &Vec<Piece>) -> (out: Vec<StyledSpan>)
    ensures
        line_view(out@) == code_unwrapped(pieces_v(ps@), ps@.len() as int),
{
    let mut line: Vec<StyledSpan> = Vec::new();
    let mut k: usize = 0;
    proof {
        assert(line_view(line@) =~= Seq::<(Seq<char>, Style, Option<LinkId>, bool)>::empty());
    }
    while k < ps.len()
        invariant
            k <= ps@.len(),
            line_view(line@) == code_unwrapped(pieces_v(ps@), k as int),
        decreases ps@.len() - k,
    {
        let p = &ps[k];
        assert(pieces_v(ps@)[k as int] == piece_v(*p));
        push_span(&mut line, p.text.as_str(), p.style, None, p.search);
        k += 1;
    }
    line
}

/// The saturating width of a line (see [`sat_width`]).
pub(crate) fn line_sat_width(l: &Vec<StyledSpan>) -> (w: usize)
    ensures
        w == sat_width(line_view(l@)),
{
    let mut w: usize = 0;
    let mut k: usize = 0;
    while k < l.len()
        invariant
            k <= l@.len(),
            w == sat_width(line_view(l@.take(k as int))),
        decreases l@.len() - k,
    {
        let t = l[k].text.as_str();
        let n = t.unicode_len();
        proof {
            assert(line_view(l@.take(k + 1)).drop_last() =~= line_view(l@.take(k as int)));
            assert(line_view(l@.take(k + 1)).last() == span_view(l@[k as int]));
        }
        if n <= usize::MAX / 8 {
            w = w.saturating_add(width(t));
        } else {
            w = usize::MAX;
        }
        k += 1;
    }
    assert(l@.take(l@.len() as int) =~= l@);
    w
}

/// The gutter of a sub-line (see [`gutter_spec`]).
fn gutter(idx: usize, sub: usize, nw: usize, opts: &CodeOptions, style: Style) -> (out: Vec<StyledSpan>)
    requires
        idx < usize::MAX,
    ensures
        line_view(out@) == gutter_spec(idx as int, sub as int, nw, *opts, style),
{
    let mut line: Vec<StyledSpan> = Vec::new();
    proof {
        assert(line_view(line@) =~= Seq::<(Seq<char>, Style, Option<LinkId>, bool)>::empty());
    }
    let bar = if opts.unicode { "\u{258f}" } else { "|" };
    proof {
        reveal_strlit("\u{258f}");
        reveal_strlit("|");
    }
    let ghost bar_v: Seq<char> = if opts.unicode { seq!['\u{258f}'] } else { seq!['|'] };
    assert(bar@ == bar_v);
    if opts.line_numbers {
        let label = if sub == 0 {
            let num = decimal_string((idx + 1) as u64);
            proof {
                lemma_decimal_len((idx + 1) as nat);
            }
            pad_left_to_width(num.as_str(), nw)
        } else {
            let mut s = String::new();
            push_spaces(&mut s, nw);
            assert(s@ =~= spaces(nw as nat));
            s
        };
        assert(label@ == (if sub == 0 { pad_left_spec(decimal((idx + 1) as nat), nw) } else { spaces(nw as nat) }));
        push_span(&mut line, label.as_str(), style, None, false);
        let mut sep = String::new();
        push_char(&mut sep, ' ');
        push_str(&mut sep, bar);
        push_char(&mut sep, ' ');
        proof {
            assert(sep@ == seq![' '] + bar@ + seq![' ']);
        }
        push_span(&mut line, sep.as_str(), style, None, false);
    } else {
        let mut sep = to_owned(bar);
        push_char(&mut sep, ' ');
        proof {
            assert(sep@ == bar@ + seq![' ']);
        }
        push_span(&mut line, sep.as_str(), style, None, false);
    }
    line
}

/// Pieces whose texts fit keep texts that fit once the matches are applied
/// and the hits styled.
proof fn lemma_code_pieces_fit(base: Seq<PieceV>, ms: Seq<(usize, usize)>, hit: Style)
    requires
        forall|k: int| 0 <= k < base.len() ==> fits((#[trigger] base[k]).0),
    ensures
        forall|k: int| 0 <= k < matched_upto(base, ms, base.len() as int).len() ==> fits(
            (#[trigger] matched_upto(base, ms, base.len() as int)[k]).0,
        ),
{
    lemma_matched_fit(base, ms, base.len() as int);
}

pub proof fn lemma_matched_fit(base: Seq<PieceV>, ms: Seq<(usize, usize)>, n: int)
    requires
        0 <= n <= base.len(),
        forall|k: int| 0 <= k < base.len() ==> fits((#[trigger] base[k]).0),
    ensures
        forall|k: int| 0 <= k < matched_upto(base, ms, n).len() ==> fits((#[trigger] matched_upto(base, ms, n)[k]).0),
    decreases n,
{
    if n > 0 {
        lemma_matched_fit(base, ms, n - 1);
        let p = base[n - 1];
        let prev = matched_upto(base, ms, n - 1);
        let part = piece_matched(p, ms);
        assert forall|k: int| 0 <= k < part.len() implies fits((#[trigger] part[k]).0) by {
            let s = p.4 as int;
            if !(p.0.len() == 0 || s + p.0.len() > usize::MAX || !any_overlap(ms, s, s + p.0.len())) {
                lemma_cut_fit(p, ms, 0, k);
            }
        }
        assert forall|k: int| 0 <= k < matched_upto(base, ms, n).len() implies fits(
            (#[trigger] matched_upto(base, ms, n)[k]).0,
        ) by {
            if k < prev.len() {
                assert(matched_upto(base, ms, n)[k] == prev[k]);
            } else {
                assert(matched_upto(base, ms, n)[k] == part[k - prev.len()]);
            }
        }
    }
}

proof fn lemma_cut_fit(p: PieceV, ms: Seq<(usize, usize)>, i: int, k: int)
    requires
        fits(p.0),
        0 <= i,
        0 <= k < cut_from(p, ms, i).len(),
    ensures
        fits(cut_from(p, ms, i)[k].0),
    decreases p.0.len() - i,
{
    let len = p.0.len() as int;
    let s = p.4 as int;
    if i < len {
        let j = next_cut(ms, s, len, i + 1);
        lemma_next_cut(ms, s, len, i + 1);
        if k > 0 {
            lemma_cut_fit(p, ms, j, k - 1);
        }
    }
}

/// Lays out the highlighted lines `runs` of a code block whose text is
/// `code` (see [`code_lines_upto`]): each line behind a gutter (a bar, or
/// right-aligned line numbers and a bar), hard broken with a continuation
/// indent when wrapping, with the search matches of the code marked, and
/// padded with the code background to the full width (at least 4). The
/// runs are the block's lines with tabs expanded (see [`plain_lines`] or
/// a highlighter); the code gives each line's position for the matches,
/// which are not marked on a line that had a tab.
pub fn layout_code_lines(
    code: &str,
    runs: &Vec<Vec<(Style, String)>>,
    theme: &Theme,
    opts: &CodeOptions,
    width: usize,
    matches: &Vec<(usize, usize)>,
) -> (out: Vec<Vec<StyledSpan>>)
    requires
        forall|i: int, k: int| 0 <= i < runs@.len() && 0 <= k < runs@[i]@.len() ==> fits((#[trigger] runs@[i]@[k]).1@),
    ensures
        lines_view(out@) == code_lines_upto(code@, runs@, runs@.len() as int, *theme, *opts, width, matches@),
{
    let w: usize = if width < 4 { 4 } else { width };
    let total = runs.len();
    let nw: usize = if opts.line_numbers {
        proof {
            lemma_decimal_len(total as nat);
        }
        decimal_string(total as u64).as_str().unicode_len()
    } else {
        0
    };
    let gw: usize = if opts.line_numbers { nw.saturating_add(3) } else { 2 };
    let avail: usize = if w.saturating_sub(gw) < 1 { 1 } else { w.saturating_sub(gw) };
    let cont: usize = if avail.saturating_sub(CONTINUATION_INDENT) < 1 { 1 } else { avail.saturating_sub(CONTINUATION_INDENT) };
    proof {
        let g = code_geometry(runs@.len(), *opts, width);
        assert(g == (nw, gw, avail, cont));
    }
    let raw = lines(code);
    let info = raw_line_info(&raw);
    let ghost rv = raw@.map_values(|l: Vec<char>| l@);
    assert(rv == lines_of(code@));
    let bg = theme.code_bg;
    let gstyle = theme.code_bg.patch(theme.quote_gutter);
    let mut out: Vec<Vec<StyledSpan>> = Vec::new();
    let mut idx: usize = 0;
    proof {
        assert(lines_view(out@) =~= Seq::<LineV>::empty());
    }
    while idx < runs.len()
        invariant
            idx <= runs@.len(),
            runs@.len() <= usize::MAX,
            w == (if width < 4 { 4 } else { width }),
            (nw, gw, avail, cont) == code_geometry(runs@.len(), *opts, width),
            avail >= 1,
            cont >= 1,
            rv == lines_of(code@),
            rv == raw@.map_values(|l: Vec<char>| l@),
            info@.len() == raw@.len(),
            forall|k: int| 0 <= k < raw@.len() ==> (#[trigger] info@[k]).0 == line_start(rv, k) && info@[k].1
                == raw@[k]@.contains('\t'),
            bg == theme.code_bg,
            gstyle == style_patch(theme.code_bg, theme.quote_gutter),
            forall|i: int, k: int| 0 <= i < runs@.len() && 0 <= k < runs@[i]@.len() ==> fits((#[trigger] runs@[i]@[k]).1@),
            lines_view(out@) == code_lines_upto(code@, runs@, idx as int, *theme, *opts, width, matches@),
        decreases runs@.len() - idx,
    {
        let (start, has_tab) = if idx < info.len() { info[idx] } else { (0, true) };
        proof {
            if idx < info@.len() {
                assert(rv[idx as int] == raw@[idx as int]@);
            }
        }
        let base = build_pieces(&runs[idx], bg, start);
        let ghost bv = pieces_v(base@);
        proof {
            assert forall|k: int| 0 <= k < bv.len() implies fits((#[trigger] bv[k]).0) by {
                assert(bv[k].0 == runs@[idx as int]@[k].1@);
            }
        }
        let ps = if has_tab || matches.len() == 0 {
            base
        } else {
            proof {
                lemma_code_pieces_fit(bv, matches@, theme.search_match);
            }
            apply_matches(&base, matches)
        };
        let marked = mark_hits(&ps, theme.search_match);
        let ghost pv = pieces_v(marked@);
        assert(pv == code_pieces(code@, runs@[idx as int]@, idx as int, *theme, matches@));
        proof {
            assert forall|k: int| 0 <= k < marked@.len() implies fits((#[trigger] marked@[k]).text@) by {
                assert(pv[k] == piece_v(marked@[k]));
                assert(pieces_v(ps@)[k] == piece_v(ps@[k]));
            }
        }
        let content = if opts.wrap {
            code_wrap(&marked, avail, cont)
        } else {
            let one = code_one_line(&marked);
            let ghost lv = line_view(one@);
            let v = vec![one];
            assert(lines_view(v@) =~= seq![lv]);
            v
        };
        let ghost cv = lines_view(content@);
        assert(cv == code_content(pv, opts.wrap, avail, cont));
        let ghost target = code_block_lines(code@, runs@, idx as int, *theme, *opts, width, matches@);
        let ghost before = lines_view(out@);
        let mut sub: usize = 0;
        while sub < content.len()
            invariant
                sub <= content@.len(),
                idx < runs@.len(),
                idx < usize::MAX,
                cv == lines_view(content@),
                target.len() == content@.len(),
                forall|q: int| 0 <= q < content@.len() ==> #[trigger] target[q] == code_line_spec(
                    gutter_spec(idx as int, q, nw, *opts, gstyle),
                    q,
                    cv[q],
                    bg,
                    w,
                ),
                lines_view(out@) == before + target.take(sub as int),
            decreases content@.len() - sub,
        {
            let mut line = gutter(idx, sub, nw, opts, gstyle);
            if sub > 0 {
                let mut ind = String::new();
                push_spaces(&mut ind, CONTINUATION_INDENT);
                push_span(&mut line, ind.as_str(), bg, None, false);
            }
            let ghost l1 = line_view(line@);
            let row = &content[sub];
            let mut j: usize = 0;
            while j < row.len()
                invariant
                    j <= row@.len(),
                    line_view(line@) == l1 + line_view(row@.take(j as int)),
                decreases row@.len() - j,
            {
                push_copy(&mut line, &row[j]);
                proof {
                    assert(line_view(row@.take(j + 1)) =~= line_view(row@.take(j as int)).push(span_view(row@[j as int])));
                }
                j += 1;
            }
            proof {
                assert(row@.take(row@.len() as int) =~= row@);
                assert(cv[sub as int] == line_view(row@));
            }
            let lw = line_sat_width(&line);
            if lw < w {
                let mut pad = String::new();
                push_spaces(&mut pad, w - lw);
                push_span(&mut line, pad.as_str(), bg, None, false);
            }
            let ghost done = line_view(line@);
            assert(done == target[sub as int]);
            let ghost out_before = out@;
            out.push(line);
            proof {
                assert(lines_view(out@) =~= lines_view(out_before).push(done));
                assert(target.take(sub + 1) =~= target.take(sub as int).push(target[sub as int]));
                assert(lines_view(out@) =~= before + target.take(sub + 1));
            }
            sub += 1;
        }
        proof {
            assert(target.take(content@.len() as int) =~= target);
        }
        idx += 1;
    }
    out
}


/// A line with its tabs expanded to the next multiple of `tab_width`
/// (at least one); a line without a tab is unchanged.
pub open spec fn expanded_line(l: Seq<char>, tab_width: usize) -> Seq<char> {
    if l.contains('\t') {
        expand_from(grapheme_clusters(l), if tab_width == 0 { 1 } else { tab_width as nat }, 0)
    } else {
        l
    }
}

/// Every line of `code` can be measured and expanded.
pub open spec fn lines_expandable(code: Seq<char>, tab_width: usize) -> bool {
    forall|k: int|
        0 <= k < lines_of(code).len() ==> fits(#[trigger] lines_of(code)[k]) && (lines_of(code)[k].contains('\t')
            ==> lines_of(code)[k].len() * (tab_width + 4) <= usize::MAX)
}

/// The lines of `code` as unhighlighted runs: one run per line, tabs
/// expanded, in the code style.
pub fn plain_lines(code: &str, theme: &Theme, tab_width: usize) -> (out: Vec<Vec<(Style, String)>>)
    requires
        lines_expandable(code@, tab_width),
    ensures
        out@.len() == lines_of(code@).len(),
        forall|k: int|
            0 <= k < out@.len() ==> (#[trigger] out@[k])@.len() == 1 && out@[k]@[0].0 == theme.code && out@[k]@[0].1@
                == expanded_line(lines_of(code@)[k], tab_width),
{
    let raw = lines(code);
    let ghost rv = raw@.map_values(|l: Vec<char>| l@);
    assert(rv == lines_of(code@));
    let mut out: Vec<Vec<(Style, String)>> = Vec::new();
    let mut k: usize = 0;
    while k < raw.len()
        invariant
            k <= raw@.len(),
            rv == raw@.map_values(|l: Vec<char>| l@),
            rv == lines_of(code@),
            lines_expandable(code@, tab_width),
            out@.len() == k,
            forall|q: int|
                0 <= q < k ==> (#[trigger] out@[q])@.len() == 1 && out@[q]@[0].0 == theme.code && out@[q]@[0].1@
                    == expanded_line(rv[q], tab_width),
        decreases raw@.len() - k,
    {
        let line = string_of(raw[k].as_slice());
        assert(rv[k as int] == line@);
        let e = expand_tabs(line.as_str(), tab_width);
        let mut run: Vec<(Style, String)> = Vec::new();
        run.push((theme.code, e));
        out.push(run);
        k += 1;
    }
    out
}


proof fn lemma_unwrapped_text(ps: Seq<PieceV>, k: int)
    requires
        0 <= k <= ps.len(),
    ensures
        line_text(code_unwrapped(ps, k)) == pieces_text(ps.take(k)),
    decreases k,
{
    if k > 0 {
        lemma_unwrapped_text(ps, k - 1);
        let p = ps[k - 1];
        lemma_push_span_text(code_unwrapped(ps, k - 1), p.0, p.1, None, p.3);
        assert(ps.take(k).drop_last() == ps.take(k - 1));
    } else {
        assert(line_text(Seq::<(Seq<char>, Style, Option<LinkId>, bool)>::empty()) == Seq::<char>::empty());
    }
}

proof fn lemma_run_pieces_text(rs: Seq<(Style, String)>, bg: Style, start: usize, k: int)
    requires
        0 <= k <= rs.len(),
    ensures
        pieces_text(run_pieces(rs, bg, start).take(k)) == runs_text(rs.take(k)),
    decreases k,
{
    if k > 0 {
        lemma_run_pieces_text(rs, bg, start, k - 1);
        assert(run_pieces(rs, bg, start).take(k).drop_last() == run_pieces(rs, bg, start).take(k - 1));
        assert(rs.take(k).drop_last() == rs.take(k - 1));
    } else {
        assert(rs.take(0) == Seq::<(Style, String)>::empty());
    }
}

proof fn lemma_hit_styled_text(ps: Seq<PieceV>, hit: Style)
    ensures
        pieces_text(ps.map_values(|p: PieceV| hit_styled(p, hit))) == pieces_text(ps),
    decreases ps.len(),
{
    if ps.len() > 0 {
        lemma_hit_styled_text(ps.drop_last(), hit);
        assert(ps.map_values(|p: PieceV| hit_styled(p, hit)).drop_last() =~= ps.drop_last().map_values(
            |p: PieceV| hit_styled(p, hit),
        ));
    }
}

/// Without wrapping, a code line is drawn on one line that spells out the
/// gutter, then the line's text exactly (search matches only change its
/// look), then blanks.
pub proof fn law_unwrapped_code_line_keeps_its_text(
    code: Seq<char>,
    runs: Seq<Vec<(Style, String)>>,
    idx: int,
    theme: Theme,
    opts: CodeOptions,
    width: usize,
    ms: Seq<(usize, usize)>,
)
    requires
        !opts.wrap,
        0 <= idx < runs.len(),
    ensures
        ({
            let (nw, gw, avail, cont) = code_geometry(runs.len(), opts, width);
            let ls = code_block_lines(code, runs, idx, theme, opts, width, ms);
            let gutter = line_text(gutter_spec(idx, 0, nw, opts, style_patch(theme.code_bg, theme.quote_gutter)));
            &&& ls.len() == 1
            &&& exists|pad: nat| line_text(ls[0]) == gutter + runs_text(runs[idx]@) + spaces(pad)
        }),
{
    let (nw, gw, avail, cont) = code_geometry(runs.len(), opts, width);
    let w: usize = if width < 4 { 4 } else { width };
    let rs = runs[idx]@;
    let raw = lines_of(code);
    let start: usize = if idx < raw.len() { line_start(raw, idx) } else { 0 };
    let has_tab = if idx < raw.len() { raw[idx].contains('\t') } else { true };
    let base = run_pieces(rs, theme.code_bg, start);
    let m = if has_tab || ms.len() == 0 { base } else { matched_upto(base, ms, base.len() as int) };
    let ps = code_pieces(code, rs, idx, theme, ms);
    assert(ps == m.map_values(|p: PieceV| hit_styled(p, theme.search_match)));
    lemma_run_pieces_text(rs, theme.code_bg, start, rs.len() as int);
    assert(base.take(base.len() as int) == base);
    assert(rs.take(rs.len() as int) == rs);
    if !(has_tab || ms.len() == 0) {
        law_matches_keep_the_text(base, ms);
    }
    lemma_hit_styled_text(m, theme.search_match);
    lemma_unwrapped_text(ps, ps.len() as int);
    assert(ps.take(ps.len() as int) == ps);
    let content = code_unwrapped(ps, ps.len() as int);
    assert(line_text(content) == runs_text(rs));
    let gstyle = style_patch(theme.code_bg, theme.quote_gutter);
    let g = gutter_spec(idx, 0, nw, opts, gstyle);
    let l2 = g + content;
    lemma_line_text_concat(g, content);
    let lw = sat_width(l2);
    let ls = code_block_lines(code, runs, idx, theme, opts, width, ms);
    assert(ls[0] == code_line_spec(g, 0, content, theme.code_bg, w));
    if lw < w {
        let pad = (w - lw) as nat;
        lemma_push_span_text(l2, spaces(pad), theme.code_bg, None, false);
        assert(line_text(ls[0]) == line_text(g) + runs_text(rs) + spaces(pad));
    } else {
        assert(line_text(ls[0]) == line_text(g) + runs_text(rs) + spaces(0));
    }
}


/// Every alias of a language leads to the same highlighter token as its
/// short name: the long names, short names and variants of each language
/// agree, and the plain-text names all mean plain text.
pub proof fn law_language_aliases_agree()
    ensures
        token_for("rust"@) == token_for("rs"@) && token_for("rs"@) == "rs"@,
        token_for("bash"@) == token_for("sh"@) && token_for("zsh"@) == token_for("sh"@) && token_for("shell"@)
            == token_for("sh"@) && token_for("console"@) == token_for("sh"@) && token_for("shell-session"@)
            == token_for("sh"@) && token_for("sh"@) == "sh"@,
        token_for("python"@) == token_for("py"@) && token_for("python3"@) == token_for("py"@) && token_for("py"@)
            == "py"@,
        token_for("javascript"@) == token_for("js"@) && token_for("node"@) == token_for("js"@) && token_for("mjs"@)
            == token_for("js"@) && token_for("js"@) == "js"@,
        token_for("typescript"@) == token_for("ts"@) && token_for("tsx"@) == token_for("ts"@) && token_for("ts"@)
            == "ts"@,
        token_for("yml"@) == token_for("yaml"@) && token_for("yaml"@) == "yaml"@,
        token_for("tml"@) == token_for("toml"@) && token_for("toml"@) == "toml"@,
        token_for("jsonc"@) == token_for("json"@) && token_for("json"@) == "json"@,
        token_for("markdown"@) == token_for("md"@) && token_for("mdown"@) == token_for("md"@) && token_for("md"@)
            == "md"@,
        token_for("h"@) == token_for("c"@) && token_for("c"@) == "c"@,
        token_for("c++"@) == token_for("cpp"@) && token_for("cxx"@) == token_for("cpp"@) && token_for("hpp"@)
            == token_for("cpp"@) && token_for("cpp"@) == "cpp"@,
        token_for("golang"@) == token_for("go"@) && token_for("go"@) == "go"@,
        token_for("ruby"@) == token_for("rb"@) && token_for("rb"@) == "rb"@,
        token_for("htm"@) == token_for("html"@) && token_for("html"@) == "html"@,
        token_for("sass"@) == token_for("scss"@) && token_for("scss"@) == "scss"@,
        token_for("svg"@) == token_for("xml"@) && token_for("xml"@) == "xml"@,
        token_for("patch"@) == token_for("diff"@) && token_for("diff"@) == "diff"@,
        token_for("cfg"@) == token_for("ini"@) && token_for("conf"@) == token_for("ini"@) && token_for("ini"@)
            == "ini"@,
        token_for("makefile"@) == token_for("make"@) && token_for("make"@) == "make"@,
        token_for("perl"@) == token_for("pl"@) && token_for("pl"@) == "pl"@,
        token_for("erlang"@) == token_for("erl"@) && token_for("erl"@) == "erl"@,
        token_for("haskell"@) == token_for("hs"@) && token_for("hs"@) == "hs"@,
        token_for("objective-c"@) == token_for("objc"@) && token_for("objc"@) == "m"@,
        token_for("csharp"@) == token_for("cs"@) && token_for("c#"@) == token_for("cs"@) && token_for("cs"@)
            == "cs"@,
        token_for("latex"@) == token_for("tex"@) && token_for("tex"@) == "tex"@,
        token_for("plain"@) == token_for("text"@) && token_for("txt"@) == token_for("text"@) && token_for(""@)
            == token_for("text"@) && token_for("text"@) == "txt"@,
        token_for("java"@) == "java"@ && token_for("php"@) == "php"@ && token_for("css"@) == "css"@ && token_for("sql"@)
            == "sql"@ && token_for("lua"@) == "lua"@,
{
    reveal_strlit("");
    reveal_strlit("bash");
    reveal_strlit("c");
    reveal_strlit("c#");
    reveal_strlit("c++");
    reveal_strlit("cfg");
    reveal_strlit("conf");
    reveal_strlit("console");
    reveal_strlit("cpp");
    reveal_strlit("cs");
    reveal_strlit("csharp");
    reveal_strlit("css");
    reveal_strlit("cxx");
    reveal_strlit("diff");
    reveal_strlit("erl");
    reveal_strlit("erlang");
    reveal_strlit("go");
    reveal_strlit("golang");
    reveal_strlit("h");
    reveal_strlit("haskell");
    reveal_strlit("hpp");
    reveal_strlit("hs");
    reveal_strlit("htm");
    reveal_strlit("html");
    reveal_strlit("ini");
    reveal_strlit("java");
    reveal_strlit("javascript");
    reveal_strlit("js");
    reveal_strlit("json");
    reveal_strlit("jsonc");
    reveal_strlit("latex");
    reveal_strlit("lua");
    reveal_strlit("m");
    reveal_strlit("make");
    reveal_strlit("makefile");
    reveal_strlit("markdown");
    reveal_strlit("md");
    reveal_strlit("mdown");
    reveal_strlit("mjs");
    reveal_strlit("node");
    reveal_strlit("objc");
    reveal_strlit("objective-c");
    reveal_strlit("patch");
    reveal_strlit("perl");
    reveal_strlit("php");
    reveal_strlit("pl");
    reveal_strlit("plain");
    reveal_strlit("py");
    reveal_strlit("python");
    reveal_strlit("python3");
    reveal_strlit("rb");
    reveal_strlit("rs");
    reveal_strlit("ruby");
    reveal_strlit("rust");
    reveal_strlit("sass");
    reveal_strlit("scss");
    reveal_strlit("sh");
    reveal_strlit("shell");
    reveal_strlit("shell-session");
    reveal_strlit("sql");
    reveal_strlit("svg");
    reveal_strlit("tex");
    reveal_strlit("text");
    reveal_strlit("tml");
    reveal_strlit("toml");
    reveal_strlit("ts");
    reveal_strlit("tsx");
    reveal_strlit("txt");
    reveal_strlit("typescript");
    reveal_strlit("xml");
    reveal_strlit("yaml");
    reveal_strlit("yml");
    reveal_strlit("zsh");
    assert("bash"@[0] == 'b' && "bash"@[1] == 'a' && "bash"@[2] == 's' && "bash"@[3] == 'h' && "bash"@.len() == 4);
    assert("c"@[0] == 'c' && "c"@.len() == 1);
    assert("c#"@[0] == 'c' && "c#"@[1] == '#' && "c#"@.len() == 2);
    assert("c++"@[0] == 'c' && "c++"@[1] == '+' && "c++"@[2] == '+' && "c++"@.len() == 3);
    assert("cfg"@[0] == 'c' && "cfg"@[1] == 'f' && "cfg"@[2] == 'g' && "cfg"@.len() == 3);
    assert("conf"@[0] == 'c' && "conf"@[1] == 'o' && "conf"@[2] == 'n' && "conf"@[3] == 'f' && "conf"@.len() == 4);
    assert("console"@[0] == 'c' && "console"@[1] == 'o' && "console"@[2] == 'n' && "console"@[3] == 's' && "console"@[4] == 'o' && "console"@[5] == 'l' && "console"@[6] == 'e' && "console"@.len() == 7);
    assert("cpp"@[0] == 'c' && "cpp"@[1] == 'p' && "cpp"@[2] == 'p' && "cpp"@.len() == 3);
    assert("cs"@[0] == 'c' && "cs"@[1] == 's' && "cs"@.len() == 2);
    assert("csharp"@[0] == 'c' && "csharp"@[1] == 's' && "csharp"@[2] == 'h' && "csharp"@[3] == 'a' && "csharp"@[4] == 'r' && "csharp"@[5] == 'p' && "csharp"@.len() == 6);
    assert("css"@[0] == 'c' && "css"@[1] == 's' && "css"@[2] == 's' && "css"@.len() == 3);
    assert("cxx"@[0] == 'c' && "cxx"@[1] == 'x' && "cxx"@[2] == 'x' && "cxx"@.len() == 3);
    assert("diff"@[0] == 'd' && "diff"@[1] == 'i' && "diff"@[2] == 'f' && "diff"@[3] == 'f' && "diff"@.len() == 4);
    assert("erl"@[0] == 'e' && "erl"@[1] == 'r' && "erl"@[2] == 'l' && "erl"@.len() == 3);
    assert("erlang"@[0] == 'e' && "erlang"@[1] == 'r' && "erlang"@[2] == 'l' && "erlang"@[3] == 'a' && "erlang"@[4] == 'n' && "erlang"@[5] == 'g' && "erlang"@.len() == 6);
    assert("go"@[0] == 'g' && "go"@[1] == 'o' && "go"@.len() == 2);
    assert("golang"@[0] == 'g' && "golang"@[1] == 'o' && "golang"@[2] == 'l' && "golang"@[3] == 'a' && "golang"@[4] == 'n' && "golang"@[5] == 'g' && "golang"@.len() == 6);
    assert("h"@[0] == 'h' && "h"@.len() == 1);
    assert("haskell"@[0] == 'h' && "haskell"@[1] == 'a' && "haskell"@[2] == 's' && "haskell"@[3] == 'k' && "haskell"@[4] == 'e' && "haskell"@[5] == 'l' && "haskell"@[6] == 'l' && "haskell"@.len() == 7);
    assert("hpp"@[0] == 'h' && "hpp"@[1] == 'p' && "hpp"@[2] == 'p' && "hpp"@.len() == 3);
    assert("hs"@[0] == 'h' && "hs"@[1] == 's' && "hs"@.len() == 2);
    assert("htm"@[0] == 'h' && "htm"@[1] == 't' && "htm"@[2] == 'm' && "htm"@.len() == 3);
    assert("html"@[0] == 'h' && "html"@[1] == 't' && "html"@[2] == 'm' && "html"@[3] == 'l' && "html"@.len() == 4);
    assert("ini"@[0] == 'i' && "ini"@[1] == 'n' && "ini"@[2] == 'i' && "ini"@.len() == 3);
    assert("java"@[0] == 'j' && "java"@[1] == 'a' && "java"@[2] == 'v' && "java"@[3] == 'a' && "java"@.len() == 4);
    assert("javascript"@[0] == 'j' && "javascript"@[1] == 'a' && "javascript"@[2] == 'v' && "javascript"@[3] == 'a' && "javascript"@[4] == 's' && "javascript"@[5] == 'c' && "javascript"@[6] == 'r' && "javascript"@[7] == 'i' && "javascript"@[8] == 'p' && "javascript"@[9] == 't' && "javascript"@.len() == 10);
    assert("js"@[0] == 'j' && "js"@[1] == 's' && "js"@.len() == 2);
    assert("json"@[0] == 'j' && "json"@[1] == 's' && "json"@[2] == 'o' && "json"@[3] == 'n' && "json"@.len() == 4);
    assert("jsonc"@[0] == 'j' && "jsonc"@[1] == 's' && "jsonc"@[2] == 'o' && "jsonc"@[3] == 'n' && "jsonc"@[4] == 'c' && "jsonc"@.len() == 5);
    assert("latex"@[0] == 'l' && "latex"@[1] == 'a' && "latex"@[2] == 't' && "latex"@[3] == 'e' && "latex"@[4] == 'x' && "latex"@.len() == 5);
    assert("lua"@[0] == 'l' && "lua"@[1] == 'u' && "lua"@[2] == 'a' && "lua"@.len() == 3);
    assert("m"@[0] == 'm' && "m"@.len() == 1);
    assert("make"@[0] == 'm' && "make"@[1] == 'a' && "make"@[2] == 'k' && "make"@[3] == 'e' && "make"@.len() == 4);
    assert("makefile"@[0] == 'm' && "makefile"@[1] == 'a' && "makefile"@[2] == 'k' && "makefile"@[3] == 'e' && "makefile"@[4] == 'f' && "makefile"@[5] == 'i' && "makefile"@[6] == 'l' && "makefile"@[7] == 'e' && "makefile"@.len() == 8);
    assert("markdown"@[0] == 'm' && "markdown"@[1] == 'a' && "markdown"@[2] == 'r' && "markdown"@[3] == 'k' && "markdown"@[4] == 'd' && "markdown"@[5] == 'o' && "markdown"@[6] == 'w' && "markdown"@[7] == 'n' && "markdown"@.len() == 8);
    assert("md"@[0] == 'm' && "md"@[1] == 'd' && "md"@.len() == 2);
    assert("mdown"@[0] == 'm' && "mdown"@[1] == 'd' && "mdown"@[2] == 'o' && "mdown"@[3] == 'w' && "mdown"@[4] == 'n' && "mdown"@.len() == 5);
    assert("mjs"@[0] == 'm' && "mjs"@[1] == 'j' && "mjs"@[2] == 's' && "mjs"@.len() == 3);
    assert("node"@[0] == 'n' && "node"@[1] == 'o' && "node"@[2] == 'd' && "node"@[3] == 'e' && "node"@.len() == 4);
    assert("objc"@[0] == 'o' && "objc"@[1] == 'b' && "objc"@[2] == 'j' && "objc"@[3] == 'c' && "objc"@.len() == 4);
    assert("objective-c"@[0] == 'o' && "objective-c"@[1] == 'b' && "objective-c"@[2] == 'j' && "objective-c"@[3] == 'e' && "objective-c"@[4] == 'c' && "objective-c"@[5] == 't' && "objective-c"@[6] == 'i' && "objective-c"@[7] == 'v' && "objective-c"@[8] == 'e' && "objective-c"@[9] == '-' && "objective-c"@[10] == 'c' && "objective-c"@.len() == 11);
    assert("patch"@[0] == 'p' && "patch"@[1] == 'a' && "patch"@[2] == 't' && "patch"@[3] == 'c' && "patch"@[4] == 'h' && "patch"@.len() == 5);
    assert("perl"@[0] == 'p' && "perl"@[1] == 'e' && "perl"@[2] == 'r' && "perl"@[3] == 'l' && "perl"@.len() == 4);
    assert("php"@[0] == 'p' && "php"@[1] == 'h' && "php"@[2] == 'p' && "php"@.len() == 3);
    assert("pl"@[0] == 'p' && "pl"@[1] == 'l' && "pl"@.len() == 2);
    assert("plain"@[0] == 'p' && "plain"@[1] == 'l' && "plain"@[2] == 'a' && "plain"@[3] == 'i' && "plain"@[4] == 'n' && "plain"@.len() == 5);
    assert("py"@[0] == 'p' && "py"@[1] == 'y' && "py"@.len() == 2);
    assert("python"@[0] == 'p' && "python"@[1] == 'y' && "python"@[2] == 't' && "python"@[3] == 'h' && "python"@[4] == 'o' && "python"@[5] == 'n' && "python"@.len() == 6);
    assert("python3"@[0] == 'p' && "python3"@[1] == 'y' && "python3"@[2] == 't' && "python3"@[3] == 'h' && "python3"@[4] == 'o' && "python3"@[5] == 'n' && "python3"@[6] == '3' && "python3"@.len() == 7);
    assert("rb"@[0] == 'r' && "rb"@[1] == 'b' && "rb"@.len() == 2);
    assert("rs"@[0] == 'r' && "rs"@[1] == 's' && "rs"@.len() == 2);
    assert("ruby"@[0] == 'r' && "ruby"@[1] == 'u' && "ruby"@[2] == 'b' && "ruby"@[3] == 'y' && "ruby"@.len() == 4);
    assert("rust"@[0] == 'r' && "rust"@[1] == 'u' && "rust"@[2] == 's' && "rust"@[3] == 't' && "rust"@.len() == 4);
    assert("sass"@[0] == 's' && "sass"@[1] == 'a' && "sass"@[2] == 's' && "sass"@[3] == 's' && "sass"@.len() == 4);
    assert("scss"@[0] == 's' && "scss"@[1] == 'c' && "scss"@[2] == 's' && "scss"@[3] == 's' && "scss"@.len() == 4);
    assert("sh"@[0] == 's' && "sh"@[1] == 'h' && "sh"@.len() == 2);
    assert("shell"@[0] == 's' && "shell"@[1] == 'h' && "shell"@[2] == 'e' && "shell"@[3] == 'l' && "shell"@[4] == 'l' && "shell"@.len() == 5);
    assert("shell-session"@[0] == 's' && "shell-session"@[1] == 'h' && "shell-session"@[2] == 'e' && "shell-session"@[3] == 'l' && "shell-session"@[4] == 'l' && "shell-session"@[5] == '-' && "shell-session"@[6] == 's' && "shell-session"@[7] == 'e' && "shell-session"@[8] == 's' && "shell-session"@[9] == 's' && "shell-session"@[10] == 'i' && "shell-session"@[11] == 'o' && "shell-session"@[12] == 'n' && "shell-session"@.len() == 13);
    assert("sql"@[0] == 's' && "sql"@[1] == 'q' && "sql"@[2] == 'l' && "sql"@.len() == 3);
    assert("svg"@[0] == 's' && "svg"@[1] == 'v' && "svg"@[2] == 'g' && "svg"@.len() == 3);
    assert("tex"@[0] == 't' && "tex"@[1] == 'e' && "tex"@[2] == 'x' && "tex"@.len() == 3);
    assert("text"@[0] == 't' && "text"@[1] == 'e' && "text"@[2] == 'x' && "text"@[3] == 't' && "text"@.len() == 4);
    assert("tml"@[0] == 't' && "tml"@[1] == 'm' && "tml"@[2] == 'l' && "tml"@.len() == 3);
    assert("toml"@[0] == 't' && "toml"@[1] == 'o' && "toml"@[2] == 'm' && "toml"@[3] == 'l' && "toml"@.len() == 4);
    assert("ts"@[0] == 't' && "ts"@[1] == 's' && "ts"@.len() == 2);
    assert("tsx"@[0] == 't' && "tsx"@[1] == 's' && "tsx"@[2] == 'x' && "tsx"@.len() == 3);
    assert("txt"@[0] == 't' && "txt"@[1] == 'x' && "txt"@[2] == 't' && "txt"@.len() == 3);
    assert("typescript"@[0] == 't' && "typescript"@[1] == 'y' && "typescript"@[2] == 'p' && "typescript"@[3] == 'e' && "typescript"@[4] == 's' && "typescript"@[5] == 'c' && "typescript"@[6] == 'r' && "typescript"@[7] == 'i' && "typescript"@[8] == 'p' && "typescript"@[9] == 't' && "typescript"@.len() == 10);
    assert("xml"@[0] == 'x' && "xml"@[1] == 'm' && "xml"@[2] == 'l' && "xml"@.len() == 3);
    assert("yaml"@[0] == 'y' && "yaml"@[1] == 'a' && "yaml"@[2] == 'm' && "yaml"@[3] == 'l' && "yaml"@.len() == 4);
    assert("yml"@[0] == 'y' && "yml"@[1] == 'm' && "yml"@[2] == 'l' && "yml"@.len() == 3);
    assert("zsh"@[0] == 'z' && "zsh"@[1] == 's' && "zsh"@[2] == 'h' && "zsh"@.len() == 3);
}

} // verus!
