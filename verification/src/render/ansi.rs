//! SGR serialisation of a [`RenderTree`] for the non-interactive path
//! (`--color always`).
//!
//! Every span that carries any attribute is written as `CSI <params> m <text>
//! CSI 0 m`, so each opening sequence has its own reset and nothing can leak
//! past the end of a line. Spans with no attributes are written verbatim, so
//! [`ColorLevel::NoColor`] produces output identical to
//! [`RenderTree::to_plain_text`].
use vstd::prelude::*;
use crate::render::primitives::{RenderTree, RenderLine, StyledSpan, plain_text};
use crate::render::theme::{Color, ColorLevel, Style, style_downgrade};
use crate::util::text::{decimal, push_decimal, push_char, push_str, push_chars, chars_of, trim_end_chars, trim_end, string_of};

verus! {

/// `a` followed by `;` and `b`.
pub open spec fn semi(a: Seq<char>, b: Seq<char>) -> Seq<char> {
    a.push(';') + b
}

/// The parameters in `ps` joined with `;`.
pub open spec fn join_params(ps: Seq<Seq<char>>) -> Seq<char>
    decreases ps.len(),
{
    if ps.len() == 0 {
        Seq::empty()
    } else if ps.len() == 1 {
        ps[0]
    } else {
        semi(join_params(ps.drop_last()), ps.last())
    }
}

/// SGR parameters selecting a colour as foreground (38) or background (48).
pub open spec fn color_param(c: Color, background: bool) -> Seq<char> {
    let base: nat = if background { 48 } else { 38 };
    match c {
        Color::Rgb(r, g, b) => semi(
            semi(semi(semi(decimal(base), seq!['2']), decimal(r as nat)), decimal(g as nat)),
            decimal(b as nat),
        ),
        Color::Indexed(i) => semi(semi(decimal(base), seq!['5']), decimal(i as nat)),
    }
}

/// The SGR parameters of an (already downgraded) style, in the order bold,
/// dim, italic, underline, reverse, strikethrough, foreground, background.
pub open spec fn style_params(s: Style) -> Seq<Seq<char>> {
    let p0: Seq<Seq<char>> = Seq::empty();
    let p1 = if s.bold { p0.push(seq!['1']) } else { p0 };
    let p2 = if s.dim { p1.push(seq!['2']) } else { p1 };
    let p3 = if s.italic { p2.push(seq!['3']) } else { p2 };
    let p4 = if s.underline { p3.push(seq!['4']) } else { p3 };
    let p5 = if s.reverse { p4.push(seq!['7']) } else { p4 };
    let p6 = if s.strikethrough { p5.push(seq!['9']) } else { p5 };
    let p7 = match s.fg {
        Some(c) => p6.push(color_param(c, false)),
        None => p6,
    };
    match s.bg {
        Some(c) => p7.push(color_param(c, true)),
        None => p7,
    }
}

/// The SGR parameter string of `style` at `level`, if it has any.
pub open spec fn sgr_spec(style: Style, level: ColorLevel) -> Option<Seq<char>> {
    let ps = style_params(style_downgrade(style, level));
    if ps.len() == 0 {
        None
    } else {
        Some(join_params(ps))
    }
}

fn push_param(params: &mut Vec<String>, p: String)
    ensures
        final(params)@.map_values(|s: String| s@) == old(params)@.map_values(|s: String| s@).push(p@),
{
    let ghost before = params@.map_values(|s: String| s@);
    params.push(p);
    assert(params@.map_values(|s: String| s@) =~= before.push(p@));
}

fn one_char(c: char) -> (s: String)
    ensures
        s@ == seq![c],
{
    let mut s = String::new();
    push_char(&mut s, c);
    s
}

/// SGR parameters selecting `color` as foreground (or background).
pub fn color_params(color: Color, background: bool) -> (s: String)
    ensures
        s@ == color_param(color, background),
{
    let base: u64 = if background { 48 } else { 38 };
    let mut out = String::new();
    push_decimal(&mut out, base);
    match color {
        Color::Rgb(r, g, b) => {
            push_char(&mut out, ';');
            push_char(&mut out, '2');
            push_char(&mut out, ';');
            push_decimal(&mut out, r as u64);
            push_char(&mut out, ';');
            push_decimal(&mut out, g as u64);
            push_char(&mut out, ';');
            push_decimal(&mut out, b as u64);
        },
        Color::Indexed(i) => {
            push_char(&mut out, ';');
            push_char(&mut out, '5');
            push_char(&mut out, ';');
            push_decimal(&mut out, i as u64);
        },
    }
    out
}

/// The SGR parameters of an already downgraded style, one string each.
fn param_list(style: Style) -> (params: Vec<String>)
    ensures
        params@.map_values(|s: String| s@) == style_params(style),
{
    let mut params: Vec<String> = Vec::new();
    let ghost p0: Seq<Seq<char>> = Seq::empty();
    assert(params@.map_values(|s: String| s@) =~= p0);
    if style.bold {
        push_param(&mut params, one_char('1'));
    }
    let ghost p1 = params@.map_values(|s: String| s@);
    assert(p1 == if style.bold { p0.push(seq!['1']) } else { p0 });
    if style.dim {
        push_param(&mut params, one_char('2'));
    }
    let ghost p2 = params@.map_values(|s: String| s@);
    assert(p2 == if style.dim { p1.push(seq!['2']) } else { p1 });
    if style.italic {
        push_param(&mut params, one_char('3'));
    }
    let ghost p3 = params@.map_values(|s: String| s@);
    assert(p3 == if style.italic { p2.push(seq!['3']) } else { p2 });
    if style.underline {
        push_param(&mut params, one_char('4'));
    }
    let ghost p4 = params@.map_values(|s: String| s@);
    assert(p4 == if style.underline { p3.push(seq!['4']) } else { p3 });
    if style.reverse {
        push_param(&mut params, one_char('7'));
    }
    let ghost p5 = params@.map_values(|s: String| s@);
    assert(p5 == if style.reverse { p4.push(seq!['7']) } else { p4 });
    if style.strikethrough {
        push_param(&mut params, one_char('9'));
    }
    let ghost p6 = params@.map_values(|s: String| s@);
    assert(p6 == if style.strikethrough { p5.push(seq!['9']) } else { p5 });
    if let Some(fg) = style.fg {
        push_param(&mut params, color_params(fg, false));
    }
    let ghost p7 = params@.map_values(|s: String| s@);
    assert(p7 == match style.fg { Some(c) => p6.push(color_param(c, false)), None => p6 });
    if let Some(bg) = style.bg {
        push_param(&mut params, color_params(bg, true));
    }
    params
}

/// The strings of `params` joined with `;`.
fn join_semi(params: &Vec<String>) -> (out: String)
    ensures
        out@ == join_params(params@.map_values(|s: String| s@)),
{
    let ghost ps = params@.map_values(|s: String| s@);
    let mut out = String::new();
    let mut i: usize = 0;
    proof {
        assert(ps.take(0).len() == 0);
    }
    while i < params.len()
        invariant
            i <= params@.len(),
            ps == params@.map_values(|s: String| s@),
            out@ == join_params(ps.take(i as int)),
        decreases params@.len() - i,
    {
        if i > 0 {
            push_char(&mut out, ';');
        }
        push_str(&mut out, params[i].as_str());
        i += 1;
        proof {
            let t = ps.take(i as int);
            assert(t.drop_last() == ps.take(i - 1));
            assert(t.last() == ps[i - 1]);
            if i == 1 {
                assert(ps.take(0).len() == 0);
                assert(t.len() == 1);
            }
        }
    }
    assert(ps.take(ps.len() as int) == ps);
    out
}

/// The SGR parameters of `style` at `level`, or `None` when it has none.
///
/// Uses the same [`Style::downgrade`] as the interactive renderer, so a
/// downgraded colour level drops exactly the same attributes on both paths.
pub fn sgr_params(style: Style, level: ColorLevel) -> (out: Option<String>)
    ensures
        match out {
            Some(s) => sgr_spec(style, level) == Some(s@),
            None => sgr_spec(style, level) is None,
        },
{
    let style = style.downgrade(level);
    let params = param_list(style);
    if params.len() == 0 {
        return None;
    }
    Some(join_semi(&params))
}

/// `text` wrapped in the SGR sequence for `style` and a reset, when the style
/// has parameters and the text is not empty; `text` itself otherwise.
pub open spec fn styled_spec(text: Seq<char>, style: Style, level: ColorLevel) -> Seq<char> {
    match sgr_spec(style, level) {
        Some(p) if text.len() > 0 => seq!['\x1b', '['] + p + seq!['m'] + text + seq!['\x1b', '[', '0', 'm'],
        _ => text,
    }
}

/// Wrap `text` in the SGR sequence for `style`, always closing with a reset.
pub fn styled(text: &[char], style: Style, level: ColorLevel) -> (out: String)
    ensures
        out@ == styled_spec(text@, style, level),
{
    match sgr_params(style, level) {
        Some(params) => {
            if text.len() > 0 {
                let mut out = String::new();
                push_char(&mut out, '\x1b');
                push_char(&mut out, '[');
                push_str(&mut out, params.as_str());
                push_char(&mut out, 'm');
                push_chars(&mut out, text);
                push_char(&mut out, '\x1b');
                push_char(&mut out, '[');
                push_char(&mut out, '0');
                push_char(&mut out, 'm');
                out
            } else {
                string_of(text)
            }
        },
        None => string_of(text),
    }
}

/// Index of the last span whose text is not all trailing white space.
pub open spec fn last_visible(ss: Seq<StyledSpan>) -> int
    decreases ss.len(),
{
    if ss.len() == 0 {
        -1
    } else if trim_end(ss.last().text@).len() > 0 {
        ss.len() - 1
    } else {
        last_visible(ss.drop_last())
    }
}

/// The escaped text of the first `k` spans of a line whose last visible span
/// is `last` (that one written without its trailing white space).
pub open spec fn ansi_spans(ss: Seq<StyledSpan>, k: int, last: int, level: ColorLevel) -> Seq<char>
    decreases k,
{
    if k <= 0 {
        Seq::empty()
    } else {
        let s = ss[k - 1];
        let text = if k - 1 == last { trim_end(s.text@) } else { s.text@ };
        ansi_spans(ss, k - 1, last, level) + styled_spec(text, s.style, level)
    }
}

/// One serialised line: its spans up to the last visible one, escaped, and
/// a newline.
pub open spec fn ansi_line(l: RenderLine, level: ColorLevel) -> Seq<char> {
    let last = last_visible(l.spans@);
    ansi_spans(l.spans@, last + 1, last, level).push('\n')
}

/// Serialised lines.
pub open spec fn ansi_lines(lines: Seq<RenderLine>, level: ColorLevel) -> Seq<char>
    decreases lines.len(),
{
    if lines.len() == 0 {
        Seq::empty()
    } else {
        ansi_lines(lines.drop_last(), level) + ansi_line(lines.last(), level)
    }
}

fn last_visible_of(ss: &Vec<StyledSpan>) -> (out: Option<usize>)
    ensures
        match out {
            Some(i) => i == last_visible(ss@) && i < ss@.len(),
            None => last_visible(ss@) == -1,
        },
{
    let mut k = ss.len();
    assert(ss@.take(k as int) == ss@);
    while k > 0
        invariant
            k <= ss@.len(),
            last_visible(ss@) == last_visible(ss@.take(k as int)),
        decreases k,
    {
        let cs = chars_of(ss[k - 1].text.as_str());
        let t = trim_end_chars(cs.as_slice());
        proof {
            assert(ss@.take(k as int).last() == ss@[k - 1]);
            assert(ss@.take(k as int).drop_last() == ss@.take(k - 1));
        }
        if t.len() > 0 {
            return Some(k - 1);
        }
        k -= 1;
    }
    None
}

proof fn lemma_ansi_spans_prefix(ss: Seq<StyledSpan>, k: int, last: int, level: ColorLevel)
    requires
        0 <= k,
    ensures
        k > 0 ==> ansi_spans(ss, k, last, level) == ansi_spans(ss, k - 1, last, level) + styled_spec(
            if k - 1 == last { trim_end(ss[k - 1].text@) } else { ss[k - 1].text@ },
            ss[k - 1].style,
            level,
        ),
{
}

/// Serialise the whole tree with SGR escapes, one line per [`RenderLine`].
///
/// Trailing white space is trimmed exactly as [`RenderTree::to_plain_text`]
/// trims it, so the two serialisers differ only in the escapes.
pub fn to_ansi_text(tree: &RenderTree, level: ColorLevel) -> (out: String)
    ensures
        level == ColorLevel::NoColor ==> out@ == plain_text(tree.lines@),
        level != ColorLevel::NoColor ==> out@ == ansi_lines(tree.lines@, level),
{
    if let ColorLevel::NoColor = level {
        return tree.to_plain_text();
    }
    let mut out = String::new();
    let mut li: usize = 0;
    while li < tree.lines.len()
        invariant
            li <= tree.lines@.len(),
            out@ == ansi_lines(tree.lines@.take(li as int), level),
        decreases tree.lines@.len() - li,
    {
        let line = &tree.lines[li];
        let ghost before = out@;
        let last = last_visible_of(&line.spans);
        let _ns = line.spans.len();
        let ghost lv = last_visible(line.spans@);
        if let Some(last) = last {
            let mut i: usize = 0;
            while i <= last
                invariant
                    i <= last + 1,
                    last < line.spans@.len(),
                    line.spans@.len() <= usize::MAX,
                    last == lv,
                    out@ == before + ansi_spans(line.spans@, i as int, lv, level),
                decreases last + 1 - i,
            {
                let span = &line.spans[i];
                let cs = chars_of(span.text.as_str());
                let s = if i == last {
                    let t = trim_end_chars(cs.as_slice());
                    styled(t.as_slice(), span.style, level)
                } else {
                    styled(cs.as_slice(), span.style, level)
                };
                push_str(&mut out, s.as_str());
                proof {
                    lemma_ansi_spans_prefix(line.spans@, i + 1, lv, level);
                }
                i += 1;
            }
        }
        push_char(&mut out, '\n');
        li += 1;
        proof {
            assert(tree.lines@.take(li as int).drop_last() == tree.lines@.take(li - 1));
            assert(tree.lines@.take(li as int).last() == *line);
            assert(ansi_spans(line.spans@, 0, lv, level) == Seq::<char>::empty());
        }
    }
    assert(tree.lines@.take(tree.lines@.len() as int) == tree.lines@);
    out
}

} // verus!
