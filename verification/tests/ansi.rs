use mdless::render::ansi::{sgr_params, to_ansi_text};
use mdless::render::primitives::{LineKind, RenderLine, RenderTree, StyledSpan};
use mdless::render::theme::{ColorLevel, Style, Theme};

const CSI: &str = "\u{1b}[";
const RESET: &str = "\u{1b}[0m";

/// A tree laid out the way a heading, a blank line and a paragraph with
/// strong and code runs come out of the layout engine.
fn tree(with_code: bool) -> RenderTree {
    let theme = Theme::dark();
    let mut para = vec![
        StyledSpan::new("Some ", theme.text),
        StyledSpan::new("bold", theme.text.patch(theme.strong)),
    ];
    if with_code {
        para.push(StyledSpan::new(" and ", theme.text));
        para.push(StyledSpan::new("code", theme.text.patch(theme.code)));
        para.push(StyledSpan::new(" text.", theme.text));
    } else {
        para.push(StyledSpan::new(" text.", theme.text));
    }
    RenderTree::new(vec![
        RenderLine::new(0, LineKind::Heading(1), vec![StyledSpan::new("Title", theme.heading(1))]),
        RenderLine::new(1, LineKind::Blank, Vec::new()),
        RenderLine::new(2, LineKind::Text, para),
    ])
}

fn strip(s: &str) -> String {
    let mut out = String::new();
    let mut rest = s;
    while let Some(i) = rest.find('\u{1b}') {
        out.push_str(&rest[..i]);
        let after = &rest[i..];
        match after.find('m') {
            Some(end) => rest = &after[end + 1..],
            None => return out,
        }
    }
    out.push_str(rest);
    out
}

#[test]
fn no_color_is_byte_identical_to_plain_text() {
    let t = tree(false);
    assert_eq!(to_ansi_text(&t, ColorLevel::NoColor), t.to_plain_text());
}

#[test]
fn colored_output_is_balanced_and_keeps_the_text() {
    let t = tree(true);
    let out = to_ansi_text(&t, ColorLevel::TrueColor);
    assert!(out.contains('\u{1b}'), "escapes are emitted: {out:?}");
    let opens = out.matches(CSI).count() - out.matches(RESET).count();
    assert_eq!(opens, out.matches(RESET).count(), "every SGR is reset");
    assert_eq!(strip(&out), t.to_plain_text());
}

#[test]
fn ansi16_uses_palette_indices_only() {
    let theme = Theme::dark();
    let t = RenderTree::new(vec![RenderLine::new(0, LineKind::Heading(1), vec![StyledSpan::new("Title", theme.heading(1))])]);
    let out = to_ansi_text(&t, ColorLevel::Ansi16);
    assert!(out.contains("38;5;"), "{out:?}");
    assert!(!out.contains("38;2;"), "no 24-bit colour at ansi16: {out:?}");
}

#[test]
fn a_style_without_attributes_emits_nothing() {
    assert_eq!(sgr_params(Style::new(), ColorLevel::TrueColor), None);
    assert_eq!(sgr_params(Style::new().bold(), ColorLevel::NoColor), Some("1".into()));
}
