use mdless::layout::code::{layout_code_lines, plain_lines, CodeOptions};
use mdless::render::primitives::StyledSpan;
use mdless::render::theme::Theme;

fn lay(code: &str, opts: &CodeOptions, width: usize) -> Vec<Vec<StyledSpan>> {
    let theme = Theme::dark();
    let runs = plain_lines(code, &theme, opts.tab_width);
    layout_code_lines(code, &runs, &theme, opts, width, &Vec::new())
}

fn text(lines: &[Vec<StyledSpan>]) -> Vec<String> {
    lines
        .iter()
        .map(|l| l.iter().map(|s| s.text.as_str()).collect::<String>().trim_end().to_string())
        .collect()
}

fn line_width(l: &[StyledSpan]) -> usize {
    l.iter().map(|s| mdless::util::unicode::width(&s.text)).sum()
}

#[test]
fn unknown_language_is_plain_not_an_error() {
    let lines = lay("let x = 1;\n", &CodeOptions::default(), 40);
    assert_eq!(text(&lines), ["▏ let x = 1;"]);
}

#[test]
fn line_numbers_gutter() {
    let opts = CodeOptions { line_numbers: true, ..CodeOptions::default() };
    let lines = lay("a\nb\n", &opts, 40);
    assert_eq!(text(&lines), ["1 ▏ a", "2 ▏ b"]);
}

#[test]
fn no_wrap_emits_full_width_lines() {
    let long = "x".repeat(100);
    let lines = lay(&format!("{long}\n"), &CodeOptions::default(), 20);
    assert_eq!(lines.len(), 1);
    assert_eq!(line_width(&lines[0]), 102, "true width is reported for horizontal scrolling");
}

#[test]
fn wrap_mode_breaks_with_continuation_indent() {
    let long = "x".repeat(50);
    let opts = CodeOptions { wrap: true, ..CodeOptions::default() };
    let lines = lay(&format!("{long}\n"), &opts, 20);
    assert!(lines.len() > 2);
    for l in &lines {
        assert_eq!(line_width(l), 20, "wrapped lines are padded to the block width");
    }
    assert!(text(&lines)[1].starts_with("▏   "), "continuation indent");
    let joined: String = text(&lines).iter().map(|l| l.trim_start_matches('▏').trim().to_string()).collect();
    assert_eq!(joined, long);
}

#[test]
fn tabs_are_expanded() {
    let opts = CodeOptions { tab_width: 4, ..CodeOptions::default() };
    assert_eq!(text(&lay("\tindented\n", &opts, 40)), ["▏     indented"]);
    let opts8 = CodeOptions { tab_width: 8, ..CodeOptions::default() };
    assert_eq!(text(&lay("\tindented\n", &opts8, 40)), ["▏         indented"]);
}

#[test]
fn ascii_fallback_gutter() {
    let opts = CodeOptions { unicode: false, ..CodeOptions::default() };
    assert_eq!(text(&lay("a\n", &opts, 40)), ["| a"]);
}

#[test]
fn empty_and_zero_width_do_not_panic() {
    for w in [0usize, 1, 2, 3, 4] {
        let _ = lay("", &CodeOptions::default(), w);
        let opts = CodeOptions { wrap: true, line_numbers: true, ..CodeOptions::default() };
        let _ = lay("some code here\n", &opts, w);
    }
}

#[test]
fn every_line_is_padded_to_at_least_four_columns() {
    let lines = lay("a\n", &CodeOptions::default(), 0);
    assert_eq!(line_width(&lines[0]), 4);
}

#[test]
fn search_matches_are_flagged_but_not_on_lines_with_tabs() {
    let theme = Theme::dark();
    let code = "abc\n\tabc\n";
    let runs = plain_lines(code, &theme, 4);
    // "abc" at 0..3 on the first line, at 5..8 on the second (after its tab).
    let lines = layout_code_lines(code, &runs, &theme, &CodeOptions::default(), 40, &vec![(1, 2), (6, 7)]);
    let hits: Vec<&str> = lines[0].iter().filter(|s| s.search_match).map(|s| s.text.as_str()).collect();
    assert_eq!(hits, ["b"]);
    assert!(lines[1].iter().all(|s| !s.search_match));
}
