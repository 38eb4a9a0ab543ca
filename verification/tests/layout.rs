use mdless::layout::code::language_token;
use mdless::layout::list::ordered_label;

#[test]
fn language_aliases() {
    assert_eq!(language_token("rs"), "rs");
    assert_eq!(language_token("Rust"), "rs");
    assert_eq!(language_token("bash"), "sh");
    assert_eq!(language_token("yml"), "yaml");
    assert_eq!(language_token("brainfuck"), "");
    assert_eq!(language_token("rust,ignore should_panic"), "");
    assert_eq!(language_token("rust ignore"), "rs");
}

#[test]
fn ordered_labels_saturate_instead_of_overflowing() {
    assert_eq!(ordered_label(None, 0), "1.");
    assert_eq!(ordered_label(Some(u64::MAX), 0), format!("{}.", u64::MAX));
    assert_eq!(ordered_label(Some(u64::MAX), 3), format!("{}.", u64::MAX));
}

use mdless::config::schema::TableMode;
use mdless::layout::code::CodeOptions;
use mdless::layout::inline::{apply_matches, push_span, wrap_pieces, Piece};
use mdless::layout::list::{bullet, marker, marker_width, task_box};
use mdless::layout::table::{allocate, ColumnMeasure, TableOptions};
use mdless::render::primitives::StyledSpan;
use mdless::render::theme::Style;

fn col(min: usize, preferred: usize, priority: bool) -> ColumnMeasure {
    ColumnMeasure { min, preferred, priority }
}

#[test]
fn allocation_uses_preferred_widths_when_they_fit() {
    assert_eq!(allocate(&vec![col(1, 3, false), col(2, 4, true)], 7), vec![3, 4]);
    assert_eq!(allocate(&vec![col(0, 0, false)], 5), vec![1], "widths are at least one");
    assert_eq!(allocate(&Vec::new(), 5), Vec::<usize>::new());
}

#[test]
fn allocation_returns_minimums_when_they_do_not_fit() {
    assert_eq!(allocate(&vec![col(4, 10, false), col(5, 10, true)], 9), vec![4, 5]);
    assert_eq!(allocate(&vec![col(4, 10, false), col(5, 10, true)], 0), vec![4, 5]);
    assert_eq!(allocate(&vec![col(30, 10, false)], 5), vec![10], "a minimum never exceeds the preferred width");
}

#[test]
fn shrinking_is_proportional_and_adds_up_to_the_room() {
    assert_eq!(allocate(&vec![col(1, 10, false), col(1, 10, false)], 10), vec![5, 5]);
    // 10 columns to take from three slacks of 9: 3 each and one more for the first.
    assert_eq!(allocate(&vec![col(1, 10, false), col(1, 10, false), col(1, 10, false)], 20), vec![6, 7, 7]);
    // The larger slack gives more.
    let w = allocate(&vec![col(2, 20, false), col(2, 6, false)], 16);
    assert_eq!(w.iter().sum::<usize>(), 16);
    assert_eq!(w, vec![11, 5], "the rounding remainder goes to the larger slack");
}

#[test]
fn numeric_and_code_columns_give_way_in_allocation() {
    assert_eq!(allocate(&vec![col(1, 10, false), col(1, 10, true)], 12), vec![2, 10]);
    assert_eq!(allocate(&vec![col(1, 10, false), col(1, 10, true)], 5), vec![1, 4]);
}

#[test]
fn table_and_code_defaults() {
    let t = TableOptions::default();
    assert_eq!(t.mode, TableMode::Auto);
    assert_eq!(t.max_column_width, 60);
    assert!(t.unicode);
    let c = CodeOptions::default();
    assert!(!c.wrap && !c.line_numbers && c.unicode && !c.lazy);
    assert_eq!(c.tab_width, 4);
}

#[test]
fn list_markers() {
    assert_eq!(bullet(0, true), "•");
    assert_eq!(bullet(1, true), "◦");
    assert_eq!(bullet(2, true), "▪");
    assert_eq!(bullet(3, true), "•");
    assert_eq!(bullet(1, false), "*");
    assert_eq!(task_box(true, true), "☑");
    assert_eq!(task_box(false, false), "[ ]");
    assert_eq!(marker(false, None, 0, 0, true, 0), "• ");
    assert_eq!(marker(true, Some(9), 0, 0, true, 4), "9.  ");
    assert_eq!(marker(true, Some(9), 1, 0, true, 4), "10. ");
    assert_eq!(marker_width(true, Some(9), 2, true), 4);
    assert_eq!(marker_width(false, None, 2, true), 2);
}

fn piece(text: &str) -> Piece {
    Piece { text: text.to_string(), style: Style::new(), link: None, search: false, plain_start: 0, hard_break: false }
}

fn texts(lines: &[Vec<StyledSpan>]) -> Vec<String> {
    lines.iter().map(|l| l.iter().map(|s| s.text.as_str()).collect()).collect()
}

#[test]
fn pieces_wrap_at_word_boundaries() {
    let lines = wrap_pieces(&vec![piece("the quick brown fox")], 10, 10);
    assert_eq!(texts(&lines), ["the quick", "brown fox"]);
    let lines = wrap_pieces(&vec![piece("aaaa bbbb")], 4, 2);
    assert_eq!(texts(&lines), ["aaaa", "bb", "bb"], "a word wider than the line is hard broken");
    let lines = wrap_pieces(&Vec::new(), 10, 10);
    assert_eq!(lines.len(), 1, "there is always a line");
    assert!(lines[0].is_empty());
}

#[test]
fn hard_breaks_and_styles_in_wrapping() {
    let mut brk = piece("");
    brk.hard_break = true;
    let mut bold = piece("bold");
    bold.style = Style::new().bold();
    let lines = wrap_pieces(&vec![piece("a "), bold, brk, piece("  next")], 20, 20);
    assert_eq!(texts(&lines), ["a bold", "next"]);
    assert_eq!(lines[0].len(), 2);
    assert!(lines[0][1].style.bold);
}

#[test]
fn pushing_spans_merges_equal_looks() {
    let mut line = Vec::new();
    push_span(&mut line, "a", Style::new(), None, false);
    push_span(&mut line, "", Style::new().bold(), None, false);
    push_span(&mut line, "b", Style::new(), None, false);
    push_span(&mut line, "c", Style::new(), Some(3), false);
    assert_eq!(line.len(), 2);
    assert_eq!(line[0].text, "ab");
    assert_eq!(line[1].link, Some(3));
}

#[test]
fn matches_cut_pieces_at_their_ends() {
    let mut p = piece("hello world");
    p.plain_start = 10;
    let out = apply_matches(&vec![p], &vec![(12, 14), (30, 40)]);
    let parts: Vec<(&str, bool, usize)> = out.iter().map(|q| (q.text.as_str(), q.search, q.plain_start)).collect();
    assert_eq!(parts, [("he", false, 10), ("ll", true, 12), ("o world", false, 14)]);
    // No match overlaps: the piece stays whole.
    let out = apply_matches(&vec![piece("abc")], &vec![(5, 9)]);
    assert_eq!(out.len(), 1);
    assert_eq!(out[0].text, "abc");
}
