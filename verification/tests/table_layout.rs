use mdless::config::schema::TableMode;
use mdless::layout::table::{layout_table, Alignment, Table, TableCell, TableOptions};
use mdless::render::theme::Theme;
use mdless::util::unicode::width;

fn cell(s: &str) -> TableCell {
    TableCell { text: s.to_string(), code: false }
}

fn code(s: &str) -> TableCell {
    TableCell { text: s.to_string(), code: true }
}

fn table(header: &[&str], aligns: Vec<Alignment>, rows: &[&[&str]]) -> Table {
    Table {
        header: header.iter().map(|s| cell(s)).collect(),
        rows: rows.iter().map(|r| r.iter().map(|s| cell(s)).collect()).collect(),
        alignments: aligns,
    }
}

fn small() -> Table {
    table(&["a", "b"], vec![Alignment::NoAlign, Alignment::NoAlign], &[&["1", "22"]])
}

fn wide() -> Table {
    Table {
        header: vec![cell("Identifier"), cell("Type"), cell("Count"), cell("Description")],
        rows: vec![
            vec![
                code("alpha"),
                cell("string"),
                cell("12"),
                cell("A fairly long description that needs wrapping in narrow terminals"),
            ],
            vec![code("beta"), cell("integer"), cell("4711"), cell("Short")],
        ],
        alignments: vec![Alignment::NoAlign, Alignment::Right, Alignment::NoAlign, Alignment::NoAlign],
    }
}

fn render(t: &Table, opts: &TableOptions, w: usize) -> Vec<String> {
    layout_table(t, &Theme::dark(), opts, w, &Vec::new())
        .iter()
        .map(|l| l.iter().map(|s| s.text.as_str()).collect::<String>())
        .collect()
}

fn opts(mode: TableMode) -> TableOptions {
    TableOptions { mode, ..TableOptions::default() }
}

fn column_widths(lines: &[String]) -> Vec<usize> {
    lines
        .first()
        .expect("a top border")
        .trim_matches(|c| c == '┌' || c == '┐')
        .split('┬')
        .map(width)
        .collect()
}

#[test]
fn preferred_widths_when_everything_fits() {
    let lines = render(&small(), &TableOptions::default(), 80);
    assert_eq!(lines[0], "┌───┬────┐");
    assert_eq!(lines[1], "│ a │ b  │");
    assert_eq!(lines[2], "├───┼────┤");
    assert_eq!(lines[3], "│ 1 │ 22 │");
    assert_eq!(lines[4], "└───┴────┘");
}

#[test]
fn every_line_fits_the_width_at_80_and_120() {
    let t = wide();
    for w in [80usize, 120] {
        let lines = render(&t, &TableOptions::default(), w);
        for l in &lines {
            assert!(width(l) <= w, "width {w}: line {:?} is {} wide", l, width(l));
        }
        assert!(lines.len() >= 5);
    }
}

#[test]
fn numeric_and_code_columns_shrink_last() {
    let t = wide();
    let widest = column_widths(&render(&t, &TableOptions::default(), 200));
    for w in [46usize, 48, 60, 80] {
        let lines = render(&t, &TableOptions::default(), w);
        let cols = column_widths(&lines);
        assert_eq!(cols.len(), 4, "width {w}: four columns");
        assert_eq!(cols[0], widest[0], "width {w}: inline-code column kept");
        assert_eq!(cols[2], widest[2], "width {w}: numeric column kept");
        assert!(cols[3] < widest[3], "width {w}: the prose column shrank: {cols:?}");
        assert!(lines.iter().all(|l| width(l) <= w), "width {w}: the table fits");
        for needle in ["alpha", "beta", "4711"] {
            assert!(lines.iter().any(|l| l.contains(needle)), "width {w}: {needle:?} survives intact");
        }
    }
}

#[test]
fn shrinking_never_goes_below_minimum() {
    let t = wide();
    for w in 4usize..=100 {
        let lines = render(&t, &TableOptions::default(), w);
        let cols = column_widths(&lines);
        if lines.iter().all(|l| width(l) <= w) {
            for (i, c) in cols.iter().enumerate() {
                assert!(*c >= 3, "width {w}: column {i} keeps a padded cell of content: {cols:?}");
            }
        } else {
            assert_eq!(
                cols,
                column_widths(&render(&t, &opts(TableMode::Scroll), w)),
                "width {w}: the fallback is the scroll rendering"
            );
        }
    }
}

#[test]
fn max_column_width_is_respected() {
    let o = TableOptions { max_column_width: 10, ..TableOptions::default() };
    let lines = render(&wide(), &o, 120);
    for (i, c) in column_widths(&lines).iter().enumerate() {
        assert!(*c <= 12, "column {i} is capped at 10 plus its padding: {c}");
    }
    assert!(lines.iter().all(|l| width(l) <= 120));
    let body: String = lines.join(" ");
    for word in ["fairly", "wrapping", "terminals"] {
        assert!(body.contains(word), "{word:?} survives the cap: {body}");
    }
}

#[test]
fn scroll_mode_emits_full_width_lines() {
    let lines = render(&wide(), &opts(TableMode::Scroll), 40);
    assert!(lines.iter().any(|l| width(l) > 40), "scroll mode keeps the table wide");
    assert_eq!(lines.len(), 3 + 3);
}

#[test]
fn wrap_mode_always_wraps() {
    let lines = render(&wide(), &opts(TableMode::Wrap), 30);
    assert!(lines.len() > 5, "content wrapped onto several lines");
}

#[test]
fn compact_mode_has_no_outer_borders() {
    let lines = render(&small(), &opts(TableMode::Compact), 40);
    assert_eq!(lines[0], "a  b ");
    assert_eq!(lines[1], "─  ──");
    assert_eq!(lines[2], "1  22");
    assert!(lines.iter().all(|l| !l.contains('│')));
}

#[test]
fn auto_falls_back_to_scroll_when_minimums_do_not_fit() {
    let lines = render(&wide(), &TableOptions::default(), 12);
    assert!(lines.iter().any(|l| width(l) > 12));
}

#[test]
fn table_ascii_fallback() {
    let t = table(&["a", "b"], vec![Alignment::NoAlign, Alignment::NoAlign], &[&["1", "2"]]);
    let o = TableOptions { unicode: false, ..TableOptions::default() };
    let lines = render(&t, &o, 40);
    assert_eq!(lines[0], "+---+---+");
    assert_eq!(lines[1], "| a | b |");
    assert!(lines.iter().all(|l| l.is_ascii()));
}

#[test]
fn ragged_rows_do_not_panic() {
    let mut t = table(&["a", "b", "c"], vec![Alignment::NoAlign; 3], &[&["1", "2", "3"]]);
    t.rows.push(vec![]);
    t.rows.push(vec![cell("1"), cell("1"), cell("1"), cell("1")]);
    t.alignments.clear();
    let lines = render(&t, &TableOptions::default(), 40);
    assert!(lines.iter().all(|l| width(l) <= 40));
    assert!(lines.len() >= 6);
}

#[test]
fn zero_width_terminal_does_not_panic() {
    let t = wide();
    for w in [0usize, 1, 2, 3] {
        let lines = render(&t, &TableOptions::default(), w);
        assert!(!lines.is_empty());
    }
}

#[test]
fn alignment_is_applied() {
    let t = table(&["l", "c", "r"], vec![Alignment::Left, Alignment::Center, Alignment::Right], &[&["a", "b", "c"]]);
    let lines = render(&t, &TableOptions::default(), 40);
    assert_eq!(lines[1], "│ l │ c │ r │");
    let t = table(&["head", "c"], vec![Alignment::Right, Alignment::Center], &[&["x", "y"]]);
    let lines = render(&t, &TableOptions::default(), 40);
    assert_eq!(lines[3], "│    x │ y │");
}

#[test]
fn cjk_cells_are_measured_by_display_width() {
    let t = table(&["名前", "説明"], vec![Alignment::NoAlign; 2], &[&["東京", "首都"]]);
    let lines = render(&t, &TableOptions::default(), 40);
    let w: Vec<usize> = lines.iter().map(|l| width(l)).collect();
    assert!(w.windows(2).all(|x| x[0] == x[1]), "all lines equal width: {w:?}");
}

#[test]
fn a_table_without_columns_draws_nothing() {
    let t = Table { header: vec![], rows: vec![], alignments: vec![] };
    assert!(render(&t, &TableOptions::default(), 40).is_empty());
}

#[test]
fn search_matches_are_flagged_in_cells() {
    // Plain text of the table: "a b\n1 22"; the match covers "22".
    let lines = layout_table(&small(), &Theme::dark(), &TableOptions::default(), 80, &vec![(6, 8)]);
    let hit: Vec<&str> = lines[3].iter().filter(|s| s.search_match).map(|s| s.text.as_str()).collect();
    assert_eq!(hit, ["22"]);
    assert!(lines[1].iter().all(|s| !s.search_match));
}
