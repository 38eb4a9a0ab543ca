use mdless::layout::table::{allocate, column_count, measure_columns, Alignment, ColumnMeasure, Table, TableCell};

fn cell(s: &str) -> TableCell {
    TableCell { text: s.to_string(), code: false }
}

fn code(s: &str) -> TableCell {
    TableCell { text: s.to_string(), code: true }
}

#[test]
fn column_count_tolerates_ragged_rows() {
    let t = Table {
        header: vec![cell("a"), cell("b")],
        rows: vec![vec![cell("1")], vec![cell("1"), cell("2"), cell("3")]],
        alignments: vec![Alignment::NoAlign],
    };
    assert_eq!(column_count(&t), 3);
    let empty = Table { header: vec![], rows: vec![], alignments: vec![] };
    assert_eq!(column_count(&empty), 0);
    assert!(measure_columns(&empty, 60).is_empty());
}

#[test]
fn measures_widths_and_numeric_columns() {
    let t = Table {
        header: vec![cell("Name"), cell("Count"), cell("Id")],
        rows: vec![
            vec![cell("a fairly long description"), cell("4711"), code("alpha")],
            vec![cell("short"), cell("12"), code("beta_gamma")],
        ],
        alignments: vec![],
    };
    let ms = measure_columns(&t, 60);
    assert_eq!(ms[0], ColumnMeasure { min: 11, preferred: 25, priority: false });
    assert_eq!(ms[1], ColumnMeasure { min: 5, preferred: 5, priority: true });
    assert_eq!(ms[2], ColumnMeasure { min: 10, preferred: 10, priority: true });
    let capped = measure_columns(&t, 8);
    assert_eq!(capped[0], ColumnMeasure { min: 8, preferred: 8, priority: false });
}

#[test]
fn a_blank_column_is_not_priority() {
    let t = Table { header: vec![cell("h")], rows: vec![vec![cell(" ")]], alignments: vec![] };
    let ms = measure_columns(&t, 60);
    assert_eq!(ms[0], ColumnMeasure { min: 1, preferred: 1, priority: true });
    let t = Table { header: vec![], rows: vec![vec![cell(" ")]], alignments: vec![] };
    let ms = measure_columns(&t, 60);
    assert_eq!(ms[0], ColumnMeasure { min: 1, preferred: 1, priority: false });
}

#[test]
fn allocation_is_proportional_and_shrinks_priority_last() {
    let ms = vec![
        ColumnMeasure { min: 2, preferred: 12, priority: false },
        ColumnMeasure { min: 2, preferred: 7, priority: false },
        ColumnMeasure { min: 3, preferred: 5, priority: true },
    ];
    // Excess 6 over slacks 10 and 5: floor shares 4 and 2.
    assert_eq!(allocate(&ms, 18), vec![8, 5, 5]);
    // Excess 16 over ordinary slack 15: ordinary columns at minimum, one
    // taken from the numeric column.
    assert_eq!(allocate(&ms, 8), vec![2, 2, 4]);
}
