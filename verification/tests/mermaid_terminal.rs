use mdless::mermaid::parser::parse;
use mdless::mermaid::terminal::{render, wrap_label, NativeError, RenderOptions};
use mdless::util::unicode::width as display_width;

fn draw(src: &str, opts: &RenderOptions) -> Vec<String> {
    render(&parse(src).unwrap(), opts).unwrap()
}

#[test]
fn spec_11_1_golden_output() {
    let out = draw("graph LR\n    A --> B\n    B --> C\n", &RenderOptions::default());
    let trimmed: Vec<String> = out.iter().map(|l| l.trim_end().to_string()).collect();
    assert_eq!(
        trimmed,
        vec![
            "┌───┐     ┌───┐     ┌───┐".to_string(),
            "│ A │ ──▶ │ B │ ──▶ │ C │".to_string(),
            "└───┘     └───┘     └───┘".to_string(),
        ]
    );
}

#[test]
fn all_lines_are_padded_to_equal_width() {
    let out = draw("graph TD\nA[Start] --> B{Choice}\nB --> C[Yes]\nB --> D[No]\n", &RenderOptions::default());
    let widths: Vec<usize> = out.iter().map(|l| display_width(l)).collect();
    assert!(widths.windows(2).all(|w| w[0] == w[1]), "{widths:?}");
}

#[test]
fn never_exceeds_width_cells() {
    let src = "graph LR\nA[a very long label indeed] --> B[another quite long label]\n";
    for width in [20usize, 30, 40, 80, 120] {
        let opts = RenderOptions { width_cells: width, ..RenderOptions::default() };
        if let Ok(out) = render(&parse(src).unwrap(), &opts) {
            assert!(out.iter().all(|l| display_width(l) <= width), "width {width} exceeded");
        }
    }
}

#[test]
fn too_narrow_reports_too_wide() {
    let src = "graph LR\nA --> B --> C --> D --> E --> F\n";
    let opts = RenderOptions { width_cells: 10, ..RenderOptions::default() };
    assert!(matches!(render(&parse(src).unwrap(), &opts), Err(NativeError::TooWide { .. })));
}

#[test]
fn terminal_ascii_fallback() {
    let opts = RenderOptions { unicode_box: false, ..RenderOptions::default() };
    let out = draw("graph LR\nA --> B\n", &opts);
    let joined = out.join("\n");
    assert!(joined.contains("+---+"), "{joined}");
    assert!(joined.contains("| A |"), "{joined}");
    assert!(joined.contains(">"), "{joined}");
    assert!(joined.is_ascii(), "ascii fallback produced non-ascii: {joined}");
}

#[test]
fn ascii_fallback_vertical() {
    let opts = RenderOptions { unicode_box: false, ..RenderOptions::default() };
    let out = draw("graph TD\nA --> B\n", &opts);
    let joined = out.join("\n");
    assert!(joined.contains('v'), "{joined}");
    assert!(joined.contains('|'), "{joined}");
    assert!(joined.is_ascii());
}

#[test]
fn top_down_uses_vertical_connectors() {
    let out = draw("graph TD\nA --> B\n", &RenderOptions::default());
    let joined = out.join("\n");
    assert!(joined.contains('▼'), "{joined}");
}

#[test]
fn right_to_left_points_left() {
    let out = draw("graph RL\nA --> B\n", &RenderOptions::default());
    let joined = out.join("\n");
    assert!(joined.contains('◀'), "{joined}");
}

#[test]
fn rendering_is_deterministic() {
    let src = "graph TD\nA --> B & C\nB --> D\nC --> D\nD --> A\n";
    let a = draw(src, &RenderOptions::default());
    let b = draw(src, &RenderOptions::default());
    assert_eq!(a, b);
    for _ in 0..20 {
        assert_eq!(draw(src, &RenderOptions::default()), a);
    }
}

#[test]
fn cycles_do_not_hang() {
    let out = draw("graph LR\nA --> B\nB --> C\nC --> A\n", &RenderOptions::default());
    assert!(!out.is_empty());
}

#[test]
fn subgraph_note_is_appended() {
    let out = draw("graph LR\nsubgraph s\nA --> B\nend\n", &RenderOptions::default());
    assert!(out.iter().any(|l| l.contains("[note:")), "expected an unsupported-feature note: {out:?}");
}

#[test]
fn empty_diagram_is_an_error() {
    let d = parse("graph LR\n").unwrap();
    assert_eq!(render(&d, &RenderOptions::default()), Err(NativeError::Empty));
}

#[test]
fn edge_labels_are_drawn() {
    let out = draw("graph LR\nA -->|yes| B\n", &RenderOptions::default());
    assert!(out.join("\n").contains("yes"), "{out:?}");
}

#[test]
fn wide_characters_are_measured_correctly() {
    let out = draw("graph LR\nA[日本語] --> B\n", &RenderOptions::default());
    let widths: Vec<usize> = out.iter().map(|l| display_width(l)).collect();
    assert!(widths.windows(2).all(|w| w[0] == w[1]), "{widths:?}");
}

#[test]
fn wrap_label_respects_display_width() {
    assert_eq!(wrap_label("hello world", 5), vec!["hello", "world"]);
    assert_eq!(wrap_label("abcdefgh", 3), vec!["abc", "def", "gh"]);
    assert_eq!(wrap_label("", 5), vec![""]);
}

#[test]
fn shapes_render_distinct_borders() {
    let out = draw(
        "graph LR\nA{d} --> B((c))\nB --> C{{h}}\nC --> D[(y)]\nD --> E([s])\n",
        &RenderOptions { width_cells: 200, ..RenderOptions::default() },
    );
    let j = out.join("\n");
    assert!(j.contains('╱'), "diamond/hexagon corners missing: {j}");
    assert!(j.contains('('), "circle markers missing: {j}");
    assert!(j.contains('═'), "cylinder top missing: {j}");
    assert!(j.contains('╭'), "rounded corners missing: {j}");
}
