use mdless::mermaid::ast::Orientation;
use mdless::mermaid::detect::{diagram_kind, DiagramKind};

#[test]
fn detects_flowchart_orientations() {
    for (src, want) in [
        ("graph LR\nA-->B", Orientation::Lr),
        ("graph RL", Orientation::Rl),
        ("flowchart TD", Orientation::Td),
        ("flowchart TB", Orientation::Td),
        ("graph BT", Orientation::Bt),
        ("graph", Orientation::Td),
        ("graph XX", Orientation::Td),
        ("graph LR;", Orientation::Lr),
        ("flowchart   lr  ", Orientation::Lr),
    ] {
        assert_eq!(diagram_kind(src), DiagramKind::Flowchart { orientation: want }, "source: {src:?}");
    }
}

#[test]
fn skips_comments_and_init_directives() {
    let src = "%%{init: {'theme':'dark'}}%%\n%% a comment\n\n   \nflowchart LR\nA-->B";
    assert_eq!(diagram_kind(src), DiagramKind::Flowchart { orientation: Orientation::Lr });
}

#[test]
fn detects_other_kinds() {
    assert_eq!(diagram_kind("sequenceDiagram\nA->>B: hi"), DiagramKind::Sequence);
    assert_eq!(diagram_kind("classDiagram-v2"), DiagramKind::Class);
    assert_eq!(diagram_kind("stateDiagram-v2"), DiagramKind::State);
    assert_eq!(diagram_kind("erDiagram"), DiagramKind::Er);
    assert_eq!(diagram_kind("gantt\ntitle x"), DiagramKind::Gantt);
    assert_eq!(diagram_kind("pie showData"), DiagramKind::Pie);
    assert_eq!(diagram_kind("journey"), DiagramKind::Journey);
    assert_eq!(diagram_kind("mindmap\n  root"), DiagramKind::Unknown("mindmap".to_string()));
    assert_eq!(diagram_kind(""), DiagramKind::Unknown(String::new()));
    assert_eq!(diagram_kind("%% only a comment"), DiagramKind::Unknown(String::new()));
}

#[test]
fn only_flowcharts_are_native() {
    assert!(diagram_kind("graph LR").natively_supported());
    assert!(!diagram_kind("sequenceDiagram").natively_supported());
    assert!(!diagram_kind("gantt").natively_supported());
}

#[test]
fn detect_never_panics_on_garbage() {
    for src in ["\u{0}\u{1}\u{2}", "graph\u{0}LR", "%%%%%%%%", "\u{feff}graph LR", "🙂🙂🙂", &"%%\n".repeat(1000)] {
        let _ = diagram_kind(src);
    }
}
