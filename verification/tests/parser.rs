use mdless::mermaid::ast::{ArrowKind, Diagram, EdgeStyle, NodeShape, Orientation};
use mdless::mermaid::parser::parse;

fn dg(src: &str) -> Diagram {
    parse(src).unwrap()
}

fn ids(d: &Diagram) -> Vec<&str> {
    d.nodes.iter().map(|n| n.id.as_str()).collect()
}

fn edge_pairs(d: &Diagram) -> Vec<(&str, &str)> {
    d.edges
        .iter()
        .filter_map(|e| Some((d.nodes.get(e.from)?.id.as_str(), d.nodes.get(e.to)?.id.as_str())))
        .collect()
}

#[test]
fn spec_11_1_example() {
    let d = dg("graph LR\n    A --> B\n    B --> C\n");
    assert_eq!(d.orientation, Orientation::Lr);
    assert_eq!(ids(&d), ["A", "B", "C"]);
    assert_eq!(edge_pairs(&d), [("A", "B"), ("B", "C")]);
    assert!(!d.has_unsupported_features);
}

#[test]
fn all_node_shapes() {
    let d = dg("flowchart TD\n\
         A[rect]\n\
         B(round)\n\
         C([stadium])\n\
         D{diamond}\n\
         E((circle))\n\
         F{{hex}}\n\
         G[[sub]]\n\
         H[(db)]\n\
         I>asym]\n\
         J\n");
    let shapes: Vec<NodeShape> = d.nodes.iter().map(|n| n.shape).collect();
    assert_eq!(
        shapes,
        [
            NodeShape::Rect,
            NodeShape::Round,
            NodeShape::Stadium,
            NodeShape::Diamond,
            NodeShape::Circle,
            NodeShape::Hexagon,
            NodeShape::Subroutine,
            NodeShape::Cylinder,
            NodeShape::Rect,
            NodeShape::Rect,
        ]
    );
    assert_eq!(d.nodes[0].label, "rect");
    assert_eq!(d.nodes[9].label, "J", "bare node labels default to the id");
}

#[test]
fn quoted_labels_with_escapes() {
    let d = dg("graph LR\nA[\"a, b\"] --> B[\"say \\\"hi\\\"\"]\n");
    assert_eq!(d.nodes[0].label, "a, b");
    assert_eq!(d.nodes[1].label, "say \"hi\"");
}

#[test]
fn edge_styles_and_arrows() {
    let cases = [
        ("A --> B", EdgeStyle::Solid, ArrowKind::Arrow),
        ("A --- B", EdgeStyle::Solid, ArrowKind::NoArrow),
        ("A ---> B", EdgeStyle::Solid, ArrowKind::Arrow),
        ("A -.-> B", EdgeStyle::Dotted, ArrowKind::Arrow),
        ("A -.- B", EdgeStyle::Dotted, ArrowKind::NoArrow),
        ("A -..-> B", EdgeStyle::Dotted, ArrowKind::Arrow),
        ("A ==> B", EdgeStyle::Thick, ArrowKind::Arrow),
        ("A === B", EdgeStyle::Thick, ArrowKind::NoArrow),
        ("A ~~~ B", EdgeStyle::Invisible, ArrowKind::NoArrow),
        ("A <--> B", EdgeStyle::Solid, ArrowKind::DoubleArrow),
    ];
    for (stmt, style, arrow) in cases {
        let d = dg(&format!("graph LR\n{stmt}\n"));
        assert_eq!(d.edges.len(), 1, "{stmt}");
        assert_eq!(d.edges[0].style, style, "{stmt}");
        assert_eq!(d.edges[0].arrow, arrow, "{stmt}");
    }
}

#[test]
fn reversed_arrow_swaps_endpoints() {
    let d = dg("graph LR\nA <-- B\n");
    assert_eq!(edge_pairs(&d), [("B", "A")]);
}

#[test]
fn edge_labels_both_forms() {
    let d = dg("graph LR\nA -->|yes| B\nB -- no --> C\nC -. maybe .-> D\nD == go ==> E\n");
    let labels: Vec<Option<&str>> = d.edges.iter().map(|e| e.label.as_deref()).collect();
    assert_eq!(labels, [Some("yes"), Some("no"), Some("maybe"), Some("go")]);
    assert_eq!(d.edges[2].style, EdgeStyle::Dotted);
    assert_eq!(d.edges[3].style, EdgeStyle::Thick);
    assert!(d.edges.iter().all(|e| e.arrow == ArrowKind::Arrow));
}

#[test]
fn quoted_edge_label() {
    let d = dg("graph LR\nA -->|\"a, b\"| B\n");
    assert_eq!(d.edges[0].label.as_deref(), Some("a, b"));
}

#[test]
fn chains_and_multi_endpoints() {
    let d = dg("graph LR\nA --> B --> C\n");
    assert_eq!(edge_pairs(&d), [("A", "B"), ("B", "C")]);
    let d = dg("graph LR\nA & B --> C & D\n");
    assert_eq!(edge_pairs(&d), [("A", "C"), ("A", "D"), ("B", "C"), ("B", "D")]);
    let d = dg("graph LR\nA & B --> C --> D & E\n");
    assert_eq!(edge_pairs(&d), [("A", "C"), ("B", "C"), ("C", "D"), ("C", "E")]);
}

#[test]
fn semicolon_and_newline_separators() {
    let a = dg("graph LR;A-->B;B-->C;");
    let b = dg("graph LR\nA-->B\nB-->C\n");
    assert_eq!(a, b);
}

#[test]
fn comments_directives_and_ignored_statements() {
    let d = dg("%%{init: {'theme':'dark'}}%%\n\
         graph LR\n\
         %% a comment\n\
         A --> B %% trailing comment\n\
         \n\
         click A \"https://example.org\"\n\
         style A fill:#f9f\n\
         classDef big font-size:20px\n\
         class A big\n\
         linkStyle 0 stroke:#333\n\
         direction LR\n");
    assert_eq!(edge_pairs(&d), [("A", "B")]);
    assert_eq!(ids(&d), ["A", "B"]);
}

#[test]
fn subgraphs_are_parsed_and_flagged() {
    let d = dg("graph TD\n\
         subgraph one [Group One]\n\
         A --> B\n\
         end\n\
         subgraph \"two\"\n\
         C\n\
         end\n\
         B --> C\n");
    assert_eq!(d.subgraphs.len(), 2);
    assert_eq!(d.subgraphs[0].title, "Group One");
    assert_eq!(d.subgraphs[0].node_ids, ["A", "B"]);
    assert_eq!(d.subgraphs[1].title, "two");
    assert_eq!(d.subgraphs[1].node_ids, ["C"]);
    assert!(d.has_unsupported_features);
    assert_eq!(d.unsupported_notes.len(), 1);
    assert_eq!(edge_pairs(&d), [("A", "B"), ("B", "C")]);
}

#[test]
fn label_defined_later_wins() {
    let d = dg("graph LR\nA --> B\nA[Start]\n");
    assert_eq!(d.nodes[0].label, "Start");
}

#[test]
fn non_flowchart_is_rejected() {
    let e = parse("sequenceDiagram\nA->>B: hi").unwrap_err();
    assert!(e.message.contains("flowchart"), "{}", e.message);
    assert_eq!(e.line, 1);
}

#[test]
fn errors_carry_line_and_column() {
    let e = parse("graph LR\nA[unterminated\n").unwrap_err();
    assert_eq!(e.line, 2);
    assert_eq!(e.column, 2);
    let e = parse("graph LR\nA ?? B\n").unwrap_err();
    assert_eq!(e.line, 2);
    assert!(e.message.contains("connector"));
}

#[test]
fn parser_never_panics_on_garbage() {
    let mut inputs: Vec<String> = vec![
        String::new(),
        "graph".into(),
        "graph LR".into(),
        "graph LR\n-->".into(),
        "graph LR\nA[".into(),
        "graph LR\nA[\"".into(),
        "graph LR\nA[\"\\".into(),
        "graph LR\nA --".into(),
        "graph LR\nA -- ".into(),
        "graph LR\nA -- x".into(),
        "graph LR\nA -.".into(),
        "graph LR\nA <".into(),
        "graph LR\nA -->|".into(),
        "graph LR\nA & ".into(),
        "graph LR\n&&&&&&".into(),
        "graph LR\n||||||".into(),
        "graph LR\n;;;;;;".into(),
        "graph LR\nsubgraph\nend\nend\nend".into(),
        "graph LR\n\u{0}\u{1}\u{2}\u{7f}".into(),
        "\u{0}graph\u{0}LR\u{0}A-->B".into(),
        "graph LR\nA[\u{202e}\u{200b}] --> B[🙂🇩🇪]".into(),
        "graph LR\nA[[[[[[[[[[".into(),
        "graph LR\n".to_string() + &"A --> ".repeat(500) + "B",
        "graph LR\n".to_string() + &"subgraph s\n".repeat(200) + &"end\n".repeat(200),
        "graph LR\n".to_string() + &"(".repeat(2000),
        "graph LR\n".to_string() + &"-".repeat(2000),
        "graph LR\n".to_string() + &"\"".repeat(500),
    ];
    inputs.push((0u8..=255).map(|b| b as char).collect());
    for src in &inputs {
        let _ = parse(src);
    }
}

#[test]
fn parsing_is_deterministic() {
    let src = "graph TD\nA --> B & C\nC --> D\nB --> D\n";
    assert_eq!(dg(src), dg(src));
}

#[test]
fn error_messages_name_what_was_expected() {
    let e = parse("graph TD\n  A -->").unwrap_err();
    assert_eq!((e.line, e.column), (2, 8));
    assert_eq!(e.message, "expected a node identifier, found end of statement");
    let e = parse("graph TD\nA --> ?").unwrap_err();
    assert_eq!(e.message, "expected a node identifier, found '?'");
    assert_eq!((e.line, e.column), (2, 7));
    let e = parse("graph TD\nA[unclosed").unwrap_err();
    assert_eq!(e.message, "unterminated node label, expected \"]\"");
    assert_eq!((e.line, e.column), (2, 2));
    let e = parse("graph TD\nA[\"quoted\" x]").unwrap_err();
    assert_eq!(e.message, "expected \"]\" after quoted label");
    let e = parse("graph TD\nA -x B").unwrap_err();
    assert_eq!(e.message, "expected an edge connector (e.g. `-->`)");
    assert_eq!((e.line, e.column), (2, 3));
    let e = parse("sequenceDiagram\nA->>B: hi").unwrap_err();
    assert_eq!((e.line, e.column), (1, 1));
    assert_eq!(e.message, "native renderer supports flowcharts only, found sequence diagram");
    assert_eq!(e.describe(), "mermaid: line 1, column 1: native renderer supports flowcharts only, found sequence diagram");
}

#[test]
fn subgraph_titles_and_membership() {
    let d = dg("graph TD\nsubgraph one [\"The \\\"one\\\"\"]\nA --> B\nend\nsubgraph two\nA\nend\nC");
    assert_eq!(d.subgraphs.len(), 2);
    assert_eq!(d.subgraphs[0].title, "The \"one\"");
    assert_eq!(d.subgraphs[0].node_ids, ["A", "B"]);
    assert_eq!(d.subgraphs[1].title, "two");
    assert_eq!(d.subgraphs[1].node_ids, ["A"]);
    assert_eq!(ids(&d), ["A", "B", "C"]);
    assert_eq!(d.unsupported_notes.len(), 1, "the note is recorded once");
}

#[test]
fn a_relabelled_node_keeps_its_place() {
    let d = dg("graph TD\nA --> B\nB((round))\nA");
    assert_eq!(ids(&d), ["A", "B"]);
    assert_eq!(d.nodes[1].label, "round");
    assert_eq!(d.nodes[1].shape, NodeShape::Circle);
    assert_eq!(d.nodes[0].label, "A", "an unlabelled node is labelled with its id");
}

#[test]
fn groups_link_every_pair() {
    let d = dg("graph TD\nA & B --> C & D");
    assert_eq!(edge_pairs(&d), [("A", "C"), ("A", "D"), ("B", "C"), ("B", "D")]);
    let d = dg("graph TD\nA <-- B");
    assert_eq!(edge_pairs(&d), [("B", "A")]);
    assert_eq!(d.edges[0].arrow, ArrowKind::Arrow);
    let d = dg("graph TD\nA <--> B");
    assert_eq!(d.edges[0].arrow, ArrowKind::DoubleArrow);
    assert_eq!(d.edges[0].style, EdgeStyle::Solid);
}
