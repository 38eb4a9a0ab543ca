use mdless::render::primitives::{LineKind, NodeSpan, PendingCode, RenderLine, RenderTree, StyledSpan};
use mdless::render::search::{clear_spans, find_hits, mark_spans};
use mdless::render::splice::move_index;
use mdless::render::theme::Style;

fn line(node: usize, kind: LineKind, spans: Vec<StyledSpan>) -> RenderLine {
    RenderLine::new(node, kind, spans)
}

fn plain(node: usize, text: &str) -> RenderLine {
    line(node, LineKind::Text, vec![StyledSpan::new(text, Style::new())])
}

fn blank(node: usize) -> RenderLine {
    line(node, LineKind::Blank, Vec::new())
}

/// A tree as the layout engine builds it: one node span per top-level node,
/// in order, tiling the lines up to the tail.
fn build(blocks: Vec<(usize, Vec<RenderLine>)>, footer: Vec<RenderLine>) -> RenderTree {
    let mut lines = Vec::new();
    let mut spans = Vec::new();
    for (node, block) in blocks {
        spans.push(NodeSpan { node, start: lines.len(), len: block.len() });
        lines.extend(block);
    }
    let tail = lines.len();
    lines.extend(footer);
    RenderTree::with_index(lines, Vec::new(), spans, tail)
}

/// "# A", a paragraph, two list items and a table.
fn heading_list_table() -> RenderTree {
    build(
        vec![
            (
                0,
                vec![
                    line(0, LineKind::Heading(1), vec![StyledSpan::new("A", Style::new().bold())]),
                    line(0, LineKind::Heading(1), vec![StyledSpan::new("═", Style::new())]),
                    blank(0),
                ],
            ),
            (1, vec![plain(1, "body"), blank(1)]),
            (2, vec![plain(3, "• one"), plain(4, "• two"), blank(2)]),
            (5, vec![plain(5, "┌───┬───┐"), plain(5, "│ a │ b │"), plain(5, "│ 1 │ 2 │"), plain(5, "└───┴───┘")]),
        ],
        Vec::new(),
    )
}

/// "text[^a]" with its footnote in the trailing section.
fn with_footnote() -> RenderTree {
    build(vec![(0, vec![plain(0, "text[1]")])], vec![blank(1), plain(2, "1. the note")])
}

/// The invariant every index of a tree must satisfy, whatever was done to it.
fn assert_index_is_consistent(tree: &RenderTree, what: &str) {
    let mut expected_offset = 0usize;
    let mut prev: Option<usize> = None;
    for (idx, l) in tree.lines.iter().enumerate() {
        if prev == Some(l.node) {
            expected_offset += 1;
        } else {
            expected_offset = 0;
            prev = Some(l.node);
            assert_eq!(tree.first_line_of(l.node), Some(idx), "{what}: first line of node {}", l.node);
        }
        assert_eq!(l.node_offset, expected_offset, "{what}: node_offset of line {idx}");
        assert_eq!(tree.node_at(idx), Some(l.node), "{what}: node_at {idx}");
        assert_eq!(tree.anchor_at(idx), Some((l.node, l.node_offset)), "{what}: anchor_at {idx}");
        assert_eq!(
            tree.line_index_for(l.node, l.node_offset),
            Some(idx),
            "{what}: anchor round-trip at {idx}"
        );
        assert_eq!(l.width, l.spans.iter().map(|s| s.width()).sum::<usize>(), "{what}: cached width of line {idx}");
    }
    assert_eq!(
        tree.max_width(),
        tree.lines.iter().map(|l| l.width).max().unwrap_or(0),
        "{what}: max_width"
    );
    let mut at = 0usize;
    let mut last_node: Option<usize> = None;
    for span in tree.node_spans() {
        assert_eq!(span.start, at, "{what}: node span {} start", span.node);
        assert!(span.start + span.len <= tree.len(), "{what}: node span {} in range", span.node);
        if let Some(prev) = last_node {
            assert!(prev < span.node, "{what}: node spans are in document order");
        }
        last_node = Some(span.node);
        at += span.len;
    }
    if !tree.node_spans().is_empty() {
        assert_eq!(at, tree.tail_start(), "{what}: spans end at the tail");
    }
    assert!(tree.tail_start() <= tree.len(), "{what}: tail in range");
}

#[test]
fn a_laid_out_document_has_a_consistent_index() {
    assert_index_is_consistent(&heading_list_table(), "heading, list and table");
    assert_index_is_consistent(&with_footnote(), "footnote");
    assert_index_is_consistent(&build(Vec::new(), Vec::new()), "empty");
    assert_index_is_consistent(&RenderTree::new(vec![plain(0, "a"), plain(0, "b"), plain(1, "c")]), "plain");
}

/// "a needle in **a haystack**".
fn needle_line() -> RenderTree {
    build(
        vec![(
            0,
            vec![line(
                0,
                LineKind::Text,
                vec![StyledSpan::new("a needle in ", Style::new()), StyledSpan::new("a haystack", Style::new().bold())],
            )],
        )],
        Vec::new(),
    )
}

#[test]
fn marking_and_clearing_a_search_restores_the_original_spans() {
    let mut tree = needle_line();
    let original = tree.lines.clone();
    assert_eq!(original[0].to_text(), "a needle in a haystack");

    let len = tree.len();
    tree.mark_search(0, len, "needle", false);
    let marked = &tree.lines[0];
    assert_eq!(marked.to_text(), original[0].to_text(), "marking never changes the text");
    assert_eq!(marked.width, original[0].width, "nor the width");
    let hit = marked.spans.iter().find(|s| s.search_match).expect("the hit is marked");
    assert_eq!(hit.text, "needle");
    assert!(
        marked.spans.iter().filter(|s| s.search_match).all(|s| s.text == "needle"),
        "only the hit is marked: {:?}",
        marked.spans
    );
    assert_index_is_consistent(&tree, "marked");

    tree.clear_search(0, len);
    assert_eq!(tree.lines, original, "clearing restores the spans exactly");
}

#[test]
fn search_marking_is_case_insensitive_on_request() {
    let mut tree = build(vec![(0, vec![plain(0, "Needle and needle")])], Vec::new());
    let len = tree.len();
    tree.mark_search(0, len, "needle", false);
    let hits: Vec<&str> = tree.lines[0].spans.iter().filter(|s| s.search_match).map(|s| s.text.as_str()).collect();
    assert_eq!(hits, ["Needle", "needle"]);

    tree.clear_search(0, len);
    tree.mark_search(0, len, "needle", true);
    let hits: Vec<&str> = tree.lines[0].spans.iter().filter(|s| s.search_match).map(|s| s.text.as_str()).collect();
    assert_eq!(hits, ["needle"]);
}

/// "para" and a fenced Rust block whose highlighting is deferred.
fn para_and_code() -> RenderTree {
    let code = line(1, LineKind::Code, vec![StyledSpan::new("fn main() {}", Style::new())]);
    let lines = vec![plain(0, "para"), blank(0), code];
    let pending = vec![PendingCode { node: 1, start: 2, len: 1, prefix: Vec::new(), width: 40 }];
    let spans = vec![NodeSpan { node: 0, start: 0, len: 2 }, NodeSpan { node: 1, start: 2, len: 1 }];
    RenderTree::with_index(lines, pending, spans, 3)
}

#[test]
fn realizing_a_block_keeps_every_line_in_place() {
    let mut tree = para_and_code();
    let before = tree.lines.clone();
    let target = tree.lines.iter().position(|l| l.kind == LineKind::Code).expect("a code line");

    assert!(tree.replace_line_spans(target, vec![vec![StyledSpan::new("XY", Style::new())]]));
    let l = &tree.lines[target];
    assert_eq!(l.to_text(), "XY", "the content was replaced");
    assert_eq!(l.width, 2, "the width was recomputed");
    assert_eq!(l.node, before[target].node, "the node is preserved");
    assert_eq!(l.kind, before[target].kind, "the kind is preserved");
    assert_eq!(l.node_offset, before[target].node_offset);
    assert_eq!(tree.len(), before.len(), "no line was added or removed");
    for (idx, (a, b)) in tree.lines.iter().zip(&before).enumerate() {
        if idx != target {
            assert_eq!(a, b, "line {idx} is untouched");
        }
    }

    assert!(!tree.replace_line_spans(tree.len(), vec![Vec::new()]), "an unknown range is refused");
}

/// "# A", "body text", "para two", "- item".
fn four_blocks() -> RenderTree {
    build(
        vec![
            (
                0,
                vec![
                    line(0, LineKind::Heading(1), vec![StyledSpan::new("A", Style::new().bold())]),
                    line(0, LineKind::Heading(1), vec![StyledSpan::new("═", Style::new())]),
                    blank(0),
                ],
            ),
            (1, vec![plain(1, "body text"), blank(1)]),
            (2, vec![plain(2, "para two"), blank(2)]),
            (3, vec![plain(4, "• item")]),
        ],
        Vec::new(),
    )
}

#[test]
fn splicing_a_node_range_moves_every_index() {
    let mut tree = four_blocks();
    let original = tree.lines.clone();
    let original_tail = tree.tail_start();
    assert!(tree.node_spans().len() >= 3, "several top-level nodes");

    let victim = tree.node_spans()[1];
    assert!(victim.len > 0);
    let hidden: Vec<RenderLine> = original[victim.start..victim.start + victim.len].to_vec();
    let next_node = tree.node_spans()[2].node;
    let next_before = tree.first_line_of(next_node).expect("a visible node");

    assert!(tree.splice_nodes(1, 1, Vec::new(), Vec::new(), vec![NodeSpan { node: victim.node, start: 0, len: 0 }]));
    assert_eq!(tree.len(), original.len() - victim.len);
    assert_eq!(tree.first_line_of(victim.node), None, "the hidden node has no line");
    assert_eq!(
        tree.first_line_of(next_node),
        Some(next_before - victim.len),
        "everything below moved up by exactly the hidden lines"
    );
    assert_eq!(tree.tail_start(), original_tail - victim.len);
    assert_index_is_consistent(&tree, "after hiding");

    assert!(tree.splice_nodes(1, 1, hidden, Vec::new(), vec![NodeSpan { node: victim.node, start: 0, len: victim.len }]));
    assert_eq!(tree.lines, original, "re-expanding reproduces the original lines");
    assert_eq!(tree.first_line_of(next_node), Some(next_before));
    assert_eq!(tree.tail_start(), original_tail);
    assert_index_is_consistent(&tree, "after re-expanding");
}

#[test]
fn find_line_with_locates_the_matching_line() {
    let tree = build(vec![(0, vec![plain(0, "nothing here"), blank(0)]), (1, vec![plain(1, "a NEEDLE here")])], Vec::new());
    let target = tree.lines.iter().position(|l| l.to_text().contains("NEEDLE")).expect("the needle line");
    let len = tree.len();
    assert_eq!(tree.find_line_with(0, len, "needle", false), Some(target));
    assert_eq!(tree.find_line_with(0, len, "NEEDLE", true), Some(target));
    assert_eq!(tree.find_line_with(0, len, "needle", true), None);
    assert_eq!(tree.find_line_with(0, len, "", false), None);
    assert_eq!(tree.find_line_with(0, len + 99, "needle", false), Some(target), "an over-long range is clamped, not a panic");
    assert_eq!(tree.find_line_with(target + 1, len, "needle", false), None);
}

#[test]
fn hits_are_leftmost_and_do_not_overlap() {
    assert_eq!(find_hits("aaaa", "aa", true, "aaaa", "aa"), vec![(0, 2), (2, 4)]);
    assert_eq!(find_hits("abcabc", "bc", true, "", ""), vec![(1, 3), (4, 6)]);
    assert_eq!(find_hits("abc", "", true, "abc", ""), Vec::<(usize, usize)>::new());
    assert_eq!(find_hits("", "a", true, "", "a"), Vec::<(usize, usize)>::new());
    assert_eq!(find_hits("ab", "abc", true, "ab", "abc"), Vec::<(usize, usize)>::new());
}

#[test]
fn insensitive_hits_use_the_lowered_texts() {
    assert_eq!(find_hits("Needle and needle", "NEEDLE", false, "needle and needle", "needle"), vec![(0, 6), (11, 17)]);
    // Positions are characters: the hit after a wide character is not moved.
    assert_eq!(find_hits("日X", "x", false, "日x", "x"), vec![(1, 2)]);
}

#[test]
fn a_lowering_that_changes_the_length_finds_nothing() {
    // "İ" lower-cases to two characters, three bytes.
    assert_eq!(find_hits("İx", "x", false, "i\u{307}x", "x"), Vec::<(usize, usize)>::new());
    let tree = build(vec![(0, vec![plain(0, "İx x")])], Vec::new());
    assert_eq!(tree.find_line_with(0, 1, "x", false), None);
    assert_eq!(tree.find_line_with(0, 1, "x", true), Some(0));
}

#[test]
fn marking_splits_spans_and_merges_neighbours() {
    let spans = vec![StyledSpan::new("ab", Style::new()), StyledSpan::new("cd", Style::new().bold())];
    let out = mark_spans(&spans, &vec![(1, 3)]);
    let parts: Vec<(&str, bool, bool)> = out.iter().map(|s| (s.text.as_str(), s.style.bold, s.search_match)).collect();
    assert_eq!(parts, [("a", false, false), ("b", false, true), ("c", true, true), ("d", true, false)]);
    // Empty spans go and neighbours of one look join.
    let with_empty = vec![StyledSpan::new("", Style::new()), StyledSpan::new("x", Style::new()), StyledSpan::new("y", Style::new())];
    assert_eq!(mark_spans(&with_empty, &Vec::new()), vec![StyledSpan::new("xy", Style::new())]);
    // A line without hit is left alone by the tree, empty span included.
    let mut tree = RenderTree::new(vec![line(0, LineKind::Text, with_empty.clone())]);
    tree.mark_search(0, 1, "z", true);
    assert_eq!(tree.lines[0].spans, with_empty);
}

#[test]
fn clearing_merges_the_spans_back() {
    let mut spans = vec![
        StyledSpan::new("a", Style::new()),
        StyledSpan { text: "b".to_string(), style: Style::new(), link: None, search_match: true },
        StyledSpan::new("c", Style::new()),
    ];
    clear_spans(&mut spans);
    assert_eq!(spans, vec![StyledSpan::new("abc", Style::new())]);
    // Nothing flagged: unchanged, even where neighbours could merge.
    let mut unmarked = vec![StyledSpan::new("a", Style::new()), StyledSpan::new("b", Style::new())];
    clear_spans(&mut unmarked);
    assert_eq!(unmarked, vec![StyledSpan::new("a", Style::new()), StyledSpan::new("b", Style::new())]);
}

#[test]
fn a_search_range_is_clamped_and_a_reversed_one_ignored() {
    let mut tree = build(vec![(0, vec![plain(0, "x"), plain(0, "x")])], Vec::new());
    let original = tree.lines.clone();
    tree.mark_search(2, 1, "x", true);
    assert_eq!(tree.lines, original, "a reversed range marks nothing");
    tree.mark_search(1, 50, "x", true);
    assert!(!tree.lines[0].spans[0].search_match, "lines before the range are untouched");
    assert!(tree.lines[1].spans[0].search_match, "the range is clamped to the tree");
    tree.mark_search(0, 2, "", true);
    assert!(!tree.lines[0].spans[0].search_match, "an empty needle marks nothing");
}

#[test]
fn a_splice_outside_the_tree_is_refused() {
    let mut tree = four_blocks();
    let before = tree.lines.clone();
    assert!(!tree.splice_nodes(0, 0, Vec::new(), Vec::new(), Vec::new()), "no node");
    assert!(!tree.splice_nodes(3, 2, Vec::new(), Vec::new(), Vec::new()), "past the last node span");
    assert!(!tree.splice_nodes(9, 1, Vec::new(), Vec::new(), Vec::new()), "an unknown node span");
    assert_eq!(tree.lines, before);
    let mut plain_tree = RenderTree::new(vec![plain(0, "a")]);
    assert!(!plain_tree.splice_nodes(0, 1, Vec::new(), Vec::new(), Vec::new()), "a tree without node spans");
}

#[test]
fn a_splice_moves_and_sorts_the_deferred_blocks() {
    let code = |node: usize, text: &str| line(node, LineKind::Code, vec![StyledSpan::new(text, Style::new())]);
    let lines = vec![code(0, "a"), code(1, "b"), code(1, "c"), code(2, "d")];
    let pending = vec![
        PendingCode { node: 0, start: 0, len: 1, prefix: Vec::new(), width: 10 },
        PendingCode { node: 1, start: 1, len: 2, prefix: Vec::new(), width: 10 },
        PendingCode { node: 2, start: 3, len: 1, prefix: Vec::new(), width: 10 },
    ];
    let spans = vec![
        NodeSpan { node: 0, start: 0, len: 1 },
        NodeSpan { node: 1, start: 1, len: 2 },
        NodeSpan { node: 2, start: 3, len: 1 },
    ];
    let mut tree = RenderTree::with_index(lines, pending, spans, 4);
    // Node 1 shrinks to one line that carries a deferred block.
    let block = vec![code(1, "bc")];
    let block_pending = vec![PendingCode { node: 1, start: 0, len: 1, prefix: Vec::new(), width: 10 }];
    assert!(tree.splice_nodes(1, 1, block, block_pending, vec![NodeSpan { node: 1, start: 0, len: 1 }]));
    let starts: Vec<(usize, usize)> = tree.pending_code().iter().map(|p| (p.node, p.start)).collect();
    assert_eq!(starts, [(0, 0), (1, 1), (2, 2)]);
    let spans: Vec<(usize, usize, usize)> = tree.node_spans().iter().map(|s| (s.node, s.start, s.len)).collect();
    assert_eq!(spans, [(0, 0, 1), (1, 1, 1), (2, 2, 1)]);
    assert_eq!(tree.tail_start(), 3);
    assert_index_is_consistent(&tree, "after shrinking");
}

#[test]
fn moved_indices_are_clamped() {
    assert_eq!(move_index(10, 2, 5), 7);
    assert_eq!(move_index(3, 0, 5), 0);
    assert_eq!(move_index(usize::MAX - 1, 5, 0), usize::MAX);
    assert_eq!(move_index(4, 6, 2), 8);
}

#[test]
fn a_splice_keeps_the_headings_and_widest_line() {
    let mut tree = four_blocks();
    let headings = tree.heading_lines().to_vec();
    assert_eq!(headings, vec![(0, 0, 1)]);
    let wide = vec![plain(1, "a much wider paragraph line")];
    assert!(tree.splice_nodes(1, 1, wide, Vec::new(), vec![NodeSpan { node: 1, start: 0, len: 1 }]));
    assert_eq!(tree.max_width(), 27);
    assert_eq!(tree.heading_lines(), &[(0, 0, 1)]);
    let folded = vec![line(0, LineKind::FoldedMarker, vec![StyledSpan::new("▸ A", Style::new())])];
    assert!(tree.splice_nodes(0, 1, folded, Vec::new(), vec![NodeSpan { node: 0, start: 0, len: 1 }]));
    assert_eq!(tree.heading_lines(), &[(0, 0, 0)]);
    assert_index_is_consistent(&tree, "after folding");
}

#[test]
fn insensitive_hits_carry_over_by_byte_offset() {
    // "İ" lower-cases to two characters and "ẞ" to a shorter one: the byte
    // length is kept, the character count is not.
    let hay = "İẞabc";
    let lowered = hay.to_lowercase();
    assert_eq!(lowered.len(), hay.len());
    assert_ne!(lowered.chars().count(), hay.chars().count());
    assert_eq!(find_hits(hay, "ABC", false, &lowered, "abc"), vec![(2, 5)]);
    // A hit inside the changed characters does not fall on boundaries of
    // the haystack and ends the search.
    assert_eq!(find_hits(hay, "ß", false, &lowered, "ß"), vec![]);
}

#[test]
fn ascii_lowercase_search_finds_every_case() {
    let hay = "Foo foo FOO";
    assert_eq!(find_hits(hay, "foo", false, &hay.to_lowercase(), "foo"), vec![(0, 3), (4, 7), (8, 11)]);
    assert_eq!(find_hits(hay, "foo", true, hay, "foo"), vec![(4, 7)]);
}

#[test]
fn an_offset_past_a_nodes_lines_finds_its_last_line() {
    let line = |node: usize| RenderLine::new(node, LineKind::Text, vec![StyledSpan::new("x", Style::new())]);
    let tree = RenderTree::new(vec![line(1), line(2), line(2), line(2), line(3)]);
    assert_eq!(tree.line_index_for(2, 1), Some(2));
    assert_eq!(tree.line_index_for(2, 9), Some(3));
    assert_eq!(tree.line_index_for(3, 5), Some(4));
    assert_eq!(tree.line_index_for(7, 0), None);
}
