use mdless::render::primitives::{LineKind, RenderLine, RenderTree, StyledSpan};
use mdless::render::theme::Style;
use mdless::util::unicode;
use mdless::util::viewport::{max_top_line, percent, slice_line, slice_line_text};

fn text_line(node: usize, text: &str) -> RenderLine {
    let spans = if text.is_empty() { Vec::new() } else { vec![StyledSpan::new(text, Style::new())] };
    RenderLine::new(node, LineKind::Text, spans)
}

#[test]
fn horizontal_slice_across_a_wide_char() {
    let l = text_line(0, "a日bc");
    assert_eq!(l.width, 5);
    assert_eq!(slice_line_text(&l, 0, 5), "a日bc");
    assert_eq!(slice_line_text(&l, 0, 2), "a ");
    assert_eq!(slice_line_text(&l, 2, 3), " bc");
    assert_eq!(slice_line_text(&l, 1, 2), "日");
    assert_eq!(slice_line_text(&l, 1, 1), " ");
    assert_eq!(slice_line_text(&l, 10, 5), "");
    assert_eq!(slice_line_text(&l, 0, 0), "");
    for off in 0..8 {
        for w in 0..8 {
            assert!(unicode::width(&slice_line_text(&l, off, w)) <= w);
        }
    }
}

#[test]
fn slicing_preserves_span_styles_and_search_marks() {
    let spans = vec![
        StyledSpan::new("hello ", Style::new()),
        StyledSpan { text: "world".to_string(), style: Style::new().bold(), link: None, search_match: true },
    ];
    let l = RenderLine::new(0, LineKind::Text, spans);
    assert_eq!(l.to_text(), "hello world");
    let out = slice_line(&l, 3, 6);
    let text: String = out.iter().map(|s| s.text.as_str()).collect();
    assert_eq!(text, "lo wor");
    let last = out.last().expect("the sliced bold run");
    assert_eq!(last.text, "wor");
    assert!(last.style.bold, "the strong run is still bold");
    assert!(last.search_match, "the search hit is still marked");
}

#[test]
fn visible_slice_is_clamped() {
    let texts = ["a", "", "b", "", "c", "", "d", "", "e"];
    let lines: Vec<RenderLine> = texts.iter().enumerate().map(|(i, t)| text_line(i, t)).collect();
    let t = RenderTree::new(lines);
    let total = t.len();
    assert!(total >= 5);
    assert_eq!(t.visible_slice(0, 3).len(), 3);
    assert_eq!(t.visible_slice(total - 2, 5).len(), 2);
    assert_eq!(t.visible_slice(total + 40, 5).len(), 0);
    assert_eq!(t.visible_slice(0, 0).len(), 0);
}

#[test]
fn scroll_maths() {
    assert_eq!(max_top_line(100, 20), 80);
    assert_eq!(max_top_line(10, 20), 0);
    assert_eq!(max_top_line(0, 0), 0);
    assert_eq!(percent(0, 20, 100), 20);
    assert_eq!(percent(80, 20, 100), 100);
    assert_eq!(percent(0, 20, 0), 100);
}
