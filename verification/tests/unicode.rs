use mdless::util::unicode::{
    center_to_width, expand_tabs, grapheme_width, pad_left_to_width, pad_to_width, slice_columns,
    split_at_width, tokenize, truncate_to_width, truncate_with_ellipsis, width, wrap,
};
use unicode_segmentation::UnicodeSegmentation;

#[test]
fn ascii_and_cjk_widths() {
    assert_eq!(width("hello"), 5);
    assert_eq!(width("日本語"), 6);
    assert_eq!(width("日本語のテキスト"), 16);
    assert_eq!(width("한국어"), 6);
    assert_eq!(width("中文a"), 5);
    assert_eq!(width(""), 0);
}

#[test]
fn ascii_control_characters_are_zero_width() {
    assert_eq!(width("\u{1}"), 0);
    assert_eq!(width("\u{7f}"), 0, "DEL");
    assert_eq!(width("a\u{1}b"), 2);
    assert_eq!(width("a\tb"), 2, "tabs are expanded before measuring");
    for s in ["a\u{1}b", "\u{7}\u{7}\u{7}", "x\u{1b}[0m"] {
        assert_eq!(
            width(s),
            s.graphemes(true).map(grapheme_width).sum::<usize>(),
            "the fast path must agree with grapheme_width for {s:?}"
        );
        for n in 0..=4 {
            assert!(width(&split_at_width(s, n).0) <= n, "split_at_width({s:?}, {n}) over-counted");
        }
    }
}

#[test]
fn combining_marks_are_zero_width() {
    assert_eq!(width("e\u{0301}"), 1);
    assert_eq!(width("é"), 1);
    assert_eq!(width("a\u{0300}\u{0301}b"), 2);
}

#[test]
fn emoji_widths() {
    assert_eq!(width("🚀"), 2);
    assert_eq!(width("👩‍💻"), 2, "ZWJ sequence is one emoji");
    assert_eq!(width("👨‍👩‍👧‍👦"), 2, "family ZWJ sequence");
    assert_eq!(width("⚠️"), 2, "variation selector 16");
    assert_eq!(width("🇩🇪"), 2, "regional indicator pair");
    assert_eq!(width("✅"), 2);
}

#[test]
fn truncate_never_splits_a_grapheme() {
    assert_eq!(truncate_to_width("日本語", 3), "日");
    assert_eq!(truncate_to_width("日本語", 4), "日本");
    assert_eq!(truncate_to_width("abc", 10), "abc");
    assert_eq!(truncate_to_width("👩‍💻x", 2), "👩‍💻");
    assert_eq!(truncate_to_width("👩‍💻x", 1), "");
    assert_eq!(truncate_with_ellipsis("abcdef", 4, "…"), "abc…");
    assert_eq!(truncate_with_ellipsis("abc", 4, "…"), "abc");
}

#[test]
fn padding() {
    assert_eq!(pad_to_width("日", 4), "日  ");
    assert_eq!(pad_left_to_width("日", 4), "  日");
    assert_eq!(center_to_width("ab", 6), "  ab  ");
    assert_eq!(pad_to_width("abcdef", 3), "abcdef");
}

#[test]
fn slicing_across_a_wide_char_pads_with_spaces() {
    assert_eq!(slice_columns("a日b", 0, 4), "a日b");
    assert_eq!(slice_columns("a日b", 2, 2), " b");
    assert_eq!(slice_columns("a日b", 0, 2), "a ");
    assert_eq!(slice_columns("a日b", 1, 1), " ");
    assert_eq!(slice_columns("日本語", 1, 4), " 本 ");
    assert_eq!(slice_columns("abc", 5, 3), "");
    assert_eq!(slice_columns("abc", 0, 0), "");
    assert_eq!(width(&slice_columns("日本語", 1, 4)), 4);
}

#[test]
fn tab_expansion() {
    assert_eq!(expand_tabs("a\tb", 4), "a   b");
    assert_eq!(expand_tabs("\tx", 4), "    x");
    assert_eq!(expand_tabs("abcd\tx", 4), "abcd    x");
    assert_eq!(expand_tabs("no tabs", 4), "no tabs");
    assert_eq!(expand_tabs("a\tb", 1), "a b");
}

#[test]
fn wrapping_words() {
    assert_eq!(wrap("the quick brown fox", 10, 10), ["the quick", "brown fox"]);
    assert_eq!(wrap("one two", 20, 20), ["one two"]);
    assert_eq!(wrap("", 10, 10), [""]);
}

#[test]
fn hanging_indent_widths() {
    let out = wrap("aaa bbb ccc ddd", 7, 4);
    assert_eq!(out, ["aaa bbb", "ccc", "ddd"]);
}

#[test]
fn unbreakable_runs_are_hard_broken() {
    let url = "https://example.com/a/very/long/path";
    let out = wrap(url, 10, 10);
    assert!(out.iter().all(|l| width(l) <= 10));
    assert_eq!(out.concat(), url);
}

#[test]
fn cjk_breaks_anywhere() {
    let out = wrap("日本語のテキストです", 6, 6);
    assert!(out.iter().all(|l| width(l) <= 6), "{out:?}");
    assert_eq!(out.concat(), "日本語のテキストです");
}

#[test]
fn zero_width_never_loops() {
    let out = wrap("abc def", 0, 0);
    assert!(!out.is_empty());
    assert!(out.iter().all(|l| width(l) <= 1));
}

#[test]
fn tokenize_splits_wide_graphemes() {
    let t = tokenize("ab 日x");
    let texts: Vec<&str> = t.iter().map(|t| t.text.as_str()).collect();
    assert_eq!(texts, ["ab", " ", "日", "x"]);
    assert_eq!(t[2].width, 2);
}

#[test]
fn blank_runs_count_at_most_the_rest_width() {
    let text = format!("a{}b", " ".repeat(20));
    assert_eq!(wrap(&text, 100, 5), ["a     b"]);
    // A long word after a short first line moves to the next line whole.
    assert_eq!(wrap("aaa bbbbb", 6, 10), ["aaa", "bbbbb"]);
}

#[test]
fn wrapping_keeps_every_non_blank_character() {
    let text = "The quick  brown fox\tjumps over https://example.com/a/very/long/path 日本語のテキスト";
    let strip = |s: &str| s.chars().filter(|c| !c.is_whitespace()).collect::<String>();
    for (fw, rw) in [(1usize, 1usize), (5, 3), (10, 20), (80, 80)] {
        let lines = wrap(text, fw, rw);
        assert_eq!(strip(&lines.concat()), strip(text), "widths {fw}/{rw}");
    }
}
