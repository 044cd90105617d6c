use clashctl::helper::{
    fit_to_width, get_text_style, help_footer, leading_graphemes, spans_window, spans_window_owned,
    string_window, string_window_owned, styled_pieces, truncate_to_width, window_graphemes,
    window_items,
};
use clashctl::style::{Color, Span, Spans, Style, BOLD};
use unicode_width::UnicodeWidthStr;

#[test]
fn test_string_window() {
    let test = "A代理相关的 API".to_owned();
    assert_eq!("代理", &string_window(&test, &(1..5)));
    assert_eq!("理相关的 API", &string_window(&test, &(3..114)));
}

#[test]
fn test_unicode_window_does_not_split_graphemes() {
    let flag = "🇺🇸";
    let flag_width = UnicodeWidthStr::width(flag);
    let test = format!("A{flag}e\u{301}中国");

    assert_eq!(flag, &string_window(&test, &(1..1 + flag_width)));
    assert_eq!(
        "e\u{301}",
        &string_window(&test, &(1 + flag_width..2 + flag_width))
    );

    let truncated = truncate_to_width(&test, 6);
    assert!(UnicodeWidthStr::width(truncated.as_str()) <= 6);
    assert!(truncated.ends_with('…'));
    assert!(!truncated.contains('🇺') || truncated.contains(flag));
}

#[test]
fn test_spans_window_uses_terminal_columns() {
    let blue = Style::default().fg(Color::Blue);
    let red = Style::default().fg(Color::Red);
    let flag = "🇺🇸";
    let flag_width = UnicodeWidthStr::width(flag);
    let spans = Spans(vec![
        Span::styled(format!("A{flag}"), blue),
        Span::styled("代理B".to_owned(), red),
    ]);

    let window = spans_window(&spans, &(1..1 + flag_width + 2));
    assert_eq!(window.0.len(), 2);
    assert_eq!(window.0[0].content, flag);
    assert_eq!(window.0[0].style, blue);
    assert_eq!(window.0[1].content, "代");
    assert_eq!(window.0[1].style, red);
}

#[test]
fn empty_and_whole_windows() {
    assert_eq!(string_window("abc", &(2..2)), "");
    assert_eq!(string_window("abc", &(3..1)), "");
    assert_eq!(string_window("abc", &(0..3)), "abc");
    assert_eq!(string_window("abc", &(0..10)), "abc");
    assert_eq!(string_window("abc", &(1..10)), "bc");
    assert_eq!(string_window_owned("中文字".to_owned(), &(1..5)), "文");
    assert_eq!(string_window_owned("中文字".to_owned(), &(2..5)), "文");
}

#[test]
fn wide_grapheme_straddling_the_start_is_left_out() {
    // "中" covers columns 0..2; a window from column 1 must not show half of it.
    assert_eq!(string_window("中a", &(1..3)), "a");
    // "文" covers columns 2..4 and does not fit in 2..3.
    assert_eq!(string_window("中文", &(2..3)), "");
}

#[test]
fn truncation_keeps_short_text_and_cuts_long_text() {
    assert_eq!(truncate_to_width("abc", 3), "abc");
    assert_eq!(truncate_to_width("abcd", 3), "ab…");
    assert_eq!(truncate_to_width("abcd", 0), "");
    assert_eq!(truncate_to_width("中文字", 4), "中…");
    assert_eq!(truncate_to_width("中文字", 1), "…");
}

#[test]
fn fitting_pads_or_cuts_to_exact_width() {
    assert_eq!(fit_to_width("ab", 5), "ab   ");
    assert_eq!(fit_to_width("abcdef", 4), "abc…");
    assert_eq!(fit_to_width("", 2), "  ");
    assert_eq!(fit_to_width("中文字", 5), "中文…");
    assert_eq!(fit_to_width("中文字", 4), "中… ");
    for w in 0..12 {
        let s = fit_to_width("🇺🇸美国 | 011", w);
        assert_eq!(UnicodeWidthStr::width(s.as_str()), w);
    }
}

#[test]
fn spans_window_merges_same_style_and_drops_newlines() {
    let plain = Style::default();
    let spans = Spans(vec![
        Span::styled("ab".to_owned(), plain),
        Span::styled("c\nd".to_owned(), plain),
        Span::styled("ef".to_owned(), Style::default().fg(Color::Green)),
    ]);
    let window = spans_window_owned(spans, &(0..5));
    assert_eq!(window.0.len(), 2);
    assert_eq!(window.0[0].content, "abcd");
    assert_eq!(window.0[0].style, plain);
    assert_eq!(window.0[1].content, "e");
    assert_eq!(window.0[1].width(), 1);
    assert_eq!(window.width(), 5);
    assert_eq!(window.checked_width(), Some(5));
    assert!(spans_window(&window, &(4..4)).0.is_empty());
}

#[test]
fn help_footer_highlights_the_first_character() {
    let normal = Style::default();
    let highlight = Style::default().add_modifier(BOLD);
    let f = help_footer("quit", normal, highlight);
    let parts: Vec<(&str, Style)> = f.0.iter().map(|s| (s.content.as_str(), s.style)).collect();
    assert_eq!(
        parts,
        vec![("[", normal), ("q", highlight), ("]", normal), ("uit", normal)]
    );
    assert!(help_footer("", normal, highlight).0.is_empty());
    let single = help_footer("x", normal, highlight);
    assert_eq!(single.0.len(), 1);
    assert_eq!(single.0[0].content, "x");
    let wide = help_footer("代理", normal, highlight);
    assert_eq!(wide.0[1].content, "代");
    assert_eq!(wide.0[3].content, "理");
}

#[test]
fn text_style_is_white() {
    assert_eq!(get_text_style(), Style::default().fg(Color::White));
    let s = Style::default().add_modifier(BOLD).remove_modifier(BOLD);
    assert_eq!(s.add_modifier, 0);
    assert_eq!(s.sub_modifier, BOLD);
}

fn strings(xs: &[&str]) -> Vec<String> {
    xs.iter().map(|x| x.to_string()).collect()
}

#[test]
fn window_of_given_graphemes() {
    let gs = strings(&["A", "代", "理", "e\u{301}", "B"]);
    assert_eq!(window_graphemes(&gs, &(1..5)), "代理");
    assert_eq!(window_graphemes(&gs, &(2..6)), "理e\u{301}");
    assert_eq!(window_graphemes(&gs, &(0..1)), "A");
    assert_eq!(window_graphemes(&gs, &(0..100)), "A代理e\u{301}B");
    assert_eq!(window_graphemes(&gs, &(3..3)), "");
    assert_eq!(window_graphemes(&vec![], &(0..3)), "");
}

#[test]
fn leading_graphemes_stop_at_the_first_that_does_not_fit() {
    let gs = strings(&["a", "中", "b", "c"]);
    assert_eq!(leading_graphemes(&gs, 0), "");
    assert_eq!(leading_graphemes(&gs, 2), "a");
    assert_eq!(leading_graphemes(&gs, 3), "a中");
    assert_eq!(leading_graphemes(&gs, 4), "a中b");
    assert_eq!(leading_graphemes(&gs, 9), "a中bc");
}

#[test]
fn styled_pieces_drop_newlines() {
    let red = Style::default().fg(Color::Red);
    let gs = strings(&["a", "\n", "b"]);
    assert_eq!(
        styled_pieces(&gs, red),
        vec![("a".to_owned(), red), ("b".to_owned(), red)]
    );
}

#[test]
fn window_of_given_styled_graphemes_merges_styles() {
    let red = Style::default().fg(Color::Red);
    let blue = Style::default().fg(Color::Blue);
    let items = vec![
        ("a".to_owned(), red),
        ("b".to_owned(), red),
        ("代".to_owned(), blue),
        ("c".to_owned(), blue),
    ];
    let w = window_items(&items, &(1..4));
    assert_eq!(w.0.len(), 2);
    assert_eq!(w.0[0].content, "b");
    assert_eq!(w.0[0].style, red);
    assert_eq!(w.0[1].content, "代");
    assert_eq!(w.0[1].style, blue);
    let all = window_items(&items, &(0..10));
    assert_eq!(all.0.len(), 2);
    assert_eq!(all.0[0].content, "ab");
    assert_eq!(all.0[1].content, "代c");
}

#[test]
fn truncating_twice_changes_nothing() {
    for s in ["hello world", "代理相关的 API", "", "🇺🇸🇺🇸🇺🇸"] {
        for w in 0..12 {
            let once = truncate_to_width(s, w);
            assert!(UnicodeWidthStr::width(once.as_str()) <= w);
            assert_eq!(truncate_to_width(&once, w), once);
            assert_eq!(UnicodeWidthStr::width(fit_to_width(s, w).as_str()), w);
        }
    }
}
