use clashctl::group::{decimal, ProxyGroup, ProxyGroupFocusStatus, ProxyItem};
use clashctl::proxy::{History, ProxyType};
use clashctl::style::{Color, Span, Spans, Style};

fn item(name: &str, proxy_type: ProxyType) -> ProxyItem {
    ProxyItem {
        name: name.to_owned(),
        proxy_type,
        history: None,
        udp: None,
        now: None,
    }
}

fn measured(name: &str, delay: u64) -> ProxyItem {
    ProxyItem {
        history: Some(History { time: String::new(), delay }),
        ..item(name, ProxyType::Vmess)
    }
}

#[test]
fn expanded_rows_align_and_clip_unicode_names() {
    let group = ProxyGroup {
        name: "America".to_owned(),
        proxy_type: ProxyType::Selector,
        members: vec![
            item("🇺🇸美国_超长节点_BGP_E", ProxyType::AnyTLS),
            item("e\u{301}短节点", ProxyType::Trojan),
            item("🇺🇸美国 | 011", ProxyType::Unknown),
        ],
        current: Some(0),
        cursor: 0,
    };
    let width = 32;
    let rows = group.get_widget(width, ProxyGroupFocusStatus::Expanded);

    assert!(rows.iter().all(|row| row.width() <= width));

    let rendered = rows[1]
        .0
        .iter()
        .map(|span| span.content.as_str())
        .collect::<String>();
    assert!(rendered.contains("🇺🇸"));
    assert!(rendered.contains('…'));

    let type_columns = rows[1..]
        .iter()
        .map(|row| {
            let type_index = row
                .0
                .iter()
                .position(|span| matches!(span.content.trim(), "AnyTLS" | "Trojan" | "Unknown"))
                .unwrap();
            row.0[..type_index].iter().map(Span::width).sum::<usize>()
        })
        .collect::<Vec<_>>();
    assert!(type_columns.windows(2).all(|pair| pair[0] == pair[1]));

    let row_widths = rows[1..].iter().map(Spans::width).collect::<Vec<_>>();
    assert!(row_widths.windows(2).all(|pair| pair[0] == pair[1]));

    let wide_rows = group.get_widget(180, ProxyGroupFocusStatus::Expanded);
    let type_column = wide_rows[1]
        .0
        .iter()
        .position(|span| span.content.trim() == "AnyTLS")
        .map(|index| {
            wide_rows[1].0[..index]
                .iter()
                .map(Span::width)
                .sum::<usize>()
        })
        .unwrap();
    assert!(type_column < 50);
}

fn text(line: &Spans) -> String {
    line.0.iter().map(|s| s.content.as_str()).collect()
}

#[test]
fn header_shows_name_type_and_count() {
    let group = ProxyGroup {
        name: "Proxy".to_owned(),
        proxy_type: ProxyType::URLTest,
        members: vec![measured("a", 10), measured("b", 300)],
        current: None,
        cursor: 1,
    };
    let rows = group.get_widget(80, ProxyGroupFocusStatus::Unfocused);
    assert_eq!(text(&rows[0]), " Proxy URLTest 2");
    let rows = group.get_widget(80, ProxyGroupFocusStatus::Expanded);
    assert_eq!(text(&rows[0]), " Proxy URLTest 2/2");
    assert_eq!(rows.len(), 3);
    let narrow = group.get_widget(9, ProxyGroupFocusStatus::Expanded);
    assert_eq!(text(&narrow[0]), " Proxy UR");
}

#[test]
fn summary_marks_follow_latency() {
    let group = ProxyGroup {
        name: "g".to_owned(),
        proxy_type: ProxyType::Selector,
        members: vec![
            measured("a", 0),
            measured("b", 200),
            measured("c", 201),
            measured("d", 400),
            measured("e", 401),
            item("f", ProxyType::Vless),
            item("g", ProxyType::Direct),
        ],
        current: None,
        cursor: 0,
    };
    let marks = group.get_summary_widget();
    let colors: Vec<Option<Color>> = marks.iter().map(|s| s.style.fg).collect();
    assert_eq!(
        colors,
        vec![
            Some(Color::DarkGray),
            Some(Color::LightGreen),
            Some(Color::LightYellow),
            Some(Color::LightYellow),
            Some(Color::LightRed),
            Some(Color::DarkGray),
            Some(Color::DarkGray),
        ]
    );
    assert_eq!(marks[0].content, "⬤");
    assert_eq!(marks[6].content, "✪");

    // A width of 10 leaves (10 - 3) / 2 = 3 marks per summary line.
    let rows = group.get_widget(10, ProxyGroupFocusStatus::Focused);
    assert_eq!(rows.len(), 1 + 3);
    assert_eq!(rows[1].0.len(), 4);
    assert_eq!(rows[3].0.len(), 2);
    assert_eq!(rows[1].0[0].content, "🭬");
    // A tiny width still puts one mark per line.
    let rows = group.get_widget(0, ProxyGroupFocusStatus::Unfocused);
    assert_eq!(rows.len(), 1 + 7);
    assert!(rows[0].0.is_empty());
}

#[test]
fn expanded_rows_start_near_the_cursor() {
    let members: Vec<ProxyItem> = (0..10).map(|i| measured(&format!("n{i}"), 100 + i)).collect();
    let group = ProxyGroup {
        name: "g".to_owned(),
        proxy_type: ProxyType::Selector,
        members,
        current: Some(7),
        cursor: 6,
    };
    let rows = group.get_widget(40, ProxyGroupFocusStatus::Expanded);
    // Two members are skipped so that the cursor keeps four above it.
    assert_eq!(rows.len(), 1 + 8);
    assert!(text(&rows[1]).contains("n2"));
    assert!(text(&rows[1]).contains("102"));
    assert_eq!(text(&rows[0]), " g Selector 7/10");
    let current = rows[6].0.iter().find(|s| s.content.starts_with("n7")).unwrap();
    assert_eq!(current.style.fg, Some(Color::Blue));
    let pointed = rows[5].0.iter().find(|s| s.content.starts_with("n6")).unwrap();
    assert_eq!(pointed.style.fg, Some(Color::LightBlue));
    assert_eq!(rows[5].0[0].content, "➤");
}

#[test]
fn empty_group_draws_only_its_header() {
    let group = ProxyGroup::default();
    assert_eq!(group.proxy_type(), ProxyType::Selector);
    assert!(group.members().is_empty());
    let rows = group.get_widget(20, ProxyGroupFocusStatus::Expanded);
    assert_eq!(rows.len(), 1);
    assert_eq!(text(&rows[0]), "  Selector 0/0");
    let rows = group.get_widget(20, ProxyGroupFocusStatus::Focused);
    assert_eq!(rows.len(), 1);
    let _ = Style::default();
}

#[test]
fn numbers_in_decimal() {
    assert_eq!(decimal(0), "0");
    assert_eq!(decimal(7), "7");
    assert_eq!(decimal(10), "10");
    assert_eq!(decimal(4012), "4012");
    assert_eq!(decimal(u64::MAX), u64::MAX.to_string());
}

#[test]
fn summary_lines_hold_a_line_of_marks_each() {
    let members = (0..7).map(|i| measured(&format!("p{i}"), 100)).collect::<Vec<_>>();
    let group = ProxyGroup {
        name: "g".to_owned(),
        proxy_type: ProxyType::Selector,
        members,
        current: None,
        cursor: 0,
    };
    // 10 cells leave (10 - 3) / 2 = 3 marks per line.
    let rows = group.get_widget(10, ProxyGroupFocusStatus::Focused);
    assert_eq!(rows.len(), 1 + 3);
    assert_eq!(rows[1].0.len(), 1 + 3);
    assert_eq!(rows[2].0.len(), 1 + 3);
    assert_eq!(rows[3].0.len(), 1 + 1);
    assert_eq!(rows[1].0[0].content, "🭬");
    // Even with no room at all, each line holds one mark.
    let narrow = group.get_widget(0, ProxyGroupFocusStatus::Unfocused);
    assert_eq!(narrow.len(), 1 + 7);
    assert!(narrow[1..].iter().all(|row| row.0.len() == 2));
}
