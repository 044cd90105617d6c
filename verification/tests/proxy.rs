use clashctl::proxy::{History, Proxies, Proxy, ProxyType};

fn proxy(proxy_type: ProxyType) -> Proxy {
    Proxy {
        proxy_type,
        history: vec![],
        udp: Some(false),
        all: None,
        now: None,
    }
}

#[test]
fn test_proxies() {
    let proxy_kv = vec![
        (
            "test_a".to_owned(),
            Proxy {
                proxy_type: ProxyType::Direct,
                history: vec![],
                udp: Some(false),
                all: None,
                now: None,
            },
        ),
        (
            "test_b".to_owned(),
            Proxy {
                proxy_type: ProxyType::Selector,
                history: vec![],
                udp: Some(false),
                all: Some(vec!["test_c".into()]),
                now: Some("test_c".into()),
            },
        ),
        (
            "test_c".to_owned(),
            Proxy {
                proxy_type: ProxyType::Shadowsocks,
                history: vec![],
                udp: Some(false),
                all: None,
                now: None,
            },
        ),
        (
            "test_d".to_owned(),
            Proxy {
                proxy_type: ProxyType::Fallback,
                history: vec![],
                udp: Some(false),
                all: Some(vec!["test_c".into()]),
                now: Some("test_c".into()),
            },
        ),
    ];
    let proxies = Proxies::from_entries(proxy_kv);
    assert_eq!(
        {
            let mut tmp = proxies.groups().into_iter().map(|x| x.0).collect::<Vec<_>>();
            tmp.sort();
            tmp
        },
        vec!["test_b", "test_d"]
    );
    assert_eq!(
        proxies.built_ins().into_iter().map(|x| x.0).collect::<Vec<_>>(),
        vec!["test_a"]
    );
    assert_eq!(
        proxies.normal().into_iter().map(|x| x.0).collect::<Vec<_>>(),
        vec!["test_c"]
    );
}

#[test]
fn test_supported_proxy_types() {
    let cases = [
        ("Direct", ProxyType::Direct, (true, false, false)),
        ("Reject", ProxyType::Reject, (true, false, false)),
        ("RejectDrop", ProxyType::RejectDrop, (true, false, false)),
        ("Compatible", ProxyType::Compatible, (true, false, false)),
        ("Pass", ProxyType::Pass, (true, false, false)),
        ("PassRule", ProxyType::PassRule, (true, false, false)),
        ("Rematch", ProxyType::Rematch, (true, false, false)),
        ("Dns", ProxyType::Dns, (true, false, false)),
        ("Selector", ProxyType::Selector, (false, true, false)),
        ("URLTest", ProxyType::URLTest, (false, true, false)),
        ("Fallback", ProxyType::Fallback, (false, true, false)),
        ("LoadBalance", ProxyType::LoadBalance, (false, true, false)),
        ("Relay", ProxyType::Relay, (false, true, false)),
        ("Shadowsocks", ProxyType::Shadowsocks, (false, false, true)),
        ("Vmess", ProxyType::Vmess, (false, false, true)),
        ("Vless", ProxyType::Vless, (false, false, true)),
        ("ShadowsocksR", ProxyType::ShadowsocksR, (false, false, true)),
        ("Http", ProxyType::Http, (false, false, true)),
        ("Snell", ProxyType::Snell, (false, false, true)),
        ("Trojan", ProxyType::Trojan, (false, false, true)),
        ("Socks5", ProxyType::Socks5, (false, false, true)),
        ("AnyTLS", ProxyType::AnyTLS, (false, false, true)),
        ("Mieru", ProxyType::Mieru, (false, false, true)),
        ("Sudoku", ProxyType::Sudoku, (false, false, true)),
        ("Hysteria", ProxyType::Hysteria, (false, false, true)),
        ("Hysteria2", ProxyType::Hysteria2, (false, false, true)),
        ("Tuic", ProxyType::Tuic, (false, false, true)),
        ("ShadowQuic", ProxyType::ShadowQuic, (false, false, true)),
        ("WireGuard", ProxyType::WireGuard, (false, false, true)),
        ("Tailscale", ProxyType::Tailscale, (false, false, true)),
        ("Ssh", ProxyType::Ssh, (false, false, true)),
        ("Masque", ProxyType::Masque, (false, false, true)),
        ("TrustTunnel", ProxyType::TrustTunnel, (false, false, true)),
        ("OpenVPN", ProxyType::OpenVPN, (false, false, true)),
        ("GostRelay", ProxyType::GostRelay, (false, false, true)),
    ];
    for (api_name, proxy_type, expected_kind) in cases {
        let json = format!(r#""{api_name}""#);
        let parsed = ProxyType::from_name(&serde_json::from_str::<String>(&json).unwrap());

        assert_eq!(parsed, proxy_type, "failed to parse {api_name}");
        assert_eq!(
            serde_json::to_string(proxy_type.name()).unwrap(),
            json,
            "failed to serialize {api_name}"
        );
        assert_eq!(
            (
                proxy_type.is_built_in(),
                proxy_type.is_group(),
                proxy_type.is_normal()
            ),
            expected_kind,
            "incorrect classification for {api_name}"
        );
    }

    for alias in ["VLESS", "vless"] {
        assert_eq!(
            ProxyType::from_name(&serde_json::from_str::<String>(&format!(r#""{alias}""#)).unwrap()),
            ProxyType::Vless
        );
    }
}

#[test]
fn unknown_names_give_the_unknown_type() {
    assert_eq!(ProxyType::from_name("Socks4"), ProxyType::Unknown);
    assert_eq!(ProxyType::from_name(""), ProxyType::Unknown);
    assert_eq!(ProxyType::from_name("direct"), ProxyType::Unknown);
    assert_eq!(ProxyType::Unknown.name(), "Unknown");
    assert!(!ProxyType::Unknown.is_built_in());
    assert!(!ProxyType::Unknown.is_group());
    assert!(!ProxyType::Unknown.is_normal());
    assert!(!ProxyType::Unknown.is_selector());
    assert!(ProxyType::Selector.is_selector());
    assert!(!ProxyType::URLTest.is_selector());
}

#[test]
fn later_entry_of_a_name_wins() {
    let mut p = proxy(ProxyType::Vmess);
    p.history.push(History { time: "t".to_owned(), delay: 12 });
    let proxies = Proxies::from_entries(vec![
        ("a".to_owned(), proxy(ProxyType::Direct)),
        ("b".to_owned(), proxy(ProxyType::Trojan)),
        ("a".to_owned(), p.clone()),
    ]);
    assert_eq!(proxies.len(), 2);
    assert_eq!(proxies.get("a"), Some(&p));
    assert_eq!(proxies.get("b").map(|x| x.proxy_type), Some(ProxyType::Trojan));
    assert_eq!(proxies.get("c"), None);
    assert_eq!(proxies.normal().len(), 2);
    assert!(proxies.built_ins().is_empty());
}

#[test]
fn insert_then_get_gives_it_back() {
    let mut proxies = Proxies::new();
    assert_eq!(proxies.insert("x".to_owned(), proxy(ProxyType::Selector)), None);
    assert_eq!(proxies.insert("y".to_owned(), proxy(ProxyType::Http)), None);
    let old = proxies.insert("x".to_owned(), proxy(ProxyType::URLTest));
    assert_eq!(old.map(|p| p.proxy_type), Some(ProxyType::Selector));
    assert_eq!(proxies.get("x").map(|p| p.proxy_type), Some(ProxyType::URLTest));
    assert_eq!(proxies.get("y").map(|p| p.proxy_type), Some(ProxyType::Http));
    assert_eq!(proxies.len(), 2);
}

#[test]
fn selectors_are_among_groups_and_unknown_is_nowhere() {
    let proxies = Proxies::from_entries(vec![
        ("s".to_owned(), proxy(ProxyType::Selector)),
        ("u".to_owned(), proxy(ProxyType::URLTest)),
        ("r".to_owned(), proxy(ProxyType::Relay)),
        ("x".to_owned(), proxy(ProxyType::Unknown)),
        ("d".to_owned(), proxy(ProxyType::Dns)),
    ]);
    let selectors = proxies.selectors().into_iter().map(|x| x.0.clone()).collect::<Vec<_>>();
    let groups = proxies.groups().into_iter().map(|x| x.0.clone()).collect::<Vec<_>>();
    assert_eq!(selectors, vec!["s"]);
    assert_eq!(groups, vec!["s", "u", "r"]);
    let total = proxies.normal().len() + groups.len() + proxies.built_ins().len();
    assert_eq!(total + 1, proxies.len());
}

#[test]
fn equality_ignores_the_order_of_names() {
    let mut slow = proxy(ProxyType::Vmess);
    slow.history.push(History { time: "t1".to_owned(), delay: 300 });
    let a = Proxies::from_entries(vec![
        ("a".to_owned(), proxy(ProxyType::Direct)),
        ("b".to_owned(), slow.clone()),
    ]);
    let b = Proxies::from_entries(vec![
        ("b".to_owned(), slow.clone()),
        ("a".to_owned(), proxy(ProxyType::Direct)),
    ]);
    assert!(a == b);
    let mut fast = slow.clone();
    fast.history[0].delay = 30;
    let c = Proxies::from_entries(vec![
        ("b".to_owned(), fast),
        ("a".to_owned(), proxy(ProxyType::Direct)),
    ]);
    assert!(a != c);
    let d = Proxies::from_entries(vec![("a".to_owned(), proxy(ProxyType::Direct))]);
    assert!(a != d);
    let e = Proxies::from_entries(vec![
        ("a".to_owned(), proxy(ProxyType::Direct)),
        ("c".to_owned(), slow),
    ]);
    assert!(a != e);
}

#[test]
fn iter_lists_every_name_once() {
    let proxies = Proxies::from_entries(vec![
        ("a".to_owned(), proxy(ProxyType::Direct)),
        ("x".to_owned(), proxy(ProxyType::Unknown)),
        ("a".to_owned(), proxy(ProxyType::Http)),
    ]);
    let names = proxies.iter().into_iter().map(|x| x.0.clone()).collect::<Vec<_>>();
    assert_eq!(names, vec!["a", "x"]);
    assert_eq!(proxies.get("a").map(|p| p.proxy_type), Some(ProxyType::Http));
}

#[test]
fn clone_holds_the_same_proxies() {
    let mut slow = proxy(ProxyType::Vmess);
    slow.history.push(History { time: "t1".to_owned(), delay: 300 });
    slow.all = Some(vec!["m1".to_owned(), "m2".to_owned()]);
    slow.now = Some("m2".to_owned());
    let a = Proxies::from_entries(vec![
        ("a".to_owned(), proxy(ProxyType::Direct)),
        ("b".to_owned(), slow.clone()),
    ]);
    let b = a.clone();
    assert!(a == b);
    assert_eq!(b.get("b"), Some(&slow));
    assert_eq!(b.get("a").map(|p| p.proxy_type), Some(ProxyType::Direct));
    assert_eq!(b.len(), 2);
}
