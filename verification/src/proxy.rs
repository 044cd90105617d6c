//! Proxies as the Clash / Mihomo API reports them, and their kinds.

use vstd::prelude::*;
use vstd::std_specs::cmp::PartialEqSpecImpl;

verus! {

/// The type of a proxy or proxy group.
#[derive(Debug, PartialEq, PartialOrd, Eq, Ord, Clone, Copy, Hash, Structural)]
pub enum ProxyType {
    // Built-in types
    Direct,
    Reject,
    RejectDrop,
    Compatible,
    Pass,
    PassRule,
    Rematch,
    Dns,
    // Proxy groups
    Selector,
    URLTest,
    Fallback,
    LoadBalance,
    // Proxies
    Shadowsocks,
    Vmess,
    Vless,
    ShadowsocksR,
    Http,
    Snell,
    Trojan,
    Socks5,
    AnyTLS,
    Mieru,
    Sudoku,
    Hysteria,
    Hysteria2,
    Tuic,
    ShadowQuic,
    WireGuard,
    Tailscale,
    Ssh,
    Masque,
    TrustTunnel,
    OpenVPN,
    GostRelay,
    // Relay
    Relay,
    // Any type this library does not know
    Unknown,
}

/// Selector groups: the user picks their member.
pub open spec fn spec_is_selector(t: ProxyType) -> bool {
    t == ProxyType::Selector
}

/// Proxy groups: their traffic goes through one of their members.
pub open spec fn spec_is_group(t: ProxyType) -> bool {
    match t {
        ProxyType::Selector
            | ProxyType::URLTest
            | ProxyType::Fallback
            | ProxyType::LoadBalance
            | ProxyType::Relay => true,
        _ => false,
    }
}

/// The built-in outbounds of Clash / Mihomo.
pub open spec fn spec_is_built_in(t: ProxyType) -> bool {
    match t {
        ProxyType::Direct
            | ProxyType::Reject
            | ProxyType::RejectDrop
            | ProxyType::Compatible
            | ProxyType::Pass
            | ProxyType::PassRule
            | ProxyType::Rematch
            | ProxyType::Dns => true,
        _ => false,
    }
}

/// Proxies proper: outbounds that speak a proxy protocol.
pub open spec fn spec_is_normal(t: ProxyType) -> bool {
    match t {
        ProxyType::Shadowsocks
            | ProxyType::Vmess
            | ProxyType::Vless
            | ProxyType::ShadowsocksR
            | ProxyType::Http
            | ProxyType::Snell
            | ProxyType::Trojan
            | ProxyType::Socks5
            | ProxyType::AnyTLS
            | ProxyType::Mieru
            | ProxyType::Sudoku
            | ProxyType::Hysteria
            | ProxyType::Hysteria2
            | ProxyType::Tuic
            | ProxyType::ShadowQuic
            | ProxyType::WireGuard
            | ProxyType::Tailscale
            | ProxyType::Ssh
            | ProxyType::Masque
            | ProxyType::TrustTunnel
            | ProxyType::OpenVPN
            | ProxyType::GostRelay => true,
        _ => false,
    }
}

/// The name of a proxy type, as the API writes it.
pub open spec fn spec_type_name(t: ProxyType) -> Seq<char> {
    match t {
        ProxyType::Direct => "Direct"@,
        ProxyType::Reject => "Reject"@,
        ProxyType::RejectDrop => "RejectDrop"@,
        ProxyType::Compatible => "Compatible"@,
        ProxyType::Pass => "Pass"@,
        ProxyType::PassRule => "PassRule"@,
        ProxyType::Rematch => "Rematch"@,
        ProxyType::Dns => "Dns"@,
        ProxyType::Selector => "Selector"@,
        ProxyType::URLTest => "URLTest"@,
        ProxyType::Fallback => "Fallback"@,
        ProxyType::LoadBalance => "LoadBalance"@,
        ProxyType::Shadowsocks => "Shadowsocks"@,
        ProxyType::Vmess => "Vmess"@,
        ProxyType::Vless => "Vless"@,
        ProxyType::ShadowsocksR => "ShadowsocksR"@,
        ProxyType::Http => "Http"@,
        ProxyType::Snell => "Snell"@,
        ProxyType::Trojan => "Trojan"@,
        ProxyType::Socks5 => "Socks5"@,
        ProxyType::AnyTLS => "AnyTLS"@,
        ProxyType::Mieru => "Mieru"@,
        ProxyType::Sudoku => "Sudoku"@,
        ProxyType::Hysteria => "Hysteria"@,
        ProxyType::Hysteria2 => "Hysteria2"@,
        ProxyType::Tuic => "Tuic"@,
        ProxyType::ShadowQuic => "ShadowQuic"@,
        ProxyType::WireGuard => "WireGuard"@,
        ProxyType::Tailscale => "Tailscale"@,
        ProxyType::Ssh => "Ssh"@,
        ProxyType::Masque => "Masque"@,
        ProxyType::TrustTunnel => "TrustTunnel"@,
        ProxyType::OpenVPN => "OpenVPN"@,
        ProxyType::GostRelay => "GostRelay"@,
        ProxyType::Relay => "Relay"@,
        ProxyType::Unknown => "Unknown"@,
    }
}

/// The type a name stands for: a type's own name, `VLESS` or `vless` for
/// [`ProxyType::Vless`], and [`ProxyType::Unknown`] for any other name.
pub open spec fn spec_from_name(s: Seq<char>) -> ProxyType {
    if s == "Direct"@ {
        ProxyType::Direct
    } else if s == "Reject"@ {
        ProxyType::Reject
    } else if s == "RejectDrop"@ {
        ProxyType::RejectDrop
    } else if s == "Compatible"@ {
        ProxyType::Compatible
    } else if s == "Pass"@ {
        ProxyType::Pass
    } else if s == "PassRule"@ {
        ProxyType::PassRule
    } else if s == "Rematch"@ {
        ProxyType::Rematch
    } else if s == "Dns"@ {
        ProxyType::Dns
    } else if s == "Selector"@ {
        ProxyType::Selector
    } else if s == "URLTest"@ {
        ProxyType::URLTest
    } else if s == "Fallback"@ {
        ProxyType::Fallback
    } else if s == "LoadBalance"@ {
        ProxyType::LoadBalance
    } else if s == "Shadowsocks"@ {
        ProxyType::Shadowsocks
    } else if s == "Vmess"@ {
        ProxyType::Vmess
    } else if s == "Vless"@ || s == "VLESS"@ || s == "vless"@ {
        ProxyType::Vless
    } else if s == "ShadowsocksR"@ {
        ProxyType::ShadowsocksR
    } else if s == "Http"@ {
        ProxyType::Http
    } else if s == "Snell"@ {
        ProxyType::Snell
    } else if s == "Trojan"@ {
        ProxyType::Trojan
    } else if s == "Socks5"@ {
        ProxyType::Socks5
    } else if s == "AnyTLS"@ {
        ProxyType::AnyTLS
    } else if s == "Mieru"@ {
        ProxyType::Mieru
    } else if s == "Sudoku"@ {
        ProxyType::Sudoku
    } else if s == "Hysteria"@ {
        ProxyType::Hysteria
    } else if s == "Hysteria2"@ {
        ProxyType::Hysteria2
    } else if s == "Tuic"@ {
        ProxyType::Tuic
    } else if s == "ShadowQuic"@ {
        ProxyType::ShadowQuic
    } else if s == "WireGuard"@ {
        ProxyType::WireGuard
    } else if s == "Tailscale"@ {
        ProxyType::Tailscale
    } else if s == "Ssh"@ {
        ProxyType::Ssh
    } else if s == "Masque"@ {
        ProxyType::Masque
    } else if s == "TrustTunnel"@ {
        ProxyType::TrustTunnel
    } else if s == "OpenVPN"@ {
        ProxyType::OpenVPN
    } else if s == "GostRelay"@ {
        ProxyType::GostRelay
    } else if s == "Relay"@ {
        ProxyType::Relay
    } else {
        ProxyType::Unknown
    }
}

/// Whether two texts are the same.
fn same_text(a: &str, b: &str) -> (r: bool)
    ensures
        r == (a@ == b@),
{
    let n = a.unicode_len();
    if n != b.unicode_len() {
        return false;
    }
    let mut i: usize = 0;
    while i < n
        invariant
            i <= n,
            n == a@.len(),
            n == b@.len(),
            forall|j: int| 0 <= j < i ==> a@[j] == b@[j],
        decreases n - i,
    {
        if a.get_char(i) != b.get_char(i) {
            return false;
        }
        i = i + 1;
    }
    assert(a@ =~= b@);
    true
}

impl ProxyType {
    /// The type a name stands for, as the API reads it.
    pub fn from_name(name: &str) -> (t: ProxyType)
        ensures
            t == spec_from_name(name@),
    {
        if same_text(name, "Direct") {
            ProxyType::Direct
        } else if same_text(name, "Reject") {
            ProxyType::Reject
        } else if same_text(name, "RejectDrop") {
            ProxyType::RejectDrop
        } else if same_text(name, "Compatible") {
            ProxyType::Compatible
        } else if same_text(name, "Pass") {
            ProxyType::Pass
        } else if same_text(name, "PassRule") {
            ProxyType::PassRule
        } else if same_text(name, "Rematch") {
            ProxyType::Rematch
        } else if same_text(name, "Dns") {
            ProxyType::Dns
        } else if same_text(name, "Selector") {
            ProxyType::Selector
        } else if same_text(name, "URLTest") {
            ProxyType::URLTest
        } else if same_text(name, "Fallback") {
            ProxyType::Fallback
        } else if same_text(name, "LoadBalance") {
            ProxyType::LoadBalance
        } else if same_text(name, "Shadowsocks") {
            ProxyType::Shadowsocks
        } else if same_text(name, "Vmess") {
            ProxyType::Vmess
        } else if same_text(name, "Vless") || same_text(name, "VLESS") || same_text(name, "vless") {
            ProxyType::Vless
        } else if same_text(name, "ShadowsocksR") {
            ProxyType::ShadowsocksR
        } else if same_text(name, "Http") {
            ProxyType::Http
        } else if same_text(name, "Snell") {
            ProxyType::Snell
        } else if same_text(name, "Trojan") {
            ProxyType::Trojan
        } else if same_text(name, "Socks5") {
            ProxyType::Socks5
        } else if same_text(name, "AnyTLS") {
            ProxyType::AnyTLS
        } else if same_text(name, "Mieru") {
            ProxyType::Mieru
        } else if same_text(name, "Sudoku") {
            ProxyType::Sudoku
        } else if same_text(name, "Hysteria") {
            ProxyType::Hysteria
        } else if same_text(name, "Hysteria2") {
            ProxyType::Hysteria2
        } else if same_text(name, "Tuic") {
            ProxyType::Tuic
        } else if same_text(name, "ShadowQuic") {
            ProxyType::ShadowQuic
        } else if same_text(name, "WireGuard") {
            ProxyType::WireGuard
        } else if same_text(name, "Tailscale") {
            ProxyType::Tailscale
        } else if same_text(name, "Ssh") {
            ProxyType::Ssh
        } else if same_text(name, "Masque") {
            ProxyType::Masque
        } else if same_text(name, "TrustTunnel") {
            ProxyType::TrustTunnel
        } else if same_text(name, "OpenVPN") {
            ProxyType::OpenVPN
        } else if same_text(name, "GostRelay") {
            ProxyType::GostRelay
        } else if same_text(name, "Relay") {
            ProxyType::Relay
        } else {
            ProxyType::Unknown
        }
    }

    pub fn is_selector(&self) -> (b: bool)
        ensures
            b == spec_is_selector(*self),
    {
        match self {
            ProxyType::Selector => true,
            _ => false,
        }
    }

    pub fn is_group(&self) -> (b: bool)
        ensures
            b == spec_is_group(*self),
    {
        match self {
            ProxyType::Selector
            | ProxyType::URLTest
            | ProxyType::Fallback
            | ProxyType::LoadBalance
            | ProxyType::Relay => true,
            _ => false,
        }
    }

    pub fn is_built_in(&self) -> (b: bool)
        ensures
            b == spec_is_built_in(*self),
    {
        match self {
            ProxyType::Direct
            | ProxyType::Reject
            | ProxyType::RejectDrop
            | ProxyType::Compatible
            | ProxyType::Pass
            | ProxyType::PassRule
            | ProxyType::Rematch
            | ProxyType::Dns => true,
            _ => false,
        }
    }

    pub fn is_normal(&self) -> (b: bool)
        ensures
            b == spec_is_normal(*self),
    {
        match self {
            ProxyType::Shadowsocks
            | ProxyType::Vmess
            | ProxyType::Vless
            | ProxyType::ShadowsocksR
            | ProxyType::Http
            | ProxyType::Snell
            | ProxyType::Trojan
            | ProxyType::Socks5
            | ProxyType::AnyTLS
            | ProxyType::Mieru
            | ProxyType::Sudoku
            | ProxyType::Hysteria
            | ProxyType::Hysteria2
            | ProxyType::Tuic
            | ProxyType::ShadowQuic
            | ProxyType::WireGuard
            | ProxyType::Tailscale
            | ProxyType::Ssh
            | ProxyType::Masque
            | ProxyType::TrustTunnel
            | ProxyType::OpenVPN
            | ProxyType::GostRelay => true,
            _ => false,
        }
    }

    /// The name of the type, as the API writes it.
    pub fn name(&self) -> (s: &'static str)
        ensures
            s@ == spec_type_name(*self),
    {
        match self {
            ProxyType::Direct => "Direct",
            ProxyType::Reject => "Reject",
            ProxyType::RejectDrop => "RejectDrop",
            ProxyType::Compatible => "Compatible",
            ProxyType::Pass => "Pass",
            ProxyType::PassRule => "PassRule",
            ProxyType::Rematch => "Rematch",
            ProxyType::Dns => "Dns",
            ProxyType::Selector => "Selector",
            ProxyType::URLTest => "URLTest",
            ProxyType::Fallback => "Fallback",
            ProxyType::LoadBalance => "LoadBalance",
            ProxyType::Shadowsocks => "Shadowsocks",
            ProxyType::Vmess => "Vmess",
            ProxyType::Vless => "Vless",
            ProxyType::ShadowsocksR => "ShadowsocksR",
            ProxyType::Http => "Http",
            ProxyType::Snell => "Snell",
            ProxyType::Trojan => "Trojan",
            ProxyType::Socks5 => "Socks5",
            ProxyType::AnyTLS => "AnyTLS",
            ProxyType::Mieru => "Mieru",
            ProxyType::Sudoku => "Sudoku",
            ProxyType::Hysteria => "Hysteria",
            ProxyType::Hysteria2 => "Hysteria2",
            ProxyType::Tuic => "Tuic",
            ProxyType::ShadowQuic => "ShadowQuic",
            ProxyType::WireGuard => "WireGuard",
            ProxyType::Tailscale => "Tailscale",
            ProxyType::Ssh => "Ssh",
            ProxyType::Masque => "Masque",
            ProxyType::TrustTunnel => "TrustTunnel",
            ProxyType::OpenVPN => "OpenVPN",
            ProxyType::GostRelay => "GostRelay",
            ProxyType::Relay => "Relay",
            ProxyType::Unknown => "Unknown",
        }
    }
}

/// Every known type is exactly one of built-in, group or proxy; a type this
/// library does not know is none of them.
pub proof fn lemma_kinds_partition(t: ProxyType)
    ensures
        t == ProxyType::Unknown ==> !spec_is_built_in(t) && !spec_is_group(t) && !spec_is_normal(t),
        t != ProxyType::Unknown ==> (if spec_is_built_in(t) { 1int } else { 0 }) + (if spec_is_group(t) { 1int } else { 0 })
            + (if spec_is_normal(t) { 1int } else { 0 }) == 1,
{
}

/// Every selector is a group.
pub proof fn lemma_selector_is_group(t: ProxyType)
    ensures
        spec_is_selector(t) ==> spec_is_group(t),
{
}

/// One latency measurement of a proxy.
#[derive(Clone, Debug, PartialEq, Eq, PartialOrd, Ord)]
pub struct History {
    /// When the measurement was taken, as the API writes it.
    pub time: String,
    /// Round-trip delay in milliseconds; 0 when the test failed.
    pub delay: u64,
}

/// A proxy, group or built-in outbound as the API reports it.
#[derive(Clone, Debug, PartialEq, Eq, PartialOrd, Ord)]
pub struct Proxy {
    pub proxy_type: ProxyType,
    pub history: Vec<History>,
    pub udp: Option<bool>,
    /// Members of a group (groups only).
    pub all: Option<Vec<String>>,
    /// Member a group currently uses (groups only).
    pub now: Option<String>,
}

/// Mathematical form of a named proxy.
pub type ProxyEntry = (Seq<char>, Proxy);

/// The entries among `es` whose proxy type satisfies `p`, in order.
pub open spec fn entries_where(es: Seq<ProxyEntry>, p: spec_fn(ProxyType) -> bool) -> Seq<ProxyEntry>
    decreases es.len(),
{
    if es.len() == 0 {
        Seq::empty()
    } else {
        let prev = entries_where(es.drop_last(), p);
        if p(es.last().1.proxy_type) {
            prev.push(es.last())
        } else {
            prev
        }
    }
}

/// No two entries share a name.
pub open spec fn names_distinct(es: Seq<ProxyEntry>) -> bool {
    forall|i: int, j: int| 0 <= i < es.len() && 0 <= j < es.len() && i != j ==> es[i].0 != es[j].0
}

/// The entries as a map from name to proxy.
pub open spec fn proxy_map(es: Seq<ProxyEntry>) -> Map<Seq<char>, Proxy>
    decreases es.len(),
{
    if es.len() == 0 {
        Map::empty()
    } else {
        proxy_map(es.drop_last()).insert(es.last().0, es.last().1)
    }
}

/// All proxies the API reports, by name.
#[derive(Debug, Eq)]
pub struct Proxies {
    proxies: Vec<(String, Proxy)>,
}

impl Proxies {
    /// No two proxies share a name.
    #[verifier::type_invariant]
    spec fn names_are_distinct(self) -> bool {
        names_distinct(self.proxies@.map_values(|e: (String, Proxy)| (e.0@, e.1)))
    }
}

/// What a latency measurement holds, its time as text.
pub type HistoryView = (Seq<char>, u64);

pub open spec fn history_view(h: History) -> HistoryView {
    (h.time@, h.delay)
}

/// What a proxy holds, its texts as character sequences.
pub type ProxyView = (ProxyType, Seq<HistoryView>, Option<bool>, Option<Seq<Seq<char>>>, Option<Seq<char>>);

pub open spec fn proxy_view(p: Proxy) -> ProxyView {
    (
        p.proxy_type,
        p.history@.map_values(|h: History| history_view(h)),
        p.udp,
        match p.all {
            Some(v) => Some(v@.map_values(|t: String| t@)),
            None => None,
        },
        match p.now {
            Some(t) => Some(t@),
            None => None,
        },
    )
}

/// What each named proxy of the entries holds, by name.
pub open spec fn proxy_views(es: Seq<ProxyEntry>) -> Map<Seq<char>, ProxyView> {
    proxy_map(es).map_values(|p: Proxy| proxy_view(p))
}

fn same_history(a: &Vec<History>, b: &Vec<History>) -> (r: bool)
    ensures
        r == (a@.map_values(|h: History| history_view(h)) == b@.map_values(|h: History| history_view(h))),
{
    let ghost va = a@.map_values(|h: History| history_view(h));
    let ghost vb = b@.map_values(|h: History| history_view(h));
    if a.len() != b.len() {
        assert(va.len() != vb.len());
        return false;
    }
    let mut i: usize = 0;
    while i < a.len()
        invariant
            a@.len() == b@.len(),
            i <= a@.len(),
            va == a@.map_values(|h: History| history_view(h)),
            vb == b@.map_values(|h: History| history_view(h)),
            forall|j: int| 0 <= j < i ==> va[j] == vb[j],
        decreases a@.len() - i,
    {
        if !(a[i].time == b[i].time) || a[i].delay != b[i].delay {
            assert(va[i as int] != vb[i as int]);
            return false;
        }
        assert(va[i as int] == vb[i as int]);
        i = i + 1;
    }
    assert(va =~= vb);
    true
}

fn same_texts(a: &Vec<String>, b: &Vec<String>) -> (r: bool)
    ensures
        r == (a@.map_values(|t: String| t@) == b@.map_values(|t: String| t@)),
{
    let ghost va = a@.map_values(|t: String| t@);
    let ghost vb = b@.map_values(|t: String| t@);
    if a.len() != b.len() {
        assert(va.len() != vb.len());
        return false;
    }
    let mut i: usize = 0;
    while i < a.len()
        invariant
            a@.len() == b@.len(),
            i <= a@.len(),
            va == a@.map_values(|t: String| t@),
            vb == b@.map_values(|t: String| t@),
            forall|j: int| 0 <= j < i ==> va[j] == vb[j],
        decreases a@.len() - i,
    {
        if !(a[i] == b[i]) {
            assert(va[i as int] != vb[i as int]);
            return false;
        }
        i = i + 1;
    }
    assert(va =~= vb);
    true
}

fn same_proxy(a: &Proxy, b: &Proxy) -> (r: bool)
    ensures
        r == (proxy_view(*a) == proxy_view(*b)),
{
    if a.proxy_type != b.proxy_type {
        return false;
    }
    if !same_history(&a.history, &b.history) {
        return false;
    }
    let udp_same = match (a.udp, b.udp) {
        (Some(x), Some(y)) => x == y,
        (None, None) => true,
        _ => false,
    };
    if !udp_same {
        return false;
    }
    let all_same = match (&a.all, &b.all) {
        (Some(x), Some(y)) => same_texts(x, y),
        (None, None) => true,
        _ => false,
    };
    if !all_same {
        return false;
    }
    match (&a.now, &b.now) {
        (Some(x), Some(y)) => *x == *y,
        (None, None) => true,
        _ => false,
    }
}

impl PartialEq for Proxies {
    /// Equal when the same names carry equal proxies, whatever their order.
    fn eq(&self, other: &Proxies) -> (r: bool) {
        proof {
            use_type_invariant(self);
            use_type_invariant(other);
            lemma_proxy_map_len(self@);
            lemma_proxy_map_len(other@);
        }
        let ghost ms = proxy_views(self@);
        let ghost mo = proxy_views(other@);
        assert(ms.dom() =~= proxy_map(self@).dom());
        assert(mo.dom() =~= proxy_map(other@).dom());
        if self.proxies.len() != other.proxies.len() {
            assert(ms.dom().len() != mo.dom().len());
            return false;
        }
        let mut i: usize = 0;
        while i < self.proxies.len()
            invariant
                i <= self@.len(),
                names_distinct(self@),
                ms == proxy_views(self@),
                mo == proxy_views(other@),
                ms.dom() == proxy_map(self@).dom(),
                ms.dom().finite(),
                mo.dom().finite(),
                ms.dom().len() == mo.dom().len(),
                forall|j: int|
                    0 <= j < i ==> mo.dom().contains(#[trigger] self@[j].0) && mo[self@[j].0] == ms[self@[j].0],
            decreases self@.len() - i,
        {
            let name = &self.proxies[i].0;
            proof {
                lemma_proxy_map_at(self@, i as int);
                assert(self@[i as int] == (name@, self.proxies@[i as int].1));
            }
            match other.get(name.as_str()) {
                None => {
                    assert(ms.dom().contains(name@));
                    assert(!mo.dom().contains(name@));
                    return false;
                },
                Some(p) => {
                    if !same_proxy(&self.proxies[i].1, p) {
                        assert(ms[name@] != mo[name@]);
                        return false;
                    }
                },
            }
            i = i + 1;
        }
        proof {
            assert forall|k: Seq<char>| #[trigger] ms.dom().contains(k) implies mo.dom().contains(k) && mo[k] == ms[k] by {
                lemma_proxy_map_dom(self@, k);
                let j = choose|j: int| 0 <= j < self@.len() && self@[j].0 == k;
                assert(self@[j].0 == k);
            }
            assert(ms.dom().subset_of(mo.dom()));
            vstd::set_lib::lemma_subset_equality(ms.dom(), mo.dom());
            assert(ms =~= mo);
        }
        true
    }
}

impl PartialEqSpecImpl for Proxies {
    open spec fn obeys_eq_spec() -> bool {
        true
    }

    open spec fn eq_spec(&self, other: &Proxies) -> bool {
        proxy_views(self@) == proxy_views(other@)
    }
}

impl Clone for Proxies {
    /// A copy with the same names in the same order, each holding the same proxy.
    fn clone(&self) -> (res: Proxies)
        ensures
            res@.len() == self@.len(),
            forall|i: int|
                0 <= i < self@.len() ==> (#[trigger] res@[i]).0 == self@[i].0 && proxy_view(res@[i].1)
                    == proxy_view(self@[i].1),
            proxy_views(res@) == proxy_views(self@),
    {
        proof {
            use_type_invariant(self);
        }
        let mut v: Vec<(String, Proxy)> = Vec::new();
        let mut i: usize = 0;
        while i < self.proxies.len()
            invariant
                i <= self.proxies@.len(),
                names_distinct(self@),
                v@.len() == i,
                forall|j: int|
                    0 <= j < i ==> (#[trigger] v@[j]).0@ == self@[j].0 && proxy_view(v@[j].1) == proxy_view(
                        self@[j].1,
                    ),
            decreases self.proxies@.len() - i,
        {
            let name = self.proxies[i].0.clone();
            let proxy = copy_proxy(&self.proxies[i].1);
            assert(self@[i as int] == (self.proxies@[i as int].0@, self.proxies@[i as int].1));
            v.push((name, proxy));
            i = i + 1;
        }
        let ghost rv = v@.map_values(|e: (String, Proxy)| (e.0@, e.1));
        assert forall|a: int, b: int| 0 <= a < rv.len() && 0 <= b < rv.len() && a != b implies rv[a].0 != rv[b].0 by {
            assert(rv[a].0 == self@[a].0);
            assert(rv[b].0 == self@[b].0);
        }
        let res = Proxies { proxies: v };
        proof {
            lemma_views_agree(res@, self@);
        }
        res
    }
}

/// Entries that carry the same names, in order, with proxies that hold the
/// same, give the same proxies by name.
pub proof fn lemma_views_agree(a: Seq<ProxyEntry>, b: Seq<ProxyEntry>)
    requires
        a.len() == b.len(),
        forall|i: int| 0 <= i < a.len() ==> (#[trigger] a[i]).0 == b[i].0 && proxy_view(a[i].1) == proxy_view(b[i].1),
    ensures
        proxy_views(a) == proxy_views(b),
    decreases a.len(),
{
    if a.len() > 0 {
        let da = a.drop_last();
        let db = b.drop_last();
        assert forall|i: int| 0 <= i < da.len() implies (#[trigger] da[i]).0 == db[i].0 && proxy_view(da[i].1)
            == proxy_view(db[i].1) by {
            assert(da[i] == a[i]);
            assert(db[i] == b[i]);
        }
        lemma_views_agree(da, db);
        let n = a.len() - 1;
        assert(a[n].0 == b[n].0);
        assert(proxy_views(a) =~= proxy_views(da).insert(a[n].0, proxy_view(a[n].1)));
        assert(proxy_views(b) =~= proxy_views(db).insert(b[n].0, proxy_view(b[n].1)));
    } else {
        assert(proxy_views(a) =~= proxy_views(b));
    }
}

/// A copy of a proxy that holds the same: type, history, members and
/// the member in use.
fn copy_proxy(p: &Proxy) -> (r: Proxy)
    ensures
        proxy_view(r) == proxy_view(*p),
{
    let mut history: Vec<History> = Vec::new();
    let mut i: usize = 0;
    while i < p.history.len()
        invariant
            i <= p.history@.len(),
            history@.map_values(|h: History| history_view(h)) == p.history@.take(i as int).map_values(
                |h: History| history_view(h),
            ),
        decreases p.history@.len() - i,
    {
        let ghost before = history@;
        let h = History { time: p.history[i].time.clone(), delay: p.history[i].delay };
        assert(history_view(h) == history_view(p.history@[i as int]));
        history.push(h);
        assert(p.history@.take(i + 1) =~= p.history@.take(i as int).push(p.history@[i as int]));
        assert(history@.map_values(|h: History| history_view(h)) =~= before.map_values(|h: History| history_view(h)).push(
            history_view(h),
        ));
        assert(history@.map_values(|h: History| history_view(h)) =~= p.history@.take(i + 1).map_values(
            |h: History| history_view(h),
        ));
        i = i + 1;
    }
    assert(p.history@.take(i as int) =~= p.history@);
    let all = match &p.all {
        Some(v) => Some(copy_texts(v)),
        None => None,
    };
    let now = match &p.now {
        Some(t) => Some(t.clone()),
        None => None,
    };
    Proxy { proxy_type: p.proxy_type, history, udp: p.udp, all, now }
}

fn copy_texts(v: &Vec<String>) -> (r: Vec<String>)
    ensures
        r@.map_values(|t: String| t@) == v@.map_values(|t: String| t@),
{
    let mut r: Vec<String> = Vec::new();
    let mut i: usize = 0;
    while i < v.len()
        invariant
            i <= v@.len(),
            r@.map_values(|t: String| t@) == v@.take(i as int).map_values(|t: String| t@),
        decreases v@.len() - i,
    {
        let t = v[i].clone();
        let ghost before = r@;
        r.push(t);
        assert(v@.take(i + 1) =~= v@.take(i as int).push(v@[i as int]));
        assert(r@.map_values(|t: String| t@) =~= before.map_values(|t: String| t@).push(v@[i as int]@));
        assert(r@.map_values(|t: String| t@) =~= v@.take(i + 1).map_values(|t: String| t@));
        i = i + 1;
    }
    assert(v@.take(i as int) =~= v@);
    r
}

impl Default for Proxies {
    fn default() -> (res: Proxies)
        ensures
            res@ == Seq::<ProxyEntry>::empty(),
    {
        Proxies::new()
    }
}

impl View for Proxies {
    type V = Seq<ProxyEntry>;

    closed spec fn view(&self) -> Seq<ProxyEntry> {
        self.proxies@.map_values(|e: (String, Proxy)| (e.0@, e.1))
    }
}

pub proof fn lemma_proxy_map_dom(es: Seq<ProxyEntry>, k: Seq<char>)
    ensures
        proxy_map(es).dom().contains(k) <==> exists|i: int| 0 <= i < es.len() && es[i].0 == k,
    decreases es.len(),
{
    if es.len() > 0 {
        lemma_proxy_map_dom(es.drop_last(), k);
        if proxy_map(es.drop_last()).dom().contains(k) {
            let i = choose|i: int| 0 <= i < es.drop_last().len() && es.drop_last()[i].0 == k;
            assert(es[i].0 == k);
        }
        if exists|i: int| 0 <= i < es.len() && es[i].0 == k {
            let i = choose|i: int| 0 <= i < es.len() && es[i].0 == k;
            if i < es.len() - 1 {
                assert(es.drop_last()[i].0 == k);
            }
        }
    }
}

pub proof fn lemma_proxy_map_at(es: Seq<ProxyEntry>, i: int)
    requires
        names_distinct(es),
        0 <= i < es.len(),
    ensures
        proxy_map(es).dom().contains(es[i].0),
        proxy_map(es)[es[i].0] == es[i].1,
    decreases es.len(),
{
    if i < es.len() - 1 {
        lemma_proxy_map_at(es.drop_last(), i);
    }
}

proof fn lemma_proxy_map_update(es: Seq<ProxyEntry>, i: int, v: Proxy)
    requires
        names_distinct(es),
        0 <= i < es.len(),
    ensures
        names_distinct(es.update(i, (es[i].0, v))),
        proxy_map(es.update(i, (es[i].0, v))) == proxy_map(es).insert(es[i].0, v),
    decreases es.len(),
{
    let u = es.update(i, (es[i].0, v));
    if i == es.len() - 1 {
        assert(u.drop_last() =~= es.drop_last());
        assert(proxy_map(es).insert(es[i].0, v) =~= proxy_map(es.drop_last()).insert(es[i].0, v));
    } else {
        lemma_proxy_map_update(es.drop_last(), i, v);
        assert(u.drop_last() =~= es.drop_last().update(i, (es[i].0, v)));
        assert(es.last().0 != es[i].0);
        assert(proxy_map(u) =~= proxy_map(es).insert(es[i].0, v));
    }
}

impl Proxies {
    /// No proxies.
    pub fn new() -> (res: Proxies)
        ensures
            res@ == Seq::<ProxyEntry>::empty(),
            names_distinct(res@),
    {
        let res = Proxies { proxies: Vec::new() };
        assert(res@ =~= Seq::<ProxyEntry>::empty());
        res
    }

    /// Number of proxies.
    pub fn len(&self) -> (n: usize)
        ensures
            n == self@.len(),
            names_distinct(self@),
            proxy_map(self@).dom().finite(),
            proxy_map(self@).dom().len() == n,
    {
        proof {
            use_type_invariant(self);
            lemma_proxy_map_len(self@);
        }
        self.proxies.len()
    }

    /// The proxy of a name, if there is one.
    pub fn get(&self, name: &str) -> (res: Option<&Proxy>)
        ensures
            match res {
                Some(p) => proxy_map(self@).dom().contains(name@) && *p == proxy_map(self@)[name@],
                None => !proxy_map(self@).dom().contains(name@),
            },
    {
        proof {
            use_type_invariant(self);
        }
        let key = name.to_owned();
        let mut i: usize = 0;
        while i < self.proxies.len()
            invariant
                i <= self.proxies@.len(),
                key@ == name@,
                names_distinct(self@),
                forall|j: int| 0 <= j < i ==> self@[j].0 != name@,
            decreases self.proxies@.len() - i,
        {
            if self.proxies[i].0 == key {
                proof {
                    assert(self@[i as int].0 == name@);
                    lemma_proxy_map_at(self@, i as int);
                }
                return Some(&self.proxies[i].1);
            }
            assert(self@[i as int].0 != name@);
            i = i + 1;
        }
        proof {
            lemma_proxy_map_dom(self@, name@);
        }
        None
    }

    /// Sets the proxy of a name, returning the one it replaces.
    pub fn insert(&mut self, name: String, proxy: Proxy) -> (res: Option<Proxy>)
        ensures
            names_distinct(final(self)@),
            proxy_map(final(self)@) == proxy_map(old(self)@).insert(name@, proxy),
            res == (if proxy_map(old(self)@).dom().contains(name@) {
                Some(proxy_map(old(self)@)[name@])
            } else {
                None
            }),
    {
        proof {
            use_type_invariant(&*self);
        }
        let ghost es = old(self)@;
        let mut v: Vec<(String, Proxy)> = Vec::new();
        std::mem::swap(&mut v, &mut self.proxies);
        assert(v@.map_values(|e: (String, Proxy)| (e.0@, e.1)) == es);
        let mut i: usize = 0;
        while i < v.len()
            invariant
                i <= v@.len(),
                v@.map_values(|e: (String, Proxy)| (e.0@, e.1)) == es,
                es == old(self)@,
                names_distinct(es),
                forall|j: int| 0 <= j < i ==> es[j].0 != name@,
            decreases v@.len() - i,
        {
            if v[i].0 == name {
                proof {
                    assert(es[i as int].0 == name@);
                    lemma_proxy_map_at(es, i as int);
                    lemma_proxy_map_update(es, i as int, proxy);
                }
                let (key, old_proxy) = v.remove(i);
                v.insert(i, (key, proxy));
                assert(v@.map_values(|e: (String, Proxy)| (e.0@, e.1)) =~= es.update(i as int, (es[i as int].0, proxy)));
                self.proxies = v;
                assert(self@ == es.update(i as int, (es[i as int].0, proxy)));
                assert(old_proxy == es[i as int].1);
                assert(es == old(self)@);
                return Some(old_proxy);
            }
            assert(es[i as int].0 != name@);
            i = i + 1;
        }
        proof {
            lemma_proxy_map_dom(es, name@);
        }
        v.push((name, proxy));
        proof {
            assert(v@.map_values(|e: (String, Proxy)| (e.0@, e.1)) =~= es.push((name@, proxy)));
            assert(es.push((name@, proxy)).drop_last() =~= es);
        }
        self.proxies = v;
        None
    }

    /// The proxies named in `entries`; a name given twice keeps its later proxy.
    pub fn from_entries(entries: Vec<(String, Proxy)>) -> (res: Proxies)
        ensures
            names_distinct(res@),
            proxy_map(res@) == proxy_map(entries@.map_values(|e: (String, Proxy)| (e.0@, e.1))),
    {
        let ghost ev = entries@.map_values(|e: (String, Proxy)| (e.0@, e.1));
        let mut res = Proxies::new();
        let mut rest = entries;
        let ghost mut i: int = 0;
        while rest.len() > 0
            invariant
                0 <= i <= ev.len(),
                rest@.len() == ev.len() - i,
                rest@.map_values(|e: (String, Proxy)| (e.0@, e.1)) == ev.skip(i),
                names_distinct(res@),
                proxy_map(res@) == proxy_map(ev.take(i)),
            decreases rest@.len(),
        {
            let ghost before = rest@;
            let (name, proxy) = rest.remove(0);
            assert(before.map_values(|e: (String, Proxy)| (e.0@, e.1))[0] == ev.skip(i)[0]);
            assert(name@ == ev[i].0 && proxy == ev[i].1);
            res.insert(name, proxy);
            assert(ev.take(i + 1).drop_last() =~= ev.take(i));
            assert(rest@ == before.remove(0));
            assert forall|k: int| 0 <= k < rest@.len() implies (#[trigger] rest@[k]).0@ == ev[i + 1 + k].0
                && rest@[k].1 == ev[i + 1 + k].1 by {
                assert(rest@[k] == before[k + 1]);
                assert(before.map_values(|e: (String, Proxy)| (e.0@, e.1))[k + 1] == ev.skip(i)[k + 1]);
            }
            assert(rest@.map_values(|e: (String, Proxy)| (e.0@, e.1)) =~= ev.skip(i + 1));
            proof {
                i = i + 1;
            }
        }
        assert(ev.take(i) =~= ev);
        res
    }

    fn entries_with<F: Fn(&ProxyType) -> bool>(&self, keep: F, Ghost(p): Ghost<spec_fn(ProxyType) -> bool>) -> (res: Vec<(&String, &Proxy)>)
        requires
            forall|t: &ProxyType| #[trigger] keep.requires((t,)),
            forall|t: &ProxyType, b: bool| keep.ensures((t,), b) ==> b == p(*t),
        ensures
            res@.map_values(|e: (&String, &Proxy)| (e.0@, *e.1)) == entries_where(self@, p),
    {
        let mut res: Vec<(&String, &Proxy)> = Vec::new();
        let mut i: usize = 0;
        while i < self.proxies.len()
            invariant
                i <= self.proxies@.len(),
                forall|t: &ProxyType| #[trigger] keep.requires((t,)),
                forall|t: &ProxyType, b: bool| keep.ensures((t,), b) ==> b == p(*t),
                res@.map_values(|e: (&String, &Proxy)| (e.0@, *e.1)) == entries_where(self@.take(i as int), p),
            decreases self.proxies@.len() - i,
        {
            let entry = &self.proxies[i];
            assert(self@.take(i + 1).drop_last() =~= self@.take(i as int));
            if keep(&entry.1.proxy_type) {
                let ghost before = res@;
                res.push((&entry.0, &entry.1));
                assert(res@.map_values(|e: (&String, &Proxy)| (e.0@, *e.1)) =~= before.map_values(|e: (&String, &Proxy)| (e.0@, *e.1)).push(self@[i as int]));
            }
            i = i + 1;
        }
        assert(self@.take(i as int) =~= self@);
        res
    }

    /// Every named proxy, in stored order, each name once.
    pub fn iter(&self) -> (res: Vec<(&String, &Proxy)>)
        ensures
            res@.map_values(|e: (&String, &Proxy)| (e.0@, *e.1)) == self@,
            names_distinct(self@),
    {
        proof {
            use_type_invariant(self);
        }
        let mut res: Vec<(&String, &Proxy)> = Vec::new();
        let mut i: usize = 0;
        while i < self.proxies.len()
            invariant
                i <= self.proxies@.len(),
                res@.map_values(|e: (&String, &Proxy)| (e.0@, *e.1)) == self@.take(i as int),
            decreases self.proxies@.len() - i,
        {
            let entry = &self.proxies[i];
            let ghost before = res@;
            res.push((&entry.0, &entry.1));
            assert(self@[i as int] == (entry.0@, entry.1));
            assert(self@.take(i + 1) =~= self@.take(i as int).push(self@[i as int]));
            assert(res@.map_values(|e: (&String, &Proxy)| (e.0@, *e.1)) =~= before.map_values(
                |e: (&String, &Proxy)| (e.0@, *e.1),
            ).push(self@[i as int]));
            i = i + 1;
        }
        assert(self@.take(i as int) =~= self@);
        res
    }

    /// The proxies proper.
    pub fn normal(&self) -> (res: Vec<(&String, &Proxy)>)
        ensures
            res@.map_values(|e: (&String, &Proxy)| (e.0@, *e.1)) == entries_where(self@, |t: ProxyType| spec_is_normal(t)),
            names_distinct(self@),
            names_distinct(res@.map_values(|e: (&String, &Proxy)| (e.0@, *e.1))),
    {
        proof {
            use_type_invariant(self);
            lemma_entries_where_distinct(self@, |t: ProxyType| spec_is_normal(t));
        }
        self.entries_with(
            ProxyType::is_normal,
            Ghost(|t: ProxyType| spec_is_normal(t)),
        )
    }

    /// The proxy groups.
    pub fn groups(&self) -> (res: Vec<(&String, &Proxy)>)
        ensures
            res@.map_values(|e: (&String, &Proxy)| (e.0@, *e.1)) == entries_where(self@, |t: ProxyType| spec_is_group(t)),
            names_distinct(self@),
            names_distinct(res@.map_values(|e: (&String, &Proxy)| (e.0@, *e.1))),
    {
        proof {
            use_type_invariant(self);
            lemma_entries_where_distinct(self@, |t: ProxyType| spec_is_group(t));
        }
        self.entries_with(
            ProxyType::is_group,
            Ghost(|t: ProxyType| spec_is_group(t)),
        )
    }

    /// The selector groups.
    pub fn selectors(&self) -> (res: Vec<(&String, &Proxy)>)
        ensures
            res@.map_values(|e: (&String, &Proxy)| (e.0@, *e.1)) == entries_where(self@, |t: ProxyType| spec_is_selector(t)),
            names_distinct(self@),
            names_distinct(res@.map_values(|e: (&String, &Proxy)| (e.0@, *e.1))),
    {
        proof {
            use_type_invariant(self);
            lemma_entries_where_distinct(self@, |t: ProxyType| spec_is_selector(t));
        }
        self.entries_with(
            ProxyType::is_selector,
            Ghost(|t: ProxyType| spec_is_selector(t)),
        )
    }

    /// The built-in outbounds.
    pub fn built_ins(&self) -> (res: Vec<(&String, &Proxy)>)
        ensures
            res@.map_values(|e: (&String, &Proxy)| (e.0@, *e.1)) == entries_where(self@, |t: ProxyType| spec_is_built_in(t)),
            names_distinct(self@),
            names_distinct(res@.map_values(|e: (&String, &Proxy)| (e.0@, *e.1))),
    {
        proof {
            use_type_invariant(self);
            lemma_entries_where_distinct(self@, |t: ProxyType| spec_is_built_in(t));
        }
        self.entries_with(
            ProxyType::is_built_in,
            Ghost(|t: ProxyType| spec_is_built_in(t)),
        )
    }
}

/// Each entry kept by a filter is an entry of the sequence that passes it.
pub proof fn lemma_entries_where_from(es: Seq<ProxyEntry>, p: spec_fn(ProxyType) -> bool, k: int)
    requires
        0 <= k < entries_where(es, p).len(),
    ensures
        exists|i: int| 0 <= i < es.len() && es[i] == entries_where(es, p)[k] && p(es[i].1.proxy_type),
    decreases es.len(),
{
    let prev = entries_where(es.drop_last(), p);
    if k < prev.len() {
        lemma_entries_where_from(es.drop_last(), p, k);
        let i = choose|i: int| 0 <= i < es.drop_last().len() && es.drop_last()[i] == prev[k] && p(es.drop_last()[i].1.proxy_type);
        assert(es[i] == entries_where(es, p)[k]);
    } else {
        assert(es[es.len() - 1] == entries_where(es, p)[k]);
    }
}

/// Filtering entries with distinct names keeps each name at most once.
pub proof fn lemma_entries_where_distinct(es: Seq<ProxyEntry>, p: spec_fn(ProxyType) -> bool)
    requires
        names_distinct(es),
    ensures
        names_distinct(entries_where(es, p)),
    decreases es.len(),
{
    if es.len() > 0 {
        let d = es.drop_last();
        assert(names_distinct(d));
        lemma_entries_where_distinct(d, p);
        let prev = entries_where(d, p);
        if p(es.last().1.proxy_type) {
            assert forall|k: int| 0 <= k < prev.len() implies #[trigger] prev[k].0 != es.last().0 by {
                lemma_entries_where_from(d, p, k);
                let i = choose|i: int| 0 <= i < d.len() && d[i] == prev[k] && p(d[i].1.proxy_type);
                assert(es[i] == d[i]);
            }
            let r = prev.push(es.last());
            assert forall|a: int, b: int| 0 <= a < r.len() && 0 <= b < r.len() && a != b implies r[a].0 != r[b].0 by {
                if a < prev.len() && b < prev.len() {
                } else if a < prev.len() {
                    assert(prev[a].0 != es.last().0);
                } else {
                    assert(prev[b].0 != es.last().0);
                }
            }
        }
    }
}

/// Of entries with distinct names, no name is listed under two of the
/// kinds built-in, group and proxy proper.
pub proof fn lemma_kind_names_disjoint(es: Seq<ProxyEntry>, a: ProxyEntry, b: ProxyEntry)
    requires
        names_distinct(es),
    ensures
        entries_where(es, |t: ProxyType| spec_is_normal(t)).contains(a) && entries_where(
            es,
            |t: ProxyType| spec_is_group(t),
        ).contains(b) ==> a.0 != b.0,
        entries_where(es, |t: ProxyType| spec_is_normal(t)).contains(a) && entries_where(
            es,
            |t: ProxyType| spec_is_built_in(t),
        ).contains(b) ==> a.0 != b.0,
        entries_where(es, |t: ProxyType| spec_is_group(t)).contains(a) && entries_where(
            es,
            |t: ProxyType| spec_is_built_in(t),
        ).contains(b) ==> a.0 != b.0,
{
    lemma_where_disjoint(es, |t: ProxyType| spec_is_normal(t), |t: ProxyType| spec_is_group(t), a, b);
    lemma_where_disjoint(es, |t: ProxyType| spec_is_normal(t), |t: ProxyType| spec_is_built_in(t), a, b);
    lemma_where_disjoint(es, |t: ProxyType| spec_is_group(t), |t: ProxyType| spec_is_built_in(t), a, b);
}

proof fn lemma_where_disjoint(
    es: Seq<ProxyEntry>,
    p: spec_fn(ProxyType) -> bool,
    q: spec_fn(ProxyType) -> bool,
    a: ProxyEntry,
    b: ProxyEntry,
)
    requires
        names_distinct(es),
        forall|t: ProxyType| #[trigger] p(t) ==> !q(t),
    ensures
        entries_where(es, p).contains(a) && entries_where(es, q).contains(b) ==> a.0 != b.0,
{
    if entries_where(es, p).contains(a) && entries_where(es, q).contains(b) {
        let ka = choose|k: int| 0 <= k < entries_where(es, p).len() && entries_where(es, p)[k] == a;
        let kb = choose|k: int| 0 <= k < entries_where(es, q).len() && entries_where(es, q)[k] == b;
        lemma_entries_where_from(es, p, ka);
        lemma_entries_where_from(es, q, kb);
        let i = choose|i: int| 0 <= i < es.len() && es[i] == entries_where(es, p)[ka] && p(es[i].1.proxy_type);
        let j = choose|j: int| 0 <= j < es.len() && es[j] == entries_where(es, q)[kb] && q(es[j].1.proxy_type);
        if i == j {
            assert(!q(es[i].1.proxy_type));
        }
    }
}

/// Entries with distinct names make a map with one key per entry.
pub proof fn lemma_proxy_map_len(es: Seq<ProxyEntry>)
    requires
        names_distinct(es),
    ensures
        proxy_map(es).dom().finite(),
        proxy_map(es).dom().len() == es.len(),
    decreases es.len(),
{
    if es.len() > 0 {
        let d = es.drop_last();
        assert(names_distinct(d));
        lemma_proxy_map_len(d);
        lemma_proxy_map_dom(d, es.last().0);
        if proxy_map(d).dom().contains(es.last().0) {
            let i = choose|i: int| 0 <= i < d.len() && d[i].0 == es.last().0;
            assert(es[i].0 == es[es.len() - 1].0);
        }
    } else {
        assert(proxy_map(es).dom() =~= Set::<Seq<char>>::empty());
    }
}

/// Built-ins, groups and proxies proper split the entries between them,
/// entries of an unknown type aside.
pub proof fn lemma_entries_split(es: Seq<ProxyEntry>)
    ensures
        entries_where(es, |t: ProxyType| spec_is_built_in(t)).len()
            + entries_where(es, |t: ProxyType| spec_is_group(t)).len()
            + entries_where(es, |t: ProxyType| spec_is_normal(t)).len()
            + entries_where(es, |t: ProxyType| t == ProxyType::Unknown).len() == es.len(),
    decreases es.len(),
{
    if es.len() > 0 {
        lemma_entries_split(es.drop_last());
        lemma_kinds_partition(es.last().1.proxy_type);
    }
}

/// Every selector listed is also listed among the groups.
pub proof fn lemma_selectors_are_groups(es: Seq<ProxyEntry>, e: ProxyEntry)
    ensures
        entries_where(es, |t: ProxyType| spec_is_selector(t)).contains(e) ==> entries_where(
            es,
            |t: ProxyType| spec_is_group(t),
        ).contains(e),
    decreases es.len(),
{
    broadcast use vstd::seq_lib::lemma_seq_contains_after_push;

    if es.len() > 0 {
        lemma_selectors_are_groups(es.drop_last(), e);
    }
}

/// Setting the proxy of a name and then asking for that name gives it back,
/// and leaves every other name as it was.
pub proof fn lemma_insert_then_get(m: Map<Seq<char>, Proxy>, name: Seq<char>, proxy: Proxy, other: Seq<char>)
    ensures
        m.insert(name, proxy).dom().contains(name),
        m.insert(name, proxy)[name] == proxy,
        other != name ==> (m.insert(name, proxy).dom().contains(other) == m.dom().contains(other)),
        other != name && m.dom().contains(other) ==> m.insert(name, proxy)[other] == m[other],
{
}

} // verus!
