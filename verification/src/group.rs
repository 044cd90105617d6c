//! A proxy group as the proxies tab shows it: a header line, then either a
//! compact latency summary or one aligned row per member.

use crate::cells::{cells, char_cells, char_width, lemma_cells_single, push_char, str_width, widths};
use crate::helper::{
    fit_to_width, get_text_style, lemma_fit_exact, lemma_spans_window_fits, pad_widths, spans_window_owned,
    spec_fit, spec_spans_window, spec_truncate, ELLIPSIS,
};
use crate::proxy::{spec_is_normal, spec_type_name, History, ProxyType};
use crate::style::{
    line_text, line_widths, plain_style, spans_view, Color, Span, SpanView, Spans, Style, BOLD,
};
use vstd::prelude::*;

verus! {

/// A member of a proxy group.
#[derive(Clone, Debug, PartialEq, Eq, PartialOrd, Ord)]
pub struct ProxyItem {
    pub name: String,
    pub proxy_type: ProxyType,
    /// Latest latency measurement, if any.
    pub history: Option<History>,
    pub udp: Option<bool>,
    pub now: Option<String>,
}

/// A proxy group with the member under the cursor.
#[derive(Clone, Debug, PartialEq, Eq, PartialOrd, Ord)]
pub struct ProxyGroup {
    pub name: String,
    pub proxy_type: ProxyType,
    pub members: Vec<ProxyItem>,
    /// Index of the member the group uses, if known.
    pub current: Option<usize>,
    /// Index of the member under the cursor.
    pub cursor: usize,
}

/// How a group is drawn.
#[derive(Clone, Copy, Debug, PartialEq, Eq, Structural)]
pub enum ProxyGroupFocusStatus {
    /// Neither focused nor expanded.
    Unfocused,
    Focused,
    Expanded,
}

// ---------------------------------------------------------------------------
// Glyphs and styles of the proxies tab.

pub open spec fn spec_focused_indicator() -> Seq<char> {
    "🭬"@
}

pub open spec fn spec_unfocused_indicator() -> Seq<char> {
    " "@
}

pub open spec fn spec_expanded_focused_indicator() -> Seq<char> {
    "➤"@
}

pub open spec fn spec_expanded_indicator() -> Seq<char> {
    " "@
}

pub open spec fn spec_delimiter() -> Seq<char> {
    " "@
}

/// Dot drawn for a proxy in the summary.
pub open spec fn spec_latency_sign() -> Seq<char> {
    "⬤"@
}

/// Mark drawn for a member that is not a proxy proper.
pub open spec fn spec_not_proxy_sign() -> Seq<char> {
    "✪"@
}

/// Text of the latency column for a proxy never measured.
pub open spec fn spec_no_latency_sign() -> Seq<char> {
    "-"@
}

pub open spec fn fg_style(c: Color) -> Style {
    Style { fg: Some(c), ..plain_style() }
}

pub open spec fn bold(s: Style) -> Style {
    Style { add_modifier: s.add_modifier | BOLD, sub_modifier: s.sub_modifier & !BOLD, ..s }
}

pub open spec fn spec_no_latency_style() -> Style {
    fg_style(Color::DarkGray)
}

pub open spec fn spec_low_latency_style() -> Style {
    fg_style(Color::LightGreen)
}

pub open spec fn spec_mid_latency_style() -> Style {
    fg_style(Color::LightYellow)
}

pub open spec fn spec_high_latency_style() -> Style {
    fg_style(Color::LightRed)
}

pub open spec fn spec_proxy_type_style() -> Style {
    fg_style(Color::Gray)
}

pub open spec fn spec_indicator_style() -> Style {
    fg_style(Color::LightYellow)
}

pub open spec fn spec_focused_indicator_span() -> SpanView {
    (spec_focused_indicator(), spec_indicator_style())
}

pub open spec fn spec_unfocused_indicator_span() -> SpanView {
    (spec_unfocused_indicator(), plain_style())
}

pub open spec fn spec_expanded_focused_indicator_span() -> SpanView {
    (spec_expanded_focused_indicator(), spec_indicator_style())
}

pub open spec fn spec_expanded_indicator_span() -> SpanView {
    (spec_expanded_indicator(), plain_style())
}

pub open spec fn spec_delimiter_span() -> SpanView {
    (spec_delimiter(), plain_style())
}

pub open spec fn spec_not_proxy_span() -> SpanView {
    (spec_not_proxy_sign(), spec_no_latency_style())
}

fn no_latency_style() -> (s: Style)
    ensures
        s == spec_no_latency_style(),
{
    Style::default().fg(Color::DarkGray)
}

fn proxy_type_style() -> (s: Style)
    ensures
        s == spec_proxy_type_style(),
{
    Style::default().fg(Color::Gray)
}

fn focused_indicator_span() -> (s: Span)
    ensures
        s@ == spec_focused_indicator_span(),
{
    Span::styled("🭬".to_owned(), Style::default().fg(Color::LightYellow))
}

fn unfocused_indicator_span() -> (s: Span)
    ensures
        s@ == spec_unfocused_indicator_span(),
{
    Span::raw(" ".to_owned())
}

fn expanded_focused_indicator_span() -> (s: Span)
    ensures
        s@ == spec_expanded_focused_indicator_span(),
{
    Span::styled("➤".to_owned(), Style::default().fg(Color::LightYellow))
}

fn expanded_indicator_span() -> (s: Span)
    ensures
        s@ == spec_expanded_indicator_span(),
{
    Span::raw(" ".to_owned())
}

fn delimiter_span() -> (s: Span)
    ensures
        s@ == spec_delimiter_span(),
{
    Span::raw(" ".to_owned())
}

// ---------------------------------------------------------------------------
// Numbers.

pub open spec fn digit_char(d: nat) -> char {
    if d == 0 {
        '0'
    } else if d == 1 {
        '1'
    } else if d == 2 {
        '2'
    } else if d == 3 {
        '3'
    } else if d == 4 {
        '4'
    } else if d == 5 {
        '5'
    } else if d == 6 {
        '6'
    } else if d == 7 {
        '7'
    } else if d == 8 {
        '8'
    } else {
        '9'
    }
}

/// Decimal digits of a number, most significant first.
pub open spec fn spec_decimal(n: nat) -> Seq<char>
    decreases n,
{
    if n < 10 {
        seq![digit_char(n)]
    } else {
        spec_decimal(n / 10).push(digit_char(n % 10))
    }
}

/// Writes a number in decimal.
pub fn decimal(n: u64) -> (s: String)
    ensures
        s@ == spec_decimal(n as nat),
    decreases n,
{
    let d = n % 10;
    let c = if d == 0 {
        '0'
    } else if d == 1 {
        '1'
    } else if d == 2 {
        '2'
    } else if d == 3 {
        '3'
    } else if d == 4 {
        '4'
    } else if d == 5 {
        '5'
    } else if d == 6 {
        '6'
    } else if d == 7 {
        '7'
    } else if d == 8 {
        '8'
    } else {
        '9'
    };
    if n < 10 {
        let mut s = String::new();
        push_char(&mut s, c);
        assert(s@ =~= seq![c]);
        s
    } else {
        let mut s = decimal(n / 10);
        push_char(&mut s, c);
        s
    }
}

// ---------------------------------------------------------------------------
// Latency.

/// Style of a measured delay: none for a failed test (0 ms), then low up to
/// 200 ms, mid up to 400 ms, high above.
pub open spec fn spec_delay_style(delay: u64) -> Style {
    if delay == 0 {
        spec_no_latency_style()
    } else if delay <= 200 {
        spec_low_latency_style()
    } else if delay <= 400 {
        spec_mid_latency_style()
    } else {
        spec_high_latency_style()
    }
}

/// Latency band of a delay: 0 for a failed test, then 1 up to 200 ms, 2 up
/// to 400 ms, 3 above.
pub open spec fn delay_band(delay: u64) -> nat {
    if delay == 0 {
        0
    } else if delay <= 200 {
        1
    } else if delay <= 400 {
        2
    } else {
        3
    }
}

/// Style of each latency band.
pub open spec fn band_style(band: nat) -> Style {
    if band == 0 {
        spec_no_latency_style()
    } else if band == 1 {
        spec_low_latency_style()
    } else if band == 2 {
        spec_mid_latency_style()
    } else {
        spec_high_latency_style()
    }
}

/// A longer delay never falls in a lower latency band, and the style of a
/// delay, in the latency column as on its summary dot, is that of its band.
pub proof fn lemma_delay_bands(d1: u64, d2: u64)
    ensures
        d1 <= d2 ==> delay_band(d1) <= delay_band(d2),
        spec_delay_style(d1) == band_style(delay_band(d1)),
        spec_delay_span(d1).1 == band_style(delay_band(d1)),
{
}

/// Summary dot of a measured delay.
pub open spec fn spec_delay_span(delay: u64) -> SpanView {
    (spec_latency_sign(), spec_delay_style(delay))
}

/// What the summary shows for a member: its latency dot when it is a proxy
/// proper, else the not-a-proxy mark.
pub open spec fn spec_summary_span(x: ProxyItem) -> SpanView {
    if spec_is_normal(x.proxy_type) {
        match x.history {
            Some(h) => spec_delay_span(h.delay),
            None => spec_delay_span(0),
        }
    } else {
        spec_not_proxy_span()
    }
}

/// The summary of a group, one mark per member.
pub open spec fn spec_summary(members: Seq<ProxyItem>) -> Seq<SpanView> {
    members.map_values(|x: ProxyItem| spec_summary_span(x))
}

impl ProxyGroup {
    /// Type of the group.
    pub fn proxy_type(&self) -> (t: ProxyType)
        ensures
            t == self.proxy_type,
    {
        self.proxy_type
    }

    /// Members of the group.
    pub fn members(&self) -> (m: &Vec<ProxyItem>)
        ensures
            m == &self.members,
    {
        &self.members
    }

    fn get_delay_style(delay: u64) -> (s: Style)
        ensures
            s == spec_delay_style(delay),
    {
        if delay == 0 {
            no_latency_style()
        } else if delay <= 200 {
            Style::default().fg(Color::LightGreen)
        } else if delay <= 400 {
            Style::default().fg(Color::LightYellow)
        } else {
            Style::default().fg(Color::LightRed)
        }
    }

    fn get_delay_span(delay: u64) -> (s: Span)
        ensures
            s@ == spec_delay_span(delay),
    {
        Span::styled("⬤".to_owned(), Self::get_delay_style(delay))
    }

    /// One latency mark per member, in order.
    pub fn get_summary_widget(&self) -> (res: Vec<Span>)
        ensures
            spans_view(res@) == spec_summary(self.members@),
    {
        let mut res: Vec<Span> = Vec::new();
        let mut i: usize = 0;
        while i < self.members.len()
            invariant
                i <= self.members@.len(),
                spans_view(res@) == spec_summary(self.members@.take(i as int)),
            decreases self.members@.len() - i,
        {
            let x = &self.members[i];
            let span = if x.proxy_type.is_normal() {
                match &x.history {
                    Some(history) => Self::get_delay_span(history.delay),
                    None => Self::get_delay_span(0),
                }
            } else {
                Span::styled("✪".to_owned(), no_latency_style())
            };
            assert(span@ == spec_summary_span(*x));
            let ghost before = res@;
            res.push(span);
            proof {
                let t = self.members@.take(i as int);
                assert(self.members@.take(i + 1) =~= t.push(*x));
                assert(spec_summary(t.push(*x)) =~= spec_summary(t).push(spec_summary_span(*x)));
                assert(spans_view(before.push(span)) =~= spans_view(before).push(span@));
            }
            i = i + 1;
        }
        assert(self.members@.take(i as int) =~= self.members@);
        res
    }
}

// ---------------------------------------------------------------------------
// Layout.

/// The largest of some widths, 0 for none.
pub open spec fn max_of(ws: Seq<nat>) -> nat
    decreases ws.len(),
{
    if ws.len() == 0 {
        0
    } else {
        let m = max_of(ws.drop_last());
        if ws.last() > m {
            ws.last()
        } else {
            m
        }
    }
}

pub open spec fn sat_add(a: nat, b: nat) -> nat {
    if a + b > usize::MAX {
        usize::MAX as nat
    } else {
        a + b
    }
}

pub open spec fn sat_sub(a: nat, b: nat) -> nat {
    if a >= b {
        (a - b) as nat
    } else {
        0
    }
}

pub open spec fn sat_mul(a: nat, b: nat) -> nat {
    if a * b > usize::MAX {
        usize::MAX as nat
    } else {
        a * b
    }
}

/// The latency column of a member: its delay when measured and non-zero, a
/// dash for a proxy proper without one, nothing otherwise.
pub open spec fn spec_delay_cell(x: ProxyItem) -> SpanView {
    if x.history is Some && x.history->0.delay > 0 {
        (spec_decimal(x.history->0.delay as nat), spec_delay_style(x.history->0.delay))
    } else if spec_is_normal(x.proxy_type) {
        (spec_no_latency_sign(), spec_no_latency_style())
    } else {
        (Seq::empty(), spec_no_latency_style())
    }
}

/// Width of the type column: the widest type name.
pub open spec fn spec_type_width(m: Seq<ProxyItem>) -> nat {
    max_of(m.map_values(|x: ProxyItem| cells(spec_type_name(x.proxy_type))))
}

/// Width of the latency column: the widest latency text.
pub open spec fn spec_delay_width(m: Seq<ProxyItem>) -> nat {
    max_of(m.map_values(|x: ProxyItem| cells(spec_delay_cell(x).0)))
}

/// The widest member name.
pub open spec fn spec_max_name_width(m: Seq<ProxyItem>) -> nat {
    max_of(m.map_values(|x: ProxyItem| cells(x.name@)))
}

/// Cells a row takes besides the name: indicator, three delimiters, type and latency.
pub open spec fn spec_fixed_width(m: Seq<ProxyItem>) -> nat {
    let indicator = if cells(spec_expanded_indicator()) >= cells(spec_expanded_focused_indicator()) {
        cells(spec_expanded_indicator())
    } else {
        cells(spec_expanded_focused_indicator())
    };
    sat_add(
        sat_add(sat_add(indicator, sat_mul(cells(spec_delimiter()), 3)), spec_type_width(m)),
        spec_delay_width(m),
    )
}

/// Width of the name column: the widest name, cut to what the line leaves.
pub open spec fn spec_name_width(m: Seq<ProxyItem>, width: nat) -> nat {
    let room = sat_sub(width, spec_fixed_width(m));
    if spec_max_name_width(m) <= room {
        spec_max_name_width(m)
    } else {
        room
    }
}

/// Style of a member's name: the member in use, the member under the cursor, the others.
pub open spec fn spec_name_style(g: ProxyGroup, idx: nat) -> Style {
    if g.current == Some(idx as usize) {
        bold(fg_style(Color::Blue))
    } else if g.cursor == idx {
        fg_style(Color::LightBlue)
    } else {
        fg_style(Color::White)
    }
}

/// The row of member `idx` before it is cropped to the line.
pub open spec fn spec_row_spans(g: ProxyGroup, width: nat, idx: nat) -> Seq<SpanView> {
    let m = g.members@;
    let x = m[idx as int];
    let d = spec_delay_cell(x);
    seq![
        if g.cursor == idx { spec_expanded_focused_indicator_span() } else { spec_expanded_indicator_span() },
        spec_delimiter_span(),
        (spec_fit(x.name@, spec_name_width(m, width)), spec_name_style(g, idx)),
        spec_delimiter_span(),
        (spec_fit(spec_type_name(x.proxy_type), spec_type_width(m)), spec_proxy_type_style()),
        spec_delimiter_span(),
        (spec_fit(d.0, spec_delay_width(m)), d.1),
    ]
}

/// Cells a member row takes before its type column: the indicator, a
/// delimiter, the name column and another delimiter.
pub open spec fn spec_type_column(m: Seq<ProxyItem>, width: nat) -> nat {
    cells(spec_expanded_indicator()) + cells(spec_delimiter()) + spec_name_width(m, width) + cells(
        spec_delimiter(),
    )
}

/// Cells of a whole member row before it is cropped: up to the type column,
/// then the type column, a delimiter and the latency column.
pub open spec fn spec_row_cells(m: Seq<ProxyItem>, width: nat) -> nat {
    spec_type_column(m, width) + spec_type_width(m) + cells(spec_delimiter()) + spec_delay_width(m)
}

/// Members skipped at the top so that the cursor stays in view.
pub open spec fn spec_skipped(g: ProxyGroup) -> nat {
    sat_sub(g.cursor as nat, 4)
}

/// One cropped row per member from the first one shown.
pub open spec fn spec_expanded_rows(g: ProxyGroup, width: nat) -> Seq<Seq<SpanView>> {
    Seq::new(
        sat_sub(g.members@.len(), spec_skipped(g)),
        |i: int| spec_spans_window(spec_row_spans(g, width, (spec_skipped(g) + i) as nat), 0, width),
    )
}

/// Member count, shown as `position/count` when the group is expanded.
pub open spec fn spec_count_text(g: ProxyGroup, expanded: bool) -> Seq<char> {
    let n = g.members@.len();
    if expanded {
        let position: nat = if n == 0 { 0 } else { (g.cursor + 1) as nat };
        spec_decimal(position) + "/"@ + spec_decimal(n)
    } else {
        spec_decimal(n)
    }
}

/// Indicator in front of a header or summary line.
pub open spec fn spec_line_indicator(status: ProxyGroupFocusStatus) -> SpanView {
    if status == ProxyGroupFocusStatus::Focused {
        spec_focused_indicator_span()
    } else {
        spec_unfocused_indicator_span()
    }
}

/// The header line: indicator, name, type and member count, cropped to the line.
pub open spec fn spec_header(g: ProxyGroup, width: nat, status: ProxyGroupFocusStatus) -> Seq<SpanView> {
    spec_spans_window(
        seq![
            spec_line_indicator(status),
            (g.name@, bold(fg_style(Color::White))),
            spec_delimiter_span(),
            (spec_type_name(g.proxy_type), spec_proxy_type_style()),
            spec_delimiter_span(),
            (spec_count_text(g, status == ProxyGroupFocusStatus::Expanded), fg_style(Color::Green)),
        ],
        0,
        width,
    )
}

/// `s` cut into consecutive pieces of `k` items, the last one possibly shorter.
pub open spec fn chunks(s: Seq<SpanView>, k: nat) -> Seq<Seq<SpanView>>
    decreases s.len(),
{
    if s.len() == 0 || k == 0 {
        Seq::empty()
    } else if s.len() <= k {
        seq![s]
    } else {
        seq![s.take(k as int)] + chunks(s.skip(k as int), k)
    }
}

/// End of piece `j` when `n` items are cut into pieces of `k`.
pub open spec fn chunk_end(j: int, k: nat, n: nat) -> int {
    if j * k + k <= n {
        j * k + k
    } else {
        n as int
    }
}

/// Cutting into pieces of `k` items, in closed form: there are `n / k`
/// pieces rounded up, and piece `j` holds the items from `j * k` up to
/// `j * k + k` or the end.
pub proof fn lemma_chunks_closed(s: Seq<SpanView>, k: nat)
    requires
        k >= 1,
    ensures
        chunks(s, k).len() == (s.len() + k - 1) / k as int,
        forall|j: int|
            0 <= j < chunks(s, k).len() ==> #[trigger] chunks(s, k)[j] == s.subrange(
                j * k,
                chunk_end(j, k, s.len()),
            ),
    decreases s.len(),
{
    let n = s.len();
    if n == 0 {
        assert((n + k - 1) / k as int == 0) by (nonlinear_arith)
            requires
                n == 0,
                k >= 1,
        ;
    } else if n <= k {
        assert((n + k - 1) / k as int == 1) by (nonlinear_arith)
            requires
                1 <= n <= k,
        ;
        assert(chunks(s, k)[0] == s);
        assert(chunk_end(0, k, n) == n);
        assert(s.subrange(0, n as int) =~= s);
    } else {
        let rest = s.skip(k as int);
        lemma_chunks_closed(rest, k);
        let m = rest.len();
        assert(m == n - k);
        assert((n + k - 1) / k as int == (m + k - 1) / k as int + 1) by (nonlinear_arith)
            requires
                m == n - k,
                k >= 1,
                n > k,
        ;
        let cs = chunks(s, k);
        assert(cs == seq![s.take(k as int)] + chunks(rest, k));
        assert forall|j: int| 0 <= j < cs.len() implies #[trigger] cs[j] == s.subrange(j * k, chunk_end(j, k, n)) by {
            if j == 0 {
                assert(chunk_end(0, k, n) == k);
                assert(s.take(k as int) =~= s.subrange(0, k as int));
            } else {
                let i = j - 1;
                assert(cs[j] == chunks(rest, k)[i]);
                assert(chunks(rest, k)[i] == rest.subrange(i * k, chunk_end(i, k, m)));
                assert(j * k == i * k + k) by (nonlinear_arith)
                    requires
                        i == j - 1,
                ;
                assert(chunk_end(j, k, n) == chunk_end(i, k, m) + k);
                assert(0 <= i * k) by (nonlinear_arith)
                    requires
                        i >= 0,
                ;
                let q = (m + k - 1) / k as int;
                assert(i < q);
                assert(q * k <= m + k - 1) by (nonlinear_arith)
                    requires
                        q == (m + k - 1) / k as int,
                        k >= 1,
                ;
                assert((i + 1) * k <= q * k) by (nonlinear_arith)
                    requires
                        i + 1 <= q,
                        k >= 1,
                ;
                assert(i * k + k == (i + 1) * k) by (nonlinear_arith);
                assert(i * k < m);
                assert(rest.subrange(i * k, chunk_end(i, k, m)) =~= s.subrange(j * k, chunk_end(j, k, n)));
            }
        }
    }
}

/// Marks per summary line: half of what the line leaves after the indicator
/// and two cells, at least one.
pub open spec fn spec_chunk_size(width: nat) -> nat {
    let k = sat_sub(width, cells(spec_focused_indicator()) + 2) / 2;
    if k >= 1 {
        k
    } else {
        1
    }
}

/// The summary lines: the latency marks, a line's worth after each indicator.
pub open spec fn spec_summary_lines(g: ProxyGroup, width: nat, status: ProxyGroupFocusStatus) -> Seq<Seq<SpanView>> {
    chunks(spec_summary(g.members@), spec_chunk_size(width)).map_values(
        |c: Seq<SpanView>| seq![spec_line_indicator(status)] + c,
    )
}

/// The lines of a group: its header, then one row per member when expanded,
/// else its latency summary.
pub open spec fn spec_widget(g: ProxyGroup, width: nat, status: ProxyGroupFocusStatus) -> Seq<Seq<SpanView>> {
    seq![spec_header(g, width, status)] + if status == ProxyGroupFocusStatus::Expanded {
        spec_expanded_rows(g, width)
    } else {
        spec_summary_lines(g, width, status)
    }
}

fn delay_cell(x: &ProxyItem) -> (res: (String, Style))
    ensures
        (res.0@, res.1) == spec_delay_cell(*x),
{
    match &x.history {
        Some(history) if history.delay > 0 => (decimal(history.delay), ProxyGroup::get_delay_style(history.delay)),
        _ => {
            if x.proxy_type.is_normal() {
                ("-".to_owned(), no_latency_style())
            } else {
                (String::new(), no_latency_style())
            }
        },
    }
}

fn max_usize(a: usize, b: usize) -> (m: usize)
    ensures
        m == if a >= b { a } else { b },
{
    if a >= b {
        a
    } else {
        b
    }
}

pub open spec fn lines_of(lines: Seq<Spans>) -> Seq<Seq<SpanView>> {
    lines.map_values(|l: Spans| l@)
}

fn times_three_saturating(a: usize) -> (m: usize)
    ensures
        m == sat_mul(a as nat, 3),
{
    if a <= usize::MAX / 3 {
        a * 3
    } else {
        usize::MAX
    }
}

proof fn lemma_max_step(ws: Seq<nat>, i: int)
    requires
        0 <= i < ws.len(),
    ensures
        max_of(ws.take(i + 1)) == if ws[i] > max_of(ws.take(i)) { ws[i] } else { max_of(ws.take(i)) },
{
    assert(ws.take(i + 1).drop_last() =~= ws.take(i));
}

proof fn lemma_chunks_step(s: Seq<SpanView>, k: nat)
    requires
        s.len() > 0,
        k >= 1,
    ensures
        chunks(s, k) == seq![s.take(if s.len() <= k { s.len() as int } else { k as int })] + chunks(
            s.skip(if s.len() <= k { s.len() as int } else { k as int }),
            k,
        ),
{
    if s.len() <= k {
        assert(s.take(s.len() as int) =~= s);
        assert(s.skip(s.len() as int) =~= Seq::<SpanView>::empty());
        assert(seq![s] + Seq::<Seq<SpanView>>::empty() =~= seq![s]);
    }
}

impl ProxyGroup {
    fn header_line(&self, width: usize, status: ProxyGroupFocusStatus) -> (line: Spans)
        requires
            status == ProxyGroupFocusStatus::Expanded && self.members@.len() > 0 ==> self.cursor < usize::MAX,
        ensures
            line@ == spec_header(*self, width as nat, status),
    {
        let prefix = match status {
            ProxyGroupFocusStatus::Focused => focused_indicator_span(),
            _ => unfocused_indicator_span(),
        };
        let name = Span::styled(self.name.clone(), Style::default().fg(Color::White).add_modifier(BOLD));
        let proxy_type = Span::styled(self.proxy_type.name().to_owned(), proxy_type_style());
        let count = self.members.len();
        let expanded = match status {
            ProxyGroupFocusStatus::Expanded => true,
            _ => false,
        };
        let count_text = if expanded {
            let position: usize = if self.members.len() == 0 {
                0
            } else {
                self.cursor + 1
            };
            let mut t = decimal(position as u64);
            t.append("/");
            t.append(decimal(count as u64).as_str());
            t
        } else {
            decimal(count as u64)
        };
        let proxy_count = Span::styled(count_text, Style::default().fg(Color::Green));
        let mut v: Vec<Span> = Vec::new();
        v.push(prefix);
        v.push(name);
        v.push(delimiter_span());
        v.push(proxy_type);
        v.push(delimiter_span());
        v.push(proxy_count);
        proof {
            assert(spans_view(v@) =~= seq![
                spec_line_indicator(status),
                (self.name@, bold(fg_style(Color::White))),
                spec_delimiter_span(),
                (spec_type_name(self.proxy_type), spec_proxy_type_style()),
                spec_delimiter_span(),
                (spec_count_text(*self, status == ProxyGroupFocusStatus::Expanded), fg_style(Color::Green)),
            ]);
        }
        spans_window_owned(Spans(v), &std::ops::Range { start: 0, end: width })
    }

    fn expanded_row(
        &self,
        width: usize,
        idx: usize,
        name_width: usize,
        type_width: usize,
        delay_width: usize,
    ) -> (line: Spans)
        requires
            idx < self.members@.len(),
            name_width == spec_name_width(self.members@, width as nat),
            type_width == spec_type_width(self.members@),
            delay_width == spec_delay_width(self.members@),
        ensures
            line@ == spec_spans_window(spec_row_spans(*self, width as nat, idx as nat), 0, width as nat),
    {
        let x = &self.members[idx];
        let prefix = if self.cursor == idx {
            expanded_focused_indicator_span()
        } else {
            expanded_indicator_span()
        };
        let is_current = match self.current {
            Some(c) => c == idx,
            None => false,
        };
        let name_style = if is_current {
            Style::default().fg(Color::Blue).add_modifier(BOLD)
        } else if self.cursor == idx {
            get_text_style().fg(Color::LightBlue)
        } else {
            get_text_style()
        };
        let name = Span::styled(fit_to_width(x.name.as_str(), name_width), name_style);
        let proxy_type = Span::styled(fit_to_width(x.proxy_type.name(), type_width), proxy_type_style());
        let (delay_text, delay_style) = delay_cell(x);
        let delay_span = Span::styled(fit_to_width(delay_text.as_str(), delay_width), delay_style);
        let mut v: Vec<Span> = Vec::new();
        v.push(prefix);
        v.push(delimiter_span());
        v.push(name);
        v.push(delimiter_span());
        v.push(proxy_type);
        v.push(delimiter_span());
        v.push(delay_span);
        proof {
            assert(name_style == spec_name_style(*self, idx as nat));
            assert(spans_view(v@) =~= spec_row_spans(*self, width as nat, idx as nat));
        }
        spans_window_owned(Spans(v), &std::ops::Range { start: 0, end: width })
    }

    fn summary_lines(&self, width: usize, status: ProxyGroupFocusStatus) -> (lines: Vec<Spans>)
        ensures
            lines_of(lines@) == spec_summary_lines(*self, width as nat, status),
    {
        let marks = self.get_summary_widget();
        let indicator_width = focused_indicator_span().width();
        let half = width.saturating_sub(indicator_width).saturating_sub(2) / 2;
        let k = if half >= 1 {
            half
        } else {
            1
        };
        assert(k == spec_chunk_size(width as nat));
        let ghost f = |c: Seq<SpanView>| seq![spec_line_indicator(status)] + c;
        let ghost target = spec_summary_lines(*self, width as nat, status);
        let mut rest = marks;
        let mut lines: Vec<Spans> = Vec::new();
        assert(lines_of(lines@) + chunks(spans_view(rest@), k as nat).map_values(f) =~= target);
        while rest.len() > 0
            invariant
                k >= 1,
                f == (|c: Seq<SpanView>| seq![spec_line_indicator(status)] + c),
                lines_of(lines@) + chunks(spans_view(rest@), k as nat).map_values(f) == target,
            decreases rest@.len(),
        {
            let ghost orig = spans_view(rest@);
            let mut line: Vec<Span> = Vec::new();
            let indicator = match status {
                ProxyGroupFocusStatus::Focused => focused_indicator_span(),
                _ => unfocused_indicator_span(),
            };
            line.push(indicator);
            let mut c: usize = 0;
            while c < k && rest.len() > 0
                invariant
                    c <= k,
                    c <= orig.len(),
                    spans_view(rest@) == orig.skip(c as int),
                    spans_view(line@) == seq![spec_line_indicator(status)] + orig.take(c as int),
                decreases k - c,
            {
                let ghost before_line = line@;
                let ghost before_rest = rest@;
                assert(spans_view(before_rest).len() == before_rest.len());
                assert(c < orig.len());
                let mark = rest.remove(0);
                line.push(mark);
                proof {
                    assert(spans_view(before_rest)[0] == orig[c as int]);
                    assert(spans_view(line@) =~= spans_view(before_line).push(mark@));
                    assert(orig.take(c + 1) =~= orig.take(c as int).push(orig[c as int]));
                    assert(rest@ == before_rest.remove(0));
                    assert forall|j: int| 0 <= j < rest@.len() implies #[trigger] spans_view(rest@)[j] == orig.skip(c + 1)[j] by {
                        assert(rest@[j] == before_rest[j + 1]);
                        assert(spans_view(before_rest)[j + 1] == orig.skip(c as int)[j + 1]);
                    }
                    assert(spans_view(rest@) =~= orig.skip(c + 1));
                }
                c = c + 1;
            }
            proof {
                lemma_chunks_step(orig, k as nat);
                if c < k {
                    assert(orig.skip(c as int).len() == 0);
                }
                let ck = if orig.len() <= k { orig.len() as int } else { k as int };
                assert(c == ck);
            }
            let ghost before_lines = lines@;
            lines.push(Spans(line));
            proof {
                let cs = chunks(orig, k as nat);
                let ck = c as int;
                assert(cs == seq![orig.take(ck)] + chunks(orig.skip(ck), k as nat));
                assert(cs.map_values(f) =~= seq![f(orig.take(ck))] + chunks(orig.skip(ck), k as nat).map_values(f));
                assert(lines_of(lines@) =~= lines_of(before_lines).push(f(orig.take(ck))));
                assert(lines_of(lines@) + chunks(spans_view(rest@), k as nat).map_values(f)
                    =~= lines_of(before_lines) + cs.map_values(f));
            }
        }
        proof {
            assert(chunks(spans_view(rest@), k as nat) =~= Seq::<Seq<SpanView>>::empty());
            assert(lines_of(lines@) + Seq::<Seq<SpanView>>::empty() =~= lines_of(lines@));
        }
        lines
    }
}

pub open spec fn type_widths(m: Seq<ProxyItem>) -> Seq<nat> {
    m.map_values(|x: ProxyItem| cells(spec_type_name(x.proxy_type)))
}

pub open spec fn delay_widths(m: Seq<ProxyItem>) -> Seq<nat> {
    m.map_values(|x: ProxyItem| cells(spec_delay_cell(x).0))
}

pub open spec fn name_widths(m: Seq<ProxyItem>) -> Seq<nat> {
    m.map_values(|x: ProxyItem| cells(x.name@))
}

impl ProxyGroup {
    /// Widths of the type, latency and name columns before the name is cut to the line.
    fn column_widths(&self) -> (res: (usize, usize, usize))
        ensures
            res.0 == spec_type_width(self.members@),
            res.1 == spec_delay_width(self.members@),
            res.2 == spec_max_name_width(self.members@),
    {
        let ghost m = self.members@;
        let mut type_width: usize = 0;
        let mut delay_width: usize = 0;
        let mut max_name_width: usize = 0;
        let mut i: usize = 0;
        assert(type_widths(m).take(0) =~= Seq::<nat>::empty());
        assert(delay_widths(m).take(0) =~= Seq::<nat>::empty());
        assert(name_widths(m).take(0) =~= Seq::<nat>::empty());
        while i < self.members.len()
            invariant
                i <= m.len(),
                m == self.members@,
                type_width == max_of(type_widths(m).take(i as int)),
                delay_width == max_of(delay_widths(m).take(i as int)),
                max_name_width == max_of(name_widths(m).take(i as int)),
            decreases m.len() - i,
        {
            let x = &self.members[i];
            let tw = str_width(x.proxy_type.name());
            let (delay_text, _) = delay_cell(x);
            let dw = str_width(delay_text.as_str());
            let nw = str_width(x.name.as_str());
            proof {
                lemma_max_step(type_widths(m), i as int);
                lemma_max_step(delay_widths(m), i as int);
                lemma_max_step(name_widths(m), i as int);
            }
            type_width = max_usize(type_width, tw);
            delay_width = max_usize(delay_width, dw);
            max_name_width = max_usize(max_name_width, nw);
            i = i + 1;
        }
        proof {
            assert(type_widths(m).take(i as int) =~= type_widths(m));
            assert(delay_widths(m).take(i as int) =~= delay_widths(m));
            assert(name_widths(m).take(i as int) =~= name_widths(m));
        }
        (type_width, delay_width, max_name_width)
    }

    /// The lines that draw the group in `width` cells: its header, then one
    /// aligned row per member when expanded, else its latency summary.
    /// Expanded, every member row is laid out, before it is cropped to the
    /// line, with its type column at the same cell and the same cells in all.
    pub fn get_widget(&self, width: usize, status: ProxyGroupFocusStatus) -> (rows: Vec<Spans>)
        requires
            status == ProxyGroupFocusStatus::Expanded && self.members@.len() > 0 ==> self.cursor < usize::MAX,
        ensures
            lines_of(rows@) == spec_widget(*self, width as nat, status),
            status == ProxyGroupFocusStatus::Expanded ==> forall|idx: nat|
                idx < self.members@.len() ==> {
                    &&& cells(line_text(#[trigger] spec_row_spans(*self, width as nat, idx).take(4)))
                        == spec_type_column(self.members@, width as nat)
                    &&& cells(line_text(spec_row_spans(*self, width as nat, idx))) == spec_row_cells(
                        self.members@,
                        width as nat,
                    )
                },
            status != ProxyGroupFocusStatus::Expanded ==> rows@.len() == 1 + (spec_summary(self.members@).len()
                + spec_chunk_size(width as nat) - 1) / spec_chunk_size(width as nat) as int,
            status != ProxyGroupFocusStatus::Expanded ==> forall|k: int|
                1 <= k < rows@.len() ==> (#[trigger] rows@[k])@ == seq![spec_line_indicator(status)]
                    + spec_summary(self.members@).subrange(
                    (k - 1) * spec_chunk_size(width as nat),
                    chunk_end(k - 1, spec_chunk_size(width as nat), spec_summary(self.members@).len()),
                ),
    {
        let mut ret: Vec<Spans> = Vec::new();
        ret.push(self.header_line(width, status));
        let ghost head = lines_of(ret@);
        assert(head =~= seq![spec_header(*self, width as nat, status)]);
        match status {
            ProxyGroupFocusStatus::Expanded => {
                let skipped = self.cursor.saturating_sub(4);
                let (type_width, delay_width, max_name_width) = self.column_widths();
                let indicator_width = max_usize(
                    expanded_indicator_span().width(),
                    expanded_focused_indicator_span().width(),
                );
                let delimiter_width = delimiter_span().width();
                let fixed_width = indicator_width.saturating_add(times_three_saturating(delimiter_width))
                    .saturating_add(type_width).saturating_add(delay_width);
                let room = width.saturating_sub(fixed_width);
                let name_width = if max_name_width <= room {
                    max_name_width
                } else {
                    room
                };
                assert(fixed_width == spec_fixed_width(self.members@));
                let ghost rows_spec = spec_expanded_rows(*self, width as nat);
                assert(skipped == spec_skipped(*self));
                let mut idx = skipped;
                while idx < self.members.len()
                    invariant
                        skipped == spec_skipped(*self),
                        skipped <= idx,
                        idx <= self.members@.len() || idx == skipped,
                        name_width == spec_name_width(self.members@, width as nat),
                        type_width == spec_type_width(self.members@),
                        delay_width == spec_delay_width(self.members@),
                        rows_spec == spec_expanded_rows(*self, width as nat),
                        lines_of(ret@) == head + rows_spec.take(idx - skipped),
                    decreases self.members@.len() - idx,
                {
                    let row = self.expanded_row(width, idx, name_width, type_width, delay_width);
                    let ghost before = ret@;
                    ret.push(row);
                    proof {
                        assert(rows_spec.len() == self.members@.len() - skipped);
                        assert(rows_spec[idx - skipped] == row@);
                        assert(rows_spec.take(idx - skipped + 1) =~= rows_spec.take(idx - skipped).push(row@));
                        assert(lines_of(ret@) =~= lines_of(before).push(row@));
                    }
                    idx = idx + 1;
                }
                pad_widths();
                let _arrow = char_width('\u{27a4}');
                proof {
                    reveal_strlit("➤");
                    reveal_strlit(" ");
                    lemma_cells_single('\u{27a4}');
                    lemma_cells_single(' ');
                    assert(spec_expanded_focused_indicator() =~= seq!['\u{27a4}']);
                    assert(spec_expanded_indicator() =~= seq![' ']);
                    lemma_all_rows_aligned(*self, width as nat);
                }
                proof {
                    if self.members@.len() <= skipped {
                        assert(rows_spec.len() == 0);
                        assert(rows_spec.take(idx - skipped) =~= rows_spec);
                    } else {
                        assert(rows_spec.take(idx - skipped) =~= rows_spec);
                    }
                }
            },
            _ => {
                let mut lines = self.summary_lines(width, status);
                let ghost before = ret@;
                let ghost more = lines@;
                ret.append(&mut lines);
                proof {
                    assert(lines_of(ret@) =~= lines_of(before) + lines_of(more));
                    let c = spec_chunk_size(width as nat);
                    let marks = spec_summary(self.members@);
                    lemma_chunks_closed(marks, c);
                    let w = spec_widget(*self, width as nat, status);
                    assert(w.len() == ret@.len());
                    assert forall|k: int| 1 <= k < ret@.len() implies (#[trigger] ret@[k])@ == seq![
                        spec_line_indicator(status),
                    ] + marks.subrange((k - 1) * c, chunk_end(k - 1, c, marks.len())) by {
                        assert(lines_of(ret@)[k] == ret@[k]@);
                        assert(w[k] == spec_summary_lines(*self, width as nat, status)[k - 1]);
                        assert(chunks(marks, c)[k - 1] == marks.subrange((k - 1) * c, chunk_end(k - 1, c, marks.len())));
                    }
                }
            },
        }
        ret
    }
}

impl Default for ProxyGroup {
    fn default() -> (g: ProxyGroup)
        ensures
            g.name@ == Seq::<char>::empty(),
            g.proxy_type == ProxyType::Selector,
            g.members@ == Seq::<ProxyItem>::empty(),
            g.current == None::<usize>,
            g.cursor == 0,
    {
        ProxyGroup {
            name: String::new(),
            proxy_type: ProxyType::Selector,
            members: Vec::new(),
            current: None,
            cursor: 0,
        }
    }
}

/// Cells of a line are the sum of the cells of its spans.
pub proof fn lemma_line_cells(line: Seq<SpanView>)
    ensures
        cells(line_text(line)) == crate::cells::sum(line_widths(line)),
{
    let contents = line.map_values(|s: SpanView| s.0);
    crate::cells::lemma_cells_flatten(contents);
    assert(widths(contents) =~= line_widths(line));
}

/// With the status expanded, the header and every member row fit in the
/// width they are drawn in.
pub proof fn lemma_expanded_lines_fit(g: ProxyGroup, width: nat, i: int)
    requires
        0 <= i < spec_widget(g, width, ProxyGroupFocusStatus::Expanded).len(),
    ensures
        cells(line_text(spec_widget(g, width, ProxyGroupFocusStatus::Expanded)[i])) <= width,
{
    let w = spec_widget(g, width, ProxyGroupFocusStatus::Expanded);
    if i == 0 {
        lemma_spans_window_fits(
            seq![
                spec_line_indicator(ProxyGroupFocusStatus::Expanded),
                (g.name@, bold(fg_style(Color::White))),
                spec_delimiter_span(),
                (spec_type_name(g.proxy_type), spec_proxy_type_style()),
                spec_delimiter_span(),
                (spec_count_text(g, true), fg_style(Color::Green)),
            ],
            0,
            width,
        );
    } else {
        let idx = (spec_skipped(g) + (i - 1)) as nat;
        assert(w[i] == spec_spans_window(spec_row_spans(g, width, idx), 0, width));
        lemma_spans_window_fits(spec_row_spans(g, width, idx), 0, width);
    }
}

/// The header line fits in the width it is drawn in, whatever the status.
pub proof fn lemma_header_fits(g: ProxyGroup, width: nat, status: ProxyGroupFocusStatus)
    ensures
        cells(line_text(spec_header(g, width, status))) <= width,
{
    lemma_spans_window_fits(
        seq![
            spec_line_indicator(status),
            (g.name@, bold(fg_style(Color::White))),
            spec_delimiter_span(),
            (spec_type_name(g.proxy_type), spec_proxy_type_style()),
            spec_delimiter_span(),
            (spec_count_text(g, status == ProxyGroupFocusStatus::Expanded), fg_style(Color::Green)),
        ],
        0,
        width,
    );
}

/// Before a row is cropped, its type column starts at the same cell for
/// every member, and every row takes the same cells: the indicator, the
/// name, type and latency columns at their widths, and three delimiters.
/// This holds given that a space takes one cell, the ellipsis at most one,
/// and both row indicators the same.
pub proof fn lemma_rows_aligned(g: ProxyGroup, width: nat, idx: nat)
    requires
        idx < g.members@.len(),
        char_cells(' ') == 1,
        char_cells(ELLIPSIS) <= 1,
        cells(spec_expanded_indicator()) == cells(spec_expanded_focused_indicator()),
    ensures
        cells(line_text(spec_row_spans(g, width, idx).take(4))) == cells(spec_expanded_indicator())
            + cells(spec_delimiter()) + spec_name_width(g.members@, width) + cells(spec_delimiter()),
        cells(line_text(spec_row_spans(g, width, idx))) == cells(spec_expanded_indicator())
            + cells(spec_delimiter()) + spec_name_width(g.members@, width) + cells(spec_delimiter())
            + spec_type_width(g.members@) + cells(spec_delimiter()) + spec_delay_width(g.members@),
{
    let m = g.members@;
    let x = m[idx as int];
    let d = spec_delay_cell(x);
    lemma_fit_exact(x.name@, spec_name_width(m, width));
    lemma_fit_exact(spec_type_name(x.proxy_type), spec_type_width(m));
    lemma_fit_exact(d.0, spec_delay_width(m));
    let row = spec_row_spans(g, width, idx);
    lemma_line_cells(row);
    lemma_line_cells(row.take(4));
    reveal_with_fuel(crate::cells::sum, 8);
    assert(line_widths(row.take(4)) =~= seq![
        cells(row[0].0),
        cells(row[1].0),
        cells(row[2].0),
        cells(row[3].0),
    ]);
    assert(line_widths(row) =~= seq![
        cells(row[0].0),
        cells(row[1].0),
        cells(row[2].0),
        cells(row[3].0),
        cells(row[4].0),
        cells(row[5].0),
        cells(row[6].0),
    ]);
}


/// The largest of some widths bounds each of them and is one of them (0 for none).
pub proof fn lemma_max_of(ws: Seq<nat>)
    ensures
        forall|i: int| 0 <= i < ws.len() ==> #[trigger] ws[i] <= max_of(ws),
        ws.len() == 0 ==> max_of(ws) == 0,
        ws.len() > 0 ==> exists|i: int| 0 <= i < ws.len() && ws[i] == max_of(ws),
    decreases ws.len(),
{
    if ws.len() > 0 {
        let d = ws.drop_last();
        lemma_max_of(d);
        assert forall|i: int| 0 <= i < ws.len() implies #[trigger] ws[i] <= max_of(ws) by {
            if i < d.len() {
                assert(ws[i] == d[i]);
            }
        }
        if ws.last() > max_of(d) || d.len() == 0 {
            assert(ws[ws.len() - 1] == max_of(ws));
        } else {
            let i = choose|i: int| 0 <= i < d.len() && d[i] == max_of(d);
            assert(ws[i] == max_of(ws));
        }
    }
}

/// Each column of an expanded group is exactly as wide as its widest entry:
/// no member's type name, latency text or name is wider than its column,
/// and some member's entry is as wide as the column (all are 0 wide for no
/// members).
pub proof fn lemma_column_widths(m: Seq<ProxyItem>)
    ensures
        forall|i: int|
            0 <= i < m.len() ==> cells(spec_type_name((#[trigger] m[i]).proxy_type)) <= spec_type_width(m)
                && cells(spec_delay_cell(m[i]).0) <= spec_delay_width(m) && cells(m[i].name@)
                <= spec_max_name_width(m),
        m.len() == 0 ==> spec_type_width(m) == 0 && spec_delay_width(m) == 0 && spec_max_name_width(m) == 0,
        m.len() > 0 ==> exists|i: int| 0 <= i < m.len() && cells(spec_type_name(m[i].proxy_type)) == spec_type_width(m),
        m.len() > 0 ==> exists|i: int| 0 <= i < m.len() && cells(spec_delay_cell(m[i]).0) == spec_delay_width(m),
        m.len() > 0 ==> exists|i: int| 0 <= i < m.len() && cells(m[i].name@) == spec_max_name_width(m),
{
    let tw = m.map_values(|x: ProxyItem| cells(spec_type_name(x.proxy_type)));
    let dw = m.map_values(|x: ProxyItem| cells(spec_delay_cell(x).0));
    let nw = m.map_values(|x: ProxyItem| cells(x.name@));
    lemma_max_of(tw);
    lemma_max_of(dw);
    lemma_max_of(nw);
    assert forall|i: int| 0 <= i < m.len() implies cells(spec_type_name((#[trigger] m[i]).proxy_type)) <= spec_type_width(m)
        && cells(spec_delay_cell(m[i]).0) <= spec_delay_width(m) && cells(m[i].name@) <= spec_max_name_width(m) by {
        assert(tw[i] <= max_of(tw));
        assert(dw[i] <= max_of(dw));
        assert(nw[i] <= max_of(nw));
    }
    if m.len() > 0 {
        let a = choose|i: int| 0 <= i < tw.len() && tw[i] == max_of(tw);
        assert(cells(spec_type_name(m[a].proxy_type)) == spec_type_width(m));
        let b = choose|i: int| 0 <= i < dw.len() && dw[i] == max_of(dw);
        assert(cells(spec_delay_cell(m[b]).0) == spec_delay_width(m));
        let c = choose|i: int| 0 <= i < nw.len() && nw[i] == max_of(nw);
        assert(cells(m[c].name@) == spec_max_name_width(m));
    }
}

/// A text that fits in a width is shown in full, padded with spaces.
proof fn lemma_fit_when_fits(s: Seq<char>, width: nat)
    requires
        cells(s) <= width,
    ensures
        spec_fit(s, width) == s + Seq::new((width - cells(s)) as nat, |i: int| ' '),
{
    assert(spec_truncate(s, width) == s);
}

/// Before a member row is cropped to the line, its type and latency columns
/// show the member's type name and latency text in full, padded with spaces
/// to the column width, the latency in the style of its delay.
pub proof fn lemma_row_shows_type_and_latency(g: ProxyGroup, width: nat, idx: nat)
    requires
        idx < g.members@.len(),
    ensures
        ({
            let m = g.members@;
            let x = m[idx as int];
            let row = spec_row_spans(g, width, idx);
            &&& row[4].0 == spec_type_name(x.proxy_type) + Seq::new(
                (spec_type_width(m) - cells(spec_type_name(x.proxy_type))) as nat,
                |i: int| ' ',
            )
            &&& row[6].0 == spec_delay_cell(x).0 + Seq::new(
                (spec_delay_width(m) - cells(spec_delay_cell(x).0)) as nat,
                |i: int| ' ',
            )
            &&& (x.history is Some && x.history->0.delay > 0) ==> row[6].0.take(
                spec_decimal(x.history->0.delay as nat).len() as int,
            ) == spec_decimal(x.history->0.delay as nat) && row[6].1 == band_style(
                delay_band(x.history->0.delay),
            )
        }),
{
    let m = g.members@;
    let x = m[idx as int];
    lemma_column_widths(m);
    assert(cells(spec_type_name(m[idx as int].proxy_type)) <= spec_type_width(m));
    lemma_fit_when_fits(spec_type_name(x.proxy_type), spec_type_width(m));
    lemma_fit_when_fits(spec_delay_cell(x).0, spec_delay_width(m));
    let d = spec_delay_cell(x).0;
    let pad = Seq::new((spec_delay_width(m) - cells(d)) as nat, |i: int| ' ');
    assert((d + pad).take(d.len() as int) =~= d);
    if x.history is Some && x.history->0.delay > 0 {
        lemma_delay_bands(x.history->0.delay, x.history->0.delay);
    }
}

/// The name of the member the group uses is drawn blue and bold wherever
/// the cursor is; a member under the cursor that is not the one in use is
/// drawn light blue, plain; any other member white, plain.
pub proof fn lemma_name_styles(g: ProxyGroup, width: nat, idx: nat)
    requires
        idx < g.members@.len(),
    ensures
        g.current == Some(idx as usize) ==> spec_row_spans(g, width, idx)[2].1 == (Style {
            fg: Some(Color::Blue),
            bg: None,
            add_modifier: BOLD,
            sub_modifier: 0,
        }),
        g.current != Some(idx as usize) && g.cursor == idx ==> spec_row_spans(g, width, idx)[2].1 == (Style {
            fg: Some(Color::LightBlue),
            bg: None,
            add_modifier: 0,
            sub_modifier: 0,
        }),
        g.current != Some(idx as usize) && g.cursor != idx ==> spec_row_spans(g, width, idx)[2].1 == (Style {
            fg: Some(Color::White),
            bg: None,
            add_modifier: 0,
            sub_modifier: 0,
        }),
{
    assert((0u16 | 1u16) == 1u16) by (bit_vector);
    assert((0u16 & !1u16) == 0u16) by (bit_vector);
}

/// Summary marks: one per member, in order; the not-a-proxy mark exactly
/// for members that are not proxies proper; a proxy proper gets the latency
/// dot in the style of its delay's band, a proxy never measured the same as
/// a delay of 0.
pub proof fn lemma_summary_marks(m: Seq<ProxyItem>, i: int)
    requires
        0 <= i < m.len(),
    ensures
        spec_summary(m).len() == m.len(),
        (spec_summary(m)[i] == spec_not_proxy_span()) <==> !spec_is_normal(m[i].proxy_type),
        spec_is_normal(m[i].proxy_type) ==> spec_summary(m)[i].0 == spec_latency_sign() && spec_summary(m)[i].1
            == band_style(delay_band(
            match m[i].history {
                Some(h) => h.delay,
                None => 0,
            },
        )),
        spec_is_normal(m[i].proxy_type) && m[i].history is None ==> spec_summary(m)[i] == spec_delay_span(0),
{
    reveal_strlit("⬤");
    reveal_strlit("✪");
    assert(spec_latency_sign() != spec_not_proxy_sign()) by {
        assert(spec_latency_sign()[0] != spec_not_proxy_sign()[0]);
    }
    let d = match m[i].history {
        Some(h) => h.delay,
        None => 0,
    };
    lemma_delay_bands(d, d);
}

/// Whether a text is made of decimal digits only.
pub open spec fn is_digits(s: Seq<char>) -> bool {
    forall|i: int| 0 <= i < s.len() ==> '0' <= #[trigger] s[i] <= '9'
}

/// The number a text of decimal digits reads, most significant first.
pub open spec fn digits_value(s: Seq<char>) -> nat
    decreases s.len(),
{
    if s.len() == 0 {
        0
    } else {
        digits_value(s.drop_last()) * 10 + (s.last() as int - '0' as int) as nat
    }
}

proof fn lemma_digit_char(d: nat)
    requires
        d < 10,
    ensures
        '0' <= digit_char(d) <= '9',
        digit_char(d) as int - '0' as int == d,
{
}

/// A number written in decimal is one or more digits that read back as it.
pub proof fn lemma_decimal_reads_back(n: nat)
    ensures
        spec_decimal(n).len() >= 1,
        is_digits(spec_decimal(n)),
        digits_value(spec_decimal(n)) == n,
    decreases n,
{
    if n < 10 {
        lemma_digit_char(n);
        assert(seq![digit_char(n)].drop_last() =~= Seq::<char>::empty());
        assert(digits_value(Seq::<char>::empty()) == 0);
    } else {
        lemma_digit_char(n % 10);
        lemma_decimal_reads_back(n / 10);
        let d = spec_decimal(n / 10);
        let t = d.push(digit_char(n % 10));
        assert(t.drop_last() =~= d);
        assert(n == (n / 10) * 10 + n % 10) by (nonlinear_arith);
        assert forall|i: int| 0 <= i < t.len() implies '0' <= #[trigger] t[i] <= '9' by {
            if i < d.len() {
                assert(t[i] == d[i]);
            }
        }
    }
}

/// The spans of a group's header line before it is cropped.
pub open spec fn spec_header_spans(g: ProxyGroup, status: ProxyGroupFocusStatus) -> Seq<SpanView> {
    seq![
        spec_line_indicator(status),
        (g.name@, bold(fg_style(Color::White))),
        spec_delimiter_span(),
        (spec_type_name(g.proxy_type), spec_proxy_type_style()),
        spec_delimiter_span(),
        (spec_count_text(g, status == ProxyGroupFocusStatus::Expanded), fg_style(Color::Green)),
    ]
}

/// The header ends with the group's member count. Collapsed, its last span
/// reads the number of members; expanded, it reads the cursor's position
/// counted from 1 (0 for no members), a slash, then the number of members.
pub proof fn lemma_header_count(g: ProxyGroup, width: nat, status: ProxyGroupFocusStatus)
    ensures
        spec_header(g, width, status) == spec_spans_window(spec_header_spans(g, status), 0, width),
        status != ProxyGroupFocusStatus::Expanded ==> is_digits(spec_header_spans(g, status).last().0)
            && digits_value(spec_header_spans(g, status).last().0) == g.members@.len(),
        status == ProxyGroupFocusStatus::Expanded ==> exists|a: Seq<char>, b: Seq<char>|
            spec_header_spans(g, status).last().0 == a + seq!['/'] + b && is_digits(a) && is_digits(b)
                && digits_value(a) == (if g.members@.len() == 0 { 0 } else { g.cursor + 1 }) && digits_value(b)
                == g.members@.len(),
{
    let n = g.members@.len();
    lemma_decimal_reads_back(n);
    if status == ProxyGroupFocusStatus::Expanded {
        let position: nat = if n == 0 { 0 } else { (g.cursor + 1) as nat };
        lemma_decimal_reads_back(position);
        reveal_strlit("/");
        assert(spec_header_spans(g, status).last().0 == spec_decimal(position) + seq!['/'] + spec_decimal(n));
    }
}


proof fn lemma_all_rows_aligned(g: ProxyGroup, width: nat)
    requires
        char_cells(' ') == 1,
        char_cells(ELLIPSIS) <= 1,
        cells(spec_expanded_indicator()) == cells(spec_expanded_focused_indicator()),
    ensures
        forall|idx: nat|
            idx < g.members@.len() ==> {
                &&& cells(line_text(#[trigger] spec_row_spans(g, width, idx).take(4))) == spec_type_column(
                    g.members@,
                    width,
                )
                &&& cells(line_text(spec_row_spans(g, width, idx))) == spec_row_cells(g.members@, width)
            },
{
    assert forall|idx: nat| idx < g.members@.len() implies {
        &&& cells(line_text(#[trigger] spec_row_spans(g, width, idx).take(4))) == spec_type_column(g.members@, width)
        &&& cells(line_text(spec_row_spans(g, width, idx))) == spec_row_cells(g.members@, width)
    } by {
        lemma_rows_aligned(g, width, idx);
    }
}

} // verus!
