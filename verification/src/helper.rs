//! Cropping, truncating and padding text by terminal columns without
//! splitting a grapheme.

use crate::cells::{
    cells, char_cells, char_width, column, graphemes, is_subsequence, kept, lemma_select_subsequence, lemma_cells_concat, lemma_cells_flatten,
    lemma_column_step, lemma_select_stops, lemma_window_fits, push_char, select, spec_graphemes,
    spec_string_window, str_width, widths, window_of,
};
use crate::style::{
    lemma_merge_keeps_styles, lemma_merge_keeps_text, line_text, styled_chars, line_widths, merge_styled, into_spans, plain_style, Color, Span,
    SpanView, Spans, spans_view, Style,
};
use vstd::prelude::*;

verus! {

/// The character put where text was cut short.
pub const ELLIPSIS: char = '…';

/// Returns the complete graphemes contained in a terminal-column range.
pub fn string_window(string: &str, range: &std::ops::Range<usize>) -> (res: String)
    ensures
        res@ == spec_string_window(string@, range.start as nat, range.end as nat),
{
    if range.start >= range.end {
        return String::new();
    }
    if range.start == 0 && str_width(string) <= range.end {
        return string.to_owned();
    }
    let gs = graphemes(string);
    window_graphemes(&gs, range)
}

/// Of the graphemes `gs`, laid out from column zero, the ones that lie
/// wholly inside `range` (a zero-width one when its column is in the
/// range), joined in order.
pub fn window_graphemes(gs: &Vec<String>, range: &std::ops::Range<usize>) -> (res: String)
    ensures
        res@ == window_of(
            gs@.map_values(|g: String| g@),
            widths(gs@.map_values(|g: String| g@)),
            range.start as nat,
            range.end as nat,
        ).flatten(),
{
    let ghost sgs = gs@.map_values(|g: String| g@);
    let ghost ws = widths(sgs);
    let ghost start = range.start as nat;
    let ghost end = range.end as nat;
    let mut column: usize = 0;
    let mut result = String::new();
    let mut i: usize = 0;
    while i < gs.len()
        invariant_except_break
            i <= gs.len(),
            sgs == gs@.map_values(|g: String| g@),
            ws == widths(sgs),
            start == range.start,
            end == range.end,
            column == self::column(ws, i as int),
            result@ == select(sgs, ws, start, end, i as nat).flatten(),
        ensures
            result@ == window_of(sgs, ws, start, end).flatten(),
        decreases gs.len() - i,
    {
        let width = str_width(gs[i].as_str());
        assert(ws[i as int] == width);
        proof {
            lemma_column_step(ws, i as int);
        }
        let next = match column.checked_add(width) {
            Some(n) => n,
            None => {
                proof {
                    lemma_select_stops(sgs, ws, start, end, i as nat, sgs.len());
                }
                break;
            },
        };
        if width == 0 {
            if range.start <= column && column < range.end {
                result.append(gs[i].as_str());
                proof {
                    broadcast use Seq::lemma_flatten_push;
                }
            }
        } else if next <= range.start {
            column = next;
        } else if column < range.start {
            column = next;
        } else if next > range.end {
            proof {
                lemma_select_stops(sgs, ws, start, end, i as nat, sgs.len());
            }
            break;
        } else {
            result.append(gs[i].as_str());
            proof {
                broadcast use Seq::lemma_flatten_push;
            }
            column = next;
        }
        i = i + 1;
    }
    result
}

/// Owned form of [`string_window`].
pub fn string_window_owned(string: String, range: &std::ops::Range<usize>) -> (res: String)
    ensures
        res@ == spec_string_window(string@, range.start as nat, range.end as nat),
{
    string_window(string.as_str(), range)
}


/// Number of leading items, from item `i` on, that end within `budget` cells
/// (the first item ending past it and all later ones are left out).
pub open spec fn fitting_prefix(ws: Seq<nat>, budget: nat, i: nat) -> nat
    decreases ws.len() - i,
{
    if i >= ws.len() {
        ws.len()
    } else if column(ws, i + 1 as int) > budget {
        i
    } else {
        fitting_prefix(ws, budget, i + 1)
    }
}

/// `s` when it fits in `width` cells; otherwise the longest run of its leading
/// graphemes that leaves room for an ellipsis, followed by the ellipsis.
pub open spec fn spec_truncate(s: Seq<char>, width: nat) -> Seq<char> {
    if cells(s) <= width {
        s
    } else if width == 0 {
        Seq::empty()
    } else {
        let gs = spec_graphemes(s);
        let budget: nat = if char_cells(ELLIPSIS) <= width { (width - char_cells(ELLIPSIS)) as nat } else { 0 };
        gs.take(fitting_prefix(widths(gs), budget, 0) as int).flatten().push(ELLIPSIS)
    }
}

/// `s` truncated to `width` cells, then padded with spaces to `width` cells.
pub open spec fn spec_fit(s: Seq<char>, width: nat) -> Seq<char> {
    let t = spec_truncate(s, width);
    let pad: nat = if cells(t) <= width { (width - cells(t)) as nat } else { 0 };
    t + Seq::new(pad, |i: int| ' ')
}

pub proof fn lemma_fitting_prefix(ws: Seq<nat>, budget: nat, i: nat)
    requires
        i <= ws.len(),
        column(ws, i as int) <= budget,
    ensures
        i <= fitting_prefix(ws, budget, i) <= ws.len(),
        column(ws, fitting_prefix(ws, budget, i) as int) <= budget,
    decreases ws.len() - i,
{
    if i < ws.len() {
        lemma_column_step(ws, i as int);
        if column(ws, i + 1 as int) <= budget {
            lemma_fitting_prefix(ws, budget, i + 1);
        }
    }
}

/// A truncated text fits in the width once the ellipsis does.
pub proof fn lemma_truncate_fits(s: Seq<char>, width: nat)
    requires
        char_cells(ELLIPSIS) <= width || cells(s) <= width,
    ensures
        cells(spec_truncate(s, width)) <= width,
{
    if cells(s) > width && width > 0 {
        let gs = spec_graphemes(s);
        let ws = widths(gs);
        let budget = (width - char_cells(ELLIPSIS)) as nat;
        lemma_fitting_prefix(ws, budget, 0);
        let k = fitting_prefix(ws, budget, 0);
        lemma_cells_flatten(gs.take(k as int));
        assert(widths(gs.take(k as int)) =~= ws.take(k as int));
        let p = gs.take(k as int).flatten();
        assert(p.push(ELLIPSIS) =~= p + seq![ELLIPSIS]);
        lemma_cells_concat(p, seq![ELLIPSIS]);
        assert(seq![ELLIPSIS].drop_last() =~= Seq::<char>::empty());
        assert(cells(Seq::<char>::empty()) == 0);
        assert(cells(seq![ELLIPSIS]) == char_cells(ELLIPSIS));
        assert(cells(p) == column(ws, k as int));
        assert(spec_truncate(s, width) == p.push(ELLIPSIS));
    } else if cells(s) > width {
        assert(spec_truncate(s, width) =~= Seq::<char>::empty());
    }
}

pub proof fn lemma_cells_spaces(n: nat)
    ensures
        cells(Seq::new(n, |i: int| ' ')) == n * char_cells(' '),
    decreases n,
{
    if n > 0 {
        lemma_cells_spaces((n - 1) as nat);
        assert(Seq::new(n, |i: int| ' ').drop_last() =~= Seq::new((n - 1) as nat, |i: int| ' '));
        assert(Seq::new(n, |i: int| ' ').last() == ' ');
        assert(cells(Seq::new(n, |i: int| ' ')) == cells(Seq::new((n - 1) as nat, |i: int| ' '))
            + char_cells(' '));
        let m = (n - 1) as nat;
        let c = char_cells(' ');
        assert(n * c == m * c + c) by (nonlinear_arith)
            requires
                n == m + 1,
        ;
    } else {
        assert(Seq::new(n, |i: int| ' ').len() == 0);
    }
}

/// Text fitted to a width takes exactly that many cells, given that a space
/// takes one cell and the ellipsis at most one.
pub proof fn lemma_fit_exact(s: Seq<char>, width: nat)
    requires
        char_cells(' ') == 1,
        char_cells(ELLIPSIS) <= 1,
    ensures
        cells(spec_fit(s, width)) == width,
{
    if width == 0 && cells(s) > 0 {
        assert(spec_truncate(s, width) =~= Seq::<char>::empty());
    } else {
        lemma_truncate_fits(s, width);
    }
    let t = spec_truncate(s, width);
    let pad = (width - cells(t)) as nat;
    lemma_cells_concat(t, Seq::new(pad, |i: int| ' '));
    lemma_cells_spaces(pad);
}

/// Truncating a text a second time to the same width changes nothing, once
/// the ellipsis takes at most one cell.
pub proof fn lemma_truncate_idempotent(s: Seq<char>, width: nat)
    requires
        char_cells(ELLIPSIS) <= 1,
    ensures
        spec_truncate(spec_truncate(s, width), width) == spec_truncate(s, width),
{
    if cells(s) > width && width == 0 {
        assert(spec_truncate(s, width) =~= Seq::<char>::empty());
    } else {
        lemma_truncate_fits(s, width);
    }
}

/// Learns from `unicode-width` the cells taken by the two characters this
/// library pads and cuts with: a space and the ellipsis take one each.
pub(crate) fn pad_widths()
    ensures
        char_cells(' ') == 1,
        char_cells(ELLIPSIS) == 1,
{
    let _space = char_width(' ');
    let _ellipsis = char_width(ELLIPSIS);
}

/// Truncates a string to a terminal-cell width without splitting a grapheme.
/// The result fits in `width` cells, so truncating it again changes nothing.
pub fn truncate_to_width(string: &str, width: usize) -> (res: String)
    ensures
        res@ == spec_truncate(string@, width as nat),
        cells(res@) <= width,
        spec_truncate(res@, width as nat) == res@,
{
    if str_width(string) <= width {
        return string.to_owned();
    }
    if width == 0 {
        return String::new();
    }
    let ellipsis_width = match char_width(ELLIPSIS) {
        Some(w) => w,
        None => 0,
    };
    let content_width = width.saturating_sub(ellipsis_width);
    let gs = graphemes(string);
    let mut result = leading_graphemes(&gs, content_width);
    proof {
        reveal_strlit("…");
    }
    result.append("…");
    proof {
        assert(result@ == spec_truncate(string@, width as nat));
        lemma_truncate_idempotent(string@, width as nat);
        lemma_truncate_fits(string@, width as nat);
    }
    result
}

/// The leading graphemes of `gs` that together fit in `budget` cells,
/// joined in order: the first grapheme that would end past the budget and
/// all after it are left out.
pub fn leading_graphemes(gs: &Vec<String>, budget: usize) -> (res: String)
    ensures
        res@ == gs@.map_values(|g: String| g@).take(
            fitting_prefix(widths(gs@.map_values(|g: String| g@)), budget as nat, 0) as int,
        ).flatten(),
{
    let ghost sgs = gs@.map_values(|g: String| g@);
    let ghost ws = widths(sgs);
    let mut current_width: usize = 0;
    let mut result = String::new();
    let mut i: usize = 0;
    assert(column(ws, 0) == 0) by {
        assert(ws.take(0) =~= Seq::<nat>::empty());
    }
    while i < gs.len()
        invariant_except_break
            i <= gs.len(),
            sgs == gs@.map_values(|g: String| g@),
            ws == widths(sgs),
            current_width == column(ws, i as int),
            current_width <= budget,
            fitting_prefix(ws, budget as nat, 0) == fitting_prefix(ws, budget as nat, i as nat),
            result@ == sgs.take(i as int).flatten(),
        ensures
            result@ == sgs.take(fitting_prefix(ws, budget as nat, 0) as int).flatten(),
        decreases gs.len() - i,
    {
        let grapheme_width = str_width(gs[i].as_str());
        assert(ws[i as int] == grapheme_width);
        proof {
            lemma_column_step(ws, i as int);
        }
        if grapheme_width > budget.saturating_sub(current_width) {
            break;
        }
        result.append(gs[i].as_str());
        proof {
            broadcast use Seq::lemma_flatten_push;
            assert(sgs.take(i + 1) =~= sgs.take(i as int).push(sgs[i as int]));
        }
        current_width = current_width.saturating_add(grapheme_width);
        i = i + 1;
    }
    proof {
        if i == gs.len() {
            assert(fitting_prefix(ws, budget as nat, i as nat) == ws.len());
        }
    }
    result
}

/// Truncates and right-pads a string to exactly `width` terminal cells.
/// The result takes exactly `width` cells.
pub fn fit_to_width(string: &str, width: usize) -> (res: String)
    ensures
        res@ == spec_fit(string@, width as nat),
        cells(res@) == width,
{
    pad_widths();
    proof {
        lemma_fit_exact(string@, width as nat);
    }
    let mut result = truncate_to_width(string, width);
    let ghost t = result@;
    let padding = width.saturating_sub(str_width(result.as_str()));
    let mut k: usize = 0;
    while k < padding
        invariant
            k <= padding,
            result@ == t + Seq::new(k as nat, |i: int| ' '),
        decreases padding - k,
    {
        push_char(&mut result, ' ');
        k = k + 1;
        assert(result@ =~= t + Seq::new(k as nat, |i: int| ' '));
    }
    result
}

/// The graphemes among the first `n` of `gs`, newlines left out, each drawn in `style`.
pub open spec fn styled_graphemes(gs: Seq<Seq<char>>, style: Style, n: nat) -> Seq<SpanView>
    decreases n,
{
    if n == 0 {
        Seq::empty()
    } else {
        let prev = styled_graphemes(gs, style, (n - 1) as nat);
        if gs[n - 1] == seq!['\n'] {
            prev
        } else {
            prev.push((gs[n - 1], style))
        }
    }
}

/// The graphemes of a span other than newlines, each in the span's style.
pub open spec fn span_graphemes(span: SpanView) -> Seq<SpanView> {
    let gs = spec_graphemes(span.0);
    styled_graphemes(gs, span.1, gs.len())
}

/// The styled graphemes of a line, span after span.
pub open spec fn line_graphemes(line: Seq<SpanView>) -> Seq<SpanView>
    decreases line.len(),
{
    if line.len() == 0 {
        Seq::empty()
    } else {
        line_graphemes(line.drop_last()) + span_graphemes(line.last())
    }
}

/// The complete styled graphemes of a line that lie in the column range
/// `start..end`, neighbours of the same style merged into one span.
pub open spec fn spec_spans_window(line: Seq<SpanView>, start: nat, end: nat) -> Seq<SpanView> {
    if start >= end {
        Seq::empty()
    } else {
        let items = line_graphemes(line);
        merge_styled(window_of(items, line_widths(items), start, end))
    }
}

/// A cropped line never takes more cells than the column range holds.
pub proof fn lemma_spans_window_fits(line: Seq<SpanView>, start: nat, end: nat)
    ensures
        cells(line_text(spec_spans_window(line, start, end))) <= if start <= end { end - start } else { 0 },
{
    if start < end {
        let items = line_graphemes(line);
        let ws = line_widths(items);
        let sel = window_of(items, ws, start, end);
        lemma_merge_keeps_text(sel);
        let syms = items.map_values(|s: SpanView| s.0);
        crate::cells::lemma_select_map(items, |s: SpanView| s.0, ws, start, end, items.len());
        assert(widths(syms) =~= ws);
        lemma_window_fits(syms, start, end);
    } else {
        assert(line_text(Seq::<SpanView>::empty()) =~= Seq::<char>::empty());
    }
}

fn line_styled_graphemes(spans: &Spans) -> (items: Vec<(String, Style)>)
    ensures
        items@.map_values(|x: (String, Style)| (x.0@, x.1)) == line_graphemes(spans@),
{
    let mut items: Vec<(String, Style)> = Vec::new();
    let mut k: usize = 0;
    while k < spans.0.len()
        invariant
            k <= spans.0@.len(),
            items@.map_values(|x: (String, Style)| (x.0@, x.1)) == line_graphemes(spans@.take(k as int)),
        decreases spans.0@.len() - k,
    {
        let span = &spans.0[k];
        let gs = graphemes(span.content.as_str());
        let ghost before = items@;
        let mut pieces = styled_pieces(&gs, span.style);
        let ghost more = pieces@;
        items.append(&mut pieces);
        proof {
            assert(items@.map_values(|x: (String, Style)| (x.0@, x.1)) =~= before.map_values(
                |x: (String, Style)| (x.0@, x.1),
            ) + more.map_values(|x: (String, Style)| (x.0@, x.1)));
            assert(spans@.take(k + 1).drop_last() =~= spans@.take(k as int));
            assert(spans@[k as int] == span@);
        }
        k = k + 1;
    }
    proof {
        assert(spans@.take(k as int) =~= spans@);
    }
    items
}

/// The graphemes `gs` of one span, newlines left out, each paired with the
/// span's style.
pub fn styled_pieces(gs: &Vec<String>, style: Style) -> (items: Vec<(String, Style)>)
    ensures
        items@.map_values(|x: (String, Style)| (x.0@, x.1)) == styled_graphemes(
            gs@.map_values(|g: String| g@),
            style,
            gs@.len(),
        ),
{
    let newline = "\n".to_owned();
    proof {
        reveal_strlit("\n");
    }
    let ghost sgs = gs@.map_values(|g: String| g@);
    let mut items: Vec<(String, Style)> = Vec::new();
    let mut j: usize = 0;
    while j < gs.len()
        invariant
            j <= gs@.len(),
            newline@ == seq!['\n'],
            sgs == gs@.map_values(|g: String| g@),
            items@.map_values(|x: (String, Style)| (x.0@, x.1)) == styled_graphemes(sgs, style, j as nat),
        decreases gs@.len() - j,
    {
        if !(gs[j] == newline) {
            let g = gs[j].clone();
            let ghost old_items = items@;
            assert(g@ == sgs[j as int]);
            items.push((g, style));
            assert(items@ == old_items.push((g, style)));
            assert(items@.map_values(|x: (String, Style)| (x.0@, x.1)) =~= old_items.map_values(
                |x: (String, Style)| (x.0@, x.1),
            ).push((sgs[j as int], style)));
        } else {
            assert(styled_graphemes(sgs, style, (j + 1) as nat) == styled_graphemes(sgs, style, j as nat));
        }
        j = j + 1;
    }
    items
}

/// Crops styled text by terminal columns while preserving grapheme boundaries.
pub fn spans_window(spans: &Spans, range: &std::ops::Range<usize>) -> (res: Spans)
    ensures
        res@ == spec_spans_window(spans@, range.start as nat, range.end as nat),
{
    if range.start >= range.end {
        return Spans(Vec::new());
    }
    let items = line_styled_graphemes(spans);
    window_items(&items, range)
}

/// Of the styled graphemes `items`, laid out from column zero, the ones that
/// lie wholly inside `range` (a zero-width one when its column is in the
/// range), in order, neighbours of the same style merged into one span.
pub fn window_items(items: &Vec<(String, Style)>, range: &std::ops::Range<usize>) -> (res: Spans)
    ensures
        res@ == merge_styled(
            window_of(
                items@.map_values(|x: (String, Style)| (x.0@, x.1)),
                line_widths(items@.map_values(|x: (String, Style)| (x.0@, x.1))),
                range.start as nat,
                range.end as nat,
            ),
        ),
{
    let ghost iv = items@.map_values(|x: (String, Style)| (x.0@, x.1));
    let ghost ws = line_widths(iv);
    let ghost start = range.start as nat;
    let ghost end = range.end as nat;
    let mut column: usize = 0;
    let mut result: Vec<(String, Style)> = Vec::new();
    let mut i: usize = 0;
    while i < items.len()
        invariant_except_break
            i <= items.len(),
            iv == items@.map_values(|x: (String, Style)| (x.0@, x.1)),
            ws == line_widths(iv),
            start == range.start,
            end == range.end,
            column == crate::cells::column(ws, i as int),
            result@.map_values(|x: (String, Style)| (x.0@, x.1)) == select(iv, ws, start, end, i as nat),
        ensures
            result@.map_values(|x: (String, Style)| (x.0@, x.1)) == window_of(iv, ws, start, end),
        decreases items.len() - i,
    {
        let width = str_width(items[i].0.as_str());
        assert(ws[i as int] == width);
        proof {
            lemma_column_step(ws, i as int);
        }
        let next = match column.checked_add(width) {
            Some(n) => n,
            None => {
                proof {
                    lemma_select_stops(iv, ws, start, end, i as nat, iv.len());
                }
                break;
            },
        };
        if width == 0 {
            if range.start <= column && column < range.end {
                result.push((items[i].0.clone(), items[i].1));
                assert(result@.map_values(|x: (String, Style)| (x.0@, x.1)) =~= select(iv, ws, start, end, (i + 1) as nat));
            }
        } else if next <= range.start {
            column = next;
        } else if column < range.start {
            column = next;
        } else if next > range.end {
            proof {
                lemma_select_stops(iv, ws, start, end, i as nat, iv.len());
            }
            break;
        } else {
            result.push((items[i].0.clone(), items[i].1));
            assert(result@.map_values(|x: (String, Style)| (x.0@, x.1)) =~= select(iv, ws, start, end, (i + 1) as nat));
            column = next;
        }
        i = i + 1;
    }
    into_spans(result)
}

/// Owned form of [`spans_window`].
pub fn spans_window_owned(spans: Spans, range: &std::ops::Range<usize>) -> (res: Spans)
    ensures
        res@ == spec_spans_window(spans@, range.start as nat, range.end as nat),
{
    spans_window(&spans, range)
}

/// The footer entry for a key binding: the first character of `content`
/// bracketed and highlighted, e.g. `[q]uit`.
pub open spec fn spec_help_footer(content: &str, normal: Style, highlight: Style) -> Seq<SpanView> {
    if content@.len() == 0 {
        Seq::empty()
    } else if content.len() == 1 {
        seq![(content@, plain_style())]
    } else {
        seq![
            (seq!['['], normal),
            (content@.take(1), highlight),
            (seq![']'], normal),
            (content@.skip(1), normal),
        ]
    }
}

/// Builds the footer entry for a key binding.
pub fn help_footer(content: &str, normal: Style, highlight: Style) -> (res: Spans)
    requires
        content.len() == 1 || content@.len() != 1,
    ensures
        res@ == spec_help_footer(content, normal, highlight),
{
    if content.is_empty() {
        let v: Vec<Span> = Vec::new();
        proof {
            assert(spans_view(v@) =~= Seq::<SpanView>::empty());
        }
        Spans(v)
    } else if content.len() == 1 {
        let mut v = Vec::new();
        v.push(Span::raw(content.to_owned()));
        proof {
            assert(spans_view(v@) =~= seq![(content@, plain_style())]);
        }
        Spans(v)
    } else {
        let n = content.unicode_len();
        let first = content.substring_char(0, 1);
        let rest = content.substring_char(1, n);
        proof {
            reveal_strlit("[");
            reveal_strlit("]");
        }
        let mut v = Vec::new();
        v.push(Span::styled("[".to_owned(), normal));
        v.push(Span::styled(first.to_owned(), highlight));
        v.push(Span::styled("]".to_owned(), normal));
        v.push(Span::styled(rest.to_owned(), normal));
        proof {
            assert(first@ =~= content@.take(1));
            assert(rest@ =~= content@.skip(1));
            assert(v@[0]@ == (seq!['['], normal));
            assert(v@[2]@ == (seq![']'], normal));
            assert(spans_view(v@) =~= spec_help_footer(content, normal, highlight));
        }
        Spans(v)
    }
}

/// The style of ordinary text.
pub fn get_text_style() -> (s: Style)
    ensures
        s == (Style { fg: Some(Color::White), ..plain_style() }),
{
    Style::default().fg(Color::White)
}

/// A window of a text is the whole text, or whole graphemes of it, in order:
/// it never holds part of a grapheme.
pub proof fn lemma_string_window_whole_graphemes(s: Seq<char>, start: nat, end: nat)
    ensures
        spec_string_window(s, start, end) == s || exists|kept: Seq<Seq<char>>|
            is_subsequence(kept, spec_graphemes(s)) && spec_string_window(s, start, end) == kept.flatten(),
{
    let gs = spec_graphemes(s);
    if start >= end {
        lemma_subsequence_of_empty(gs);
        assert(Seq::<Seq<char>>::empty().flatten() =~= Seq::<char>::empty());
    } else if !(start == 0 && cells(s) <= end) {
        lemma_select_subsequence(gs, widths(gs), start, end, gs.len());
        assert(gs.take(gs.len() as int) =~= gs);
    }
}

proof fn lemma_subsequence_of_empty<A>(b: Seq<A>)
    ensures
        is_subsequence(Seq::<A>::empty(), b),
    decreases b.len(),
{
    if b.len() > 0 {
        lemma_subsequence_of_empty(b.drop_last());
    }
}

/// The text of a cropped line is made of whole styled graphemes of the line,
/// in order, each character in exactly the style of the span it came from.
pub proof fn lemma_spans_window_whole_graphemes(line: Seq<SpanView>, start: nat, end: nat)
    ensures
        exists|kept: Seq<SpanView>|
            is_subsequence(kept, line_graphemes(line)) && spec_spans_window(line, start, end)
                == merge_styled(kept) && line_text(spec_spans_window(line, start, end)) == line_text(kept)
                && styled_chars(spec_spans_window(line, start, end)) == styled_chars(kept),
{
    let items = line_graphemes(line);
    if start >= end {
        lemma_subsequence_of_empty(items);
        assert(merge_styled(Seq::<SpanView>::empty()) =~= Seq::<SpanView>::empty());
        assert(is_subsequence(Seq::<SpanView>::empty(), items));
    } else {
        let sel = window_of(items, line_widths(items), start, end);
        lemma_select_subsequence(items, line_widths(items), start, end, items.len());
        assert(items.take(items.len() as int) =~= items);
        lemma_merge_keeps_text(sel);
        lemma_merge_keeps_styles(sel);
        assert(is_subsequence(sel, items));
    }
}

} // verus!
