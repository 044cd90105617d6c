//! Styled terminal text: colours, styles, spans and lines of spans.

use crate::cells::{cells, str_width};
use vstd::prelude::*;

verus! {

/// A terminal colour.
#[derive(Clone, Copy, Debug, PartialEq, Eq, Structural)]
pub enum Color {
    Reset,
    Black,
    Red,
    Green,
    Yellow,
    Blue,
    Magenta,
    Cyan,
    Gray,
    DarkGray,
    LightRed,
    LightGreen,
    LightYellow,
    LightBlue,
    LightMagenta,
    LightCyan,
    White,
    Rgb(u8, u8, u8),
    Indexed(u8),
}

/// Bold text modifier bit.
pub const BOLD: u16 = 1;

/// Dim text modifier bit.
pub const DIM: u16 = 2;

/// Italic text modifier bit.
pub const ITALIC: u16 = 4;

/// Underline text modifier bit.
pub const UNDERLINED: u16 = 8;

/// Slow-blink text modifier bit.
pub const SLOW_BLINK: u16 = 16;

/// Rapid-blink text modifier bit.
pub const RAPID_BLINK: u16 = 32;

/// Reverse-video text modifier bit.
pub const REVERSED: u16 = 64;

/// Hidden text modifier bit.
pub const HIDDEN: u16 = 128;

/// Crossed-out text modifier bit.
pub const CROSSED_OUT: u16 = 256;

/// How a piece of text is drawn: colours, and the modifiers it adds to and
/// removes from the style it is drawn over.
#[derive(Clone, Copy, Debug, PartialEq, Eq, Structural)]
pub struct Style {
    pub fg: Option<Color>,
    pub bg: Option<Color>,
    pub add_modifier: u16,
    pub sub_modifier: u16,
}

/// The style that changes nothing.
pub open spec fn plain_style() -> Style {
    Style { fg: None, bg: None, add_modifier: 0, sub_modifier: 0 }
}

impl Default for Style {
    fn default() -> (s: Style)
        ensures
            s == plain_style(),
    {
        Style { fg: None, bg: None, add_modifier: 0, sub_modifier: 0 }
    }
}

impl Style {
    /// The same style with foreground colour `color`.
    pub fn fg(self, color: Color) -> (s: Style)
        ensures
            s == (Style { fg: Some(color), ..self }),
    {
        Style { fg: Some(color), ..self }
    }

    /// The same style with background colour `color`.
    pub fn bg(self, color: Color) -> (s: Style)
        ensures
            s == (Style { bg: Some(color), ..self }),
    {
        Style { bg: Some(color), ..self }
    }

    /// The same style, adding the modifier bits `m` (and no longer removing them).
    pub fn add_modifier(self, m: u16) -> (s: Style)
        ensures
            s == (Style { add_modifier: self.add_modifier | m, sub_modifier: self.sub_modifier & !m, ..self }),
    {
        Style { add_modifier: self.add_modifier | m, sub_modifier: self.sub_modifier & !m, ..self }
    }

    /// The same style, removing the modifier bits `m` (and no longer adding them).
    pub fn remove_modifier(self, m: u16) -> (s: Style)
        ensures
            s == (Style { add_modifier: self.add_modifier & !m, sub_modifier: self.sub_modifier | m, ..self }),
    {
        Style { add_modifier: self.add_modifier & !m, sub_modifier: self.sub_modifier | m, ..self }
    }
}

/// A piece of text drawn in one style.
#[derive(Clone, Debug, PartialEq, Eq)]
pub struct Span {
    pub content: String,
    pub style: Style,
}

/// Mathematical form of a span: its characters and its style.
pub type SpanView = (Seq<char>, Style);

impl View for Span {
    type V = SpanView;

    open spec fn view(&self) -> SpanView {
        (self.content@, self.style)
    }
}

impl Span {
    /// A span in the plain style.
    pub fn raw(content: String) -> (s: Span)
        ensures
            s@ == (content@, plain_style()),
    {
        Span { content, style: Style::default() }
    }

    /// A span in the style `style`.
    pub fn styled(content: String, style: Style) -> (s: Span)
        ensures
            s@ == (content@, style),
    {
        Span { content, style }
    }

    /// Cells the span takes on a terminal.
    pub fn width(&self) -> (w: usize)
        ensures
            w == cells(self.content@),
    {
        str_width(self.content.as_str())
    }
}

/// A line of spans.
#[derive(Clone, Debug, PartialEq, Eq)]
pub struct Spans(pub Vec<Span>);

/// The spans of a line, each by its view.
pub open spec fn spans_view(v: Seq<Span>) -> Seq<SpanView> {
    v.map_values(|s: Span| s@)
}

impl View for Spans {
    type V = Seq<SpanView>;

    open spec fn view(&self) -> Seq<SpanView> {
        spans_view(self.0@)
    }
}

/// The text of a line: the contents of its spans, in order.
pub open spec fn line_text(line: Seq<SpanView>) -> Seq<char> {
    line.map_values(|s: SpanView| s.0).flatten()
}

/// Cells taken by each span of a line.
pub open spec fn line_widths(line: Seq<SpanView>) -> Seq<nat> {
    line.map_values(|s: SpanView| cells(s.0))
}

impl Spans {
    /// Cells the line takes on a terminal: the sum of the widths of its spans.
    pub fn width(&self) -> (w: usize)
        requires
            crate::cells::sum(line_widths(self@)) <= usize::MAX,
        ensures
            w == crate::cells::sum(line_widths(self@)),
    {
        let mut total: usize = 0;
        let mut i: usize = 0;
        while i < self.0.len()
            invariant
                i <= self.0@.len(),
                crate::cells::sum(line_widths(self@)) <= usize::MAX,
                total == crate::cells::sum(line_widths(self@).take(i as int)),
            decreases self.0@.len() - i,
        {
            let w = self.0[i].width();
            proof {
                let ws = line_widths(self@);
                assert(ws.take(i + 1).drop_last() =~= ws.take(i as int));
                crate::cells::lemma_column_mono(ws, i + 1, ws.len() as int);
                crate::cells::lemma_column_full(ws);
            }
            total = total + w;
            i = i + 1;
        }
        proof {
            assert(line_widths(self@).take(i as int) =~= line_widths(self@));
        }
        total
    }
}

impl Spans {
    /// Cells the line takes, or `None` when that number does not fit in a `usize`.
    pub fn checked_width(&self) -> (w: Option<usize>)
        ensures
            w == (if crate::cells::sum(line_widths(self@)) <= usize::MAX {
                Some(crate::cells::sum(line_widths(self@)) as usize)
            } else {
                None::<usize>
            }),
    {
        let ghost ws = line_widths(self@);
        let mut total: usize = 0;
        let mut i: usize = 0;
        while i < self.0.len()
            invariant
                i <= self.0@.len(),
                ws == line_widths(self@),
                total == crate::cells::sum(ws.take(i as int)),
            decreases self.0@.len() - i,
        {
            let w = self.0[i].width();
            proof {
                assert(ws.take(i + 1).drop_last() =~= ws.take(i as int));
                crate::cells::lemma_column_mono(ws, i + 1, ws.len() as int);
                crate::cells::lemma_column_full(ws);
            }
            match total.checked_add(w) {
                Some(t) => total = t,
                None => return None,
            }
            i = i + 1;
        }
        proof {
            assert(ws.take(i as int) =~= ws);
        }
        Some(self.width())
    }
}

/// Groups consecutive pieces of text of the same style into one span each.
pub open spec fn merge_styled(items: Seq<SpanView>) -> Seq<SpanView>
    decreases items.len(),
{
    if items.len() == 0 {
        Seq::empty()
    } else {
        let prev = merge_styled(items.drop_last());
        let item = items.last();
        if prev.len() > 0 && prev.last().1 == item.1 {
            prev.drop_last().push((prev.last().0 + item.0, item.1))
        } else {
            prev.push(item)
        }
    }
}

/// Merging keeps the text, in order.
pub proof fn lemma_merge_keeps_text(items: Seq<SpanView>)
    ensures
        line_text(merge_styled(items)) == line_text(items),
    decreases items.len(),
{
    broadcast use Seq::lemma_flatten_push;

    if items.len() > 0 {
        lemma_merge_keeps_text(items.drop_last());
        let prev = merge_styled(items.drop_last());
        let item = items.last();
        assert(items.drop_last().push(item) =~= items);
        assert(items.map_values(|s: SpanView| s.0) =~= items.drop_last().map_values(
            |s: SpanView| s.0,
        ).push(item.0));
        if prev.len() > 0 && prev.last().1 == item.1 {
            let init = prev.drop_last();
            assert(init.push(prev.last()) =~= prev);
            assert(prev.map_values(|s: SpanView| s.0) =~= init.map_values(|s: SpanView| s.0).push(
                prev.last().0,
            ));
            assert(init.push((prev.last().0 + item.0, item.1)).map_values(|s: SpanView| s.0)
                =~= init.map_values(|s: SpanView| s.0).push(prev.last().0 + item.0));
            let t = init.map_values(|s: SpanView| s.0).flatten();
            assert(t + (prev.last().0 + item.0) =~= (t + prev.last().0) + item.0);
        } else {
            assert(prev.push(item).map_values(|s: SpanView| s.0) =~= prev.map_values(
                |s: SpanView| s.0,
            ).push(item.0));
        }
    }
}

/// Each character of a line, in order, paired with the style it is drawn in.
pub open spec fn styled_chars(line: Seq<SpanView>) -> Seq<(char, Style)>
    decreases line.len(),
{
    if line.len() == 0 {
        Seq::empty()
    } else {
        styled_chars(line.drop_last()) + line.last().0.map_values(|c: char| (c, line.last().1))
    }
}

/// Merging keeps every character in the exact style (colours and
/// modifiers) it had: only neighbours of equal style are joined.
pub proof fn lemma_merge_keeps_styles(items: Seq<SpanView>)
    ensures
        styled_chars(merge_styled(items)) == styled_chars(items),
    decreases items.len(),
{
    if items.len() > 0 {
        lemma_merge_keeps_styles(items.drop_last());
        let prev = merge_styled(items.drop_last());
        let item = items.last();
        let f = |c: char| (c, item.1);
        if prev.len() > 0 && prev.last().1 == item.1 {
            let init = prev.drop_last();
            let last = prev.last();
            assert(init.push(last) =~= prev);
            assert(init.push(last).drop_last() =~= init);
            assert(styled_chars(prev) == styled_chars(init) + last.0.map_values(|c: char| (c, last.1)));
            let merged = (last.0 + item.0, item.1);
            assert(init.push(merged).drop_last() =~= init);
            assert(merged.0.map_values(f) =~= last.0.map_values(|c: char| (c, last.1)) + item.0.map_values(f));
            assert(styled_chars(init.push(merged)) =~= styled_chars(prev) + item.0.map_values(f));
        } else {
            assert(prev.push(item).drop_last() =~= prev);
        }
    }
}

/// After merging, no two neighbouring spans share a style.
pub proof fn lemma_merge_neighbours_differ(items: Seq<SpanView>, i: int)
    requires
        0 <= i < merge_styled(items).len() - 1,
    ensures
        merge_styled(items)[i].1 != merge_styled(items)[i + 1].1,
    decreases items.len(),
{
    let prev = merge_styled(items.drop_last());
    let item = items.last();
    if prev.len() > 0 && prev.last().1 == item.1 {
        lemma_merge_neighbours_differ(items.drop_last(), i);
    } else if i < prev.len() - 1 {
        lemma_merge_neighbours_differ(items.drop_last(), i);
    }
}

/// Turns pieces of styled text into a line, merging neighbours of the same style.
pub fn into_spans(items: Vec<(String, Style)>) -> (line: Spans)
    ensures
        line@ == merge_styled(items@.map_values(|x: (String, Style)| (x.0@, x.1))),
{
    let ghost iv = items@.map_values(|x: (String, Style)| (x.0@, x.1));
    let mut out: Vec<Span> = Vec::new();
    let mut i: usize = 0;
    while i < items.len()
        invariant
            i <= items@.len(),
            iv == items@.map_values(|x: (String, Style)| (x.0@, x.1)),
            spans_view(out@) == merge_styled(iv.take(i as int)),
        decreases items@.len() - i,
    {
        let symbol = items[i].0.as_str();
        let style = items[i].1;
        assert(iv.take(i + 1).drop_last() =~= iv.take(i as int));
        let n = out.len();
        if n > 0 && out[n - 1].style == style {
            let mut last = out.pop().unwrap();
            last.content.append(symbol);
            out.push(last);
            proof {
                assert(spans_view(out@) =~= merge_styled(iv.take(i + 1)));
            }
        } else {
            out.push(Span { content: symbol.to_owned(), style });
            proof {
                assert(spans_view(out@) =~= merge_styled(iv.take(i + 1)));
            }
        }
        i = i + 1;
    }
    proof {
        assert(iv.take(i as int) =~= iv);
    }
    Spans(out)
}

} // verus!
