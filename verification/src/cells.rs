//! Grapheme segmentation and terminal-cell widths, and the column arithmetic
//! built on them.

use unicode_segmentation::UnicodeSegmentation;
use unicode_width::{UnicodeWidthChar, UnicodeWidthStr};
use vstd::prelude::*;

verus! {

/// The extended grapheme clusters of a text, as `unicode-segmentation` splits it.
pub uninterp spec fn spec_graphemes(s: Seq<char>) -> Seq<Seq<char>>;

/// The width `unicode-width` gives a single character (`None` for control characters).
pub uninterp spec fn spec_char_width(c: char) -> Option<usize>;

/// Cells taken by one character; control characters take none.
pub open spec fn char_cells(c: char) -> nat {
    match spec_char_width(c) {
        Some(w) => w as nat,
        None => 0,
    }
}

/// Cells taken by a text: the sum of the cells of its characters.
pub open spec fn cells(s: Seq<char>) -> nat
    decreases s.len(),
{
    if s.len() == 0 {
        0
    } else {
        cells(s.drop_last()) + char_cells(s.last())
    }
}

/// Sum of a sequence of widths.
pub open spec fn sum(ws: Seq<nat>) -> nat
    decreases ws.len(),
{
    if ws.len() == 0 {
        0
    } else {
        sum(ws.drop_last()) + ws.last()
    }
}

/// The widths of a sequence of texts.
pub open spec fn widths(gs: Seq<Seq<char>>) -> Seq<nat> {
    gs.map_values(|g: Seq<char>| cells(g))
}

/// Column at which item `i` starts when items of widths `ws` are laid out
/// from column zero.
pub open spec fn column(ws: Seq<nat>, i: int) -> nat {
    sum(ws.take(i))
}

/// Whether item `i` lies wholly inside the column range `start..end`: a
/// zero-width item when its column is in the range, any other item when all
/// of its cells are.
pub open spec fn kept(ws: Seq<nat>, i: int, start: nat, end: nat) -> bool {
    let col = column(ws, i);
    if ws[i] == 0 {
        start <= col && col < end
    } else {
        start <= col && col + ws[i] <= end
    }
}

/// The items among the first `n` that lie wholly inside `start..end`, in order.
pub open spec fn select<A>(xs: Seq<A>, ws: Seq<nat>, start: nat, end: nat, n: nat) -> Seq<A>
    decreases n,
{
    if n == 0 {
        Seq::empty()
    } else {
        let prev = select(xs, ws, start, end, (n - 1) as nat);
        if kept(ws, n - 1, start, end) {
            prev.push(xs[n - 1])
        } else {
            prev
        }
    }
}

/// The items that lie wholly inside `start..end`.
pub open spec fn window_of<A>(xs: Seq<A>, ws: Seq<nat>, start: nat, end: nat) -> Seq<A> {
    select(xs, ws, start, end, xs.len())
}

/// The complete graphemes of `s` contained in the column range `start..end`;
/// all of `s` when the range starts at zero and `s` fits in it.
pub open spec fn spec_string_window(s: Seq<char>, start: nat, end: nat) -> Seq<char> {
    if start >= end {
        Seq::empty()
    } else if start == 0 && cells(s) <= end {
        s
    } else {
        let gs = spec_graphemes(s);
        window_of(gs, widths(gs), start, end).flatten()
    }
}

/// Calls `UnicodeSegmentation::graphemes(s, true)`: the extended grapheme
/// clusters of `s`. States that they are named by `spec_graphemes`, that
/// none is empty and that together, in order, they make up `s`.
#[verifier::external_body]
pub(crate) fn graphemes(s: &str) -> (res: Vec<String>)
    ensures
        res@.map_values(|g: String| g@) == spec_graphemes(s@),
        res@.map_values(|g: String| g@).flatten() == s@,
        forall|i: int| 0 <= i < res@.len() ==> (#[trigger] res@[i])@.len() > 0,
{
    UnicodeSegmentation::graphemes(s, true).map(String::from).collect()
}

/// Calls `UnicodeWidthStr::width(s)`, which in this version of
/// `unicode-width` sums the width of each character, a control character
/// counting as zero.
#[verifier::external_body]
pub(crate) fn str_width(s: &str) -> (w: usize)
    ensures
        w == cells(s@),
{
    UnicodeWidthStr::width(s)
}

/// Calls `UnicodeWidthChar::width(c)`: the width of one character, `None`
/// for a control character. As its code shows, a printable ASCII character
/// (U+0020 to U+007E) takes one column, `'\0'` none, and the other
/// characters below U+00A0 are control characters. By a lookup in its
/// tables, the ellipsis U+2026 (ambiguous width, counted as one column
/// outside CJK contexts) and the arrow U+27A4 take one column each. Of other
/// characters nothing is stated beyond the name `spec_char_width`.
#[verifier::external_body]
pub(crate) fn char_width(c: char) -> (w: Option<usize>)
    ensures
        w == spec_char_width(c),
        ' ' <= c <= '~' ==> w == Some(1usize),
        c == '\0' ==> w == Some(0usize),
        ('\u{1}' <= c < ' ' || '\u{7f}' <= c < '\u{a0}') ==> w is None,
        c == '\u{2026}' ==> w == Some(1usize),
        c == '\u{27a4}' ==> w == Some(1usize),
{
    UnicodeWidthChar::width(c)
}

/// Calls `String::push`.
#[verifier::external_body]
pub(crate) fn push_char(s: &mut String, c: char)
    ensures
        final(s)@ == old(s)@.push(c),
{
    s.push(c)
}

/// A text of one character takes the cells of that character.
pub proof fn lemma_cells_single(c: char)
    ensures
        cells(seq![c]) == char_cells(c),
{
    assert(seq![c].drop_last() =~= Seq::<char>::empty());
    assert(seq![c].last() == c);
    assert(cells(Seq::<char>::empty()) == 0);
}

pub proof fn lemma_cells_concat(a: Seq<char>, b: Seq<char>)
    ensures
        cells(a + b) == cells(a) + cells(b),
    decreases b.len(),
{
    if b.len() == 0 {
        assert(a + b =~= a);
    } else {
        lemma_cells_concat(a, b.drop_last());
        assert((a + b).drop_last() =~= a + b.drop_last());
        assert((a + b).last() == b.last());
    }
}

pub proof fn lemma_cells_flatten(gs: Seq<Seq<char>>)
    ensures
        cells(gs.flatten()) == sum(widths(gs)),
    decreases gs.len(),
{
    broadcast use Seq::lemma_flatten_push;

    if gs.len() == 0 {
    } else {
        lemma_cells_flatten(gs.drop_last());
        assert(gs.drop_last().push(gs.last()) =~= gs);
        assert(gs.flatten() =~= gs.drop_last().flatten() + gs.last());
        lemma_cells_concat(gs.drop_last().flatten(), gs.last());
        assert(widths(gs).drop_last() =~= widths(gs.drop_last()));
    }
}

pub proof fn lemma_column_step(ws: Seq<nat>, i: int)
    requires
        0 <= i < ws.len(),
    ensures
        column(ws, i + 1) == column(ws, i) + ws[i],
{
    assert(ws.take(i + 1).drop_last() =~= ws.take(i));
}

pub proof fn lemma_column_mono(ws: Seq<nat>, i: int, j: int)
    requires
        0 <= i <= j <= ws.len(),
    ensures
        column(ws, i) <= column(ws, j),
    decreases j - i,
{
    if i < j {
        lemma_column_mono(ws, i, j - 1);
        lemma_column_step(ws, j - 1);
    }
}

pub proof fn lemma_column_full(ws: Seq<nat>)
    ensures
        column(ws, ws.len() as int) == sum(ws),
{
    assert(ws.take(ws.len() as int) =~= ws);
}

/// Once an item reaches past `end`, no later item is kept.
pub proof fn lemma_select_stops<A>(xs: Seq<A>, ws: Seq<nat>, start: nat, end: nat, i: nat, n: nat)
    requires
        i <= n <= ws.len(),
        i < ws.len(),
        column(ws, i as int) + ws[i as int] > end,
    ensures
        select(xs, ws, start, end, n) == select(xs, ws, start, end, i),
    decreases n,
{
    if n > i {
        lemma_select_stops(xs, ws, start, end, i, (n - 1) as nat);
        lemma_column_step(ws, i as int);
        if n - 1 > i {
            lemma_column_mono(ws, i + 1 as int, n - 1);
        }
        assert(!kept(ws, n - 1, start, end));
    }
}

pub proof fn lemma_select_map<A, B>(xs: Seq<A>, f: spec_fn(A) -> B, ws: Seq<nat>, start: nat, end: nat, n: nat)
    requires
        n <= xs.len(),
    ensures
        select(xs, ws, start, end, n).map_values(f) == select(xs.map_values(f), ws, start, end, n),
    decreases n,
{
    if n > 0 {
        lemma_select_map(xs, f, ws, start, end, (n - 1) as nat);
        let prev = select(xs, ws, start, end, (n - 1) as nat);
        assert(prev.push(xs[n - 1]).map_values(f) =~= prev.map_values(f).push(f(xs[n - 1])));
    }
}

/// Bound on the cells kept among the first `n` items.
pub open spec fn kept_bound(c: nat, start: nat, end: nat) -> nat {
    if c <= start {
        0
    } else if c <= end {
        (c - start) as nat
    } else {
        (end - start) as nat
    }
}

pub proof fn lemma_select_sum(ws: Seq<nat>, start: nat, end: nat, n: nat)
    requires
        n <= ws.len(),
        start <= end,
    ensures
        sum(select(ws, ws, start, end, n)) <= kept_bound(column(ws, n as int), start, end),
    decreases n,
{
    if n > 0 {
        lemma_select_sum(ws, start, end, (n - 1) as nat);
        lemma_column_step(ws, n - 1);
        let prev = select(ws, ws, start, end, (n - 1) as nat);
        if kept(ws, n - 1, start, end) {
            assert(prev.push(ws[n - 1]).drop_last() =~= prev);
        }
    }
}

/// The graphemes kept by a window never take more cells than the range holds.
pub proof fn lemma_window_fits(gs: Seq<Seq<char>>, start: nat, end: nat)
    requires
        start <= end,
    ensures
        cells(window_of(gs, widths(gs), start, end).flatten()) <= end - start,
{
    let ws = widths(gs);
    lemma_cells_flatten(window_of(gs, ws, start, end));
    lemma_select_map(gs, |g: Seq<char>| cells(g), ws, start, end, gs.len());
    lemma_select_sum(ws, start, end, gs.len());
}

/// A window of a text never takes more cells than the column range holds.
pub proof fn lemma_string_window_fits(s: Seq<char>, start: nat, end: nat)
    ensures
        cells(spec_string_window(s, start, end)) <= if start <= end { end - start } else { 0 },
{
    if start < end && !(start == 0 && cells(s) <= end) {
        lemma_window_fits(spec_graphemes(s), start, end);
    }
}

/// `a` is `b` with some items left out and the others kept in order.
pub open spec fn is_subsequence<A>(a: Seq<A>, b: Seq<A>) -> bool
    decreases b.len(),
{
    if b.len() == 0 {
        a.len() == 0
    } else if a.len() > 0 && a.last() == b.last() {
        is_subsequence(a.drop_last(), b.drop_last()) || is_subsequence(a, b.drop_last())
    } else {
        is_subsequence(a, b.drop_last())
    }
}

/// The items a window keeps are items of the sequence, in their order.
pub proof fn lemma_select_subsequence<A>(xs: Seq<A>, ws: Seq<nat>, start: nat, end: nat, n: nat)
    requires
        n <= xs.len(),
    ensures
        is_subsequence(select(xs, ws, start, end, n), xs.take(n as int)),
    decreases n,
{
    if n == 0 {
        assert(xs.take(0).len() == 0);
    } else {
        lemma_select_subsequence(xs, ws, start, end, (n - 1) as nat);
        let prev = select(xs, ws, start, end, (n - 1) as nat);
        assert(xs.take(n as int).drop_last() =~= xs.take(n - 1));
        assert(xs.take(n as int).last() == xs[n - 1]);
        if kept(ws, n - 1, start, end) {
            assert(prev.push(xs[n - 1]).drop_last() =~= prev);
        }
    }
}

} // verus!
