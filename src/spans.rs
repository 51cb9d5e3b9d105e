//! Normalization of column spans: covered cells get span 0, spans are
//! clamped to the row, a leading gap is closed by moving the first visible
//! cell to the front, and inner gaps are covered by the cell before them.

use vstd::prelude::*;
use crate::style::Style;

verus! {

/// The spans of a row of styles.
pub open spec fn spans_of(styles: Seq<Style>) -> Seq<usize> {
    styles.map_values(|st: Style| st.span)
}

/// `a` or `b`, whichever is smaller.
pub open spec fn min_nat(a: int, b: int) -> int {
    if a < b {
        a
    } else {
        b
    }
}

/// The column just right of the last cell before `c` that is visible,
/// with its span clamped to the row; 0 where there is none.
pub open spec fn reach(s: Seq<usize>, c: int) -> int
    decreases c,
{
    if c <= 0 {
        0
    } else {
        let r = reach(s, c - 1);
        if c - 1 >= r && s[c - 1] > 0 {
            c - 1 + min_nat(s[c - 1] as int, s.len() - (c - 1))
        } else {
            r
        }
    }
}

/// The span of column `c` once covered cells are marked and spans are
/// clamped: 0 where an earlier cell covers `c`.
pub open spec fn visible_span(s: Seq<usize>, c: int) -> usize {
    if c >= reach(s, c) && s[c] > 0 {
        min_nat(s[c] as int, s.len() - c) as usize
    } else {
        0
    }
}

/// The spans after covered cells are marked and spans are clamped.
pub open spec fn marked(s: Seq<usize>) -> Seq<usize> {
    Seq::new(s.len(), |c: int| visible_span(s, c))
}

/// The first column at or after `q` with a positive span, or the row length.
pub open spec fn next_start(m: Seq<usize>, q: int) -> int
    decreases m.len() - q,
{
    if q >= m.len() {
        m.len() as int
    } else if q < 0 {
        next_start(m, 0)
    } else if m[q] > 0 {
        q
    } else {
        next_start(m, q + 1)
    }
}

/// `next_start` lies between its start and the row length, skips only
/// zero spans, and stops at a positive span unless it reaches the end.
pub proof fn lemma_next_start(m: Seq<usize>, q: int)
    requires
        0 <= q <= m.len(),
    ensures
        q <= next_start(m, q) <= m.len(),
        forall|c: int| q <= c < next_start(m, q) ==> m[c] == 0,
        next_start(m, q) < m.len() ==> m[next_start(m, q)] > 0,
    decreases m.len() - q,
{
    if q < m.len() && m[q] == 0 {
        lemma_next_start(m, q + 1);
    }
}

/// Whether the first visible cell is moved to the front.
pub open spec fn moves_first(m: Seq<usize>) -> bool {
    m.len() > 0 && m[0] == 0 && next_start(m, 0) < m.len()
}

/// The span of column `c` once each visible cell reaches to the next one.
pub open spec fn extended(m: Seq<usize>, c: int) -> usize {
    if m[c] > 0 {
        (next_start(m, c + 1) - c) as usize
    } else {
        0
    }
}

/// The final span of column `c`, for marked spans `m`.
pub open spec fn filled_span(m: Seq<usize>, c: int) -> usize {
    let f = next_start(m, 0);
    if moves_first(m) && c == 0 {
        next_start(m, f + 1) as usize
    } else if moves_first(m) && c == f {
        0
    } else {
        extended(m, c)
    }
}

/// The column whose content ends up at column `c`.
pub open spec fn source_of(m: Seq<usize>, c: int) -> int {
    let f = next_start(m, 0);
    if moves_first(m) && c == 0 {
        f
    } else if moves_first(m) && c == f {
        0
    } else {
        c
    }
}

/// A row of styles once its spans are normalized.
pub open spec fn normalized_row(styles: Seq<Style>) -> Seq<Style> {
    let m = marked(spans_of(styles));
    Seq::new(
        styles.len(),
        |c: int| Style { span: filled_span(m, c), ..styles[source_of(m, c)] },
    )
}

/// Each visible cell reaches exactly to the next visible cell or to the end
/// of the row, and the row starts with a visible cell unless none is.
pub open spec fn tiles(t: Seq<usize>) -> bool {
    &&& forall|p: int| 0 <= p < t.len() && t[p] > 0 ==> next_start(t, p + 1) == p + t[p]
    &&& (t.len() == 0 || t[0] > 0 || (forall|c: int| 0 <= c < t.len() ==> t[c] == 0))
}

/// Whether some cell left of `c` spans over `c`.
pub open spec fn overridden(s: Seq<usize>, c: int) -> bool {
    exists|i: int| 0 <= i < c && s[i] > c - i
}

/// Whether the cell at `c` is drawn: its span is positive and no cell
/// left of it spans over it.
pub open spec fn cell_visible(s: Seq<usize>, c: int) -> bool {
    s[c] > 0 && !overridden(s, c)
}

/// Whether some cell of `styles` spans past its end.
pub fn is_cell_overriden(styles: &[Style]) -> (r: bool)
    ensures
        r == overridden(spans_of(styles@), styles@.len() as int),
{
    let n = styles.len();
    let mut i: usize = 0;
    while i < n
        invariant
            i <= n,
            n == styles@.len(),
            forall|j: int| 0 <= j < i ==> styles@[j].span <= n - j,
        decreases n - i,
    {
        if styles[i].span > n - i {
            assert(spans_of(styles@)[i as int] == styles@[i as int].span);
            return true;
        }
        i = i + 1;
    }
    assert forall|j: int| 0 <= j < n implies !(spans_of(styles@)[j] > n - j) by {
        assert(spans_of(styles@)[j] == styles@[j].span);
    }
    false
}

/// Whether the cell at `column` is drawn.
pub fn is_cell_visible(row_styles: &[Style], column: usize) -> (r: bool)
    requires
        column < row_styles@.len(),
    ensures
        r == cell_visible(spans_of(row_styles@), column as int),
{
    if row_styles[column].span == 0 {
        return false;
    }
    let prefix = slice_prefix(row_styles, column);
    let over = is_cell_overriden(prefix);
    proof {
        let s = spans_of(row_styles@);
        let p = spans_of(prefix@);
        assert forall|i: int| 0 <= i < column implies p[i] == s[i] by {}
        if over {
            let i = choose|i: int| 0 <= i < column && p[i] > column - i;
            assert(s[i] > column - i);
        }
        if overridden(s, column as int) {
            let i = choose|i: int| 0 <= i < column && s[i] > column - i;
            assert(p[i] > column - i);
        }
    }
    !over
}

/// The first `n` elements of `s`.
fn slice_prefix<T>(s: &[T], n: usize) -> (r: &[T])
    requires
        n <= s@.len(),
    ensures
        r@ == s@.take(n as int),
{
    vstd::slice::slice_subrange(s, 0, n)
}


/// Marks covered cells with span 0 and clamps each visible span to the row.
pub fn fix_invisible_cell(styles: &mut Vec<Style>)
    ensures
        final(styles)@.len() == old(styles)@.len(),
        forall|c: int|
            0 <= c < old(styles)@.len() ==> #[trigger] final(styles)@[c] == (Style {
                span: marked(spans_of(old(styles)@))[c],
                ..old(styles)@[c]
            }),
{
    let ghost s = spans_of(styles@);
    let ghost orig = styles@;
    let len = styles.len();
    let mut reach_col: usize = 0;
    let mut c: usize = 0;
    while c < len
        invariant
            c <= len,
            len == orig.len(),
            s == spans_of(orig),
            styles@.len() == len,
            reach_col == reach(s, c as int),
            c <= reach_col <= len || (reach_col <= c && c <= len),
            reach_col <= len,
            forall|j: int|
                0 <= j < c ==> #[trigger] styles@[j] == (Style { span: visible_span(s, j), ..orig[j] }),
            forall|j: int| c <= j < len ==> #[trigger] styles@[j] == orig[j],
        decreases len - c,
    {
        let st = styles[c];
        assert(s[c as int] == st.span);
        if c >= reach_col && st.span > 0 {
            let rest = len - c;
            let span = if st.span < rest { st.span } else { rest };
            styles.set(c, Style { span, ..st });
            reach_col = c + span;
        } else {
            styles.set(c, Style { span: 0, ..st });
        }
        c = c + 1;
    }
}

/// Extends each visible cell up to the next visible cell or the end of the
/// row, so that no uncovered gap is left after it.
pub fn fix_zero_column_span(styles: &mut Vec<Style>)
    ensures
        final(styles)@.len() == old(styles)@.len(),
        forall|c: int|
            0 <= c < old(styles)@.len() ==> #[trigger] final(styles)@[c] == (Style {
                span: extended(spans_of(old(styles)@), c),
                ..old(styles)@[c]
            }),
{
    let ghost m = spans_of(styles@);
    let ghost orig = styles@;
    let len = styles.len();
    let mut next: usize = len;
    let mut c: usize = len;
    while c > 0
        invariant
            c <= len,
            len == orig.len(),
            m == spans_of(orig),
            styles@.len() == len,
            next == next_start(m, c as int),
            c <= next <= len,
            forall|j: int|
                c <= j < len ==> #[trigger] styles@[j] == (Style { span: extended(m, j), ..orig[j] }),
            forall|j: int| 0 <= j < c ==> #[trigger] styles@[j] == orig[j],
        decreases c,
    {
        c = c - 1;
        let st = styles[c];
        assert(m[c as int] == st.span);
        if st.span > 0 {
            styles.set(c, Style { span: next - c, ..st });
            next = c;
        } else {
            styles.set(c, Style { span: 0, ..st });
        }
    }
}

/// Swaps the elements at `i` and `j`.
fn swap_items<T>(v: &mut Vec<T>, i: usize, j: usize)
    requires
        i < j < old(v)@.len(),
    ensures
        final(v)@ == old(v)@.update(i as int, old(v)@[j as int]).update(j as int, old(v)@[i as int]),
{
    let b = v.remove(j);
    let a = v.remove(i);
    v.insert(i, b);
    v.insert(j, a);
    assert(v@ =~= old(v)@.update(i as int, old(v)@[j as int]).update(j as int, old(v)@[i as int]));
}

/// Where the first column is covered by nothing, moves the first visible
/// cell, with its content, to the front and widens it by the columns it moved.
pub fn fix_first_column_span<T>(styles: &mut Vec<Style>, cells: &mut Vec<T>)
    requires
        old(styles)@.len() > 0,
        old(cells)@.len() == old(styles)@.len(),
    ensures
        final(styles)@.len() == old(styles)@.len(),
        final(cells)@.len() == old(cells)@.len(),
        ({
            let s = spans_of(old(styles)@);
            let f = next_start(s, 0);
            if s[0] == 0 && f < s.len() && old(styles)@[f].span + f <= usize::MAX {
                &&& final(styles)@ == old(styles)@.update(
                    0,
                    Style { span: (old(styles)@[f].span + f) as usize, ..old(styles)@[f] },
                ).update(f, old(styles)@[0])
                &&& final(cells)@ == old(cells)@.update(0, old(cells)@[f]).update(f, old(cells)@[0])
            } else {
                &&& s[0] == 0 && f < s.len() ==> old(styles)@[f].span + f > usize::MAX
                &&& final(styles)@ == old(styles)@
                &&& final(cells)@ == old(cells)@
            }
        }),
{
    let ghost s = spans_of(styles@);
    if styles[0].span == 0 {
        assert(s[0] == styles@[0].span);
        assert(next_start(s, 0) == next_start(s, 1));
        let i = first_visible_from(styles, 1);
        proof {
            lemma_next_start(s, 1);
        }
        if i < styles.len() {
            let st = styles[i];
            if st.span <= usize::MAX - i {
                let z = styles[0];
                styles.set(0, Style { span: st.span + i, ..st });
                styles.set(i, z);
                swap_items(cells, 0, i);
            }
        }
    }
}

/// The first column at or after `from` with a positive span, or the row length.
fn first_visible_from(styles: &Vec<Style>, from: usize) -> (r: usize)
    requires
        from <= styles@.len(),
    ensures
        r == next_start(spans_of(styles@), from as int),
{
    let ghost s = spans_of(styles@);
    let mut i: usize = from;
    while i < styles.len()
        invariant
            from <= i <= styles@.len(),
            s == spans_of(styles@),
            next_start(s, from as int) == next_start(s, i as int),
        decreases styles.len() - i,
    {
        assert(s[i as int] == styles@[i as int].span);
        if styles[i].span > 0 {
            return i;
        }
        i = i + 1;
    }
    i
}


/// Two rows whose spans are positive at the same columns have the same
/// visible cells.
pub proof fn lemma_same_starts(a: Seq<usize>, b: Seq<usize>, q: int)
    requires
        a.len() == b.len(),
        0 <= q <= a.len(),
        forall|c: int| q <= c < a.len() ==> (a[c] > 0 <==> b[c] > 0),
    ensures
        next_start(a, q) == next_start(b, q),
    decreases a.len() - q,
{
    if q < a.len() {
        lemma_same_starts(a, b, q + 1);
    }
}

/// Extending spans keeps the same cells visible.
proof fn lemma_extended_starts(m: Seq<usize>)
    requires
        m.len() <= usize::MAX,
    ensures
        forall|c: int| 0 <= c < m.len() ==> (#[trigger] extended(m, c) > 0 <==> m[c] > 0),
{
    assert forall|c: int| 0 <= c < m.len() implies (#[trigger] extended(m, c) > 0 <==> m[c] > 0) by {
        lemma_next_start(m, c + 1);
    }
}

/// The row with visible cells extended over the gaps after them and, where
/// the row starts with a gap, the first visible cell moved to the front.
pub open spec fn filled_row<T>(styles: Seq<Style>, items: Seq<T>) -> (Seq<Style>, Seq<T>) {
    let m = spans_of(styles);
    (
        Seq::new(styles.len(), |c: int| Style { span: filled_span(m, c), ..styles[source_of(m, c)] }),
        Seq::new(items.len(), |c: int| items[source_of(m, c)]),
    )
}

/// Closes the gaps of a row whose covered cells are marked: the row then
/// starts with a visible cell (unless none is) and each visible cell reaches
/// to the next one. The cells move with their styles.
pub fn fix_zero_spans<T>(styles: &mut Vec<Style>, cells: &mut Vec<T>)
    requires
        old(cells)@.len() == old(styles)@.len(),
    ensures
        (final(styles)@, final(cells)@) == filled_row(old(styles)@, old(cells)@),
{
    let ghost orig = styles@;
    let ghost orig_cells = cells@;
    let ghost m = spans_of(orig);
    if styles.len() == 0 {
        assert(styles@ =~= filled_row(orig, orig_cells).0);
        assert(cells@ =~= filled_row(orig, orig_cells).1);
        return;
    }
    fix_zero_column_span(styles);
    let ghost e = spans_of(styles@);
    proof {
        lemma_extended_starts(m);
        assert forall|c: int| 0 <= c < e.len() implies (e[c] > 0 <==> m[c] > 0) by {
            assert(e[c] == styles@[c].span);
            assert(styles@[c].span == extended(m, c));
        }
        lemma_same_starts(e, m, 0);
        lemma_next_start(m, 0);
        assert(e[0] == extended(m, 0));
        let f = next_start(m, 0);
        if f < m.len() {
            lemma_next_start(m, f + 1);
            assert(e[f] == extended(m, f));
        }
    }
    let ghost mid = styles@;
    fix_first_column_span(styles, cells);
    proof {
        let f = next_start(m, 0);
        let (rs, rc) = filled_row(orig, orig_cells);
        assert forall|c: int| 0 <= c < orig.len() implies styles@[c] == rs[c] by {
            assert(mid[c] == (Style { span: extended(m, c), ..orig[c] }));
            if moves_first(m) {
                assert(mid[f] == (Style { span: extended(m, f), ..orig[f] }));
                assert(mid[0] == (Style { span: extended(m, 0), ..orig[0] }));
            }
        }
        assert(styles@ =~= rs);
        assert(cells@ =~= rc);
    }
}

/// A row of styles with covered cells marked and spans clamped.
pub open spec fn marked_row(styles: Seq<Style>) -> Seq<Style> {
    let m = marked(spans_of(styles));
    Seq::new(styles.len(), |c: int| Style { span: m[c], ..styles[c] })
}


/// Zero spans from `q` up to `r` are skipped over.
proof fn lemma_skip_zeros(n: Seq<usize>, q: int, r: int)
    requires
        0 <= q <= r <= n.len(),
        forall|c: int| q <= c < r ==> n[c] == 0,
    ensures
        next_start(n, q) == next_start(n, r),
    decreases r - q,
{
    if q < r {
        lemma_skip_zeros(n, q + 1, r);
    }
}

/// On a row that tiles, the reach before each column is the next visible
/// cell at or after it.
proof fn lemma_tiles_reach(t: Seq<usize>, c: int)
    requires
        tiles(t),
        0 <= c <= t.len(),
        t.len() == 0 || t[0] > 0,
    ensures
        reach(t, c) == next_start(t, c),
    decreases c,
{
    if c == 0 {
    } else {
        lemma_tiles_reach(t, c - 1);
        lemma_next_start(t, c - 1);
        lemma_next_start(t, c);
    }
}

/// On a row of zero spans nothing reaches anywhere.
proof fn lemma_zero_reach(t: Seq<usize>, c: int)
    requires
        forall|j: int| 0 <= j < t.len() ==> t[j] == 0,
        0 <= c <= t.len(),
    ensures
        reach(t, c) == 0,
    decreases c,
{
    if c > 0 {
        lemma_zero_reach(t, c - 1);
    }
}

/// Marking leaves a row that tiles unchanged.
proof fn lemma_tiles_marked(t: Seq<usize>)
    requires
        tiles(t),
    ensures
        marked(t) == t,
{
    if t.len() == 0 || t[0] > 0 {
        assert forall|c: int| 0 <= c < t.len() implies marked(t)[c] == t[c] by {
            lemma_tiles_reach(t, c);
            lemma_next_start(t, c);
            if t[c] > 0 {
                lemma_next_start(t, c + 1);
            }
        }
    } else {
        assert forall|c: int| 0 <= c < t.len() implies marked(t)[c] == t[c] by {
            lemma_zero_reach(t, c);
        }
    }
    assert(marked(t) =~= t);
}

/// Normalizing a row that tiles leaves it unchanged.
proof fn lemma_tiles_fixed(styles: Seq<Style>)
    requires
        tiles(spans_of(styles)),
    ensures
        normalized_row(styles) == styles,
{
    let t = spans_of(styles);
    lemma_tiles_marked(t);
    if t.len() > 0 && t[0] == 0 {
        lemma_skip_zeros(t, 0, t.len() as int);
    }
    assert forall|c: int| 0 <= c < styles.len() implies normalized_row(styles)[c] == styles[c] by {
        assert(t[c] == styles[c].span);
        if t[c] > 0 {
            lemma_next_start(t, c + 1);
        }
    }
    assert(normalized_row(styles) =~= styles);
}

/// A normalized row tiles.
proof fn lemma_normalized_tiles(styles: Seq<Style>)
    requires
        styles.len() <= usize::MAX,
    ensures
        tiles(spans_of(normalized_row(styles))),
{
    let m = marked(spans_of(styles));
    let n = spans_of(normalized_row(styles));
    let len = styles.len() as int;
    let f = next_start(m, 0);
    lemma_next_start(m, 0);
    lemma_extended_starts(m);
    assert forall|c: int| 0 <= c < len implies n[c] == filled_span(m, c) by {}
    if moves_first(m) {
        lemma_next_start(m, f + 1);
        assert forall|c: int| f + 1 <= c < len implies (n[c] > 0 <==> m[c] > 0) by {}
        assert forall|c: int| 1 <= c < f + 1 implies n[c] == 0 by {}
        lemma_skip_zeros(n, 1, f + 1);
        lemma_same_starts(n, m, f + 1);
        assert forall|p: int| 0 <= p < len && n[p] > 0 implies next_start(n, p + 1) == p + n[p] by {
            if p > 0 {
                lemma_same_starts(n, m, p + 1);
                lemma_next_start(m, p + 1);
            }
        }
    } else {
        assert forall|c: int| 0 <= c < len implies (n[c] > 0 <==> m[c] > 0) by {}
        assert forall|p: int| 0 <= p < len && n[p] > 0 implies next_start(n, p + 1) == p + n[p] by {
            lemma_same_starts(n, m, p + 1);
            lemma_next_start(m, p + 1);
        }
        if len > 0 && m[0] == 0 {
            assert forall|c: int| 0 <= c < len implies n[c] == 0 by {}
        }
    }
}

/// Span normalization is a fixed point: normalizing a normalized row
/// changes nothing.
pub proof fn lemma_normalization_fixed_point(styles: Seq<Style>)
    requires
        styles.len() <= usize::MAX,
    ensures
        normalized_row(normalized_row(styles)) == normalized_row(styles),
{
    lemma_normalized_tiles(styles);
    lemma_tiles_fixed(normalized_row(styles));
}

/// After normalization no span reaches past the end of its row.
pub proof fn lemma_normalized_spans_fit(styles: Seq<Style>)
    requires
        styles.len() <= usize::MAX,
    ensures
        forall|c: int|
            0 <= c < styles.len() ==> c + (#[trigger] normalized_row(styles)[c]).span <= styles.len(),
{
    lemma_normalized_tiles(styles);
    let n = spans_of(normalized_row(styles));
    assert forall|c: int| 0 <= c < styles.len() implies c + (#[trigger] normalized_row(styles)[c]).span <= styles.len() by {
        assert(n[c] == normalized_row(styles)[c].span);
        if n[c] > 0 {
            lemma_next_start(n, c + 1);
        }
    }
}


/// Marks covered cells and clamps spans, row by row.
pub fn fix_styles(styles: &mut Vec<Vec<Style>>)
    ensures
        final(styles)@.len() == old(styles)@.len(),
        forall|r: int| 0 <= r < old(styles)@.len() ==> (#[trigger] final(styles)@[r])@ == marked_row(old(styles)@[r]@),
{
    let mut r: usize = 0;
    while r < styles.len()
        invariant
            r <= styles@.len(),
            styles@.len() == old(styles)@.len(),
            forall|i: int| 0 <= i < r ==> (#[trigger] styles@[i])@ == marked_row(old(styles)@[i]@),
            forall|i: int| r <= i < styles@.len() ==> #[trigger] styles@[i] == old(styles)@[i],
        decreases styles@.len() - r,
    {
        let ghost before = styles@;
        let row = &mut styles[r];
        fix_invisible_cell(row);
        proof {
            assert(styles@[r as int]@ =~= marked_row(old(styles)@[r as int]@));
            assert forall|i: int| 0 <= i < styles@.len() && i != r implies #[trigger] styles@[i] == before[i] by {}
        }
        r = r + 1;
    }
}

/// Closes the gaps of each row whose covered cells are marked; the cells
/// move with their styles.
pub fn fix_spans<T>(styles: &mut Vec<Vec<Style>>, cells: &mut Vec<Vec<T>>)
    requires
        old(cells)@.len() == old(styles)@.len(),
        forall|r: int| 0 <= r < old(styles)@.len() ==> (#[trigger] old(cells)@[r])@.len() == old(styles)@[r]@.len(),
    ensures
        final(styles)@.len() == old(styles)@.len(),
        final(cells)@.len() == old(cells)@.len(),
        forall|r: int|
            0 <= r < old(styles)@.len() ==> (#[trigger] final(styles)@[r]@, final(cells)@[r]@) == filled_row(
                old(styles)@[r]@,
                old(cells)@[r]@,
            ),
{
    let mut r: usize = 0;
    while r < styles.len()
        invariant
            r <= styles@.len(),
            styles@.len() == old(styles)@.len(),
            cells@.len() == old(cells)@.len(),
            old(cells)@.len() == old(styles)@.len(),
            forall|i: int| 0 <= i < old(styles)@.len() ==> (#[trigger] old(cells)@[i])@.len() == old(styles)@[i]@.len(),
            forall|i: int|
                0 <= i < r ==> (#[trigger] styles@[i]@, cells@[i]@) == filled_row(old(styles)@[i]@, old(cells)@[i]@),
            forall|i: int| r <= i < styles@.len() ==> #[trigger] styles@[i] == old(styles)@[i],
            forall|i: int| r <= i < styles@.len() ==> #[trigger] cells@[i] == old(cells)@[i],
        decreases styles@.len() - r,
    {
        let ghost before_s = styles@;
        let ghost before_c = cells@;
        let srow = &mut styles[r];
        let crow = &mut cells[r];
        fix_zero_spans(srow, crow);
        proof {
            assert forall|i: int| 0 <= i < styles@.len() && i != r implies #[trigger] styles@[i] == before_s[i] by {}
            assert forall|i: int| 0 <= i < cells@.len() && i != r implies #[trigger] cells@[i] == before_c[i] by {}
        }
        r = r + 1;
    }
}


/// Closing the gaps of a marked row gives the normalized row.
pub proof fn lemma_filled_marked<T>(raw: Seq<Style>, items: Seq<T>)
    ensures
        filled_row(marked_row(raw), items).0 == normalized_row(raw),
{
    let m = marked(spans_of(raw));
    let mr = marked_row(raw);
    assert(spans_of(mr) =~= m);
    lemma_next_start(m, 0);
    assert forall|c: int| 0 <= c < raw.len() implies filled_row(mr, items).0[c] == normalized_row(raw)[c] by {
        let src = source_of(m, c);
        assert(0 <= src < raw.len());
        assert(mr[src] == (Style { span: m[src], ..raw[src] }));
    }
    assert(filled_row(mr, items).0 =~= normalized_row(raw));
}


/// The passes `fix_styles` and `fix_spans` reach a fixed point: on a row
/// they produced, with its cells, `fix_spans` alone and the two passes
/// together change nothing.
pub proof fn lemma_fix_spans_fixed_point<T>(styles: Seq<Style>, cells: Seq<T>)
    requires
        styles.len() <= usize::MAX,
        cells.len() == styles.len(),
    ensures
        ({
            let once = filled_row(marked_row(styles), cells);
            &&& filled_row(once.0, once.1) == once
            &&& filled_row(marked_row(once.0), once.1) == once
        }),
{
    let once = filled_row(marked_row(styles), cells);
    lemma_filled_marked(styles, cells);
    assert(once.0 == normalized_row(styles));
    lemma_normalized_tiles(styles);
    let t = spans_of(once.0);
    lemma_tiles_marked(t);
    assert(marked_row(once.0) =~= once.0) by {
        assert forall|c: int| 0 <= c < once.0.len() implies marked_row(once.0)[c] == once.0[c] by {
            assert(t[c] == once.0[c].span);
        }
    }
    assert(!moves_first(t)) by {
        if t.len() > 0 && t[0] == 0 {
            lemma_skip_zeros(t, 0, t.len() as int);
        }
    }
    assert forall|c: int| 0 <= c < once.0.len() implies filled_row(once.0, once.1).0[c] == once.0[c] by {
        assert(t[c] == once.0[c].span);
        if t[c] > 0 {
            lemma_next_start(t, c + 1);
        }
    }
    assert(filled_row(once.0, once.1).0 =~= once.0);
    assert(filled_row(once.0, once.1).1 =~= once.1);
}

/// Once a visible cell reaches the end of its row, every later column's
/// reach is the row's end.
proof fn lemma_reach_full(s: Seq<usize>, c: int, j: int)
    requires
        0 <= c < j <= s.len(),
        c >= reach(s, c),
        s[c] > 0,
        c + s[c] >= s.len(),
    ensures
        reach(s, j) == s.len(),
    decreases j - c,
{
    if j > c + 1 {
        lemma_reach_full(s, c, j - 1);
    }
}

/// A span that reaches past its row is clamped: the cell then covers the
/// rest of the row exactly (at its own column, or at the front where it
/// is the first visible cell after a leading gap).
pub proof fn lemma_span_clamped(styles: Seq<Style>, c: int)
    requires
        styles.len() <= usize::MAX,
        0 <= c < styles.len(),
        c >= reach(spans_of(styles), c),
        styles[c].span > 0,
        c + styles[c].span > styles.len(),
    ensures
        ({
            let m = marked(spans_of(styles));
            let n = normalized_row(styles);
            if moves_first(m) && next_start(m, 0) == c {
                n[0].span == styles.len() && n[c].span == 0
            } else {
                n[c].span == styles.len() - c
            }
        }),
{
    let s = spans_of(styles);
    let m = marked(s);
    let len = styles.len() as int;
    assert(s[c] == styles[c].span);
    assert(m[c] == len - c);
    assert forall|j: int| c < j < len implies m[j] == 0 by {
        lemma_reach_full(s, c, j);
    }
    lemma_skip_zeros(m, c + 1, len);
    lemma_next_start(m, 0);
}

} // verus!
