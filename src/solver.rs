//! Column widths and row heights of a grid whose spans are normalized.

use vstd::prelude::*;
use crate::compose::chars_width;
use crate::grid::{has_vertical, Grid};
use crate::spans::{cell_visible, is_cell_visible, overridden, spans_of};
use crate::style::Style;
use crate::text::{display_width, views_of};

verus! {

/// `a + b`, or `usize::MAX` where that is larger.
pub open spec fn sat(a: int) -> nat {
    if a > usize::MAX {
        usize::MAX as nat
    } else if a < 0 {
        0
    } else {
        a as nat
    }
}

/// The widest of the lines of a cell.
pub open spec fn content_width(lines: Seq<Seq<char>>) -> nat
    decreases lines.len(),
{
    if lines.len() == 0 {
        0
    } else {
        let w = display_width(lines.last());
        let m = content_width(lines.drop_last());
        if w > m {
            w
        } else {
            m
        }
    }
}

/// The width a cell needs: its widest line and its left and right padding.
pub open spec fn spec_cell_width(lines: Seq<Seq<char>>, style: Style) -> nat {
    sat((content_width(lines) + style.padding.left.size + style.padding.right.size) as int)
}

/// The width a cell needs.
pub fn cell_width(cell: &Vec<Vec<char>>, style: &Style) -> (r: usize)
    ensures
        r == spec_cell_width(views_of(cell@), *style),
{
    let ghost v = views_of(cell@);
    let mut m: usize = 0;
    let mut i: usize = 0;
    while i < cell.len()
        invariant
            i <= cell@.len(),
            v == views_of(cell@),
            m == content_width(v.take(i as int)),
        decreases cell.len() - i,
    {
        let w = chars_width(&cell[i]);
        assert(v.take(i + 1).drop_last() =~= v.take(i as int));
        if w > m {
            m = w;
        }
        i = i + 1;
    }
    assert(v.take(i as int) =~= v);
    m.saturating_add(style.padding.left.size).saturating_add(style.padding.right.size)
}

/// The height a cell needs: its lines (at least one where it has top or
/// bottom padding) and its top and bottom padding.
pub open spec fn spec_cell_height(lines: nat, style: Style) -> nat {
    let padded = style.padding.top.size > 0 || style.padding.bottom.size > 0;
    let content = if lines == 0 && padded { 1 } else { lines };
    sat((content + style.padding.top.size + style.padding.bottom.size) as int)
}

/// The height a cell needs.
pub fn cell_height(cell: &Vec<Vec<char>>, style: &Style) -> (r: usize)
    ensures
        r == spec_cell_height(cell@.len() as nat, *style),
{
    let is_there_padding = style.padding.top.size > 0 || style.padding.bottom.size > 0;
    let mut content_height = cell.len();
    if content_height == 0 && is_there_padding {
        content_height = 1;
    }
    content_height.saturating_add(style.padding.top.size).saturating_add(style.padding.bottom.size)
}

/// The tallest cell of row `r` among its first `n` columns.
pub open spec fn row_height(cells: Seq<Seq<Seq<Seq<char>>>>, styles: Seq<Seq<Style>>, r: int, n: int) -> nat
    decreases n,
{
    if n <= 0 {
        0
    } else {
        let h = spec_cell_height(cells[r][n - 1].len() as nat, styles[r][n - 1]);
        let m = row_height(cells, styles, r, n - 1);
        if h > m {
            h
        } else {
            m
        }
    }
}

/// The height of each row: its tallest cell.
pub fn rows_height(
    cells: &Vec<Vec<Vec<Vec<char>>>>,
    styles: &Vec<Vec<Style>>,
    count_rows: usize,
    count_columns: usize,
) -> (r: Vec<usize>)
    requires
        cells@.len() == count_rows,
        styles@.len() == count_rows,
        forall|i: int| 0 <= i < count_rows ==> (#[trigger] cells@[i])@.len() == count_columns,
        forall|i: int| 0 <= i < count_rows ==> (#[trigger] styles@[i])@.len() == count_columns,
    ensures
        r@.len() == count_rows,
        forall|i: int|
            0 <= i < count_rows ==> #[trigger] r@[i] == row_height(
                cell_views(cells@),
                deep(styles@),
                i,
                count_columns as int,
            ),
{
    let ghost cs = cell_views(cells@);
    let ghost ss = deep(styles@);
    let mut heights: Vec<usize> = Vec::new();
    let mut row: usize = 0;
    while row < count_rows
        invariant
            row <= count_rows,
            cells@.len() == count_rows,
            styles@.len() == count_rows,
            forall|i: int| 0 <= i < count_rows ==> (#[trigger] cells@[i])@.len() == count_columns,
            forall|i: int| 0 <= i < count_rows ==> (#[trigger] styles@[i])@.len() == count_columns,
            cs == cell_views(cells@),
            ss == deep(styles@),
            heights@.len() == row,
            forall|i: int| 0 <= i < row ==> #[trigger] heights@[i] == row_height(cs, ss, i, count_columns as int),
        decreases count_rows - row,
    {
        let mut h: usize = 0;
        let mut col: usize = 0;
        while col < count_columns
            invariant
                row < count_rows,
                col <= count_columns,
                cells@.len() == count_rows,
                styles@.len() == count_rows,
                forall|i: int| 0 <= i < count_rows ==> (#[trigger] cells@[i])@.len() == count_columns,
                forall|i: int| 0 <= i < count_rows ==> (#[trigger] styles@[i])@.len() == count_columns,
                cs == cell_views(cells@),
                ss == deep(styles@),
                h == row_height(cs, ss, row as int, col as int),
            decreases count_columns - col,
        {
            let ch = cell_height(&cells[row][col], &styles[row][col]);
            assert(cs[row as int][col as int] == views_of(cells@[row as int]@[col as int]@));
            assert(ss[row as int][col as int] == styles@[row as int]@[col as int]);
            if ch > h {
                h = ch;
            }
            col = col + 1;
        }
        heights.push(h);
        row = row + 1;
    }
    heights
}

/// Whether the cell at `col` ends within `end_col`.
pub open spec fn in_scope(s: Seq<usize>, col: int, end_col: int) -> bool {
    col + s[col] <= end_col
}

/// Whether the cell at `col` ends within `end_col`.
pub fn is_cell_in_scope(styles: &[Style], col: usize, end_col: usize) -> (r: bool)
    requires
        col < styles@.len(),
    ensures
        r == in_scope(spans_of(styles@), col as int, end_col as int),
{
    col <= end_col && styles[col].span <= end_col - col
}

/// Whether the range [start, end) of a row does not hold whole cells: its
/// first cell is covered, or a visible cell in it reaches past its end.
pub open spec fn out_of_scope(s: Seq<usize>, start: int, end: int) -> bool {
    !cell_visible(s, start) || exists|c: int|
        start <= c < end && cell_visible(s, c) && !in_scope(s, c, end)
}

/// Whether the range [start_column, end_column) does not hold whole cells.
pub fn is_there_out_of_scope_cell(styles: &[Style], start_column: usize, end_column: usize) -> (r: bool)
    requires
        start_column < end_column <= styles@.len(),
    ensures
        r == out_of_scope(spans_of(styles@), start_column as int, end_column as int),
{
    let ghost s = spans_of(styles@);
    if !is_cell_visible(styles, start_column) {
        return true;
    }
    let mut col = start_column;
    while col < end_column
        invariant
            start_column <= col <= end_column,
            end_column <= styles@.len(),
            s == spans_of(styles@),
            forall|c: int| start_column <= c < col ==> !(cell_visible(s, c) && !in_scope(s, c, end_column as int)),
        decreases end_column - col,
    {
        if is_cell_visible(styles, col) && !is_cell_in_scope(styles, col, end_column) {
            return true;
        }
        col = col + 1;
    }
    false
}

/// The nearest visible cell at or left of `col`.
pub open spec fn closest_visible(s: Seq<usize>, col: int) -> Option<int>
    decreases col + 1,
{
    if col < 0 {
        None
    } else if cell_visible(s, col) {
        Some(col)
    } else {
        closest_visible(s, col - 1)
    }
}

/// The nearest visible cell at or left of `col`.
pub fn get_closest_visible_pos(styles: &[Style], col: usize) -> (r: Option<usize>)
    requires
        col < styles@.len(),
    ensures
        r matches Some(p) ==> closest_visible(spans_of(styles@), col as int) == Some(p as int),
        r is None ==> closest_visible(spans_of(styles@), col as int) is None,
{
    let ghost s = spans_of(styles@);
    let mut c = col;
    loop
        invariant
            c <= col < styles@.len(),
            s == spans_of(styles@),
            closest_visible(s, col as int) == closest_visible(s, c as int),
        decreases c,
    {
        if is_cell_visible(styles, c) {
            return Some(c);
        }
        if c == 0 {
            assert(closest_visible(s, -1) is None);
            return None;
        }
        c = c - 1;
    }
}

/// The total of the widths of the visible cells of `styles` that end
/// within it, for the first `n` of them.
pub open spec fn range_width(s: Seq<usize>, w: Seq<usize>, n: int) -> nat
    decreases n,
{
    if n <= 0 {
        0
    } else {
        let prev = range_width(s, w, n - 1);
        if cell_visible(s, n - 1) && in_scope(s, n - 1, s.len() as int) {
            sat((prev + w[n - 1]) as int)
        } else {
            prev
        }
    }
}

/// The total of the widths of the visible cells of a range that end within it.
pub fn width_of_range(styles: &[Style], widths: &[usize]) -> (r: usize)
    requires
        styles@.len() == widths@.len(),
    ensures
        r == range_width(spans_of(styles@), widths@, styles@.len() as int),
{
    let ghost s = spans_of(styles@);
    let mut total: usize = 0;
    let mut i: usize = 0;
    while i < styles.len()
        invariant
            i <= styles@.len(),
            styles@.len() == widths@.len(),
            s == spans_of(styles@),
            total == range_width(s, widths@, i as int),
        decreases styles.len() - i,
    {
        if is_cell_visible(styles, i) && is_cell_in_scope(styles, i, styles.len()) {
            total = total.saturating_add(widths[i]);
        }
        i = i + 1;
    }
    total
}


/// Whether column `c` of a row holds a visible cell that ends within the row.
pub open spec fn whole_cell(s: Seq<usize>, c: int) -> bool {
    cell_visible(s, c) && in_scope(s, c, s.len() as int)
}

/// Whether a whole cell starts in [start, i).
pub open spec fn some_whole_cell(s: Seq<usize>, start: int, i: int) -> bool {
    exists|c: int| start <= c < i && whole_cell(s, c)
}

/// The vertical lines drawn between the whole cells of [start, i): each
/// whole cell but the first contributes its left line where it is drawn.
pub open spec fn borders_between(s: Seq<usize>, grid: Grid, start: int, i: int) -> nat
    decreases i - start,
{
    if i <= start {
        0
    } else {
        let prev = borders_between(s, grid, start, i - 1);
        if whole_cell(s, i - 1) && some_whole_cell(s, start, i - 1) && grid.spec_has_vertical(
            (i - 1) as usize,
        ) {
            prev + 1
        } else {
            prev
        }
    }
}

/// The vertical lines drawn between the whole cells of [start, end).
pub fn count_borders_in_range(styles: &[Style], start: usize, end: usize, grid: &Grid) -> (r: usize)
    requires
        grid.wf(),
        start <= end <= styles@.len(),
    ensures
        r == borders_between(spans_of(styles@), *grid, start as int, end as int),
{
    let ghost s = spans_of(styles@);
    let mut count: usize = 0;
    let mut seen = false;
    let mut i = start;
    while i < end
        invariant
            grid.wf(),
            start <= i <= end <= styles@.len(),
            s == spans_of(styles@),
            count == borders_between(s, *grid, start as int, i as int),
            count <= i - start,
            seen == some_whole_cell(s, start as int, i as int),
        decreases end - i,
    {
        let whole = is_cell_visible(styles, i) && is_cell_in_scope(styles, i, styles.len());
        if whole && seen && has_vertical(grid, i) {
            count = count + 1;
        }
        if whole {
            seen = true;
        }
        proof {
            if whole {
                assert(some_whole_cell(s, start as int, i + 1)) by {
                    assert(whole_cell(s, i as int));
                }
            } else {
                if some_whole_cell(s, start as int, i + 1) {
                    let c = choose|c: int| start <= c < i + 1 && whole_cell(s, c);
                    assert(c != i);
                }
            }
        }
        i = i + 1;
    }
    count
}

/// The width of the range [start, end) of a row: its whole cells and the
/// vertical lines between them.
pub open spec fn spec_row_width(s: Seq<usize>, w: Seq<usize>, start: int, end: int, grid: Grid) -> nat {
    sat((range_width(s.subrange(start, end), w.subrange(start, end), end - start)
        + borders_between(s, grid, start, end)) as int)
}

/// The width of the range [start, end) of a row.
pub fn row_width(styles: &[Style], widths: &[usize], start: usize, end: usize, grid: &Grid) -> (r: usize)
    requires
        grid.wf(),
        start <= end <= styles@.len(),
        styles@.len() == widths@.len(),
    ensures
        r == spec_row_width(spans_of(styles@), widths@, start as int, end as int, *grid),
{
    let sub_styles = vstd::slice::slice_subrange(styles, start, end);
    let sub_widths = vstd::slice::slice_subrange(widths, start, end);
    let width = width_of_range(sub_styles, sub_widths);
    let border_count = count_borders_in_range(styles, start, end, grid);
    proof {
        assert(spans_of(sub_styles@) =~= spans_of(styles@).subrange(start as int, end as int));
    }
    width.saturating_add(border_count)
}

/// Whether all rows that hold whole cells in [start, end) agree on its width.
pub fn is_range_complete(
    styles: &Vec<Vec<Style>>,
    widths: &Vec<Vec<usize>>,
    start_column: usize,
    end_column: usize,
    grid: &Grid,
) -> (r: bool)
    requires
        grid.wf(),
        start_column < end_column <= grid.cols(),
        styles@.len() == grid.rows(),
        widths@.len() == grid.rows(),
        forall|i: int| 0 <= i < grid.rows() ==> (#[trigger] styles@[i])@.len() == grid.cols(),
        forall|i: int| 0 <= i < grid.rows() ==> (#[trigger] widths@[i])@.len() == grid.cols(),
    ensures
        r == range_complete(deep(styles@), deep(widths@), start_column as int, end_column as int, *grid),
{
    let ghost st = start_column as int;
    let ghost en = end_column as int;
    let ghost sv = deep(styles@);
    let ghost w = deep(widths@);
    let mut first: Option<(usize, usize)> = None;
    let mut row: usize = 0;
    while row < grid.count_rows()
        invariant
            grid.wf(),
            row <= grid.rows(),
            start_column < end_column <= grid.cols(),
            styles@.len() == grid.rows(),
            widths@.len() == grid.rows(),
            forall|i: int| 0 <= i < grid.rows() ==> (#[trigger] styles@[i])@.len() == grid.cols(),
            forall|i: int| 0 <= i < grid.rows() ==> (#[trigger] widths@[i])@.len() == grid.cols(),
            st == start_column,
            en == end_column,
            sv == deep(styles@),
            w == deep(widths@),
            match first {
                None => forall|i: int| 0 <= i < row ==> !holds_v(sv, i, st, en),
                Some((f, x)) => f < row && holds_v(sv, f as int, st, en) && x == rwv(sv, w, f as int, st, en, *grid)
                    && forall|i: int| 0 <= i < row && holds_v(sv, i, st, en) ==> rwv(sv, w, i, st, en, *grid) == x,
            },
        decreases grid.rows() - row,
    {
        assert(sv[row as int] == styles@[row as int]@);
        assert(w[row as int] == widths@[row as int]@);
        if !is_there_out_of_scope_cell(&styles[row], start_column, end_column) {
            let x = row_width(&styles[row], &widths[row], start_column, end_column, grid);
            match first {
                None => {
                    first = Some((row, x));
                },
                Some((f, fx)) => {
                    if fx != x {
                        assert(!range_complete(sv, w, st, en, *grid)) by {
                            assert(holds_v(sv, f as int, st, en) && holds_v(sv, row as int, st, en));
                        }
                        return false;
                    }
                },
            }
        }
        row = row + 1;
    }
    match first {
        None => false,
        Some(_) => true,
    }
}

/// Only visible cells before `end` changed.
pub open spec fn row_frame(s: Seq<usize>, old_w: Seq<usize>, new_w: Seq<usize>, end: int) -> bool {
    &&& new_w.len() == old_w.len()
    &&& forall|c: int|
        0 <= c < old_w.len() && (!cell_visible(s, c) || c >= end) ==> #[trigger] new_w[c] == old_w[c]
}

/// Only visible cells before `end` changed, row by row.
pub open spec fn grid_frame(
    styles: Seq<Vec<Style>>,
    old_w: Seq<Vec<usize>>,
    new_w: Seq<Vec<usize>>,
    end: int,
) -> bool {
    &&& new_w.len() == old_w.len()
    &&& forall|r: int| 0 <= r < old_w.len() ==> row_frame(spans_of(styles[r]@), (#[trigger] old_w[r])@, new_w[r]@, end)
}

/// The exact total of the widths `range_width` adds up.
pub open spec fn range_sum(s: Seq<usize>, w: Seq<usize>, n: int) -> int
    decreases n,
{
    if n <= 0 {
        0
    } else {
        range_sum(s, w, n - 1) + if cell_visible(s, n - 1) && in_scope(s, n - 1, s.len() as int) {
            w[n - 1] as int
        } else {
            0
        }
    }
}

proof fn lemma_range_sum(s: Seq<usize>, w: Seq<usize>, n: int)
    requires
        0 <= n <= s.len(),
        s.len() == w.len(),
    ensures
        range_sum(s, w, n) >= 0,
        range_width(s, w, n) == sat(range_sum(s, w, n)),
    decreases n,
{
    if n > 0 {
        lemma_range_sum(s, w, n - 1);
    }
}

proof fn lemma_range_sum_bound(s: Seq<usize>, w: Seq<usize>, n: int, q: int)
    requires
        0 <= q < n <= s.len(),
        s.len() == w.len(),
        cell_visible(s, q) && in_scope(s, q, s.len() as int),
    ensures
        w[q] <= range_sum(s, w, n),
    decreases n,
{
    lemma_range_sum(s, w, n - 1);
    if q < n - 1 {
        lemma_range_sum_bound(s, w, n - 1, q);
    }
}

proof fn lemma_range_sum_inc(s: Seq<usize>, w: Seq<usize>, n: int, q: int)
    requires
        0 <= n <= s.len(),
        0 <= q < s.len(),
        s.len() == w.len(),
        w[q] < usize::MAX,
    ensures
        range_sum(s, w.update(q, (w[q] + 1) as usize), n) == range_sum(s, w, n) + if q < n && cell_visible(s, q)
            && in_scope(s, q, s.len() as int) {
            1int
        } else {
            0int
        },
    decreases n,
{
    if n > 0 {
        lemma_range_sum_inc(s, w, n - 1, q);
    }
}

/// A visible cell of a row that lies in a range holding whole cells is
/// counted by the range's width.
proof fn lemma_counted_in_range(s: Seq<usize>, start: int, end: int, p: int)
    requires
        0 <= start <= p < end <= s.len(),
        !out_of_scope(s, start, end),
        cell_visible(s, p),
    ensures
        ({
            let ss = s.subrange(start, end);
            cell_visible(ss, p - start) && in_scope(ss, p - start, ss.len() as int)
        }),
{
    let ss = s.subrange(start, end);
    assert(in_scope(s, p, end));
    if overridden(ss, p - start) {
        let i = choose|i: int| 0 <= i < p - start && ss[i] > p - start - i;
        assert(s[start + i] > p - (start + i));
        assert(overridden(s, p));
    }
}

/// The nearest visible cell left of a column of a range whose first cell
/// is visible lies in the range.
proof fn lemma_closest_in_range(s: Seq<usize>, start: int, col: int)
    requires
        0 <= start <= col < s.len(),
        cell_visible(s, start),
    ensures
        closest_visible(s, col) matches Some(p) && start <= p <= col && cell_visible(s, p),
    decreases col - start,
{
    if !cell_visible(s, col) {
        assert(col != start);
        lemma_closest_in_range(s, start, col - 1);
    }
}

/// The widths of a row after `i` units are laid one at a time on the
/// columns of [start, end) in turn, each on the nearest visible cell at or
/// left of its column.
pub open spec fn spread_inc(s: Seq<usize>, w: Seq<usize>, start: int, end: int, i: nat) -> Seq<usize>
    decreases i,
{
    if i == 0 {
        w
    } else {
        let p = spread_inc(s, w, start, end, (i - 1) as nat);
        match closest_visible(s, start + (i - 1) % (end - start)) {
            Some(c) => if 0 <= c < p.len() {
                p.update(c, sat(p[c] + 1) as usize)
            } else {
                p
            },
            None => p,
        }
    }
}

/// Widens the visible cells of [start_range, end_range) by `inc` in total,
/// one column at a time in turn; a covered column widens the nearest
/// visible cell left of it.
pub fn inc_cells_width(
    widths: &mut Vec<usize>,
    styles: &[Style],
    start_range: usize,
    end_range: usize,
    inc: usize,
)
    requires
        start_range < end_range <= styles@.len(),
        old(widths)@.len() == styles@.len(),
    ensures
        final(widths)@ == spread_inc(spans_of(styles@), old(widths)@, start_range as int, end_range as int, inc as nat),
        row_frame(spans_of(styles@), old(widths)@, final(widths)@, end_range as int),
        cell_visible(spans_of(styles@), start_range as int) ==> forall|c: int|
            0 <= c < start_range ==> #[trigger] final(widths)@[c] == old(widths)@[c],
        inc == 0 ==> final(widths)@ == old(widths)@,
        ({
            let s = spans_of(styles@);
            let ss = s.subrange(start_range as int, end_range as int);
            let n = end_range - start_range;
            let before = range_sum(ss, old(widths)@.subrange(start_range as int, end_range as int), n);
            !out_of_scope(s, start_range as int, end_range as int) && before + inc <= usize::MAX
                ==> range_sum(ss, final(widths)@.subrange(start_range as int, end_range as int), n) == before + inc
        }),
{
    let ghost s = spans_of(styles@);
    let ghost ss = s.subrange(start_range as int, end_range as int);
    let n = end_range - start_range;
    let ghost before = range_sum(ss, old(widths)@.subrange(start_range as int, end_range as int), n as int);
    let ghost whole = !out_of_scope(s, start_range as int, end_range as int) && before + inc <= usize::MAX;
    let mut i: usize = 0;
    while i < inc
        invariant
            start_range < end_range <= styles@.len(),
            n == end_range - start_range,
            s == spans_of(styles@),
            ss == s.subrange(start_range as int, end_range as int),
            old(widths)@.len() == styles@.len(),
            i <= inc,
            widths@ == spread_inc(s, old(widths)@, start_range as int, end_range as int, i as nat),
            i == 0 ==> widths@ == old(widths)@,
            row_frame(s, old(widths)@, widths@, end_range as int),
            cell_visible(s, start_range as int) ==> forall|c: int|
                0 <= c < start_range ==> #[trigger] widths@[c] == old(widths)@[c],
            whole == (!out_of_scope(s, start_range as int, end_range as int) && before + inc <= usize::MAX),
            whole ==> range_sum(ss, widths@.subrange(start_range as int, end_range as int), n as int) == before + i,
        decreases inc - i,
    {
        let col = start_range + i % n;
        let ghost ws = widths@.subrange(start_range as int, end_range as int);
        match get_closest_visible_pos(styles, col) {
            Some(p) => {
                proof {
                    lemma_closest_visible(s, col as int);
                    if cell_visible(s, start_range as int) {
                        lemma_closest_in_range(s, start_range as int, col as int);
                    }
                    if whole {
                        lemma_closest_in_range(s, start_range as int, col as int);
                        lemma_counted_in_range(s, start_range as int, end_range as int, p as int);
                        lemma_range_sum(ss, ws, n as int);
                        lemma_range_sum_bound(ss, ws, n as int, p - start_range);
                    }
                }
                let w = widths[p];
                widths.set(p, w.saturating_add(1));
                proof {
                    assert(widths@ =~= spread_inc(s, old(widths)@, start_range as int, end_range as int, (i + 1) as nat));
                    if whole {
                        assert(widths@.subrange(start_range as int, end_range as int) =~= ws.update(
                            p - start_range,
                            (ws[p - start_range] + 1) as usize,
                        ));
                        lemma_range_sum_inc(ss, ws, n as int, p - start_range);
                    }
                }
            },
            None => {
                proof {
                    if whole {
                        lemma_closest_in_range(s, start_range as int, col as int);
                    }
                }
            },
        }
        i = i + 1;
    }
}

proof fn lemma_closest_visible(s: Seq<usize>, col: int)
    requires
        0 <= col < s.len(),
    ensures
        closest_visible(s, col) matches Some(p) ==> 0 <= p <= col && cell_visible(s, p),
    decreases col + 1,
{
    if !cell_visible(s, col) {
        assert(closest_visible(s, col) == closest_visible(s, col - 1));
        if col > 0 {
            lemma_closest_visible(s, col - 1);
        }
    }
}

/// The rows of `styles`/`widths` have the grid's shape.
pub open spec fn shaped(styles: Seq<Vec<Style>>, widths: Seq<Vec<usize>>, rows: nat, cols: nat) -> bool {
    &&& styles.len() == rows
    &&& widths.len() == rows
    &&& forall|i: int| 0 <= i < rows ==> (#[trigger] styles[i])@.len() == cols
    &&& forall|i: int| 0 <= i < rows ==> (#[trigger] widths[i])@.len() == cols
}

proof fn lemma_frame_trans(
    styles: Seq<Vec<Style>>,
    a: Seq<Vec<usize>>,
    b: Seq<Vec<usize>>,
    c: Seq<Vec<usize>>,
    end: int,
)
    requires
        grid_frame(styles, a, b, end),
        grid_frame(styles, b, c, end),
    ensures
        grid_frame(styles, a, c, end),
{
    assert forall|r: int| 0 <= r < a.len() implies row_frame(spans_of(styles[r]@), (#[trigger] a[r])@, c[r]@, end) by {
        assert(row_frame(spans_of(styles[r]@), a[r]@, b[r]@, end));
        assert(row_frame(spans_of(styles[r]@), b[r]@, c[r]@, end));
    }
}

/// The width of [start, end) in row `r`.
pub open spec fn range_row_width(styles: Seq<Vec<Style>>, widths: Seq<Vec<usize>>, r: int, start: int, end: int, grid: Grid) -> nat {
    spec_row_width(spans_of(styles[r]@), widths[r]@, start, end, grid)
}

/// Whether row `r` holds whole cells in [start, end).
pub open spec fn holds_range(styles: Seq<Vec<Style>>, r: int, start: int, end: int) -> bool {
    !out_of_scope(spans_of(styles[r]@), start, end)
}

/// Widening a row that holds whole cells in the range by the difference
/// to `target` gives it exactly that width.
proof fn lemma_widen_to(
    s: Seq<usize>,
    old_w: Seq<usize>,
    new_w: Seq<usize>,
    start: int,
    end: int,
    grid: Grid,
    target: nat,
    inc: nat,
)
    requires
        0 <= start < end <= s.len(),
        s.len() == old_w.len(),
        s.len() == new_w.len(),
        target <= usize::MAX,
        spec_row_width(s, old_w, start, end, grid) <= target,
        inc == target - spec_row_width(s, old_w, start, end, grid),
        inc == 0 ==> new_w == old_w,
        ({
            let ss = s.subrange(start, end);
            let before = range_sum(ss, old_w.subrange(start, end), end - start);
            before + inc <= usize::MAX ==> range_sum(ss, new_w.subrange(start, end), end - start) == before + inc
        }),
    ensures
        spec_row_width(s, new_w, start, end, grid) == target,
{
    let ss = s.subrange(start, end);
    let n = end - start;
    lemma_range_sum(ss, old_w.subrange(start, end), n);
    lemma_range_sum(ss, new_w.subrange(start, end), n);
}

/// The views of a sequence of vectors.
pub open spec fn deep<T>(v: Seq<Vec<T>>) -> Seq<Seq<T>> {
    v.map_values(|x: Vec<T>| x@)
}

/// The width of [start, end) in row `r` of widths `w`.
pub open spec fn rwv(sv: Seq<Seq<Style>>, w: Seq<Seq<usize>>, r: int, start: int, end: int, grid: Grid) -> nat {
    spec_row_width(spans_of(sv[r]), w[r], start, end, grid)
}

/// Whether row `r` holds whole cells in [start, end).
pub open spec fn holds_v(sv: Seq<Seq<Style>>, r: int, start: int, end: int) -> bool {
    !out_of_scope(spans_of(sv[r]), start, end)
}

/// The widest of the first `n` rows over [start, end) and its width; the
/// last of them where several tie, (0, 0) where there is none.
pub open spec fn widest_row(sv: Seq<Seq<Style>>, w: Seq<Seq<usize>>, n: int, start: int, end: int, grid: Grid) -> (int, nat)
    decreases n,
{
    if n <= 0 {
        (0, 0)
    } else {
        let p = widest_row(sv, w, n - 1, start, end, grid);
        let x = rwv(sv, w, n - 1, start, end, grid);
        if x >= p.1 {
            (n - 1, x)
        } else {
            p
        }
    }
}

/// The widths after each of the first `n` rows that holds whole cells in
/// [start, end), other than `mr`, is widened by its shortfall to `mw`.
pub open spec fn widened(
    sv: Seq<Seq<Style>>,
    w: Seq<Seq<usize>>,
    mr: int,
    mw: nat,
    start: int,
    end: int,
    grid: Grid,
    n: int,
) -> Seq<Seq<usize>>
    decreases n,
{
    if n <= 0 {
        w
    } else {
        let p = widened(sv, w, mr, mw, start, end, grid, n - 1);
        let r = n - 1;
        if r != mr && holds_v(sv, r, start, end) {
            let x = rwv(sv, w, r, start, end, grid);
            let diff: nat = if mw >= x { (mw - x) as nat } else { 0 };
            p.update(r, spread_inc(spans_of(sv[r]), w[r], start, end, diff))
        } else {
            p
        }
    }
}

/// The first of the first `n` rows, other than `mr` and `row`, that holds
/// whole cells in [start, end) and has the same span as `row` at `col`.
pub open spec fn same_span_row(sv: Seq<Seq<Style>>, mr: int, row: int, col: int, start: int, end: int, n: int) -> Option<int>
    decreases n,
{
    if n <= 0 {
        None
    } else {
        let p = same_span_row(sv, mr, row, col, start, end, n - 1);
        let r = n - 1;
        if p is Some {
            p
        } else if r != mr && r != row && holds_v(sv, r, start, end) && sv[r][col].span == sv[row][col].span {
            Some(r)
        } else {
            None
        }
    }
}

proof fn lemma_same_span_row(sv: Seq<Seq<Style>>, mr: int, row: int, col: int, start: int, end: int, n: int)
    ensures
        same_span_row(sv, mr, row, col, start, end, n) matches Some(f) ==> 0 <= f < n && f != mr && f != row
            && holds_v(sv, f, start, end) && sv[f][col].span == sv[row][col].span,
    decreases n,
{
    if n > 0 {
        lemma_same_span_row(sv, mr, row, col, start, end, n - 1);
    }
}

/// The width of cell (r, c) once rows whose cells reach out of [start, end)
/// take, for each visible cell there, the width of the same column in a
/// row with the same span there.
pub open spec fn copied_cell(sv: Seq<Seq<Style>>, v: Seq<Seq<usize>>, mr: int, start: int, end: int, r: int, c: int) -> usize {
    let f = same_span_row(sv, mr, r, c, start, end, v.len() as int);
    if r != mr && !holds_v(sv, r, start, end) && start <= c < end && cell_visible(spans_of(sv[r]), c) && f is Some {
        v[f->0][c]
    } else {
        v[r][c]
    }
}

/// The widths after [start, end) is adjusted: rows holding whole cells
/// there widened to the widest row, then rows reaching out of it copying
/// the widths of rows with the same spans.
pub open spec fn adjusted_range(sv: Seq<Seq<Style>>, w: Seq<Seq<usize>>, start: int, end: int, grid: Grid) -> Seq<Seq<usize>> {
    if w.len() == 0 {
        w
    } else {
        let m = widest_row(sv, w, w.len() as int, start, end, grid);
        if m.1 == 0 {
            w
        } else {
            let v = widened(sv, w, m.0, m.1, start, end, grid, w.len() as int);
            if end - start > 1 {
                Seq::new(v.len(), |r: int| Seq::new(v[r].len(), |c: int| copied_cell(sv, v, m.0, start, end, r, c)))
            } else {
                v
            }
        }
    }
}

/// Makes the rows agree on the width of [start_column, end_column): rows
/// holding whole cells there are widened to the widest row, and rows whose
/// cells reach out of the range take the widths of a row whose cell at the
/// same column has the same span.
pub fn adjust_range_width(
    widths: &mut Vec<Vec<usize>>,
    styles: &Vec<Vec<Style>>,
    start_column: usize,
    end_column: usize,
    grid: &Grid,
)
    requires
        grid.wf(),
        start_column < end_column <= grid.cols(),
        shaped(styles@, old(widths)@, grid.rows(), grid.cols()),
    ensures
        shaped(styles@, final(widths)@, grid.rows(), grid.cols()),
        deep(final(widths)@) == adjusted_range(deep(styles@), deep(old(widths)@), start_column as int, end_column as int, *grid),
        grid_frame(styles@, old(widths)@, final(widths)@, end_column as int),
        forall|r: int, c: int|
            0 <= r < grid.rows() && 0 <= c < start_column ==> #[trigger] final(widths)@[r]@[c] == old(widths)@[r]@[c],
        forall|r1: int, r2: int|
            0 <= r1 < grid.rows() && 0 <= r2 < grid.rows() && holds_range(styles@, r1, start_column as int, end_column as int)
                && holds_range(styles@, r2, start_column as int, end_column as int) ==> #[trigger] range_row_width(
                styles@,
                final(widths)@,
                r1,
                start_column as int,
                end_column as int,
                *grid,
            ) == #[trigger] range_row_width(styles@, final(widths)@, r2, start_column as int, end_column as int, *grid),
        forall|r: int|
            0 <= r < grid.rows() && holds_range(styles@, r, start_column as int, end_column as int) ==> #[trigger] range_row_width(
                styles@,
                final(widths)@,
                r,
                start_column as int,
                end_column as int,
                *grid,
            ) == widest_row(deep(styles@), deep(old(widths)@), grid.rows() as int, start_column as int, end_column as int, *grid).1,
{
    let ghost st = start_column as int;
    let ghost en = end_column as int;
    let count_rows = grid.count_rows();
    if count_rows == 0 {
        return;
    }
    let ghost start = widths@;
    let mut max_row: usize = 0;
    let mut max_width: usize = 0;
    let mut row: usize = 0;
    while row < count_rows
        invariant
            grid.wf(),
            count_rows == grid.rows(),
            row <= count_rows,
            max_row < count_rows,
            start_column < end_column <= grid.cols(),
            st == start_column,
            en == end_column,
            shaped(styles@, widths@, grid.rows(), grid.cols()),
            widths@ == start,
            (max_row as int, max_width as nat) == widest_row(deep(styles@), deep(start), row as int, st, en, *grid),
            forall|r: int| 0 <= r < row ==> range_row_width(styles@, start, r, st, en, *grid) <= max_width,
            row > 0 ==> range_row_width(styles@, start, max_row as int, st, en, *grid) == max_width,
            row == 0 ==> max_width == 0,
        decreases count_rows - row,
    {
        let w = row_width(&styles[row], &widths[row], start_column, end_column, grid);
        assert(w == rwv(deep(styles@), deep(start), row as int, st, en, *grid));
        if w >= max_width {
            max_row = row;
            max_width = w;
        }
        row = row + 1;
    }
    if max_width == 0 {
        assert(deep(widths@) =~= adjusted_range(deep(styles@), deep(start), st, en, *grid));
        return;
    }
    let ghost sv = deep(styles@);
    let mut row: usize = 0;
    while row < count_rows
        invariant
            grid.wf(),
            count_rows == grid.rows(),
            row <= count_rows,
            max_row < count_rows,
            start_column < end_column <= grid.cols(),
            st == start_column,
            en == end_column,
            shaped(styles@, widths@, grid.rows(), grid.cols()),
            shaped(styles@, start, grid.rows(), grid.cols()),
            grid_frame(styles@, start, widths@, end_column as int),
            forall|r: int| 0 <= r < count_rows ==> range_row_width(styles@, start, r, st, en, *grid) <= max_width,
            range_row_width(styles@, start, max_row as int, st, en, *grid) == max_width,
            forall|r: int| row <= r < count_rows ==> #[trigger] widths@[r] == start[r],
            widths@[max_row as int] == start[max_row as int],
            forall|r: int, c: int| 0 <= r < count_rows && 0 <= c < start_column ==> #[trigger] widths@[r]@[c] == start[r]@[c],
            sv == deep(styles@),
            (max_row as int, max_width as nat) == widest_row(sv, deep(start), count_rows as int, st, en, *grid),
            deep(widths@) == widened(sv, deep(start), max_row as int, max_width as nat, st, en, *grid, row as int),
            forall|r: int|
                0 <= r < row && r != max_row && holds_range(styles@, r, st, en) ==> range_row_width(styles@, widths@, r, st, en, *grid)
                    == max_width,
        decreases count_rows - row,
    {
        if row != max_row && !is_there_out_of_scope_cell(&styles[row], start_column, end_column) {
            let w = row_width(&styles[row], &widths[row], start_column, end_column, grid);
            let diff = if max_width >= w { max_width - w } else { 0 };
            let ghost before = widths@;
            let row_w = &mut widths[row];
            inc_cells_width(row_w, &styles[row], start_column, end_column, diff);
            proof {
                assert(before[row as int] == start[row as int]);
                assert(w == rwv(sv, deep(start), row as int, st, en, *grid));
                assert(deep(widths@) =~= widened(sv, deep(start), max_row as int, max_width as nat, st, en, *grid, row + 1));
                assert(range_row_width(styles@, start, row as int, st, en, *grid) <= max_width);
                lemma_widen_to(
                    spans_of(styles@[row as int]@),
                    before[row as int]@,
                    widths@[row as int]@,
                    st,
                    en,
                    *grid,
                    max_width as nat,
                    diff as nat,
                );
                assert(!out_of_scope(spans_of(styles@[row as int]@), st, en));
                assert forall|r: int, c: int| 0 <= r < count_rows && 0 <= c < start_column implies #[trigger] widths@[r]@[c] == start[r]@[c] by {
                    if r != row {
                        assert(widths@[r] == before[r]);
                    }
                }
                assert forall|r: int| 0 <= r < count_rows implies row_frame(spans_of(styles@[r]@), (#[trigger] start[r])@, widths@[r]@, end_column as int) by {
                    assert(row_frame(spans_of(styles@[r]@), start[r]@, before[r]@, end_column as int));
                    if r != row {
                        assert(widths@[r] == before[r]);
                    }
                }
                assert forall|r: int|
                    0 <= r < row + 1 && r != max_row && holds_range(styles@, r, st, en) implies range_row_width(styles@, widths@, r, st, en, *grid)
                        == max_width by {
                    if r != row {
                        assert(widths@[r] == before[r]);
                    }
                }
            }
        } else {
            assert(deep(widths@) =~= widened(sv, deep(start), max_row as int, max_width as nat, st, en, *grid, row + 1));
        }
        row = row + 1;
    }
    let ghost phase2 = widths@;
    let ghost v = deep(widths@);
    proof {
        assert forall|r: int| 0 <= r < count_rows && holds_range(styles@, r, st, en) implies range_row_width(styles@, phase2, r, st, en, *grid)
            == max_width by {
            if r == max_row {
                assert(phase2[r] == start[r]);
            }
        }
    }
    let ghost mr = max_row as int;
    if end_column - start_column > 1 {
        let mut row: usize = 0;
        while row < count_rows
            invariant
                grid.wf(),
                count_rows == grid.rows(),
                row <= count_rows,
                start_column < end_column <= grid.cols(),
                st == start_column,
                en == end_column,
                mr == max_row,
                sv == deep(styles@),
                v == deep(phase2),
                shaped(styles@, widths@, grid.rows(), grid.cols()),
                shaped(styles@, phase2, grid.rows(), grid.cols()),
                grid_frame(styles@, start, widths@, end_column as int),
                forall|r: int, c: int| 0 <= r < count_rows && 0 <= c < start_column ==> #[trigger] widths@[r]@[c] == start[r]@[c],
                forall|r: int| 0 <= r < count_rows && holds_range(styles@, r, st, en) ==> #[trigger] widths@[r] == phase2[r],
                forall|r: int, c: int|
                    0 <= r < count_rows && 0 <= c < grid.cols() ==> #[trigger] widths@[r]@[c] == if r < row {
                        copied_cell(sv, v, mr, st, en, r, c)
                    } else {
                        v[r][c]
                    },
            decreases count_rows - row,
        {
            if row != max_row && is_there_out_of_scope_cell(&styles[row], start_column, end_column) {
                let mut col = start_column;
                while col < end_column
                    invariant
                        grid.wf(),
                        count_rows == grid.rows(),
                        row < count_rows,
                        row != mr,
                        start_column <= col <= end_column <= grid.cols(),
                        st == start_column,
                        en == end_column,
                        mr == max_row,
                        sv == deep(styles@),
                        v == deep(phase2),
                        !holds_range(styles@, row as int, st, en),
                        shaped(styles@, widths@, grid.rows(), grid.cols()),
                        shaped(styles@, phase2, grid.rows(), grid.cols()),
                        grid_frame(styles@, start, widths@, end_column as int),
                        forall|r: int, c: int| 0 <= r < count_rows && 0 <= c < start_column ==> #[trigger] widths@[r]@[c] == start[r]@[c],
                        forall|r: int| 0 <= r < count_rows && holds_range(styles@, r, st, en) ==> #[trigger] widths@[r] == phase2[r],
                        forall|r: int, c: int|
                            0 <= r < count_rows && 0 <= c < grid.cols() ==> #[trigger] widths@[r]@[c] == if r < row || (r == row && c < col) {
                                copied_cell(sv, v, mr, st, en, r, c)
                            } else {
                                v[r][c]
                            },
                    decreases end_column - col,
                {
                    let ghost before = widths@;
                    if is_cell_visible(&styles[row], col) {
                        let mut r: usize = 0;
                        let mut found: Option<usize> = None;
                        while r < count_rows
                            invariant
                                count_rows == grid.rows(),
                                r <= count_rows,
                                row < count_rows,
                                col < end_column,
                                start_column < end_column <= grid.cols(),
                                st == start_column,
                                en == end_column,
                                mr == max_row,
                                sv == deep(styles@),
                                shaped(styles@, widths@, grid.rows(), grid.cols()),
                                found matches Some(f) ==> f < count_rows,
                                match found {
                                    Some(f) => same_span_row(sv, mr, row as int, col as int, st, en, r as int) == Some(f as int),
                                    None => same_span_row(sv, mr, row as int, col as int, st, en, r as int) is None,
                                },
                            decreases count_rows - r,
                        {
                            if found.is_none() && r != max_row && r != row && !is_there_out_of_scope_cell(
                                &styles[r],
                                start_column,
                                end_column,
                            ) && styles[r][col].span == styles[row][col].span {
                                found = Some(r);
                            }
                            r = r + 1;
                        }
                        if let Some(f) = found {
                            proof {
                                lemma_same_span_row(sv, mr, row as int, col as int, st, en, count_rows as int);
                                assert(sv[f as int] == styles@[f as int]@);
                            }
                            assert(holds_range(styles@, f as int, st, en));
                            assert(widths@[f as int] == phase2[f as int]);
                            let x = widths[f][col];
                            let row_w = &mut widths[row];
                            row_w.set(col, x);
                            proof {
                                assert forall|i: int| 0 <= i < count_rows implies row_frame(spans_of(styles@[i]@), (#[trigger] start[i])@, widths@[i]@, end_column as int) by {
                                    assert(row_frame(spans_of(styles@[i]@), start[i]@, before[i]@, end_column as int));
                                    if i != row {
                                        assert(widths@[i] == before[i]);
                                    }
                                }
                                assert forall|i: int, c: int| 0 <= i < count_rows && 0 <= c < start_column implies #[trigger] widths@[i]@[c] == start[i]@[c] by {
                                    if i != row {
                                        assert(widths@[i] == before[i]);
                                    }
                                    assert(before[i]@[c] == start[i]@[c]);
                                }
                                assert forall|i: int| 0 <= i < count_rows && holds_range(styles@, i, st, en) implies #[trigger] widths@[i] == phase2[i] by {
                                    assert(before[i] == phase2[i]);
                                    assert(i != row);
                                }
                                assert forall|i: int, c: int|
                                    0 <= i < count_rows && 0 <= c < grid.cols() implies #[trigger] widths@[i]@[c] == if i < row || (i == row && c < col + 1) {
                                        copied_cell(sv, v, mr, st, en, i, c)
                                    } else {
                                        v[i][c]
                                    } by {
                                    if i != row {
                                        assert(widths@[i] == before[i]);
                                        assert(before[i]@[c] == widths@[i]@[c]);
                                    } else if c != col {
                                        assert(before[i]@[c] == widths@[i]@[c]);
                                    }
                                }
                            }
                        } else {
                            proof {
                                assert forall|i: int, c: int|
                                    0 <= i < count_rows && 0 <= c < grid.cols() implies #[trigger] widths@[i]@[c] == if i < row || (i == row && c < col + 1) {
                                        copied_cell(sv, v, mr, st, en, i, c)
                                    } else {
                                        v[i][c]
                                    } by {
                                    assert(before[i]@[c] == widths@[i]@[c]);
                                }
                            }
                        }
                    } else {
                        proof {
                            assert forall|i: int, c: int|
                                0 <= i < count_rows && 0 <= c < grid.cols() implies #[trigger] widths@[i]@[c] == if i < row || (i == row && c < col + 1) {
                                    copied_cell(sv, v, mr, st, en, i, c)
                                } else {
                                    v[i][c]
                                } by {
                                assert(before[i]@[c] == widths@[i]@[c]);
                            }
                        }
                    }
                    col = col + 1;
                }
                proof {
                    assert forall|i: int, c: int|
                        0 <= i < count_rows && 0 <= c < grid.cols() implies #[trigger] widths@[i]@[c] == if i < row + 1 {
                            copied_cell(sv, v, mr, st, en, i, c)
                        } else {
                            v[i][c]
                        } by {
                        if i == row && !(c < col) {
                            assert(widths@[i]@[c] == v[i][c]);
                        }
                    }
                }
            } else {
                proof {
                    assert forall|i: int, c: int|
                        0 <= i < count_rows && 0 <= c < grid.cols() implies #[trigger] widths@[i]@[c] == if i < row + 1 {
                            copied_cell(sv, v, mr, st, en, i, c)
                        } else {
                            v[i][c]
                        } by {
                        if i == row {
                            assert(widths@[i]@[c] == v[i][c]);
                        }
                    }
                }
            }
            row = row + 1;
        }
        proof {
            let m = widest_row(sv, deep(start), count_rows as int, st, en, *grid);
            assert(v == widened(sv, deep(start), m.0, m.1, st, en, *grid, count_rows as int));
            assert forall|r: int| 0 <= r < count_rows implies #[trigger] deep(widths@)[r] =~= Seq::new(v[r].len(), |c: int| copied_cell(sv, v, m.0, st, en, r, c)) by {
                assert forall|c: int| 0 <= c < grid.cols() implies widths@[r]@[c] == copied_cell(sv, v, m.0, st, en, r, c) by {
                    assert(widths@[r]@[c] == copied_cell(sv, v, mr, st, en, r, c));
                }
            }
            assert(deep(widths@) =~= adjusted_range(sv, deep(start), st, en, *grid));
        }
    } else {
        proof {
            assert(deep(widths@) =~= adjusted_range(sv, deep(start), st, en, *grid));
        }
    }
    proof {
        assert forall|r: int| 0 <= r < count_rows && holds_range(styles@, r, st, en) implies range_row_width(styles@, widths@, r, st, en, *grid)
            == max_width by {
            assert(widths@[r] == phase2[r]);
        }
    }
}

/// Whether the rows holding whole cells in [start, end) (there is one at
/// least) agree on its width.
pub open spec fn range_complete(sv: Seq<Seq<Style>>, w: Seq<Seq<usize>>, start: int, end: int, grid: Grid) -> bool {
    (exists|i: int| 0 <= i < w.len() && holds_v(sv, i, start, end)) && forall|i: int, j: int|
        0 <= i < w.len() && 0 <= j < w.len() && holds_v(sv, i, start, end) && holds_v(sv, j, start, end)
            ==> rwv(sv, w, i, start, end, grid) == rwv(sv, w, j, start, end, grid)
}

/// The widths after the ranges of `span` columns starting at the first `k`
/// columns are adjusted in turn.
pub open spec fn first_pass(sv: Seq<Seq<Style>>, w: Seq<Seq<usize>>, span: int, grid: Grid, k: int) -> Seq<Seq<usize>>
    decreases k,
{
    if k <= 0 {
        w
    } else {
        adjusted_range(sv, first_pass(sv, w, span, grid, k - 1), k - 1, k - 1 + span, grid)
    }
}

/// The widths after those of the first `k` ranges that are not complete
/// are adjusted once more, in turn.
pub open spec fn second_pass(sv: Seq<Seq<Style>>, w: Seq<Seq<usize>>, span: int, grid: Grid, k: int) -> Seq<Seq<usize>>
    decreases k,
{
    if k <= 0 {
        w
    } else {
        let p = second_pass(sv, w, span, grid, k - 1);
        if range_complete(sv, p, k - 1, k - 1 + span, grid) {
            p
        } else {
            adjusted_range(sv, p, k - 1, k - 1 + span, grid)
        }
    }
}

/// The widths after all ranges of `span` columns are adjusted, and for a
/// multi-column span the incomplete ones once more.
pub open spec fn adjusted_width(sv: Seq<Seq<Style>>, w: Seq<Seq<usize>>, span: int, grid: Grid) -> Seq<Seq<usize>> {
    if span > grid.cols() {
        w
    } else {
        let n = grid.cols() - span + 1;
        let w1 = first_pass(sv, w, span, grid, n);
        if span > 1 {
            second_pass(sv, w1, span, grid, n)
        } else {
            w1
        }
    }
}

/// The lines of each cell, as views.
pub open spec fn cell_views(cells: Seq<Vec<Vec<Vec<char>>>>) -> Seq<Seq<Seq<Seq<char>>>> {
    cells.map_values(|row: Vec<Vec<Vec<char>>>| row@.map_values(|c: Vec<Vec<char>>| views_of(c@)))
}

/// The width each cell needs, 0 for covered cells.
pub open spec fn initial_widths(lines: Seq<Seq<Seq<Seq<char>>>>, sv: Seq<Seq<Style>>, rows: nat, cols: nat) -> Seq<Seq<usize>> {
    Seq::new(
        rows,
        |r: int|
            Seq::new(
                cols,
                |c: int|
                    if cell_visible(spans_of(sv[r]), c) {
                        spec_cell_width(lines[r][c], sv[r][c]) as usize
                    } else {
                        0usize
                    },
            ),
    )
}

/// Whether some cell has span `k`.
pub open spec fn span_occurs(sv: Seq<Seq<Style>>, k: int) -> bool {
    exists|r: int, c: int| 0 <= r < sv.len() && 0 <= c < sv[r].len() && sv[r][c].span == k
}

/// The widths after the spans 1 to `k` that occur are adjusted in turn.
pub open spec fn solved_upto(sv: Seq<Seq<Style>>, w: Seq<Seq<usize>>, grid: Grid, k: int) -> Seq<Seq<usize>>
    decreases k,
{
    if k <= 0 {
        w
    } else {
        let p = solved_upto(sv, w, grid, k - 1);
        if span_occurs(sv, k) {
            adjusted_width(sv, p, k, grid)
        } else {
            p
        }
    }
}

/// The solved widths of all cells: each visible cell starts at the width
/// it needs, covered cells at 0, and the ranges of each span that occurs
/// are adjusted in ascending order of span. Spans wider than the grid
/// have no range.
pub open spec fn solved_widths(lines: Seq<Seq<Seq<Seq<char>>>>, sv: Seq<Seq<Style>>, grid: Grid) -> Seq<Seq<usize>> {
    solved_upto(sv, initial_widths(lines, sv, grid.rows(), grid.cols()), grid, grid.cols() as int)
}

/// Adjusts every range of `span` columns, then once more each range of a
/// multi-column span whose rows still disagree.
pub fn adjust_width(widths: &mut Vec<Vec<usize>>, styles: &Vec<Vec<Style>>, span: usize, grid: &Grid)
    requires
        grid.wf(),
        span > 0,
        shaped(styles@, old(widths)@, grid.rows(), grid.cols()),
    ensures
        shaped(styles@, final(widths)@, grid.rows(), grid.cols()),
        deep(final(widths)@) == adjusted_width(deep(styles@), deep(old(widths)@), span as int, *grid),
        grid_frame(styles@, old(widths)@, final(widths)@, grid.cols() as int),
{
    let cols = grid.count_columns();
    if span > cols {
        return;
    }
    let last = cols - span;
    let ghost start = widths@;
    let ghost sv = deep(styles@);
    let mut col: usize = 0;
    while col <= last
        invariant
            grid.wf(),
            cols == grid.cols(),
            0 < span <= cols,
            last == cols - span,
            col <= last + 1,
            sv == deep(styles@),
            shaped(styles@, widths@, grid.rows(), grid.cols()),
            grid_frame(styles@, start, widths@, cols as int),
            deep(widths@) == first_pass(sv, deep(start), span as int, *grid, col as int),
        decreases last + 1 - col,
    {
        let ghost before = widths@;
        adjust_range_width(widths, styles, col, col + span, grid);
        proof {
            lemma_frame_widen(styles@, before, widths@, (col + span) as int, cols as int);
            lemma_frame_trans(styles@, start, before, widths@, cols as int);
        }
        col = col + 1;
    }
    let ghost w1 = deep(widths@);
    if span > 1 {
        let mut col: usize = 0;
        while col <= last
            invariant
                grid.wf(),
                cols == grid.cols(),
                0 < span <= cols,
                last == cols - span,
                col <= last + 1,
                sv == deep(styles@),
                shaped(styles@, widths@, grid.rows(), grid.cols()),
                grid_frame(styles@, start, widths@, cols as int),
                deep(widths@) == second_pass(sv, w1, span as int, *grid, col as int),
            decreases last + 1 - col,
        {
            if !is_range_complete(styles, widths, col, col + span, grid) {
                let ghost before = widths@;
                adjust_range_width(widths, styles, col, col + span, grid);
                proof {
                    lemma_frame_widen(styles@, before, widths@, (col + span) as int, cols as int);
                    lemma_frame_trans(styles@, start, before, widths@, cols as int);
                }
            }
            col = col + 1;
        }
    }
}

proof fn lemma_frame_widen(styles: Seq<Vec<Style>>, a: Seq<Vec<usize>>, b: Seq<Vec<usize>>, end: int, wider: int)
    requires
        grid_frame(styles, a, b, end),
        end <= wider,
    ensures
        grid_frame(styles, a, b, wider),
{
    assert forall|r: int| 0 <= r < a.len() implies row_frame(spans_of(styles[r]@), (#[trigger] a[r])@, b[r]@, wider) by {
        assert(row_frame(spans_of(styles[r]@), a[r]@, b[r]@, end));
    }
}

/// Whether some cell has span `k`.
fn span_occurs_in(styles: &Vec<Vec<Style>>, k: usize) -> (r: bool)
    ensures
        r == span_occurs(deep(styles@), k as int),
{
    let ghost sv = deep(styles@);
    let mut a: usize = 0;
    while a < styles.len()
        invariant
            a <= styles@.len(),
            sv == deep(styles@),
            forall|x: int, y: int| 0 <= x < a && 0 <= y < sv[x].len() ==> sv[x][y].span != k,
        decreases styles@.len() - a,
    {
        let mut b: usize = 0;
        while b < styles[a].len()
            invariant
                a < styles@.len(),
                b <= styles@[a as int]@.len(),
                sv == deep(styles@),
                forall|x: int, y: int| (0 <= x < a && 0 <= y < sv[x].len() || x == a && 0 <= y < b) ==> sv[x][y].span != k,
            decreases styles@[a as int]@.len() - b,
        {
            assert(sv[a as int] == styles@[a as int]@);
            if styles[a][b].span == k {
                assert(sv[a as int][b as int].span == k);
                return true;
            }
            b = b + 1;
        }
        assert(sv[a as int] == styles@[a as int]@);
        a = a + 1;
    }
    false
}

/// The width of every cell: covered cells are 0 wide, visible cells start
/// at the width they need, and the ranges of each span that occurs are
/// then adjusted in ascending order of span.
pub fn columns_width(grid: &Grid, cells: &Vec<Vec<Vec<Vec<char>>>>, styles: &Vec<Vec<Style>>) -> (r: Vec<Vec<usize>>)
    requires
        grid.wf(),
        cells@.len() == grid.rows(),
        forall|i: int| 0 <= i < grid.rows() ==> (#[trigger] cells@[i])@.len() == grid.cols(),
        styles@.len() == grid.rows(),
        forall|i: int| 0 <= i < grid.rows() ==> (#[trigger] styles@[i])@.len() == grid.cols(),
    ensures
        shaped(styles@, r@, grid.rows(), grid.cols()),
        deep(r@) == solved_widths(cell_views(cells@), deep(styles@), *grid),
        forall|i: int, j: int|
            0 <= i < grid.rows() && 0 <= j < grid.cols() && !cell_visible(spans_of(styles@[i]@), j)
                ==> #[trigger] r@[i]@[j] == 0,
{
    let rows = grid.count_rows();
    let cols = grid.count_columns();
    let ghost sv = deep(styles@);
    let ghost lines = cell_views(cells@);
    let ghost init = initial_widths(lines, sv, rows as nat, cols as nat);
    let mut widths: Vec<Vec<usize>> = Vec::new();
    let mut row: usize = 0;
    while row < rows
        invariant
            rows == grid.rows(),
            cols == grid.cols(),
            row <= rows,
            sv == deep(styles@),
            lines == cell_views(cells@),
            init == initial_widths(lines, sv, rows as nat, cols as nat),
            cells@.len() == grid.rows(),
            forall|i: int| 0 <= i < grid.rows() ==> (#[trigger] cells@[i])@.len() == grid.cols(),
            styles@.len() == grid.rows(),
            forall|i: int| 0 <= i < grid.rows() ==> (#[trigger] styles@[i])@.len() == grid.cols(),
            widths@.len() == row,
            forall|i: int| 0 <= i < row ==> (#[trigger] widths@[i])@ == init[i],
        decreases rows - row,
    {
        let mut line: Vec<usize> = Vec::new();
        let mut col: usize = 0;
        assert(sv[row as int] == styles@[row as int]@);
        assert(lines[row as int] == cells@[row as int]@.map_values(|c: Vec<Vec<char>>| views_of(c@)));
        while col < cols
            invariant
                rows == grid.rows(),
                cols == grid.cols(),
                row < rows,
                col <= cols,
                sv == deep(styles@),
                lines == cell_views(cells@),
                init == initial_widths(lines, sv, rows as nat, cols as nat),
                sv[row as int] == styles@[row as int]@,
                lines[row as int] == cells@[row as int]@.map_values(|c: Vec<Vec<char>>| views_of(c@)),
                cells@.len() == grid.rows(),
                forall|i: int| 0 <= i < grid.rows() ==> (#[trigger] cells@[i])@.len() == grid.cols(),
                styles@.len() == grid.rows(),
                forall|i: int| 0 <= i < grid.rows() ==> (#[trigger] styles@[i])@.len() == grid.cols(),
                line@ == init[row as int].take(col as int),
            decreases cols - col,
        {
            assert(lines[row as int][col as int] == views_of(cells@[row as int]@[col as int]@));
            if is_cell_visible(&styles[row], col) {
                line.push(cell_width(&cells[row][col], &styles[row][col]));
            } else {
                line.push(0);
            }
            col = col + 1;
            assert(line@ =~= init[row as int].take(col as int));
        }
        assert(line@ =~= init[row as int]);
        widths.push(line);
        row = row + 1;
    }
    assert(deep(widths@) =~= init);
    proof {
        assert forall|i: int, j: int|
            0 <= i < grid.rows() && 0 <= j < grid.cols() && !cell_visible(spans_of(styles@[i]@), j)
                implies #[trigger] widths@[i]@[j] == 0 by {
            assert(widths@[i]@ == init[i]);
            assert(sv[i] == styles@[i]@);
        }
    }
    let ghost start = widths@;
    let mut k: usize = 0;
    while k < cols
        invariant
            grid.wf(),
            cols == grid.cols(),
            k <= cols,
            sv == deep(styles@),
            shaped(styles@, widths@, grid.rows(), grid.cols()),
            shaped(styles@, start, grid.rows(), grid.cols()),
            grid_frame(styles@, start, widths@, grid.cols() as int),
            deep(widths@) == solved_upto(sv, deep(start), *grid, k as int),
            deep(start) == init,
            forall|i: int, j: int|
                0 <= i < grid.rows() && 0 <= j < grid.cols() && !cell_visible(spans_of(styles@[i]@), j)
                    ==> #[trigger] start[i]@[j] == 0,
        decreases cols - k,
    {
        k = k + 1;
        if span_occurs_in(styles, k) {
            let ghost before = widths@;
            adjust_width(&mut widths, styles, k, grid);
            proof {
                lemma_frame_trans(styles@, start, before, widths@, grid.cols() as int);
            }
        }
    }
    proof {
        assert forall|i: int, j: int|
            0 <= i < grid.rows() && 0 <= j < grid.cols() && !cell_visible(spans_of(styles@[i]@), j)
                implies #[trigger] widths@[i]@[j] == 0 by {
            assert(row_frame(spans_of(styles@[i]@), start[i]@, widths@[i]@, grid.cols() as int));
        }
    }
    widths
}

/// How many of `width` units, laid one per column in turn over `span`
/// columns, land on offset `j`.
pub open spec fn share(width: nat, span: nat, j: nat) -> nat {
    width / span + if j < width % span {
        1nat
    } else {
        0nat
    }
}

/// The row with the smallest positive span at `col` among the first `n`
/// rows; the first of them where several tie.
pub open spec fn min_span_row(styles: Seq<Seq<Style>>, col: int, n: int) -> Option<int>
    decreases n,
{
    if n <= 0 {
        None
    } else {
        let prev = min_span_row(styles, col, n - 1);
        let sp = styles[n - 1][col].span;
        if sp == 0 {
            prev
        } else {
            match prev {
                None => Some(n - 1),
                Some(m) => if sp < styles[m][col].span {
                    Some(n - 1)
                } else {
                    prev
                },
            }
        }
    }
}

/// `v` with `width` units spread in turn over [col, col + span).
pub open spec fn spread(v: Seq<usize>, col: int, span: nat, width: nat) -> Seq<usize> {
    Seq::new(
        v.len(),
        |c: int|
            if col <= c < col + span {
                sat(v[c] + share(width, span, (c - col) as nat)) as usize
            } else {
                v[c]
            },
    )
}

/// The split-line column widths after the first `n` columns, and how many
/// columns after them a spanning cell still covers.
pub open spec fn split_widths_upto(
    widths: Seq<Seq<usize>>,
    styles: Seq<Seq<Style>>,
    rows: nat,
    cols: nat,
    n: int,
) -> (Seq<usize>, nat)
    decreases n,
{
    if n <= 0 {
        (Seq::new(cols, |c: int| 0usize), 0)
    } else {
        let prev = split_widths_upto(widths, styles, rows, cols, n - 1);
        let col = n - 1;
        if prev.1 > 0 {
            (prev.0, (prev.1 - 1) as nat)
        } else {
            match min_span_row(styles, col, rows as int) {
                None => (prev.0, 0),
                Some(m) => {
                    let span = styles[m][col].span;
                    let w = widths[m][col];
                    let width: nat = if w >= span - 1 { (w - (span - 1)) as nat } else { 0 };
                    (spread(prev.0, col, span as nat, width), (span - 1) as nat)
                },
            }
        }
    }
}

/// The width of each column as split lines draw it: at each column not
/// covered by an earlier run, the cell of smallest span there gives its
/// width, less the lines it spans over, spread in turn over the columns it
/// covers.
pub fn normalized_width(
    widths: &Vec<Vec<usize>>,
    styles: &Vec<Vec<Style>>,
    count_rows: usize,
    count_columns: usize,
) -> (r: Vec<usize>)
    requires
        widths@.len() == count_rows,
        styles@.len() == count_rows,
        forall|i: int| 0 <= i < count_rows ==> (#[trigger] widths@[i])@.len() == count_columns,
        forall|i: int| 0 <= i < count_rows ==> (#[trigger] styles@[i])@.len() == count_columns,
    ensures
        r@.len() == count_columns,
        r@ == split_widths_upto(deep(widths@), deep(styles@), count_rows as nat, count_columns as nat, count_columns as int).0,
{
    let mut v: Vec<usize> = Vec::new();
    let mut c: usize = 0;
    while c < count_columns
        invariant
            c <= count_columns,
            v@ == Seq::new(c as nat, |x: int| 0usize),
        decreases count_columns - c,
    {
        v.push(0);
        c = c + 1;
        assert(v@ =~= Seq::new(c as nat, |x: int| 0usize));
    }
    let mut skip: usize = 0;
    let mut col: usize = 0;
    while col < count_columns
        invariant
            col <= count_columns,
            v@.len() == count_columns,
            widths@.len() == count_rows,
            styles@.len() == count_rows,
            forall|i: int| 0 <= i < count_rows ==> (#[trigger] widths@[i])@.len() == count_columns,
            forall|i: int| 0 <= i < count_rows ==> (#[trigger] styles@[i])@.len() == count_columns,
            (v@, skip as nat) == split_widths_upto(deep(widths@), deep(styles@), count_rows as nat, count_columns as nat, col as int),
        decreases count_columns - col,
    {
        if skip > 0 {
            skip = skip - 1;
        } else {
            let mut min_row: Option<usize> = None;
            let mut row: usize = 0;
            while row < count_rows
                invariant
                    row <= count_rows,
                    col < count_columns,
                    styles@.len() == count_rows,
                    forall|i: int| 0 <= i < count_rows ==> (#[trigger] styles@[i])@.len() == count_columns,
                    min_row matches Some(m) ==> m < count_rows && styles@[m as int]@[col as int].span > 0,
                    match min_row {
                        Some(m) => min_span_row(deep(styles@), col as int, row as int) == Some(m as int),
                        None => min_span_row(deep(styles@), col as int, row as int) is None,
                    },
                decreases count_rows - row,
            {
                assert(deep(styles@)[row as int] == styles@[row as int]@);
                let span = styles[row][col].span;
                if span > 0 {
                    match min_row {
                        Some(m) => {
                            if span < styles[m][col].span {
                                min_row = Some(row);
                            }
                        },
                        None => {
                            min_row = Some(row);
                        },
                    }
                }
                row = row + 1;
            }
            if let Some(m) = min_row {
                assert(deep(styles@)[m as int] == styles@[m as int]@);
                assert(deep(widths@)[m as int] == widths@[m as int]@);
                let span = styles[m][col].span;
                let w = widths[m][col];
                let width0 = if w >= span - 1 { w - (span - 1) } else { 0 };
                let ghost v0 = v@;
                let ghost mut full: nat = 0;
                let mut width = width0;
                let mut k: usize = 0;
                while width > 0
                    invariant
                        v@.len() == count_columns,
                        v0.len() == count_columns,
                        col < count_columns,
                        span > 0,
                        k < span,
                        width <= width0,
                        width0 - width == full * span + k,
                        forall|c: int|
                            0 <= c < count_columns ==> #[trigger] v@[c] == if col <= c < col + span {
                                sat(v0[c] + full + if c - col < k {
                                    1nat
                                } else {
                                    0nat
                                }) as usize
                            } else {
                                v0[c]
                            },
                    decreases width,
                {
                    if k < count_columns - col {
                        let i = col + k;
                        let x = v[i];
                        v.set(i, x.saturating_add(1));
                    }
                    if k < span - 1 {
                        k = k + 1;
                    } else {
                        proof {
                            assert((full + 1) * span == full * span + span) by (nonlinear_arith);
                            full = full + 1;
                        }
                        k = 0;
                    }
                    width = width - 1;
                }
                proof {
                    vstd::arithmetic::div_mod::lemma_fundamental_div_mod_converse(
                        width0 as int,
                        span as int,
                        full as int,
                        k as int,
                    );
                    assert(v@ =~= spread(v0, col as int, span as nat, width0 as nat));
                }
                skip = span - 1;
            }
        }
        col = col + 1;
    }
    v
}

/// The number of the first `n` columns of a row that hold a visible cell
/// with a vertical line drawn left of it.
pub open spec fn visible_verticals(grid: Grid, s: Seq<usize>, n: int) -> nat
    decreases n,
{
    if n <= 0 {
        0
    } else {
        visible_verticals(grid, s, n - 1) + if cell_visible(s, n - 1) && grid.spec_has_vertical(
            (n - 1) as usize,
        ) {
            1nat
        } else {
            0nat
        }
    }
}

/// The saturating total of the first `n` widths of a row.
pub open spec fn row_sum(w: Seq<usize>, n: int) -> nat
    decreases n,
{
    if n <= 0 {
        0
    } else {
        sat((row_sum(w, n - 1) + w[n - 1]) as int)
    }
}

/// The width of the table as its first row draws it.
pub open spec fn spec_total_width(grid: Grid, widths: Seq<Seq<usize>>, styles: Seq<Seq<Style>>) -> nat {
    let content = row_sum(widths[0], widths[0].len() as int);
    let last: nat = if grid.spec_has_vertical(grid.size.1) { 1 } else { 0 };
    let borders = if grid.cols() == 0 {
        0
    } else {
        sat((visible_verticals(grid, spans_of(styles[0]), grid.cols() as int) + last) as int)
    };
    sat(
        (sat(sat((content + borders) as int) + grid.margin.left.size) + grid.margin.right.size) as int,
    )
}

/// The width of the table as its first row draws it: the cells, the
/// vertical lines left of visible cells and after the last column, and the
/// left and right margins.
pub fn total_width(grid: &Grid, widths: &Vec<Vec<usize>>, styles: &Vec<Vec<Style>>) -> (r: usize)
    requires
        grid.wf(),
        grid.rows() > 0,
        shaped(styles@, widths@, grid.rows(), grid.cols()),
    ensures
        r == spec_total_width(*grid, deep(widths@), deep(styles@)),
{
    assert(deep(widths@)[0] == widths@[0]@);
    assert(deep(styles@)[0] == styles@[0]@);
    let mut content: usize = 0;
    let mut i: usize = 0;
    while i < widths[0].len()
        invariant
            grid.rows() > 0,
            shaped(styles@, widths@, grid.rows(), grid.cols()),
            i <= widths@[0]@.len(),
            content == row_sum(widths@[0]@, i as int),
        decreases widths@[0]@.len() - i,
    {
        content = content.saturating_add(widths[0][i]);
        i = i + 1;
    }
    let mut borders: usize = 0;
    if grid.count_columns() > 0 {
        let mut col: usize = 0;
        while col < grid.count_columns()
            invariant
                grid.wf(),
                grid.rows() > 0,
                shaped(styles@, widths@, grid.rows(), grid.cols()),
                col <= grid.cols(),
                borders <= col,
                borders == visible_verticals(*grid, spans_of(styles@[0]@), col as int),
            decreases grid.cols() - col,
        {
            if is_cell_visible(&styles[0], col) && has_vertical(grid, col) {
                borders = borders + 1;
            }
            col = col + 1;
        }
        if has_vertical(grid, grid.count_columns()) {
            borders = borders.saturating_add(1);
        }
    }
    content.saturating_add(borders).saturating_add(grid.margin.left.size).saturating_add(grid.margin.right.size)
}

} // verus!
