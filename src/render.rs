//! Rendering of a grid whose widths and heights are solved: margins, split
//! lines (with their optional overriding text) and the lines of each row.

use vstd::prelude::*;
use crate::border::Symbol;
use crate::compose::{build_line_cell, cell_line, repeat_char, repeated};
use crate::grid::{has_horizontal, has_vertical, Grid};
use crate::solver::{cell_views, deep, sat};
use crate::spans::{cell_visible, is_cell_visible, spans_of};
use crate::style::{Indent, Margin, Style};
use crate::compose::{append_chars, chars_width};
use crate::text::{copy_chars, chars_of, display_width, lines_of, push_char, split_lines, strip, truncated, views_of};

verus! {

/// The characters of an optional symbol.
pub open spec fn opt_text(o: Option<Symbol>) -> Seq<char> {
    match o {
        Some(s) => s@,
        None => Seq::<char>::empty(),
    }
}

/// An indent drawn on one line.
pub open spec fn indent_text(i: Indent) -> Seq<char> {
    repeated(seq![i.fill], i.size as nat)
}

/// The lines of a top or bottom margin, `width` columns wide.
pub open spec fn margin_lines(i: Indent, width: nat) -> Seq<char> {
    repeated(repeated(seq![i.fill], width) + seq!['\n'], i.size as nat)
}

/// Writes the left margin of a line.
pub fn print_margin_left(out: &mut String, margin: &Margin)
    ensures
        final(out)@ == old(out)@ + indent_text(margin.left),
{
    repeat_char(out, &Symbol::from_char(margin.left.fill), margin.left.size)
}

/// Writes the right margin of a line.
pub fn print_margin_right(out: &mut String, margin: &Margin)
    ensures
        final(out)@ == old(out)@ + indent_text(margin.right),
{
    repeat_char(out, &Symbol::from_char(margin.right.fill), margin.right.size)
}

fn print_margin_lines(out: &mut String, indent: Indent, size: usize)
    ensures
        final(out)@ == old(out)@ + margin_lines(indent, size as nat),
{
    let fill = Symbol::from_char(indent.fill);
    let mut i: usize = 0;
    while i < indent.size
        invariant
            i <= indent.size,
            fill@ == seq![indent.fill],
            out@ == old(out)@ + repeated(repeated(seq![indent.fill], size as nat) + seq!['\n'], i as nat),
        decreases indent.size - i,
    {
        repeat_char(out, &fill, size);
        push_char(out, '\n');
        i = i + 1;
        assert(out@ =~= old(out)@ + repeated(repeated(seq![indent.fill], size as nat) + seq!['\n'], i as nat));
    }
}

/// Writes the top margin of a table `table_width` columns wide.
pub fn print_margin_top(out: &mut String, margin: &Margin, table_width: usize)
    ensures
        final(out)@ == old(out)@ + margin_lines(
            margin.top,
            sat(table_width + margin.left.size + margin.right.size),
        ),
{
    let size = table_width.saturating_add(margin.left.size).saturating_add(margin.right.size);
    print_margin_lines(out, margin.top, size)
}

/// Writes the bottom margin of a table `table_width` columns wide.
pub fn print_margin_bottom(out: &mut String, margin: &Margin, table_width: usize)
    ensures
        final(out)@ == old(out)@ + margin_lines(
            margin.bottom,
            sat(table_width + margin.left.size + margin.right.size),
        ),
{
    let size = table_width.saturating_add(margin.left.size).saturating_add(margin.right.size);
    print_margin_lines(out, margin.bottom, size)
}

/// A space symbol.
pub open spec fn space() -> Symbol {
    Symbol::spec_from_char(' ')
}

/// The intersection drawn on the split line above `row` left of column
/// `col`: the theme's, else a space where a vertical line is drawn there.
pub open spec fn split_corner(grid: Grid, row: usize, col: int) -> Option<Symbol> {
    let i = grid.theme.spec_intersection((row, col as usize), grid.size.0, grid.size.1);
    if i is Some {
        i
    } else if grid.spec_has_vertical(col as usize) {
        Some(space())
    } else {
        None
    }
}

/// The horizontal symbol drawn on the split line above `row` over column `col`.
pub open spec fn split_main(grid: Grid, row: usize, col: int) -> Symbol {
    match grid.theme.spec_horizontal((row, col as usize), grid.size.0) {
        Some(c) => c,
        None => space(),
    }
}

/// An optional symbol as a list of at most one drawn column.
pub open spec fn opt_unit(o: Option<Symbol>) -> Seq<Seq<char>> {
    match o {
        Some(s) => seq![s@],
        None => Seq::<Seq<char>>::empty(),
    }
}

/// The columns drawn for column `col` of the split line above `row`: the
/// left corner (first column only), `width` horizontal symbols and the
/// right corner.
pub open spec fn column_units(grid: Grid, width: nat, row: usize, col: int) -> Seq<Seq<char>> {
    let left = if col == 0 {
        opt_unit(split_corner(grid, row, 0))
    } else {
        Seq::<Seq<char>>::empty()
    };
    left + Seq::new(width, |k: int| split_main(grid, row, col)@) + opt_unit(split_corner(grid, row, col + 1))
}

/// The columns drawn for the first `n` columns of the split line above `row`.
pub open spec fn split_units(grid: Grid, widths: Seq<usize>, row: usize, n: int) -> Seq<Seq<char>>
    decreases n,
{
    if n <= 0 {
        Seq::<Seq<char>>::empty()
    } else {
        split_units(grid, widths, row, n - 1) + column_units(grid, widths[n - 1] as nat, row, n - 1)
    }
}

/// The drawn columns one after another.
pub open spec fn flatten(u: Seq<Seq<char>>) -> Seq<char>
    decreases u.len(),
{
    if u.len() == 0 {
        Seq::<char>::empty()
    } else {
        flatten(u.drop_last()) + u.last()
    }
}

/// The text written over the split line above `row`: the first line of the
/// overriding text cut to `max_width` characters.
pub open spec fn overlay_line(grid: Grid, row: usize, max_width: nat) -> Seq<char> {
    if grid.split_texts().contains_key(row) {
        let ls = lines_of(truncated(grid.split_texts()[row]@, max_width));
        if ls.len() > 0 {
            ls[0]
        } else {
            Seq::<char>::empty()
        }
    } else {
        Seq::<char>::empty()
    }
}

/// How many drawn columns the overriding text replaces.
pub open spec fn overlay_skip(grid: Grid, row: usize, max_width: nat) -> nat {
    if grid.split_texts().contains_key(row) {
        display_width(overlay_line(grid, row, max_width))
    } else {
        0
    }
}

/// The split line above `row`, where any piece of it is present: the
/// margins around the drawn columns, of which the overriding text replaces
/// as many as it is wide.
pub open spec fn split_line(grid: Grid, widths: Seq<usize>, max_width: nat, row: usize) -> Seq<char> {
    if !grid.spec_has_horizontal(row) {
        Seq::<char>::empty()
    } else {
        let u = split_units(grid, widths, row, widths.len() as int);
        let k = overlay_skip(grid, row, max_width);
        let k2 = if k < u.len() { k } else { u.len() };
        indent_text(grid.margin.left) + overlay_line(grid, row, max_width) + flatten(u.skip(k2 as int))
            + indent_text(grid.margin.right) + seq!['\n']
    }
}

proof fn lemma_emit(u: Seq<Seq<char>>, x: Seq<char>, k: nat)
    ensures
        ({
            let k1 = if k < u.len() { k } else { u.len() };
            let u2 = u.push(x);
            let k2 = if k < u2.len() { k } else { u2.len() };
            flatten(u2.skip(k2 as int)) == if k > u.len() {
                flatten(u.skip(k1 as int))
            } else {
                flatten(u.skip(k1 as int)) + x
            }
        }),
{
    let u2 = u.push(x);
    if k > u.len() {
        assert(u2.skip(u2.len() as int) =~= Seq::<Seq<char>>::empty());
        assert(u.skip(u.len() as int) =~= Seq::<Seq<char>>::empty());
    } else {
        assert(u2.skip(k as int).drop_last() =~= u.skip(k as int));
        assert(u2.skip(k as int).last() == x);
    }
}

/// Writes one drawn column unless the overriding text still covers it.
fn emit_unit(out: &mut String, sym: &Symbol, skip: &mut usize, Ghost(done): Ghost<Seq<Seq<char>>>, Ghost(k): Ghost<nat>, Ghost(base): Ghost<Seq<char>>)
    requires
        old(out)@ == base + flatten(done.skip((if k < done.len() { k } else { done.len() }) as int)),
        *old(skip) == (if k > done.len() { k - done.len() } else { 0 }),
    ensures
        final(out)@ == base + flatten(done.push(sym@).skip((if k < done.len() + 1 { k } else { done.len() + 1 }) as int)),
        *final(skip) == (if k > done.len() + 1 { k - done.len() - 1 } else { 0 }),
{
    proof {
        lemma_emit(done, sym@, k);
    }
    if *skip == 0 {
        sym.write_to(out);
        proof {
            assert(out@ =~= base + flatten(done.push(sym@).skip((if k < done.len() + 1 { k } else { done.len() + 1 }) as int)));
        }
    } else {
        *skip = *skip - 1;
    }
}

/// The corner of the split line above `row` left of column `col`.
fn corner(grid: &Grid, row: usize, col: usize) -> (r: Option<Symbol>)
    requires
        grid.wf(),
    ensures
        r == split_corner(*grid, row, col as int),
{
    match grid.theme.get_intersection((row, col), grid.count_rows(), grid.count_columns()) {
        Some(c) => Some(c),
        None => if has_vertical(grid, col) {
            Some(Symbol::from_char(' '))
        } else {
            None
        },
    }
}


/// Writes the split line above `row`, where any piece of it is present.
pub fn print_split_line(out: &mut String, grid: &Grid, widths: &Vec<usize>, max_width: usize, row: usize)
    requires
        grid.wf(),
        widths@.len() == grid.cols(),
    ensures
        final(out)@ == old(out)@ + split_line(*grid, widths@, max_width as nat, row),
{
    if !has_horizontal(grid, row) {
        assert(old(out)@ + split_line(*grid, widths@, max_width as nat, row) =~= old(out)@);
        return;
    }
    print_margin_left(out, &grid.margin);
    let mut char_skip: usize = 0;
    let ghost head = out@;
    match grid.override_split_lines.get(&row) {
        Some(t) => {
            let cut = strip(t.as_str(), max_width);
            let chars = chars_of(cut.as_str());
            let lines = split_lines(&chars);
            let first = if lines.len() > 0 {
                copy_chars(&lines[0])
            } else {
                Vec::new()
            };
            assert(first@ == overlay_line(*grid, row, max_width as nat));
            char_skip = chars_width(&first);
            append_chars(out, &first);
        },
        None => {
            assert(overlay_line(*grid, row, max_width as nat) =~= Seq::<char>::empty());
            assert(out@ =~= head + overlay_line(*grid, row, max_width as nat));
        },
    }
    let ghost k: nat = char_skip as nat;
    assert(k == overlay_skip(*grid, row, max_width as nat));
    let ghost base = out@;
    let ghost mut done: Seq<Seq<char>> = Seq::empty();
    assert(done.skip(0) =~= Seq::<Seq<char>>::empty());
    let cols = grid.count_columns();
    let mut col: usize = 0;
    while col < cols
        invariant
            grid.wf(),
            cols == grid.cols(),
            widths@.len() == cols,
            col <= cols,
            done == split_units(*grid, widths@, row, col as int),
            out@ == base + flatten(done.skip((if k < done.len() { k } else { done.len() }) as int)),
            char_skip == (if k > done.len() { k - done.len() } else { 0 }),
        decreases cols - col,
    {
        let ghost start_done = done;
        let ghost mut left: Seq<Seq<char>> = Seq::empty();
        if col == 0 {
            match corner(grid, row, 0) {
                Some(c) => {
                    emit_unit(out, &c, &mut char_skip, Ghost(done), Ghost(k), Ghost(base));
                    proof {
                        done = done.push(c@);
                        left = seq![c@];
                    }
                },
                None => {},
            }
        }
        assert(left == (if col == 0 { opt_unit(split_corner(*grid, row, 0)) } else { Seq::<Seq<char>>::empty() }));
        let main = match grid.theme.get_horizontal((row, col), grid.count_rows()) {
            Some(c) => c,
            None => Symbol::from_char(' '),
        };
        assert(main == split_main(*grid, row, col as int));
        let w = widths[col];
        let mut j: usize = 0;
        while j < w
            invariant
                j <= w,
                done == start_done + left + Seq::new(j as nat, |x: int| main@),
                out@ == base + flatten(done.skip((if k < done.len() { k } else { done.len() }) as int)),
                char_skip == (if k > done.len() { k - done.len() } else { 0 }),
            decreases w - j,
        {
            emit_unit(out, &main, &mut char_skip, Ghost(done), Ghost(k), Ghost(base));
            proof {
                done = done.push(main@);
            }
            j = j + 1;
            assert(done =~= start_done + left + Seq::new(j as nat, |x: int| main@));
        }
        let ghost before_right = done;
        match corner(grid, row, col + 1) {
            Some(c) => {
                emit_unit(out, &c, &mut char_skip, Ghost(done), Ghost(k), Ghost(base));
                proof {
                    done = done.push(c@);
                }
            },
            None => {},
        }
        proof {
            let cu = column_units(*grid, w as nat, row, col as int);
            assert(Seq::new(w as nat, |x: int| main@) =~= Seq::new(w as nat, |x: int| split_main(*grid, row, col as int)@));
            assert(done =~= start_done + cu);
            assert(split_units(*grid, widths@, row, col + 1) == start_done + cu);
        }
        col = col + 1;
    }
    print_margin_right(out, &grid.margin);
    push_char(out, '\n');
    proof {
        let u = split_units(*grid, widths@, row, widths@.len() as int);
        assert(done == u);
        let k2 = if k < u.len() { k } else { u.len() };
        assert(out@ =~= old(out)@ + (indent_text(grid.margin.left) + overlay_line(*grid, row, max_width as nat)
            + flatten(u.skip(k2 as int)) + indent_text(grid.margin.right) + seq!['\n']));
    }
}


/// The saturating total of the first `n` widths.
pub open spec fn sum_widths(w: Seq<usize>, n: int) -> nat
    decreases n,
{
    if n <= 0 {
        0
    } else {
        sat((sum_widths(w, n - 1) + w[n - 1]) as int)
    }
}

/// The number of vertical lines drawn left of the first `n` columns.
pub open spec fn vertical_count(grid: Grid, n: int) -> nat
    decreases n,
{
    if n <= 0 {
        0
    } else {
        vertical_count(grid, n - 1) + if grid.spec_has_vertical((n - 1) as usize) {
            1nat
        } else {
            0nat
        }
    }
}

fn sum_of(w: &Vec<usize>) -> (r: usize)
    ensures
        r == sum_widths(w@, w@.len() as int),
{
    let mut total: usize = 0;
    let mut i: usize = 0;
    while i < w.len()
        invariant
            i <= w@.len(),
            total == sum_widths(w@, i as int),
        decreases w.len() - i,
    {
        total = total.saturating_add(w[i]);
        i = i + 1;
    }
    total
}

fn count_verticals(grid: &Grid) -> (r: usize)
    requires
        grid.wf(),
    ensures
        r == vertical_count(*grid, grid.cols() as int),
{
    let mut count: usize = 0;
    let mut col: usize = 0;
    while col < grid.count_columns()
        invariant
            grid.wf(),
            col <= grid.cols(),
            count == vertical_count(*grid, col as int),
            count <= col,
        decreases grid.cols() - col,
    {
        if has_vertical(grid, col) {
            count = count + 1;
        }
        col = col + 1;
    }
    count
}

/// The width of row `row` as drawn: its cells and all vertical lines.
pub open spec fn spec_row_width_grid(grid: Grid, widths: Seq<Seq<usize>>, row: int) -> nat {
    let rw = if 0 <= row < widths.len() { sum_widths(widths[row], widths[row].len() as int) } else { 0 };
    let last: nat = if grid.spec_has_vertical(grid.size.1) { 1 } else { 0 };
    sat((rw + vertical_count(grid, grid.cols() as int) + last) as int)
}

/// The width of row `row` as drawn.
pub fn row_width_grid(grid: &Grid, widths: &Vec<Vec<usize>>, row: usize) -> (r: usize)
    requires
        grid.wf(),
    ensures
        r == spec_row_width_grid(*grid, deep(widths@), row as int),
{
    let row_width = if row < widths.len() { sum_of(&widths[row]) } else { 0 };
    assert(row < widths.len() ==> deep(widths@)[row as int] == widths@[row as int]@);
    let count = count_verticals(grid);
    let last: usize = if has_vertical(grid, grid.count_columns()) { 1 } else { 0 };
    row_width.saturating_add(count).saturating_add(last)
}

/// What line `i` of row `row` draws for column `col`: the left border and
/// the cell's line where the cell is visible, and the right border after
/// the last column.
pub open spec fn cell_piece(
    grid: Grid,
    contents: Seq<Seq<Seq<Seq<char>>>>,
    styles: Seq<Seq<Style>>,
    widths: Seq<Seq<usize>>,
    height: nat,
    row: int,
    col: int,
    i: nat,
) -> Seq<char> {
    let b = grid.spec_get_border(row as usize, col as usize);
    let left = if cell_visible(spans_of(styles[row]), col) {
        opt_text(b.left) + cell_line(
            contents[row][col],
            styles[row][col],
            widths[row][col] as nat,
            height,
            i,
        )
    } else {
        Seq::<char>::empty()
    };
    let right = if col + 1 == grid.cols() {
        opt_text(b.right)
    } else {
        Seq::<char>::empty()
    };
    left + right
}

/// The pieces of the first `n` columns of line `i` of row `row`.
pub open spec fn cell_pieces(
    grid: Grid,
    contents: Seq<Seq<Seq<Seq<char>>>>,
    styles: Seq<Seq<Style>>,
    widths: Seq<Seq<usize>>,
    height: nat,
    row: int,
    i: nat,
    n: int,
) -> Seq<char>
    decreases n,
{
    if n <= 0 {
        Seq::<char>::empty()
    } else {
        cell_pieces(grid, contents, styles, widths, height, row, i, n - 1) + cell_piece(
            grid,
            contents,
            styles,
            widths,
            height,
            row,
            n - 1,
            i,
        )
    }
}

/// Line `i` of row `row` with its margins and line end.
pub open spec fn text_line(
    grid: Grid,
    contents: Seq<Seq<Seq<Seq<char>>>>,
    styles: Seq<Seq<Style>>,
    widths: Seq<Seq<usize>>,
    height: nat,
    row: int,
    i: nat,
) -> Seq<char> {
    indent_text(grid.margin.left) + cell_pieces(grid, contents, styles, widths, height, row, i, grid.cols() as int)
        + indent_text(grid.margin.right) + seq!['\n']
}

/// The first `n` lines of row `row`.
pub open spec fn text_lines(
    grid: Grid,
    contents: Seq<Seq<Seq<Seq<char>>>>,
    styles: Seq<Seq<Style>>,
    widths: Seq<Seq<usize>>,
    height: nat,
    row: int,
    n: nat,
) -> Seq<char>
    decreases n,
{
    if n == 0 {
        Seq::<char>::empty()
    } else {
        text_lines(grid, contents, styles, widths, height, row, (n - 1) as nat) + text_line(
            grid,
            contents,
            styles,
            widths,
            height,
            row,
            (n - 1) as nat,
        )
    }
}

/// Row `row` as drawn: the split line above it, its lines and, after the
/// last row, the split line below it.
pub open spec fn row_block(
    grid: Grid,
    contents: Seq<Seq<Seq<Seq<char>>>>,
    styles: Seq<Seq<Style>>,
    widths: Seq<Seq<usize>>,
    normal_widths: Seq<usize>,
    heights: Seq<usize>,
    table_width: nat,
    row: int,
) -> Seq<char> {
    let h = heights[row] as nat;
    let below = if row + 1 == grid.rows() {
        split_line(grid, normal_widths, table_width, (row + 1) as usize)
    } else {
        Seq::<char>::empty()
    };
    split_line(grid, normal_widths, table_width, row as usize) + text_lines(
        grid,
        contents,
        styles,
        widths,
        h,
        row,
        h,
    ) + below
}

/// The first `n` rows as drawn.
pub open spec fn row_blocks(
    grid: Grid,
    contents: Seq<Seq<Seq<Seq<char>>>>,
    styles: Seq<Seq<Style>>,
    widths: Seq<Seq<usize>>,
    normal_widths: Seq<usize>,
    heights: Seq<usize>,
    table_width: nat,
    n: int,
) -> Seq<char>
    decreases n,
{
    if n <= 0 {
        Seq::<char>::empty()
    } else {
        row_blocks(grid, contents, styles, widths, normal_widths, heights, table_width, n - 1) + row_block(
            grid,
            contents,
            styles,
            widths,
            normal_widths,
            heights,
            table_width,
            n - 1,
        )
    }
}

/// The whole table: the top margin, the rows and the bottom margin.
pub open spec fn table_text(
    grid: Grid,
    contents: Seq<Seq<Seq<Seq<char>>>>,
    styles: Seq<Seq<Style>>,
    widths: Seq<Seq<usize>>,
    normal_widths: Seq<usize>,
    heights: Seq<usize>,
) -> Seq<char> {
    let tw = spec_row_width_grid(grid, widths, 0);
    let m = grid.margin;
    let size = sat((tw + m.left.size + m.right.size) as int);
    margin_lines(m.top, size) + row_blocks(
        grid,
        contents,
        styles,
        widths,
        normal_widths,
        heights,
        tw,
        grid.rows() as int,
    ) + margin_lines(m.bottom, size)
}

/// The inputs of the renderer have the grid's shape.
pub open spec fn render_inputs(
    grid: Grid,
    contents: Seq<Vec<Vec<Vec<char>>>>,
    styles: Seq<Vec<Style>>,
    widths: Seq<Vec<usize>>,
    normal_widths: Seq<usize>,
    heights: Seq<usize>,
) -> bool {
    &&& contents.len() == grid.rows()
    &&& styles.len() == grid.rows()
    &&& widths.len() == grid.rows()
    &&& heights.len() == grid.rows()
    &&& normal_widths.len() == grid.cols()
    &&& forall|i: int| 0 <= i < grid.rows() ==> (#[trigger] contents[i])@.len() == grid.cols()
    &&& forall|i: int| 0 <= i < grid.rows() ==> (#[trigger] styles[i])@.len() == grid.cols()
    &&& forall|i: int| 0 <= i < grid.rows() ==> (#[trigger] widths[i])@.len() == grid.cols()
}

fn print_line(
    out: &mut String,
    grid: &Grid,
    contents: &Vec<Vec<Vec<Vec<char>>>>,
    styles: &Vec<Vec<Style>>,
    widths: &Vec<Vec<usize>>,
    height: usize,
    row: usize,
    i: usize,
)
    requires
        grid.wf(),
        row < grid.rows(),
        contents@.len() == grid.rows(),
        styles@.len() == grid.rows(),
        widths@.len() == grid.rows(),
        forall|r: int| 0 <= r < grid.rows() ==> (#[trigger] contents@[r])@.len() == grid.cols(),
        forall|r: int| 0 <= r < grid.rows() ==> (#[trigger] styles@[r])@.len() == grid.cols(),
        forall|r: int| 0 <= r < grid.rows() ==> (#[trigger] widths@[r])@.len() == grid.cols(),
    ensures
        final(out)@ == old(out)@ + text_line(*grid, cell_views(contents@), deep(styles@), deep(widths@), height as nat, row as int, i as nat),
{
    print_margin_left(out, &grid.margin);
    let ghost base = out@;
    let cols = grid.count_columns();
    let mut col: usize = 0;
    while col < cols
        invariant
            grid.wf(),
            cols == grid.cols(),
            row < grid.rows(),
            col <= cols,
            contents@.len() == grid.rows(),
            styles@.len() == grid.rows(),
            widths@.len() == grid.rows(),
            forall|r: int| 0 <= r < grid.rows() ==> (#[trigger] contents@[r])@.len() == grid.cols(),
            forall|r: int| 0 <= r < grid.rows() ==> (#[trigger] styles@[r])@.len() == grid.cols(),
            forall|r: int| 0 <= r < grid.rows() ==> (#[trigger] widths@[r])@.len() == grid.cols(),
            out@ == base + cell_pieces(*grid, cell_views(contents@), deep(styles@), deep(widths@), height as nat, row as int, i as nat, col as int),
        decreases cols - col,
    {
        let ghost before = out@;
        assert(deep(styles@)[row as int] == styles@[row as int]@);
        assert(deep(widths@)[row as int] == widths@[row as int]@);
        assert(cell_views(contents@)[row as int][col as int] == views_of(contents@[row as int]@[col as int]@));
        let border = grid.get_border(row, col);
        if is_cell_visible(&styles[row], col) {
            if let Some(c) = &border.left {
                c.write_to(out);
            }
            build_line_cell(out, i, &contents[row][col], &styles[row][col], widths[row][col], height);
        }
        if col + 1 == cols {
            if let Some(c) = &border.right {
                c.write_to(out);
            }
        }
        proof {
            let p = cell_piece(*grid, cell_views(contents@), deep(styles@), deep(widths@), height as nat, row as int, col as int, i as nat);
            assert(out@ =~= before + p);
        }
        col = col + 1;
    }
    print_margin_right(out, &grid.margin);
    push_char(out, '\n');
    proof {
        assert(out@ =~= old(out)@ + text_line(*grid, cell_views(contents@), deep(styles@), deep(widths@), height as nat, row as int, i as nat));
    }
}

/// Writes one row as `row_block` describes it.
fn print_row_block(
    out: &mut String,
    grid: &Grid,
    contents: &Vec<Vec<Vec<Vec<char>>>>,
    styles: &Vec<Vec<Style>>,
    widths: &Vec<Vec<usize>>,
    normal_widths: &Vec<usize>,
    heights: &Vec<usize>,
    table_width: usize,
    row: usize,
)
    requires
        grid.wf(),
        row < grid.rows(),
        render_inputs(*grid, contents@, styles@, widths@, normal_widths@, heights@),
    ensures
        final(out)@ == old(out)@ + row_block(*grid, cell_views(contents@), deep(styles@), deep(widths@), normal_widths@, heights@, table_width as nat, row as int),
{
    let rows = grid.count_rows();
    print_split_line(out, grid, normal_widths, table_width, row);
    let ghost lines_start = out@;
    let height = heights[row];
    let mut i: usize = 0;
    while i < height
        invariant
            grid.wf(),
            rows == grid.rows(),
            row < rows,
            i <= height,
            render_inputs(*grid, contents@, styles@, widths@, normal_widths@, heights@),
            out@ == lines_start + text_lines(*grid, cell_views(contents@), deep(styles@), deep(widths@), height as nat, row as int, i as nat),
        decreases height - i,
    {
        print_line(out, grid, contents, styles, widths, height, row, i);
        i = i + 1;
        assert(out@ =~= lines_start + text_lines(*grid, cell_views(contents@), deep(styles@), deep(widths@), height as nat, row as int, i as nat));
    }
    if row + 1 == rows {
        print_split_line(out, grid, normal_widths, table_width, row + 1);
    }
    proof {
        let b = row_block(*grid, cell_views(contents@), deep(styles@), deep(widths@), normal_widths@, heights@, table_width as nat, row as int);
        assert(out@ =~= old(out)@ + b);
    }
}

/// Writes the whole table.
pub fn print_grid(
    out: &mut String,
    grid: &Grid,
    contents: &Vec<Vec<Vec<Vec<char>>>>,
    styles: &Vec<Vec<Style>>,
    widths: &Vec<Vec<usize>>,
    normal_widths: &Vec<usize>,
    heights: &Vec<usize>,
)
    requires
        grid.wf(),
        render_inputs(*grid, contents@, styles@, widths@, normal_widths@, heights@),
    ensures
        final(out)@ == old(out)@ + table_text(*grid, cell_views(contents@), deep(styles@), deep(widths@), normal_widths@, heights@),
{
    let table_width = row_width_grid(grid, widths, 0);
    print_margin_top(out, &grid.margin, table_width);
    let ghost base = out@;
    let rows = grid.count_rows();
    let mut row: usize = 0;
    while row < rows
        invariant
            grid.wf(),
            rows == grid.rows(),
            row <= rows,
            render_inputs(*grid, contents@, styles@, widths@, normal_widths@, heights@),
            table_width == spec_row_width_grid(*grid, deep(widths@), 0),
            out@ == base + row_blocks(*grid, cell_views(contents@), deep(styles@), deep(widths@), normal_widths@, heights@, table_width as nat, row as int),
        decreases rows - row,
    {
        print_row_block(out, grid, contents, styles, widths, normal_widths, heights, table_width, row);
        row = row + 1;
        assert(out@ =~= base + row_blocks(*grid, cell_views(contents@), deep(styles@), deep(widths@), normal_widths@, heights@, table_width as nat, row as int));
    }
    print_margin_bottom(out, &grid.margin, table_width);
}

} // verus!
