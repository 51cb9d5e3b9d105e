//! Rendering a whole grid: collecting its cells and styles, normalizing
//! spans, solving widths and heights, and drawing.

use vstd::prelude::*;
use crate::compose::{replace_tab, tabs_expanded};
use crate::grid::{entity_positions, Grid};
use crate::border::Symbol;
use crate::theme::{Position, Theme};
use crate::render::{print_grid, render_inputs, table_text};
use crate::solver::{cell_views, deep, solved_widths, split_widths_upto, columns_width, normalized_width, row_height, rows_height, shaped, spec_total_width, total_width};
use crate::spans::{cell_visible, filled_row, fix_spans, fix_styles, lemma_filled_marked, lemma_next_start, marked, marked_row, normalized_row, source_of, spans_of};
use crate::style::{default_style, Entity, Style};
use crate::text::{chars_of, lines_of, split_lines, views_of};

verus! {

/// The lines of the cell at (r, c) once its tabs are expanded.
pub open spec fn cell_lines(g: Grid, r: int, c: int) -> Seq<Seq<char>> {
    lines_of(
        tabs_expanded(
            g.cell_text(r, c),
            g.spec_style(Entity::Cell(r as usize, c as usize)).formatting.tab_width as nat,
        ),
    )
}

/// The resolved styles of row `r`.
pub open spec fn raw_row_styles(g: Grid, r: int) -> Seq<Style> {
    Seq::new(g.cols(), |c: int| g.spec_style(Entity::Cell(r as usize, c as usize)))
}

/// The lines of each cell once spans are normalized (cells move with the
/// first visible cell of their row).
pub open spec fn grid_lines(g: Grid) -> Seq<Seq<Seq<Seq<char>>>> {
    Seq::new(
        g.rows(),
        |r: int| Seq::new(g.cols(), |c: int| cell_lines(g, r, source_of(marked(spans_of(raw_row_styles(g, r))), c))),
    )
}

/// The styles of each row once spans are normalized.
pub open spec fn grid_styles(g: Grid) -> Seq<Seq<Style>> {
    Seq::new(g.rows(), |r: int| normalized_row(raw_row_styles(g, r)))
}

/// The widths the grid's cells are drawn with.
pub open spec fn grid_widths(g: Grid) -> Seq<Seq<usize>> {
    solved_widths(grid_lines(g), grid_styles(g), g)
}

/// The height of each row once spans are normalized.
pub open spec fn grid_heights(g: Grid) -> Seq<usize> {
    Seq::new(g.rows(), |r: int| row_height(grid_lines(g), grid_styles(g), r, g.cols() as int) as usize)
}

/// The column widths split lines are drawn with.
pub open spec fn grid_split_widths(g: Grid) -> Seq<usize> {
    split_widths_upto(grid_widths(g), grid_styles(g), g.rows(), g.cols(), g.cols() as int).0
}

/// The grid as text: the table drawn with its normalized cells and
/// styles, solved widths and heights.
pub open spec fn rendered(g: Grid) -> Seq<char> {
    table_text(g, grid_lines(g), grid_styles(g), grid_widths(g), grid_split_widths(g), grid_heights(g))
}

/// The pinned border pieces after the drawn borders of source cells
/// (sr + row, sc + 0) to (sr + row, sc + j - 1) are pinned to (row, 0) to
/// (row, j - 1) over the maps `m`.
pub open spec fn pinned_in_row(
    g: Grid,
    sr: int,
    sc: int,
    row: int,
    j: int,
    m: (Map<Position, Symbol>, Map<Position, Symbol>, Map<Position, Symbol>),
) -> (Map<Position, Symbol>, Map<Position, Symbol>, Map<Position, Symbol>)
    decreases j,
{
    if j <= 0 {
        m
    } else {
        Theme::override_all(
            pinned_in_row(g, sr, sc, row, j - 1, m),
            seq![(row as usize, (j - 1) as usize)],
            g.spec_get_border((sr + row) as usize, (sc + j - 1) as usize),
        )
    }
}

/// The pinned border pieces after the drawn borders of the first `i` rows
/// of `nc` source cells from (sr, sc) are pinned, row by row, over the
/// grid's own.
pub open spec fn pinned_rows(g: Grid, sr: int, sc: int, nc: int, i: int) -> (Map<Position, Symbol>, Map<Position, Symbol>, Map<Position, Symbol>)
    decreases i,
{
    if i <= 0 {
        g.theme.override_maps()
    } else {
        pinned_in_row(g, sr, sc, i - 1, nc, pinned_rows(g, sr, sc, nc, i - 1))
    }
}

/// The style a cell gets where it is copied into a new grid: its span,
/// padding and alignments, with the new grid's formatting.
pub open spec fn extracted_style(src: Style) -> Style {
    Style { formatting: default_style().formatting, ..src }
}

impl Grid {
    /// The table as text: each drawn line ends with a newline, and a grid
    /// without rows or without columns draws nothing.
    pub fn render(&self) -> (r: String)
        requires
            self.wf(),
        ensures
            self.rows() == 0 || self.cols() == 0 ==> r@.len() == 0,
            self.rows() > 0 && self.cols() > 0 ==> r@ == rendered(*self),
    {
        let count_rows = self.count_rows();
        let count_columns = self.count_columns();
        if count_rows == 0 || count_columns == 0 {
            return String::new();
        }
        let (cells, styles) = self.normalized_cells();
        let heights = rows_height(&cells, &styles, count_rows, count_columns);
        let widths = columns_width(self, &cells, &styles);
        proof {
            self.lemma_views(cells@, styles@);
        }
        let normal_widths = normalized_width(&widths, &styles, count_rows, count_columns);
        let mut out = String::new();
        print_grid(&mut out, self, &cells, &styles, &widths, &normal_widths, &heights);
        proof {
            assert(heights@ =~= grid_heights(*self));
        }
        out
    }

    /// The width of the table as drawn, split lines and margins included;
    /// 0 for a grid without rows or without columns.
    pub fn total_width(&self) -> (r: usize)
        requires
            self.wf(),
        ensures
            self.rows() == 0 || self.cols() == 0 ==> r == 0,
            self.rows() > 0 && self.cols() > 0 ==> r == spec_total_width(*self, grid_widths(*self), grid_styles(*self)),
    {
        if self.count_rows() == 0 || self.count_columns() == 0 {
            return 0;
        }
        let (cells, styles) = self.normalized_cells();
        let widths = columns_width(self, &cells, &styles);
        proof {
            self.lemma_views(cells@, styles@);
        }
        let r = total_width(self, &widths, &styles);
        r
    }

    /// A new grid of the cells in `rows` by `columns`: each cell's text,
    /// span, padding and alignments and drawn border are copied, and the
    /// theme is copied whole.
    pub fn extract(&self, rows: std::ops::Range<usize>, columns: std::ops::Range<usize>) -> (r: Grid)
        requires
            self.wf(),
            rows.start <= rows.end <= self.rows(),
            columns.start <= columns.end <= self.cols(),
        ensures
            r.wf(),
            r.rows() == rows.end - rows.start,
            r.cols() == columns.end - columns.start,
            forall|a: int, b: int|
                0 <= a < r.rows() && 0 <= b < r.cols() ==> #[trigger] r.cell_text(a, b) == self.cell_text(
                    rows.start + a,
                    columns.start + b,
                ),
            forall|a: int, b: int|
                0 <= a < r.rows() && 0 <= b < r.cols() ==> #[trigger] r.spec_style(Entity::Cell(a as usize, b as usize))
                    == extracted_style(self.spec_style(Entity::Cell((rows.start + a) as usize, (columns.start + b) as usize))),
            r.theme.borders == self.theme.borders,
            r.theme.lines@ == self.theme.lines@,
            r.theme.override_maps() == pinned_rows(
                *self,
                rows.start as int,
                columns.start as int,
                (columns.end - columns.start) as int,
                (rows.end - rows.start) as int,
            ),
    {
        let start_row = rows.start;
        let start_column = columns.start;
        let new_rows = rows.end - rows.start;
        let new_columns = columns.end - columns.start;
        let mut new_grid = Grid::new(new_rows, new_columns);
        let ghost fresh = new_grid;
        new_grid.theme = self.theme.copy();
        assert forall|a: int, b: int|
            0 <= a < new_rows && 0 <= b < new_columns implies (#[trigger] new_grid.cell_text(a, b)).len() == 0 by {
            assert(fresh.cell_text(a, b).len() == 0);
        }
        let mut i: usize = 0;
        while i < new_rows
            invariant
                self.wf(),
                new_grid.wf(),
                i <= new_rows,
                new_grid.rows() == new_rows,
                new_grid.cols() == new_columns,
                start_row + new_rows <= self.rows(),
                start_column + new_columns <= self.cols(),
                new_grid.global == default_style(),
                new_grid.theme.borders == self.theme.borders,
                new_grid.theme.lines@ == self.theme.lines@,
                new_grid.theme.override_maps() == pinned_rows(*self, start_row as int, start_column as int, new_columns as int, i as int),
                forall|k: Entity| #[trigger] new_grid.styles@.contains_key(k) ==> (k matches Entity::Cell(a, b) && a < i && b < new_columns),
                forall|a: int, b: int|
                    0 <= a < i && 0 <= b < new_columns ==> #[trigger] new_grid.cell_text(a, b) == self.cell_text(start_row + a, start_column + b),
                forall|a: usize, b: usize|
                    a < i && b < new_columns ==> new_grid.styles@.contains_key(Entity::Cell(a, b))
                        && #[trigger] new_grid.styles@[Entity::Cell(a, b)] == extracted_style(
                            self.spec_style(Entity::Cell((start_row + a) as usize, (start_column + b) as usize)),
                        ),
                forall|a: int, b: int|
                    i <= a < new_rows && 0 <= b < new_columns ==> (#[trigger] new_grid.cell_text(a, b)).len() == 0,
            decreases new_rows - i,
        {
            let mut j: usize = 0;
            while j < new_columns
                invariant
                    self.wf(),
                    new_grid.wf(),
                    i < new_rows,
                    j <= new_columns,
                    new_grid.rows() == new_rows,
                    new_grid.cols() == new_columns,
                    start_row + new_rows <= self.rows(),
                    start_column + new_columns <= self.cols(),
                    new_grid.global == default_style(),
                    new_grid.theme.borders == self.theme.borders,
                    new_grid.theme.lines@ == self.theme.lines@,
                    new_grid.theme.override_maps() == pinned_in_row(
                        *self,
                        start_row as int,
                        start_column as int,
                        i as int,
                        j as int,
                        pinned_rows(*self, start_row as int, start_column as int, new_columns as int, i as int),
                    ),
                    forall|k: Entity| #[trigger] new_grid.styles@.contains_key(k) ==> (k matches Entity::Cell(a, b) && (a < i && b < new_columns || a == i && b < j)),
                    forall|a: int, b: int|
                        (0 <= a < i && 0 <= b < new_columns || a == i && 0 <= b < j) ==> #[trigger] new_grid.cell_text(a, b) == self.cell_text(start_row + a, start_column + b),
                    forall|a: usize, b: usize|
                        (a < i && b < new_columns || a == i && b < j) ==> new_grid.styles@.contains_key(Entity::Cell(a, b))
                            && #[trigger] new_grid.styles@[Entity::Cell(a, b)] == extracted_style(
                                self.spec_style(Entity::Cell((start_row + a) as usize, (start_column + b) as usize)),
                            ),
                    forall|a: int, b: int|
                        (i < a < new_rows && 0 <= b < new_columns || a == i && j <= b < new_columns) ==> (#[trigger] new_grid.cell_text(a, b)).len() == 0,
                decreases new_columns - j,
            {
                let settings = self.get_settings(start_row + i, start_column + j);
                let ghost src = self.spec_style(Entity::Cell((start_row + i) as usize, (start_column + j) as usize));
                let ghost before = new_grid;
                assert(before.spec_style(Entity::Cell(i, j)) == default_style()) by {
                    assert(!before.styles@.contains_key(Entity::Cell(i, j)));
                    assert(!before.styles@.contains_key(Entity::Column(j)));
                    assert(!before.styles@.contains_key(Entity::Row(i)));
                }
                new_grid.set(Entity::Cell(i, j), settings);
                proof {
                    assert(entity_positions(Entity::Cell(i, j), new_rows as nat, new_columns as nat) == seq![(i, j)]);
                    assert(new_grid.styles@ == before.styles@.insert(Entity::Cell(i, j), extracted_style(src))) by {
                        assert(crate::grid::kept_entries(before.styles@, Entity::Cell(i, j)) =~= before.styles@);
                    }
                    assert forall|a: int, b: int|
                        (0 <= a < i && 0 <= b < new_columns || a == i && 0 <= b < j + 1) implies #[trigger] new_grid.cell_text(a, b) == self.cell_text(start_row + a, start_column + b) by {
                        if !(a == i && b == j) {
                            assert(before.cell_text(a, b) == self.cell_text(start_row + a, start_column + b));
                        }
                    }
                    assert forall|a: usize, b: usize|
                        (a < i && b < new_columns || a == i && b < j + 1) implies new_grid.styles@.contains_key(Entity::Cell(a, b)) && #[trigger] new_grid.styles@[Entity::Cell(a, b)] == extracted_style(
                                self.spec_style(Entity::Cell((start_row + a) as usize, (start_column + b) as usize))) by {
                        if !(a == i && b == j) {
                            assert(before.styles@[Entity::Cell(a, b)] == extracted_style(
                                self.spec_style(Entity::Cell((start_row + a) as usize, (start_column + b) as usize))));
                        }
                    }
                }
                j = j + 1;
            }
            i = i + 1;
        }
        proof {
            assert forall|a: int, b: int|
                0 <= a < new_rows && 0 <= b < new_columns implies #[trigger] new_grid.spec_style(Entity::Cell(a as usize, b as usize))
                    == extracted_style(self.spec_style(Entity::Cell((start_row + a) as usize, (start_column + b) as usize))) by {
                let ua = a as usize;
                let ub = b as usize;
                assert(new_grid.styles@[Entity::Cell(ua, ub)] == extracted_style(
                    self.spec_style(Entity::Cell((start_row + ua) as usize, (start_column + ub) as usize))));
            }
        }
        new_grid
    }

    /// The lines of every cell, with tabs expanded by the cell's tab width.
    pub fn collect_cells(&self) -> (r: Vec<Vec<Vec<Vec<char>>>>)
        requires
            self.wf(),
        ensures
            r@.len() == self.rows(),
            forall|i: int| 0 <= i < self.rows() ==> (#[trigger] r@[i])@.len() == self.cols(),
            forall|i: int, j: int|
                0 <= i < self.rows() && 0 <= j < self.cols() ==> views_of((#[trigger] r@[i]@[j])@) == cell_lines(*self, i, j),
    {
        let mut rows: Vec<Vec<Vec<Vec<char>>>> = Vec::new();
        let mut row: usize = 0;
        while row < self.count_rows()
            invariant
                self.wf(),
                row <= self.rows(),
                rows@.len() == row,
                forall|i: int| 0 <= i < row ==> (#[trigger] rows@[i])@.len() == self.cols(),
                forall|i: int, j: int|
                    0 <= i < row && 0 <= j < self.cols() ==> views_of((#[trigger] rows@[i]@[j])@) == cell_lines(*self, i, j),
            decreases self.rows() - row,
        {
            let mut line: Vec<Vec<Vec<char>>> = Vec::new();
            let mut col: usize = 0;
            while col < self.count_columns()
                invariant
                    self.wf(),
                    row < self.rows(),
                    col <= self.cols(),
                    line@.len() == col,
                    forall|j: int| 0 <= j < col ==> views_of((#[trigger] line@[j])@) == cell_lines(*self, row as int, j),
                decreases self.cols() - col,
            {
                let mut content = self.cells[row][col].clone();
                let style = self.style(Entity::Cell(row, col));
                replace_tab(&mut content, style.formatting.tab_width);
                let chars = chars_of(content.as_str());
                let lines = split_lines(&chars);
                line.push(lines);
                col = col + 1;
            }
            rows.push(line);
            row = row + 1;
        }
        rows
    }

    /// The resolved style of every cell, with covered cells marked and
    /// spans clamped to their row.
    pub fn collect_styles(&self) -> (r: Vec<Vec<Style>>)
        requires
            self.wf(),
        ensures
            r@.len() == self.rows(),
            forall|i: int| 0 <= i < self.rows() ==> (#[trigger] r@[i])@ == marked_row(raw_row_styles(*self, i)),
    {
        let mut rows: Vec<Vec<Style>> = Vec::new();
        let mut row: usize = 0;
        while row < self.count_rows()
            invariant
                self.wf(),
                row <= self.rows(),
                rows@.len() == row,
                forall|i: int| 0 <= i < row ==> (#[trigger] rows@[i])@ == raw_row_styles(*self, i),
            decreases self.rows() - row,
        {
            let mut line: Vec<Style> = Vec::new();
            let mut col: usize = 0;
            while col < self.count_columns()
                invariant
                    self.wf(),
                    row < self.rows(),
                    col <= self.cols(),
                    line@ == raw_row_styles(*self, row as int).take(col as int),
                decreases self.cols() - col,
            {
                line.push(*self.style(Entity::Cell(row, col)));
                col = col + 1;
                assert(line@ =~= raw_row_styles(*self, row as int).take(col as int));
            }
            assert(line@ =~= raw_row_styles(*self, row as int));
            rows.push(line);
            row = row + 1;
        }
        fix_styles(&mut rows);
        rows
    }

    /// The widths the grid draws its cells with, and its styles once spans
    /// are normalized.
    pub fn build_widths(&self) -> (r: (Vec<Vec<usize>>, Vec<Vec<Style>>))
        requires
            self.wf(),
        ensures
            shaped(r.1@, r.0@, self.rows(), self.cols()),
            deep(r.0@) == grid_widths(*self),
            deep(r.1@) == grid_styles(*self),
            forall|i: int| 0 <= i < self.rows() ==> (#[trigger] r.1@[i])@ == normalized_row(raw_row_styles(*self, i)),
            forall|i: int, j: int|
                0 <= i < self.rows() && 0 <= j < self.cols() && !cell_visible(spans_of(r.1@[i]@), j)
                    ==> #[trigger] r.0@[i]@[j] == 0,
    {
        let (cells, styles) = self.normalized_cells();
        let widths = columns_width(self, &cells, &styles);
        proof {
            self.lemma_views(cells@, styles@);
        }
        (widths, styles)
    }

    /// Normalized cells and styles have the grid's views.
    proof fn lemma_views(&self, cells: Seq<Vec<Vec<Vec<char>>>>, styles: Seq<Vec<Style>>)
        requires
            cells.len() == self.rows(),
            styles.len() == self.rows(),
            forall|i: int| 0 <= i < self.rows() ==> (#[trigger] cells[i])@.len() == self.cols(),
            forall|i: int| 0 <= i < self.rows() ==> (#[trigger] styles[i])@ == normalized_row(raw_row_styles(*self, i)),
            forall|i: int, j: int|
                0 <= i < self.rows() && 0 <= j < self.cols() ==> views_of((#[trigger] cells[i]@[j])@) == cell_lines(
                    *self,
                    i,
                    source_of(marked(spans_of(raw_row_styles(*self, i))), j),
                ),
        ensures
            cell_views(cells) == grid_lines(*self),
            deep(styles) == grid_styles(*self),
    {
        assert forall|i: int| 0 <= i < self.rows() implies #[trigger] cell_views(cells)[i] =~= grid_lines(*self)[i] by {
            assert forall|j: int| 0 <= j < self.cols() implies cell_views(cells)[i][j] == grid_lines(*self)[i][j] by {
                assert(cell_views(cells)[i][j] == views_of(cells[i]@[j]@));
            }
        }
        assert(cell_views(cells) =~= grid_lines(*self));
        assert(deep(styles) =~= grid_styles(*self));
    }

    /// The cells' lines and styles with spans normalized; cells move with
    /// their styles.
    fn normalized_cells(&self) -> (r: (Vec<Vec<Vec<Vec<char>>>>, Vec<Vec<Style>>))
        requires
            self.wf(),
        ensures
            r.0@.len() == self.rows(),
            r.1@.len() == self.rows(),
            forall|i: int| 0 <= i < self.rows() ==> (#[trigger] r.0@[i])@.len() == self.cols(),
            forall|i: int| 0 <= i < self.rows() ==> (#[trigger] r.1@[i])@.len() == self.cols(),
            forall|i: int| 0 <= i < self.rows() ==> (#[trigger] r.1@[i])@ == normalized_row(raw_row_styles(*self, i)),
            forall|i: int, j: int|
                0 <= i < self.rows() && 0 <= j < self.cols() ==> views_of((#[trigger] r.0@[i]@[j])@) == cell_lines(
                    *self,
                    i,
                    source_of(marked(spans_of(raw_row_styles(*self, i))), j),
                ),
    {
        let mut cells = self.collect_cells();
        let mut styles = self.collect_styles();
        let ghost c0 = cells@;
        let ghost s0 = styles@;
        fix_spans(&mut styles, &mut cells);
        proof {
            assert forall|i: int| 0 <= i < self.rows() implies (#[trigger] cells@[i])@.len() == self.cols() by {
                assert((styles@[i]@, cells@[i]@) == filled_row(s0[i]@, c0[i]@));
            }
            assert forall|i: int| 0 <= i < self.rows() implies (#[trigger] styles@[i])@ == normalized_row(raw_row_styles(*self, i)) by {
                assert((styles@[i]@, cells@[i]@) == filled_row(s0[i]@, c0[i]@));
                lemma_filled_marked(raw_row_styles(*self, i), c0[i]@);
            }
            assert forall|i: int, j: int|
                0 <= i < self.rows() && 0 <= j < self.cols() implies views_of((#[trigger] cells@[i]@[j])@) == cell_lines(
                    *self,
                    i,
                    source_of(marked(spans_of(raw_row_styles(*self, i))), j),
                ) by {
                assert((styles@[i]@, cells@[i]@) == filled_row(s0[i]@, c0[i]@));
                let raw = raw_row_styles(*self, i);
                assert(spans_of(s0[i]@) =~= marked(spans_of(raw)));
                let m = marked(spans_of(raw));
                lemma_next_start(m, 0);
                let src = source_of(m, j);
                assert(0 <= src < self.cols());
                assert(cells@[i]@[j] == c0[i]@[src]);
            }
        }
        (cells, styles)
    }
}

} // verus!
