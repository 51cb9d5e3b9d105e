//! A column span setting: makes a cell cover more columns than its own.

use vstd::prelude::*;
use crate::grid::Grid;
use crate::settings::Settings;
use crate::style::Entity;

verus! {

/// A column span of a given size, for any cell of a grid.
#[derive(Debug)]
pub struct Span {
    size: usize,
}

impl Span {
    /// The number of columns the span covers.
    pub closed spec fn spec_size(&self) -> usize {
        self.size
    }

    /// A span over `size` columns.
    pub fn column(size: usize) -> (r: Self)
        ensures
            r.spec_size() == size,
    {
        Span { size }
    }

    /// Sets the span of the cell at (row, column) to this span.
    pub fn change_cell(&mut self, grid: &mut Grid, row: usize, column: usize)
        requires
            old(grid).wf(),
            row < old(grid).rows(),
            column < old(grid).cols(),
        ensures
            final(grid).wf(),
            *final(self) == *old(self),
            final(grid).size == old(grid).size,
            forall|r: int, c: int|
                0 <= r < old(grid).rows() && 0 <= c < old(grid).cols() ==> #[trigger] final(grid).cell_text(r, c)
                    == old(grid).cell_text(r, c),
            final(grid).global == old(grid).global,
            final(grid).styles@ == old(grid).styles@.insert(
                Entity::Cell(row, column),
                crate::style::Style { span: old(self).spec_size(), ..old(grid).spec_style(Entity::Cell(row, column)) },
            ),
            final(grid).theme.override_maps() == old(grid).theme.override_maps(),
            final(grid).theme.borders == old(grid).theme.borders,
            final(grid).theme.lines@ == old(grid).theme.lines@,
    {
        let ghost before = *grid;
        grid.set(Entity::Cell(row, column), Settings::new().span(self.size));
        proof {
            assert(crate::grid::kept_entries(before.styles@, Entity::Cell(row, column)) =~= before.styles@);
        }
    }
}

} // verus!
