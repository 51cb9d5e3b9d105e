//! The layered border theme: base borders, per-row split-line overrides and
//! per-position overrides of single pieces.

use vstd::prelude::*;
use crate::border::{clone_symbol, default_borders, spec_default_borders, Border, Borders, Line, Symbol};
use crate::keyed::KeyedMap;

verus! {

/// A position on the lines of the grid: (row, column).
pub type Position = (usize, usize);

/// `a` where it is present, else `b`.
pub open spec fn or_symbol(a: Option<Symbol>, b: Option<Symbol>) -> Option<Symbol> {
    if a is Some {
        a
    } else {
        b
    }
}

fn or_else(a: &Option<Symbol>, b: Option<Symbol>) -> (r: Option<Symbol>)
    ensures
        r == or_symbol(*a, b),
{
    if a.is_some() {
        clone_symbol(a)
    } else {
        b
    }
}

/// The pieces that decide how the grid's lines are drawn.
pub struct Theme {
    pub borders: Borders,
    /// Vertical pieces by (row, column of the line).
    pub vertical: KeyedMap<Position, Symbol>,
    /// Horizontal pieces by (row of the line, column).
    pub horizontal: KeyedMap<Position, Symbol>,
    /// Intersections by (row of the line, column of the line).
    pub intersection: KeyedMap<Position, Symbol>,
    /// Whole split lines by the row they stand above.
    pub lines: KeyedMap<usize, Line>,
}

impl Theme {
    pub open spec fn wf(&self) -> bool {
        &&& self.vertical.wf()
        &&& self.horizontal.wf()
        &&& self.intersection.wf()
        &&& self.lines.wf()
    }

    /// The default theme with nothing overridden.
    pub fn new() -> (r: Self)
        ensures
            r.wf(),
            r.borders == spec_default_borders(),
            r.vertical@ == Map::<Position, Symbol>::empty(),
            r.horizontal@ == Map::<Position, Symbol>::empty(),
            r.intersection@ == Map::<Position, Symbol>::empty(),
            r.lines@ == Map::<usize, Line>::empty(),
    {
        Theme {
            borders: default_borders(),
            vertical: KeyedMap::new(),
            horizontal: KeyedMap::new(),
            intersection: KeyedMap::new(),
            lines: KeyedMap::new(),
        }
    }

    /// The piece maps after the pieces of `border` are pinned to the cell at `pos`.
    pub open spec fn spec_override_vertical(
        m: Map<Position, Symbol>,
        pos: Position,
        border: Border,
    ) -> Map<Position, Symbol> {
        let m1 = if border.left is Some { m.insert(pos, border.left->0) } else { m };
        if border.right is Some { m1.insert((pos.0, (pos.1 + 1) as usize), border.right->0) } else { m1 }
    }

    pub open spec fn spec_override_horizontal(
        m: Map<Position, Symbol>,
        pos: Position,
        border: Border,
    ) -> Map<Position, Symbol> {
        let m1 = if border.top is Some { m.insert(pos, border.top->0) } else { m };
        if border.bottom is Some { m1.insert(((pos.0 + 1) as usize, pos.1), border.bottom->0) } else { m1 }
    }

    pub open spec fn spec_override_intersection(
        m: Map<Position, Symbol>,
        pos: Position,
        border: Border,
    ) -> Map<Position, Symbol> {
        let m1 = if border.left_top_corner is Some {
            m.insert(pos, border.left_top_corner->0)
        } else {
            m
        };
        let m2 = if border.left_bottom_corner is Some {
            m1.insert(((pos.0 + 1) as usize, pos.1), border.left_bottom_corner->0)
        } else {
            m1
        };
        let m3 = if border.right_top_corner is Some {
            m2.insert((pos.0, (pos.1 + 1) as usize), border.right_top_corner->0)
        } else {
            m2
        };
        if border.right_bottom_corner is Some {
            m3.insert(((pos.0 + 1) as usize, (pos.1 + 1) as usize), border.right_bottom_corner->0)
        } else {
            m3
        }
    }

    /// Pins each present piece of `border` to the cell at `pos`: top and
    /// bottom to the horizontal lines above and below it, left and right to
    /// the vertical lines beside it, the corners to the four intersections.
    pub fn override_border(&mut self, pos: Position, border: Border)
        requires
            old(self).wf(),
            pos.0 < usize::MAX,
            pos.1 < usize::MAX,
        ensures
            final(self).wf(),
            final(self).borders == old(self).borders,
            final(self).lines@ == old(self).lines@,
            final(self).vertical@ == Theme::spec_override_vertical(old(self).vertical@, pos, border),
            final(self).horizontal@ == Theme::spec_override_horizontal(old(self).horizontal@, pos, border),
            final(self).intersection@ == Theme::spec_override_intersection(old(self).intersection@, pos, border),
    {
        let Border {
            top,
            bottom,
            left,
            left_top_corner,
            left_bottom_corner,
            right,
            right_top_corner,
            right_bottom_corner,
        } = border;
        if let Some(c) = top {
            self.horizontal.insert(pos, c);
        }
        if let Some(c) = bottom {
            self.horizontal.insert((pos.0 + 1, pos.1), c);
        }
        if let Some(c) = left {
            self.vertical.insert(pos, c);
        }
        if let Some(c) = right {
            self.vertical.insert((pos.0, pos.1 + 1), c);
        }
        if let Some(c) = left_top_corner {
            self.intersection.insert((pos.0, pos.1), c);
        }
        if let Some(c) = left_bottom_corner {
            self.intersection.insert((pos.0 + 1, pos.1), c);
        }
        if let Some(c) = right_top_corner {
            self.intersection.insert((pos.0, pos.1 + 1), c);
        }
        if let Some(c) = right_bottom_corner {
            self.intersection.insert((pos.0 + 1, pos.1 + 1), c);
        }
    }

    /// The vertical piece on the line left of column `pos.1` at row `pos.0`.
    pub open spec fn spec_vertical(&self, pos: Position, count_cols: usize) -> Option<Symbol> {
        if self.vertical@.contains_key(pos) {
            Some(self.vertical@[pos])
        } else if pos.1 == count_cols {
            self.borders.vertical_right
        } else if pos.1 == 0 {
            self.borders.vertical_left
        } else {
            self.borders.vertical_intersection
        }
    }

    /// The vertical piece at `pos`: an override there, else the theme's
    /// right, left or inner vertical.
    pub fn get_vertical(&self, pos: Position, count_cols: usize) -> (r: Option<Symbol>)
        requires
            self.wf(),
        ensures
            r == self.spec_vertical(pos, count_cols),
    {
        if let Some(b) = self.vertical.get(&pos) {
            return Some(b.clone());
        }
        if pos.1 == count_cols {
            clone_symbol(&self.borders.vertical_right)
        } else if pos.1 == 0 {
            clone_symbol(&self.borders.vertical_left)
        } else {
            clone_symbol(&self.borders.vertical_intersection)
        }
    }

    /// The horizontal piece on the line above row `pos.0` at column `pos.1`.
    pub open spec fn spec_horizontal(&self, pos: Position, count_rows: usize) -> Option<Symbol> {
        if self.horizontal@.contains_key(pos) {
            Some(self.horizontal@[pos])
        } else if self.lines@.contains_key(pos.0) && self.lines@[pos.0].horizontal is Some {
            self.lines@[pos.0].horizontal
        } else if pos.0 == 0 {
            self.borders.top
        } else if pos.0 == count_rows {
            self.borders.bottom
        } else {
            self.borders.horizontal
        }
    }

    /// The horizontal piece at `pos`: an override there, else the split
    /// line's, else the theme's top, bottom or inner horizontal.
    pub fn get_horizontal(&self, pos: Position, count_rows: usize) -> (r: Option<Symbol>)
        requires
            self.wf(),
        ensures
            r == self.spec_horizontal(pos, count_rows),
    {
        if let Some(b) = self.horizontal.get(&pos) {
            return Some(b.clone());
        }
        if let Some(line) = self.lines.get(&pos.0) {
            if line.horizontal.is_some() {
                return clone_symbol(&line.horizontal);
            }
        }
        if pos.0 == 0 {
            clone_symbol(&self.borders.top)
        } else if pos.0 == count_rows {
            clone_symbol(&self.borders.bottom)
        } else {
            clone_symbol(&self.borders.horizontal)
        }
    }

    /// The theme's own intersection at `pos`, by where it lies on the frame.
    pub open spec fn base_intersection(&self, pos: Position, count_rows: usize, count_cols: usize) -> Option<Symbol> {
        let use_top = pos.0 == 0;
        let use_bottom = pos.0 == count_rows;
        let use_left = pos.1 == 0;
        let use_right = pos.1 == count_cols;
        if use_top && use_left {
            self.borders.top_left
        } else if use_top && use_right {
            self.borders.top_right
        } else if use_bottom && use_left {
            self.borders.bottom_left
        } else if use_bottom && use_right {
            self.borders.bottom_right
        } else if use_top {
            self.borders.top_intersection
        } else if use_bottom {
            self.borders.bottom_intersection
        } else if use_left {
            self.borders.horizontal_left
        } else if use_right {
            self.borders.horizontal_right
        } else {
            self.borders.intersection
        }
    }

    /// The intersection at `pos`: an override there, else the split line's
    /// left, right or inner intersection, else the theme's.
    pub open spec fn spec_intersection(&self, pos: Position, count_rows: usize, count_cols: usize) -> Option<Symbol> {
        let use_left = pos.1 == 0;
        let use_right = pos.1 == count_cols;
        if self.intersection@.contains_key(pos) {
            Some(self.intersection@[pos])
        } else if self.lines@.contains_key(pos.0) && use_left && self.lines@[pos.0].left is Some {
            self.lines@[pos.0].left
        } else if self.lines@.contains_key(pos.0) && use_right && self.lines@[pos.0].right is Some {
            self.lines@[pos.0].right
        } else if self.lines@.contains_key(pos.0) && !use_right && !use_left
            && self.lines@[pos.0].intersection is Some {
            self.lines@[pos.0].intersection
        } else {
            self.base_intersection(pos, count_rows, count_cols)
        }
    }

    pub fn get_intersection(&self, pos: Position, count_rows: usize, count_cols: usize) -> (r: Option<Symbol>)
        requires
            self.wf(),
        ensures
            r == self.spec_intersection(pos, count_rows, count_cols),
    {
        let use_top = pos.0 == 0;
        let use_bottom = pos.0 == count_rows;
        let use_left = pos.1 == 0;
        let use_right = pos.1 == count_cols;

        if let Some(b) = self.intersection.get(&pos) {
            return Some(b.clone());
        }
        if let Some(line) = self.lines.get(&pos.0) {
            if use_left && line.left.is_some() {
                return clone_symbol(&line.left);
            }
            if use_right && line.right.is_some() {
                return clone_symbol(&line.right);
            }
            if !use_right && !use_left && line.intersection.is_some() {
                return clone_symbol(&line.intersection);
            }
        }
        if use_top && use_left {
            clone_symbol(&self.borders.top_left)
        } else if use_top && use_right {
            clone_symbol(&self.borders.top_right)
        } else if use_bottom && use_left {
            clone_symbol(&self.borders.bottom_left)
        } else if use_bottom && use_right {
            clone_symbol(&self.borders.bottom_right)
        } else if use_top {
            clone_symbol(&self.borders.top_intersection)
        } else if use_bottom {
            clone_symbol(&self.borders.bottom_intersection)
        } else if use_left {
            clone_symbol(&self.borders.horizontal_left)
        } else if use_right {
            clone_symbol(&self.borders.horizontal_right)
        } else {
            clone_symbol(&self.borders.intersection)
        }
    }

    /// The looked-up value of an optional map entry.
    pub open spec fn entry(m: Map<Position, Symbol>, k: Position) -> Option<Symbol> {
        if m.contains_key(k) {
            Some(m[k])
        } else {
            None
        }
    }

    /// The pieces pinned to the cell at `pos`, where any is.
    pub open spec fn spec_override_border(&self, pos: Position) -> Option<Border> {
        let below = (pos.0 + 1) as usize;
        let beside = (pos.1 + 1) as usize;
        let b = Border {
            top: Theme::entry(self.horizontal@, pos),
            bottom: Theme::entry(self.horizontal@, (below, pos.1)),
            left: Theme::entry(self.vertical@, pos),
            left_top_corner: Theme::entry(self.intersection@, pos),
            left_bottom_corner: Theme::entry(self.intersection@, (below, pos.1)),
            right: Theme::entry(self.vertical@, (pos.0, beside)),
            right_top_corner: Theme::entry(self.intersection@, (pos.0, beside)),
            right_bottom_corner: Theme::entry(self.intersection@, (below, beside)),
        };
        if b.top is Some || b.bottom is Some || b.left is Some || b.right is Some
            || b.left_top_corner is Some || b.left_bottom_corner is Some
            || b.right_top_corner is Some || b.right_bottom_corner is Some {
            Some(b)
        } else {
            None
        }
    }

    fn lookup(m: &KeyedMap<Position, Symbol>, k: Position) -> (r: Option<Symbol>)
        requires
            m.wf(),
        ensures
            r == Theme::entry(m@, k),
    {
        match m.get(&k) {
            Some(c) => Some(c.clone()),
            None => None,
        }
    }

    pub fn get_override_border(&self, pos: &Position) -> (r: Option<Border>)
        requires
            self.wf(),
            pos.0 < usize::MAX,
            pos.1 < usize::MAX,
        ensures
            r == self.spec_override_border(*pos),
    {
        let top = Theme::lookup(&self.horizontal, *pos);
        let bottom = Theme::lookup(&self.horizontal, (pos.0 + 1, pos.1));
        let left = Theme::lookup(&self.vertical, *pos);
        let right = Theme::lookup(&self.vertical, (pos.0, pos.1 + 1));
        let left_top = Theme::lookup(&self.intersection, *pos);
        let left_bottom = Theme::lookup(&self.intersection, (pos.0 + 1, pos.1));
        let right_top = Theme::lookup(&self.intersection, (pos.0, pos.1 + 1));
        let right_bottom = Theme::lookup(&self.intersection, (pos.0 + 1, pos.1 + 1));

        if top.is_some() || bottom.is_some() || left.is_some() || right.is_some()
            || left_top.is_some() || left_bottom.is_some() || right_top.is_some()
            || right_bottom.is_some() {
            return Some(
                Border {
                    top,
                    bottom,
                    left,
                    left_top_corner: left_top,
                    left_bottom_corner: left_bottom,
                    right,
                    right_top_corner: right_top,
                    right_bottom_corner: right_bottom,
                },
            );
        }
        None
    }

    /// The theme's own pieces for the cell at `pos`, by where it lies.
    pub open spec fn base_border(&self, pos: Position, count_rows: usize, count_cols: usize) -> Border {
        let is_first_row = pos.0 == 0;
        let is_last_row = pos.0 + 1 == count_rows;
        let is_first_col = pos.1 == 0;
        let is_last_col = pos.1 + 1 == count_cols;
        let b = self.borders;
        Border {
            top: if is_first_row { b.top } else { b.horizontal },
            bottom: if is_last_row { b.bottom } else { b.horizontal },
            left: if is_first_col { b.vertical_left } else { b.vertical_intersection },
            left_top_corner: if is_first_row && is_first_col {
                b.top_left
            } else if is_first_col {
                b.horizontal_left
            } else {
                b.intersection
            },
            left_bottom_corner: if is_last_row && is_first_col {
                b.bottom_left
            } else if is_first_col {
                b.horizontal_left
            } else {
                b.intersection
            },
            right: if is_last_col { b.vertical_right } else { b.vertical_intersection },
            right_top_corner: if is_first_row && is_last_col {
                b.top_right
            } else if is_last_col {
                b.horizontal_right
            } else {
                b.intersection
            },
            right_bottom_corner: if is_last_row && is_last_col {
                b.bottom_right
            } else if is_last_col {
                b.horizontal_right
            } else {
                b.intersection
            },
        }
    }

    /// `border` with the split line `line` drawn over its top edge.
    pub open spec fn line_over_top(border: Border, line: Line, is_first_col: bool, is_last_col: bool) -> Border {
        Border {
            top: or_symbol(line.horizontal, border.top),
            left_top_corner: or_symbol(
                if is_first_col { line.left } else { line.intersection },
                border.left_top_corner,
            ),
            right_top_corner: or_symbol(
                if is_last_col { line.right } else { line.intersection },
                border.right_top_corner,
            ),
            ..border
        }
    }

    /// `border` with the split line `line` drawn over its bottom edge.
    pub open spec fn line_over_bottom(border: Border, line: Line, is_first_col: bool, is_last_col: bool) -> Border {
        Border {
            bottom: or_symbol(line.horizontal, border.bottom),
            left_bottom_corner: or_symbol(
                if is_first_col { line.left } else { line.intersection },
                border.left_bottom_corner,
            ),
            right_bottom_corner: or_symbol(
                if is_last_col { line.right } else { line.intersection },
                border.right_bottom_corner,
            ),
            ..border
        }
    }

    /// `border` with the present pieces of `o` laid over it.
    pub open spec fn overlay(border: Border, o: Border) -> Border {
        Border {
            top: or_symbol(o.top, border.top),
            bottom: or_symbol(o.bottom, border.bottom),
            left: or_symbol(o.left, border.left),
            left_top_corner: or_symbol(o.left_top_corner, border.left_top_corner),
            left_bottom_corner: or_symbol(o.left_bottom_corner, border.left_bottom_corner),
            right: or_symbol(o.right, border.right),
            right_top_corner: or_symbol(o.right_top_corner, border.right_top_corner),
            right_bottom_corner: or_symbol(o.right_bottom_corner, border.right_bottom_corner),
        }
    }

    /// The border of the cell at `pos`: the theme's pieces, then the split
    /// lines above and below the cell, then the pieces pinned to the cell.
    pub open spec fn spec_border(&self, pos: Position, count_rows: usize, count_cols: usize) -> Border {
        let is_first_col = pos.1 == 0;
        let is_last_col = pos.1 + 1 == count_cols;
        let b0 = self.base_border(pos, count_rows, count_cols);
        let b1 = if self.lines@.contains_key(pos.0) {
            Theme::line_over_top(b0, self.lines@[pos.0], is_first_col, is_last_col)
        } else {
            b0
        };
        let below = (pos.0 + 1) as usize;
        let b2 = if self.lines@.contains_key(below) {
            Theme::line_over_bottom(b1, self.lines@[below], is_first_col, is_last_col)
        } else {
            b1
        };
        match self.spec_override_border(pos) {
            Some(o) => Theme::overlay(b2, o),
            None => b2,
        }
    }

    pub fn get_border(&self, pos: Position, count_rows: usize, count_cols: usize) -> (r: Border)
        requires
            self.wf(),
            pos.0 < usize::MAX,
            pos.1 < usize::MAX,
        ensures
            r == self.spec_border(pos, count_rows, count_cols),
    {
        let is_first_row = pos.0 == 0;
        let is_last_row = pos.0 + 1 == count_rows;
        let is_first_col = pos.1 == 0;
        let is_last_col = pos.1 + 1 == count_cols;
        let b = &self.borders;

        let top = if is_first_row { &b.top } else { &b.horizontal };
        let bottom = if is_last_row { &b.bottom } else { &b.horizontal };
        let left = if is_first_col { &b.vertical_left } else { &b.vertical_intersection };
        let left_top_corner = if is_first_row && is_first_col {
            &b.top_left
        } else if is_first_col {
            &b.horizontal_left
        } else {
            &b.intersection
        };
        let left_bottom_corner = if is_last_row && is_first_col {
            &b.bottom_left
        } else if is_first_col {
            &b.horizontal_left
        } else {
            &b.intersection
        };
        let right = if is_last_col { &b.vertical_right } else { &b.vertical_intersection };
        let right_top_corner = if is_first_row && is_last_col {
            &b.top_right
        } else if is_last_col {
            &b.horizontal_right
        } else {
            &b.intersection
        };
        let right_bottom_corner = if is_last_row && is_last_col {
            &b.bottom_right
        } else if is_last_col {
            &b.horizontal_right
        } else {
            &b.intersection
        };

        let mut border = Border {
            top: clone_symbol(top),
            bottom: clone_symbol(bottom),
            left: clone_symbol(left),
            left_top_corner: clone_symbol(left_top_corner),
            left_bottom_corner: clone_symbol(left_bottom_corner),
            right: clone_symbol(right),
            right_top_corner: clone_symbol(right_top_corner),
            right_bottom_corner: clone_symbol(right_bottom_corner),
        };
        assert(border == self.base_border(pos, count_rows, count_cols));

        if let Some(line) = self.lines.get(&pos.0) {
            border.top = or_else(&line.horizontal, border.top);
            if is_first_col {
                border.left_top_corner = or_else(&line.left, border.left_top_corner);
            } else {
                border.left_top_corner = or_else(&line.intersection, border.left_top_corner);
            }
            if is_last_col {
                border.right_top_corner = or_else(&line.right, border.right_top_corner);
            } else {
                border.right_top_corner = or_else(&line.intersection, border.right_top_corner);
            }
        }

        if let Some(line) = self.lines.get(&(pos.0 + 1)) {
            border.bottom = or_else(&line.horizontal, border.bottom);
            if is_first_col {
                border.left_bottom_corner = or_else(&line.left, border.left_bottom_corner);
            } else {
                border.left_bottom_corner = or_else(&line.intersection, border.left_bottom_corner);
            }
            if is_last_col {
                border.right_bottom_corner = or_else(&line.right, border.right_bottom_corner);
            } else {
                border.right_bottom_corner = or_else(&line.intersection, border.right_bottom_corner);
            }
        }

        if let Some(o) = self.get_override_border(&pos) {
            border.top = or_else(&o.top, border.top);
            border.bottom = or_else(&o.bottom, border.bottom);
            border.left = or_else(&o.left, border.left);
            border.left_top_corner = or_else(&o.left_top_corner, border.left_top_corner);
            border.left_bottom_corner = or_else(&o.left_bottom_corner, border.left_bottom_corner);
            border.right = or_else(&o.right, border.right);
            border.right_top_corner = or_else(&o.right_top_corner, border.right_top_corner);
            border.right_bottom_corner = or_else(&o.right_bottom_corner, border.right_bottom_corner);
        }
        border
    }

    /// The override maps after `border` is pinned to each of `ps` in turn.
    pub open spec fn override_all(
        maps: (Map<Position, Symbol>, Map<Position, Symbol>, Map<Position, Symbol>),
        ps: Seq<Position>,
        border: Border,
    ) -> (Map<Position, Symbol>, Map<Position, Symbol>, Map<Position, Symbol>)
        decreases ps.len(),
    {
        if ps.len() == 0 {
            maps
        } else {
            let m = Theme::override_all(maps, ps.drop_last(), border);
            let p = ps.last();
            (
                Theme::spec_override_vertical(m.0, p, border),
                Theme::spec_override_horizontal(m.1, p, border),
                Theme::spec_override_intersection(m.2, p, border),
            )
        }
    }

    proof fn lemma_override_union(m: Map<Position, Symbol>, p: Position, b: Border)
        ensures
            Theme::spec_override_vertical(m, p, b) == m.union_prefer_right(
                Theme::spec_override_vertical(Map::empty(), p, b),
            ),
            Theme::spec_override_horizontal(m, p, b) == m.union_prefer_right(
                Theme::spec_override_horizontal(Map::empty(), p, b),
            ),
            Theme::spec_override_intersection(m, p, b) == m.union_prefer_right(
                Theme::spec_override_intersection(Map::empty(), p, b),
            ),
    {
        assert(Theme::spec_override_vertical(m, p, b) =~= m.union_prefer_right(
            Theme::spec_override_vertical(Map::empty(), p, b),
        ));
        assert(Theme::spec_override_horizontal(m, p, b) =~= m.union_prefer_right(
            Theme::spec_override_horizontal(Map::empty(), p, b),
        ));
        assert(Theme::spec_override_intersection(m, p, b) =~= m.union_prefer_right(
            Theme::spec_override_intersection(Map::empty(), p, b),
        ));
    }

    proof fn lemma_union_assoc(a: Map<Position, Symbol>, b: Map<Position, Symbol>, c: Map<Position, Symbol>)
        ensures
            a.union_prefer_right(b).union_prefer_right(c) == a.union_prefer_right(b.union_prefer_right(c)),
    {
        assert(a.union_prefer_right(b).union_prefer_right(c) =~= a.union_prefer_right(b.union_prefer_right(c)));
    }

    /// Pinning borders to positions lays the pieces written from empty maps
    /// over the maps given.
    proof fn lemma_override_all_union(
        maps: (Map<Position, Symbol>, Map<Position, Symbol>, Map<Position, Symbol>),
        ps: Seq<Position>,
        b: Border,
    )
        ensures
            ({
                let w = Theme::override_all((Map::empty(), Map::empty(), Map::empty()), ps, b);
                Theme::override_all(maps, ps, b) == (
                    maps.0.union_prefer_right(w.0),
                    maps.1.union_prefer_right(w.1),
                    maps.2.union_prefer_right(w.2),
                )
            }),
        decreases ps.len(),
    {
        let e = (Map::<Position, Symbol>::empty(), Map::<Position, Symbol>::empty(), Map::<Position, Symbol>::empty());
        if ps.len() == 0 {
            assert(maps.0.union_prefer_right(Map::empty()) =~= maps.0);
            assert(maps.1.union_prefer_right(Map::empty()) =~= maps.1);
            assert(maps.2.union_prefer_right(Map::empty()) =~= maps.2);
        } else {
            let prev = ps.drop_last();
            let p = ps.last();
            Theme::lemma_override_all_union(maps, prev, b);
            let w1 = Theme::override_all(e, prev, b);
            let m1 = Theme::override_all(maps, prev, b);
            Theme::lemma_override_union(m1.0, p, b);
            Theme::lemma_override_union(m1.1, p, b);
            Theme::lemma_override_union(m1.2, p, b);
            Theme::lemma_override_union(w1.0, p, b);
            Theme::lemma_override_union(w1.1, p, b);
            Theme::lemma_override_union(w1.2, p, b);
            Theme::lemma_union_assoc(maps.0, w1.0, Theme::spec_override_vertical(Map::empty(), p, b));
            Theme::lemma_union_assoc(maps.1, w1.1, Theme::spec_override_horizontal(Map::empty(), p, b));
            Theme::lemma_union_assoc(maps.2, w1.2, Theme::spec_override_intersection(Map::empty(), p, b));
        }
    }

    /// Pinning the same border to the same positions twice changes nothing
    /// more than doing it once.
    pub proof fn lemma_override_all_idempotent(
        maps: (Map<Position, Symbol>, Map<Position, Symbol>, Map<Position, Symbol>),
        ps: Seq<Position>,
        b: Border,
    )
        ensures
            Theme::override_all(Theme::override_all(maps, ps, b), ps, b) == Theme::override_all(maps, ps, b),
    {
        let e = (Map::<Position, Symbol>::empty(), Map::<Position, Symbol>::empty(), Map::<Position, Symbol>::empty());
        let w = Theme::override_all(e, ps, b);
        let once = Theme::override_all(maps, ps, b);
        Theme::lemma_override_all_union(maps, ps, b);
        Theme::lemma_override_all_union(once, ps, b);
        Theme::lemma_union_assoc(maps.0, w.0, w.0);
        Theme::lemma_union_assoc(maps.1, w.1, w.1);
        Theme::lemma_union_assoc(maps.2, w.2, w.2);
        assert(w.0.union_prefer_right(w.0) =~= w.0);
        assert(w.1.union_prefer_right(w.1) =~= w.1);
        assert(w.2.union_prefer_right(w.2) =~= w.2);
    }

    /// The three override maps.
    pub open spec fn override_maps(&self) -> (Map<Position, Symbol>, Map<Position, Symbol>, Map<Position, Symbol>) {
        (self.vertical@, self.horizontal@, self.intersection@)
    }

    /// Pins the pieces of `border` to each position of `ps` in turn.
    pub fn override_positions(&mut self, ps: &Vec<Position>, border: &Border)
        requires
            old(self).wf(),
            forall|i: int| 0 <= i < ps@.len() ==> ps@[i].0 < usize::MAX && ps@[i].1 < usize::MAX,
        ensures
            final(self).wf(),
            final(self).borders == old(self).borders,
            final(self).lines@ == old(self).lines@,
            final(self).override_maps() == Theme::override_all(old(self).override_maps(), ps@, *border),
    {
        let ghost start = self.override_maps();
        let mut i: usize = 0;
        while i < ps.len()
            invariant
                i <= ps@.len(),
                self.wf(),
                self.borders == old(self).borders,
                self.lines@ == old(self).lines@,
                start == old(self).override_maps(),
                forall|j: int| 0 <= j < ps@.len() ==> ps@[j].0 < usize::MAX && ps@[j].1 < usize::MAX,
                self.override_maps() == Theme::override_all(start, ps@.take(i as int), *border),
            decreases ps.len() - i,
        {
            assert(ps@.take(i + 1).drop_last() =~= ps@.take(i as int));
            self.override_border(ps[i], border.clone());
            i = i + 1;
        }
        assert(ps@.take(i as int) =~= ps@);
    }

    /// A copy of the theme.
    pub fn copy(&self) -> (r: Self)
        requires
            self.wf(),
        ensures
            r.wf(),
            r.borders == self.borders,
            r.override_maps() == self.override_maps(),
            r.lines@ == self.lines@,
    {
        Theme {
            borders: self.borders.clone(),
            vertical: self.vertical.copy(),
            horizontal: self.horizontal.copy(),
            intersection: self.intersection.copy(),
            lines: self.lines.copy(),
        }
    }

    /// Sets the split line above `row`.
    pub fn override_line(&mut self, row: usize, line: Line)
        requires
            old(self).wf(),
        ensures
            final(self).wf(),
            final(self).borders == old(self).borders,
            final(self).vertical@ == old(self).vertical@,
            final(self).horizontal@ == old(self).horizontal@,
            final(self).intersection@ == old(self).intersection@,
            final(self).lines@ == old(self).lines@.insert(row, line),
    {
        self.lines.insert(row, line);
    }
}

} // verus!
