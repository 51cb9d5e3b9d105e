//! The grid: a fixed rectangle of text cells with styles, a border theme,
//! a margin and split-line texts.

use vstd::prelude::*;
use crate::border::{Border, Borders, Line, Symbol};
use crate::keyed::KeyedMap;
use crate::settings::{applied_style, changes_style, Settings};
use crate::style::{default_style, entity_covers, Entity, Margin, Style, no_indent};
use crate::theme::{Position, Theme};
use crate::border::spec_default_borders;

verus! {

/// Whether `e` addresses only cells inside a `rows` by `cols` grid.
pub open spec fn entity_in_range(e: Entity, rows: nat, cols: nat) -> bool {
    match e {
        Entity::Global => true,
        Entity::Column(c) => c < cols,
        Entity::Row(r) => r < rows,
        Entity::Cell(r, c) => r < rows && c < cols,
    }
}

/// Whether `e` addresses the cell at (r, c).
pub open spec fn entity_contains(e: Entity, r: int, c: int) -> bool {
    match e {
        Entity::Global => true,
        Entity::Column(c2) => c2 == c,
        Entity::Row(r2) => r2 == r,
        Entity::Cell(r2, c2) => r2 == r && c2 == c,
    }
}

/// The cells `e` addresses, in the order borders are pinned to them:
/// column by column for the whole grid.
pub open spec fn entity_positions(e: Entity, rows: nat, cols: nat) -> Seq<Position> {
    match e {
        Entity::Global => global_positions(rows, cols),
        Entity::Column(c) => Seq::new(rows, |r: int| (r as usize, c)),
        Entity::Row(r) => Seq::new(cols, |c: int| (r, c as usize)),
        Entity::Cell(r, c) => seq![(r, c)],
    }
}

/// All cells of a `rows` by `cols` grid, column by column.
pub open spec fn global_positions(rows: nat, cols: nat) -> Seq<Position>
    decreases cols,
{
    if cols == 0 {
        Seq::empty()
    } else {
        global_positions(rows, (cols - 1) as nat) + Seq::new(rows, |r: int| (r as usize, (cols - 1) as usize))
    }
}

/// The style entries of `m` that survive a style written for `e`.
pub open spec fn kept_entries(m: Map<Entity, Style>, e: Entity) -> Map<Entity, Style> {
    Map::new(|k: Entity| m.contains_key(k) && !entity_covers(e, k), |k: Entity| m[k])
}

fn set_cell(cells: &mut Vec<Vec<String>>, r: usize, c: usize, s: String)
    requires
        r < old(cells)@.len(),
        c < old(cells)@[r as int]@.len(),
    ensures
        final(cells)@.len() == old(cells)@.len(),
        forall|i: int| 0 <= i < old(cells)@.len() && i != r ==> #[trigger] final(cells)@[i] == old(cells)@[i],
        final(cells)@[r as int]@ == old(cells)@[r as int]@.update(c as int, s),
{
    let row = &mut cells[r];
    row.set(c, s);
}

/// The style `e` resolves to among the entries `m` and the grid-wide
/// style: its own entry, else (for a cell) its column's, else its row's,
/// else the grid-wide style.
pub open spec fn resolve_style(global: Style, m: Map<Entity, Style>, e: Entity) -> Style {
    match e {
        Entity::Global => global,
        Entity::Column(c) => if m.contains_key(e) { m[e] } else { global },
        Entity::Row(r) => if m.contains_key(e) { m[e] } else { global },
        Entity::Cell(r, c) => if m.contains_key(e) {
            m[e]
        } else if m.contains_key(Entity::Column(c)) {
            m[Entity::Column(c)]
        } else if m.contains_key(Entity::Row(r)) {
            m[Entity::Row(r)]
        } else {
            global
        },
    }
}

/// The grid-wide style and the style entries after settings `s` are
/// written for `e`: the resolved style of `e` with the supplied fields, and
/// the entries that survive it.
pub open spec fn restyled(global: Style, m: Map<Entity, Style>, e: Entity, s: Settings) -> (Style, Map<Entity, Style>) {
    if !changes_style(s) {
        (global, m)
    } else {
        let style = applied_style(resolve_style(global, m, e), s);
        let kept = kept_entries(m, e);
        if e == Entity::Global {
            (style, kept)
        } else {
            (global, kept.insert(e, style))
        }
    }
}

/// The text of the cell at (r, c) after settings `s` are applied to `e`.
pub open spec fn text_after(t: Seq<char>, e: Entity, s: Settings, r: int, c: int) -> Seq<char> {
    if s.text is Some && entity_contains(e, r, c) {
        s.text->0@
    } else {
        t
    }
}

/// `g1` is the grid `g0` after `set(e, s)`.
pub open spec fn set_result(g0: Grid, e: Entity, s: Settings, g1: Grid) -> bool {
    &&& g1.wf()
    &&& g1.size == g0.size
    &&& forall|r: int, c: int|
        0 <= r < g0.rows() && 0 <= c < g0.cols() ==> #[trigger] g1.cell_text(r, c) == text_after(g0.cell_text(r, c), e, s, r, c)
    &&& (g1.global, g1.styles@) == restyled(g0.global, g0.styles@, e, s)
    &&& g1.theme.override_maps() == if s.border is Some {
        Theme::override_all(g0.theme.override_maps(), entity_positions(e, g0.rows(), g0.cols()), s.border->0)
    } else {
        g0.theme.override_maps()
    }
    &&& g1.theme.borders == g0.theme.borders
    &&& g1.theme.lines@ == g0.theme.lines@
    &&& g1.margin == g0.margin
    &&& g1.override_split_lines == g0.override_split_lines
}

/// A grid of text cells. Its methods keep `wf`: one text per cell, and
/// style entries for columns, rows and cells besides the grid-wide style.
pub struct Grid {
    /// (rows, columns), fixed at construction.
    pub size: (usize, usize),
    /// The text of each cell, row by row.
    pub cells: Vec<Vec<String>>,
    /// The style every cell falls back to.
    pub global: Style,
    /// Style entries of columns, rows and cells.
    pub styles: KeyedMap<Entity, Style>,
    pub margin: Margin,
    pub theme: Theme,
    /// Texts written over the split line above a row.
    pub override_split_lines: KeyedMap<usize, String>,
}

impl Grid {
    pub open spec fn rows(&self) -> nat {
        self.size.0 as nat
    }

    pub open spec fn cols(&self) -> nat {
        self.size.1 as nat
    }

    /// The text of the cell at (r, c).
    pub open spec fn cell_text(&self, r: int, c: int) -> Seq<char> {
        self.cells@[r]@[c]@
    }

    /// The style entries kept besides the grid-wide one.
    pub open spec fn style_entries(&self) -> Map<Entity, Style> {
        self.styles@
    }

    /// The split-line texts by row.
    pub open spec fn split_texts(&self) -> Map<usize, String> {
        self.override_split_lines@
    }

    pub open spec fn wf(&self) -> bool {
        &&& self.cells@.len() == self.rows()
        &&& forall|r: int| 0 <= r < self.rows() ==> #[trigger] self.cells@[r]@.len() == self.cols()
        &&& self.styles.wf()
        &&& !self.styles@.contains_key(Entity::Global)
        &&& self.theme.wf()
        &&& self.override_split_lines.wf()
    }

    /// The style `e` resolves to: its own entry, else (for a cell) its
    /// column's, else its row's, else the grid-wide style.
    pub open spec fn spec_style(&self, e: Entity) -> Style {
        resolve_style(self.global, self.styles@, e)
    }

    /// A grid of `rows` by `columns` empty cells with the default style,
    /// theme and margin. Its size never changes.
    pub fn new(rows: usize, columns: usize) -> (r: Self)
        ensures
            r.wf(),
            r.rows() == rows,
            r.cols() == columns,
            forall|i: int, j: int| 0 <= i < rows && 0 <= j < columns ==> r.cell_text(i, j).len() == 0,
            r.global == default_style(),
            r.style_entries() == Map::<Entity, Style>::empty(),
            r.margin == (Margin { top: no_indent(), bottom: no_indent(), left: no_indent(), right: no_indent() }),
            r.theme.borders == spec_default_borders(),
            r.theme.override_maps() == (
                Map::<Position, Symbol>::empty(),
                Map::<Position, Symbol>::empty(),
                Map::<Position, Symbol>::empty(),
            ),
            r.theme.lines@ == Map::<usize, Line>::empty(),
            r.split_texts() == Map::<usize, String>::empty(),
    {
        let mut cells: Vec<Vec<String>> = Vec::new();
        let mut i: usize = 0;
        while i < rows
            invariant
                i <= rows,
                cells@.len() == i,
                forall|a: int| 0 <= a < i ==> #[trigger] cells@[a]@.len() == columns,
                forall|a: int, b: int| 0 <= a < i && 0 <= b < columns ==> cells@[a]@[b]@.len() == 0,
            decreases rows - i,
        {
            let mut row: Vec<String> = Vec::new();
            let mut j: usize = 0;
            while j < columns
                invariant
                    j <= columns,
                    row@.len() == j,
                    forall|b: int| 0 <= b < j ==> row@[b]@.len() == 0,
                decreases columns - j,
            {
                row.push(String::new());
                j = j + 1;
            }
            cells.push(row);
            i = i + 1;
        }
        Grid {
            size: (rows, columns),
            cells,
            global: Style::default(),
            styles: KeyedMap::new(),
            margin: Margin::default(),
            theme: Theme::new(),
            override_split_lines: KeyedMap::new(),
        }
    }

    /// The number of rows.
    pub fn count_rows(&self) -> (r: usize)
        ensures
            r == self.rows(),
    {
        self.size.0
    }

    /// The number of columns.
    pub fn count_columns(&self) -> (r: usize)
        ensures
            r == self.cols(),
    {
        self.size.1
    }

    /// Sets the margin.
    pub fn margin(&mut self, margin: Margin)
        ensures
            *final(self) == (Grid { margin, ..*old(self) }),
    {
        self.margin = margin
    }

    /// The margin.
    pub fn get_margin(&self) -> (r: &Margin)
        ensures
            *r == self.margin,
    {
        &self.margin
    }

    /// The base borders of the theme.
    pub fn get_borders(&self) -> (r: &Borders)
        ensures
            *r == self.theme.borders,
    {
        &self.theme.borders
    }

    /// Replaces the base borders of the theme.
    pub fn set_borders(&mut self, borders: Borders)
        ensures
            final(self).theme.borders == borders,
            final(self).theme.override_maps() == old(self).theme.override_maps(),
            final(self).theme.lines@ == old(self).theme.lines@,
            final(self).theme.wf() == old(self).theme.wf(),
            final(self).size == old(self).size,
            final(self).cells == old(self).cells,
            final(self).global == old(self).global,
            final(self).styles == old(self).styles,
            final(self).margin == old(self).margin,
            final(self).override_split_lines == old(self).override_split_lines,
    {
        self.theme.borders = borders;
    }

    /// Resets the theme to the default and drops all split-line texts.
    pub fn clear_theme(&mut self)
        requires
            old(self).wf(),
        ensures
            final(self).wf(),
            final(self).theme.borders == spec_default_borders(),
            final(self).theme.override_maps() == (
                Map::<Position, Symbol>::empty(),
                Map::<Position, Symbol>::empty(),
                Map::<Position, Symbol>::empty(),
            ),
            final(self).theme.lines@ == Map::<usize, Line>::empty(),
            final(self).split_texts() == Map::<usize, String>::empty(),
            final(self).size == old(self).size,
            final(self).cells == old(self).cells,
            final(self).global == old(self).global,
            final(self).styles == old(self).styles,
            final(self).margin == old(self).margin,
    {
        self.theme = Theme::new();
        self.override_split_lines = KeyedMap::new();
    }

    /// Sets the split line above `row`.
    pub fn set_split_line(&mut self, row: usize, line: Line)
        requires
            old(self).wf(),
        ensures
            final(self).wf(),
            final(self).theme.lines@ == old(self).theme.lines@.insert(row, line),
            final(self).theme.borders == old(self).theme.borders,
            final(self).theme.override_maps() == old(self).theme.override_maps(),
            final(self).size == old(self).size,
            final(self).cells == old(self).cells,
            final(self).global == old(self).global,
            final(self).styles == old(self).styles,
            final(self).margin == old(self).margin,
            final(self).override_split_lines == old(self).override_split_lines,
    {
        self.theme.override_line(row, line)
    }

    /// Writes `line` over the start of the split line above `row`.
    pub fn override_split_line(&mut self, row: usize, line: &str)
        requires
            old(self).wf(),
        ensures
            final(self).wf(),
            final(self).split_texts().dom() == old(self).split_texts().dom().insert(row),
            final(self).split_texts()[row]@ == line@,
            forall|k: usize| k != row && old(self).split_texts().contains_key(k) ==> final(self).split_texts()[k]
                == old(self).split_texts()[k],
            final(self).size == old(self).size,
            final(self).cells == old(self).cells,
            final(self).global == old(self).global,
            final(self).styles == old(self).styles,
            final(self).margin == old(self).margin,
            final(self).theme == old(self).theme,
    {
        self.override_split_lines.insert(row, line.to_owned());
    }

    /// The text of the cell at (row, column), without any change.
    pub fn get_cell_content(&self, row: usize, column: usize) -> (r: &str)
        requires
            self.wf(),
            row < self.rows(),
            column < self.cols(),
        ensures
            r@ == self.cell_text(row as int, column as int),
    {
        self.cells[row][column].as_str()
    }

    /// The style `entity` resolves to.
    pub fn style(&self, entity: Entity) -> (r: &Style)
        requires
            self.wf(),
        ensures
            *r == self.spec_style(entity),
    {
        if let Some(s) = self.styles.get(&entity) {
            return s;
        }
        match entity {
            Entity::Cell(row, column) => {
                if let Some(s) = self.styles.get(&Entity::Column(column)) {
                    return s;
                }
                if let Some(s) = self.styles.get(&Entity::Row(row)) {
                    return s;
                }
                &self.global
            },
            _ => &self.global,
        }
    }

    /// Drops the style entries that a style written for `entity` replaces.
    pub fn remove_inherited_styles(&mut self, entity: Entity)
        requires
            old(self).wf(),
        ensures
            final(self).wf(),
            forall|k: Entity|
                #[trigger] final(self).style_entries().contains_key(k) == (old(self).style_entries().contains_key(k) && !entity_covers(entity, k)),
            forall|k: Entity|
                #[trigger] final(self).style_entries().contains_key(k) ==> final(self).style_entries()[k] == old(self).style_entries()[k],
            final(self).size == old(self).size,
            final(self).cells == old(self).cells,
            final(self).global == old(self).global,
            final(self).margin == old(self).margin,
            final(self).theme == old(self).theme,
            final(self).override_split_lines == old(self).override_split_lines,
    {
        self.styles.remove_covered(entity);
    }

    /// Sets the text of every cell `entity` addresses.
    pub fn set_text(&mut self, entity: Entity, text: &str)
        requires
            old(self).wf(),
            entity_in_range(entity, old(self).rows(), old(self).cols()),
        ensures
            final(self).wf(),
            forall|r: int, c: int|
                0 <= r < old(self).rows() && 0 <= c < old(self).cols() ==> #[trigger] final(self).cell_text(r, c)
                    == if entity_contains(entity, r, c) {
                    text@
                } else {
                    old(self).cell_text(r, c)
                },
            final(self).size == old(self).size,
            final(self).global == old(self).global,
            final(self).styles == old(self).styles,
            final(self).margin == old(self).margin,
            final(self).theme == old(self).theme,
            final(self).override_split_lines == old(self).override_split_lines,
    {
        let rows = self.size.0;
        let cols = self.size.1;
        let ghost start = *self;
        let mut r: usize = 0;
        while r < rows
            invariant
                r <= rows,
                rows == start.rows(),
                cols == start.cols(),
                start.wf(),
                self.wf(),
                entity_in_range(entity, start.rows(), start.cols()),
                self.size == start.size,
                self.global == start.global,
                self.styles == start.styles,
                self.margin == start.margin,
                self.theme == start.theme,
                self.override_split_lines == start.override_split_lines,
                forall|i: int, j: int|
                    0 <= i < rows && 0 <= j < cols ==> #[trigger] self.cell_text(i, j) == if i < r
                        && entity_contains(entity, i, j) {
                        text@
                    } else {
                        start.cell_text(i, j)
                    },
            decreases rows - r,
        {
            let mut c: usize = 0;
            while c < cols
                invariant
                    r < rows,
                    c <= cols,
                    rows == start.rows(),
                    cols == start.cols(),
                    self.wf(),
                    self.size == start.size,
                    self.global == start.global,
                    self.styles == start.styles,
                    self.margin == start.margin,
                    self.theme == start.theme,
                    self.override_split_lines == start.override_split_lines,
                    forall|i: int, j: int|
                        0 <= i < rows && 0 <= j < cols ==> #[trigger] self.cell_text(i, j) == if (i < r
                            || (i == r && j < c)) && entity_contains(entity, i, j) {
                            text@
                        } else {
                            start.cell_text(i, j)
                        },
                decreases cols - c,
            {
                let hit = match entity {
                    Entity::Global => true,
                    Entity::Column(c2) => c2 == c,
                    Entity::Row(r2) => r2 == r,
                    Entity::Cell(r2, c2) => r2 == r && c2 == c,
                };
                assert(hit == entity_contains(entity, r as int, c as int));
                if hit {
                    let ghost before = *self;
                    set_cell(&mut self.cells, r, c, text.to_owned());
                    assert forall|i: int| 0 <= i < rows implies #[trigger] self.cells@[i]@.len() == cols by {
                        if i != r {
                            assert(self.cells@[i] == before.cells@[i]);
                        }
                    }
                    assert forall|i: int, j: int|
                        0 <= i < rows && 0 <= j < cols implies #[trigger] self.cell_text(i, j) == if (i < r
                            || (i == r && j < c + 1)) && entity_contains(entity, i, j) {
                            text@
                        } else {
                            start.cell_text(i, j)
                        } by {
                        let prev = before.cell_text(i, j);
                        if i != r {
                            assert(self.cells@[i] == before.cells@[i]);
                        } else if j != c {
                            assert(self.cells@[i]@[j] == before.cells@[i]@[j]);
                        } else {
                            assert(self.cells@[i]@[j]@ == text@);
                        }
                    }
                }
                c = c + 1;
            }
            r = r + 1;
        }
    }

    /// The cells `entity` addresses, in the order borders are pinned.
    fn positions(&self, entity: Entity) -> (r: Vec<Position>)
        requires
            entity_in_range(entity, self.rows(), self.cols()),
        ensures
            r@ == entity_positions(entity, self.rows(), self.cols()),
            forall|i: int| 0 <= i < r@.len() ==> r@[i].0 < self.rows() && r@[i].1 < self.cols(),
    {
        let rows = self.size.0;
        let cols = self.size.1;
        let mut ps: Vec<Position> = Vec::new();
        match entity {
            Entity::Global => {
                let mut c: usize = 0;
                while c < cols
                    invariant
                        c <= cols,
                        rows == self.rows(),
                        cols == self.cols(),
                        ps@ == global_positions(rows as nat, c as nat),
                        forall|i: int| 0 <= i < ps@.len() ==> ps@[i].0 < rows && ps@[i].1 < c,
                    decreases cols - c,
                {
                    let ghost before = ps@;
                    let mut r: usize = 0;
                    while r < rows
                        invariant
                            r <= rows,
                            c < cols,
                            ps@ == before + Seq::new(r as nat, |i: int| (i as usize, c)),
                            forall|i: int| 0 <= i < before.len() ==> before[i].0 < rows && before[i].1 < c,
                        decreases rows - r,
                    {
                        ps.push((r, c));
                        r = r + 1;
                        assert(ps@ =~= before + Seq::new(r as nat, |i: int| (i as usize, c)));
                    }
                    c = c + 1;
                    assert(ps@ =~= global_positions(rows as nat, c as nat));
                }
            },
            Entity::Column(col) => {
                let mut r: usize = 0;
                while r < rows
                    invariant
                        r <= rows,
                        rows == self.rows(),
                        col < self.cols(),
                        ps@ == Seq::new(r as nat, |i: int| (i as usize, col)),
                    decreases rows - r,
                {
                    ps.push((r, col));
                    r = r + 1;
                    assert(ps@ =~= Seq::new(r as nat, |i: int| (i as usize, col)));
                }
            },
            Entity::Row(row) => {
                let mut c: usize = 0;
                while c < cols
                    invariant
                        c <= cols,
                        cols == self.cols(),
                        row < self.rows(),
                        ps@ == Seq::new(c as nat, |i: int| (row, i as usize)),
                    decreases cols - c,
                {
                    ps.push((row, c));
                    c = c + 1;
                    assert(ps@ =~= Seq::new(c as nat, |i: int| (row, i as usize)));
                }
            },
            Entity::Cell(row, col) => {
                ps.push((row, col));
                assert(ps@ =~= seq![(row, col)]);
            },
        }
        ps
    }

    /// Pins the pieces of `border` to every cell `entity` addresses.
    pub fn set_border(&mut self, entity: Entity, border: Border)
        requires
            old(self).wf(),
            entity_in_range(entity, old(self).rows(), old(self).cols()),
        ensures
            final(self).wf(),
            final(self).theme.override_maps() == Theme::override_all(
                old(self).theme.override_maps(),
                entity_positions(entity, old(self).rows(), old(self).cols()),
                border,
            ),
            final(self).theme.borders == old(self).theme.borders,
            final(self).theme.lines@ == old(self).theme.lines@,
            final(self).size == old(self).size,
            final(self).cells == old(self).cells,
            final(self).global == old(self).global,
            final(self).styles == old(self).styles,
            final(self).margin == old(self).margin,
            final(self).override_split_lines == old(self).override_split_lines,
    {
        let ps = self.positions(entity);
        self.theme.override_positions(&ps, &border);
    }

    /// The state of the grid after `set(e, s)`: the resolved style of `e`
    /// with the supplied fields, and the entries that survive it.
    pub open spec fn styles_after(&self, e: Entity, s: Settings) -> (Style, Map<Entity, Style>) {
        restyled(self.global, self.styles@, e, s)
    }

    /// Applies `settings` to every cell `entity` addresses: the text, the
    /// style fields that are supplied (replacing the entries of the cells
    /// the entity covers) and the border.
    pub fn set(&mut self, entity: Entity, settings: Settings)
        requires
            old(self).wf(),
            entity_in_range(entity, old(self).rows(), old(self).cols()),
        ensures
            final(self).wf(),
            forall|r: int, c: int|
                0 <= r < old(self).rows() && 0 <= c < old(self).cols() ==> #[trigger] final(self).cell_text(r, c)
                    == text_after(old(self).cell_text(r, c), entity, settings, r, c),
            (final(self).global, final(self).styles@) == old(self).styles_after(entity, settings),
            final(self).theme.override_maps() == if settings.border is Some {
                Theme::override_all(
                    old(self).theme.override_maps(),
                    entity_positions(entity, old(self).rows(), old(self).cols()),
                    settings.border->0,
                )
            } else {
                old(self).theme.override_maps()
            },
            final(self).theme.borders == old(self).theme.borders,
            final(self).theme.lines@ == old(self).theme.lines@,
            final(self).size == old(self).size,
            final(self).margin == old(self).margin,
            final(self).override_split_lines == old(self).override_split_lines,
            set_result(*old(self), entity, settings, *final(self)),
    {
        let Settings { text, padding, border, span, alignment_h, alignment_v, formatting } = settings;
        if let Some(t) = text {
            self.set_text(entity, t.as_str());
        }
        let ghost after_text = *self;
        let is_style_changes = padding.is_some() || alignment_h.is_some() || alignment_v.is_some()
            || span.is_some() || formatting.is_some();
        if is_style_changes {
            let mut style = *self.style(entity);
            let ghost pre_remove = *self;
            self.remove_inherited_styles(entity);
            let ghost removed_state = *self;
            if let Some(p) = padding {
                style.padding = p;
            }
            if let Some(a) = alignment_h {
                style.alignment_h = a;
            }
            if let Some(a) = alignment_v {
                style.alignment_v = a;
            }
            if let Some(s) = span {
                style.span = s;
            }
            if let Some(f) = formatting {
                style.formatting = f;
            }
            let ghost removed = self.styles@;
            self.write_style(entity, style);
            proof {
                let kept = kept_entries(old(self).styles@, entity);
                assert forall|k: Entity| removed.contains_key(k) == kept.contains_key(k) by {
                    assert(removed_state.style_entries().contains_key(k) == (pre_remove.style_entries().contains_key(k)
                        && !entity_covers(entity, k)));
                }
                assert forall|k: Entity| removed.contains_key(k) implies removed[k] == kept[k] by {
                    assert(removed_state.style_entries().contains_key(k) ==> removed_state.style_entries()[k] == pre_remove.style_entries()[k]);
                }
                assert(removed =~= kept);
            }
        }
        if let Some(b) = border {
            self.set_border(entity, b);
        }
        proof {
            assert forall|r: int, c: int|
                0 <= r < old(self).rows() && 0 <= c < old(self).cols() implies #[trigger] self.cell_text(r, c)
                    == text_after(old(self).cell_text(r, c), entity, settings, r, c) by {
                assert(self.cell_text(r, c) == after_text.cell_text(r, c));
            }
        }
    }

    /// Whether any piece of the vertical line left of column `col` is present.
    pub open spec fn spec_has_vertical(&self, col: usize) -> bool {
        exists|r: int| 0 <= r < self.rows() && (#[trigger] self.theme.spec_vertical((r as usize, col), self.size.1)) is Some
    }

    /// Whether any piece of the horizontal line above row `row` is present.
    pub open spec fn spec_has_horizontal(&self, row: usize) -> bool {
        exists|c: int| 0 <= c < self.cols() && (#[trigger] self.theme.spec_horizontal((row, c as usize), self.size.0)) is Some
    }

    /// The border of the cell at (row, col) as drawn: the theme's pieces,
    /// with a space for each edge that is absent while its line is drawn
    /// elsewhere, and for each absent corner between two such edges.
    pub open spec fn spec_get_border(&self, row: usize, col: usize) -> Border {
        let b = self.theme.spec_border((row, col), self.size.0, self.size.1);
        let sp = Some(Symbol::spec_from_char(' '));
        let top_set = b.top is Some || self.spec_has_horizontal(row);
        let bottom_set = b.bottom is Some || self.spec_has_horizontal((row + 1) as usize);
        let left_set = b.left is Some || self.spec_has_vertical(col);
        let right_set = b.right is Some || self.spec_has_vertical((col + 1) as usize);
        Border {
            top: if b.top is Some { b.top } else if top_set { sp } else { None },
            bottom: if b.bottom is Some { b.bottom } else if bottom_set { sp } else { None },
            left: if b.left is Some { b.left } else if left_set { sp } else { None },
            right: if b.right is Some { b.right } else if right_set { sp } else { None },
            left_top_corner: if b.left_top_corner is Some {
                b.left_top_corner
            } else if top_set && left_set {
                sp
            } else {
                None
            },
            left_bottom_corner: if b.left_bottom_corner is Some {
                b.left_bottom_corner
            } else if bottom_set && left_set {
                sp
            } else {
                None
            },
            right_top_corner: if b.right_top_corner is Some {
                b.right_top_corner
            } else if top_set && right_set {
                sp
            } else {
                None
            },
            right_bottom_corner: if b.right_bottom_corner is Some {
                b.right_bottom_corner
            } else if bottom_set && right_set {
                sp
            } else {
                None
            },
        }
    }

    /// The border of the cell at (row, col) as it is drawn.
    pub fn get_border(&self, row: usize, col: usize) -> (r: Border)
        requires
            self.wf(),
            row < self.rows(),
            col < self.cols(),
        ensures
            r == self.spec_get_border(row, col),
    {
        let mut border = self.theme.get_border((row, col), self.count_rows(), self.count_columns());
        let ghost b = border;
        let mut top_set = border.top.is_some();
        let mut bottom_set = border.bottom.is_some();
        let mut left_set = border.left.is_some();
        let mut right_set = border.right.is_some();
        if border.top.is_none() && has_horizontal(self, row) {
            border.top = Some(Symbol::from_char(' '));
            top_set = true;
        }
        if border.bottom.is_none() && has_horizontal(self, row + 1) {
            border.bottom = Some(Symbol::from_char(' '));
            bottom_set = true;
        }
        if border.left.is_none() && has_vertical(self, col) {
            border.left = Some(Symbol::from_char(' '));
            left_set = true;
        }
        if border.right.is_none() && has_vertical(self, col + 1) {
            border.right = Some(Symbol::from_char(' '));
            right_set = true;
        }
        if border.left_top_corner.is_none() && top_set && left_set {
            border.left_top_corner = Some(Symbol::from_char(' '));
        }
        if border.left_bottom_corner.is_none() && bottom_set && left_set {
            border.left_bottom_corner = Some(Symbol::from_char(' '));
        }
        if border.right_top_corner.is_none() && top_set && right_set {
            border.right_top_corner = Some(Symbol::from_char(' '));
        }
        if border.right_bottom_corner.is_none() && bottom_set && right_set {
            border.right_bottom_corner = Some(Symbol::from_char(' '));
        }
        border
    }

    /// The settings of the cell at (row, col): its text, alignment, span,
    /// padding and drawn border.
    pub fn get_settings(&self, row: usize, col: usize) -> (r: Settings)
        requires
            self.wf(),
            row < self.rows(),
            col < self.cols(),
        ensures
            r.text matches Some(t) && t@ == self.cell_text(row as int, col as int),
            r.alignment_h == Some(self.spec_style(Entity::Cell(row, col)).alignment_h),
            r.alignment_v == Some(self.spec_style(Entity::Cell(row, col)).alignment_v),
            r.span == Some(self.spec_style(Entity::Cell(row, col)).span),
            r.padding == Some(self.spec_style(Entity::Cell(row, col)).padding),
            r.border == Some(self.spec_get_border(row, col)),
            r.formatting is None,
    {
        let style = self.style(Entity::Cell(row, col));
        let content = self.cells[row][col].as_str();
        let border = self.get_border(row, col);
        Settings::default()
            .text(content)
            .alignment(style.alignment_h)
            .vertical_alignment(style.alignment_v)
            .span(style.span)
            .padding(style.padding.left, style.padding.right, style.padding.top, style.padding.bottom)
            .border(border)
    }

    /// Writes `style` as the entry of `entity`.
    fn write_style(&mut self, entity: Entity, style: Style)
        requires
            old(self).wf(),
        ensures
            final(self).wf(),
            entity == Entity::Global ==> final(self).global == style && final(self).styles@
                == old(self).styles@,
            entity != Entity::Global ==> final(self).global == old(self).global && final(self).styles@ == old(self).styles@.insert(entity, style),
            final(self).size == old(self).size,
            final(self).cells == old(self).cells,
            final(self).margin == old(self).margin,
            final(self).theme == old(self).theme,
            final(self).override_split_lines == old(self).override_split_lines,
    {
        match entity {
            Entity::Global => {
                self.global = style;
            },
            _ => {
                self.styles.insert(entity, style);
            },
        }
    }
}


/// Whether any piece of the vertical line left of column `col` is present.
pub fn has_vertical(grid: &Grid, col: usize) -> (r: bool)
    requires
        grid.wf(),
    ensures
        r == grid.spec_has_vertical(col),
{
    let mut row: usize = 0;
    while row < grid.count_rows()
        invariant
            grid.wf(),
            row <= grid.rows(),
            forall|r: int| 0 <= r < row ==> (#[trigger] grid.theme.spec_vertical((r as usize, col), grid.size.1)) is None,
        decreases grid.rows() - row,
    {
        if grid.theme.get_vertical((row, col), grid.count_columns()).is_some() {
            assert((grid.theme.spec_vertical(((row as int) as usize, col), grid.size.1)) is Some);
            return true;
        }
        row = row + 1;
    }
    false
}

/// Whether any piece of the horizontal line above row `row` is present.
pub fn has_horizontal(grid: &Grid, row: usize) -> (r: bool)
    requires
        grid.wf(),
    ensures
        r == grid.spec_has_horizontal(row),
{
    let mut col: usize = 0;
    while col < grid.count_columns()
        invariant
            grid.wf(),
            col <= grid.cols(),
            forall|c: int| 0 <= c < col ==> (#[trigger] grid.theme.spec_horizontal((row, c as usize), grid.size.0)) is None,
        decreases grid.cols() - col,
    {
        if grid.theme.get_horizontal((row, col), grid.count_rows()).is_some() {
            assert((grid.theme.spec_horizontal((row, (col as int) as usize), grid.size.0)) is Some);
            return true;
        }
        col = col + 1;
    }
    false
}


/// Applying the same settings to the same entity twice leaves the grid as
/// applying them once: every cell's text, the grid-wide style, the style
/// entries and the border pieces pinned to cells are the same.
pub proof fn lemma_set_idempotent(
    global: Style,
    m: Map<Entity, Style>,
    maps: (Map<Position, Symbol>, Map<Position, Symbol>, Map<Position, Symbol>),
    t: Seq<char>,
    e: Entity,
    s: Settings,
    r: int,
    c: int,
    rows: nat,
    cols: nat,
)
    ensures
        text_after(text_after(t, e, s, r, c), e, s, r, c) == text_after(t, e, s, r, c),
        ({
            let once = restyled(global, m, e, s);
            restyled(once.0, once.1, e, s) == once
        }),
        s.border is Some ==> ({
            let ps = entity_positions(e, rows, cols);
            let b = s.border->0;
            Theme::override_all(Theme::override_all(maps, ps, b), ps, b) == Theme::override_all(maps, ps, b)
        }),
{
    if changes_style(s) {
        let once = restyled(global, m, e, s);
        let style = applied_style(resolve_style(global, m, e), s);
        assert(applied_style(style, s) == style);
        if e == Entity::Global {
            assert(kept_entries(once.1, e) =~= once.1);
        } else {
            assert(resolve_style(once.0, once.1, e) == style);
            assert(kept_entries(once.1, e) =~= once.1);
            assert(kept_entries(once.1, e).insert(e, style) =~= once.1);
        }
    }
    if s.border is Some {
        Theme::lemma_override_all_idempotent(maps, entity_positions(e, rows, cols), s.border->0);
    }
}


/// Writing a cell's own settings back into it, as `get_settings` returns
/// them, keeps the text and the resolved style of every cell of the grid.
pub proof fn lemma_own_settings_keep_cells(g: Grid, r: usize, c: usize, s: Settings)
    requires
        g.wf(),
        r < g.rows(),
        c < g.cols(),
        s.text matches Some(t) && t@ == g.cell_text(r as int, c as int),
        s.alignment_h == Some(g.spec_style(Entity::Cell(r, c)).alignment_h),
        s.alignment_v == Some(g.spec_style(Entity::Cell(r, c)).alignment_v),
        s.span == Some(g.spec_style(Entity::Cell(r, c)).span),
        s.padding == Some(g.spec_style(Entity::Cell(r, c)).padding),
        s.formatting is None,
    ensures
        forall|i: int, j: int|
            0 <= i < g.rows() && 0 <= j < g.cols() ==> #[trigger] text_after(g.cell_text(i, j), Entity::Cell(r, c), s, i, j)
                == g.cell_text(i, j),
        forall|i: usize, j: usize|
            #[trigger] resolve_style(
                restyled(g.global, g.styles@, Entity::Cell(r, c), s).0,
                restyled(g.global, g.styles@, Entity::Cell(r, c), s).1,
                Entity::Cell(i, j),
            ) == g.spec_style(Entity::Cell(i, j)),
{
    let e = Entity::Cell(r, c);
    let after = restyled(g.global, g.styles@, e, s);
    assert(kept_entries(g.styles@, e) =~= g.styles@);
    let own = g.spec_style(e);
    assert(applied_style(own, s) == own);
    assert(after.1 == g.styles@.insert(e, own));
}

} // verus!
