//! Values that describe a cell: indents, alignment, formatting, style,
//! addressing and the builder of per-cell settings.

use vstd::prelude::*;

verus! {

/// The character an indent is filled with unless told otherwise.
pub const DEFAULT_INDENT_FILL_CHAR: char = ' ';

/// Whitespace of a given size, drawn with a fill character.
#[derive(Clone, Copy, Debug, PartialEq, Eq, Structural)]
pub struct Indent {
    pub fill: char,
    pub size: usize,
}

impl Default for Indent {
    fn default() -> (r: Self)
        ensures
            r == (Indent { fill: ' ', size: 0 }),
    {
        Indent { fill: DEFAULT_INDENT_FILL_CHAR, size: 0 }
    }
}

impl Indent {
    pub fn new(size: usize, fill: char) -> (r: Self)
        ensures
            r == (Indent { fill, size }),
    {
        Indent { size, fill }
    }

    /// An indent of `size` spaces.
    pub fn spaced(size: usize) -> (r: Self)
        ensures
            r == (Indent { fill: ' ', size }),
    {
        Indent { size, fill: DEFAULT_INDENT_FILL_CHAR }
    }
}

/// The empty indent: size 0, filled with spaces.
pub open spec fn no_indent() -> Indent {
    Indent { fill: ' ', size: 0 }
}

/// Outer whitespace around the whole table.
#[derive(Clone, Copy, Debug, PartialEq, Eq, Structural)]
pub struct Margin {
    pub top: Indent,
    pub bottom: Indent,
    pub left: Indent,
    pub right: Indent,
}

impl Default for Margin {
    fn default() -> (r: Self)
        ensures
            r == (Margin { top: no_indent(), bottom: no_indent(), left: no_indent(), right: no_indent() }),
    {
        Margin {
            top: Indent::default(),
            bottom: Indent::default(),
            left: Indent::default(),
            right: Indent::default(),
        }
    }
}

/// Inner whitespace of a cell, between its border and its content.
#[derive(Clone, Copy, Debug, PartialEq, Eq, Structural)]
pub struct Padding {
    pub top: Indent,
    pub bottom: Indent,
    pub left: Indent,
    pub right: Indent,
}

impl Default for Padding {
    fn default() -> (r: Self)
        ensures
            r == (Padding { top: no_indent(), bottom: no_indent(), left: no_indent(), right: no_indent() }),
    {
        Padding {
            top: Indent::default(),
            bottom: Indent::default(),
            left: Indent::default(),
            right: Indent::default(),
        }
    }
}

/// How the lines of a cell are trimmed, aligned and how tabs expand.
#[derive(Clone, Copy, Debug, PartialEq, Eq, Structural)]
pub struct Formatting {
    pub horizontal_trim: bool,
    pub vertical_trim: bool,
    pub allow_lines_alignement: bool,
    pub tab_width: usize,
}

impl Default for Formatting {
    fn default() -> (r: Self)
        ensures
            r == (Formatting {
                horizontal_trim: false,
                vertical_trim: false,
                allow_lines_alignement: false,
                tab_width: 0,
            }),
    {
        Formatting {
            horizontal_trim: false,
            vertical_trim: false,
            allow_lines_alignement: false,
            tab_width: 0,
        }
    }
}

/// Horizontal alignment of cell content.
#[derive(Clone, Copy, Debug, PartialEq, Eq, Structural)]
pub enum AlignmentHorizontal {
    Center,
    Left,
    Right,
}

/// Vertical alignment of cell content.
#[derive(Clone, Copy, Debug, PartialEq, Eq, Structural)]
pub enum AlignmentVertical {
    Center,
    Top,
    Bottom,
}

/// The offset of the content from the top of a box of `height` lines that
/// holds `real_height` lines of content.
pub open spec fn spec_top_indent(a: AlignmentVertical, height: nat, real_height: nat) -> nat {
    let free: nat = if height >= real_height { (height - real_height) as nat } else { 0 };
    match a {
        AlignmentVertical::Top => 0,
        AlignmentVertical::Bottom => free,
        AlignmentVertical::Center => free / 2,
    }
}

impl AlignmentVertical {
    /// The number of lines above the content; none where the content is
    /// taller than the box.
    pub fn top_ident(&self, height: usize, real_height: usize) -> (r: usize)
        ensures
            r == spec_top_indent(*self, height as nat, real_height as nat),
    {
        let free = if height >= real_height { height - real_height } else { 0 };
        match self {
            AlignmentVertical::Top => 0,
            AlignmentVertical::Bottom => free,
            AlignmentVertical::Center => free / 2,
        }
    }
}

/// The style of a cell.
#[derive(Clone, Copy, Debug, PartialEq, Eq, Structural)]
pub struct Style {
    pub span: usize,
    pub padding: Padding,
    pub alignment_h: AlignmentHorizontal,
    pub alignment_v: AlignmentVertical,
    pub formatting: Formatting,
}

/// The style of a fresh grid: span 1, no padding, top-left alignment, no
/// trimming, tabs four spaces wide.
pub open spec fn default_style() -> Style {
    Style {
        span: 1,
        padding: Padding { top: no_indent(), bottom: no_indent(), left: no_indent(), right: no_indent() },
        alignment_h: AlignmentHorizontal::Left,
        alignment_v: AlignmentVertical::Top,
        formatting: Formatting {
            horizontal_trim: false,
            vertical_trim: false,
            allow_lines_alignement: false,
            tab_width: 4,
        },
    }
}

impl Default for Style {
    fn default() -> (r: Self)
        ensures
            r == default_style(),
    {
        Style {
            span: 1,
            padding: Padding::default(),
            alignment_h: AlignmentHorizontal::Left,
            alignment_v: AlignmentVertical::Top,
            formatting: Formatting {
                horizontal_trim: false,
                vertical_trim: false,
                allow_lines_alignement: false,
                tab_width: 4,
            },
        }
    }
}

/// A set of cells: the whole grid, a column, a row or a single cell.
#[derive(Clone, Copy, Debug, PartialEq, Eq, Hash, Structural)]
pub enum Entity {
    /// All cells on the grid.
    Global,
    /// All cells in a column.
    Column(usize),
    /// All cells in a row.
    Row(usize),
    /// The cell at (row, column).
    Cell(usize, usize),
}


/// Whether writing a style for `e` replaces the style entry kept for `k`:
/// the whole grid replaces every entry, a column the entries of its cells,
/// a row the entries of its cells, a cell nothing else.
pub open spec fn entity_covers(e: Entity, k: Entity) -> bool {
    match e {
        Entity::Global => true,
        Entity::Column(c) => k matches Entity::Cell(_, c2) && c2 == c,
        Entity::Row(r) => k matches Entity::Cell(r2, _) && r2 == r,
        Entity::Cell(_, _) => false,
    }
}


impl Entity {
    /// Whether writing a style for `e` replaces the entry kept for `self`.
    pub fn covered_by(&self, e: &Entity) -> (r: bool)
        ensures
            r == entity_covers(*e, *self),
    {
        match e {
            Entity::Global => true,
            Entity::Column(c) => match self {
                Entity::Cell(_, c2) => *c2 == *c,
                _ => false,
            },
            Entity::Row(r) => match self {
                Entity::Cell(r2, _) => *r2 == *r,
                _ => false,
            },
            Entity::Cell(_, _) => false,
        }
    }
}

} // verus!
