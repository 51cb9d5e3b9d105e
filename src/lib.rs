//! Rendering of a two-dimensional grid of text cells into a monospace string.
//!
//! The grid holds per-cell text and styles, a border theme and a margin.
//! Rendering resolves column spans, solves column widths and row heights,
//! composes each cell line by line and interleaves horizontal split lines.

pub mod border;
pub mod compose;
pub mod congruence;
pub mod grid;
pub mod keyed;
pub mod render;
pub mod settings;
pub mod solver;
pub mod span;
pub mod spans;
pub mod style;
pub mod table;
pub mod text;
pub mod theme;

pub use border::{Border, Borders, Line, Symbol};
pub use compose::replace_tab;
pub use grid::Grid;
pub use settings::Settings;
pub use span::Span;
pub use style::{AlignmentHorizontal, AlignmentVertical, Entity, Formatting, Indent, Margin, Padding, Style};
pub use text::{string_width, strip};
