//! Border symbols and the pieces of a cell border and of the base theme.

use vstd::prelude::*;
use vstd::string::StringExecFns;
use crate::text::{chars_of, display_width, push_char, string_width};

verus! {

#[derive(Debug, PartialEq, Eq)]
enum InnerSymbol {
    Ansi(String),
    Char(char),
}

/// One display column of a border: a character, or a string of display width
/// one that may carry style escapes. It is written out verbatim.
#[derive(Debug, PartialEq, Eq)]
pub struct Symbol(InnerSymbol);

impl View for Symbol {
    type V = Seq<char>;

    /// The characters the symbol writes.
    closed spec fn view(&self) -> Seq<char> {
        match self.0 {
            InnerSymbol::Ansi(s) => s@,
            InnerSymbol::Char(c) => seq![c],
        }
    }
}

impl Clone for Symbol {
    fn clone(&self) -> (r: Self)
        ensures
            r == *self,
    {
        match &self.0 {
            InnerSymbol::Ansi(s) => Symbol(InnerSymbol::Ansi(s.clone())),
            InnerSymbol::Char(c) => Symbol(InnerSymbol::Char(*c)),
        }
    }
}

/// A copy of an optional symbol.
pub fn clone_symbol(s: &Option<Symbol>) -> (r: Option<Symbol>)
    ensures
        r == *s,
{
    match s {
        Some(c) => Some(c.clone()),
        None => None,
    }
}

impl Symbol {
    /// A symbol from a string of display width one: a single character
    /// becomes a plain symbol, another string keeps its style escapes.
    pub fn ansi(s: String) -> (r: Option<Self>)
        ensures
            r is Some <==> display_width(s@) == 1,
            r matches Some(sym) ==> sym@ == s@,
            r is Some && s@.len() == 1 ==> r == Some(Symbol::spec_from_char(s@[0])),
    {
        if string_width(s.as_str()) != 1 {
            return None;
        }
        let chars = chars_of(s.as_str());
        if chars.len() == 1 {
            let r = Symbol::from_char(chars[0]);
            assert(r@ =~= s@);
            return Some(r);
        }
        Some(Symbol(InnerSymbol::Ansi(s)))
    }

    /// The symbol that writes the character `c`.
    pub closed spec fn spec_from_char(c: char) -> Symbol {
        Symbol(InnerSymbol::Char(c))
    }

    /// The character `c` as a symbol.
    #[verifier::when_used_as_spec(spec_from_char)]
    pub fn from_char(c: char) -> (r: Self)
        ensures
            r == Symbol::spec_from_char(c),
            r@ == seq![c],
    {
        Symbol(InnerSymbol::Char(c))
    }

    /// Appends the symbol's characters to `out`.
    pub fn write_to(&self, out: &mut String)
        ensures
            final(out)@ == old(out)@ + self@,
    {
        match &self.0 {
            InnerSymbol::Ansi(s) => {
                out.append(s.as_str());
            },
            InnerSymbol::Char(c) => {
                push_char(out, *c);
                assert(final(out)@ =~= old(out)@ + self@);
            },
        }
    }
}

impl Default for Symbol {
    fn default() -> (r: Self)
        ensures
            r == Symbol::spec_from_char('\0'),
    {
        Symbol::from_char('\0')
    }
}

impl From<char> for Symbol {
    fn from(c: char) -> (r: Self) {
        Symbol::from_char(c)
    }
}

impl vstd::std_specs::convert::FromSpecImpl<char> for Symbol {
    open spec fn obeys_from_spec() -> bool {
        true
    }

    open spec fn from_spec(v: char) -> Self {
        Symbol::spec_from_char(v)
    }
}

/// The eight border pieces of one cell; `None` leaves a piece out.
#[derive(Debug, PartialEq, Eq)]
pub struct Border {
    pub top: Option<Symbol>,
    pub bottom: Option<Symbol>,
    pub left: Option<Symbol>,
    pub left_top_corner: Option<Symbol>,
    pub left_bottom_corner: Option<Symbol>,
    pub right: Option<Symbol>,
    pub right_top_corner: Option<Symbol>,
    pub right_bottom_corner: Option<Symbol>,
}

/// The border with no piece.
pub open spec fn empty_border() -> Border {
    Border {
        top: None,
        bottom: None,
        left: None,
        left_top_corner: None,
        left_bottom_corner: None,
        right: None,
        right_top_corner: None,
        right_bottom_corner: None,
    }
}

impl Default for Border {
    fn default() -> (r: Self)
        ensures
            r == empty_border(),
    {
        Border {
            top: None,
            bottom: None,
            left: None,
            left_top_corner: None,
            left_bottom_corner: None,
            right: None,
            right_top_corner: None,
            right_bottom_corner: None,
        }
    }
}

impl Clone for Border {
    fn clone(&self) -> (r: Self)
        ensures
            r == *self,
    {
        Border {
            top: clone_symbol(&self.top),
            bottom: clone_symbol(&self.bottom),
            left: clone_symbol(&self.left),
            left_top_corner: clone_symbol(&self.left_top_corner),
            left_bottom_corner: clone_symbol(&self.left_bottom_corner),
            right: clone_symbol(&self.right),
            right_top_corner: clone_symbol(&self.right_top_corner),
            right_bottom_corner: clone_symbol(&self.right_bottom_corner),
        }
    }
}

impl Border {
    /// A border with all eight pieces set.
    pub fn new(
        top: Symbol,
        bottom: Symbol,
        left: Symbol,
        right: Symbol,
        top_left: Symbol,
        top_right: Symbol,
        bottom_left: Symbol,
        bottom_right: Symbol,
    ) -> (r: Self)
        ensures
            r == (Border {
                top: Some(top),
                bottom: Some(bottom),
                left: Some(left),
                left_top_corner: Some(top_left),
                left_bottom_corner: Some(bottom_left),
                right: Some(right),
                right_top_corner: Some(top_right),
                right_bottom_corner: Some(bottom_right),
            }),
    {
        Border {
            top: Some(top),
            bottom: Some(bottom),
            right: Some(right),
            right_top_corner: Some(top_right),
            right_bottom_corner: Some(bottom_right),
            left: Some(left),
            left_bottom_corner: Some(bottom_left),
            left_top_corner: Some(top_left),
        }
    }

    /// A border whose eight pieces are all `c`.
    pub fn filled(c: Symbol) -> (r: Self)
        ensures
            r == (Border {
                top: Some(c),
                bottom: Some(c),
                left: Some(c),
                left_top_corner: Some(c),
                left_bottom_corner: Some(c),
                right: Some(c),
                right_top_corner: Some(c),
                right_bottom_corner: Some(c),
            }),
    {
        Border::new(
            c.clone(),
            c.clone(),
            c.clone(),
            c.clone(),
            c.clone(),
            c.clone(),
            c.clone(),
            c,
        )
    }

    /// Sets the top piece.
    pub fn top(self, c: Symbol) -> (r: Self)
        ensures
            r == (Border { top: Some(c), ..self }),
    {
        Border { top: Some(c), ..self }
    }

    /// Sets the bottom piece.
    pub fn bottom(self, c: Symbol) -> (r: Self)
        ensures
            r == (Border { bottom: Some(c), ..self }),
    {
        Border { bottom: Some(c), ..self }
    }

    /// Sets the left piece.
    pub fn left(self, c: Symbol) -> (r: Self)
        ensures
            r == (Border { left: Some(c), ..self }),
    {
        Border { left: Some(c), ..self }
    }

    /// Sets the right piece.
    pub fn right(self, c: Symbol) -> (r: Self)
        ensures
            r == (Border { right: Some(c), ..self }),
    {
        Border { right: Some(c), ..self }
    }

    /// Sets the top left corner.
    pub fn top_left_corner(self, c: Symbol) -> (r: Self)
        ensures
            r == (Border { left_top_corner: Some(c), ..self }),
    {
        Border { left_top_corner: Some(c), ..self }
    }

    /// Sets the top right corner.
    pub fn top_right_corner(self, c: Symbol) -> (r: Self)
        ensures
            r == (Border { right_top_corner: Some(c), ..self }),
    {
        Border { right_top_corner: Some(c), ..self }
    }

    /// Sets the bottom left corner.
    pub fn bottom_left_corner(self, c: Symbol) -> (r: Self)
        ensures
            r == (Border { left_bottom_corner: Some(c), ..self }),
    {
        Border { left_bottom_corner: Some(c), ..self }
    }

    /// Sets the bottom right corner.
    pub fn bottom_right_corner(self, c: Symbol) -> (r: Self)
        ensures
            r == (Border { right_bottom_corner: Some(c), ..self }),
    {
        Border { right_bottom_corner: Some(c), ..self }
    }
}

/// The base theme: the pieces of the outer frame, of the inner split lines
/// and of their intersections.
#[derive(Debug, PartialEq, Eq)]
pub struct Borders {
    pub top: Option<Symbol>,
    pub top_left: Option<Symbol>,
    pub top_right: Option<Symbol>,
    pub top_intersection: Option<Symbol>,
    pub bottom: Option<Symbol>,
    pub bottom_left: Option<Symbol>,
    pub bottom_right: Option<Symbol>,
    pub bottom_intersection: Option<Symbol>,
    pub horizontal: Option<Symbol>,
    pub horizontal_left: Option<Symbol>,
    pub horizontal_right: Option<Symbol>,
    pub vertical_left: Option<Symbol>,
    pub vertical_intersection: Option<Symbol>,
    pub vertical_right: Option<Symbol>,
    pub intersection: Option<Symbol>,
}

/// The base theme with no piece.
pub open spec fn empty_borders() -> Borders {
    Borders {
        top: None,
        top_left: None,
        top_right: None,
        top_intersection: None,
        bottom: None,
        bottom_left: None,
        bottom_right: None,
        bottom_intersection: None,
        horizontal: None,
        horizontal_left: None,
        horizontal_right: None,
        vertical_left: None,
        vertical_intersection: None,
        vertical_right: None,
        intersection: None,
    }
}

/// The default theme: `-` for horizontal lines, `|` for vertical lines and
/// `+` wherever lines meet.
pub open spec fn spec_default_borders() -> Borders {
    let h = Some(Symbol::spec_from_char('-'));
    let v = Some(Symbol::spec_from_char('|'));
    let x = Some(Symbol::spec_from_char('+'));
    Borders {
        top: h,
        top_left: x,
        top_right: x,
        top_intersection: x,
        bottom: h,
        bottom_left: x,
        bottom_right: x,
        bottom_intersection: x,
        horizontal: h,
        horizontal_left: x,
        horizontal_right: x,
        vertical_left: v,
        vertical_intersection: v,
        vertical_right: v,
        intersection: x,
    }
}

/// The default theme, as `spec_default_borders` describes it.
pub fn default_borders() -> (r: Borders)
    ensures
        r == spec_default_borders(),
{
    Borders {
        top: Some(Symbol::from_char('-')),
        top_left: Some(Symbol::from_char('+')),
        top_right: Some(Symbol::from_char('+')),
        top_intersection: Some(Symbol::from_char('+')),
        bottom: Some(Symbol::from_char('-')),
        bottom_left: Some(Symbol::from_char('+')),
        bottom_right: Some(Symbol::from_char('+')),
        bottom_intersection: Some(Symbol::from_char('+')),
        horizontal: Some(Symbol::from_char('-')),
        horizontal_left: Some(Symbol::from_char('+')),
        horizontal_right: Some(Symbol::from_char('+')),
        vertical_left: Some(Symbol::from_char('|')),
        vertical_intersection: Some(Symbol::from_char('|')),
        vertical_right: Some(Symbol::from_char('|')),
        intersection: Some(Symbol::from_char('+')),
    }
}

impl Default for Borders {
    fn default() -> (r: Self)
        ensures
            r == empty_borders(),
    {
        Borders {
            top: None,
            top_left: None,
            top_right: None,
            top_intersection: None,
            bottom: None,
            bottom_left: None,
            bottom_right: None,
            bottom_intersection: None,
            horizontal: None,
            horizontal_left: None,
            horizontal_right: None,
            vertical_left: None,
            vertical_intersection: None,
            vertical_right: None,
            intersection: None,
        }
    }
}

impl Clone for Borders {
    fn clone(&self) -> (r: Self)
        ensures
            r == *self,
    {
        Borders {
            top: clone_symbol(&self.top),
            top_left: clone_symbol(&self.top_left),
            top_right: clone_symbol(&self.top_right),
            top_intersection: clone_symbol(&self.top_intersection),
            bottom: clone_symbol(&self.bottom),
            bottom_left: clone_symbol(&self.bottom_left),
            bottom_right: clone_symbol(&self.bottom_right),
            bottom_intersection: clone_symbol(&self.bottom_intersection),
            horizontal: clone_symbol(&self.horizontal),
            horizontal_left: clone_symbol(&self.horizontal_left),
            horizontal_right: clone_symbol(&self.horizontal_right),
            vertical_left: clone_symbol(&self.vertical_left),
            vertical_intersection: clone_symbol(&self.vertical_intersection),
            vertical_right: clone_symbol(&self.vertical_right),
            intersection: clone_symbol(&self.intersection),
        }
    }
}

/// The pieces of one horizontal split line, overriding the theme there.
#[derive(Debug, PartialEq, Eq)]
pub struct Line {
    pub horizontal: Option<Symbol>,
    pub intersection: Option<Symbol>,
    pub left: Option<Symbol>,
    pub right: Option<Symbol>,
}

impl Default for Line {
    fn default() -> (r: Self)
        ensures
            r == (Line { horizontal: None, intersection: None, left: None, right: None }),
    {
        Line { horizontal: None, intersection: None, left: None, right: None }
    }
}

impl Clone for Line {
    fn clone(&self) -> (r: Self)
        ensures
            r == *self,
    {
        Line {
            horizontal: clone_symbol(&self.horizontal),
            intersection: clone_symbol(&self.intersection),
            left: clone_symbol(&self.left),
            right: clone_symbol(&self.right),
        }
    }
}

} // verus!
