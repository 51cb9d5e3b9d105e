//! The bag of optional settings that `Grid::set` applies to an entity.

use vstd::prelude::*;
use crate::border::Border;
use crate::style::{AlignmentHorizontal, AlignmentVertical, Formatting, Indent, Padding, Style};

verus! {

/// Settings of a cell, a row, a column or the whole grid; a field left
/// `None` is not changed.
#[derive(Debug)]
pub struct Settings {
    pub text: Option<String>,
    pub padding: Option<Padding>,
    pub border: Option<Border>,
    pub span: Option<usize>,
    pub alignment_h: Option<AlignmentHorizontal>,
    pub alignment_v: Option<AlignmentVertical>,
    pub formatting: Option<Formatting>,
}

/// Settings that change nothing.
pub open spec fn empty_settings() -> Settings {
    Settings {
        text: None,
        padding: None,
        border: None,
        span: None,
        alignment_h: None,
        alignment_v: None,
        formatting: None,
    }
}

/// Whether the settings change any field of a style.
pub open spec fn changes_style(s: Settings) -> bool {
    s.padding is Some || s.alignment_h is Some || s.alignment_v is Some || s.span is Some
        || s.formatting is Some
}

/// `base` with the style fields that `s` supplies.
pub open spec fn applied_style(base: Style, s: Settings) -> Style {
    Style {
        span: if s.span is Some { s.span->0 } else { base.span },
        padding: if s.padding is Some { s.padding->0 } else { base.padding },
        alignment_h: if s.alignment_h is Some { s.alignment_h->0 } else { base.alignment_h },
        alignment_v: if s.alignment_v is Some { s.alignment_v->0 } else { base.alignment_v },
        formatting: if s.formatting is Some { s.formatting->0 } else { base.formatting },
    }
}

impl Default for Settings {
    fn default() -> (r: Self)
        ensures
            r == empty_settings(),
    {
        Settings::new()
    }
}

impl Settings {
    /// Settings that change nothing.
    pub fn new() -> (r: Self)
        ensures
            r == empty_settings(),
    {
        Settings {
            text: None,
            padding: None,
            border: None,
            span: None,
            alignment_h: None,
            alignment_v: None,
            formatting: None,
        }
    }

    /// Sets the text.
    pub fn text(self, text: &str) -> (r: Self)
        ensures
            r.text matches Some(t) && t@ == text@,
            r.padding == self.padding,
            r.border == self.border,
            r.span == self.span,
            r.alignment_h == self.alignment_h,
            r.alignment_v == self.alignment_v,
            r.formatting == self.formatting,
    {
        Settings { text: Some(text.to_owned()), ..self }
    }

    /// Sets the padding.
    pub fn padding(self, left: Indent, right: Indent, top: Indent, bottom: Indent) -> (r: Self)
        ensures
            r == (Settings { padding: Some(Padding { top, bottom, left, right }), ..self }),
    {
        Settings { padding: Some(Padding { top, bottom, left, right }), ..self }
    }

    /// Sets the horizontal alignment.
    pub fn alignment(self, alignment: AlignmentHorizontal) -> (r: Self)
        ensures
            r == (Settings { alignment_h: Some(alignment), ..self }),
    {
        Settings { alignment_h: Some(alignment), ..self }
    }

    /// Sets the vertical alignment.
    pub fn vertical_alignment(self, alignment: AlignmentVertical) -> (r: Self)
        ensures
            r == (Settings { alignment_v: Some(alignment), ..self }),
    {
        Settings { alignment_v: Some(alignment), ..self }
    }

    /// Sets the span.
    pub fn span(self, span: usize) -> (r: Self)
        ensures
            r == (Settings { span: Some(span), ..self }),
    {
        Settings { span: Some(span), ..self }
    }

    /// Sets the border.
    pub fn border(self, border: Border) -> (r: Self)
        ensures
            r == (Settings { border: Some(border), ..self }),
    {
        Settings { border: Some(border), ..self }
    }

    /// Sets the formatting.
    pub fn formatting(self, formatting: Formatting) -> (r: Self)
        ensures
            r == (Settings { formatting: Some(formatting), ..self }),
    {
        Settings { formatting: Some(formatting), ..self }
    }
}

} // verus!
