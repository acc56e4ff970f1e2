//! A terminal text style as plain values: foreground and background
//! colours and the text modifiers that are switched on or off.

use vstd::prelude::*;

verus! {

/// Terminal colours (the 16 named ones, reset, 256-palette and RGB).
#[derive(Clone, Copy, Debug, PartialEq, Eq, Structural)]
pub enum Color {
    Reset,
    Black,
    Red,
    Green,
    Yellow,
    Blue,
    Magenta,
    Cyan,
    Gray,
    DarkGray,
    LightRed,
    LightGreen,
    LightYellow,
    LightBlue,
    LightMagenta,
    LightCyan,
    White,
    Rgb(u8, u8, u8),
    Indexed(u8),
}

/// A set of text modifiers.
#[derive(Clone, Copy, Debug, PartialEq, Eq, Structural)]
pub struct Modifiers {
    pub bold: bool,
    pub dim: bool,
    pub italic: bool,
    pub underlined: bool,
    pub reversed: bool,
}

/// Colours and the modifiers added and removed by a style.
#[derive(Clone, Copy, Debug, PartialEq, Eq, Structural)]
pub struct Style {
    pub fg: Option<Color>,
    pub bg: Option<Color>,
    pub add_modifier: Modifiers,
    pub sub_modifier: Modifiers,
}

pub open spec fn no_modifiers() -> Modifiers {
    Modifiers { bold: false, dim: false, italic: false, underlined: false, reversed: false }
}

pub open spec fn union(a: Modifiers, b: Modifiers) -> Modifiers {
    Modifiers {
        bold: a.bold || b.bold,
        dim: a.dim || b.dim,
        italic: a.italic || b.italic,
        underlined: a.underlined || b.underlined,
        reversed: a.reversed || b.reversed,
    }
}

pub open spec fn difference(a: Modifiers, b: Modifiers) -> Modifiers {
    Modifiers {
        bold: a.bold && !b.bold,
        dim: a.dim && !b.dim,
        italic: a.italic && !b.italic,
        underlined: a.underlined && !b.underlined,
        reversed: a.reversed && !b.reversed,
    }
}

/// The style with no colour and no modifier.
pub open spec fn plain() -> Style {
    Style { fg: None, bg: None, add_modifier: no_modifiers(), sub_modifier: no_modifiers() }
}

/// `m` switched on: added, and no longer removed.
pub open spec fn added(s: Style, m: Modifiers) -> Style {
    Style { add_modifier: union(s.add_modifier, m), sub_modifier: difference(s.sub_modifier, m), ..s }
}

/// `m` switched off: removed, and no longer added.
pub open spec fn removed(s: Style, m: Modifiers) -> Style {
    Style { add_modifier: difference(s.add_modifier, m), sub_modifier: union(s.sub_modifier, m), ..s }
}

impl Modifiers {
    pub fn none() -> (m: Modifiers)
        ensures
            m == no_modifiers(),
    {
        Modifiers { bold: false, dim: false, italic: false, underlined: false, reversed: false }
    }

    pub fn union(&self, b: &Modifiers) -> (m: Modifiers)
        ensures
            m == union(*self, *b),
    {
        Modifiers {
            bold: self.bold || b.bold,
            dim: self.dim || b.dim,
            italic: self.italic || b.italic,
            underlined: self.underlined || b.underlined,
            reversed: self.reversed || b.reversed,
        }
    }

    pub fn difference(&self, b: &Modifiers) -> (m: Modifiers)
        ensures
            m == difference(*self, *b),
    {
        Modifiers {
            bold: self.bold && !b.bold,
            dim: self.dim && !b.dim,
            italic: self.italic && !b.italic,
            underlined: self.underlined && !b.underlined,
            reversed: self.reversed && !b.reversed,
        }
    }
}

impl Style {
    /// The plain style.
    pub fn new() -> (s: Style)
        ensures
            s == plain(),
    {
        Style { fg: None, bg: None, add_modifier: Modifiers::none(), sub_modifier: Modifiers::none() }
    }

    pub fn add_modifier(&self, m: Modifiers) -> (s: Style)
        ensures
            s == added(*self, m),
    {
        Style {
            fg: self.fg,
            bg: self.bg,
            add_modifier: self.add_modifier.union(&m),
            sub_modifier: self.sub_modifier.difference(&m),
        }
    }

    pub fn remove_modifier(&self, m: Modifiers) -> (s: Style)
        ensures
            s == removed(*self, m),
    {
        Style {
            fg: self.fg,
            bg: self.bg,
            add_modifier: self.add_modifier.difference(&m),
            sub_modifier: self.sub_modifier.union(&m),
        }
    }

    pub fn fg(&self, c: Color) -> (s: Style)
        ensures
            s == (Style { fg: Some(c), ..*self }),
    {
        Style { fg: Some(c), bg: self.bg, add_modifier: self.add_modifier, sub_modifier: self.sub_modifier }
    }

    pub fn bg(&self, c: Color) -> (s: Style)
        ensures
            s == (Style { bg: Some(c), ..*self }),
    {
        Style { fg: self.fg, bg: Some(c), add_modifier: self.add_modifier, sub_modifier: self.sub_modifier }
    }
}

/// Just bold.
pub open spec fn bold() -> Modifiers {
    Modifiers { bold: true, ..no_modifiers() }
}

/// Plain style with a foreground colour.
pub open spec fn fg_style(c: Color) -> Style {
    Style { fg: Some(c), ..plain() }
}

/// Bold with a foreground colour.
pub open spec fn bold_fg(c: Color) -> Style {
    added(fg_style(c), bold())
}

/// The plain style with a foreground colour.
pub fn style_fg(c: Color) -> (s: Style)
    ensures
        s == fg_style(c),
{
    Style::new().fg(c)
}

/// Bold with a foreground colour.
pub fn style_bold_fg(c: Color) -> (s: Style)
    ensures
        s == bold_fg(c),
{
    let m = Modifiers { bold: true, dim: false, italic: false, underlined: false, reversed: false };
    Style::new().fg(c).add_modifier(m)
}

} // verus!
