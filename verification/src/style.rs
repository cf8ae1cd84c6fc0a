//! Colours, text modifiers and styles of history text.

use vstd::prelude::*;

verus! {

/// A colour as a style names it.
///
/// The named colours are the sixteen entries of the terminal's palette; `Gray` is the dim white
/// of the first eight, `White` the bright one.
#[derive(Debug, Clone, Copy, PartialEq, Eq, Structural)]
pub enum Color {
    Reset,
    Black,
    Red,
    Green,
    Yellow,
    Blue,
    Magenta,
    Cyan,
    Gray,
    DarkGray,
    LightRed,
    LightGreen,
    LightYellow,
    LightBlue,
    LightMagenta,
    LightCyan,
    White,
    Rgb(u8, u8, u8),
    Indexed(u8),
}

/// A colour as the terminal is told of it.
#[derive(Debug, Clone, Copy, PartialEq, Eq, Structural)]
pub enum AnsiColor {
    /// The terminal's default colour.
    Reset,
    /// An entry of the 256-colour palette.
    Indexed(u8),
    /// A true colour.
    Rgb(u8, u8, u8),
}

impl Color {
    /// What the terminal is told for this colour: a named colour is its palette entry.
    pub open spec fn ansi(self) -> AnsiColor {
        match self {
            Color::Reset => AnsiColor::Reset,
            Color::Black => AnsiColor::Indexed(0),
            Color::Red => AnsiColor::Indexed(1),
            Color::Green => AnsiColor::Indexed(2),
            Color::Yellow => AnsiColor::Indexed(3),
            Color::Blue => AnsiColor::Indexed(4),
            Color::Magenta => AnsiColor::Indexed(5),
            Color::Cyan => AnsiColor::Indexed(6),
            Color::Gray => AnsiColor::Indexed(7),
            Color::DarkGray => AnsiColor::Indexed(8),
            Color::LightRed => AnsiColor::Indexed(9),
            Color::LightGreen => AnsiColor::Indexed(10),
            Color::LightYellow => AnsiColor::Indexed(11),
            Color::LightBlue => AnsiColor::Indexed(12),
            Color::LightMagenta => AnsiColor::Indexed(13),
            Color::LightCyan => AnsiColor::Indexed(14),
            Color::White => AnsiColor::Indexed(15),
            Color::Rgb(r, g, b) => AnsiColor::Rgb(r, g, b),
            Color::Indexed(i) => AnsiColor::Indexed(i),
        }
    }
}

/// Modifier flag: bold text.
pub const BOLD: u16 = 0x001;
/// Modifier flag: dim text.
pub const DIM: u16 = 0x002;
/// Modifier flag: italic text.
pub const ITALIC: u16 = 0x004;
/// Modifier flag: underlined text.
pub const UNDERLINED: u16 = 0x008;
/// Modifier flag: slowly blinking text.
pub const SLOW_BLINK: u16 = 0x010;
/// Modifier flag: rapidly blinking text.
pub const RAPID_BLINK: u16 = 0x020;
/// Modifier flag: foreground and background swapped.
pub const REVERSED: u16 = 0x040;
/// Modifier flag: hidden text.
pub const HIDDEN: u16 = 0x080;
/// Modifier flag: crossed-out text.
pub const CROSSED_OUT: u16 = 0x100;

/// A set of modifier flags.
#[derive(Debug, Clone, Copy, PartialEq, Eq, Structural)]
pub struct Modifier {
    pub bits: u16,
}

impl Modifier {
    /// Whether every bit of `flag` is set.
    pub open spec fn has(self, flag: u16) -> bool {
        self.bits & flag == flag
    }

    /// The flags of `self` that `other` lacks.
    pub open spec fn without(self, other: Modifier) -> Modifier {
        Modifier { bits: self.bits & !other.bits }
    }

    /// The flags that `self` or `other` has.
    pub open spec fn with(self, other: Modifier) -> Modifier {
        Modifier { bits: self.bits | other.bits }
    }

    /// The empty set of flags.
    pub fn empty() -> (r: Modifier)
        ensures
            r.bits == 0,
    {
        Modifier { bits: 0 }
    }

    /// Whether every bit of `flag` is set.
    pub fn contains(self, flag: u16) -> (r: bool)
        ensures
            r == self.has(flag),
    {
        self.bits & flag == flag
    }

    /// Adds the flags of `other`.
    pub fn insert(&mut self, other: Modifier)
        ensures
            *final(self) == old(self).with(other),
    {
        self.bits = self.bits | other.bits;
    }

    /// Takes away the flags of `other`.
    pub fn remove(&mut self, other: Modifier)
        ensures
            *final(self) == old(self).without(other),
    {
        self.bits = self.bits & !other.bits;
    }

    /// The flags of `self` that `other` lacks.
    pub fn difference(self, other: Modifier) -> (r: Modifier)
        ensures
            r == self.without(other),
    {
        Modifier { bits: self.bits & !other.bits }
    }
}

/// How a piece of text looks. A colour that is `None` is left to what the style is laid over.
#[derive(Debug, Clone, Copy, PartialEq, Eq)]
pub struct Style {
    pub fg: Option<Color>,
    pub bg: Option<Color>,
    pub underline_color: Option<Color>,
    pub add_modifier: Modifier,
    pub sub_modifier: Modifier,
}

/// `over` where it names a colour, else `under`.
pub open spec fn color_over(over: Option<Color>, under: Option<Color>) -> Option<Color> {
    if over is Some {
        over
    } else {
        under
    }
}

fn pick_color(over: Option<Color>, under: Option<Color>) -> (r: Option<Color>)
    ensures
        r == color_over(over, under),
{
    match over {
        Some(color) => Some(color),
        None => under,
    }
}

/// The colour that a style asks for: the terminal's default where it names none.
pub open spec fn color_or_reset(color: Option<Color>) -> Color {
    match color {
        Some(color) => color,
        None => Color::Reset,
    }
}

/// The colour itself, or the terminal's default where there is none.
pub fn unwrap_color(color: Option<Color>) -> (r: Color)
    ensures
        r == color_or_reset(color),
{
    match color {
        Some(color) => color,
        None => Color::Reset,
    }
}

impl Style {
    /// The style that changes nothing.
    pub open spec fn plain() -> Style {
        Style {
            fg: None,
            bg: None,
            underline_color: None,
            add_modifier: Modifier { bits: 0 },
            sub_modifier: Modifier { bits: 0 },
        }
    }

    /// `self` with `other` laid over it: the colours of `other` win where it names them, a
    /// modifier that `other` adds is added, one that it takes away is taken away.
    pub open spec fn patched(self, other: Style) -> Style {
        Style {
            fg: color_over(other.fg, self.fg),
            bg: color_over(other.bg, self.bg),
            underline_color: color_over(other.underline_color, self.underline_color),
            add_modifier: self.add_modifier.without(other.sub_modifier).with(other.add_modifier),
            sub_modifier: self.sub_modifier.without(other.add_modifier).with(other.sub_modifier),
        }
    }

    /// Lays `other` over `self`.
    pub fn patch(self, other: Style) -> (r: Style)
        ensures
            r == self.patched(other),
    {
        let mut add_modifier = self.add_modifier;
        let mut sub_modifier = self.sub_modifier;
        add_modifier.remove(other.sub_modifier);
        add_modifier.insert(other.add_modifier);
        sub_modifier.remove(other.add_modifier);
        sub_modifier.insert(other.sub_modifier);
        Style {
            fg: pick_color(other.fg, self.fg),
            bg: pick_color(other.bg, self.bg),
            underline_color: pick_color(other.underline_color, self.underline_color),
            add_modifier,
            sub_modifier,
        }
    }
}

/// A style that is laid over another decides wherever it says something: its colours replace those
/// below, a modifier that it takes away is taken away, and else one that it adds is added. What it
/// says nothing of stays as it was.
pub proof fn law_the_upper_style_decides(under: Style, over: Style, flag: u16)
    ensures
        ({
            let both = under.patched(over);
            let added = |s: Style| s.add_modifier.bits & flag;
            let taken = |s: Style| s.sub_modifier.bits & flag;
            &&& over.fg is Some ==> both.fg == over.fg
            &&& over.fg is None ==> both.fg == under.fg
            &&& over.bg is Some ==> both.bg == over.bg
            &&& over.bg is None ==> both.bg == under.bg
            &&& over.underline_color is Some ==> both.underline_color == over.underline_color
            &&& over.underline_color is None ==> both.underline_color == under.underline_color
            &&& added(both) == (added(under) & !taken(over)) | added(over)
            &&& taken(both) == (taken(under) & !added(over)) | taken(over)
        }),
{
    let (a, s) = (under.add_modifier.bits, under.sub_modifier.bits);
    let (oa, os) = (over.add_modifier.bits, over.sub_modifier.bits);
    assert(((a & !os) | oa) & flag == ((a & flag) & !(os & flag)) | (oa & flag)) by (bit_vector);
    assert(((s & !oa) | os) & flag == ((s & flag) & !(oa & flag)) | (os & flag)) by (bit_vector);
}

/// A missing colour is the terminal's own, and any other is itself.
pub proof fn law_missing_colour_is_the_default(color: Color)
    ensures
        color_or_reset(None) == Color::Reset,
        color_or_reset(Some(color)) == color,
{
}

/// The terminal's own colour is told from all others, and the named ones from each other.
pub proof fn law_colours_are_told_apart(a: Color, b: Color)
    ensures
        a.ansi() is Reset <==> a is Reset,
        a.ansi() == b.ansi() && !(a is Indexed) && !(b is Indexed) ==> a == b,
        a matches Color::Indexed(i) ==> a.ansi() == AnsiColor::Indexed(i),
        a matches Color::Rgb(r, g, b) ==> a.ansi() == AnsiColor::Rgb(r, g, b),
        !(a is Reset) && !(a is Rgb) && !(a is Indexed) ==> (a.ansi() matches AnsiColor::Indexed(i)
            && i < 16),
{
}

impl Default for Style {
    fn default() -> (r: Self)
        ensures
            r == Style::plain(),
    {
        Style {
            fg: None,
            bg: None,
            underline_color: None,
            add_modifier: Modifier::empty(),
            sub_modifier: Modifier::empty(),
        }
    }
}

} // verus!
