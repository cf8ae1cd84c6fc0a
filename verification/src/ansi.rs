//! The escape sequences of the terminal commands, as `crossterm` writes them.

use vstd::prelude::*;
use crossterm::style::Attribute as Sgr;
use crossterm::style::{Colors, SetBackgroundColor, SetColors, SetForegroundColor};
use crossterm::Command as _;
use ratatui::style::Color as Tui;
use crate::command::Attribute;
use crate::style::Color::{
    Black, Blue, Cyan, DarkGray, Gray, Green, Indexed, LightBlue, LightCyan, LightGreen,
    LightMagenta, LightRed, LightYellow, Magenta, Red, Reset, Rgb, White, Yellow,
};
use crate::style::{AnsiColor, Color};

verus! {

/// The decimal digit of `d`.
pub open spec fn digit(d: nat) -> char {
    (('0' as int) + d) as char
}

/// `n` in decimal, without leading zeros.
pub open spec fn decimal(n: nat) -> Seq<char>
    decreases n,
{
    if n < 10 {
        seq![digit(n)]
    } else {
        decimal(n / 10).push(digit(n % 10))
    }
}

/// The control sequence with the given parameters and final character.
pub open spec fn csi(parameters: Seq<char>, last: char) -> Seq<char> {
    seq!['\u{1b}', '['] + parameters + seq![last]
}

/// Two parameters of a control sequence.
pub open spec fn pair(first: Seq<char>, second: Seq<char>) -> Seq<char> {
    first + seq![';'] + second
}

/// The parameters that choose `color`: `default` goes back to the terminal's own colour, `base`
/// announces another one. When colour output is switched off nothing stands in their place.
pub open spec fn color_parameters(color: AnsiColor, base: nat, default: nat, colored: bool) -> Seq<
    char,
> {
    if !colored {
        seq![]
    } else {
        match color {
            AnsiColor::Reset => decimal(default),
            AnsiColor::Indexed(i) => pair(pair(decimal(base), decimal(5)), decimal(i as nat)),
            AnsiColor::Rgb(r, g, b) => pair(
                pair(decimal(base), decimal(2)),
                pair(pair(decimal(r as nat), decimal(g as nat)), decimal(b as nat)),
            ),
        }
    }
}

/// The parameters that choose a foreground colour.
pub open spec fn foreground_parameters(color: Color, colored: bool) -> Seq<char> {
    color_parameters(color.ansi(), 38, 39, colored)
}

/// The parameters that choose a background colour.
pub open spec fn background_parameters(color: Color, colored: bool) -> Seq<char> {
    color_parameters(color.ansi(), 48, 49, colored)
}

/// The sequence that sets both colours.
pub open spec fn colors_sequence(
    fg: Color,
    bg: Color,
    fg_colored: bool,
    bg_colored: bool,
) -> Seq<char> {
    csi(
        pair(foreground_parameters(fg, fg_colored), background_parameters(bg, bg_colored)),
        'm',
    )
}

/// The numbers that a terminal reads from the parameters of a control sequence: decimals with
/// semicolons between them, an empty one counting as zero.
pub open spec fn read_numbers(parameters: Seq<char>) -> Seq<nat>
    decreases parameters.len(),
{
    if parameters.len() == 0 {
        seq![0]
    } else {
        let before = read_numbers(parameters.drop_last());
        let c = parameters.last();
        if c == ';' {
            before.push(0)
        } else {
            before.update(before.len() - 1, (before.last() * 10 + (c as int - '0' as int)) as nat)
        }
    }
}

proof fn lemma_some_number(parameters: Seq<char>)
    ensures
        read_numbers(parameters).len() >= 1,
    decreases parameters.len(),
{
    if parameters.len() > 0 {
        lemma_some_number(parameters.drop_last());
    }
}

/// A number that is written in decimal is read back, from digits only and without leading zeros.
pub proof fn law_decimal_reads_back(n: nat)
    ensures
        read_numbers(decimal(n)) == seq![n],
        decimal(n).len() >= 1,
        forall|i: int| 0 <= i < decimal(n).len() ==> '0' as int <= #[trigger] decimal(n)[i] as int
            && decimal(n)[i] as int <= '9' as int,
        n > 0 ==> decimal(n)[0] != '0',
    decreases n,
{
    let text = decimal(n);
    if n < 10 {
        assert(text.drop_last() =~= seq![]);
        assert(read_numbers(text.drop_last()) =~= seq![0nat]);
        assert(read_numbers(text) =~= seq![n]);
    } else {
        law_decimal_reads_back(n / 10);
        assert(text.drop_last() =~= decimal(n / 10));
        assert(read_numbers(text) =~= seq![n]);
    }
}

/// Of two parameters, the terminal reads the numbers of the first and then those of the second.
pub proof fn law_pair_reads_back(first: Seq<char>, second: Seq<char>)
    ensures
        read_numbers(pair(first, second)) == read_numbers(first) + read_numbers(second),
    decreases second.len(),
{
    let text = pair(first, second);
    if second.len() == 0 {
        assert(text.drop_last() =~= first);
        assert(read_numbers(second) =~= seq![0nat]);
        assert(read_numbers(text) =~= read_numbers(first) + read_numbers(second));
    } else {
        law_pair_reads_back(first, second.drop_last());
        lemma_some_number(second.drop_last());
        assert(text.drop_last() =~= pair(first, second.drop_last()));
        assert(text.last() == second.last());
        assert(read_numbers(text) =~= read_numbers(first) + read_numbers(second));
    }
}

/// Calls `crossterm::cursor::MoveTo::write_ansi`. Believed of it: it writes the row and the
/// column, both counted from one. The two additions overflow for the largest coordinate, which is
/// left out.
#[verifier::external_body]
pub(crate) fn move_to(x: u16, y: u16) -> (r: String)
    requires
        x < u16::MAX,
        y < u16::MAX,
    ensures
        r@ == csi(pair(decimal((y + 1) as nat), decimal((x + 1) as nat)), 'H'),
{
    let mut text = String::new();
    let _ = crossterm::cursor::MoveTo(x, y).write_ansi(&mut text);
    text
}

/// Calls `crossterm::cursor::MoveDown::write_ansi`. Believed of it: it writes the number of rows.
#[verifier::external_body]
pub(crate) fn move_down(rows: u16) -> (r: String)
    ensures
        r@ == csi(decimal(rows as nat), 'B'),
{
    let mut text = String::new();
    let _ = crossterm::cursor::MoveDown(rows).write_ansi(&mut text);
    text
}

/// Calls `crossterm::cursor::MoveToColumn::write_ansi`. Believed of it: it writes the column,
/// counted from one. The addition overflows for the largest column, which is left out.
#[verifier::external_body]
pub(crate) fn move_to_column(column: u16) -> (r: String)
    requires
        column < u16::MAX,
    ensures
        r@ == csi(decimal((column + 1) as nat), 'G'),
{
    let mut text = String::new();
    let _ = crossterm::cursor::MoveToColumn(column).write_ansi(&mut text);
    text
}

/// Calls `crossterm::cursor::SavePosition::write_ansi`. Believed of it: it writes `ESC 7`.
#[verifier::external_body]
pub(crate) fn save_position() -> (r: String)
    ensures
        r@ == seq!['\u{1b}', '7'],
{
    let mut text = String::new();
    let _ = crossterm::cursor::SavePosition.write_ansi(&mut text);
    text
}

/// Calls `crossterm::cursor::RestorePosition::write_ansi`. Believed of it: it writes `ESC 8`.
#[verifier::external_body]
pub(crate) fn restore_position() -> (r: String)
    ensures
        r@ == seq!['\u{1b}', '8'],
{
    let mut text = String::new();
    let _ = crossterm::cursor::RestorePosition.write_ansi(&mut text);
    text
}

/// Calls `crossterm::terminal::Clear::write_ansi` for `ClearType::UntilNewLine`. Believed of it:
/// it writes the erase-in-line sequence without a parameter.
#[verifier::external_body]
pub(crate) fn clear_until_new_line() -> (r: String)
    ensures
        r@ == csi(seq![], 'K'),
{
    let mut text = String::new();
    let _ = crossterm::terminal::Clear(crossterm::terminal::ClearType::UntilNewLine).write_ansi(
        &mut text,
    );
    text
}

/// Calls `crossterm::style::SetColors::write_ansi` with the colours that `ratatui` makes of its own
/// (`From<Color>` for `crossterm`'s `Color`). Believed of them: the parameters of both colours are
/// written, a named colour being its palette entry. Where colour output is switched off (by the
/// `NO_COLOR` variable or by `crossterm::style::force_color_output`) a colour leaves no parameters.
/// The switch can be turned at any time, also between the two colours, so it is left open for each
/// of them.
#[verifier::external_body]
pub(crate) fn set_colors(fg: Color, bg: Color) -> (r: String)
    ensures
        exists|fg_colored: bool, bg_colored: bool|
            r@ == colors_sequence(fg, bg, fg_colored, bg_colored),
{
    let mut text = String::new();
    let [fg, bg] = [fg, bg].map(|color| match color {
        Reset => Tui::Reset, Black => Tui::Black, Red => Tui::Red, Green => Tui::Green,
        Yellow => Tui::Yellow, Blue => Tui::Blue, Magenta => Tui::Magenta, Cyan => Tui::Cyan,
        Gray => Tui::Gray, DarkGray => Tui::DarkGray, LightRed => Tui::LightRed,
        LightGreen => Tui::LightGreen, LightYellow => Tui::LightYellow,
        LightBlue => Tui::LightBlue, LightMagenta => Tui::LightMagenta,
        LightCyan => Tui::LightCyan, White => Tui::White,
        Rgb(r, g, b) => Tui::Rgb(r, g, b), Indexed(i) => Tui::Indexed(i),
    }.into());
    let _ = SetColors(Colors::new(fg, bg)).write_ansi(&mut text);
    text
}

/// Calls `crossterm::style::SetForegroundColor::write_ansi` with the colour that `ratatui` makes of
/// its own (`From<Color>` for `crossterm`'s `Color`). Believed of them: the parameters of the colour
/// are written, a named colour being its palette entry, or none where colour output is switched
/// off.
#[verifier::external_body]
pub(crate) fn set_foreground_color(color: Color) -> (r: String)
    ensures
        r@ == csi(foreground_parameters(color, true), 'm') || r@ == csi(
            foreground_parameters(color, false),
            'm',
        ),
{
    let mut text = String::new();
    let outside = match color {
        Reset => Tui::Reset, Black => Tui::Black, Red => Tui::Red, Green => Tui::Green,
        Yellow => Tui::Yellow, Blue => Tui::Blue, Magenta => Tui::Magenta, Cyan => Tui::Cyan,
        Gray => Tui::Gray, DarkGray => Tui::DarkGray, LightRed => Tui::LightRed,
        LightGreen => Tui::LightGreen, LightYellow => Tui::LightYellow,
        LightBlue => Tui::LightBlue, LightMagenta => Tui::LightMagenta,
        LightCyan => Tui::LightCyan, White => Tui::White,
        Rgb(r, g, b) => Tui::Rgb(r, g, b), Indexed(i) => Tui::Indexed(i),
    };
    let _ = SetForegroundColor(outside.into()).write_ansi(&mut text);
    text
}

/// Calls `crossterm::style::SetBackgroundColor::write_ansi` with the colour that `ratatui` makes of
/// its own (`From<Color>` for `crossterm`'s `Color`). Believed of them: the parameters of the colour
/// are written, a named colour being its palette entry, or none where colour output is switched
/// off.
#[verifier::external_body]
pub(crate) fn set_background_color(color: Color) -> (r: String)
    ensures
        r@ == csi(background_parameters(color, true), 'm') || r@ == csi(
            background_parameters(color, false),
            'm',
        ),
{
    let mut text = String::new();
    let outside = match color {
        Reset => Tui::Reset, Black => Tui::Black, Red => Tui::Red, Green => Tui::Green,
        Yellow => Tui::Yellow, Blue => Tui::Blue, Magenta => Tui::Magenta, Cyan => Tui::Cyan,
        Gray => Tui::Gray, DarkGray => Tui::DarkGray, LightRed => Tui::LightRed,
        LightGreen => Tui::LightGreen, LightYellow => Tui::LightYellow,
        LightBlue => Tui::LightBlue, LightMagenta => Tui::LightMagenta,
        LightCyan => Tui::LightCyan, White => Tui::White,
        Rgb(r, g, b) => Tui::Rgb(r, g, b), Indexed(i) => Tui::Indexed(i),
    };
    let _ = SetBackgroundColor(outside.into()).write_ansi(&mut text);
    text
}

/// Whether `text` is what `crossterm` wrote for these two colours. Whether they left their
/// parameters is decided there, and by nobody else.
pub closed spec fn wrote_colors(fg: Color, bg: Color, text: Seq<char>) -> bool {
    exists|r: String| #[trigger] call_ensures(set_colors, (fg, bg), r) && r@ == text
}

/// Whether `text` is what `crossterm` wrote for this foreground colour.
pub closed spec fn wrote_foreground_color(color: Color, text: Seq<char>) -> bool {
    exists|r: String| #[trigger] call_ensures(set_foreground_color, (color,), r) && r@ == text
}

/// Whether `text` is what `crossterm` wrote for this background colour.
pub closed spec fn wrote_background_color(color: Color, text: Seq<char>) -> bool {
    exists|r: String| #[trigger] call_ensures(set_background_color, (color,), r) && r@ == text
}

fn ask<A, F: Fn(A) -> String>(write: F, color: A) -> (r: String)
    requires
        call_requires(write, (color,)),
    ensures
        call_ensures(write, (color,), r),
{
    write(color)
}

fn ask_both<A, F: Fn(A, A) -> String>(write: F, fg: A, bg: A) -> (r: String)
    requires
        call_requires(write, (fg, bg)),
    ensures
        call_ensures(write, (fg, bg), r),
{
    write(fg, bg)
}

/// What `crossterm` writes for two colours.
pub(crate) fn colors_text(fg: Color, bg: Color) -> (r: String)
    ensures
        wrote_colors(fg, bg, r@),
        exists|fg_colored: bool, bg_colored: bool|
            r@ == colors_sequence(fg, bg, fg_colored, bg_colored),
{
    ask_both(set_colors, fg, bg)
}

/// What `crossterm` writes for a foreground colour.
pub(crate) fn foreground_text(color: Color) -> (r: String)
    ensures
        wrote_foreground_color(color, r@),
        r@ == csi(foreground_parameters(color, true), 'm') || r@ == csi(
            foreground_parameters(color, false),
            'm',
        ),
{
    ask(set_foreground_color, color)
}

/// What `crossterm` writes for a background colour.
pub(crate) fn background_text(color: Color) -> (r: String)
    ensures
        wrote_background_color(color, r@),
        r@ == csi(background_parameters(color, true), 'm') || r@ == csi(
            background_parameters(color, false),
            'm',
        ),
{
    ask(set_background_color, color)
}

/// Calls `crossterm::style::SetAttribute::write_ansi`. Believed of it: it writes the number of the
/// attribute.
#[verifier::external_body]
pub(crate) fn set_attribute(attribute: Attribute) -> (r: String)
    ensures
        r@ == csi(decimal(attribute.code()), 'm'),
{
    let mut text = String::new();
    let outside = match attribute {
        Attribute::Reset => Sgr::Reset, Attribute::Bold => Sgr::Bold,
        Attribute::Dim => Sgr::Dim, Attribute::Italic => Sgr::Italic,
        Attribute::Underlined => Sgr::Underlined, Attribute::SlowBlink => Sgr::SlowBlink,
        Attribute::RapidBlink => Sgr::RapidBlink, Attribute::Reverse => Sgr::Reverse,
        Attribute::CrossedOut => Sgr::CrossedOut, Attribute::NoItalic => Sgr::NoItalic,
        Attribute::NormalIntensity => Sgr::NormalIntensity,
        Attribute::NoUnderline => Sgr::NoUnderline, Attribute::NoBlink => Sgr::NoBlink,
        Attribute::NoReverse => Sgr::NoReverse, Attribute::NotCrossedOut => Sgr::NotCrossedOut,
    };
    let _ = crossterm::style::SetAttribute(outside).write_ansi(&mut text);
    text
}

/// Calls `crossterm::style::Print::write_ansi`. Believed of it: it writes the text as it is.
#[verifier::external_body]
pub(crate) fn print(content: &str) -> (r: String)
    ensures
        r@ == content@,
{
    let mut text = String::new();
    let _ = crossterm::style::Print(content).write_ansi(&mut text);
    text
}

fn digit_text(d: u16) -> (r: &'static str)
    requires
        d < 10,
    ensures
        r@ == seq![digit(d as nat)],
{
    proof {
        reveal_strlit("0");
        reveal_strlit("1");
        reveal_strlit("2");
        reveal_strlit("3");
        reveal_strlit("4");
        reveal_strlit("5");
        reveal_strlit("6");
        reveal_strlit("7");
        reveal_strlit("8");
        reveal_strlit("9");
    }
    match d {
        0 => "0",
        1 => "1",
        2 => "2",
        3 => "3",
        4 => "4",
        5 => "5",
        6 => "6",
        7 => "7",
        8 => "8",
        _ => "9",
    }
}

fn push_decimal(text: &mut String, n: u16)
    ensures
        final(text)@ == old(text)@ + decimal(n as nat),
    decreases n,
{
    if n >= 10 {
        push_decimal(text, n / 10);
    }
    text.append(digit_text(n % 10));
    assert(text@ =~= old(text)@ + decimal(n as nat));
}

/// Sets the scroll region: the terminal then scrolls only the rows from `start` to `end`, both
/// counted from one and both included.
#[derive(Debug, PartialEq, Eq)]
pub struct SetScrollRegion(pub std::ops::Range<u16>);

impl Clone for SetScrollRegion {
    fn clone(&self) -> (r: Self)
        ensures
            r == *self,
    {
        SetScrollRegion(self.0.start..self.0.end)
    }
}

impl SetScrollRegion {
    /// Appends the escape sequence of this command.
    pub fn write_ansi(&self, text: &mut String)
        ensures
            final(text)@ == old(text)@ + csi(
                pair(decimal(self.0.start as nat), decimal(self.0.end as nat)),
                'r',
            ),
    {
        proof {
            reveal_strlit("\x1b[");
            reveal_strlit(";");
            reveal_strlit("r");
        }
        text.append("\x1b[");
        push_decimal(text, self.0.start);
        text.append(";");
        push_decimal(text, self.0.end);
        text.append("r");
        assert(text@ =~= old(text)@ + csi(
            pair(decimal(self.0.start as nat), decimal(self.0.end as nat)),
            'r',
        ));
    }

    /// Whether a console can be sent the escape sequence: always.
    pub fn is_ansi_code_supported(&self) -> (r: bool)
        ensures
            r,
    {
        true
    }
}

/// Lets the terminal scroll the whole screen again.
#[derive(Debug, Clone, Copy, PartialEq, Eq)]
pub struct ResetScrollRegion;

impl ResetScrollRegion {
    /// Appends the escape sequence of this command.
    pub fn write_ansi(&self, text: &mut String)
        ensures
            final(text)@ == old(text)@ + csi(seq![], 'r'),
    {
        proof {
            reveal_strlit("\x1b[r");
        }
        text.append("\x1b[r");
        assert(text@ =~= old(text)@ + csi(seq![], 'r'));
    }

    /// Whether a console can be sent the escape sequence: always.
    pub fn is_ansi_code_supported(&self) -> (r: bool)
        ensures
            r,
    {
        true
    }
}

} // verus!
