//! The commands that history insertion sends to a terminal.

use vstd::prelude::*;
use crate::ansi::{
    background_parameters, background_text, clear_until_new_line, color_parameters,
    colors_sequence, colors_text, csi, decimal, foreground_parameters, foreground_text,
    law_decimal_reads_back, law_pair_reads_back, move_down, move_to, move_to_column, pair, print,
    read_numbers, restore_position, save_position, set_attribute, wrote_background_color,
    wrote_colors, wrote_foreground_color, ResetScrollRegion, SetScrollRegion,
};
use crate::style::{AnsiColor, Color};

verus! {

/// A text attribute that the terminal can be told to switch on or off.
#[derive(Debug, Clone, Copy, PartialEq, Eq, Structural)]
pub enum Attribute {
    Reset,
    Bold,
    Dim,
    Italic,
    Underlined,
    SlowBlink,
    RapidBlink,
    Reverse,
    CrossedOut,
    NormalIntensity,
    NoItalic,
    NoUnderline,
    NoBlink,
    NoReverse,
    NotCrossedOut,
}

impl Attribute {
    /// The number that selects the attribute in a graphic rendition sequence.
    pub open spec fn code(self) -> nat {
        match self {
            Attribute::Reset => 0,
            Attribute::Bold => 1,
            Attribute::Dim => 2,
            Attribute::Italic => 3,
            Attribute::Underlined => 4,
            Attribute::SlowBlink => 5,
            Attribute::RapidBlink => 6,
            Attribute::Reverse => 7,
            Attribute::CrossedOut => 9,
            Attribute::NormalIntensity => 22,
            Attribute::NoItalic => 23,
            Attribute::NoUnderline => 24,
            Attribute::NoBlink => 25,
            Attribute::NoReverse => 27,
            Attribute::NotCrossedOut => 29,
        }
    }
}

/// One command to the terminal. Rows and columns count from zero.
#[derive(Debug, PartialEq, Eq)]
pub enum Command {
    /// Moves the cursor to a column and a row.
    MoveTo(u16, u16),
    /// Moves the cursor down, not past the last row.
    MoveDown(u16),
    /// Moves the cursor to a column of its row.
    MoveToColumn(u16),
    /// Remembers the cursor's place.
    SavePosition,
    /// Goes back to the remembered place.
    RestorePosition,
    /// Limits scrolling to some rows.
    SetScrollRegion(SetScrollRegion),
    /// Lets the whole screen scroll.
    ResetScrollRegion(ResetScrollRegion),
    /// Erases from the cursor to the end of its row.
    ClearUntilNewLine,
    /// Moves the cursor up, scrolling down when it is at the top of the scroll region.
    ReverseIndex,
    /// Goes to the first column of the next row, scrolling up when at the bottom of the region.
    LineBreak,
    /// Sets the foreground and the background colour.
    SetColors(Color, Color),
    /// Sets the foreground colour.
    SetForegroundColor(Color),
    /// Sets the background colour.
    SetBackgroundColor(Color),
    /// Switches a text attribute.
    SetAttribute(Attribute),
    /// Writes text at the cursor.
    Print(String),
}

/// Whether each of the two colours of a command leaves its parameters in the escape sequence.
pub struct Coloring {
    pub fg: bool,
    pub bg: bool,
}

impl Command {
    /// The characters that tell the terminal to obey this command.
    pub open spec fn ansi(self, colored: Coloring) -> Seq<char> {
        match self {
            Command::MoveTo(x, y) => csi(
                pair(decimal((y + 1) as nat), decimal((x + 1) as nat)),
                'H',
            ),
            Command::MoveDown(rows) => csi(decimal(rows as nat), 'B'),
            Command::MoveToColumn(column) => csi(decimal((column + 1) as nat), 'G'),
            Command::SavePosition => seq!['\u{1b}', '7'],
            Command::RestorePosition => seq!['\u{1b}', '8'],
            Command::SetScrollRegion(region) => csi(
                pair(decimal(region.0.start as nat), decimal(region.0.end as nat)),
                'r',
            ),
            Command::ResetScrollRegion(_) => csi(seq![], 'r'),
            Command::ClearUntilNewLine => csi(seq![], 'K'),
            Command::ReverseIndex => seq!['\u{1b}', 'M'],
            Command::LineBreak => seq!['\r', '\n'],
            Command::SetColors(fg, bg) => colors_sequence(fg, bg, colored.fg, colored.bg),
            Command::SetForegroundColor(color) => csi(
                foreground_parameters(color, colored.fg),
                'm',
            ),
            Command::SetBackgroundColor(color) => csi(
                background_parameters(color, colored.bg),
                'm',
            ),
            Command::SetAttribute(attribute) => csi(decimal(attribute.code()), 'm'),
            Command::Print(text) => text@,
        }
    }

    /// Whether `text` is what was written for this command. Of a colour it is what `crossterm` wrote:
    /// the choice to leave its parameters out is not made here.
    pub open spec fn is_written_as(self, text: Seq<char>) -> bool {
        &&& exists|colored: Coloring| text == #[trigger] self.ansi(colored)
        &&& match self {
            Command::SetColors(fg, bg) => wrote_colors(fg, bg, text),
            Command::SetForegroundColor(color) => wrote_foreground_color(color, text),
            Command::SetBackgroundColor(color) => wrote_background_color(color, text),
            _ => true,
        }
    }

    /// Whether the coordinates, counted from one, fit the escape sequence.
    pub open spec fn is_writable(self) -> bool {
        match self {
            Command::MoveTo(x, y) => x < u16::MAX && y < u16::MAX,
            Command::MoveToColumn(column) => column < u16::MAX,
            _ => true,
        }
    }

    /// Appends the escape sequence of this command. Whether a colour leaves its parameters depends
    /// on the process: `NO_COLOR` and `crossterm` decide.
    pub fn write_ansi(&self, out: &mut String)
        requires
            self.is_writable(),
        ensures
            exists|colored: Coloring| final(out)@ == old(out)@ + #[trigger] self.ansi(colored),
            exists|text: Seq<char>|
                final(out)@ == old(out)@ + text && #[trigger] self.is_written_as(text),
    {
        let ghost mut colored = Coloring { fg: true, bg: true };
        match self {
            Command::MoveTo(x, y) => out.append(move_to(*x, *y).as_str()),
            Command::MoveDown(rows) => out.append(move_down(*rows).as_str()),
            Command::MoveToColumn(column) => out.append(move_to_column(*column).as_str()),
            Command::SavePosition => out.append(save_position().as_str()),
            Command::RestorePosition => out.append(restore_position().as_str()),
            Command::SetScrollRegion(region) => region.write_ansi(out),
            Command::ResetScrollRegion(region) => region.write_ansi(out),
            Command::ClearUntilNewLine => out.append(clear_until_new_line().as_str()),
            Command::ReverseIndex => {
                proof {
                    reveal_strlit("\x1bM");
                }
                out.append(print("\x1bM").as_str());
                assert(out@ =~= old(out)@ + self.ansi(colored));
            },
            Command::LineBreak => {
                proof {
                    reveal_strlit("\r\n");
                }
                out.append(print("\r\n").as_str());
                assert(out@ =~= old(out)@ + self.ansi(colored));
            },
            Command::SetColors(fg, bg) => {
                let text = colors_text(*fg, *bg);
                out.append(text.as_str());
                proof {
                    let (f, b) = choose|f: bool, b: bool| text@ == colors_sequence(*fg, *bg, f, b);
                    colored = Coloring { fg: f, bg: b };
                }
            },
            Command::SetForegroundColor(color) => {
                let text = foreground_text(*color);
                out.append(text.as_str());
                proof {
                    let f = text@ == csi(foreground_parameters(*color, true), 'm');
                    colored = Coloring { fg: f, bg: true };
                }
            },
            Command::SetBackgroundColor(color) => {
                let text = background_text(*color);
                out.append(text.as_str());
                proof {
                    let b = text@ == csi(background_parameters(*color, true), 'm');
                    colored = Coloring { fg: true, bg: b };
                }
            },
            Command::SetAttribute(attribute) => out.append(set_attribute(*attribute).as_str()),
            Command::Print(text) => out.append(print(text.as_str()).as_str()),
        }
        assert(out@ == old(out)@ + self.ansi(colored));
        proof {
            let text = self.ansi(colored);
            assert(out@.skip(old(out)@.len() as int) =~= text);
            assert(self.is_written_as(text));
        }
    }
}

/// The characters of some commands, one after the other.
pub open spec fn commands_ansi(commands: Seq<Command>, colored: Seq<Coloring>) -> Seq<char>
    recommends
        commands.len() == colored.len(),
    decreases commands.len(),
{
    if commands.len() == 0 {
        seq![]
    } else {
        commands_ansi(commands.drop_last(), colored.drop_last()) + commands.last().ansi(
            colored.last(),
        )
    }
}

/// Whether `text` is what the commands come to, whichever colours left their parameters.
pub open spec fn is_ansi_of(text: Seq<char>, commands: Seq<Command>) -> bool {
    exists|colored: Seq<Coloring>|
        colored.len() == commands.len() && text == #[trigger] commands_ansi(commands, colored)
}

/// Some texts, one after the other.
pub open spec fn joined(texts: Seq<Seq<char>>) -> Seq<char>
    decreases texts.len(),
{
    if texts.len() == 0 {
        seq![]
    } else {
        joined(texts.drop_last()) + texts.last()
    }
}

/// Whether each of some texts is what was written for the command at its place.
pub open spec fn are_written_as(commands: Seq<Command>, texts: Seq<Seq<char>>) -> bool {
    &&& commands.len() == texts.len()
    &&& forall|i: int| 0 <= i < commands.len() ==> (#[trigger] commands[i]).is_written_as(texts[i])
}

/// The escape sequences of `commands`.
pub fn ansi_text(commands: &Vec<Command>) -> (r: String)
    requires
        forall|i: int| 0 <= i < commands.len() ==> (#[trigger] commands@[i]).is_writable(),
    ensures
        is_ansi_of(r@, commands@),
        exists|texts: Seq<Seq<char>>|
            #[trigger] are_written_as(commands@, texts) && r@ == joined(texts),
{
    let mut out = String::new();
    let mut i: usize = 0;
    let ghost mut colored: Seq<Coloring> = seq![];
    let ghost mut texts: Seq<Seq<char>> = seq![];
    while i < commands.len()
        invariant
            i <= commands.len(),
            forall|i: int| 0 <= i < commands.len() ==> (#[trigger] commands@[i]).is_writable(),
            colored.len() == i,
            out@ == commands_ansi(commands@.take(i as int), colored),
            are_written_as(commands@.take(i as int), texts),
            out@ == joined(texts),
        decreases commands.len() - i,
    {
        let ghost before = out@;
        commands[i].write_ansi(&mut out);
        proof {
            let text = choose|text: Seq<char>|
                out@ == before + text && #[trigger] commands@[i as int].is_written_as(text);
            let c = choose|c: Coloring| text == #[trigger] commands@[i as int].ansi(c);
            assert(texts.push(text).drop_last() =~= texts);
            let next = commands@.take(i + 1);
            assert forall|k: int| 0 <= k < next.len() implies (
            #[trigger] next[k]).is_written_as(texts.push(text)[k]) by {
                if k < i {
                    assert(next[k] == commands@.take(i as int)[k]);
                }
            }
            texts = texts.push(text);
            assert(commands@.take(i + 1).drop_last() =~= commands@.take(i as int));
            assert(colored.push(c).drop_last() =~= colored);
            colored = colored.push(c);
        }
        i = i + 1;
    }
    proof {
        assert(commands@.take(commands@.len() as int) =~= commands@);
    }
    out
}

/// Every command is written, at its place, and all that it says is written.
pub proof fn law_every_command_is_written(commands: Seq<Command>, texts: Seq<Seq<char>>, i: int)
    requires
        are_written_as(commands, texts),
        0 <= i < commands.len(),
    ensures
        texts.len() == commands.len(),
        exists|colored: Coloring| texts[i] == #[trigger] commands[i].ansi(colored),
        commands[i] matches Command::Print(content) ==> texts[i] == content@,
        commands[i] matches Command::SetColors(fg, bg) ==> wrote_colors(fg, bg, texts[i]),
        commands[i] matches Command::SetForegroundColor(fg) ==> wrote_foreground_color(
            fg,
            texts[i],
        ),
        commands[i] matches Command::SetBackgroundColor(bg) ==> wrote_background_color(
            bg,
            texts[i],
        ),
{
    assert(commands[i].is_written_as(texts[i]));
}

/// Of a colour, what is written is what `crossterm` writes for it, with all its parameters or with
/// none, as it decides.
pub proof fn law_colours_are_left_to_crossterm(fg: Color, bg: Color, text: Seq<char>)
    ensures
        Command::SetColors(fg, bg).is_written_as(text) ==> wrote_colors(fg, bg, text),
        Command::SetForegroundColor(fg).is_written_as(text) ==> wrote_foreground_color(fg, text),
        Command::SetBackgroundColor(bg).is_written_as(text) ==> wrote_background_color(bg, text),
{
}

/// The numbers by which a terminal is told of a colour: `base` and what follows, or `default`.
pub open spec fn color_numbers(color: AnsiColor, base: nat, default: nat) -> Seq<nat> {
    match color {
        AnsiColor::Reset => seq![default],
        AnsiColor::Indexed(i) => seq![base, 5, i as nat],
        AnsiColor::Rgb(r, g, b) => seq![base, 2, r as nat, g as nat, b as nat],
    }
}

proof fn lemma_color_reads_back(color: AnsiColor, base: nat, default: nat)
    ensures
        read_numbers(color_parameters(color, base, default, true)) == color_numbers(
            color,
            base,
            default,
        ),
{
    law_decimal_reads_back(default);
    law_decimal_reads_back(base);
    law_decimal_reads_back(5);
    law_decimal_reads_back(2);
    match color {
        AnsiColor::Reset => {},
        AnsiColor::Indexed(i) => {
            law_decimal_reads_back(i as nat);
            law_pair_reads_back(decimal(base), decimal(5));
            law_pair_reads_back(pair(decimal(base), decimal(5)), decimal(i as nat));
        },
        AnsiColor::Rgb(r, g, b) => {
            law_decimal_reads_back(r as nat);
            law_decimal_reads_back(g as nat);
            law_decimal_reads_back(b as nat);
            law_pair_reads_back(decimal(base), decimal(2));
            law_pair_reads_back(decimal(r as nat), decimal(g as nat));
            law_pair_reads_back(pair(decimal(r as nat), decimal(g as nat)), decimal(b as nat));
            law_pair_reads_back(
                pair(decimal(base), decimal(2)),
                pair(pair(decimal(r as nat), decimal(g as nat)), decimal(b as nat)),
            );
        },
    }
    assert(read_numbers(color_parameters(color, base, default, true)) =~= color_numbers(
        color,
        base,
        default,
    ));
}

/// Whether a terminal reads `text` as the control sequence that ends in `last`, with the given
/// numbers.
pub open spec fn reads_as(text: Seq<char>, last: char, numbers: Seq<nat>) -> bool {
    &&& text.len() >= 3
    &&& text[0] == '\u{1b}'
    &&& text[1] == '['
    &&& text.last() == last
    &&& read_numbers(text.subrange(2, text.len() - 1)) == numbers
}

proof fn lemma_csi_reads_as(parameters: Seq<char>, last: char)
    ensures
        reads_as(csi(parameters, last), last, read_numbers(parameters)),
{
    let text = csi(parameters, last);
    assert(text.subrange(2, text.len() - 1) =~= parameters);
}

/// A terminal reads from the escape sequence of a command the very numbers of the command, rows and
/// columns counted from one; text it gets as it is.
pub proof fn law_commands_read_back(command: Command)
    ensures
        ({
            let text = command.ansi(Coloring { fg: true, bg: true });
            match command {
                Command::MoveTo(x, y) => reads_as(text, 'H', seq![(y + 1) as nat, (x + 1) as nat]),
                Command::MoveDown(n) => reads_as(text, 'B', seq![n as nat]),
                Command::MoveToColumn(x) => reads_as(text, 'G', seq![(x + 1) as nat]),
                Command::SetScrollRegion(region) => reads_as(
                    text,
                    'r',
                    seq![region.0.start as nat, region.0.end as nat],
                ),
                Command::SetColors(fg, bg) => reads_as(
                    text,
                    'm',
                    color_numbers(fg.ansi(), 38, 39) + color_numbers(bg.ansi(), 48, 49),
                ),
                Command::SetForegroundColor(fg) => reads_as(
                    text,
                    'm',
                    color_numbers(fg.ansi(), 38, 39),
                ),
                Command::SetBackgroundColor(bg) => reads_as(
                    text,
                    'm',
                    color_numbers(bg.ansi(), 48, 49),
                ),
                Command::SetAttribute(attribute) => reads_as(text, 'm', seq![attribute.code()]),
                Command::Print(content) => text == content@,
                Command::ReverseIndex => text == seq!['\u{1b}', 'M'],
                Command::LineBreak => text == seq!['\r', '\n'],
                Command::SavePosition => text == seq!['\u{1b}', '7'],
                Command::RestorePosition => text == seq!['\u{1b}', '8'],
                Command::ResetScrollRegion(_) => text == seq!['\u{1b}', '[', 'r'],
                Command::ClearUntilNewLine => text == seq!['\u{1b}', '[', 'K'],
            }
        }),
{
    match command {
        Command::MoveTo(x, y) => {
            law_decimal_reads_back((y + 1) as nat);
            law_decimal_reads_back((x + 1) as nat);
            let parameters = pair(decimal((y + 1) as nat), decimal((x + 1) as nat));
            law_pair_reads_back(decimal((y + 1) as nat), decimal((x + 1) as nat));
            assert(read_numbers(parameters) =~= seq![(y + 1) as nat, (x + 1) as nat]);
            lemma_csi_reads_as(parameters, 'H');
        },
        Command::MoveDown(n) => {
            law_decimal_reads_back(n as nat);
            lemma_csi_reads_as(decimal(n as nat), 'B');
        },
        Command::MoveToColumn(x) => {
            law_decimal_reads_back((x + 1) as nat);
            lemma_csi_reads_as(decimal((x + 1) as nat), 'G');
        },
        Command::SetScrollRegion(region) => {
            let start = region.0.start as nat;
            let end = region.0.end as nat;
            law_decimal_reads_back(start);
            law_decimal_reads_back(end);
            law_pair_reads_back(decimal(start), decimal(end));
            assert(read_numbers(pair(decimal(start), decimal(end))) =~= seq![start, end]);
            lemma_csi_reads_as(pair(decimal(start), decimal(end)), 'r');
        },
        Command::SetColors(fg, bg) => {
            lemma_color_reads_back(fg.ansi(), 38, 39);
            lemma_color_reads_back(bg.ansi(), 48, 49);
            law_pair_reads_back(foreground_parameters(fg, true), background_parameters(bg, true));
            lemma_csi_reads_as(
                pair(foreground_parameters(fg, true), background_parameters(bg, true)),
                'm',
            );
        },
        Command::SetForegroundColor(fg) => {
            lemma_color_reads_back(fg.ansi(), 38, 39);
            lemma_csi_reads_as(foreground_parameters(fg, true), 'm');
        },
        Command::SetBackgroundColor(bg) => {
            lemma_color_reads_back(bg.ansi(), 48, 49);
            lemma_csi_reads_as(background_parameters(bg, true), 'm');
        },
        Command::SetAttribute(attribute) => {
            law_decimal_reads_back(attribute.code());
            lemma_csi_reads_as(decimal(attribute.code()), 'm');
        },
        Command::ResetScrollRegion(_) => {
            assert(csi(seq![], 'r') =~= seq!['\u{1b}', '[', 'r']);
        },
        Command::ClearUntilNewLine => {
            assert(csi(seq![], 'K') =~= seq!['\u{1b}', '[', 'K']);
        },
        _ => {},
    }
}

/// What is written for some commands is what is written for the first of them, followed by what is
/// written for the others; for none it is nothing.
pub proof fn law_texts_add_up(texts: Seq<Seq<char>>, more: Seq<Seq<char>>)
    ensures
        joined(texts + more) == joined(texts) + joined(more),
        texts.len() == 0 ==> joined(texts) == Seq::<char>::empty(),
        texts.len() == 1 ==> joined(texts) == texts[0],
    decreases more.len(),
{
    if more.len() == 0 {
        assert(texts + more =~= texts);
        assert(joined(texts) + joined(more) =~= joined(texts));
    } else {
        law_texts_add_up(texts, more.drop_last());
        assert((texts + more).drop_last() =~= texts + more.drop_last());
        assert(joined(texts + more) =~= joined(texts) + joined(more));
    }
    if texts.len() == 1 {
        assert(texts.drop_last() =~= seq![]);
        assert(joined(texts.drop_last()) =~= seq![]);
        assert(joined(texts) =~= texts[0]);
    }
}

} // verus!
