//! Writing styled spans and whole history lines as terminal commands.

use vstd::prelude::*;
use crate::command::{Attribute, Command};
use crate::rows::{lemma_word_as_short, row_count, short, wrapped_row_count};
use crate::style::{
    color_or_reset, unwrap_color, Color, Modifier, Style, BOLD, CROSSED_OUT, DIM,
    ITALIC, RAPID_BLINK, REVERSED, SLOW_BLINK, UNDERLINED,
};
use crate::text::{merged_spans, HyperlinkLine, Span};

verus! {

/// The step from one set of modifiers to another.
#[derive(Debug, Clone, Copy, PartialEq, Eq)]
pub struct ModifierDiff {
    pub from: Modifier,
    pub to: Modifier,
}

/// The command that switches `attribute`, if `wanted`.
pub open spec fn switch_if(wanted: bool, attribute: Attribute) -> Seq<Command> {
    if wanted {
        seq![Command::SetAttribute(attribute)]
    } else {
        seq![]
    }
}

fn push_if(commands: &mut Vec<Command>, wanted: bool, attribute: Attribute)
    ensures
        final(commands)@ == old(commands)@ + switch_if(wanted, attribute),
{
    if wanted {
        commands.push(Command::SetAttribute(attribute));
    }
    assert(commands@ =~= old(commands)@ + switch_if(wanted, attribute));
}

impl ModifierDiff {
    /// The commands that switch off what `to` no longer has. Ending bold ends dim as well, so dim
    /// is switched on again where it is to stay.
    #[verifier::opaque]
    pub open spec fn removals(self) -> Seq<Command> {
        let removed = self.from.without(self.to);
        seq![] + switch_if(removed.has(REVERSED), Attribute::NoReverse) + switch_if(
            removed.has(BOLD),
            Attribute::NormalIntensity,
        ) + switch_if(removed.has(BOLD) && self.to.has(DIM), Attribute::Dim) + switch_if(
            removed.has(ITALIC),
            Attribute::NoItalic,
        ) + switch_if(removed.has(UNDERLINED), Attribute::NoUnderline) + switch_if(
            removed.has(DIM),
            Attribute::NormalIntensity,
        ) + switch_if(removed.has(CROSSED_OUT), Attribute::NotCrossedOut) + switch_if(
            removed.has(SLOW_BLINK) || removed.has(RAPID_BLINK),
            Attribute::NoBlink,
        )
    }

    /// The commands that switch on what `from` did not have.
    #[verifier::opaque]
    pub open spec fn additions(self) -> Seq<Command> {
        let added = self.to.without(self.from);
        seq![] + switch_if(added.has(REVERSED), Attribute::Reverse) + switch_if(
            added.has(BOLD),
            Attribute::Bold,
        ) + switch_if(added.has(ITALIC), Attribute::Italic) + switch_if(
            added.has(UNDERLINED),
            Attribute::Underlined,
        ) + switch_if(added.has(DIM), Attribute::Dim) + switch_if(
            added.has(CROSSED_OUT),
            Attribute::CrossedOut,
        ) + switch_if(added.has(SLOW_BLINK), Attribute::SlowBlink) + switch_if(
            added.has(RAPID_BLINK),
            Attribute::RapidBlink,
        )
    }

    fn queue_removals(self) -> (steps: Vec<Command>)
        ensures
            steps@ == self.removals(),
    {
        reveal(ModifierDiff::removals);
        let mut steps: Vec<Command> = Vec::new();
        let removed = self.from.difference(self.to);
        push_if(&mut steps, removed.contains(REVERSED), Attribute::NoReverse);
        push_if(&mut steps, removed.contains(BOLD), Attribute::NormalIntensity);
        push_if(&mut steps, removed.contains(BOLD) && self.to.contains(DIM), Attribute::Dim);
        push_if(&mut steps, removed.contains(ITALIC), Attribute::NoItalic);
        push_if(&mut steps, removed.contains(UNDERLINED), Attribute::NoUnderline);
        push_if(&mut steps, removed.contains(DIM), Attribute::NormalIntensity);
        push_if(&mut steps, removed.contains(CROSSED_OUT), Attribute::NotCrossedOut);
        push_if(
            &mut steps,
            removed.contains(SLOW_BLINK) || removed.contains(RAPID_BLINK),
            Attribute::NoBlink,
        );
        steps
    }

    fn queue_additions(self) -> (steps: Vec<Command>)
        ensures
            steps@ == self.additions(),
    {
        reveal(ModifierDiff::additions);
        let mut steps: Vec<Command> = Vec::new();
        let added = self.to.difference(self.from);
        push_if(&mut steps, added.contains(REVERSED), Attribute::Reverse);
        push_if(&mut steps, added.contains(BOLD), Attribute::Bold);
        push_if(&mut steps, added.contains(ITALIC), Attribute::Italic);
        push_if(&mut steps, added.contains(UNDERLINED), Attribute::Underlined);
        push_if(&mut steps, added.contains(DIM), Attribute::Dim);
        push_if(&mut steps, added.contains(CROSSED_OUT), Attribute::CrossedOut);
        push_if(&mut steps, added.contains(SLOW_BLINK), Attribute::SlowBlink);
        push_if(&mut steps, added.contains(RAPID_BLINK), Attribute::RapidBlink);
        steps
    }

    /// Appends the commands that take the terminal from the one set of modifiers to the other.
    pub fn queue(self, commands: &mut Vec<Command>)
        ensures
            final(commands)@ == old(commands)@ + (self.removals() + self.additions()),
    {
        let mut removals = self.queue_removals();
        commands.append(&mut removals);
        let mut additions = self.queue_additions();
        commands.append(&mut additions);
        assert(commands@ =~= old(commands)@ + (self.removals() + self.additions()));
    }
}

/// What the terminal draws text with.
pub struct Pen {
    pub fg: Color,
    pub bg: Color,
    pub modifier: Modifier,
}

/// The pen of a terminal that was told nothing.
pub open spec fn reset_pen() -> Pen {
    Pen { fg: Color::Reset, bg: Color::Reset, modifier: Modifier { bits: 0 } }
}

/// The pen that a style asks for.
pub open spec fn pen_of(style: Style) -> Pen {
    Pen {
        fg: color_or_reset(style.fg),
        bg: color_or_reset(style.bg),
        modifier: style.add_modifier.without(style.sub_modifier),
    }
}

/// The pen that the last of some spans leaves behind.
pub open spec fn pen_after(spans: Seq<Span>) -> Pen {
    if spans.len() == 0 {
        reset_pen()
    } else {
        pen_of(spans.last().style)
    }
}

/// The commands that exchange one pen for another, as far as they differ.
pub open spec fn change_pen(from: Pen, to: Pen) -> Seq<Command> {
    (if from.modifier == to.modifier {
        seq![]
    } else {
        let diff = ModifierDiff { from: from.modifier, to: to.modifier };
        diff.removals() + diff.additions()
    }) + (if from.fg == to.fg && from.bg == to.bg {
        seq![]
    } else {
        seq![Command::SetColors(to.fg, to.bg)]
    })
}

/// The commands that print some spans, each with its own pen, beginning with a reset pen.
pub open spec fn spans_commands(spans: Seq<Span>) -> Seq<Command>
    decreases spans.len(),
{
    if spans.len() == 0 {
        seq![]
    } else {
        spans_commands(spans.drop_last()) + change_pen(
            pen_after(spans.drop_last()),
            pen_of(spans.last().style),
        ).push(Command::Print(spans.last().content))
    }
}

/// The commands that reset the pen.
pub open spec fn reset_commands() -> Seq<Command> {
    seq![
        Command::SetForegroundColor(Color::Reset),
        Command::SetBackgroundColor(Color::Reset),
        Command::SetAttribute(Attribute::Reset),
    ]
}

/// Appends the commands that print `content` on a terminal with a reset pen and reset the pen
/// again.
pub fn write_spans(commands: &mut Vec<Command>, content: &Vec<Span>)
    ensures
        final(commands)@ == old(commands)@ + (spans_commands(content@) + reset_commands()),
{
    let mut fg = Color::Reset;
    let mut bg = Color::Reset;
    let mut last_modifier = Modifier::empty();
    let mut i: usize = 0;
    assert(commands@ =~= old(commands)@ + spans_commands(content@.take(0)));
    while i < content.len()
        invariant
            i <= content.len(),
            (Pen { fg, bg, modifier: last_modifier }) == pen_after(content@.take(i as int)),
            commands@ == old(commands)@ + spans_commands(content@.take(i as int)),
        decreases content.len() - i,
    {
        let span = &content[i];
        let ghost before = commands@;
        let ghost pen = Pen { fg, bg, modifier: last_modifier };
        proof {
            assert(content@.take(i + 1).drop_last() =~= content@.take(i as int));
        }
        let mut modifier = Modifier::empty();
        modifier.insert(span.style.add_modifier);
        modifier.remove(span.style.sub_modifier);
        proof {
            let add = span.style.add_modifier.bits;
            assert(0u16 | add == add) by (bit_vector);
        }
        if modifier != last_modifier {
            let diff = ModifierDiff { from: last_modifier, to: modifier };
            diff.queue(commands);
            last_modifier = modifier;
        }
        let next_fg = unwrap_color(span.style.fg);
        let next_bg = unwrap_color(span.style.bg);
        if next_fg != fg || next_bg != bg {
            commands.push(Command::SetColors(next_fg, next_bg));
            fg = next_fg;
            bg = next_bg;
        }
        assert(commands@ =~= before + change_pen(pen, pen_of(span.style)));
        commands.push(Command::Print(span.content.clone()));
        assert(commands@ =~= old(commands)@ + spans_commands(content@.take(i + 1)));
        i = i + 1;
    }
    assert(content@.take(content@.len() as int) =~= content@);
    commands.push(Command::SetForegroundColor(Color::Reset));
    commands.push(Command::SetBackgroundColor(Color::Reset));
    commands.push(Command::SetAttribute(Attribute::Reset));
    assert(commands@ =~= old(commands)@ + (spans_commands(content@) + reset_commands()));
}

/// The commands that go down `rows` rows, one by one, and clear each.
pub open spec fn clear_rows(rows: nat) -> Seq<Command>
    decreases rows,
{
    if rows == 0 {
        seq![]
    } else {
        clear_rows((rows - 1) as nat) + seq![
            Command::MoveDown(1),
            Command::MoveToColumn(0),
            Command::ClearUntilNewLine,
        ]
    }
}

/// The commands that clear the rows below the cursor's that a line of `rows` rows runs on to.
pub open spec fn clear_continuation(rows: u16) -> Seq<Command> {
    if rows > 1 {
        seq![Command::SavePosition] + clear_rows((rows - 1) as nat) + seq![Command::RestorePosition]
    } else {
        seq![]
    }
}

/// The commands that write one history line from the cursor on.
pub open spec fn history_line_commands(line: HyperlinkLine, width: nat) -> Seq<Command> {
    clear_continuation(short(row_count(line.line.text(), width))) + seq![
        Command::SetColors(
            color_or_reset(line.line.style.fg),
            color_or_reset(line.line.style.bg),
        ),
        Command::ClearUntilNewLine,
    ] + spans_commands(line.printed()) + reset_commands()
}

/// Appends the commands of a single wrapped history line: they clear the rows that a wide line
/// runs on to, set the line's colours and write its styled spans. Positioning the cursor and any
/// leading line break is up to the caller.
pub fn write_history_line(commands: &mut Vec<Command>, line: &HyperlinkLine, wrap_width: usize)
    ensures
        final(commands)@ == old(commands)@ + history_line_commands(*line, wrap_width as nat),
{
    let ghost rows = row_count(line.line.text(), wrap_width as nat);
    proof {
        lemma_word_as_short(rows);
    }
    let physical_rows: u16 = #[verifier::truncate]
    (wrapped_row_count(line, wrap_width) as u16);
    if physical_rows > 1 {
        commands.push(Command::SavePosition);
        let ghost start = commands@;
        let mut row: u16 = 1;
        assert(commands@ =~= start + clear_rows(0));
        while row < physical_rows
            invariant
                1 <= row <= physical_rows,
                commands@ == start + clear_rows((row - 1) as nat),
            decreases physical_rows - row,
        {
            commands.push(Command::MoveDown(1));
            commands.push(Command::MoveToColumn(0));
            commands.push(Command::ClearUntilNewLine);
            row = row + 1;
            assert(commands@ =~= start + clear_rows((row - 1) as nat));
        }
        commands.push(Command::RestorePosition);
    }
    assert(commands@ =~= old(commands)@ + clear_continuation(short(rows)));
    commands.push(
        Command::SetColors(
            unwrap_color(line.line.style.fg),
            unwrap_color(line.line.style.bg),
        ),
    );
    commands.push(Command::ClearUntilNewLine);
    match &line.decorated {
        Some(spans) => write_spans(commands, spans),
        None => {
            let spans = merged_spans(&line.line);
            write_spans(commands, &spans);
        },
    }
    assert(commands@ =~= old(commands)@ + history_line_commands(*line, wrap_width as nat));
}

} // verus!
