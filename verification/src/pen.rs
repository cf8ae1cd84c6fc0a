//! What the style commands do to the pen of a terminal: each span is printed in its own style.

use vstd::prelude::*;
use crate::command::{Attribute, Command};
use crate::rows::{row_count, short};
use crate::screen::{is_pen, lemma_change_is_pen};
use crate::spans::{
    change_pen, clear_continuation, clear_rows, history_line_commands, pen_after, pen_of,
    reset_commands, reset_pen, spans_commands, switch_if, ModifierDiff, Pen,
};
use crate::style::{
    color_or_reset, AnsiColor, Color, Modifier, Style, BOLD, CROSSED_OUT, DIM, ITALIC, RAPID_BLINK,
    REVERSED, SLOW_BLINK, UNDERLINED,
};
use crate::text::{merged_span, HyperlinkLine, Line, Span};

verus! {

/// How a terminal draws the characters that it is sent.
pub struct Rendition {
    pub fg: AnsiColor,
    pub bg: AnsiColor,
    pub bold: bool,
    pub dim: bool,
    pub italic: bool,
    pub underlined: bool,
    pub slow_blink: bool,
    pub rapid_blink: bool,
    pub reversed: bool,
    pub crossed_out: bool,
}

/// How a terminal is to draw with a pen.
pub open spec fn rendition_of(pen: Pen) -> Rendition {
    Rendition {
        fg: pen.fg.ansi(),
        bg: pen.bg.ansi(),
        bold: pen.modifier.has(BOLD),
        dim: pen.modifier.has(DIM),
        italic: pen.modifier.has(ITALIC),
        underlined: pen.modifier.has(UNDERLINED),
        slow_blink: pen.modifier.has(SLOW_BLINK),
        rapid_blink: pen.modifier.has(RAPID_BLINK),
        reversed: pen.modifier.has(REVERSED),
        crossed_out: pen.modifier.has(CROSSED_OUT),
    }
}

/// How a terminal draws that was told nothing.
pub open spec fn reset_rendition() -> Rendition {
    Rendition {
        fg: AnsiColor::Reset,
        bg: AnsiColor::Reset,
        bold: false,
        dim: false,
        italic: false,
        underlined: false,
        slow_blink: false,
        rapid_blink: false,
        reversed: false,
        crossed_out: false,
    }
}

impl Rendition {
    /// Switches an attribute. Normal intensity is neither bold nor dim, and there is one way only
    /// to end both kinds of blinking.
    pub open spec fn switch(self, attribute: Attribute) -> Rendition {
        match attribute {
            Attribute::Reset => reset_rendition(),
            Attribute::Bold => Rendition { bold: true, ..self },
            Attribute::Dim => Rendition { dim: true, ..self },
            Attribute::Italic => Rendition { italic: true, ..self },
            Attribute::Underlined => Rendition { underlined: true, ..self },
            Attribute::SlowBlink => Rendition { slow_blink: true, ..self },
            Attribute::RapidBlink => Rendition { rapid_blink: true, ..self },
            Attribute::Reverse => Rendition { reversed: true, ..self },
            Attribute::CrossedOut => Rendition { crossed_out: true, ..self },
            Attribute::NormalIntensity => Rendition { bold: false, dim: false, ..self },
            Attribute::NoItalic => Rendition { italic: false, ..self },
            Attribute::NoUnderline => Rendition { underlined: false, ..self },
            Attribute::NoBlink => Rendition { slow_blink: false, rapid_blink: false, ..self },
            Attribute::NoReverse => Rendition { reversed: false, ..self },
            Attribute::NotCrossedOut => Rendition { crossed_out: false, ..self },
        }
    }

    /// Obeys one command.
    pub open spec fn obey(self, command: Command) -> Rendition {
        match command {
            Command::SetColors(fg, bg) => Rendition { fg: fg.ansi(), bg: bg.ansi(), ..self },
            Command::SetForegroundColor(fg) => Rendition { fg: fg.ansi(), ..self },
            Command::SetBackgroundColor(bg) => Rendition { bg: bg.ansi(), ..self },
            Command::SetAttribute(attribute) => self.switch(attribute),
            _ => self,
        }
    }

    /// Obeys some commands, one after the other.
    pub open spec fn run(self, commands: Seq<Command>) -> Rendition
        decreases commands.len(),
    {
        if commands.len() == 0 {
            self
        } else {
            self.run(commands.drop_last()).obey(commands.last())
        }
    }
}

/// Whether the step from one set of modifiers to another switches off something that it was to
/// keep: bold goes when dim alone is dropped, and one kind of blinking when the other is.
pub open spec fn loses(from: Modifier, to: Modifier) -> bool {
    ||| from.has(BOLD) && from.has(DIM) && to.has(BOLD) && !to.has(DIM)
    ||| from.has(SLOW_BLINK) && from.has(RAPID_BLINK) && to.has(SLOW_BLINK) != to.has(RAPID_BLINK)
}

proof fn lemma_run_add(r: Rendition, a: Seq<Command>, b: Seq<Command>)
    ensures
        r.run(a + b) == r.run(a).run(b),
    decreases b.len(),
{
    if b.len() == 0 {
        assert(a + b =~= a);
    } else {
        lemma_run_add(r, a, b.drop_last());
        assert((a + b).drop_last() =~= a + b.drop_last());
        assert((a + b).last() == b.last());
    }
}

proof fn lemma_run_one(r: Rendition, command: Command)
    ensures
        r.run(seq![command]) == r.obey(command),
{
    let one = seq![command];
    assert(one.drop_last() =~= seq![]);
    assert(r.run(one.drop_last()) == r);
}

/// `r` after `attribute` was switched, if `wanted`.
spec fn switched(r: Rendition, wanted: bool, attribute: Attribute) -> Rendition {
    if wanted {
        r.switch(attribute)
    } else {
        r
    }
}

proof fn lemma_run_switch(r: Rendition, before: Seq<Command>, wanted: bool, attribute: Attribute)
    ensures
        r.run(before + switch_if(wanted, attribute)) == switched(
            r.run(before),
            wanted,
            attribute,
        ),
{
    lemma_run_add(r, before, switch_if(wanted, attribute));
    lemma_run_one(r.run(before), Command::SetAttribute(attribute));
}

proof fn lemma_removals(r: Rendition, diff: ModifierDiff)
    ensures
        ({
            let gone = diff.from.without(diff.to);
            let t = r.run(diff.removals());
            &&& t.fg == r.fg
            &&& t.bg == r.bg
            &&& t.reversed == (r.reversed && !gone.has(REVERSED))
            &&& t.italic == (r.italic && !gone.has(ITALIC))
            &&& t.underlined == (r.underlined && !gone.has(UNDERLINED))
            &&& t.crossed_out == (r.crossed_out && !gone.has(CROSSED_OUT))
            &&& t.bold == (r.bold && !gone.has(BOLD) && !gone.has(DIM))
            &&& t.dim == (!gone.has(DIM) && if gone.has(BOLD) {
                diff.to.has(DIM)
            } else {
                r.dim
            })
            &&& t.slow_blink == (r.slow_blink && !gone.has(SLOW_BLINK) && !gone.has(RAPID_BLINK))
            &&& t.rapid_blink == (r.rapid_blink && !gone.has(SLOW_BLINK) && !gone.has(
                RAPID_BLINK,
            ))
        }),
{
    let gone = diff.from.without(diff.to);
    let c0: Seq<Command> = seq![];
    let c1 = c0 + switch_if(gone.has(REVERSED), Attribute::NoReverse);
    let c2 = c1 + switch_if(gone.has(BOLD), Attribute::NormalIntensity);
    let c3 = c2 + switch_if(gone.has(BOLD) && diff.to.has(DIM), Attribute::Dim);
    let c4 = c3 + switch_if(gone.has(ITALIC), Attribute::NoItalic);
    let c5 = c4 + switch_if(gone.has(UNDERLINED), Attribute::NoUnderline);
    let c6 = c5 + switch_if(gone.has(DIM), Attribute::NormalIntensity);
    let c7 = c6 + switch_if(gone.has(CROSSED_OUT), Attribute::NotCrossedOut);
    let c8 = c7 + switch_if(gone.has(SLOW_BLINK) || gone.has(RAPID_BLINK), Attribute::NoBlink);
    lemma_run_switch(r, c0, gone.has(REVERSED), Attribute::NoReverse);
    lemma_run_switch(r, c1, gone.has(BOLD), Attribute::NormalIntensity);
    lemma_run_switch(r, c2, gone.has(BOLD) && diff.to.has(DIM), Attribute::Dim);
    lemma_run_switch(r, c3, gone.has(ITALIC), Attribute::NoItalic);
    lemma_run_switch(r, c4, gone.has(UNDERLINED), Attribute::NoUnderline);
    lemma_run_switch(r, c5, gone.has(DIM), Attribute::NormalIntensity);
    lemma_run_switch(r, c6, gone.has(CROSSED_OUT), Attribute::NotCrossedOut);
    lemma_run_switch(
        r,
        c7,
        gone.has(SLOW_BLINK) || gone.has(RAPID_BLINK),
        Attribute::NoBlink,
    );
    assert(diff.removals() == c8) by {
        reveal(ModifierDiff::removals);
    }
}

proof fn lemma_additions(r: Rendition, diff: ModifierDiff)
    ensures
        ({
            let new = diff.to.without(diff.from);
            r.run(diff.additions()) == (Rendition {
                fg: r.fg,
                bg: r.bg,
                bold: r.bold || new.has(BOLD),
                dim: r.dim || new.has(DIM),
                italic: r.italic || new.has(ITALIC),
                underlined: r.underlined || new.has(UNDERLINED),
                slow_blink: r.slow_blink || new.has(SLOW_BLINK),
                rapid_blink: r.rapid_blink || new.has(RAPID_BLINK),
                reversed: r.reversed || new.has(REVERSED),
                crossed_out: r.crossed_out || new.has(CROSSED_OUT),
            })
        }),
{
    let new = diff.to.without(diff.from);
    let c0: Seq<Command> = seq![];
    let c1 = c0 + switch_if(new.has(REVERSED), Attribute::Reverse);
    let c2 = c1 + switch_if(new.has(BOLD), Attribute::Bold);
    let c3 = c2 + switch_if(new.has(ITALIC), Attribute::Italic);
    let c4 = c3 + switch_if(new.has(UNDERLINED), Attribute::Underlined);
    let c5 = c4 + switch_if(new.has(DIM), Attribute::Dim);
    let c6 = c5 + switch_if(new.has(CROSSED_OUT), Attribute::CrossedOut);
    let c7 = c6 + switch_if(new.has(SLOW_BLINK), Attribute::SlowBlink);
    let c8 = c7 + switch_if(new.has(RAPID_BLINK), Attribute::RapidBlink);
    lemma_run_switch(r, c0, new.has(REVERSED), Attribute::Reverse);
    lemma_run_switch(r, c1, new.has(BOLD), Attribute::Bold);
    lemma_run_switch(r, c2, new.has(ITALIC), Attribute::Italic);
    lemma_run_switch(r, c3, new.has(UNDERLINED), Attribute::Underlined);
    lemma_run_switch(r, c4, new.has(DIM), Attribute::Dim);
    lemma_run_switch(r, c5, new.has(CROSSED_OUT), Attribute::CrossedOut);
    lemma_run_switch(r, c6, new.has(SLOW_BLINK), Attribute::SlowBlink);
    lemma_run_switch(r, c7, new.has(RAPID_BLINK), Attribute::RapidBlink);
    assert(diff.additions() == c8) by {
        reveal(ModifierDiff::additions);
    }
}

proof fn lemma_without_has(a: Modifier, b: Modifier, flag: u16)
    requires
        flag == BOLD || flag == DIM || flag == ITALIC || flag == UNDERLINED || flag == SLOW_BLINK
            || flag == RAPID_BLINK || flag == REVERSED || flag == CROSSED_OUT,
    ensures
        a.without(b).has(flag) == (a.has(flag) && !b.has(flag)),
{
    let x = a.bits;
    let y = b.bits;
    assert(((x & !y) & flag == flag) == (x & flag == flag && y & flag != flag)) by (bit_vector)
        requires
            flag == 0x001 || flag == 0x002 || flag == 0x004 || flag == 0x008 || flag == 0x010
                || flag == 0x020 || flag == 0x040 || flag == 0x100,
    ;
}

/// The commands of a [`ModifierDiff`] take a terminal that draws with the one set of modifiers to
/// drawing with the other, and leave the colours alone, unless the step loses a modifier (see
/// [`loses`]); then they do not.
pub proof fn law_modifier_diff_reaches_its_target(fg: Color, bg: Color, diff: ModifierDiff)
    ensures
        !loses(diff.from, diff.to) <==> rendition_of(Pen { fg, bg, modifier: diff.from }).run(
            diff.removals() + diff.additions(),
        ) == rendition_of(Pen { fg, bg, modifier: diff.to }),
{
    let r = rendition_of(Pen { fg, bg, modifier: diff.from });
    lemma_run_add(r, diff.removals(), diff.additions());
    lemma_removals(r, diff);
    lemma_additions(r.run(diff.removals()), diff);
    lemma_diff_has(diff);
}

/// Whether no step from one of some spans to the next, beginning with a reset pen, loses a
/// modifier.
pub open spec fn keeps_modifiers(spans: Seq<Span>) -> bool {
    forall|i: int|
        0 <= i < spans.len() ==> !loses(
            pen_after(spans.take(i)).modifier,
            pen_of((#[trigger] spans[i]).style).modifier,
        )
}

/// Whether all attributes are off.
pub open spec fn has_no_attributes(r: Rendition) -> bool {
    r == Rendition { fg: r.fg, bg: r.bg, ..reset_rendition() }
}

proof fn lemma_reset_pen()
    ensures
        rendition_of(reset_pen()) == reset_rendition(),
{
    assert(0u16 & 0x001 == 0 && 0u16 & 0x002 == 0 && 0u16 & 0x004 == 0 && 0u16 & 0x008 == 0 && 0u16
        & 0x010 == 0 && 0u16 & 0x020 == 0 && 0u16 & 0x040 == 0 && 0u16 & 0x100 == 0)
        by (bit_vector);
}

proof fn lemma_change_pen(r: Rendition, from: Pen, to: Pen)
    requires
        r == rendition_of(from) || (from.fg != to.fg || from.bg != to.bg) && r == (Rendition {
            fg: r.fg,
            bg: r.bg,
            ..rendition_of(from)
        }),
        !loses(from.modifier, to.modifier),
    ensures
        r.run(change_pen(from, to)) == rendition_of(to),
{
    let diff = ModifierDiff { from: from.modifier, to: to.modifier };
    let first = if from.modifier == to.modifier {
        seq![]
    } else {
        diff.removals() + diff.additions()
    };
    let colors = Command::SetColors(to.fg, to.bg);
    let second = if from.fg == to.fg && from.bg == to.bg {
        seq![]
    } else {
        seq![colors]
    };
    lemma_run_add(r, first, second);
    lemma_run_one(r.run(first), colors);
    lemma_run_add(r, diff.removals(), diff.additions());
    lemma_removals(r, diff);
    lemma_additions(r.run(diff.removals()), diff);
    lemma_run_add(rendition_of(from), diff.removals(), diff.additions());
    lemma_removals(rendition_of(from), diff);
    lemma_additions(rendition_of(from).run(diff.removals()), diff);
    law_modifier_diff_reaches_its_target(from.fg, from.bg, diff);
}

proof fn lemma_run_spans(r: Rendition, spans: Seq<Span>)
    requires
        has_no_attributes(r),
        spans.len() > 0,
        r == reset_rendition() || pen_of(spans[0].style).fg != Color::Reset || pen_of(
            spans[0].style,
        ).bg != Color::Reset,
        keeps_modifiers(spans),
    ensures
        r.run(spans_commands(spans)) == rendition_of(pen_of(spans.last().style)),
    decreases spans.len(),
{
    let before = spans.drop_last();
    let span = spans.last();
    let n = spans.len() - 1;
    let from = pen_after(before);
    let to = pen_of(span.style);
    assert(spans.take(n) =~= before);
    assert(!loses(pen_after(spans.take(n)).modifier, pen_of(spans[n].style).modifier));
    let t = r.run(spans_commands(before));
    if n > 0 {
        assert forall|i: int| 0 <= i < before.len() implies !loses(
            pen_after(before.take(i)).modifier,
            pen_of((#[trigger] before[i]).style).modifier,
        ) by {
            assert(before[i] == spans[i]);
            assert(before.take(i) =~= spans.take(i));
        }
        lemma_run_spans(r, before);
    } else {
        assert(before =~= seq![]);
        lemma_reset_pen();
    }
    let change = change_pen(from, to);
    let print = Command::Print(span.content);
    lemma_change_pen(t, from, to);
    assert(change.push(print).drop_last() =~= change);
    lemma_run_add(r, spans_commands(before), change.push(print));
}

proof fn lemma_keeps_modifiers_take(spans: Seq<Span>, n: int)
    requires
        keeps_modifiers(spans),
        0 <= n <= spans.len(),
    ensures
        keeps_modifiers(spans.take(n)),
{
    let part = spans.take(n);
    assert forall|i: int| 0 <= i < part.len() implies !loses(
        pen_after(part.take(i)).modifier,
        pen_of((#[trigger] part[i]).style).modifier,
    ) by {
        assert(part[i] == spans[i]);
        assert(part.take(i) =~= spans.take(i));
    }
}

proof fn lemma_spans_commands_prefix(spans: Seq<Span>, n: int)
    requires
        0 <= n <= spans.len(),
    ensures
        spans_commands(spans.take(n)).is_prefix_of(spans_commands(spans)),
    decreases spans.len(),
{
    if n < spans.len() {
        lemma_spans_commands_prefix(spans.drop_last(), n);
        assert(spans.drop_last().take(n) =~= spans.take(n));
    } else {
        assert(spans.take(n) =~= spans);
    }
}

/// Each span is printed in the colours and with the modifiers of its own style, provided that no
/// step between the spans loses a modifier: what is sent to a terminal with a reset pen up to the
/// span ends with its text, and leaves the terminal drawing just so.
pub proof fn law_spans_print_in_their_own_style(spans: Seq<Span>, i: int)
    requires
        0 <= i < spans.len(),
        keeps_modifiers(spans),
    ensures
        ({
            let sent = spans_commands(spans.take(i + 1));
            &&& sent.is_prefix_of(spans_commands(spans))
            &&& sent.last() == Command::Print(spans[i].content)
            &&& reset_rendition().run(sent) == rendition_of(pen_of(spans[i].style))
        }),
{
    lemma_spans_commands_prefix(spans, i + 1);
    lemma_keeps_modifiers_take(spans, i + 1);
    lemma_run_spans(reset_rendition(), spans.take(i + 1));
}

/// The commands that come before the spans of a history line.
pub open spec fn line_opening(line: Line, width: nat) -> Seq<Command> {
    clear_continuation(short(row_count(line.text(), width))) + seq![
        Command::SetColors(
            color_or_reset(line.style.fg),
            color_or_reset(line.style.bg),
        ),
        Command::ClearUntilNewLine,
    ]
}

proof fn lemma_run_clear_rows(r: Rendition, n: nat)
    ensures
        r.run(clear_rows(n)) == r,
    decreases n,
{
    if n > 0 {
        lemma_run_clear_rows(r, (n - 1) as nat);
        let block = seq![
            Command::MoveDown(1),
            Command::MoveToColumn(0),
            Command::ClearUntilNewLine,
        ];
        lemma_run_add(r, clear_rows((n - 1) as nat), block);
        let two = block.drop_last();
        let one = two.drop_last();
        assert(one.drop_last() =~= seq![]);
        assert(r.run(one.drop_last()) == r);
        assert(r.run(one) == r);
        assert(r.run(two) == r);
    }
}

proof fn lemma_run_opening(r: Rendition, line: Line, width: nat)
    ensures
        r.run(line_opening(line, width)) == (Rendition {
            fg: color_or_reset(line.style.fg).ansi(),
            bg: color_or_reset(line.style.bg).ansi(),
            ..r
        }),
{
    let rows = short(row_count(line.text(), width));
    let clear = clear_continuation(rows);
    if rows > 1 {
        let n = (rows - 1) as nat;
        lemma_run_one(r, Command::SavePosition);
        lemma_run_clear_rows(r, n);
        lemma_run_one(r, Command::RestorePosition);
        lemma_run_add(r, seq![Command::SavePosition], clear_rows(n));
        lemma_run_add(
            r,
            seq![Command::SavePosition] + clear_rows(n),
            seq![Command::RestorePosition],
        );
    }
    assert(r.run(clear) == r);
    let colors = Command::SetColors(
        color_or_reset(line.style.fg),
        color_or_reset(line.style.bg),
    );
    let both = seq![colors, Command::ClearUntilNewLine];
    lemma_run_add(r, clear, both);
    assert(both.drop_last() =~= seq![colors]);
    lemma_run_one(r, colors);
}

/// Each span of a plain history line is printed in its style with the line's laid over it,
/// provided that no step between the spans loses a modifier, on a terminal without attributes,
/// whatever its colours were.
#[verifier::spinoff_prover]
#[verifier::rlimit(40)]
pub proof fn law_line_prints_its_spans_in_the_merged_style(
    r: Rendition,
    line: Line,
    width: nat,
    i: int,
)
    requires
        has_no_attributes(r),
        0 <= i < line.spans@.len(),
        keeps_modifiers(line.merged()),
    ensures
        ({
            let sent = line_opening(line, width) + spans_commands(line.merged().take(i + 1));
            &&& sent.is_prefix_of(history_line_commands(HyperlinkLine::plain(line), width))
            &&& sent.last() == Command::Print(line.spans@[i].content)
            &&& r.run(sent) == rendition_of(
                pen_of(line.spans@[i].style.patched(line.style)),
            )
        }),
{
    let spans = line.merged();
    let part = spans.take(i + 1);
    let opening = line_opening(line, width);
    lemma_run_opening(r, line, width);
    lemma_spans_commands_prefix(spans, i + 1);
    lemma_keeps_modifiers_take(spans, i + 1);
    assert(part[0] == merged_span(line.spans@[0], line.style));
    lemma_run_spans(r.run(opening), part);
    lemma_run_add(r, opening, spans_commands(part));
    assert((opening + spans_commands(part)).last() == spans_commands(part).last());
    assert(history_line_commands(HyperlinkLine::plain(line), width) =~= opening + spans_commands(
        spans,
    ) + reset_commands());
}

/// A colour that a line's style names is the one in which each of its spans is drawn.
pub proof fn law_line_colours_win(line: Line, i: int)
    requires
        0 <= i < line.spans@.len(),
    ensures
        line.style.fg matches Some(fg) ==> pen_of(line.merged()[i].style).fg == fg,
        line.style.bg matches Some(bg) ==> pen_of(line.merged()[i].style).bg == bg,
{
}

/// Some text and how it was drawn.
pub struct Drawn {
    pub text: Seq<char>,
    pub rendition: Rendition,
}

/// What a terminal draws that obeys some commands, beginning with `r`: each text that it is told to
/// print, and how it draws at that moment.
pub open spec fn drawn(r: Rendition, commands: Seq<Command>) -> Seq<Drawn>
    decreases commands.len(),
{
    if commands.len() == 0 {
        seq![]
    } else {
        let before = commands.drop_last();
        match commands.last() {
            Command::Print(text) => drawn(r, before).push(
                Drawn { text: text@, rendition: r.run(before) },
            ),
            _ => drawn(r, before),
        }
    }
}

pub(crate) proof fn lemma_drawn_add(r: Rendition, a: Seq<Command>, b: Seq<Command>)
    ensures
        drawn(r, a + b) == drawn(r, a) + drawn(r.run(a), b),
        r.run(a + b) == r.run(a).run(b),
    decreases b.len(),
{
    lemma_run_add(r, a, b);
    if b.len() == 0 {
        assert(a + b =~= a);
        assert(drawn(r, a) + drawn(r.run(a), b) =~= drawn(r, a));
    } else {
        lemma_drawn_add(r, a, b.drop_last());
        assert((a + b).drop_last() =~= a + b.drop_last());
        assert((a + b).last() == b.last());
        assert(drawn(r, a + b) =~= drawn(r, a) + drawn(r.run(a), b));
    }
}

pub(crate) proof fn lemma_drawn_nothing(r: Rendition, commands: Seq<Command>)
    requires
        forall|i: int| 0 <= i < commands.len() ==> !((#[trigger] commands[i]) is Print),
    ensures
        drawn(r, commands) == Seq::<Drawn>::empty(),
    decreases commands.len(),
{
    if commands.len() > 0 {
        let before = commands.drop_last();
        assert forall|i: int| 0 <= i < before.len() implies !((#[trigger] before[i]) is Print) by {
            assert(before[i] == commands[i]);
        }
        lemma_drawn_nothing(r, before);
        assert(!(commands[commands.len() - 1] is Print));
    }
}

/// Whether a style adds a modifier and does not take it away.
pub open spec fn asks_for(style: Style, flag: u16) -> bool {
    style.add_modifier.bits & flag != 0 && style.sub_modifier.bits & flag == 0
}

/// The colour that a style asks for, as the terminal is told of it.
pub open spec fn asked_color(color: Option<Color>) -> AnsiColor {
    match color {
        Some(color) => color.ansi(),
        None => AnsiColor::Reset,
    }
}

/// Whether dim goes and bold is to stay from one style to another: ending the one ends both.
pub open spec fn ends_bold_with_dim(from: Style, to: Style) -> bool {
    asks_for(from, BOLD) && asks_for(from, DIM) && asks_for(to, BOLD) && !asks_for(to, DIM)
}

/// Whether one of two kinds of blinking goes and the other is to stay: ending the one ends both.
pub open spec fn ends_both_blinks(from: Style, to: Style) -> bool {
    asks_for(from, SLOW_BLINK) && asks_for(from, RAPID_BLINK) && asks_for(to, SLOW_BLINK)
        != asks_for(to, RAPID_BLINK)
}

/// Whether bold is ended by mistake nowhere among some spans.
pub open spec fn keeps_bold(spans: Seq<Span>) -> bool {
    forall|i: int|
        1 <= i < spans.len() ==> !ends_bold_with_dim(
            spans[i - 1].style,
            (#[trigger] spans[i]).style,
        )
}

/// Whether blinking is ended by mistake nowhere among some spans.
pub open spec fn keeps_blinking(spans: Seq<Span>) -> bool {
    forall|i: int|
        1 <= i < spans.len() ==> !ends_both_blinks(spans[i - 1].style, (#[trigger] spans[i]).style)
}

/// Whether a terminal draws in the colours and with the modifiers that a style asks for, bold and
/// blinking aside.
pub open spec fn draws_in(r: Rendition, style: Style) -> bool {
    &&& r.fg == asked_color(style.fg)
    &&& r.bg == asked_color(style.bg)
    &&& r.dim == asks_for(style, DIM)
    &&& r.italic == asks_for(style, ITALIC)
    &&& r.underlined == asks_for(style, UNDERLINED)
    &&& r.reversed == asks_for(style, REVERSED)
    &&& r.crossed_out == asks_for(style, CROSSED_OUT)
}

/// Whether a terminal blinks as a style asks for.
pub open spec fn blinks_as(r: Rendition, style: Style) -> bool {
    r.slow_blink == asks_for(style, SLOW_BLINK) && r.rapid_blink == asks_for(style, RAPID_BLINK)
}

proof fn lemma_pen_asks(style: Style, flag: u16)
    requires
        flag == BOLD || flag == DIM || flag == ITALIC || flag == UNDERLINED || flag == SLOW_BLINK
            || flag == RAPID_BLINK || flag == REVERSED || flag == CROSSED_OUT,
    ensures
        pen_of(style).modifier.has(flag) == asks_for(style, flag),
{
    let a = style.add_modifier.bits;
    let s = style.sub_modifier.bits;
    assert(((a & !s) & flag == flag) == (a & flag != 0 && s & flag == 0)) by (bit_vector)
        requires
            flag == 0x001 || flag == 0x002 || flag == 0x004 || flag == 0x008 || flag == 0x010
                || flag == 0x020 || flag == 0x040 || flag == 0x100,
    ;
}

proof fn lemma_pen_asks_all(style: Style)
    ensures
        ({
            let pen = pen_of(style);
            &&& pen.fg.ansi() == asked_color(style.fg)
            &&& pen.bg.ansi() == asked_color(style.bg)
            &&& pen.modifier.has(BOLD) == asks_for(style, BOLD)
            &&& pen.modifier.has(DIM) == asks_for(style, DIM)
            &&& pen.modifier.has(ITALIC) == asks_for(style, ITALIC)
            &&& pen.modifier.has(UNDERLINED) == asks_for(style, UNDERLINED)
            &&& pen.modifier.has(SLOW_BLINK) == asks_for(style, SLOW_BLINK)
            &&& pen.modifier.has(RAPID_BLINK) == asks_for(style, RAPID_BLINK)
            &&& pen.modifier.has(REVERSED) == asks_for(style, REVERSED)
            &&& pen.modifier.has(CROSSED_OUT) == asks_for(style, CROSSED_OUT)
        }),
{
    lemma_pen_asks(style, BOLD);
    lemma_pen_asks(style, DIM);
    lemma_pen_asks(style, ITALIC);
    lemma_pen_asks(style, UNDERLINED);
    lemma_pen_asks(style, SLOW_BLINK);
    lemma_pen_asks(style, RAPID_BLINK);
    lemma_pen_asks(style, REVERSED);
    lemma_pen_asks(style, CROSSED_OUT);
}

/// Whether `r` draws as with `pen`, bold and blinking aside and, if not `colors`, the colours too.
spec fn follows(r: Rendition, pen: Pen, colors: bool) -> bool {
    &&& colors ==> r.fg == pen.fg.ansi() && r.bg == pen.bg.ansi()
    &&& r.dim == pen.modifier.has(DIM)
    &&& r.italic == pen.modifier.has(ITALIC)
    &&& r.underlined == pen.modifier.has(UNDERLINED)
    &&& r.reversed == pen.modifier.has(REVERSED)
    &&& r.crossed_out == pen.modifier.has(CROSSED_OUT)
}

proof fn lemma_diff_has(diff: ModifierDiff)
    ensures
        diff.from.without(diff.to).has(BOLD) == (diff.from.has(BOLD) && !diff.to.has(BOLD)),
        diff.to.without(diff.from).has(BOLD) == (diff.to.has(BOLD) && !diff.from.has(BOLD)),
        diff.from.without(diff.to).has(DIM) == (diff.from.has(DIM) && !diff.to.has(DIM)),
        diff.to.without(diff.from).has(DIM) == (diff.to.has(DIM) && !diff.from.has(DIM)),
        diff.from.without(diff.to).has(ITALIC) == (diff.from.has(ITALIC) && !diff.to.has(ITALIC)),
        diff.to.without(diff.from).has(ITALIC) == (diff.to.has(ITALIC) && !diff.from.has(ITALIC)),
        diff.from.without(diff.to).has(UNDERLINED) == (diff.from.has(UNDERLINED) && !diff.to.has(UNDERLINED)),
        diff.to.without(diff.from).has(UNDERLINED) == (diff.to.has(UNDERLINED) && !diff.from.has(UNDERLINED)),
        diff.from.without(diff.to).has(SLOW_BLINK) == (diff.from.has(SLOW_BLINK) && !diff.to.has(SLOW_BLINK)),
        diff.to.without(diff.from).has(SLOW_BLINK) == (diff.to.has(SLOW_BLINK) && !diff.from.has(SLOW_BLINK)),
        diff.from.without(diff.to).has(RAPID_BLINK) == (diff.from.has(RAPID_BLINK) && !diff.to.has(RAPID_BLINK)),
        diff.to.without(diff.from).has(RAPID_BLINK) == (diff.to.has(RAPID_BLINK) && !diff.from.has(RAPID_BLINK)),
        diff.from.without(diff.to).has(REVERSED) == (diff.from.has(REVERSED) && !diff.to.has(REVERSED)),
        diff.to.without(diff.from).has(REVERSED) == (diff.to.has(REVERSED) && !diff.from.has(REVERSED)),
        diff.from.without(diff.to).has(CROSSED_OUT) == (diff.from.has(CROSSED_OUT) && !diff.to.has(CROSSED_OUT)),
        diff.to.without(diff.from).has(CROSSED_OUT) == (diff.to.has(CROSSED_OUT) && !diff.from.has(CROSSED_OUT)),
{
    lemma_without_has(diff.from, diff.to, BOLD);
    lemma_without_has(diff.to, diff.from, BOLD);
    lemma_without_has(diff.from, diff.to, DIM);
    lemma_without_has(diff.to, diff.from, DIM);
    lemma_without_has(diff.from, diff.to, ITALIC);
    lemma_without_has(diff.to, diff.from, ITALIC);
    lemma_without_has(diff.from, diff.to, UNDERLINED);
    lemma_without_has(diff.to, diff.from, UNDERLINED);
    lemma_without_has(diff.from, diff.to, SLOW_BLINK);
    lemma_without_has(diff.to, diff.from, SLOW_BLINK);
    lemma_without_has(diff.from, diff.to, RAPID_BLINK);
    lemma_without_has(diff.to, diff.from, RAPID_BLINK);
    lemma_without_has(diff.from, diff.to, REVERSED);
    lemma_without_has(diff.to, diff.from, REVERSED);
    lemma_without_has(diff.from, diff.to, CROSSED_OUT);
    lemma_without_has(diff.to, diff.from, CROSSED_OUT);
}

proof fn lemma_diff_outcome(r: Rendition, diff: ModifierDiff)
    ensures
        ({
            let t = r.run(diff.removals() + diff.additions());
            &&& t.fg == r.fg
            &&& t.bg == r.bg
            &&& r.dim == diff.from.has(DIM) ==> t.dim == diff.to.has(DIM)
            &&& r.italic == diff.from.has(ITALIC) ==> t.italic == diff.to.has(ITALIC)
            &&& r.underlined == diff.from.has(UNDERLINED) ==> t.underlined == diff.to.has(
                UNDERLINED,
            )
            &&& r.reversed == diff.from.has(REVERSED) ==> t.reversed == diff.to.has(REVERSED)
            &&& r.crossed_out == diff.from.has(CROSSED_OUT) ==> t.crossed_out == diff.to.has(
                CROSSED_OUT,
            )
            &&& r.bold == diff.from.has(BOLD) ==> t.bold == (diff.to.has(BOLD) && !(
            diff.from.has(BOLD) && diff.from.has(DIM) && !diff.to.has(DIM)))
            &&& r.slow_blink == diff.from.has(SLOW_BLINK) ==> t.slow_blink == (diff.to.has(
                SLOW_BLINK,
            ) && !(diff.from.has(SLOW_BLINK) && diff.from.has(RAPID_BLINK) && !diff.to.has(
                RAPID_BLINK,
            )))
            &&& r.rapid_blink == diff.from.has(RAPID_BLINK) ==> t.rapid_blink == (diff.to.has(
                RAPID_BLINK,
            ) && !(diff.from.has(RAPID_BLINK) && diff.from.has(SLOW_BLINK) && !diff.to.has(
                SLOW_BLINK,
            )))
        }),
{
    lemma_run_add(r, diff.removals(), diff.additions());
    lemma_removals(r, diff);
    lemma_additions(r.run(diff.removals()), diff);
    lemma_diff_has(diff);
}

proof fn lemma_change_follows(r: Rendition, from: Pen, to: Pen)
    requires
        follows(r, from, from.fg == to.fg && from.bg == to.bg),
    ensures
        ({
            let t = r.run(change_pen(from, to));
            &&& follows(t, to, true)
            &&& r.bold == from.modifier.has(BOLD) && !(from.modifier.has(BOLD)
                && from.modifier.has(DIM) && to.modifier.has(BOLD) && !to.modifier.has(DIM))
                ==> t.bold == to.modifier.has(BOLD)
            &&& r.slow_blink == from.modifier.has(SLOW_BLINK) && r.rapid_blink
                == from.modifier.has(RAPID_BLINK) && !(from.modifier.has(SLOW_BLINK)
                && from.modifier.has(RAPID_BLINK) && to.modifier.has(SLOW_BLINK)
                != to.modifier.has(RAPID_BLINK)) ==> t.slow_blink == to.modifier.has(SLOW_BLINK)
                && t.rapid_blink == to.modifier.has(RAPID_BLINK)
        }),
{
    let diff = ModifierDiff { from: from.modifier, to: to.modifier };
    let first = if from.modifier == to.modifier {
        seq![]
    } else {
        diff.removals() + diff.additions()
    };
    let colors = Command::SetColors(to.fg, to.bg);
    let second = if from.fg == to.fg && from.bg == to.bg {
        seq![]
    } else {
        seq![colors]
    };
    lemma_run_add(r, first, second);
    lemma_run_one(r.run(first), colors);
    lemma_diff_outcome(r, diff);
}

proof fn lemma_change_draws_nothing(r: Rendition, from: Pen, to: Pen)
    ensures
        drawn(r, change_pen(from, to)) == Seq::<Drawn>::empty(),
{
    let commands = change_pen(from, to);
    lemma_change_is_pen(from, to);
    assert forall|i: int| 0 <= i < commands.len() implies !((#[trigger] commands[i]) is Print) by {
        assert(is_pen(commands[i]));
    }
    lemma_drawn_nothing(r, commands);
}

proof fn lemma_spans_texts_drawn(r: Rendition, spans: Seq<Span>)
    ensures
        ({
            let d = drawn(r, spans_commands(spans));
            &&& d.len() == spans.len()
            &&& forall|i: int| 0 <= i < spans.len() ==> (#[trigger] d[i]).text == spans[i].content@
            &&& spans.len() > 0 ==> d == drawn(r, spans_commands(spans.drop_last())).push(
                d.last(),
            )
            &&& spans.len() > 0 ==> d.last().rendition == r.run(spans_commands(spans))
        }),
    decreases spans.len(),
{
    if spans.len() > 0 {
        let before = spans.drop_last();
        let span = spans.last();
        lemma_spans_texts_drawn(r, before);
        let from = pen_after(before);
        let to = pen_of(span.style);
        let t = r.run(spans_commands(before));
        let change = change_pen(from, to);
        let print = Command::Print(span.content);
        let step = change.push(print);
        lemma_change_draws_nothing(t, from, to);
        assert(step.drop_last() =~= change);
        lemma_drawn_add(r, spans_commands(before), step);
        let one = Drawn { text: span.content@, rendition: t.run(change) };
        assert(drawn(t, step) =~= seq![one]);
        let d = drawn(r, spans_commands(spans));
        assert(d =~= drawn(r, spans_commands(before)).push(one));
        assert forall|i: int| 0 <= i < spans.len() implies (#[trigger] d[i]).text
            == spans[i].content@ by {
            if i < before.len() {
                assert(d[i] == drawn(r, spans_commands(before))[i]);
                assert(before[i] == spans[i]);
            }
        }
    }
}

proof fn lemma_drawn_take(r: Rendition, spans: Seq<Span>, i: int)
    requires
        0 <= i < spans.len(),
    ensures
        drawn(r, spans_commands(spans))[i].rendition == r.run(spans_commands(spans.take(i + 1))),
    decreases spans.len(),
{
    lemma_spans_texts_drawn(r, spans);
    if i + 1 == spans.len() {
        assert(spans.take(i + 1) =~= spans);
    } else {
        lemma_spans_texts_drawn(r, spans.drop_last());
        lemma_drawn_take(r, spans.drop_last(), i);
        assert(spans.drop_last().take(i + 1) =~= spans.take(i + 1));
    }
}

/// Whether a terminal can begin some spans with `r`: no attribute is on, and its colours are reset or
/// the first span sets them.
spec fn may_begin(r: Rendition, spans: Seq<Span>) -> bool {
    &&& has_no_attributes(r)
    &&& spans.len() > 0 ==> r == reset_rendition() || pen_of(spans[0].style).fg != Color::Reset
        || pen_of(spans[0].style).bg != Color::Reset
}

proof fn lemma_last_span_drawn(r: Rendition, spans: Seq<Span>)
    requires
        spans.len() > 0,
        may_begin(r, spans),
    ensures
        ({
            let t = r.run(spans_commands(spans));
            let style = spans.last().style;
            &&& draws_in(t, style)
            &&& keeps_bold(spans) ==> t.bold == asks_for(style, BOLD)
            &&& keeps_blinking(spans) ==> blinks_as(t, style)
        }),
    decreases spans.len(),
{
    let before = spans.drop_last();
    let span = spans.last();
    let n = spans.len() - 1;
    let from = pen_after(before);
    let to = pen_of(span.style);
    let t = r.run(spans_commands(before));
    lemma_pen_asks_all(span.style);
    if n > 0 {
        lemma_last_span_drawn(r, before);
        lemma_pen_asks_all(before.last().style);
        assert(before.last() == spans[n - 1]);
        if keeps_bold(spans) {
            assert forall|i: int| 1 <= i < before.len() implies !ends_bold_with_dim(
                before[i - 1].style,
                (#[trigger] before[i]).style,
            ) by {
                assert(before[i] == spans[i]);
            }
            assert(!ends_bold_with_dim(spans[n - 1].style, spans[n].style));
        }
        if keeps_blinking(spans) {
            assert forall|i: int| 1 <= i < before.len() implies !ends_both_blinks(
                before[i - 1].style,
                (#[trigger] before[i]).style,
            ) by {
                assert(before[i] == spans[i]);
            }
            assert(!ends_both_blinks(spans[n - 1].style, spans[n].style));
        }
    } else {
        assert(before =~= seq![]);
        lemma_reset_pen();
    }
    let change = change_pen(from, to);
    let print = Command::Print(span.content);
    lemma_change_follows(t, from, to);
    assert(change.push(print).drop_last() =~= change);
    lemma_run_add(r, spans_commands(before), change.push(print));
}

proof fn lemma_reset_draws_nothing(r: Rendition)
    ensures
        drawn(r, reset_commands()) == Seq::<Drawn>::empty(),
        r.run(reset_commands()) == reset_rendition(),
{
    lemma_drawn_nothing(r, reset_commands());
    assert(reset_commands().last() == Command::SetAttribute(Attribute::Reset));
}

/// Each span is drawn, in its order, as its own style says: in its colours, and with just those
/// modifiers that the style adds and does not take away. Afterwards the pen is reset.
///
/// Bold is on or off as the style says unless a span before it, or itself, went from bold and dim to
/// bold alone, and blinking likewise if one of its two kinds was dropped alone.
pub proof fn law_each_span_is_drawn_as_its_style_says(spans: Seq<Span>, i: int)
    requires
        0 <= i < spans.len(),
    ensures
        ({
            let sent = spans_commands(spans) + reset_commands();
            let d = drawn(reset_rendition(), sent);
            let style = spans[i].style;
            &&& d.len() == spans.len()
            &&& d[i].text == spans[i].content@
            &&& draws_in(d[i].rendition, style)
            &&& keeps_bold(spans.take(i + 1)) ==> d[i].rendition.bold == asks_for(style, BOLD)
            &&& keeps_blinking(spans.take(i + 1)) ==> blinks_as(d[i].rendition, style)
            &&& reset_rendition().run(sent) == reset_rendition()
        }),
{
    let r = reset_rendition();
    lemma_drawn_add(r, spans_commands(spans), reset_commands());
    lemma_reset_draws_nothing(r.run(spans_commands(spans)));
    lemma_spans_texts_drawn(r, spans);
    lemma_drawn_take(r, spans, i);
    lemma_last_span_drawn(r, spans.take(i + 1));
    let d = drawn(r, spans_commands(spans));
    assert(d + Seq::<Drawn>::empty() =~= d);
}

proof fn lemma_opening_draws_nothing(r: Rendition, line: Line, width: nat)
    ensures
        drawn(r, line_opening(line, width)) == Seq::<Drawn>::empty(),
{
    let rows = short(row_count(line.text(), width));
    let opening = line_opening(line, width);
    if rows > 1 {
        lemma_clear_rows_print_nothing((rows - 1) as nat);
        let clear = clear_rows((rows - 1) as nat);
        assert forall|i: int| 0 <= i < opening.len() implies !((#[trigger] opening[i]) is Print) by {
            if 1 <= i < 1 + clear.len() {
                assert(opening[i] == clear[i - 1]);
            }
        }
    }
    lemma_drawn_nothing(r, opening);
}

proof fn lemma_clear_rows_print_nothing(n: nat)
    ensures
        forall|i: int| 0 <= i < clear_rows(n).len() ==> !((#[trigger] clear_rows(n)[i]) is Print),
    decreases n,
{
    if n > 0 {
        let m = (n - 1) as nat;
        lemma_clear_rows_print_nothing(m);
        assert forall|i: int| 0 <= i < clear_rows(n).len() implies !((
        #[trigger] clear_rows(n)[i]) is Print) by {
            if i < clear_rows(m).len() {
                assert(clear_rows(n)[i] == clear_rows(m)[i]);
            }
        }
    }
}

/// All that a history line draws is the spans that are printed for it, in their order, and the pen is
/// reset afterwards.
pub proof fn law_line_draws_all_its_spans(r: Rendition, line: HyperlinkLine, width: nat)
    ensures
        ({
            let d = drawn(r, history_line_commands(line, width));
            let spans = line.printed();
            &&& d.len() == spans.len()
            &&& forall|i: int| 0 <= i < spans.len() ==> (#[trigger] d[i]).text == spans[i].content@
            &&& r.run(history_line_commands(line, width)) == reset_rendition()
        }),
{
    lemma_line_drawn(r, line, width);
    lemma_spans_texts_drawn(r.run(line_opening(line.line, width)), line.printed());
}

proof fn lemma_line_drawn(r: Rendition, line: HyperlinkLine, width: nat)
    ensures
        drawn(r, history_line_commands(line, width)) == drawn(
            r.run(line_opening(line.line, width)),
            spans_commands(line.printed()),
        ),
        r.run(history_line_commands(line, width)) == reset_rendition(),
{
    let opening = line_opening(line.line, width);
    let spans = spans_commands(line.printed());
    let t = r.run(opening);
    lemma_opening_draws_nothing(r, line.line, width);
    lemma_drawn_add(r, opening, spans);
    lemma_drawn_add(r, opening + spans, reset_commands());
    lemma_reset_draws_nothing(r.run(opening + spans));
    assert(drawn(r, history_line_commands(line, width)) =~= drawn(t, spans));
}

/// The row that a line begins on is cleared, right before its spans are printed, while the line's own
/// colours are set.
pub proof fn law_line_is_cleared_in_its_colours(r: Rendition, line: HyperlinkLine, width: nat)
    ensures
        ({
            let commands = history_line_commands(line, width);
            let k = commands.len() - spans_commands(line.printed()).len() - 4;
            let then = r.run(commands.take(k));
            &&& 0 <= k < commands.len()
            &&& commands[k] == Command::ClearUntilNewLine
            &&& then.fg == asked_color(line.line.style.fg)
            &&& then.bg == asked_color(line.line.style.bg)
        }),
{
    let commands = history_line_commands(line, width);
    let opening = line_opening(line.line, width);
    lemma_run_opening(r, line.line, width);
    let k = opening.len() - 1;
    assert(commands =~= opening + spans_commands(line.printed()) + reset_commands());
    assert(commands.take(k) =~= opening.drop_last());
    assert(opening.last() == Command::ClearUntilNewLine);
}

/// Whether a span of a line is to have a modifier: what the line's style says of it counts first.
pub open spec fn line_asks_for(line: Line, span: Span, flag: u16) -> bool {
    if line.style.sub_modifier.bits & flag != 0 {
        false
    } else if line.style.add_modifier.bits & flag != 0 {
        true
    } else {
        asks_for(span.style, flag)
    }
}

proof fn lemma_merged_asks(line: Line, span: Span, flag: u16)
    requires
        flag == BOLD || flag == DIM || flag == ITALIC || flag == UNDERLINED || flag == SLOW_BLINK
            || flag == RAPID_BLINK || flag == REVERSED || flag == CROSSED_OUT,
    ensures
        asks_for(span.style.patched(line.style), flag) == line_asks_for(line, span, flag),
{
    let (a, s) = (span.style.add_modifier.bits, span.style.sub_modifier.bits);
    let (la, ls) = (line.style.add_modifier.bits, line.style.sub_modifier.bits);
    assert((((a & !ls) | la) & flag != 0 && ((s & !la) | ls) & flag == 0) == (if ls & flag != 0 {
        false
    } else if la & flag != 0 {
        true
    } else {
        a & flag != 0 && s & flag == 0
    })) by (bit_vector)
        requires
            flag == 0x001 || flag == 0x002 || flag == 0x004 || flag == 0x008 || flag == 0x010
                || flag == 0x020 || flag == 0x040 || flag == 0x100,
    ;
}

/// Each span of a plain line is drawn in the line's colours where the line names them and else in its
/// own, and with just those modifiers that the line adds, or that the span asks for and the line
/// does not take away, on a terminal without attributes, whatever its colours were. (Of bold and of
/// blinking the same holds as of spans by themselves.)
pub proof fn law_each_span_of_a_line_is_drawn_as_the_styles_say(
    r: Rendition,
    line: Line,
    width: nat,
    i: int,
)
    requires
        has_no_attributes(r),
        0 <= i < line.spans@.len(),
    ensures
        ({
            let d = drawn(r, history_line_commands(HyperlinkLine::plain(line), width));
            let span = line.spans@[i];
            let how = d[i].rendition;
            &&& d.len() == line.spans@.len()
            &&& d[i].text == span.content@
            &&& how.fg == (if line.style.fg is Some {
                asked_color(line.style.fg)
            } else {
                asked_color(span.style.fg)
            })
            &&& how.bg == (if line.style.bg is Some {
                asked_color(line.style.bg)
            } else {
                asked_color(span.style.bg)
            })
            &&& how.dim == line_asks_for(line, span, DIM)
            &&& how.italic == line_asks_for(line, span, ITALIC)
            &&& how.underlined == line_asks_for(line, span, UNDERLINED)
            &&& how.reversed == line_asks_for(line, span, REVERSED)
            &&& how.crossed_out == line_asks_for(line, span, CROSSED_OUT)
            &&& keeps_bold(line.merged().take(i + 1)) ==> how.bold == line_asks_for(
                line,
                span,
                BOLD,
            )
            &&& keeps_blinking(line.merged().take(i + 1)) ==> how.slow_blink == line_asks_for(
                line,
                span,
                SLOW_BLINK,
            ) && how.rapid_blink == line_asks_for(line, span, RAPID_BLINK)
        }),
{
    let spans = line.merged();
    let plain = HyperlinkLine::plain(line);
    let part = spans.take(i + 1);
    let t = r.run(line_opening(line, width));
    let span = line.spans@[i];
    lemma_line_drawn(r, plain, width);
    lemma_run_opening(r, line, width);
    lemma_spans_texts_drawn(t, spans);
    lemma_drawn_take(t, spans, i);
    assert(part[0] == merged_span(line.spans@[0], line.style));
    lemma_last_span_drawn(t, part);
    assert(part.last() == merged_span(span, line.style));
    lemma_merged_asks(line, span, BOLD);
    lemma_merged_asks(line, span, DIM);
    lemma_merged_asks(line, span, ITALIC);
    lemma_merged_asks(line, span, UNDERLINED);
    lemma_merged_asks(line, span, SLOW_BLINK);
    lemma_merged_asks(line, span, RAPID_BLINK);
    lemma_merged_asks(line, span, REVERSED);
    lemma_merged_asks(line, span, CROSSED_OUT);
}

/// A span that asks for the same colours and modifiers as the one before it is only printed: what
/// does not differ is not switched.
pub proof fn law_only_what_differs_is_switched(spans: Seq<Span>, next: Span)
    requires
        spans.len() > 0,
        ({
            let (a, b) = (spans.last().style, next.style);
            &&& color_or_reset(a.fg) == color_or_reset(b.fg)
            &&& color_or_reset(a.bg) == color_or_reset(b.bg)
            &&& a.add_modifier.bits & !a.sub_modifier.bits == b.add_modifier.bits
                & !b.sub_modifier.bits
        }),
    ensures
        spans_commands(spans.push(next)) == spans_commands(spans).push(
            Command::Print(next.content),
        ),
{
    assert(spans.push(next).drop_last() =~= spans);
    assert(spans_commands(spans.push(next)) =~= spans_commands(spans).push(
        Command::Print(next.content),
    ));
}

/// Whether a flag is set in some modifiers.
pub open spec fn is_set(modifier: Modifier, flag: u16) -> bool {
    modifier.bits & flag != 0
}

proof fn lemma_has_is_set(modifier: Modifier, flag: u16)
    requires
        flag == BOLD || flag == DIM || flag == ITALIC || flag == UNDERLINED || flag == SLOW_BLINK
            || flag == RAPID_BLINK || flag == REVERSED || flag == CROSSED_OUT,
    ensures
        modifier.has(flag) == is_set(modifier, flag),
{
    let m = modifier.bits;
    assert((m & flag == flag) == (m & flag != 0)) by (bit_vector)
        requires
            flag == 0x001 || flag == 0x002 || flag == 0x004 || flag == 0x008 || flag == 0x010
                || flag == 0x020 || flag == 0x040 || flag == 0x100,
    ;
}

proof fn lemma_has_is_set_all(modifier: Modifier)
    ensures
        modifier.has(BOLD) == is_set(modifier, BOLD),
        modifier.has(DIM) == is_set(modifier, DIM),
        modifier.has(ITALIC) == is_set(modifier, ITALIC),
        modifier.has(UNDERLINED) == is_set(modifier, UNDERLINED),
        modifier.has(SLOW_BLINK) == is_set(modifier, SLOW_BLINK),
        modifier.has(RAPID_BLINK) == is_set(modifier, RAPID_BLINK),
        modifier.has(REVERSED) == is_set(modifier, REVERSED),
        modifier.has(CROSSED_OUT) == is_set(modifier, CROSSED_OUT),
{
    lemma_has_is_set(modifier, BOLD);
    lemma_has_is_set(modifier, DIM);
    lemma_has_is_set(modifier, ITALIC);
    lemma_has_is_set(modifier, UNDERLINED);
    lemma_has_is_set(modifier, SLOW_BLINK);
    lemma_has_is_set(modifier, RAPID_BLINK);
    lemma_has_is_set(modifier, REVERSED);
    lemma_has_is_set(modifier, CROSSED_OUT);
}

/// A terminal that drew with the one set of modifiers draws with the other after the commands of a
/// [`ModifierDiff`], each modifier being on just where its flag is set. The exceptions: bold is off
/// where dim was dropped and bold was to stay, and a kind of blinking where the other was dropped
/// and it was to stay.
pub proof fn law_modifier_diff_switches_each_flag(r: Rendition, diff: ModifierDiff)
    requires
        r.bold == is_set(diff.from, BOLD),
        r.dim == is_set(diff.from, DIM),
        r.italic == is_set(diff.from, ITALIC),
        r.underlined == is_set(diff.from, UNDERLINED),
        r.slow_blink == is_set(diff.from, SLOW_BLINK),
        r.rapid_blink == is_set(diff.from, RAPID_BLINK),
        r.reversed == is_set(diff.from, REVERSED),
        r.crossed_out == is_set(diff.from, CROSSED_OUT),
    ensures
        ({
            let (from, to) = (diff.from, diff.to);
            let t = r.run(diff.removals() + diff.additions());
            &&& t.fg == r.fg
            &&& t.bg == r.bg
            &&& t.dim == is_set(to, DIM)
            &&& t.italic == is_set(to, ITALIC)
            &&& t.underlined == is_set(to, UNDERLINED)
            &&& t.reversed == is_set(to, REVERSED)
            &&& t.crossed_out == is_set(to, CROSSED_OUT)
            &&& t.bold == (is_set(to, BOLD) && !(is_set(from, BOLD) && is_set(from, DIM)
                && !is_set(to, DIM)))
            &&& t.slow_blink == (is_set(to, SLOW_BLINK) && !(is_set(from, SLOW_BLINK) && is_set(
                from,
                RAPID_BLINK,
            ) && !is_set(to, RAPID_BLINK)))
            &&& t.rapid_blink == (is_set(to, RAPID_BLINK) && !(is_set(from, RAPID_BLINK)
                && is_set(from, SLOW_BLINK) && !is_set(to, SLOW_BLINK)))
        }),
{
    lemma_has_is_set_all(diff.from);
    lemma_has_is_set_all(diff.to);
    lemma_diff_outcome(r, diff);
}

proof fn lemma_contains_switch(
    before: Seq<Command>,
    wanted: bool,
    attribute: Attribute,
    command: Command,
)
    ensures
        (before + switch_if(wanted, attribute)).contains(command) == (before.contains(command)
            || wanted && command == Command::SetAttribute(attribute)),
{
    let after = before + switch_if(wanted, attribute);
    if before.contains(command) {
        let i = choose|i: int| 0 <= i < before.len() && before[i] == command;
        assert(after[i] == command);
    }
    if wanted && command == Command::SetAttribute(attribute) {
        assert(after[before.len() as int] == command);
    }
    if after.contains(command) {
        let i = choose|i: int| 0 <= i < after.len() && after[i] == command;
        if i < before.len() {
            assert(before[i] == command);
        }
    }
}

proof fn lemma_removals_contain(diff: ModifierDiff, command: Command)
    ensures
        ({
            let gone = diff.from.without(diff.to);
            diff.removals().contains(command) == {
                ||| gone.has(REVERSED) && command == Command::SetAttribute(Attribute::NoReverse)
                ||| (gone.has(BOLD) || gone.has(DIM)) && command == Command::SetAttribute(
                    Attribute::NormalIntensity,
                )
                ||| gone.has(BOLD) && diff.to.has(DIM) && command == Command::SetAttribute(
                    Attribute::Dim,
                )
                ||| gone.has(ITALIC) && command == Command::SetAttribute(Attribute::NoItalic)
                ||| gone.has(UNDERLINED) && command == Command::SetAttribute(
                    Attribute::NoUnderline,
                )
                ||| gone.has(CROSSED_OUT) && command == Command::SetAttribute(
                    Attribute::NotCrossedOut,
                )
                ||| (gone.has(SLOW_BLINK) || gone.has(RAPID_BLINK)) && command
                    == Command::SetAttribute(Attribute::NoBlink)
            }
        }),
{
    let gone = diff.from.without(diff.to);
    let c0: Seq<Command> = seq![];
    let c1 = c0 + switch_if(gone.has(REVERSED), Attribute::NoReverse);
    let c2 = c1 + switch_if(gone.has(BOLD), Attribute::NormalIntensity);
    let c3 = c2 + switch_if(gone.has(BOLD) && diff.to.has(DIM), Attribute::Dim);
    let c4 = c3 + switch_if(gone.has(ITALIC), Attribute::NoItalic);
    let c5 = c4 + switch_if(gone.has(UNDERLINED), Attribute::NoUnderline);
    let c6 = c5 + switch_if(gone.has(DIM), Attribute::NormalIntensity);
    let c7 = c6 + switch_if(gone.has(CROSSED_OUT), Attribute::NotCrossedOut);
    let blinks = gone.has(SLOW_BLINK) || gone.has(RAPID_BLINK);
    lemma_contains_switch(c0, gone.has(REVERSED), Attribute::NoReverse, command);
    lemma_contains_switch(c1, gone.has(BOLD), Attribute::NormalIntensity, command);
    lemma_contains_switch(c2, gone.has(BOLD) && diff.to.has(DIM), Attribute::Dim, command);
    lemma_contains_switch(c3, gone.has(ITALIC), Attribute::NoItalic, command);
    lemma_contains_switch(c4, gone.has(UNDERLINED), Attribute::NoUnderline, command);
    lemma_contains_switch(c5, gone.has(DIM), Attribute::NormalIntensity, command);
    lemma_contains_switch(c6, gone.has(CROSSED_OUT), Attribute::NotCrossedOut, command);
    lemma_contains_switch(c7, blinks, Attribute::NoBlink, command);
    assert(diff.removals() == c7 + switch_if(blinks, Attribute::NoBlink)) by {
        reveal(ModifierDiff::removals);
    }
}

proof fn lemma_additions_contain(diff: ModifierDiff, command: Command)
    ensures
        ({
            let new = diff.to.without(diff.from);
            diff.additions().contains(command) == {
                ||| new.has(REVERSED) && command == Command::SetAttribute(Attribute::Reverse)
                ||| new.has(BOLD) && command == Command::SetAttribute(Attribute::Bold)
                ||| new.has(ITALIC) && command == Command::SetAttribute(Attribute::Italic)
                ||| new.has(UNDERLINED) && command == Command::SetAttribute(Attribute::Underlined)
                ||| new.has(DIM) && command == Command::SetAttribute(Attribute::Dim)
                ||| new.has(CROSSED_OUT) && command == Command::SetAttribute(Attribute::CrossedOut)
                ||| new.has(SLOW_BLINK) && command == Command::SetAttribute(Attribute::SlowBlink)
                ||| new.has(RAPID_BLINK) && command == Command::SetAttribute(Attribute::RapidBlink)
            }
        }),
{
    let new = diff.to.without(diff.from);
    let c0: Seq<Command> = seq![];
    let c1 = c0 + switch_if(new.has(REVERSED), Attribute::Reverse);
    let c2 = c1 + switch_if(new.has(BOLD), Attribute::Bold);
    let c3 = c2 + switch_if(new.has(ITALIC), Attribute::Italic);
    let c4 = c3 + switch_if(new.has(UNDERLINED), Attribute::Underlined);
    let c5 = c4 + switch_if(new.has(DIM), Attribute::Dim);
    let c6 = c5 + switch_if(new.has(CROSSED_OUT), Attribute::CrossedOut);
    let c7 = c6 + switch_if(new.has(SLOW_BLINK), Attribute::SlowBlink);
    lemma_contains_switch(c0, new.has(REVERSED), Attribute::Reverse, command);
    lemma_contains_switch(c1, new.has(BOLD), Attribute::Bold, command);
    lemma_contains_switch(c2, new.has(ITALIC), Attribute::Italic, command);
    lemma_contains_switch(c3, new.has(UNDERLINED), Attribute::Underlined, command);
    lemma_contains_switch(c4, new.has(DIM), Attribute::Dim, command);
    lemma_contains_switch(c5, new.has(CROSSED_OUT), Attribute::CrossedOut, command);
    lemma_contains_switch(c6, new.has(SLOW_BLINK), Attribute::SlowBlink, command);
    lemma_contains_switch(c7, new.has(RAPID_BLINK), Attribute::RapidBlink, command);
    assert(diff.additions() == c7 + switch_if(new.has(RAPID_BLINK), Attribute::RapidBlink)) by {
        reveal(ModifierDiff::additions);
    }
}

/// A [`ModifierDiff`] sends a command if and only if a modifier changes that the command is for: it
/// switches on what is new, off what is gone, and dim on again where the end of bold ended it.
pub proof fn law_modifier_diff_sends_what_changes(diff: ModifierDiff, command: Command)
    ensures
        ({
            let gone = |flag: u16| is_set(diff.from, flag) && !is_set(diff.to, flag);
            let new = |flag: u16| is_set(diff.to, flag) && !is_set(diff.from, flag);
            (diff.removals() + diff.additions()).contains(command) == match command {
                Command::SetAttribute(attribute) => match attribute {
                    Attribute::Reset => false,
                    Attribute::Bold => new(BOLD),
                    Attribute::Dim => new(DIM) || gone(BOLD) && is_set(diff.to, DIM),
                    Attribute::Italic => new(ITALIC),
                    Attribute::Underlined => new(UNDERLINED),
                    Attribute::SlowBlink => new(SLOW_BLINK),
                    Attribute::RapidBlink => new(RAPID_BLINK),
                    Attribute::Reverse => new(REVERSED),
                    Attribute::CrossedOut => new(CROSSED_OUT),
                    Attribute::NormalIntensity => gone(BOLD) || gone(DIM),
                    Attribute::NoItalic => gone(ITALIC),
                    Attribute::NoUnderline => gone(UNDERLINED),
                    Attribute::NoBlink => gone(SLOW_BLINK) || gone(RAPID_BLINK),
                    Attribute::NoReverse => gone(REVERSED),
                    Attribute::NotCrossedOut => gone(CROSSED_OUT),
                },
                _ => false,
            }
        }),
{
    lemma_has_is_set_all(diff.from);
    lemma_has_is_set_all(diff.to);
    lemma_diff_has(diff);
    lemma_removals_contain(diff, command);
    lemma_additions_contain(diff, command);
    let (a, b) = (diff.removals(), diff.additions());
    if a.contains(command) {
        let i = choose|i: int| 0 <= i < a.len() && a[i] == command;
        assert((a + b)[i] == command);
    }
    if b.contains(command) {
        let i = choose|i: int| 0 <= i < b.len() && b[i] == command;
        assert((a + b)[a.len() + i] == command);
    }
    if (a + b).contains(command) {
        let i = choose|i: int| 0 <= i < (a + b).len() && (a + b)[i] == command;
        if i < a.len() {
            assert(a[i] == command);
        } else {
            assert(b[i - a.len()] == command);
        }
    }
}

/// Whatever the terminal drew with before, after a history line its pen is reset.
pub proof fn law_history_line_resets_the_pen(r: Rendition, line: HyperlinkLine, width: nat)
    ensures
        r.run(history_line_commands(line, width)) == reset_rendition(),
{
    let before = history_line_commands(line, width).take(
        history_line_commands(line, width).len() - 3,
    );
    let all = history_line_commands(line, width);
    assert(all =~= before + reset_commands());
    lemma_run_add(r, before, reset_commands());
    let t = r.run(before);
    let reset = reset_commands();
    assert(reset.last() == Command::SetAttribute(Attribute::Reset));
}

} // verus!
