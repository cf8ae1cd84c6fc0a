//! What the commands do to a terminal: history goes above the viewport and nothing gets lost.
//!
//! The terminal modelled here keeps, for each row, the characters written on it. A row on which
//! something was written over other things, or with a control character, is `Unknown`: what it
//! shows is not tracked.

use vstd::prelude::*;
use crate::ansi::{ResetScrollRegion, SetScrollRegion};
use crate::command::{Attribute, Command};
use crate::geometry::{left_over, smaller};
use crate::insert::{
    lines_below, lines_from_cursor, repeated, total_rows, width_of, HistoryInsertion,
    InsertHistoryMode, TerminalState,
};
use crate::rows::{
    advance, cursor_after, is_control_code, law_row_count_bounds, row_count, short, TextCursor,
};
use crate::spans::{
    change_pen, clear_continuation, clear_rows, history_line_commands, pen_after, pen_of,
    reset_commands, spans_commands, switch_if, ModifierDiff, Pen,
};
use crate::style::color_or_reset;
use crate::text::{spans_text, HyperlinkLine, Line, Span};

verus! {

/// A row of the terminal.
pub enum Row {
    /// Nothing is on the row.
    Blank,
    /// These characters were written on the row, beginning in its first column.
    Text(Seq<char>),
    /// Anything else.
    Unknown,
}

/// A terminal: its screen, what was scrolled off the top of it, and where the cursor is.
#[verifier::ext_equal]
pub struct Screen {
    pub width: nat,
    pub rows: Seq<Row>,
    pub scrollback: Seq<Row>,
    pub row: int,
    pub col: nat,
    /// Whether the cursor stands behind the last character that was written on its row.
    pub writing: bool,
    pub saved_row: int,
    pub saved_col: nat,
    /// The first row of the scroll region.
    pub top: int,
    /// The row below the scroll region.
    pub bottom: int,
}

/// Empty rows.
pub open spec fn blanks(n: nat) -> Seq<Row> {
    Seq::new(n, |i: int| Row::Blank)
}

impl Screen {
    /// Whether the cursor and the scroll region are on the screen.
    pub open spec fn is_valid(self) -> bool {
        &&& self.width > 0
        &&& 0 <= self.row < self.rows.len()
        &&& 0 <= self.top < self.bottom <= self.rows.len()
    }

    /// Puts the cursor somewhere.
    pub open spec fn at(self, row: int, col: nat) -> Screen {
        Screen { row, col, writing: false, ..self }
    }

    /// The last row that the cursor can be moved down to.
    pub open spec fn lowest(self) -> int {
        if self.row < self.bottom {
            self.bottom - 1
        } else {
            self.rows.len() - 1
        }
    }

    /// Moves the cursor one row down. At the bottom of the scroll region the rows of the region
    /// move up instead; the topmost goes to the scrollback if it was the screen's first.
    pub open spec fn line_feed(self) -> Screen {
        if self.row == self.bottom - 1 {
            Screen {
                rows: self.rows.take(self.top) + self.rows.subrange(self.top + 1, self.bottom)
                    + blanks(1) + self.rows.skip(self.bottom),
                scrollback: if self.top == 0 {
                    self.scrollback.push(self.rows[0])
                } else {
                    self.scrollback
                },
                ..self
            }
        } else if self.row + 1 < self.rows.len() {
            Screen { row: self.row + 1, ..self }
        } else {
            self
        }
    }

    /// Moves the cursor one row up. At the top of the scroll region the rows of the region move
    /// down instead.
    pub open spec fn reverse_index(self) -> Screen {
        if self.row == self.top {
            Screen {
                rows: self.rows.take(self.top) + blanks(1) + self.rows.subrange(
                    self.top,
                    self.bottom - 1,
                ) + self.rows.skip(self.bottom),
                writing: false,
                ..self
            }
        } else if self.row > 0 {
            self.at(self.row - 1, self.col)
        } else {
            self
        }
    }

    /// Writes a character into the cursor's row.
    pub open spec fn put(self, c: char) -> Row {
        match self.rows[self.row] {
            Row::Text(text) if self.writing => Row::Text(text.push(c)),
            Row::Blank if !self.writing && self.col == 0 => Row::Text(seq![c]),
            _ => Row::Unknown,
        }
    }

    /// Takes one character at the cursor, on a new row if it does not fit on this one.
    pub open spec fn print_char(self, c: char) -> Screen {
        if is_control(c) {
            Screen { rows: self.rows.update(self.row, Row::Unknown), ..self }
        } else {
            let next = advance(TextCursor { rows: 0, col: self.col }, c, self.width);
            let fed = if next.rows > 0 {
                Screen { col: 0, writing: false, ..self.line_feed() }
            } else {
                self
            };
            Screen {
                rows: fed.rows.update(fed.row, fed.put(c)),
                col: next.col,
                writing: true,
                ..fed
            }
        }
    }

    /// Takes some text at the cursor.
    pub open spec fn print(self, text: Seq<char>) -> Screen
        decreases text.len(),
    {
        if text.len() == 0 {
            self
        } else {
            self.print(text.drop_last()).print_char(text.last())
        }
    }

    /// Obeys one command.
    pub open spec fn obey(self, command: Command) -> Screen {
        match command {
            Command::MoveTo(x, y) => self.at(
                smaller(y as int, self.rows.len() - 1),
                x as nat,
            ),
            Command::MoveDown(n) => self.at(
                smaller(self.row + n, self.lowest()),
                self.col,
            ),
            Command::MoveToColumn(x) => self.at(self.row, x as nat),
            Command::SavePosition => Screen { saved_row: self.row, saved_col: self.col, ..self },
            Command::RestorePosition => self.at(self.saved_row, self.saved_col),
            Command::SetScrollRegion(region) => if 1 <= region.0.start < region.0.end
                <= self.rows.len() {
                Screen {
                    top: region.0.start - 1,
                    bottom: region.0.end as int,
                    ..self.at(0, 0)
                }
            } else {
                self
            },
            Command::ResetScrollRegion(_) => Screen {
                top: 0,
                bottom: self.rows.len() as int,
                ..self.at(0, 0)
            },
            Command::ClearUntilNewLine => Screen {
                rows: self.rows.update(
                    self.row,
                    if self.col == 0 {
                        Row::Blank
                    } else {
                        Row::Unknown
                    },
                ),
                writing: false,
                ..self
            },
            Command::ReverseIndex => self.reverse_index(),
            Command::LineBreak => Screen { col: 0, writing: false, ..self.line_feed() },
            Command::SetColors(_, _) => self,
            Command::SetForegroundColor(_) => self,
            Command::SetBackgroundColor(_) => self,
            Command::SetAttribute(_) => self,
            Command::Print(text) => self.print(visible(text@, false)),
        }
    }

    /// Obeys some commands, one after the other.
    pub open spec fn run(self, commands: Seq<Command>) -> Screen
        decreases commands.len(),
    {
        if commands.len() == 0 {
            self
        } else {
            self.run(commands.drop_last()).obey(commands.last())
        }
    }

    /// Everything from the oldest row of the scrollback down to the row above `row`.
    pub open spec fn above(self, row: int) -> Seq<Row> {
        self.scrollback + self.rows.take(row)
    }
}

/// Whether a character is a control character other than a tab.
pub open spec fn is_control(c: char) -> bool {
    c != '\t' && is_control_code(c)
}

/// The rows on which `text` comes to lie on a terminal of `width` columns.
pub open spec fn layout(text: Seq<char>, width: nat) -> Seq<Row>
    decreases text.len(),
{
    if text.len() == 0 {
        seq![Row::Blank]
    } else {
        let before = layout(text.drop_last(), width);
        let at = cursor_after(text.drop_last(), width);
        let c = text.last();
        if advance(at, c, width).rows > at.rows {
            before.push(Row::Text(seq![c]))
        } else {
            before.update(
                before.len() - 1,
                match before.last() {
                    Row::Text(t) => Row::Text(t.push(c)),
                    _ => Row::Text(seq![c]),
                },
            )
        }
    }
}

/// The rows on which some lines come to lie, each beginning on a new row.
pub open spec fn lines_layout(lines: Seq<HyperlinkLine>, width: nat) -> Seq<Row>
    decreases lines.len(),
{
    if lines.len() == 0 {
        seq![]
    } else {
        lines_layout(lines.drop_last(), width) + layout(lines.last().line.text(), width)
    }
}

/// What the terminal shows of some text: an operating system command, which begins with `ESC ]`
/// and ends with a bell, such as a hyperlink's, is not shown. `inside` tells whether the text
/// begins within one.
pub open spec fn visible(text: Seq<char>, inside: bool) -> Seq<char>
    decreases text.len(),
{
    if text.len() == 0 {
        seq![]
    } else if inside {
        visible(text.drop_first(), text[0] != '\u{7}')
    } else if text.len() >= 2 && text[0] == '\u{1b}' && text[1] == ']' {
        visible(text.skip(2), true)
    } else {
        seq![text[0]] + visible(text.drop_first(), false)
    }
}

/// What the terminal shows of some spans.
pub open spec fn spans_visible(spans: Seq<Span>) -> Seq<char>
    decreases spans.len(),
{
    if spans.len() == 0 {
        seq![]
    } else {
        spans_visible(spans.drop_last()) + visible(spans.last().content@, false)
    }
}

/// Whether no character is a control character other than a tab.
pub open spec fn has_no_control(text: Seq<char>) -> bool {
    forall|i: int| 0 <= i < text.len() ==> !is_control(#[trigger] text[i])
}

/// Whether what the terminal shows of a line is the line's text, without control characters.
pub open spec fn shows_its_text(line: HyperlinkLine) -> bool {
    &&& spans_visible(line.printed()) == line.line.text()
    &&& has_no_control(line.line.text())
}

/// Text lies on as many rows as are counted for it.
pub proof fn law_layout_has_the_counted_rows(text: Seq<char>, width: nat)
    requires
        width > 0,
    ensures
        layout(text, width).len() == row_count(text, width),
    decreases text.len(),
{
    if text.len() > 0 {
        law_layout_has_the_counted_rows(text.drop_last(), width);
        law_row_count_bounds(text.drop_last(), width);
    }
}

/// Lines lie on as many rows as are counted for them together.
pub proof fn law_lines_lie_on_the_counted_rows(lines: Seq<HyperlinkLine>, width: nat)
    requires
        width > 0,
    ensures
        lines_layout(lines, width).len() == total_rows(lines, width),
    decreases lines.len(),
{
    if lines.len() > 0 {
        law_lines_lie_on_the_counted_rows(lines.drop_last(), width);
        law_layout_has_the_counted_rows(lines.last().line.text(), width);
    }
}

proof fn lemma_run_add(s: Screen, a: Seq<Command>, b: Seq<Command>)
    ensures
        s.run(a + b) == s.run(a).run(b),
    decreases b.len(),
{
    if b.len() == 0 {
        assert(a + b =~= a);
    } else {
        lemma_run_add(s, a, b.drop_last());
        assert((a + b).drop_last() =~= a + b.drop_last());
        assert((a + b).last() == b.last());
    }
}

proof fn lemma_run_one(s: Screen, command: Command)
    ensures
        s.run(seq![command]) == s.obey(command),
{
    let one = seq![command];
    assert(one.drop_last() =~= seq![]);
    assert(s.run(one.drop_last()) == s);
}

proof fn lemma_run_two(s: Screen, a: Command, b: Command)
    ensures
        s.run(seq![a, b]) == s.obey(a).obey(b),
{
    let both = seq![a, b];
    assert(both.drop_last() =~= seq![a]);
    lemma_run_one(s, a);
}

proof fn lemma_run_three(s: Screen, a: Command, b: Command, c: Command)
    ensures
        s.run(seq![a, b, c]) == s.obey(a).obey(b).obey(c),
{
    let all = seq![a, b, c];
    assert(all.drop_last() =~= seq![a, b]);
    lemma_run_two(s, a, b);
}

proof fn lemma_print_add(s: Screen, a: Seq<char>, b: Seq<char>)
    ensures
        s.print(a + b) == s.print(a).print(b),
    decreases b.len(),
{
    if b.len() == 0 {
        assert(a + b =~= a);
    } else {
        lemma_print_add(s, a, b.drop_last());
        assert((a + b).drop_last() =~= a + b.drop_last());
        assert((a + b).last() == b.last());
    }
}

/// The cursor is in a scroll region that begins at the top of the screen and ends at `end`, with
/// only empty rows below it.
spec fn appends(s: Screen, end: int) -> bool {
    &&& s.is_valid()
    &&& s.top == 0
    &&& s.bottom == end
    &&& s.row < end
    &&& forall|i: int| s.row < i < end ==> (#[trigger] s.rows[i]) is Blank
}

/// Everything down to the cursor's row.
spec fn tape(s: Screen) -> Seq<Row> {
    s.above(s.row + 1)
}

/// From `s` to `t` rows were added at the cursor and nothing below the scroll region changed.
spec fn appended(s: Screen, t: Screen, end: int) -> bool {
    &&& appends(t, end)
    &&& t.width == s.width
    &&& t.rows.len() == s.rows.len()
    &&& t.rows.skip(end) == s.rows.skip(end)
    &&& tape(t).len() >= tape(s).len()
    &&& t.row == smaller(s.row + (tape(t).len() - tape(s).len()), end - 1)
}

proof fn lemma_appended_trans(s: Screen, t: Screen, u: Screen, end: int)
    requires
        appends(s, end),
        appended(s, t, end),
        appended(t, u, end),
    ensures
        appended(s, u, end),
{
}

proof fn lemma_line_feed(s: Screen, end: int)
    requires
        appends(s, end),
    ensures
        appended(s, s.line_feed(), end),
        tape(s.line_feed()) == tape(s).push(Row::Blank),
{
    let t = s.line_feed();
    if s.row == end - 1 {
        assert(s.rows.take(0) =~= seq![]);
        assert(t.rows =~= s.rows.subrange(1, end) + blanks(1) + s.rows.skip(end));
        assert(t.rows.skip(end) =~= s.rows.skip(end));
        assert(tape(t) =~= tape(s).push(Row::Blank));
    } else {
        assert(s.rows[s.row + 1] is Blank);
        assert(tape(t) =~= tape(s).push(Row::Blank));
    }
}

/// The cursor is at the beginning of an empty row.
spec fn on_blank_row(s: Screen) -> bool {
    &&& s.col == 0
    &&& !s.writing
    &&& s.rows[s.row] is Blank
}

proof fn lemma_advance_shift(rows: nat, col: nat, c: char, width: nat)
    ensures
        advance(TextCursor { rows, col }, c, width).rows == rows + advance(
            TextCursor { rows: 0, col },
            c,
            width,
        ).rows,
        advance(TextCursor { rows, col }, c, width).col == advance(
            TextCursor { rows: 0, col },
            c,
            width,
        ).col,
{
}

proof fn lemma_print_on_new_row(s: Screen, c: char, end: int)
    requires
        appends(s, end),
        !is_control(c),
        advance(TextCursor { rows: 0, col: s.col }, c, s.width).rows > 0,
    ensures
        appended(s, s.print_char(c), end),
        tape(s.print_char(c)) == tape(s).push(Row::Text(seq![c])),
        s.print_char(c).writing,
        s.print_char(c).col == advance(TextCursor { rows: 0, col: s.col }, c, s.width).col,
{
    lemma_line_feed(s, end);
    let fed = Screen { col: 0, writing: false, ..s.line_feed() };
    let t = s.print_char(c);
    assert(tape(fed) == tape(s.line_feed()));
    assert(tape(fed).last() == fed.rows[fed.row]);
    assert(t.rows == fed.rows.update(fed.row, Row::Text(seq![c])));
    assert(t.rows.skip(end) =~= fed.rows.skip(end));
    assert(tape(t) =~= tape(s).push(Row::Text(seq![c])));
}

proof fn lemma_print_on_same_row(s: Screen, c: char, end: int)
    requires
        appends(s, end),
        !is_control(c),
        advance(TextCursor { rows: 0, col: s.col }, c, s.width).rows == 0,
    ensures
        appended(s, s.print_char(c), end),
        tape(s.print_char(c)) == tape(s).update(tape(s).len() - 1, s.put(c)),
        s.print_char(c).writing,
        s.print_char(c).col == advance(TextCursor { rows: 0, col: s.col }, c, s.width).col,
{
    let t = s.print_char(c);
    assert(t.rows == s.rows.update(s.row, s.put(c)));
    assert(t.rows.skip(end) =~= s.rows.skip(end));
    assert(tape(t) =~= tape(s).update(tape(s).len() - 1, s.put(c)));
}

proof fn lemma_print(s: Screen, text: Seq<char>, end: int)
    requires
        appends(s, end),
        on_blank_row(s),
        has_no_control(text),
    ensures
        appended(s, s.print(text), end),
        tape(s.print(text)) == tape(s).drop_last() + layout(text, s.width),
        s.print(text).col == cursor_after(text, s.width).col,
        s.print(text).writing == (text.len() > 0),
    decreases text.len(),
{
    let w = s.width;
    if text.len() == 0 {
        assert(tape(s).last() == s.rows[s.row]);
        assert(tape(s) =~= tape(s).drop_last() + layout(text, w));
    } else {
        let before = text.drop_last();
        let c = text.last();
        assert(!is_control(text[text.len() - 1]));
        assert forall|i: int| 0 <= i < before.len() implies !is_control(#[trigger] before[i]) by {
            assert(before[i] == text[i]);
        }
        lemma_print(s, before, end);
        lemma_layout_last(before, w);
        let t = s.print(before);
        let at = cursor_after(before, w);
        lemma_advance_shift(at.rows, at.col, c, w);
        assert(tape(t).last() == layout(before, w).last());
        assert(tape(t).last() == t.rows[t.row]);
        if advance(TextCursor { rows: 0, col: t.col }, c, w).rows > 0 {
            lemma_print_on_new_row(t, c, end);
        } else {
            lemma_print_on_same_row(t, c, end);
        }
        lemma_appended_trans(s, t, t.print_char(c), end);
        assert(tape(t.print_char(c)) =~= tape(s).drop_last() + layout(text, w));
    }
}

proof fn lemma_layout_last(text: Seq<char>, width: nat)
    requires
        width > 0,
    ensures
        layout(text, width).len() >= 1,
        text.len() > 0 ==> layout(text, width).last() is Text,
    decreases text.len(),
{
    law_layout_has_the_counted_rows(text, width);
    law_row_count_bounds(text, width);
    if text.len() > 0 {
        lemma_layout_last(text.drop_last(), width);
    }
}

/// Whether all of some commands leave everything but the pen as it is.
pub open spec fn only_pen(commands: Seq<Command>) -> bool {
    forall|i: int| 0 <= i < commands.len() ==> is_pen(#[trigger] commands[i])
}

/// Whether a command leaves everything but the pen as it is.
pub open spec fn is_pen(command: Command) -> bool {
    command is SetColors || command is SetForegroundColor || command is SetBackgroundColor
        || command is SetAttribute
}

proof fn lemma_run_pen(s: Screen, commands: Seq<Command>)
    requires
        only_pen(commands),
    ensures
        s.run(commands) == s,
    decreases commands.len(),
{
    if commands.len() > 0 {
        let before = commands.drop_last();
        assert forall|i: int| 0 <= i < before.len() implies is_pen(#[trigger] before[i]) by {
            assert(before[i] == commands[i]);
        }
        lemma_run_pen(s, before);
        assert(is_pen(commands[commands.len() - 1]));
    }
}

proof fn lemma_only_pen_add(a: Seq<Command>, b: Seq<Command>)
    requires
        only_pen(a),
        only_pen(b),
    ensures
        only_pen(a + b),
{
    assert forall|i: int| 0 <= i < (a + b).len() implies is_pen(#[trigger] (a + b)[i]) by {
        if i < a.len() {
            assert((a + b)[i] == a[i]);
        } else {
            assert((a + b)[i] == b[i - a.len()]);
        }
    }
}

broadcast proof fn lemma_switches(before: Seq<Command>, wanted: bool, attribute: Attribute)
    requires
        only_pen(before),
    ensures
        only_pen(#[trigger] (before + switch_if(wanted, attribute))),
{
    lemma_only_pen_add(before, switch_if(wanted, attribute));
}

proof fn lemma_diff_is_pen(diff: ModifierDiff)
    ensures
        only_pen(diff.removals() + diff.additions()),
{
    broadcast use lemma_switches;
    assert(only_pen(diff.removals())) by {
        reveal(ModifierDiff::removals);
    }
    assert(only_pen(diff.additions())) by {
        reveal(ModifierDiff::additions);
    }
    lemma_only_pen_add(diff.removals(), diff.additions());
}

pub(crate) proof fn lemma_change_is_pen(from: Pen, to: Pen)
    ensures
        only_pen(change_pen(from, to)),
{
    let diff = ModifierDiff { from: from.modifier, to: to.modifier };
    lemma_diff_is_pen(diff);
    let first = if from.modifier == to.modifier {
        seq![]
    } else {
        diff.removals() + diff.additions()
    };
    let second = if from.fg == to.fg && from.bg == to.bg {
        seq![]
    } else {
        seq![Command::SetColors(to.fg, to.bg)]
    };
    lemma_only_pen_add(first, second);
}

proof fn lemma_run_spans(s: Screen, spans: Seq<Span>)
    ensures
        s.run(spans_commands(spans)) == s.print(spans_visible(spans)),
    decreases spans.len(),
{
    if spans.len() > 0 {
        let before = spans.drop_last();
        let span = spans.last();
        lemma_run_spans(s, before);
        let change = change_pen(pen_after(before), pen_of(span.style));
        lemma_change_is_pen(pen_after(before), pen_of(span.style));
        let t = s.run(spans_commands(before));
        lemma_run_pen(t, change);
        let print = Command::Print(span.content);
        assert(change.push(print).drop_last() =~= change);
        lemma_run_add(s, spans_commands(before), change.push(print));
        lemma_print_add(s, spans_visible(before), visible(span.content@, false));
    }
}

/// The text that some commands print.
pub open spec fn printed_text(commands: Seq<Command>) -> Seq<char>
    decreases commands.len(),
{
    if commands.len() == 0 {
        seq![]
    } else {
        printed_text(commands.drop_last()) + match commands.last() {
            Command::Print(text) => text@,
            _ => seq![],
        }
    }
}

proof fn lemma_printed_add(a: Seq<Command>, b: Seq<Command>)
    ensures
        printed_text(a + b) == printed_text(a) + printed_text(b),
    decreases b.len(),
{
    if b.len() == 0 {
        assert(a + b =~= a);
        assert(printed_text(a) + printed_text(b) =~= printed_text(a));
    } else {
        lemma_printed_add(a, b.drop_last());
        assert((a + b).drop_last() =~= a + b.drop_last());
        assert((a + b).last() == b.last());
        assert(printed_text(a + b) =~= printed_text(a) + printed_text(b));
    }
}

proof fn lemma_printed_pen(commands: Seq<Command>)
    requires
        only_pen(commands),
    ensures
        printed_text(commands) == Seq::<char>::empty(),
    decreases commands.len(),
{
    if commands.len() > 0 {
        let before = commands.drop_last();
        assert forall|i: int| 0 <= i < before.len() implies is_pen(#[trigger] before[i]) by {
            assert(before[i] == commands[i]);
        }
        lemma_printed_pen(before);
        assert(is_pen(commands[commands.len() - 1]));
    }
}

/// Styling adds no text and takes none away: what is printed for some spans is their text.
pub proof fn law_styling_keeps_the_text(spans: Seq<Span>)
    ensures
        printed_text(spans_commands(spans) + reset_commands()) == spans_text(spans),
{
    lemma_printed_add(spans_commands(spans), reset_commands());
    assert(only_pen(reset_commands()));
    lemma_printed_pen(reset_commands());
    lemma_printed_spans(spans);
    assert(spans_text(spans) + Seq::<char>::empty() =~= spans_text(spans));
}

proof fn lemma_printed_spans(spans: Seq<Span>)
    ensures
        printed_text(spans_commands(spans)) == spans_text(spans),
    decreases spans.len(),
{
    if spans.len() > 0 {
        let before = spans.drop_last();
        let span = spans.last();
        let change = change_pen(pen_after(before), pen_of(span.style));
        let print = Command::Print(span.content);
        lemma_printed_spans(before);
        lemma_change_is_pen(pen_after(before), pen_of(span.style));
        lemma_printed_pen(change);
        assert(change.push(print).drop_last() =~= change);
        lemma_printed_add(spans_commands(before), change.push(print));
        assert(printed_text(change.push(print)) =~= span.content@);
    }
}

proof fn lemma_merged_text(line: Line, n: int)
    requires
        0 <= n <= line.spans@.len(),
    ensures
        spans_text(line.merged().take(n)) == spans_text(line.spans@.take(n)),
    decreases n,
{
    let merged = line.merged();
    let spans = line.spans@;
    if n > 0 {
        lemma_merged_text(line, n - 1);
        assert(merged.take(n).drop_last() =~= merged.take(n - 1));
        assert(spans.take(n).drop_last() =~= spans.take(n - 1));
    } else {
        assert(merged.take(0) =~= seq![]);
        assert(spans.take(0) =~= seq![]);
    }
}

/// Laying a line's style over its spans leaves the visible text as it is.
pub proof fn law_merging_keeps_the_text(line: Line)
    ensures
        spans_text(line.merged()) == line.text(),
{
    let spans = line.spans@;
    lemma_merged_text(line, spans.len() as int);
    assert(line.merged().take(spans.len() as int) =~= line.merged());
    assert(spans.take(spans.len() as int) =~= spans);
}

proof fn lemma_visible(text: Seq<char>)
    requires
        has_no_control(text),
    ensures
        visible(text, false) == text,
    decreases text.len(),
{
    if text.len() > 0 {
        let rest = text.drop_first();
        assert(!is_control(text[0]));
        assert forall|i: int| 0 <= i < rest.len() implies !is_control(#[trigger] rest[i]) by {
            assert(rest[i] == text[i + 1]);
        }
        lemma_visible(rest);
        assert(seq![text[0]] + rest =~= text);
    }
}

proof fn lemma_spans_visible(spans: Seq<Span>)
    requires
        has_no_control(spans_text(spans)),
    ensures
        spans_visible(spans) == spans_text(spans),
    decreases spans.len(),
{
    if spans.len() > 0 {
        let text = spans_text(spans);
        let before = spans_text(spans.drop_last());
        let last = spans.last().content@;
        assert forall|i: int| 0 <= i < before.len() implies !is_control(#[trigger] before[i]) by {
            assert(before[i] == text[i]);
        }
        assert forall|i: int| 0 <= i < last.len() implies !is_control(#[trigger] last[i]) by {
            assert(last[i] == text[before.len() + i]);
        }
        lemma_spans_visible(spans.drop_last());
        lemma_visible(last);
    }
}

/// A plain line without control characters shows its text.
pub proof fn law_plain_line_shows_its_text(line: Line)
    requires
        has_no_control(line.text()),
    ensures
        shows_its_text(HyperlinkLine::plain(line)),
{
    law_merging_keeps_the_text(line);
    lemma_spans_visible(line.merged());
}

/// Some rows, with those from `first` to `last` cleared.
pub open spec fn cleared_between(rows: Seq<Row>, first: int, last: int) -> Seq<Row> {
    Seq::new(
        rows.len(),
        |i: int|
            if first <= i <= last {
                Row::Blank
            } else {
                rows[i]
            },
    )
}

proof fn lemma_cleared_below(s: Screen, n: nat)
    requires
        s.is_valid(),
        n > 0,
    ensures
        s.run(clear_rows(n)) == (Screen {
            rows: cleared_between(
                s.rows,
                smaller(s.row + 1, s.lowest()),
                smaller(s.row + n, s.lowest()),
            ),
            ..s.at(smaller(s.row + n, s.lowest()), 0)
        }),
    decreases n,
{
    let m = (n - 1) as nat;
    let t = s.run(clear_rows(m));
    let first = smaller(s.row + 1, s.lowest());
    let next = smaller(s.row + n, s.lowest());
    if m > 0 {
        lemma_cleared_below(s, m);
    }
    lemma_run_add(
        s,
        clear_rows(m),
        seq![Command::MoveDown(1), Command::MoveToColumn(0), Command::ClearUntilNewLine],
    );
    lemma_run_three(t, Command::MoveDown(1), Command::MoveToColumn(0), Command::ClearUntilNewLine);
    assert(t.obey(Command::MoveDown(1)).obey(Command::MoveToColumn(0)) == t.at(next, 0));
    assert(t.rows.update(next, Row::Blank) =~= cleared_between(s.rows, first, next));
}

/// Before a line of `rows` rows is written, just the rows that it runs on to are cleared, one fewer
/// than it has, as far as they are in reach; the cursor is then where it was. (On the last row in
/// reach, that row is cleared in their place.)
pub proof fn law_just_the_continuation_rows_are_cleared(s: Screen, rows: u16)
    requires
        s.is_valid(),
        rows > 1,
    ensures
        ({
            let t = s.run(clear_continuation(rows));
            &&& t.rows == cleared_between(
                s.rows,
                smaller(s.row + 1, s.lowest()),
                smaller(s.row + (rows - 1), s.lowest()),
            )
            &&& t.scrollback == s.scrollback
            &&& t.row == s.row
            &&& t.col == s.col
        }),
{
    let n = (rows - 1) as nat;
    let saved = s.obey(Command::SavePosition);
    lemma_run_one(s, Command::SavePosition);
    lemma_cleared_below(saved, n);
    lemma_run_add(s, seq![Command::SavePosition], clear_rows(n));
    lemma_run_add(s, seq![Command::SavePosition] + clear_rows(n), seq![Command::RestorePosition]);
    lemma_run_one(saved.run(clear_rows(n)), Command::RestorePosition);
}

proof fn lemma_clear_next(s: Screen, row: int, end: int)
    requires
        appends(s, end),
        on_blank_row(s),
        s.row <= row < end,
    ensures
        s.at(row, 0).obey(Command::MoveDown(1)).obey(Command::MoveToColumn(0)).obey(
            Command::ClearUntilNewLine,
        ) == s.at(smaller(row + 1, end - 1), 0),
{
    let next = smaller(row + 1, end - 1);
    assert(s.at(row, 0).obey(Command::MoveDown(1)) == s.at(next, 0));
    assert(s.at(next, 0).obey(Command::MoveToColumn(0)) == s.at(next, 0));
    assert(s.rows[next] is Blank);
    assert(s.rows.update(next, Row::Blank) =~= s.rows);
}

proof fn lemma_clear_rows(s: Screen, n: nat, end: int)
    requires
        appends(s, end),
        on_blank_row(s),
    ensures
        s.run(clear_rows(n)) == s.at(smaller(s.row + n, end - 1), 0),
    decreases n,
{
    if n > 0 {
        let m = (n - 1) as nat;
        let row = smaller(s.row + m, end - 1);
        lemma_clear_rows(s, m, end);
        lemma_run_add(
            s,
            clear_rows(m),
            seq![Command::MoveDown(1), Command::MoveToColumn(0), Command::ClearUntilNewLine],
        );
        lemma_run_three(
            s.at(row, 0),
            Command::MoveDown(1),
            Command::MoveToColumn(0),
            Command::ClearUntilNewLine,
        );
        lemma_clear_next(s, row, end);
    } else {
        assert(s.at(s.row, 0) == s);
    }
}

proof fn lemma_clear_continuation(s: Screen, rows: u16, end: int)
    requires
        appends(s, end),
        on_blank_row(s),
    ensures
        ({
            let t = s.run(clear_continuation(rows));
            t == (Screen { saved_row: t.saved_row, saved_col: t.saved_col, ..s })
        }),
{
    if rows > 1 {
        let n = (rows - 1) as nat;
        let saved = s.obey(Command::SavePosition);
        lemma_run_one(s, Command::SavePosition);
        lemma_clear_rows(saved, n, end);
        lemma_run_add(s, seq![Command::SavePosition], clear_rows(n));
        lemma_run_add(
            s,
            seq![Command::SavePosition] + clear_rows(n),
            seq![Command::RestorePosition],
        );
        lemma_run_one(saved.run(clear_rows(n)), Command::RestorePosition);
    }
}

proof fn lemma_print_in_place(s: Screen, text: Seq<char>)
    requires
        s.is_valid(),
        on_blank_row(s),
        has_no_control(text),
        s.row + layout(text, s.width).len() <= s.bottom,
        forall|i: int|
            s.row <= i < s.row + layout(text, s.width).len() ==> (#[trigger] s.rows[i]) is Blank,
    ensures
        ({
            let on = layout(text, s.width);
            s.print(text) == (Screen {
                rows: s.rows.take(s.row) + on + s.rows.skip(s.row + on.len()),
                row: s.row + on.len() - 1,
                col: cursor_after(text, s.width).col,
                writing: text.len() > 0,
                ..s
            })
        }),
    decreases text.len(),
{
    let w = s.width;
    let on = layout(text, w);
    lemma_layout_last(text, w);
    if text.len() == 0 {
        assert(s.rows =~= s.rows.take(s.row) + on + s.rows.skip(s.row + on.len()));
    } else {
        let before = text.drop_last();
        let c = text.last();
        let was = layout(before, w);
        assert(!is_control(text[text.len() - 1]));
        assert forall|i: int| 0 <= i < before.len() implies !is_control(#[trigger] before[i]) by {
            assert(before[i] == text[i]);
        }
        lemma_print_in_place(s, before);
        lemma_layout_last(before, w);
        let t = s.print(before);
        let at = cursor_after(before, w);
        lemma_advance_shift(at.rows, at.col, c, w);
        assert(t.rows[t.row] == was.last());
        if advance(TextCursor { rows: 0, col: t.col }, c, w).rows > 0 {
            assert(on == was.push(Row::Text(seq![c])));
            assert(t.rows[t.row + 1] == s.rows[t.row + 1]);
            assert(s.rows[t.row + 1] is Blank);
        } else {
            assert(on.len() == was.len());
        }
        assert(t.print_char(c).rows =~= s.rows.take(s.row) + on + s.rows.skip(s.row + on.len()));
    }
}

/// A history line comes to lie on just the rows that are counted for it, from the cursor's on, as it
/// would on an empty screen: nothing of what was on them is left, and nothing else is touched. That
/// is if they are within the rows that scroll, and fewer than a coordinate can count.
#[verifier::spinoff_prover]
#[verifier::rlimit(40)]
pub proof fn law_line_replaces_what_was_on_its_rows(s: Screen, line: HyperlinkLine)
    requires
        s.is_valid(),
        s.col == 0,
        shows_its_text(line),
        row_count(line.line.text(), s.width) <= u16::MAX,
        s.row + row_count(line.line.text(), s.width) <= s.bottom,
    ensures
        ({
            let n = row_count(line.line.text(), s.width);
            let t = s.run(history_line_commands(line, s.width));
            &&& t.rows == s.rows.take(s.row) + layout(line.line.text(), s.width) + s.rows.skip(
                s.row + n,
            )
            &&& t.scrollback == s.scrollback
            &&& t.row == s.row + n - 1
        }),
{
    let text = line.line.text();
    let n = row_count(text, s.width);
    let opening = clear_continuation(short(n)) + seq![
        Command::SetColors(
            color_or_reset(line.line.style.fg),
            color_or_reset(line.line.style.bg),
        ),
        Command::ClearUntilNewLine,
    ];
    let spans = spans_commands(line.printed());
    law_row_count_bounds(text, s.width);
    law_layout_has_the_counted_rows(text, s.width);
    assert(short(n) == n);
    lemma_opening_clears(s, short(n), opening[opening.len() - 2]);
    let u = s.run(opening);
    lemma_run_add(s, opening, spans);
    lemma_run_spans(u, line.printed());
    lemma_run_add(s, opening + spans, reset_commands());
    assert(only_pen(reset_commands()));
    lemma_run_pen(u.print(text), reset_commands());
    lemma_print_in_place(u, text);
    assert(u.rows.take(s.row) =~= s.rows.take(s.row));
    assert(u.rows.skip(s.row + n) =~= s.rows.skip(s.row + n));
}

/// Whatever is to be printed, the rows that are counted for a line are cleared before its spans are
/// printed, from the cursor's on, and no others; the cursor is at the beginning of the first of them
/// then.
pub proof fn law_line_clears_its_rows_first(s: Screen, line: HyperlinkLine)
    requires
        s.is_valid(),
        s.col == 0,
        row_count(line.line.text(), s.width) <= u16::MAX,
        s.row + row_count(line.line.text(), s.width) <= s.bottom,
    ensures
        ({
            let n = row_count(line.line.text(), s.width);
            let commands = history_line_commands(line, s.width);
            let k = commands.len() - spans_commands(line.printed()).len() - 3;
            let u = s.run(commands.take(k));
            &&& 0 <= k <= commands.len()
            &&& u.rows == cleared_between(s.rows, s.row, s.row + n - 1)
            &&& u.scrollback == s.scrollback
            &&& u.row == s.row
            &&& u.col == 0
        }),
{
    let n = row_count(line.line.text(), s.width);
    let commands = history_line_commands(line, s.width);
    let opening = clear_continuation(short(n)) + seq![
        Command::SetColors(
            color_or_reset(line.line.style.fg),
            color_or_reset(line.line.style.bg),
        ),
        Command::ClearUntilNewLine,
    ];
    law_row_count_bounds(line.line.text(), s.width);
    assert(short(n) == n);
    lemma_opening_clears(s, short(n), opening[opening.len() - 2]);
    assert(commands =~= opening + spans_commands(line.printed()) + reset_commands());
    assert(commands.take(opening.len() as int) =~= opening);
}

proof fn lemma_opening_clears(s: Screen, rows: u16, colors: Command)
    requires
        s.is_valid(),
        s.col == 0,
        1 <= rows,
        s.row + rows <= s.bottom,
        colors is SetColors,
    ensures
        ({
            let u = s.run(
                clear_continuation(rows) + seq![colors, Command::ClearUntilNewLine],
            );
            &&& u.is_valid()
            &&& u.width == s.width
            &&& u.bottom == s.bottom
            &&& u.scrollback == s.scrollback
            &&& u.row == s.row
            &&& on_blank_row(u)
            &&& u.rows == cleared_between(s.rows, s.row, s.row + rows - 1)
        }),
{
    let clear = clear_continuation(rows);
    let t = s.run(clear);
    if rows > 1 {
        law_just_the_continuation_rows_are_cleared(s, rows);
        lemma_cleared_keeps(s, rows);
    }
    lemma_run_add(s, clear, seq![colors, Command::ClearUntilNewLine]);
    lemma_run_two(t, colors, Command::ClearUntilNewLine);
    assert(t.rows.update(t.row, Row::Blank) =~= cleared_between(
        s.rows,
        s.row,
        s.row + rows - 1,
    ));
}

proof fn lemma_cleared_keeps(s: Screen, rows: u16)
    requires
        s.is_valid(),
        rows > 1,
    ensures
        ({
            let t = s.run(clear_continuation(rows));
            t.width == s.width && t.top == s.top && t.bottom == s.bottom && !t.writing
        }),
{
    let n = (rows - 1) as nat;
    let saved = s.obey(Command::SavePosition);
    lemma_run_one(s, Command::SavePosition);
    lemma_cleared_below(saved, n);
    lemma_run_add(s, seq![Command::SavePosition], clear_rows(n));
    lemma_run_add(s, seq![Command::SavePosition] + clear_rows(n), seq![Command::RestorePosition]);
    lemma_run_one(saved.run(clear_rows(n)), Command::RestorePosition);
}

/// The characters on some rows, one row after the other.
pub open spec fn rows_text(rows: Seq<Row>) -> Seq<char>
    decreases rows.len(),
{
    if rows.len() == 0 {
        seq![]
    } else {
        rows_text(rows.drop_last()) + match rows.last() {
            Row::Text(text) => text,
            _ => seq![],
        }
    }
}

/// Laying text out on rows loses no character and adds none.
pub proof fn law_layout_keeps_the_text(text: Seq<char>, width: nat)
    requires
        width > 0,
    ensures
        rows_text(layout(text, width)) == text,
    decreases text.len(),
{
    let on = layout(text, width);
    lemma_layout_last(text, width);
    if text.len() == 0 {
        assert(on.drop_last() =~= seq![]);
        assert(rows_text(on.drop_last()) =~= seq![]);
        assert(rows_text(on) =~= text);
    } else {
        let before = text.drop_last();
        let was = layout(before, width);
        law_layout_keeps_the_text(before, width);
        lemma_layout_last(before, width);
        if on.len() > was.len() {
            assert(on.drop_last() =~= was);
        } else {
            assert(on.drop_last() =~= was.drop_last());
            if before.len() == 0 {
                assert(was.drop_last() =~= seq![]);
            }
        }
        assert(rows_text(on) =~= before.push(text.last()));
        assert(before.push(text.last()) =~= text);
    }
}

proof fn lemma_history_line(s: Screen, line: HyperlinkLine, end: int)
    requires
        appends(s, end),
        on_blank_row(s),
        shows_its_text(line),
    ensures
        appended(s, s.run(history_line_commands(line, s.width)), end),
        tape(s.run(history_line_commands(line, s.width))) == tape(s).drop_last() + layout(
            line.line.text(),
            s.width,
        ),
{
    let text = line.line.text();
    let clear = clear_continuation(short(row_count(text, s.width)));
    let colors = Command::SetColors(
        color_or_reset(line.line.style.fg),
        color_or_reset(line.line.style.bg),
    );
    let prepare = seq![colors, Command::ClearUntilNewLine];
    let spans = spans_commands(line.printed());
    lemma_clear_continuation(s, short(row_count(text, s.width)), end);
    let t = s.run(clear);
    lemma_run_add(s, clear, prepare);
    lemma_run_two(t, colors, Command::ClearUntilNewLine);
    assert(t.rows.update(t.row, Row::Blank) =~= t.rows);
    assert(t.run(prepare) == t);
    lemma_run_add(s, clear + prepare, spans);
    lemma_run_spans(t, line.printed());
    lemma_print(t, text, end);
    lemma_run_add(s, clear + prepare + spans, reset_commands());
    assert(only_pen(reset_commands()));
    lemma_run_pen(t.print(text), reset_commands());
}

proof fn lemma_line_break(s: Screen, end: int)
    requires
        appends(s, end),
    ensures
        appended(s, s.obey(Command::LineBreak), end),
        on_blank_row(s.obey(Command::LineBreak)),
        tape(s.obey(Command::LineBreak)) == tape(s).push(Row::Blank),
{
    lemma_line_feed(s, end);
    let t = s.obey(Command::LineBreak);
    assert(tape(t) =~= tape(s.line_feed()));
    assert(tape(t).last() == t.rows[t.row]);
}

proof fn lemma_lines_below(s: Screen, lines: Seq<HyperlinkLine>, end: int)
    requires
        appends(s, end),
        forall|i: int| 0 <= i < lines.len() ==> shows_its_text(#[trigger] lines[i]),
    ensures
        appended(s, s.run(lines_below(lines, s.width)), end),
        tape(s.run(lines_below(lines, s.width))) == tape(s) + lines_layout(lines, s.width),
    decreases lines.len(),
{
    let w = s.width;
    if lines.len() > 0 {
        let before = lines.drop_last();
        let line = lines.last();
        assert forall|i: int| 0 <= i < before.len() implies shows_its_text(#[trigger] before[i]) by {
            assert(before[i] == lines[i]);
        }
        assert(shows_its_text(lines[lines.len() - 1]));
        lemma_lines_below(s, before, end);
        let t = s.run(lines_below(before, w));
        let u = t.obey(Command::LineBreak);
        let v = u.run(history_line_commands(line, w));
        lemma_line_break(t, end);
        lemma_history_line(u, line, end);
        lemma_run_one(t, Command::LineBreak);
        lemma_run_add(s, lines_below(before, w), seq![Command::LineBreak]);
        lemma_run_add(
            s,
            lines_below(before, w) + seq![Command::LineBreak],
            history_line_commands(line, w),
        );
        lemma_appended_trans(s, t, u, end);
        lemma_appended_trans(s, u, v, end);
        assert(tape(u).drop_last() =~= tape(t));
        assert(tape(v) =~= tape(s) + lines_layout(lines, w));
    } else {
        assert(tape(s) =~= tape(s) + lines_layout(lines, w));
    }
}

proof fn lemma_lines_from_cursor(s: Screen, lines: Seq<HyperlinkLine>, end: int)
    requires
        appends(s, end),
        on_blank_row(s),
        lines.len() > 0,
        forall|i: int| 0 <= i < lines.len() ==> shows_its_text(#[trigger] lines[i]),
    ensures
        appended(s, s.run(lines_from_cursor(lines, s.width)), end),
        tape(s.run(lines_from_cursor(lines, s.width))) == tape(s).drop_last() + lines_layout(
            lines,
            s.width,
        ),
    decreases lines.len(),
{
    let w = s.width;
    let before = lines.drop_last();
    let line = lines.last();
    assert(shows_its_text(lines[lines.len() - 1]));
    if lines.len() > 1 {
        assert forall|i: int| 0 <= i < before.len() implies shows_its_text(#[trigger] before[i]) by {
            assert(before[i] == lines[i]);
        }
        lemma_lines_from_cursor(s, before, end);
        let t = s.run(lines_from_cursor(before, w));
        let u = t.obey(Command::LineBreak);
        let v = u.run(history_line_commands(line, w));
        lemma_line_break(t, end);
        lemma_history_line(u, line, end);
        lemma_run_one(t, Command::LineBreak);
        lemma_run_add(s, lines_from_cursor(before, w), seq![Command::LineBreak]);
        lemma_run_add(
            s,
            lines_from_cursor(before, w) + seq![Command::LineBreak],
            history_line_commands(line, w),
        );
        lemma_appended_trans(s, t, u, end);
        lemma_appended_trans(s, u, v, end);
        assert(tape(u).drop_last() =~= tape(t));
        assert(tape(v) =~= tape(s).drop_last() + lines_layout(lines, w));
    } else {
        assert(before =~= seq![]);
        assert(lines_from_cursor(lines, w) =~= history_line_commands(line, w));
        lemma_history_line(s, line, end);
        assert(lines_layout(before, w) =~= seq![]);
        assert(lines_layout(lines, w) =~= layout(line.line.text(), w));
    }
}

proof fn lemma_empty_rows(s: Screen, n: nat, end: int)
    requires
        appends(s, end),
    ensures
        ({
            let t = s.run(repeated(n, seq![Command::LineBreak, Command::ClearUntilNewLine]));
            &&& appended(s, t, end)
            &&& tape(t) == tape(s) + blanks(n)
        }),
    decreases n,
{
    let block = seq![Command::LineBreak, Command::ClearUntilNewLine];
    if n > 0 {
        let m = (n - 1) as nat;
        lemma_empty_rows(s, m, end);
        let t = s.run(repeated(m, block));
        lemma_run_add(s, repeated(m, block), block);
        lemma_run_two(t, Command::LineBreak, Command::ClearUntilNewLine);
        lemma_line_break(t, end);
        let u = t.obey(Command::LineBreak);
        assert(u.rows.update(u.row, Row::Blank) =~= u.rows);
        assert(u.obey(Command::ClearUntilNewLine) == u);
        lemma_appended_trans(s, t, u, end);
        assert(tape(u) =~= tape(s) + blanks(n));
    } else {
        assert(tape(s) =~= tape(s) + blanks(0));
    }
}

proof fn lemma_reverse_index(s: Screen, n: nat)
    requires
        s.is_valid(),
        s.row == s.top,
        s.bottom == s.rows.len(),
        n <= s.bottom - s.top,
    ensures
        s.run(repeated(n, seq![Command::ReverseIndex])) == (Screen {
            rows: s.rows.take(s.top) + blanks(n) + s.rows.subrange(s.top, s.bottom - n),
            writing: if n == 0 {
                s.writing
            } else {
                false
            },
            ..s
        }),
    decreases n,
{
    let one = seq![Command::ReverseIndex];
    if n > 0 {
        let m = (n - 1) as nat;
        lemma_reverse_index(s, m);
        let t = s.run(repeated(m, one));
        lemma_run_add(s, repeated(m, one), one);
        lemma_run_one(t, Command::ReverseIndex);
        assert(t.obey(Command::ReverseIndex).rows =~= s.rows.take(s.top) + blanks(n)
            + s.rows.subrange(s.top, s.bottom - n));
    } else {
        assert(s.rows =~= s.rows.take(s.top) + blanks(0) + s.rows.subrange(s.top, s.bottom as int));
    }
}

impl TerminalState {
    /// Whether `screen` is the terminal that this state speaks of: of the same size, with the
    /// whole of it scrolling and the viewport on it and as wide as it.
    pub open spec fn describes(self, screen: Screen) -> bool {
        &&& screen.is_valid()
        &&& screen.rows.len() == self.screen_size.height
        &&& screen.width == width_of(self.viewport_area)
        &&& screen.top == 0
        &&& screen.bottom == screen.rows.len()
        &&& self.viewport_area.x == 0
        &&& self.viewport_area.y + self.viewport_area.height <= self.screen_size.height
    }
}

impl HistoryInsertion {
    /// What is left of a terminal's screen when all that is to be done was done.
    pub open spec fn applied_to(self, screen: Screen) -> Screen {
        match self.clear_after {
            Some(position) => cleared_from(screen, position.y as int).run(self.commands@),
            None => screen.run(self.commands@),
        }
    }

    /// What is to be known of the terminal then.
    pub open spec fn leaves(self, terminal: TerminalState) -> TerminalState {
        match self.viewport_area {
            Some(viewport_area) => TerminalState { viewport_area, ..terminal },
            None => terminal,
        }
    }
}

/// The screen with everything from `row` on cleared.
pub open spec fn cleared_from(screen: Screen, row: int) -> Screen {
    Screen { rows: screen.rows.take(row) + blanks((screen.rows.len() - row) as nat), ..screen }
}

/// Whether the viewport is without rows and on the last row of the screen, and is to be moved below
/// it. A scroll region of this one row is not taken, so that the row is not scrolled down.
spec fn leaves_last_row(s: Screen, terminal: TerminalState, rows: u16) -> bool {
    &&& terminal.has_room_below()
    &&& 0 < terminal.viewport_area.y
    &&& terminal.viewport_area.y + 1 == s.rows.len()
    &&& terminal.scroll_amount(rows) == 1
}

/// The screen with its last row cleared.
spec fn last_row_cleared(s: Screen) -> Screen {
    Screen { rows: s.rows.update(s.rows.len() - 1, Row::Blank), ..s }
}

proof fn lemma_make_room(s: Screen, terminal: TerminalState, rows: u16)
    requires
        terminal.describes(s),
    ensures
        ({
            let y = terminal.viewport_area.y as int;
            let amount = terminal.scroll_amount(rows);
            let t = s.run(terminal.make_room(rows));
            &&& t.is_valid()
            &&& t.width == s.width
            &&& t.top == 0
            &&& t.bottom == s.rows.len()
            &&& t.scrollback == s.scrollback
            &&& t.rows == if leaves_last_row(s, terminal, rows) {
                s.rows
            } else {
                s.rows.take(y) + blanks(amount as nat) + s.rows.subrange(y, s.rows.len() - amount)
            }
        }),
{
    let y = terminal.viewport_area.y;
    let amount = terminal.scroll_amount(rows);
    let len = s.rows.len() as int;
    if terminal.has_room_below() {
        let region = Command::SetScrollRegion(
            SetScrollRegion(
                std::ops::Range { start: (y + 1) as u16, end: terminal.screen_size.height },
            ),
        );
        let home = Command::MoveTo(0, y);
        let scroll = repeated(amount as nat, seq![Command::ReverseIndex]);
        let reset = Command::ResetScrollRegion(ResetScrollRegion);
        lemma_run_two(s, region, home);
        lemma_run_add(s, seq![region, home], scroll);
        lemma_run_add(s, seq![region, home] + scroll, seq![reset]);
        let t = s.run(seq![region, home]);
        if y + 1 < len || y == 0 {
            lemma_reverse_index(t, amount as nat);
        } else if amount == 1 {
            assert(repeated(0, seq![Command::ReverseIndex]) =~= seq![]);
            assert(scroll =~= seq![Command::ReverseIndex]);
            lemma_run_one(t, Command::ReverseIndex);
        } else {
            assert(scroll =~= seq![]);
            assert(s.rows =~= s.rows.take(y as int) + blanks(0) + s.rows.subrange(y as int, len));
        }
        lemma_run_one(t.run(scroll), reset);
    } else {
        assert(amount == 0);
        assert(s.rows =~= s.rows.take(y as int) + blanks(0) + s.rows.subrange(y as int, len));
    }
}

/// The commands that limit scrolling to the rows above the viewport and go to the last of them
/// that is in use.
spec fn begin_commands(terminal: TerminalState, rows: u16) -> Seq<Command> {
    seq![
        Command::SetScrollRegion(
            SetScrollRegion(
                std::ops::Range { start: 1u16, end: terminal.scrolled_viewport(rows).y },
            ),
        ),
        Command::MoveTo(0, left_over(terminal.viewport_area.y as int, 1) as u16),
    ]
}

/// The row that is left empty where something is written and no row was there to begin below.
spec fn gap(top: int, something: bool) -> Seq<Row> {
    blanks(
        if top == 0 && something {
            1
        } else {
            0
        },
    )
}

proof fn lemma_begin(screen: Screen, terminal: TerminalState, rows: u16)
    requires
        terminal.describes(screen),
        terminal.scrolled_viewport(rows).y >= smaller(2, screen.rows.len() as int),
    ensures
        ({
            let y = terminal.viewport_area.y as int;
            let new_top = terminal.scrolled_viewport(rows).y as int;
            let begun = screen.run(terminal.make_room(rows) + begin_commands(terminal, rows));
            let s = if leaves_last_row(screen, terminal, rows) {
                last_row_cleared(begun)
            } else {
                begun
            };
            &&& new_top == y + terminal.scroll_amount(rows)
            &&& begun.is_valid()
            &&& begun.rows.len() == screen.rows.len()
            &&& begun.bottom == new_top
            &&& appends(s, new_top)
            &&& s.width == screen.width
            &&& s.rows.len() == screen.rows.len()
            &&& s.row == left_over(y, 1)
            &&& tape(s) == screen.above(y) + gap(y, true)
            &&& s.rows.skip(new_top) == screen.rows.subrange(
                y,
                screen.rows.len() - (new_top - y),
            )
        }),
{
    let y = terminal.viewport_area.y as int;
    let amount = terminal.scroll_amount(rows);
    let new_top = terminal.scrolled_viewport(rows).y as int;
    assert(new_top == y + amount);
    let begin = begin_commands(terminal, rows);
    lemma_make_room(screen, terminal, rows);
    let s1 = screen.run(terminal.make_room(rows));
    lemma_run_two(s1, begin[0], begin[1]);
    assert(begin =~= seq![begin[0], begin[1]]);
    lemma_run_add(screen, terminal.make_room(rows), begin);
    let begun = s1.obey(begin[0]).obey(begin[1]);
    assert(begun.rows == s1.rows);
    let s = if leaves_last_row(screen, terminal, rows) {
        last_row_cleared(begun)
    } else {
        begun
    };
    assert(tape(s) =~= screen.above(y) + gap(y, true));
    assert(s.rows.skip(new_top) =~= screen.rows.subrange(y, screen.rows.len() - amount));
}

proof fn lemma_clear_last_row(s: Screen, n: nat)
    requires
        s.is_valid(),
        s.bottom == s.rows.len(),
        s.row == s.rows.len() - 1,
        s.col == 0,
        !s.writing,
    ensures
        s.run(clear_rows(n)) == if n == 0 {
            s
        } else {
            last_row_cleared(s)
        },
    decreases n,
{
    if n > 0 {
        let m = (n - 1) as nat;
        lemma_clear_last_row(s, m);
        let t = s.run(clear_rows(m));
        lemma_run_add(
            s,
            clear_rows(m),
            seq![Command::MoveDown(1), Command::MoveToColumn(0), Command::ClearUntilNewLine],
        );
        lemma_run_three(
            t,
            Command::MoveDown(1),
            Command::MoveToColumn(0),
            Command::ClearUntilNewLine,
        );
        assert(t.obey(Command::MoveDown(1)) == t);
        assert(t.obey(Command::MoveToColumn(0)) == t);
        assert(t.rows.update(t.row, Row::Blank) =~= s.rows.update(s.row, Row::Blank));
    }
}

proof fn lemma_line_on_last_row(s: Screen, line: HyperlinkLine, width: nat)
    requires
        s.is_valid(),
        s.bottom == s.rows.len(),
        s.row == s.rows.len() - 1,
        s.col == 0,
        !s.writing,
    ensures
        s.run(history_line_commands(line, width)) == last_row_cleared(s).run(
            history_line_commands(line, width),
        ),
{
    let rows = short(row_count(line.line.text(), width));
    let clear = clear_continuation(rows);
    let colors = Command::SetColors(
        color_or_reset(line.line.style.fg),
        color_or_reset(line.line.style.bg),
    );
    let prepare = seq![colors, Command::ClearUntilNewLine];
    let opening = clear + prepare;
    let rest = spans_commands(line.printed()) + reset_commands();
    let t = last_row_cleared(s);
    lemma_opening_on_last_row(s, rows, colors);
    lemma_opening_on_last_row(t, rows, colors);
    assert(last_row_cleared(t).rows =~= t.rows);
    assert(history_line_commands(line, width) =~= opening + rest);
    lemma_run_add(s, opening, rest);
    lemma_run_add(t, opening, rest);
}

proof fn lemma_opening_on_last_row(s: Screen, rows: u16, colors: Command)
    requires
        s.is_valid(),
        s.bottom == s.rows.len(),
        s.row == s.rows.len() - 1,
        s.col == 0,
        !s.writing,
        colors is SetColors,
    ensures
        s.run(clear_continuation(rows) + seq![colors, Command::ClearUntilNewLine]) == if rows > 1 {
            Screen { saved_row: s.row, saved_col: s.col, ..last_row_cleared(s) }
        } else {
            last_row_cleared(s)
        },
{
    let clear = clear_continuation(rows);
    let t = s.run(clear);
    if rows > 1 {
        let n = (rows - 1) as nat;
        let saved = s.obey(Command::SavePosition);
        lemma_run_one(s, Command::SavePosition);
        lemma_clear_last_row(saved, n);
        lemma_run_add(s, seq![Command::SavePosition], clear_rows(n));
        lemma_run_add(
            s,
            seq![Command::SavePosition] + clear_rows(n),
            seq![Command::RestorePosition],
        );
        lemma_run_one(saved.run(clear_rows(n)), Command::RestorePosition);
    }
    lemma_run_add(s, clear, seq![colors, Command::ClearUntilNewLine]);
    lemma_run_two(t, colors, Command::ClearUntilNewLine);
    assert(t.rows.update(t.row, Row::Blank) =~= s.rows.update(s.row, Row::Blank));
}

proof fn lemma_lines_onto_last_row(s: Screen, lines: Seq<HyperlinkLine>, width: nat)
    requires
        s.is_valid(),
        s.bottom == s.rows.len(),
        s.row == s.rows.len() - 2,
        lines.len() > 0,
    ensures
        s.run(lines_below(lines, width)) == last_row_cleared(s).run(lines_below(lines, width)),
    decreases lines.len(),
{
    let before = lines.drop_last();
    let line = lines.last();
    let t = last_row_cleared(s);
    let step = seq![Command::LineBreak] + history_line_commands(line, width);
    assert(lines_below(lines, width) =~= lines_below(before, width) + step);
    lemma_run_add(s, lines_below(before, width), step);
    lemma_run_add(t, lines_below(before, width), step);
    if lines.len() > 1 {
        lemma_lines_onto_last_row(s, before, width);
    } else {
        assert(before =~= seq![]);
        lemma_run_one(s, Command::LineBreak);
        lemma_run_one(t, Command::LineBreak);
        lemma_run_add(s, seq![Command::LineBreak], history_line_commands(line, width));
        lemma_run_add(t, seq![Command::LineBreak], history_line_commands(line, width));
        lemma_line_on_last_row(s.obey(Command::LineBreak), line, width);
    }
}

/// What running [`TerminalState::standard_commands`] comes to.
spec fn inserted_below(
    screen: Screen,
    terminal: TerminalState,
    lines: Seq<HyperlinkLine>,
    after: Screen,
) -> bool {
    let old_top = terminal.viewport_area.y as int;
    let new_top = terminal.scrolled_viewport(short(total_rows(lines, screen.width))).y as int;
    &&& after.is_valid()
    &&& after.width == screen.width
    &&& after.rows.len() == screen.rows.len()
    &&& after.top == 0
    &&& after.bottom == after.rows.len()
    &&& after.above(new_top) == screen.above(old_top) + gap(old_top, lines.len() > 0)
        + lines_layout(lines, screen.width)
    &&& after.rows.skip(new_top) == screen.rows.subrange(
        old_top,
        screen.rows.len() - (new_top - old_top),
    )
    &&& after.row == smaller(terminal.last_known_cursor_pos.y as int, screen.rows.len() - 1)
    &&& after.col == terminal.last_known_cursor_pos.x
}

proof fn lemma_standard_some(screen: Screen, terminal: TerminalState, lines: Seq<HyperlinkLine>)
    requires
        terminal.describes(screen),
        lines.len() > 0,
        forall|i: int| 0 <= i < lines.len() ==> shows_its_text(#[trigger] lines[i]),
        terminal.scrolled_viewport(short(total_rows(lines, screen.width))).y >= smaller(
            2,
            screen.rows.len() as int,
        ),
    ensures
        inserted_below(
            screen,
            terminal,
            lines,
            screen.run(
                terminal.standard_commands(lines, short(total_rows(lines, screen.width))),
            ),
        ),
{
    let w = screen.width;
    let total = total_rows(lines, w);
    let rows = short(total);
    assert(rows <= total);
    let new_top = terminal.scrolled_viewport(rows).y as int;
    let begin = terminal.make_room(rows) + begin_commands(terminal, rows);
    let write = lines_below(lines, w);
    let reset = Command::ResetScrollRegion(ResetScrollRegion);
    let end = seq![reset, terminal.restore_cursor()];

    lemma_begin(screen, terminal, rows);
    let begun = screen.run(begin);
    let s1 = if leaves_last_row(screen, terminal, rows) {
        lemma_lines_onto_last_row(begun, lines, w);
        last_row_cleared(begun)
    } else {
        begun
    };
    lemma_lines_below(s1, lines, new_top);
    law_lines_lie_on_the_counted_rows(lines, w);
    let s2 = s1.run(write);
    assert(s2.row == new_top - 1);

    lemma_run_two(s2, reset, terminal.restore_cursor());
    lemma_run_add(screen, begin, write);
    lemma_run_add(screen, begin + write, end);
    assert(terminal.standard_commands(lines, rows) =~= begin + write + end);
    let after = screen.run(terminal.standard_commands(lines, rows));
    assert(after.above(new_top) == tape(s2));
}

proof fn lemma_standard_none(screen: Screen, terminal: TerminalState)
    requires
        terminal.describes(screen),
    ensures
        inserted_below(
            screen,
            terminal,
            seq![],
            screen.run(terminal.standard_commands(seq![], short(0))),
        ),
{
    let none: Seq<HyperlinkLine> = seq![];
    let y = terminal.viewport_area.y as int;
    let reset = Command::ResetScrollRegion(ResetScrollRegion);
    let begin = begin_commands(terminal, 0);
    let end = seq![reset, terminal.restore_cursor()];
    lemma_make_room(screen, terminal, 0);
    let s1 = screen.run(terminal.make_room(0));
    assert(s1.rows =~= screen.rows);
    lemma_run_two(s1, begin[0], begin[1]);
    assert(begin =~= seq![begin[0], begin[1]]);
    lemma_run_add(screen, terminal.make_room(0), begin);
    let s2 = s1.run(begin);
    lemma_run_two(s2, reset, terminal.restore_cursor());
    lemma_run_add(screen, terminal.make_room(0) + begin, end);
    assert(terminal.standard_commands(none, 0) =~= terminal.make_room(0) + begin + end);
    let after = screen.run(terminal.standard_commands(none, 0));
    assert(after.rows == screen.rows);
    assert(lines_layout(none, screen.width) =~= seq![]);
    assert(after.above(y) =~= screen.above(y) + gap(y, false) + lines_layout(none, screen.width));
    assert(after.rows.skip(y) =~= screen.rows.subrange(y, screen.rows.len() as int));
}

/// Insertion with a scroll region puts history right above the viewport and loses nothing.
///
/// Everything above the viewport, scrollback included, is what was above it before, followed by
/// the inserted lines laid out row by row. (Where the viewport was at the very top, an empty row
/// comes between.) The viewport, and what is below it, is moved down unchanged, and the cursor is
/// back where it was known to be. A terminal takes no scroll region of fewer than two rows, so
/// where there is something to insert, two rows have to be above the new viewport, unless the
/// screen has one only.
pub proof fn law_standard_inserts_above_the_viewport(
    screen: Screen,
    terminal: TerminalState,
    lines: Seq<HyperlinkLine>,
    insertion: HistoryInsertion,
)
    requires
        terminal.describes(screen),
        forall|i: int| 0 <= i < lines.len() ==> shows_its_text(#[trigger] lines[i]),
        insertion.inserts(terminal, lines, InsertHistoryMode::Standard),
        lines.len() == 0 || insertion.leaves(terminal).viewport_area.y >= smaller(
            2,
            screen.rows.len() as int,
        ),
    ensures
        ({
            let old_top = terminal.viewport_area.y as int;
            let new_top = insertion.leaves(terminal).viewport_area.y as int;
            let after = insertion.applied_to(screen);
            &&& insertion.leaves(terminal).describes(after)
            &&& after.above(new_top) == screen.above(old_top) + blanks(
                if old_top == 0 && lines.len() > 0 {
                    1
                } else {
                    0
                },
            ) + lines_layout(lines, screen.width)
            &&& after.rows.skip(new_top) == screen.rows.subrange(
                old_top,
                screen.rows.len() - (new_top - old_top),
            )
            &&& after.row == smaller(
                terminal.last_known_cursor_pos.y as int,
                screen.rows.len() - 1,
            )
            &&& after.col == terminal.last_known_cursor_pos.x
        }),
{
    let rows = short(total_rows(lines, screen.width));
    assert(insertion.leaves(terminal).viewport_area == terminal.scrolled_viewport(rows));
    if lines.len() > 0 {
        lemma_standard_some(screen, terminal, lines);
    } else {
        assert(lines =~= seq![]);
        lemma_standard_none(screen, terminal);
    }
}

/// Lines lie on the rows of the first of them, followed by those of the others.
pub proof fn law_layouts_add_up(a: Seq<HyperlinkLine>, b: Seq<HyperlinkLine>, width: nat)
    ensures
        lines_layout(a + b, width) == lines_layout(a, width) + lines_layout(b, width),
    decreases b.len(),
{
    if b.len() == 0 {
        assert(a + b =~= a);
        assert(lines_layout(b, width) =~= seq![]);
        assert(lines_layout(a, width) + lines_layout(b, width) =~= lines_layout(a, width));
    } else {
        law_layouts_add_up(a, b.drop_last(), width);
        assert((a + b).drop_last() =~= a + b.drop_last());
        assert((a + b).last() == b.last());
        assert(lines_layout(a + b, width) =~= lines_layout(a, width) + lines_layout(b, width));
    }
}

/// Insertions with a scroll region add up: what two of them put above the viewport is what was
/// above it, followed by the lines of the first and then those of the second.
pub proof fn law_standard_insertions_add_up(
    screen: Screen,
    terminal: TerminalState,
    lines: Seq<HyperlinkLine>,
    insertion: HistoryInsertion,
    more_lines: Seq<HyperlinkLine>,
    more: HistoryInsertion,
)
    requires
        terminal.describes(screen),
        forall|i: int| 0 <= i < lines.len() ==> shows_its_text(#[trigger] lines[i]),
        forall|i: int| 0 <= i < more_lines.len() ==> shows_its_text(#[trigger] more_lines[i]),
        insertion.inserts(terminal, lines, InsertHistoryMode::Standard),
        more.inserts(insertion.leaves(terminal), more_lines, InsertHistoryMode::Standard),
        lines.len() == 0 || insertion.leaves(terminal).viewport_area.y >= smaller(
            2,
            screen.rows.len() as int,
        ),
        more_lines.len() == 0 || more.leaves(insertion.leaves(terminal)).viewport_area.y >= smaller(
            2,
            screen.rows.len() as int,
        ),
    ensures
        ({
            let old_top = terminal.viewport_area.y as int;
            let new_top = more.leaves(insertion.leaves(terminal)).viewport_area.y as int;
            more.applied_to(insertion.applied_to(screen)).above(new_top) == screen.above(old_top)
                + blanks(
                if old_top == 0 && (lines + more_lines).len() > 0 {
                    1
                } else {
                    0
                },
            ) + lines_layout(lines + more_lines, screen.width)
        }),
{
    let middle = insertion.applied_to(screen);
    law_standard_inserts_above_the_viewport(screen, terminal, lines, insertion);
    law_standard_inserts_above_the_viewport(
        middle,
        insertion.leaves(terminal),
        more_lines,
        more,
    );
    law_layouts_add_up(lines, more_lines, screen.width);
    let old_top = terminal.viewport_area.y as int;
    let middle_top = insertion.leaves(terminal).viewport_area.y as int;
    if lines.len() == 0 {
        assert(lines_layout(lines, screen.width) =~= seq![]);
        assert(total_rows(lines, screen.width) == 0);
    }
    assert(screen.above(old_top) + gap(old_top, lines.len() > 0) + lines_layout(
        lines,
        screen.width,
    ) + gap(middle_top, more_lines.len() > 0) + lines_layout(more_lines, screen.width)
        =~= screen.above(old_top) + gap(old_top, (lines + more_lines).len() > 0) + lines_layout(
        lines + more_lines,
        screen.width,
    ));
}

/// What running [`TerminalState::zellij_commands`] on a cleared screen comes to.
spec fn appended_through(
    screen: Screen,
    terminal: TerminalState,
    lines: Seq<HyperlinkLine>,
    after: Screen,
) -> bool {
    let old_top = terminal.viewport_area.y as int;
    let new_top = terminal.pushed_viewport(short(total_rows(lines, screen.width))).y as int;
    &&& after.is_valid()
    &&& after.width == screen.width
    &&& after.rows.len() == screen.rows.len()
    &&& after.top == 0
    &&& after.bottom == after.rows.len()
    &&& after.above(new_top) == screen.above(old_top) + lines_layout(lines, screen.width)
    &&& after.rows.skip(new_top) == blanks((screen.rows.len() - new_top) as nat)
    &&& after.row == smaller(terminal.last_known_cursor_pos.y as int, screen.rows.len() - 1)
    &&& after.col == terminal.last_known_cursor_pos.x
}

proof fn lemma_zellij_some(screen: Screen, terminal: TerminalState, lines: Seq<HyperlinkLine>)
    requires
        terminal.describes(screen),
        terminal.viewport_area.y < screen.rows.len(),
        lines.len() > 0,
        forall|i: int| 0 <= i < lines.len() ==> shows_its_text(#[trigger] lines[i]),
        ({
            let total = total_rows(lines, screen.width);
            total <= u16::MAX || terminal.pushed_viewport(short(total)).y
                + terminal.viewport_area.height == screen.rows.len()
        }),
    ensures
        appended_through(
            screen,
            terminal,
            lines,
            cleared_from(screen, terminal.viewport_area.y as int).run(
                terminal.zellij_commands(lines),
            ),
        ),
{
    let w = screen.width;
    let total = total_rows(lines, w);
    let rows = short(total);
    assert(rows <= total);
    assert(total <= u16::MAX ==> rows == total);
    let y = terminal.viewport_area.y as int;
    let height = terminal.viewport_area.height as nat;
    let new_top = terminal.pushed_viewport(rows).y as int;
    let len = screen.rows.len() as int;

    let s0 = cleared_from(screen, y);
    let home = Command::MoveTo(0, terminal.viewport_area.y);
    lemma_run_one(s0, home);
    let s1 = s0.obey(home);
    assert(appends(s1, len));
    assert(on_blank_row(s1));
    assert(tape(s1).drop_last() =~= screen.above(y));

    let write = lines_from_cursor(lines, w);
    lemma_lines_from_cursor(s1, lines, len);
    law_lines_lie_on_the_counted_rows(lines, w);
    lemma_run_add(s0, seq![home], write);
    let s2 = s1.run(write);

    let empty = repeated(height, seq![Command::LineBreak, Command::ClearUntilNewLine]);
    lemma_empty_rows(s2, height, len);
    lemma_run_add(s0, seq![home] + write, empty);
    let s3 = s2.run(empty);
    lemma_appended_trans(s1, s2, s3, len);

    lemma_run_one(s3, terminal.restore_cursor());
    lemma_run_add(s0, seq![home] + write + empty, seq![terminal.restore_cursor()]);
    let after = s0.run(terminal.zellij_commands(lines));

    let history = screen.above(y) + lines_layout(lines, w);
    assert(tape(s3) =~= history + blanks(height));
    assert(s3.row + 1 == new_top + height);
    lemma_history_then_blanks(s3, after, history, new_top);
}

/// What is above `top` is `history` if that comes first, followed by empty rows down to the cursor.
proof fn lemma_history_then_blanks(s: Screen, after: Screen, history: Seq<Row>, top: int)
    requires
        appends(s, s.rows.len() as int),
        0 <= top <= s.rows.len(),
        tape(s) == history + blanks((tape(s).len() - history.len()) as nat),
        s.scrollback.len() + top == history.len() <= tape(s).len(),
        after.rows == s.rows,
        after.scrollback == s.scrollback,
    ensures
        after.above(top) == history,
        after.rows.skip(top) == blanks((s.rows.len() - top) as nat),
{
    assert(after.above(top) =~= tape(s).take(history.len() as int));
    assert(after.above(top) =~= history);
    assert forall|i: int| top <= i < s.rows.len() implies (#[trigger] after.rows[i]) is Blank by {
        if i <= s.row {
            assert(tape(s)[s.scrollback.len() + i] == s.rows[i]);
        }
    }
    assert(after.rows.skip(top) =~= blanks((s.rows.len() - top) as nat));
}

proof fn lemma_zellij_none(screen: Screen, terminal: TerminalState)
    requires
        terminal.describes(screen),
        terminal.viewport_area.height == 0 || terminal.viewport_area.y
            + terminal.viewport_area.height < screen.rows.len(),
    ensures
        appended_through(
            screen,
            terminal,
            seq![],
            cleared_from(screen, terminal.viewport_area.y as int).run(
                terminal.zellij_commands(seq![]),
            ),
        ),
{
    let none: Seq<HyperlinkLine> = seq![];
    let w = screen.width;
    let y = terminal.viewport_area.y as int;
    let height = terminal.viewport_area.height as nat;
    let len = screen.rows.len() as int;
    let s0 = cleared_from(screen, y);
    let home = Command::MoveTo(0, terminal.viewport_area.y);
    lemma_run_one(s0, home);
    let s1 = s0.obey(home);
    let empty = repeated(height, seq![Command::LineBreak, Command::ClearUntilNewLine]);
    lemma_run_add(s0, seq![home], empty);
    let s2 = s1.run(empty);
    lemma_run_one(s2, terminal.restore_cursor());
    lemma_run_add(s0, seq![home] + empty, seq![terminal.restore_cursor()]);
    assert(terminal.zellij_commands(none) =~= seq![home] + empty + seq![terminal.restore_cursor()]);
    let after = s0.run(terminal.zellij_commands(none));
    let history = screen.above(y) + lines_layout(none, w);
    assert(lines_layout(none, w) =~= seq![]);
    assert(history =~= screen.above(y));
    assert(short(0) == 0);
    assert(terminal.pushed_viewport(0).y == y);
    if y < len {
        assert(appends(s1, len));
        assert(tape(s1) =~= history + blanks(1));
        lemma_empty_rows(s1, height, len);
        assert(tape(s2) =~= history + blanks(1 + height));
        lemma_history_then_blanks(s2, after, history, y);
    } else {
        assert(after.above(y) =~= history);
        assert(after.rows.skip(y) =~= blanks(0));
    }
}

/// Insertion through the terminal puts history right above the viewport and loses nothing.
///
/// The screen is cleared from the viewport on first. Afterwards everything above the viewport's
/// new place, scrollback included, is what was above the old one, followed by the inserted lines
/// laid out row by row; from there on the screen is empty, the viewport still fits on it, and the
/// cursor is back where it was known to be.
///
/// Where there is something to insert, the viewport has to begin on the screen; where there is
/// nothing, a viewport with rows has to end above the last row, or the empty rows made for it would
/// scroll the screen. More rows than a coordinate can count have to fill the screen all the same.
pub proof fn law_zellij_inserts_above_the_viewport(
    screen: Screen,
    terminal: TerminalState,
    lines: Seq<HyperlinkLine>,
    insertion: HistoryInsertion,
)
    requires
        terminal.describes(screen),
        forall|i: int| 0 <= i < lines.len() ==> shows_its_text(#[trigger] lines[i]),
        insertion.inserts(terminal, lines, InsertHistoryMode::ZellijRaw),
        fits_through(screen, terminal, lines, insertion),
    ensures
        ({
            let old_top = terminal.viewport_area.y as int;
            let new_top = insertion.leaves(terminal).viewport_area.y as int;
            let after = insertion.applied_to(screen);
            &&& insertion.leaves(terminal).describes(after)
            &&& after.above(new_top) == screen.above(old_top) + lines_layout(lines, screen.width)
            &&& after.rows.skip(new_top) == blanks((screen.rows.len() - new_top) as nat)
            &&& after.row == smaller(
                terminal.last_known_cursor_pos.y as int,
                screen.rows.len() - 1,
            )
            &&& after.col == terminal.last_known_cursor_pos.x
        }),
{
    let rows = short(total_rows(lines, screen.width));
    assert(insertion.leaves(terminal).viewport_area == terminal.pushed_viewport(rows));
    if lines.len() > 0 {
        lemma_zellij_some(screen, terminal, lines);
    } else {
        assert(lines =~= seq![]);
        lemma_zellij_none(screen, terminal);
    }
}

/// Whether lines inserted through the terminal come to lie right above the viewport.
pub open spec fn fits_through(
    screen: Screen,
    terminal: TerminalState,
    lines: Seq<HyperlinkLine>,
    insertion: HistoryInsertion,
) -> bool {
    let area = terminal.viewport_area;
    if lines.len() > 0 {
        &&& area.y < screen.rows.len()
        &&& total_rows(lines, screen.width) <= u16::MAX || insertion.leaves(
            terminal,
        ).viewport_area.y + area.height == screen.rows.len()
    } else {
        area.height == 0 || area.y + area.height < screen.rows.len()
    }
}

/// Insertions through the terminal add up: what two of them put above the viewport is what was
/// above it, followed by the lines of the first and then those of the second.
pub proof fn law_zellij_insertions_add_up(
    screen: Screen,
    terminal: TerminalState,
    lines: Seq<HyperlinkLine>,
    insertion: HistoryInsertion,
    more_lines: Seq<HyperlinkLine>,
    more: HistoryInsertion,
)
    requires
        terminal.describes(screen),
        forall|i: int| 0 <= i < lines.len() ==> shows_its_text(#[trigger] lines[i]),
        forall|i: int| 0 <= i < more_lines.len() ==> shows_its_text(#[trigger] more_lines[i]),
        insertion.inserts(terminal, lines, InsertHistoryMode::ZellijRaw),
        more.inserts(insertion.leaves(terminal), more_lines, InsertHistoryMode::ZellijRaw),
        fits_through(screen, terminal, lines, insertion),
        fits_through(insertion.applied_to(screen), insertion.leaves(terminal), more_lines, more),
    ensures
        ({
            let old_top = terminal.viewport_area.y as int;
            let new_top = more.leaves(insertion.leaves(terminal)).viewport_area.y as int;
            more.applied_to(insertion.applied_to(screen)).above(new_top) == screen.above(old_top)
                + lines_layout(lines + more_lines, screen.width)
        }),
{
    law_zellij_inserts_above_the_viewport(screen, terminal, lines, insertion);
    law_zellij_inserts_above_the_viewport(
        insertion.applied_to(screen),
        insertion.leaves(terminal),
        more_lines,
        more,
    );
    law_layouts_add_up(lines, more_lines, screen.width);
    let old_top = terminal.viewport_area.y as int;
    assert(screen.above(old_top) + lines_layout(lines, screen.width) + lines_layout(
        more_lines,
        screen.width,
    ) =~= screen.above(old_top) + lines_layout(lines + more_lines, screen.width));
}

} // verus!
