//! Which terminal primitives an insertion uses.

use vstd::prelude::*;
use crate::ansi::{ResetScrollRegion, SetScrollRegion};
use crate::command::Command;
use crate::insert::{
    lines_below, lines_from_cursor, repeated, total_rows, width_of, HistoryInsertion,
    InsertHistoryMode, TerminalState,
};
use crate::rows::{row_count, short};
use crate::screen::{is_pen, lemma_change_is_pen, only_pen};
use crate::spans::{
    change_pen, clear_continuation, clear_rows, history_line_commands, pen_after, pen_of,
    reset_commands, spans_commands,
};
use crate::style::color_or_reset;
use crate::text::{HyperlinkLine, Span};

verus! {

/// Whether a command needs a terminal that honours scroll regions.
pub open spec fn needs_scroll_region(command: Command) -> bool {
    command is SetScrollRegion || command is ResetScrollRegion || command is ReverseIndex
}

/// Whether a command is one of those that write a line and stay clear of the rest of the screen.
spec fn writes_line(command: Command) -> bool {
    &&& !needs_scroll_region(command)
    &&& !(command is MoveTo)
    &&& command matches Command::MoveToColumn(column) ==> column == 0
}

spec fn all_write_lines(commands: Seq<Command>) -> bool {
    forall|i: int| 0 <= i < commands.len() ==> writes_line(#[trigger] commands[i])
}

proof fn lemma_all_add(a: Seq<Command>, b: Seq<Command>)
    requires
        all_write_lines(a),
        all_write_lines(b),
    ensures
        all_write_lines(a + b),
{
    assert forall|i: int| 0 <= i < (a + b).len() implies writes_line(#[trigger] (a + b)[i]) by {
        if i < a.len() {
            assert((a + b)[i] == a[i]);
        } else {
            assert((a + b)[i] == b[i - a.len()]);
        }
    }
}

/// Whether a command writes a line and begins no other.
spec fn stays_on_line(command: Command) -> bool {
    writes_line(command) && !(command is LineBreak)
}

spec fn all_stay(commands: Seq<Command>) -> bool {
    forall|i: int| 0 <= i < commands.len() ==> stays_on_line(#[trigger] commands[i])
}

proof fn lemma_stay_add(a: Seq<Command>, b: Seq<Command>)
    requires
        all_stay(a),
        all_stay(b),
    ensures
        all_stay(a + b),
{
    assert forall|i: int| 0 <= i < (a + b).len() implies stays_on_line(#[trigger] (a + b)[i]) by {
        if i < a.len() {
            assert((a + b)[i] == a[i]);
        } else {
            assert((a + b)[i] == b[i - a.len()]);
        }
    }
}

proof fn lemma_pen_stays(commands: Seq<Command>)
    requires
        only_pen(commands),
    ensures
        all_stay(commands),
{
    assert forall|i: int| 0 <= i < commands.len() implies stays_on_line(#[trigger] commands[i]) by {
        assert(is_pen(commands[i]));
    }
}

proof fn lemma_spans_stay(spans: Seq<Span>)
    ensures
        all_stay(spans_commands(spans)),
    decreases spans.len(),
{
    if spans.len() > 0 {
        let before = spans.drop_last();
        let change = change_pen(pen_after(before), pen_of(spans.last().style));
        let print = seq![Command::Print(spans.last().content)];
        lemma_spans_stay(before);
        lemma_change_is_pen(pen_after(before), pen_of(spans.last().style));
        lemma_pen_stays(change);
        lemma_stay_add(change, print);
        assert(change.push(print[0]) =~= change + print);
        lemma_stay_add(spans_commands(before), change + print);
    }
}

proof fn lemma_clear_rows_stay(rows: nat)
    ensures
        all_stay(clear_rows(rows)),
    decreases rows,
{
    if rows > 0 {
        lemma_clear_rows_stay((rows - 1) as nat);
        lemma_stay_add(
            clear_rows((rows - 1) as nat),
            seq![Command::MoveDown(1), Command::MoveToColumn(0), Command::ClearUntilNewLine],
        );
    }
}

proof fn lemma_line_stays(line: HyperlinkLine, width: nat)
    ensures
        all_stay(history_line_commands(line, width)),
{
    let rows = short(row_count(line.line.text(), width));
    if rows > 1 {
        let n = (rows - 1) as nat;
        lemma_clear_rows_stay(n);
        lemma_stay_add(seq![Command::SavePosition], clear_rows(n));
        lemma_stay_add(
            seq![Command::SavePosition] + clear_rows(n),
            seq![Command::RestorePosition],
        );
    }
    let prepare = seq![
        Command::SetColors(
            color_or_reset(line.line.style.fg),
            color_or_reset(line.line.style.bg),
        ),
        Command::ClearUntilNewLine,
    ];
    lemma_stay_add(clear_continuation(rows), prepare);
    lemma_spans_stay(line.printed());
    lemma_stay_add(clear_continuation(rows) + prepare, spans_commands(line.printed()));
    lemma_stay_add(
        clear_continuation(rows) + prepare + spans_commands(line.printed()),
        reset_commands(),
    );
}

pub(crate) proof fn lemma_lines_stay_clear(line: HyperlinkLine, width: nat)
    ensures
        forall|i: int|
            0 <= i < history_line_commands(line, width).len() ==> {
                let command = #[trigger] history_line_commands(line, width)[i];
                !needs_scroll_region(command) && !(command is MoveTo) && !(command is LineBreak)
            },
{
    let commands = history_line_commands(line, width);
    lemma_line_stays(line, width);
    assert forall|i: int| 0 <= i < commands.len() implies !needs_scroll_region(
        #[trigger] commands[i],
    ) && !(commands[i] is MoveTo) && !(commands[i] is LineBreak) by {
        assert(stays_on_line(commands[i]));
    }
}

proof fn lemma_line_writes_lines(line: HyperlinkLine, width: nat)
    ensures
        all_write_lines(history_line_commands(line, width)),
{
    let commands = history_line_commands(line, width);
    lemma_line_stays(line, width);
    assert forall|i: int| 0 <= i < commands.len() implies writes_line(#[trigger] commands[i]) by {
        assert(stays_on_line(commands[i]));
    }
}

proof fn lemma_lines_write_lines(lines: Seq<HyperlinkLine>, width: nat)
    ensures
        all_write_lines(lines_below(lines, width)),
        all_write_lines(lines_from_cursor(lines, width)),
    decreases lines.len(),
{
    if lines.len() > 0 {
        let before = lines.drop_last();
        let line = history_line_commands(lines.last(), width);
        let line_break = seq![Command::LineBreak];
        lemma_lines_write_lines(before, width);
        lemma_line_writes_lines(lines.last(), width);
        lemma_all_add(lines_below(before, width), line_break);
        lemma_all_add(lines_below(before, width) + line_break, line);
        let between = if lines.len() > 1 {
            line_break
        } else {
            seq![]
        };
        lemma_all_add(lines_from_cursor(before, width), between);
        lemma_all_add(lines_from_cursor(before, width) + between, line);
    }
}

pub(crate) proof fn lemma_repeated(times: nat, block: Seq<Command>)
    ensures
        repeated(times, block).len() == times * block.len(),
        forall|i: int|
            0 <= i < repeated(times, block).len() ==> block.contains(
                #[trigger] repeated(times, block)[i],
            ),
    decreases times,
{
    if times > 0 {
        let before = repeated((times - 1) as nat, block);
        lemma_repeated((times - 1) as nat, block);
        assert(times * block.len() == (times - 1) * block.len() + block.len()) by (nonlinear_arith);
        assert forall|i: int| 0 <= i < repeated(times, block).len() implies block.contains(
            #[trigger] repeated(times, block)[i],
        ) by {
            if i < before.len() {
                assert(repeated(times, block)[i] == before[i]);
            } else {
                assert(repeated(times, block)[i] == block[i - before.len()]);
            }
        }
    } else {
        assert(0 * block.len() == 0) by (nonlinear_arith);
    }
}

proof fn lemma_empty_rows_write_lines(times: nat)
    ensures
        all_write_lines(repeated(times, seq![Command::LineBreak, Command::ClearUntilNewLine])),
{
    let block = seq![Command::LineBreak, Command::ClearUntilNewLine];
    lemma_repeated(times, block);
    assert forall|i: int| 0 <= i < repeated(times, block).len() implies writes_line(
        #[trigger] repeated(times, block)[i],
    ) by {
        assert(block.contains(repeated(times, block)[i]));
    }
}

/// The path through the terminal uses neither scroll regions nor reverse index, so that it works on
/// hosts that mishandle them.
pub proof fn law_zellij_needs_no_scroll_region(
    terminal: TerminalState,
    lines: Seq<HyperlinkLine>,
    insertion: HistoryInsertion,
    i: int,
)
    requires
        insertion.inserts(terminal, lines, InsertHistoryMode::ZellijRaw),
        0 <= i < insertion.commands@.len(),
    ensures
        !needs_scroll_region(insertion.commands@[i]),
{
    let home = seq![Command::MoveTo(0, terminal.viewport_area.y)];
    let write = lines_from_cursor(lines, width_of(terminal.viewport_area));
    let empty = repeated(
        terminal.viewport_area.height as nat,
        seq![Command::LineBreak, Command::ClearUntilNewLine],
    );
    lemma_lines_write_lines(lines, width_of(terminal.viewport_area));
    lemma_empty_rows_write_lines(terminal.viewport_area.height as nat);
    lemma_all_add(write, empty);
    let middle = write + empty;
    assert(terminal.zellij_commands(lines) =~= home + middle + seq![terminal.restore_cursor()]);
    if 0 < i < insertion.commands@.len() - 1 {
        assert(insertion.commands@[i] == middle[i - 1]);
    }
}

/// The path with a scroll region limits scrolling to the rows above the new viewport and ends with
/// the whole screen scrolling again; it uses reverse index if and only if it makes room for some
/// rows below the viewport.
pub proof fn law_standard_sets_and_resets_a_scroll_region(
    terminal: TerminalState,
    lines: Seq<HyperlinkLine>,
    insertion: HistoryInsertion,
)
    requires
        insertion.inserts(terminal, lines, InsertHistoryMode::Standard),
    ensures
        ({
            let commands = insertion.commands@;
            let rows = short(total_rows(lines, width_of(terminal.viewport_area)));
            &&& commands.contains(
                Command::SetScrollRegion(
                    SetScrollRegion(
                        std::ops::Range {
                            start: 1u16,
                            end: terminal.scrolled_viewport(rows).y,
                        },
                    ),
                ),
            )
            &&& commands.len() >= 2
            &&& commands[commands.len() - 2] == Command::ResetScrollRegion(ResetScrollRegion)
            &&& !(commands.last() is SetScrollRegion)
            &&& commands.contains(Command::ReverseIndex) <==> terminal.has_room_below() && rows > 0
        }),
{
    let commands = insertion.commands@;
    let rows = short(total_rows(lines, width_of(terminal.viewport_area)));
    let room = terminal.make_room(rows);
    let amount = terminal.scroll_amount(rows) as nat;
    let scroll = repeated(amount, seq![Command::ReverseIndex]);
    let write = lines_below(lines, width_of(terminal.viewport_area));
    lemma_lines_write_lines(lines, width_of(terminal.viewport_area));
    lemma_repeated(amount, seq![Command::ReverseIndex]);
    assert(amount * 1 == amount) by (nonlinear_arith);
    assert(commands[room.len() as int] is SetScrollRegion);
    if terminal.has_room_below() && rows > 0 {
        assert(seq![Command::ReverseIndex].contains(scroll[0]));
        assert(commands[2] == scroll[0]);
    } else {
        assert forall|i: int| 0 <= i < commands.len() implies !(#[trigger] commands[i]
            is ReverseIndex) by {
            let start = room.len() + 2;
            if start <= i < start + write.len() {
                assert(commands[i] == write[i - start]);
                assert(writes_line(write[i - start]));
            }
        }
    }
}

proof fn lemma_write_lines_is_writable(commands: Seq<Command>, i: int)
    requires
        all_write_lines(commands),
        0 <= i < commands.len(),
    ensures
        commands[i].is_writable(),
{
    assert(writes_line(commands[i]));
}

/// Every command of an insertion can be written as an escape sequence unless the cursor's place, or
/// the viewport's first row where the cursor is sent there, is the last that a coordinate can hold.
pub proof fn law_insertion_can_be_written(
    terminal: TerminalState,
    lines: Seq<HyperlinkLine>,
    mode: InsertHistoryMode,
    insertion: HistoryInsertion,
)
    requires
        insertion.inserts(terminal, lines, mode),
        mode == InsertHistoryMode::ZellijRaw ==> terminal.viewport_area.y < u16::MAX,
        terminal.last_known_cursor_pos.x < u16::MAX,
        terminal.last_known_cursor_pos.y < u16::MAX,
    ensures
        forall|i: int|
            0 <= i < insertion.commands@.len() ==> (#[trigger] insertion.commands@[i]).is_writable(),
{
    let commands = insertion.commands@;
    let rows = short(total_rows(lines, width_of(terminal.viewport_area)));
    lemma_lines_write_lines(lines, width_of(terminal.viewport_area));
    assert forall|i: int| 0 <= i < commands.len() implies (#[trigger] commands[i]).is_writable() by {
        match mode {
            InsertHistoryMode::Standard => {
                let room = terminal.make_room(rows);
                let amount = terminal.scroll_amount(rows) as nat;
                let scroll = repeated(amount, seq![Command::ReverseIndex]);
                let write = lines_below(lines, width_of(terminal.viewport_area));
                let start = room.len() + 2;
                if i < room.len() {
                    lemma_repeated(amount, seq![Command::ReverseIndex]);
                    assert(commands[i] == room[i]);
                    if 2 <= i < 2 + scroll.len() {
                        assert(room[i] == scroll[i - 2]);
                    }
                } else if start <= i < start + write.len() {
                    assert(commands[i] == write[i - start]);
                    lemma_write_lines_is_writable(write, i - start);
                }
            },
            InsertHistoryMode::ZellijRaw => {
                let write = lines_from_cursor(lines, width_of(terminal.viewport_area));
                let height = terminal.viewport_area.height as nat;
                let empty = repeated(
                    height,
                    seq![Command::LineBreak, Command::ClearUntilNewLine],
                );
                lemma_empty_rows_write_lines(height);
                lemma_all_add(write, empty);
                let middle = write + empty;
                assert(commands =~= seq![Command::MoveTo(0, terminal.viewport_area.y)] + middle
                    + seq![terminal.restore_cursor()]);
                if 0 < i < commands.len() - 1 {
                    assert(commands[i] == middle[i - 1]);
                    lemma_write_lines_is_writable(middle, i - 1);
                }
            },
        }
    }
}

} // verus!
