//! What an insertion comes to, in terms of what was asked for.

use vstd::prelude::*;
use crate::ansi::{ResetScrollRegion, SetScrollRegion};
use crate::command::Command;
use crate::geometry::{smaller, Position, Rect};
use crate::insert::{
    chosen_lines, keeps_intact, lines_below, lines_from_cursor, plain_lines, repeated, total_rows,
    width_of, HistoryEntry, HistoryInsertion, HistoryLineWrapPolicy, InsertHistoryMode,
    TerminalState,
};
use crate::pen::{
    drawn, law_line_draws_all_its_spans, lemma_drawn_add, lemma_drawn_nothing, reset_rendition,
    Drawn, Rendition,
};
use crate::primitives::{lemma_lines_stay_clear, lemma_repeated};
use crate::rows::{law_row_count_bounds, row_count, short};
use crate::screen::{
    fits_through, law_lines_lie_on_the_counted_rows, law_standard_inserts_above_the_viewport,
    law_zellij_inserts_above_the_viewport, lines_layout, shows_its_text, Screen,
};
use crate::spans::history_line_commands;
use crate::text::{HyperlinkLine, Line};

verus! {

/// A line goes to the terminal whole if the terminal is to wrap it, or if it holds something like a
/// URL and nothing else.
pub proof fn law_what_stays_whole(policy: HistoryLineWrapPolicy, url_like: bool, mixed: bool)
    ensures
        keeps_intact(policy, url_like, mixed) <==> match policy {
            HistoryLineWrapPolicy::Terminal => true,
            HistoryLineWrapPolicy::PreWrap => url_like && !mixed,
        },
{
}

/// History is wrapped at the width of the viewport, or at one column if it has none.
pub proof fn law_wrap_width(area: Rect)
    ensures
        area.width > 0 ==> width_of(area) == area.width,
        area.width == 0 ==> width_of(area) == 1,
{
}

/// What is written for some entries is what is written for the first of them, followed by what is
/// written for the others. For one entry it is its line, if the terminal is to wrap it or if it holds
/// something like a URL and nothing else, or it is the lines that it was wrapped into; for none it is
/// nothing.
pub proof fn law_entries_add_up<L>(
    entries: Seq<HistoryEntry<L>>,
    more: Seq<HistoryEntry<L>>,
    policy: HistoryLineWrapPolicy,
)
    ensures
        chosen_lines(entries + more, policy) == chosen_lines(entries, policy) + chosen_lines(
            more,
            policy,
        ),
        entries.len() == 0 ==> chosen_lines(entries, policy) == Seq::<L>::empty(),
        entries.len() == 1 ==> chosen_lines(entries, policy) == if policy
            == HistoryLineWrapPolicy::Terminal || entries[0].contains_url_like
            && !entries[0].has_mixed_tokens {
            seq![entries[0].line]
        } else {
            entries[0].wrapped@
        },
    decreases more.len(),
{
    if more.len() == 0 {
        assert(entries + more =~= entries);
        assert(chosen_lines(entries, policy) + chosen_lines(more, policy) =~= chosen_lines(
            entries,
            policy,
        ));
    } else {
        law_entries_add_up(entries, more.drop_last(), policy);
        assert((entries + more).drop_last() =~= entries + more.drop_last());
        assert(chosen_lines(entries + more, policy) =~= chosen_lines(entries, policy)
            + chosen_lines(more, policy));
    }
    if entries.len() == 1 {
        assert(entries.drop_last() =~= seq![]);
        assert(chosen_lines(entries.drop_last(), policy) =~= seq![]);
        assert(chosen_lines(entries, policy) =~= entries[0].chosen(policy));
    }
}

/// Every entry is written: what is written for it stands, whole and in its order, among the lines
/// that are written.
pub proof fn law_no_entry_is_left_out<L>(
    entries: Seq<HistoryEntry<L>>,
    policy: HistoryLineWrapPolicy,
    i: int,
)
    requires
        0 <= i < entries.len(),
    ensures
        chosen_lines(entries, policy) == chosen_lines(entries.take(i), policy) + (if policy
            == HistoryLineWrapPolicy::Terminal || entries[i].contains_url_like
            && !entries[i].has_mixed_tokens {
            seq![entries[i].line]
        } else {
            entries[i].wrapped@
        }) + chosen_lines(entries.skip(i + 1), policy),
{
    let one = seq![entries[i]];
    law_entries_add_up(entries.take(i), one, policy);
    law_entries_add_up(entries.take(i) + one, entries.skip(i + 1), policy);
    law_entries_add_up(one, seq![], policy);
    assert(entries =~= entries.take(i) + one + entries.skip(i + 1));
}

/// Plain lines are the lines themselves, one for one and without hyperlinks.
pub proof fn law_plain_lines_are_the_lines(lines: Seq<Line>, i: int)
    ensures
        plain_lines(lines).len() == lines.len(),
        0 <= i < lines.len() ==> plain_lines(lines)[i].line == lines[i] && plain_lines(
            lines,
        )[i].decorated is None,
{
}

/// Lines take the rows of the first of them and those of the others; one line takes those of its
/// text, and none takes none.
pub proof fn law_rows_add_up(lines: Seq<HyperlinkLine>, more: Seq<HyperlinkLine>, width: nat)
    ensures
        total_rows(lines + more, width) == total_rows(lines, width) + total_rows(more, width),
        lines.len() == 0 ==> total_rows(lines, width) == 0,
        lines.len() == 1 ==> total_rows(lines, width) == row_count(lines[0].line.text(), width),
        total_rows(lines, width) >= lines.len(),
    decreases lines.len() + more.len(),
{
    if more.len() == 0 {
        assert(lines + more =~= lines);
    } else {
        law_rows_add_up(lines, more.drop_last(), width);
        assert((lines + more).drop_last() =~= lines + more.drop_last());
    }
    if lines.len() > 0 {
        law_row_count_bounds(lines.last().line.text(), width);
        law_rows_add_up(lines.drop_last(), seq![], width);
        if lines.len() == 1 {
            assert(lines.drop_last() =~= seq![]);
        }
    }
}

/// The rows that some lines take on a terminal as wide as its viewport, which has at least one
/// column.
pub open spec fn rows_for(terminal: TerminalState, lines: Seq<HyperlinkLine>) -> nat {
    total_rows(
        lines,
        if terminal.viewport_area.width == 0 {
            1
        } else {
            terminal.viewport_area.width as nat
        },
    )
}

/// The rows that the lines take are reported, as far as a coordinate can count them, and nothing if
/// there are none.
pub proof fn law_the_rows_are_reported(
    terminal: TerminalState,
    lines: Seq<HyperlinkLine>,
    mode: InsertHistoryMode,
    insertion: HistoryInsertion,
)
    requires
        insertion.inserts(terminal, lines, mode),
    ensures
        ({
            let n = rows_for(terminal, lines);
            match insertion.rows_inserted {
                Some(rows) => rows > 0 && rows == n % 0x10000,
                None => n % 0x10000 == 0,
            }
        }),
{
}

/// Insertion with a scroll region clears nothing first, and sets the viewport's area if and only if
/// rows are free below it: it then is as many rows further down as were inserted, or as were free if
/// that is less.
pub proof fn law_standard_takes_the_free_rows(
    terminal: TerminalState,
    lines: Seq<HyperlinkLine>,
    insertion: HistoryInsertion,
)
    requires
        insertion.inserts(terminal, lines, InsertHistoryMode::Standard),
    ensures
        ({
            let area = terminal.viewport_area;
            let n = rows_for(terminal, lines) % 0x10000;
            let free = terminal.screen_size.height - (area.y + area.height);
            let down = if n <= free {
                n as int
            } else {
                free
            };
            &&& insertion.clear_after is None
            &&& if free > 0 {
                insertion.viewport_area == Some(
                    Rect {
                        x: area.x,
                        y: (area.y + down) as u16,
                        width: area.width,
                        height: area.height,
                    },
                )
            } else {
                insertion.viewport_area is None
            }
        }),
{
}

/// Insertion through the terminal clears the screen from the viewport on first. It moves the viewport
/// as many rows down as were inserted, but not so far that it would leave the screen, and sets its
/// area only if it moves.
pub proof fn law_zellij_moves_the_viewport_down(
    terminal: TerminalState,
    lines: Seq<HyperlinkLine>,
    insertion: HistoryInsertion,
)
    requires
        insertion.inserts(terminal, lines, InsertHistoryMode::ZellijRaw),
    ensures
        ({
            let area = terminal.viewport_area;
            let n = rows_for(terminal, lines) % 0x10000;
            let height = terminal.screen_size.height as int;
            let lowest = if area.height <= height {
                height - area.height
            } else {
                0
            };
            let top = if area.y + n <= lowest {
                area.y + n
            } else {
                lowest
            };
            &&& insertion.clear_after == Some(Position { x: area.x, y: area.y })
            &&& if top == area.y {
                insertion.viewport_area is None
            } else {
                insertion.viewport_area == Some(
                    Rect { x: area.x, y: top as u16, width: area.width, height: area.height },
                )
            }
        }),
{
}

/// No row goes to the scrollback while a row below the viewport is free: with a scroll region, as many
/// go there as the inserted rows are more than the free ones, and one more if the viewport was at the
/// very top.
pub proof fn law_standard_scrolls_off_only_what_does_not_fit(
    screen: Screen,
    terminal: TerminalState,
    lines: Seq<HyperlinkLine>,
    insertion: HistoryInsertion,
)
    requires
        terminal.describes(screen),
        forall|i: int| 0 <= i < lines.len() ==> shows_its_text(#[trigger] lines[i]),
        insertion.inserts(terminal, lines, InsertHistoryMode::Standard),
        lines.len() == 0 || insertion.leaves(terminal).viewport_area.y >= smaller(
            2,
            screen.rows.len() as int,
        ),
        lines_layout(lines, screen.width).len() < 0x10000,
    ensures
        ({
            let area = terminal.viewport_area;
            let n = lines_layout(lines, screen.width).len();
            let free = screen.rows.len() - (area.y + area.height);
            insertion.applied_to(screen).scrollback.len() == screen.scrollback.len() + (if n
                > free {
                n - free
            } else {
                0
            }) + (if area.y == 0 && n > 0 {
                1int
            } else {
                0
            })
        }),
{
    let after = insertion.applied_to(screen);
    let old_top = terminal.viewport_area.y as int;
    let new_top = insertion.leaves(terminal).viewport_area.y as int;
    law_standard_inserts_above_the_viewport(screen, terminal, lines, insertion);
    law_standard_takes_the_free_rows(terminal, lines, insertion);
    law_lines_lie_on_the_counted_rows(lines, screen.width);
    law_rows_add_up(lines, seq![], screen.width);
    assert(after.above(new_top).len() == after.scrollback.len() + new_top);
    assert(screen.above(old_top).len() == screen.scrollback.len() + old_top);
}

/// Through the terminal, as many rows go to the scrollback as what was above the viewport, the
/// inserted rows and the viewport are together more than the screen has.
pub proof fn law_zellij_scrolls_off_only_what_does_not_fit(
    screen: Screen,
    terminal: TerminalState,
    lines: Seq<HyperlinkLine>,
    insertion: HistoryInsertion,
)
    requires
        terminal.describes(screen),
        forall|i: int| 0 <= i < lines.len() ==> shows_its_text(#[trigger] lines[i]),
        insertion.inserts(terminal, lines, InsertHistoryMode::ZellijRaw),
        fits_through(screen, terminal, lines, insertion),
    ensures
        ({
            let area = terminal.viewport_area;
            let needed = area.y + lines_layout(lines, screen.width).len() + area.height;
            insertion.applied_to(screen).scrollback.len() == screen.scrollback.len() + (if needed
                > screen.rows.len() {
                needed - screen.rows.len()
            } else {
                0
            })
        }),
{
    let after = insertion.applied_to(screen);
    let old_top = terminal.viewport_area.y as int;
    let new_top = insertion.leaves(terminal).viewport_area.y as int;
    law_zellij_inserts_above_the_viewport(screen, terminal, lines, insertion);
    law_zellij_moves_the_viewport_down(terminal, lines, insertion);
    law_lines_lie_on_the_counted_rows(lines, screen.width);
    assert(after.above(new_top).len() == after.scrollback.len() + new_top);
    assert(screen.above(old_top).len() == screen.scrollback.len() + old_top);
}

/// How often a command is among some commands.
pub open spec fn times_sent(commands: Seq<Command>, command: Command) -> nat
    decreases commands.len(),
{
    if commands.len() == 0 {
        0
    } else {
        times_sent(commands.drop_last(), command) + if commands.last() == command {
            1nat
        } else {
            0
        }
    }
}

proof fn lemma_times_add(a: Seq<Command>, b: Seq<Command>, command: Command)
    ensures
        times_sent(a + b, command) == times_sent(a, command) + times_sent(b, command),
    decreases b.len(),
{
    if b.len() == 0 {
        assert(a + b =~= a);
    } else {
        lemma_times_add(a, b.drop_last(), command);
        assert((a + b).drop_last() =~= a + b.drop_last());
        assert((a + b).last() == b.last());
    }
}

proof fn lemma_never_sent(commands: Seq<Command>, command: Command)
    requires
        forall|i: int| 0 <= i < commands.len() ==> (#[trigger] commands[i]) != command,
    ensures
        times_sent(commands, command) == 0,
    decreases commands.len(),
{
    if commands.len() > 0 {
        let before = commands.drop_last();
        assert forall|i: int| 0 <= i < before.len() implies (#[trigger] before[i]) != command by {
            assert(before[i] == commands[i]);
        }
        lemma_never_sent(before, command);
        assert(commands[commands.len() - 1] != command);
    }
}

proof fn lemma_times_repeated(times: nat, block: Seq<Command>, command: Command)
    ensures
        times_sent(repeated(times, block), command) == times * times_sent(block, command),
    decreases times,
{
    let each = times_sent(block, command);
    if times > 0 {
        lemma_times_repeated((times - 1) as nat, block, command);
        lemma_times_add(repeated((times - 1) as nat, block), block, command);
        assert(times * each == (times - 1) * each + each) by (nonlinear_arith);
    } else {
        assert(0 * each == 0) by (nonlinear_arith);
    }
}

proof fn lemma_times_two(a: Command, b: Command, command: Command)
    ensures
        times_sent(seq![a, b], command) == times_sent(seq![a], command) + times_sent(
            seq![b],
            command,
        ),
        times_sent(seq![a], command) == if a == command {
            1nat
        } else {
            0
        },
        times_sent(seq![b], command) == if b == command {
            1nat
        } else {
            0
        },
{
    assert(seq![a, b] =~= seq![a] + seq![b]);
    lemma_times_add(seq![a], seq![b], command);
    assert(seq![a].drop_last() =~= seq![]);
    assert(seq![b].drop_last() =~= seq![]);
    assert(times_sent(seq![a].drop_last(), command) == 0);
    assert(times_sent(seq![b].drop_last(), command) == 0);
}

proof fn lemma_line_breaks(lines: Seq<HyperlinkLine>, width: nat, command: Command)
    requires
        command is LineBreak || command is ReverseIndex || command is MoveTo,
    ensures
        times_sent(lines_below(lines, width), command) == if command is LineBreak {
            lines.len()
        } else {
            0
        },
        times_sent(lines_from_cursor(lines, width), command) == if command is LineBreak
            && lines.len() > 0 {
            (lines.len() - 1) as nat
        } else {
            0
        },
    decreases lines.len(),
{
    if lines.len() > 0 {
        let before = lines.drop_last();
        let line = history_line_commands(lines.last(), width);
        let line_break = seq![Command::LineBreak];
        lemma_line_breaks(before, width, command);
        lemma_lines_stay_clear(lines.last(), width);
        assert forall|i: int| 0 <= i < line.len() implies (#[trigger] line[i]) != command by {}
        lemma_never_sent(line, command);
        lemma_times_two(Command::LineBreak, Command::LineBreak, command);
        lemma_times_add(lines_below(before, width), line_break, command);
        lemma_times_add(lines_below(before, width) + line_break, line, command);
        let between = if lines.len() > 1 {
            line_break
        } else {
            seq![]
        };
        lemma_times_add(lines_from_cursor(before, width), between, command);
        lemma_times_add(lines_from_cursor(before, width) + between, line, command);
    }
}

/// With a scroll region, each line begins with a line break and there are no others; the rows below
/// the viewport's top are scrolled down once for each row that the viewport moves, and the cursor is
/// sent back to where it was known to be at the end.
pub proof fn law_standard_scrolls_once_for_each_row(
    terminal: TerminalState,
    lines: Seq<HyperlinkLine>,
    insertion: HistoryInsertion,
)
    requires
        insertion.inserts(terminal, lines, InsertHistoryMode::Standard),
    ensures
        ({
            let commands = insertion.commands@;
            let new_area = match insertion.viewport_area {
                Some(area) => area,
                None => terminal.viewport_area,
            };
            let cursor = terminal.last_known_cursor_pos;
            &&& times_sent(commands, Command::LineBreak) == lines.len()
            &&& times_sent(commands, Command::ReverseIndex) == new_area.y
                - terminal.viewport_area.y
            &&& commands.contains(
                Command::SetScrollRegion(
                    SetScrollRegion(std::ops::Range { start: 1u16, end: new_area.y }),
                ),
            )
            &&& insertion.viewport_area is Some ==> commands[0] == Command::SetScrollRegion(
                SetScrollRegion(
                    std::ops::Range {
                        start: (terminal.viewport_area.y + 1) as u16,
                        end: terminal.screen_size.height,
                    },
                ),
            )
            &&& commands.len() >= 2
            &&& commands[commands.len() - 2] == Command::ResetScrollRegion(ResetScrollRegion)
            &&& commands.last() == Command::MoveTo(cursor.x, cursor.y)
        }),
{
    let commands = insertion.commands@;
    let width = width_of(terminal.viewport_area);
    let rows = short(total_rows(lines, width));
    let amount = terminal.scroll_amount(rows) as nat;
    let room = terminal.make_room(rows);
    let write = lines_below(lines, width);
    let one = seq![Command::ReverseIndex];
    let scroll = repeated(amount, one);
    let begin = commands.subrange(room.len() as int, room.len() as int + 2);
    let end = commands.skip(commands.len() - 2);
    assert(commands =~= room + begin + write + end);
    assert(commands[room.len() as int] is SetScrollRegion);
    assert forall|c: Command| c is LineBreak || c is ReverseIndex implies times_sent(commands, c)
        == #[trigger] times_sent(room, c) + times_sent(write, c) by {
        lemma_times_add(room, begin, c);
        lemma_times_add(room + begin, write, c);
        lemma_times_add(room + begin + write, end, c);
        lemma_never_sent(begin, c);
        lemma_never_sent(end, c);
    }
    assert forall|c: Command| c is LineBreak || c is ReverseIndex implies #[trigger] times_sent(
        room,
        c,
    ) == if c is ReverseIndex {
        amount
    } else {
        0
    } by {
        if terminal.has_room_below() {
            let head = room.take(2);
            let tail = seq![Command::ResetScrollRegion(ResetScrollRegion)];
            assert(room =~= head + scroll + tail);
            lemma_never_sent(head, c);
            lemma_never_sent(tail, c);
            lemma_times_add(head, scroll, c);
            lemma_times_add(head + scroll, tail, c);
            lemma_times_repeated(amount, one, c);
            lemma_times_two(Command::ReverseIndex, Command::ReverseIndex, c);
            assert(amount * 1 == amount && amount * 0 == 0) by (nonlinear_arith);
        } else {
            lemma_never_sent(room, c);
        }
    }
    assert(times_sent(commands, Command::LineBreak) == times_sent(room, Command::LineBreak)
        + times_sent(write, Command::LineBreak));
    assert(times_sent(commands, Command::ReverseIndex) == times_sent(room, Command::ReverseIndex)
        + times_sent(write, Command::ReverseIndex));
    lemma_line_breaks(lines, width, Command::LineBreak);
    lemma_line_breaks(lines, width, Command::ReverseIndex);
}

/// With a scroll region, room is made first, if rows are free below the viewport: with scrolling
/// limited to the rows from the viewport's top to the bottom of the screen, the cursor goes to that
/// top, the rows are scrolled down once for each row that the viewport moves, and the limit is
/// lifted. Then scrolling is limited to the rows above the viewport's new place, and the cursor goes to
/// the row above its old one. Nothing else comes before the lines.
pub proof fn law_standard_makes_room_first(
    terminal: TerminalState,
    lines: Seq<HyperlinkLine>,
    insertion: HistoryInsertion,
    i: int,
)
    requires
        insertion.inserts(terminal, lines, InsertHistoryMode::Standard),
    ensures
        ({
            let commands = insertion.commands@;
            let old_top = terminal.viewport_area.y;
            let region = |start: u16, end: u16|
                Command::SetScrollRegion(SetScrollRegion(std::ops::Range { start, end }));
            let reset = Command::ResetScrollRegion(ResetScrollRegion);
            let (new_top, start) = match insertion.viewport_area {
                Some(area) => (area.y, 3 + (area.y - old_top)),
                None => (old_top, 0),
            };
            &&& new_top >= old_top
            &&& insertion.viewport_area is Some ==> {
                &&& commands[0] == region((old_top + 1) as u16, terminal.screen_size.height)
                &&& commands[1] == Command::MoveTo(0, old_top)
                &&& 2 <= i < start - 1 ==> commands[i] == Command::ReverseIndex
                &&& commands[start - 1] == reset
            }
            &&& commands[start] == region(1, new_top)
            &&& commands[start + 1] == Command::MoveTo(
                0,
                if old_top > 0 {
                    (old_top - 1) as u16
                } else {
                    0
                },
            )
            &&& commands.skip(start + 2) == lines_below(
                lines,
                width_of(terminal.viewport_area),
            ) + seq![
                reset,
                Command::MoveTo(
                    terminal.last_known_cursor_pos.x,
                    terminal.last_known_cursor_pos.y,
                ),
            ]
        }),
{
    let commands = insertion.commands@;
    let width = width_of(terminal.viewport_area);
    let rows = short(total_rows(lines, width));
    let amount = terminal.scroll_amount(rows) as nat;
    let room = terminal.make_room(rows);
    let scroll = repeated(amount, seq![Command::ReverseIndex]);
    lemma_repeated(amount, seq![Command::ReverseIndex]);
    assert(amount * 1 == amount) by (nonlinear_arith);
    assert(scroll.len() == amount);
    if terminal.has_room_below() {
        assert(room.len() == 3 + amount);
        if 2 <= i < 2 + amount {
            assert(commands[i] == scroll[i - 2]);
            assert(seq![Command::ReverseIndex].contains(scroll[i - 2]));
        }
        assert(commands[2 + amount as int] == room[2 + amount as int]);
    }
    let end = seq![
        Command::ResetScrollRegion(ResetScrollRegion),
        terminal.restore_cursor(),
    ];
    assert(commands.skip(room.len() as int + 2) =~= lines_below(lines, width) + end);
}

/// The lines are written one below the other: those of two batches together as those of the first
/// and then those of the second, and one on a new row below the cursor's.
pub proof fn law_written_lines_add_up(
    lines: Seq<HyperlinkLine>,
    more: Seq<HyperlinkLine>,
    width: nat,
)
    ensures
        lines_below(lines + more, width) == lines_below(lines, width) + lines_below(more, width),
        lines.len() == 0 ==> lines_below(lines, width) == Seq::<Command>::empty(),
        lines.len() == 1 ==> lines_below(lines, width) == seq![Command::LineBreak]
            + history_line_commands(lines[0], width),
        lines.len() > 0 ==> seq![Command::LineBreak] + lines_from_cursor(lines, width)
            == lines_below(lines, width),
        lines.len() == 0 ==> lines_from_cursor(lines, width) == Seq::<Command>::empty(),
    decreases lines.len() + more.len(),
{
    if more.len() == 0 {
        assert(lines + more =~= lines);
        assert(lines_below(lines, width) + lines_below(more, width) =~= lines_below(
            lines,
            width,
        ));
    } else {
        law_written_lines_add_up(lines, more.drop_last(), width);
        assert((lines + more).drop_last() =~= lines + more.drop_last());
        assert(lines_below(lines + more, width) =~= lines_below(lines, width) + lines_below(
            more,
            width,
        ));
    }
    if lines.len() > 0 {
        let before = lines.drop_last();
        law_written_lines_add_up(before, seq![], width);
        if lines.len() == 1 {
            assert(before =~= seq![]);
            assert(lines_below(lines, width) =~= seq![Command::LineBreak] + history_line_commands(
                lines[0],
                width,
            ));
        }
        assert(seq![Command::LineBreak] + lines_from_cursor(lines, width) =~= lines_below(
            lines,
            width,
        ));
    }
}

/// Through the terminal, there is a line break between any two lines and one for each row of the
/// viewport; the cursor begins at the viewport's top and is sent back to where it was known to be at
/// the end.
pub proof fn law_zellij_breaks_between_lines(
    terminal: TerminalState,
    lines: Seq<HyperlinkLine>,
    insertion: HistoryInsertion,
)
    requires
        insertion.inserts(terminal, lines, InsertHistoryMode::ZellijRaw),
    ensures
        ({
            let commands = insertion.commands@;
            let cursor = terminal.last_known_cursor_pos;
            &&& times_sent(commands, Command::LineBreak) == terminal.viewport_area.height + (
            if lines.len() > 0 {
                lines.len() - 1
            } else {
                0
            })
            &&& commands.len() >= 2
            &&& commands[0] == Command::MoveTo(0, terminal.viewport_area.y)
            &&& lines_from_cursor(
                lines,
                width_of(terminal.viewport_area),
            ).is_prefix_of(commands.skip(1))
            &&& commands.len() == 2 + lines_from_cursor(
                lines,
                width_of(terminal.viewport_area),
            ).len() + 2 * terminal.viewport_area.height
            &&& commands.last() == Command::MoveTo(cursor.x, cursor.y)
        }),
{
    let commands = insertion.commands@;
    let c = Command::LineBreak;
    let width = width_of(terminal.viewport_area);
    let height = terminal.viewport_area.height as nat;
    let home = seq![Command::MoveTo(0, terminal.viewport_area.y)];
    let write = lines_from_cursor(lines, width);
    let block = seq![Command::LineBreak, Command::ClearUntilNewLine];
    let empty = repeated(height, block);
    let end = seq![terminal.restore_cursor()];
    assert(commands =~= home + write + empty + end);
    lemma_times_add(home, write, c);
    lemma_times_add(home + write, empty, c);
    lemma_times_add(home + write + empty, end, c);
    lemma_never_sent(home, c);
    lemma_never_sent(end, c);
    lemma_line_breaks(lines, width, c);
    lemma_times_repeated(height, block, c);
    lemma_times_two(Command::LineBreak, Command::ClearUntilNewLine, c);
    assert(height * 1 == height && height * 2 == 2 * height) by (nonlinear_arith);
    lemma_repeated(height, block);
    assert(commands.skip(1).take(write.len() as int) =~= write);
}

/// What is drawn for some lines, one after the other, each with a reset pen.
spec fn lines_drawn(lines: Seq<HyperlinkLine>, width: nat) -> Seq<Drawn>
    decreases lines.len(),
{
    if lines.len() == 0 {
        seq![]
    } else {
        lines_drawn(lines.drop_last(), width) + drawn(
            reset_rendition(),
            history_line_commands(lines.last(), width),
        )
    }
}

proof fn lemma_lines_drawn_add(a: Seq<HyperlinkLine>, b: Seq<HyperlinkLine>, width: nat)
    ensures
        lines_drawn(a + b, width) == lines_drawn(a, width) + lines_drawn(b, width),
    decreases b.len(),
{
    if b.len() == 0 {
        assert(a + b =~= a);
        assert(lines_drawn(a, width) + lines_drawn(b, width) =~= lines_drawn(a, width));
    } else {
        lemma_lines_drawn_add(a, b.drop_last(), width);
        assert((a + b).drop_last() =~= a + b.drop_last());
        assert(lines_drawn(a + b, width) =~= lines_drawn(a, width) + lines_drawn(b, width));
    }
}

proof fn lemma_draws_nothing(r: Rendition, commands: Seq<Command>)
    requires
        r == reset_rendition(),
        forall|i: int| 0 <= i < commands.len() ==> is_move(#[trigger] commands[i]),
    ensures
        drawn(r, commands) == Seq::<Drawn>::empty(),
        r.run(commands) == reset_rendition(),
    decreases commands.len(),
{
    assert forall|i: int| 0 <= i < commands.len() implies !((#[trigger] commands[i]) is Print) by {
        assert(is_move(commands[i]));
    }
    lemma_drawn_nothing(r, commands);
    if commands.len() > 0 {
        let before = commands.drop_last();
        assert forall|i: int| 0 <= i < before.len() implies is_move(#[trigger] before[i]) by {
            assert(before[i] == commands[i]);
        }
        lemma_draws_nothing(r, before);
        assert(is_move(commands[commands.len() - 1]));
    }
}

/// Whether a command neither prints nor changes the pen.
spec fn is_move(command: Command) -> bool {
    command is MoveTo || command is SetScrollRegion || command is ResetScrollRegion || command
        is ReverseIndex || command is LineBreak || command is ClearUntilNewLine
}

proof fn lemma_written_lines_are_drawn(lines: Seq<HyperlinkLine>, width: nat)
    ensures
        drawn(reset_rendition(), lines_below(lines, width)) == lines_drawn(lines, width),
        reset_rendition().run(lines_below(lines, width)) == reset_rendition(),
        drawn(reset_rendition(), lines_from_cursor(lines, width)) == lines_drawn(lines, width),
        reset_rendition().run(lines_from_cursor(lines, width)) == reset_rendition(),
    decreases lines.len(),
{
    let r = reset_rendition();
    if lines.len() > 0 {
        let before = lines.drop_last();
        let line = history_line_commands(lines.last(), width);
        let line_break = seq![Command::LineBreak];
        lemma_written_lines_are_drawn(before, width);
        law_line_draws_all_its_spans(r, lines.last(), width);
        lemma_draws_nothing(r, line_break);
        lemma_drawn_add(r, lines_below(before, width), line_break);
        lemma_drawn_add(r, lines_below(before, width) + line_break, line);
        assert(drawn(r, lines_below(lines, width)) =~= lines_drawn(lines, width));
        let between = if lines.len() > 1 {
            line_break
        } else {
            seq![]
        };
        lemma_draws_nothing(r, between);
        lemma_drawn_add(r, lines_from_cursor(before, width), between);
        lemma_drawn_add(r, lines_from_cursor(before, width) + between, line);
        assert(drawn(r, lines_from_cursor(lines, width)) =~= lines_drawn(lines, width));
    }
}

proof fn lemma_insertion_draws(
    terminal: TerminalState,
    lines: Seq<HyperlinkLine>,
    mode: InsertHistoryMode,
    insertion: HistoryInsertion,
)
    requires
        insertion.inserts(terminal, lines, mode),
    ensures
        drawn(reset_rendition(), insertion.commands@) == lines_drawn(
            lines,
            width_of(terminal.viewport_area),
        ),
        reset_rendition().run(insertion.commands@) == reset_rendition(),
{
    let r = reset_rendition();
    let commands = insertion.commands@;
    let width = width_of(terminal.viewport_area);
    lemma_written_lines_are_drawn(lines, width);
    match mode {
        InsertHistoryMode::Standard => {
            let rows = short(total_rows(lines, width));
            let amount = terminal.scroll_amount(rows) as nat;
            let room = terminal.make_room(rows);
            let scroll = repeated(amount, seq![Command::ReverseIndex]);
            let write = lines_below(lines, width);
            let begin = commands.take(room.len() as int + 2);
            let end = commands.skip(commands.len() - 2);
            assert(commands =~= begin + write + end);
            lemma_repeated(amount, seq![Command::ReverseIndex]);
            assert forall|i: int| 0 <= i < begin.len() implies is_move(#[trigger] begin[i]) by {
                if i < room.len() {
                    assert(begin[i] == room[i]);
                    if 2 <= i < 2 + scroll.len() {
                        assert(room[i] == scroll[i - 2]);
                    }
                }
            }
            lemma_draws_nothing(r, begin);
            lemma_draws_nothing(r, end);
            lemma_drawn_add(r, begin, write);
            lemma_drawn_add(r, begin + write, end);
        },
        InsertHistoryMode::ZellijRaw => {
            let home = seq![Command::MoveTo(0, terminal.viewport_area.y)];
            let write = lines_from_cursor(lines, width);
            let block = seq![Command::LineBreak, Command::ClearUntilNewLine];
            let empty = repeated(terminal.viewport_area.height as nat, block);
            let end = empty + seq![terminal.restore_cursor()];
            assert(commands =~= home + write + end);
            lemma_repeated(terminal.viewport_area.height as nat, block);
            assert forall|i: int| 0 <= i < end.len() implies is_move(#[trigger] end[i]) by {
                if i < empty.len() {
                    assert(end[i] == empty[i]);
                    assert(block.contains(empty[i]));
                }
            }
            lemma_draws_nothing(r, home);
            lemma_draws_nothing(r, end);
            lemma_drawn_add(r, home, write);
            lemma_drawn_add(r, home + write, end);
        },
    }
    assert(drawn(r, commands) =~= lines_drawn(lines, width));
}

/// An insertion draws every line, in their order and nothing else: for the lines of two insertions
/// together, what is drawn for the first and then what is drawn for the second, and for one line what
/// is drawn for that. It leaves the pen reset.
pub proof fn law_every_line_is_drawn(
    terminal: TerminalState,
    mode: InsertHistoryMode,
    lines: Seq<HyperlinkLine>,
    insertion: HistoryInsertion,
    more_lines: Seq<HyperlinkLine>,
    more: HistoryInsertion,
    all: HistoryInsertion,
)
    requires
        insertion.inserts(terminal, lines, mode),
        more.inserts(terminal, more_lines, mode),
        all.inserts(terminal, lines + more_lines, mode),
    ensures
        ({
            let r = reset_rendition();
            let width = if terminal.viewport_area.width == 0 {
                1
            } else {
                terminal.viewport_area.width as nat
            };
            &&& drawn(r, all.commands@) == drawn(r, insertion.commands@) + drawn(r, more.commands@)
            &&& lines.len() == 0 ==> drawn(r, insertion.commands@) == Seq::<Drawn>::empty()
            &&& lines.len() == 1 ==> drawn(r, insertion.commands@) == drawn(
                r,
                history_line_commands(lines[0], width),
            )
            &&& r.run(insertion.commands@) == r
        }),
{
    let width = width_of(terminal.viewport_area);
    lemma_insertion_draws(terminal, lines, mode, insertion);
    lemma_insertion_draws(terminal, more_lines, mode, more);
    lemma_insertion_draws(terminal, lines + more_lines, mode, all);
    lemma_lines_drawn_add(lines, more_lines, width);
    if lines.len() == 1 {
        assert(lines.drop_last() =~= seq![]);
        assert(lines_drawn(lines.drop_last(), width) =~= seq![]);
        assert(lines_drawn(lines, width) =~= drawn(
            reset_rendition(),
            history_line_commands(lines[0], width),
        ));
    }
}

} // verus!
