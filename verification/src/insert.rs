//! Inserting finalized history above the viewport.

use vstd::prelude::*;
use crate::ansi::{ResetScrollRegion, SetScrollRegion};
use crate::command::Command;
use crate::geometry::{left_over, smaller, Position, Rect, Size};
use crate::rows::{
    lemma_small_word, lemma_word_add, lemma_word_as_short, row_count, short, word,
    wrapped_row_count,
};
use crate::spans::{history_line_commands, write_history_line};
use crate::text::{plain_hyperlink_lines, HyperlinkLine, Line};

verus! {

/// Who breaks long history lines.
#[derive(Debug, Clone, Copy, PartialEq, Eq, Structural)]
pub enum HistoryLineWrapPolicy {
    /// Lines are wrapped at word boundaries before they are written, except for bare URLs.
    PreWrap,
    /// Lines are written unbroken and the terminal wraps them.
    Terminal,
}

/// Selects the terminal escape strategy used when writing history above the viewport.
///
/// Raw lines intentionally remain unbroken so terminal selection copies their source faithfully.
/// Zellij does not constrain soft-wrapped continuation rows to the scroll region, so its raw path
/// appends history through the terminal and reserves blank rows for the next viewport draw.
#[derive(Debug, Clone, Copy, PartialEq, Eq, Structural)]
pub enum InsertHistoryMode {
    Standard,
    ZellijRaw,
}

/// What the insertion needs to know of the terminal.
#[derive(Debug, Clone, Copy, PartialEq, Eq, Structural)]
pub struct TerminalState {
    pub screen_size: Size,
    pub viewport_area: Rect,
    pub last_known_cursor_pos: Position,
}

/// A history line with what is known of its words and how it would be wrapped.
#[derive(Debug, PartialEq, Eq)]
pub struct HistoryEntry<L> {
    pub line: L,
    /// Whether the line holds a token that looks like a URL.
    pub contains_url_like: bool,
    /// Whether it holds other tokens besides such ones.
    pub has_mixed_tokens: bool,
    /// The line wrapped at [`wrap_width`], its continuation rows indented by
    /// [`leading_whitespace_prefix`](crate::indent::leading_whitespace_prefix). Not looked at where
    /// [`keeps_line_intact`] holds.
    pub wrapped: Vec<L>,
}

/// What is to be done to insert history, in the order of the fields.
#[derive(Debug, PartialEq, Eq)]
pub struct HistoryInsertion {
    /// The place from which on the screen is to be cleared first, if any.
    pub clear_after: Option<Position>,
    /// The commands to send to the terminal.
    pub commands: Vec<Command>,
    /// The viewport's new area, if it is to be set.
    pub viewport_area: Option<Rect>,
    /// The number of rows to report as inserted, if any were.
    pub rows_inserted: Option<u16>,
}

/// The width at which the terminal wraps history.
pub open spec fn width_of(area: Rect) -> nat {
    if area.width == 0 {
        1
    } else {
        area.width as nat
    }
}

/// The width at which history is wrapped for a viewport.
pub fn wrap_width(area: Rect) -> (r: usize)
    ensures
        r == width_of(area),
{
    if area.width == 0 {
        1
    } else {
        area.width as usize
    }
}

/// Whether a line goes to the terminal unbroken: always when the terminal is to wrap it, else
/// only if it is made of nothing but URL-like tokens.
pub open spec fn keeps_intact(
    wrap_policy: HistoryLineWrapPolicy,
    contains_url_like: bool,
    has_mixed_tokens: bool,
) -> bool {
    wrap_policy == HistoryLineWrapPolicy::Terminal || contains_url_like && !has_mixed_tokens
}

/// Whether a line goes to the terminal unbroken.
///
/// URL-only-ish lines are kept intact so that terminal emulators can match them as clickable
/// links; the terminal wraps them at its margin. Mixed lines and those without a URL are wrapped.
pub fn keeps_line_intact(
    wrap_policy: HistoryLineWrapPolicy,
    contains_url_like: bool,
    has_mixed_tokens: bool,
) -> (r: bool)
    ensures
        r == keeps_intact(wrap_policy, contains_url_like, has_mixed_tokens),
{
    match wrap_policy {
        HistoryLineWrapPolicy::Terminal => true,
        HistoryLineWrapPolicy::PreWrap => contains_url_like && !has_mixed_tokens,
    }
}

impl<L> HistoryEntry<L> {
    /// The lines that are written for this entry.
    pub open spec fn chosen(self, wrap_policy: HistoryLineWrapPolicy) -> Seq<L> {
        if keeps_intact(wrap_policy, self.contains_url_like, self.has_mixed_tokens) {
            seq![self.line]
        } else {
            self.wrapped@
        }
    }
}

/// The lines that are written for some entries, in their order.
pub open spec fn chosen_lines<L>(
    entries: Seq<HistoryEntry<L>>,
    wrap_policy: HistoryLineWrapPolicy,
) -> Seq<L>
    decreases entries.len(),
{
    if entries.len() == 0 {
        seq![]
    } else {
        chosen_lines(entries.drop_last(), wrap_policy) + entries.last().chosen(wrap_policy)
    }
}

/// The rows that some lines take together.
pub open spec fn total_rows(lines: Seq<HyperlinkLine>, width: nat) -> nat
    decreases lines.len(),
{
    if lines.len() == 0 {
        0
    } else {
        total_rows(lines.drop_last(), width) + row_count(lines.last().line.text(), width)
    }
}

/// The same command over and over.
pub open spec fn repeated(times: nat, block: Seq<Command>) -> Seq<Command>
    decreases times,
{
    if times == 0 {
        seq![]
    } else {
        repeated((times - 1) as nat, block) + block
    }
}

/// The commands that write some lines, each on a new row below the cursor's.
pub open spec fn lines_below(lines: Seq<HyperlinkLine>, width: nat) -> Seq<Command>
    decreases lines.len(),
{
    if lines.len() == 0 {
        seq![]
    } else {
        lines_below(lines.drop_last(), width) + seq![Command::LineBreak] + history_line_commands(
            lines.last(),
            width,
        )
    }
}

/// The commands that write some lines from the cursor's row on, with a line break between them.
pub open spec fn lines_from_cursor(lines: Seq<HyperlinkLine>, width: nat) -> Seq<Command>
    decreases lines.len(),
{
    if lines.len() == 0 {
        seq![]
    } else {
        lines_from_cursor(lines.drop_last(), width) + (if lines.len() > 1 {
            seq![Command::LineBreak]
        } else {
            seq![]
        }) + history_line_commands(lines.last(), width)
    }
}

impl TerminalState {
    /// How far the viewport is scrolled down to make room for `rows` rows: not past the bottom of
    /// the screen, and not at all if it is there already.
    pub open spec fn scroll_amount(self, rows: u16) -> int {
        smaller(
            rows as int,
            left_over(self.screen_size.height as int, self.viewport_area.end_row()),
        )
    }

    /// Whether the viewport ends above the bottom of the screen.
    pub open spec fn has_room_below(self) -> bool {
        self.viewport_area.end_row() < self.screen_size.height
    }

    /// Where the viewport is after `rows` rows were inserted with a scroll region.
    pub open spec fn scrolled_viewport(self, rows: u16) -> Rect {
        self.viewport_area.at_row(self.viewport_area.y + self.scroll_amount(rows))
    }

    /// Where the viewport is after `rows` rows were appended through the terminal: right below
    /// them, but not past the bottom of the screen.
    pub open spec fn pushed_viewport(self, rows: u16) -> Rect {
        self.viewport_area.at_row(
            smaller(
                smaller(self.viewport_area.y + rows, u16::MAX as int),
                left_over(self.screen_size.height as int, self.viewport_area.height as int),
            ),
        )
    }

    /// The commands that scroll the viewport down to make room for `rows` rows.
    pub open spec fn make_room(self, rows: u16) -> Seq<Command> {
        if self.has_room_below() {
            let top = self.viewport_area.y;
            seq![
                Command::SetScrollRegion(
                    SetScrollRegion(
                        std::ops::Range { start: (top + 1) as u16, end: self.screen_size.height },
                    ),
                ),
                Command::MoveTo(0, top),
            ] + repeated(self.scroll_amount(rows) as nat, seq![Command::ReverseIndex]) + seq![
                Command::ResetScrollRegion(ResetScrollRegion),
            ]
        } else {
            seq![]
        }
    }

    /// The command that puts the cursor back where it was known to be.
    pub open spec fn restore_cursor(self) -> Command {
        Command::MoveTo(self.last_known_cursor_pos.x, self.last_known_cursor_pos.y)
    }

    /// The commands that insert `lines`, which take `rows` rows, with a scroll region: the region
    /// above the viewport is scrolled up from its last row, so that the viewport stays as it is.
    pub open spec fn standard_commands(self, lines: Seq<HyperlinkLine>, rows: u16) -> Seq<Command> {
        self.make_room(rows) + seq![
            Command::SetScrollRegion(
                SetScrollRegion(
                    std::ops::Range { start: 1u16, end: self.scrolled_viewport(rows).y },
                ),
            ),
            Command::MoveTo(0, left_over(self.viewport_area.y as int, 1) as u16),
        ] + lines_below(lines, width_of(self.viewport_area)) + seq![
            Command::ResetScrollRegion(ResetScrollRegion),
            self.restore_cursor(),
        ]
    }

    /// The commands that append `lines` through the terminal, from the viewport's first row on,
    /// followed by empty rows for the viewport.
    pub open spec fn zellij_commands(self, lines: Seq<HyperlinkLine>) -> Seq<Command> {
        seq![Command::MoveTo(0, self.viewport_area.y)] + lines_from_cursor(
            lines,
            width_of(self.viewport_area),
        ) + repeated(
            self.viewport_area.height as nat,
            seq![Command::LineBreak, Command::ClearUntilNewLine],
        ) + seq![self.restore_cursor()]
    }
}

impl HistoryInsertion {
    /// Whether this is how `lines` are inserted into `terminal`.
    pub open spec fn inserts(
        self,
        terminal: TerminalState,
        lines: Seq<HyperlinkLine>,
        mode: InsertHistoryMode,
    ) -> bool {
        let area = terminal.viewport_area;
        let rows = short(total_rows(lines, width_of(area)));
        &&& self.rows_inserted == if rows > 0 {
            Some(rows)
        } else {
            None
        }
        &&& match mode {
            InsertHistoryMode::Standard => {
                &&& self.clear_after is None
                &&& self.commands@ == terminal.standard_commands(lines, rows)
                &&& self.viewport_area == if terminal.has_room_below() {
                    Some(terminal.scrolled_viewport(rows))
                } else {
                    None
                }
            },
            InsertHistoryMode::ZellijRaw => {
                &&& self.clear_after == Some(Position { x: area.x, y: area.y })
                &&& self.commands@ == terminal.zellij_commands(lines)
                &&& self.viewport_area == if terminal.pushed_viewport(rows) == area {
                    None
                } else {
                    Some(terminal.pushed_viewport(rows))
                }
            },
        }
    }
}

fn write_standard(
    terminal: &TerminalState,
    wrapped: &Vec<&HyperlinkLine>,
    wrapped_lines: u16,
    Ghost(lines): Ghost<Seq<HyperlinkLine>>,
) -> (r: (Vec<Command>, Option<Rect>))
    requires
        wrapped@.len() == lines.len(),
        forall|i: int| 0 <= i < lines.len() ==> *(#[trigger] wrapped@[i]) == lines[i],
    ensures
        r.0@ == terminal.standard_commands(lines, wrapped_lines),
        r.1 == if terminal.has_room_below() {
            Some(terminal.scrolled_viewport(wrapped_lines))
        } else {
            None
        },
{
    let screen_size = terminal.screen_size;
    let mut area = terminal.viewport_area;
    let mut new_area: Option<Rect> = None;
    let width: usize = wrap_width(area);
    let mut commands: Vec<Command> = Vec::new();
    let cursor_top: u16 = area.top().saturating_sub(1);
    if area.bottom() < screen_size.height {
        // If the viewport is not at the bottom of the screen, scroll it down to make room.
        // Don't scroll it past the bottom of the screen.
        let room: u16 = screen_size.height - area.bottom();
        let scroll_amount: u16 = if wrapped_lines < room {
            wrapped_lines
        } else {
            room
        };
        let top_1based: u16 = area.top() + 1;
        commands.push(Command::SetScrollRegion(SetScrollRegion(top_1based..screen_size.height)));
        commands.push(Command::MoveTo(0, area.top()));
        let ghost start = commands@;
        let mut i: u16 = 0;
        assert(commands@ =~= start + repeated(0, seq![Command::ReverseIndex]));
        while i < scroll_amount
            invariant
                i <= scroll_amount,
                commands@ == start + repeated(i as nat, seq![Command::ReverseIndex]),
            decreases scroll_amount - i,
        {
            commands.push(Command::ReverseIndex);
            i = i + 1;
            assert(commands@ =~= start + repeated(i as nat, seq![Command::ReverseIndex]));
        }
        commands.push(Command::ResetScrollRegion(ResetScrollRegion));
        area.y = area.y + scroll_amount;
        new_area = Some(area);
    }
    assert(commands@ =~= terminal.make_room(wrapped_lines));

    // Limit the scroll region to the lines from the top of the screen to the top of the viewport.
    // With this in place, when we add lines inside this area, only the lines in this area will be
    // scrolled. We place the cursor at the end of the scroll region, and add lines starting there.
    //
    // ┌─Screen───────────────────────┐
    // │┌╌Scroll region╌╌╌╌╌╌╌╌╌╌╌╌╌╌┐│
    // │┆                            ┆│
    // │┆                            ┆│
    // │┆                            ┆│
    // │█╌╌╌╌╌╌╌╌╌╌╌╌╌╌╌╌╌╌╌╌╌╌╌╌╌╌╌╌┘│
    // │╭─Viewport───────────────────╮│
    // ││                            ││
    // │╰────────────────────────────╯│
    // └──────────────────────────────┘
    commands.push(Command::SetScrollRegion(SetScrollRegion(1..area.top())));
    commands.push(Command::MoveTo(0, cursor_top));
    let ghost start = commands@;
    let mut k: usize = 0;
    assert(commands@ =~= start + lines_below(lines.take(0), width as nat));
    while k < wrapped.len()
        invariant
            k <= wrapped.len(),
            wrapped@.len() == lines.len(),
            forall|i: int| 0 <= i < lines.len() ==> *(#[trigger] wrapped@[i]) == lines[i],
            commands@ == start + lines_below(lines.take(k as int), width as nat),
        decreases wrapped.len() - k,
    {
        commands.push(Command::LineBreak);
        write_history_line(&mut commands, wrapped[k], width);
        proof {
            assert(lines.take(k + 1).drop_last() =~= lines.take(k as int));
        }
        k = k + 1;
        assert(commands@ =~= start + lines_below(lines.take(k as int), width as nat));
    }
    assert(lines.take(lines.len() as int) =~= lines);
    commands.push(Command::ResetScrollRegion(ResetScrollRegion));
    commands.push(
        Command::MoveTo(terminal.last_known_cursor_pos.x, terminal.last_known_cursor_pos.y),
    );
    assert(commands@ =~= terminal.standard_commands(lines, wrapped_lines));
    (commands, new_area)
}

fn write_zellij(
    terminal: &TerminalState,
    wrapped: &Vec<&HyperlinkLine>,
    wrapped_lines: u16,
    Ghost(lines): Ghost<Seq<HyperlinkLine>>,
) -> (r: (Vec<Command>, Option<Rect>))
    requires
        wrapped@.len() == lines.len(),
        forall|i: int| 0 <= i < lines.len() ==> *(#[trigger] wrapped@[i]) == lines[i],
    ensures
        r.0@ == terminal.zellij_commands(lines),
        r.1 == if terminal.pushed_viewport(wrapped_lines) == terminal.viewport_area {
            None
        } else {
            Some(terminal.pushed_viewport(wrapped_lines))
        },
{
    let mut area = terminal.viewport_area;
    let mut new_area: Option<Rect> = None;
    let width: usize = wrap_width(area);
    let mut commands: Vec<Command> = Vec::new();
    commands.push(Command::MoveTo(0, area.top()));
    let ghost start = commands@;
    let mut index: usize = 0;
    assert(commands@ =~= start + lines_from_cursor(lines.take(0), width as nat));
    while index < wrapped.len()
        invariant
            index <= wrapped.len(),
            wrapped@.len() == lines.len(),
            forall|i: int| 0 <= i < lines.len() ==> *(#[trigger] wrapped@[i]) == lines[i],
            commands@ == start + lines_from_cursor(lines.take(index as int), width as nat),
        decreases wrapped.len() - index,
    {
        if index > 0 {
            commands.push(Command::LineBreak);
        }
        write_history_line(&mut commands, wrapped[index], width);
        proof {
            assert(lines.take(index + 1).drop_last() =~= lines.take(index as int));
        }
        index = index + 1;
        assert(commands@ =~= start + lines_from_cursor(lines.take(index as int), width as nat));
    }
    assert(lines.take(lines.len() as int) =~= lines);

    // Writing raw source text through the terminal preserves its soft-wrap metadata. Advance
    // through empty rows for the viewport so history ends immediately above the composer even when
    // a replay batch is taller than the visible history region.
    let ghost block = seq![Command::LineBreak, Command::ClearUntilNewLine];
    let ghost start = commands@;
    let mut i: u16 = 0;
    assert(commands@ =~= start + repeated(0, block));
    while i < area.height
        invariant
            i <= area.height,
            block == seq![Command::LineBreak, Command::ClearUntilNewLine],
            commands@ == start + repeated(i as nat, block),
        decreases area.height - i,
    {
        commands.push(Command::LineBreak);
        commands.push(Command::ClearUntilNewLine);
        i = i + 1;
        assert(commands@ =~= start + repeated(i as nat, block));
    }
    commands.push(
        Command::MoveTo(terminal.last_known_cursor_pos.x, terminal.last_known_cursor_pos.y),
    );
    assert(commands@ =~= terminal.zellij_commands(lines));

    let below: u16 = area.top().saturating_add(wrapped_lines);
    let lowest: u16 = terminal.screen_size.height.saturating_sub(area.height);
    let viewport_top: u16 = if below < lowest {
        below
    } else {
        lowest
    };
    if area.y != viewport_top {
        area.y = viewport_top;
        new_area = Some(area);
    }
    (commands, new_area)
}

fn push_all<'a>(
    wrapped: &mut Vec<&'a HyperlinkLine>,
    wrapped_rows: &mut usize,
    lines: &'a Vec<HyperlinkLine>,
    width: usize,
    Ghost(before): Ghost<Seq<HyperlinkLine>>,
)
    requires
        old(wrapped)@.len() == before.len(),
        forall|i: int| 0 <= i < before.len() ==> *(#[trigger] old(wrapped)@[i]) == before[i],
        *old(wrapped_rows) == word(total_rows(before, width as nat)),
    ensures
        final(wrapped)@.len() == (before + lines@).len(),
        forall|i: int|
            0 <= i < (before + lines@).len() ==> *(#[trigger] final(wrapped)@[i]) == (before
                + lines@)[i],
        *final(wrapped_rows) == word(total_rows(before + lines@, width as nat)),
{
    let mut k: usize = 0;
    assert(before + lines@.take(0) =~= before);
    while k < lines.len()
        invariant
            k <= lines.len(),
            wrapped@.len() == before.len() + k,
            forall|i: int|
                0 <= i < before.len() + k ==> *(#[trigger] wrapped@[i]) == (before + lines@)[i],
            *wrapped_rows == word(total_rows(before + lines@.take(k as int), width as nat)),
        decreases lines.len() - k,
    {
        proof {
            let next = before + lines@.take(k + 1);
            assert(next.drop_last() =~= before + lines@.take(k as int));
            lemma_word_add(
                total_rows(next.drop_last(), width as nat),
                row_count(lines@[k as int].line.text(), width as nat),
            );
        }
        *wrapped_rows = wrapped_rows.wrapping_add(wrapped_row_count(&lines[k], width));
        wrapped.push(&lines[k]);
        k = k + 1;
    }
    assert(before + lines@.take(lines@.len() as int) =~= before + lines@);
}

/// Works out how to insert history lines, which may carry hyperlinks, above the viewport.
pub fn insert_history_hyperlink_lines_with_mode_and_wrap_policy(
    terminal: &TerminalState,
    lines: Vec<HistoryEntry<HyperlinkLine>>,
    mode: InsertHistoryMode,
    wrap_policy: HistoryLineWrapPolicy,
) -> (r: HistoryInsertion)
    ensures
        r.inserts(*terminal, chosen_lines(lines@, wrap_policy), mode),
{
    let area = terminal.viewport_area;

    // Pre-wrap lines for terminal scrollback. Three paths:
    //
    // - URL-only-ish lines are kept intact (no hard newlines inserted) so that terminal emulators
    //   can match them as clickable links. The terminal will character-wrap these lines at the
    //   viewport boundary.
    // - Mixed lines (URL + non-URL prose) are adaptively wrapped so non-URL text still wraps
    //   naturally while URL tokens remain unsplit.
    // - Non-URL lines also flow through adaptive wrapping; behavior is equivalent to standard
    //   wrapping when no URL is present.
    let width: usize = wrap_width(area);
    let mut wrapped: Vec<&HyperlinkLine> = Vec::new();
    let mut wrapped_rows: usize = 0;
    let mut i: usize = 0;
    let ghost mut chosen: Seq<HyperlinkLine> = seq![];
    proof {
        lemma_small_word(0);
    }
    while i < lines.len()
        invariant
            i <= lines.len(),
            chosen == chosen_lines(lines@.take(i as int), wrap_policy),
            wrapped@.len() == chosen.len(),
            forall|i: int| 0 <= i < chosen.len() ==> *(#[trigger] wrapped@[i]) == chosen[i],
            wrapped_rows == word(total_rows(chosen, width as nat)),
        decreases lines.len() - i,
    {
        let entry = &lines[i];
        proof {
            assert(lines@.take(i + 1).drop_last() =~= lines@.take(i as int));
        }
        if keeps_line_intact(wrap_policy, entry.contains_url_like, entry.has_mixed_tokens) {
            proof {
                let next = chosen.push(entry.line);
                assert(next =~= chosen + seq![entry.line]);
                assert(next.drop_last() =~= chosen);
                lemma_word_add(
                    total_rows(chosen, width as nat),
                    row_count(entry.line.line.text(), width as nat),
                );
            }
            wrapped_rows = wrapped_rows.wrapping_add(wrapped_row_count(&entry.line, width));
            wrapped.push(&entry.line);
        } else {
            push_all(&mut wrapped, &mut wrapped_rows, &entry.wrapped, width, Ghost(chosen));
        }
        proof {
            chosen = chosen + entry.chosen(wrap_policy);
        }
        i = i + 1;
    }
    assert(lines@.take(lines@.len() as int) =~= lines@);
    proof {
        lemma_word_as_short(total_rows(chosen, width as nat));
    }
    let wrapped_lines: u16 = #[verifier::truncate]
    (wrapped_rows as u16);
    let rows_inserted: Option<u16> = if wrapped_lines > 0 {
        Some(wrapped_lines)
    } else {
        None
    };
    match mode {
        InsertHistoryMode::ZellijRaw => {
            // The existing viewport is immediately replaced in the same draw pass. Clear it before
            // terminal scrolling can move composer contents into scrollback.
            let clear_after: Option<Position> = Some(area.as_position());
            let (commands, viewport_area) = write_zellij(
                terminal,
                &wrapped,
                wrapped_lines,
                Ghost(chosen),
            );
            HistoryInsertion { clear_after, commands, viewport_area, rows_inserted }
        },
        InsertHistoryMode::Standard => {
            let (commands, viewport_area) = write_standard(
                terminal,
                &wrapped,
                wrapped_lines,
                Ghost(chosen),
            );
            HistoryInsertion { clear_after: None, commands, viewport_area, rows_inserted }
        },
    }
}

/// Lines as lines without hyperlinks.
pub open spec fn plain_lines(lines: Seq<Line>) -> Seq<HyperlinkLine> {
    lines.map_values(|line: Line| HyperlinkLine::plain(line))
}

proof fn lemma_chosen_plain(
    entries: Seq<HistoryEntry<Line>>,
    plain: Seq<HistoryEntry<HyperlinkLine>>,
    wrap_policy: HistoryLineWrapPolicy,
)
    requires
        entries.len() == plain.len(),
        forall|i: int|
            0 <= i < entries.len() ==> (#[trigger] plain[i]).chosen(wrap_policy) == plain_lines(
                entries[i].chosen(wrap_policy),
            ),
    ensures
        chosen_lines(plain, wrap_policy) == plain_lines(chosen_lines(entries, wrap_policy)),
    decreases entries.len(),
{
    if entries.len() > 0 {
        lemma_chosen_plain(entries.drop_last(), plain.drop_last(), wrap_policy);
        assert(plain.last() == plain[plain.len() - 1]);
    }
    assert(chosen_lines(plain, wrap_policy) =~= plain_lines(chosen_lines(entries, wrap_policy)));
}

/// Works out how to insert plain history lines above the viewport.
pub fn insert_history_lines_with_mode_and_wrap_policy(
    terminal: &TerminalState,
    lines: Vec<HistoryEntry<Line>>,
    mode: InsertHistoryMode,
    wrap_policy: HistoryLineWrapPolicy,
) -> (r: HistoryInsertion)
    ensures
        r.inserts(*terminal, plain_lines(chosen_lines(lines@, wrap_policy)), mode),
{
    let mut plain: Vec<HistoryEntry<HyperlinkLine>> = Vec::new();
    for entry in it: lines
        invariant
            it.seq() == lines@,
            plain@.len() == it.index(),
            forall|i: int|
                0 <= i < it.index() ==> (#[trigger] plain@[i]).chosen(wrap_policy) == plain_lines(
                    lines@[i].chosen(wrap_policy),
                ),
    {
        let ghost source = entry;
        let wrapped = plain_hyperlink_lines(entry.wrapped);
        let next = HistoryEntry {
            line: HyperlinkLine { line: entry.line, decorated: None },
            contains_url_like: entry.contains_url_like,
            has_mixed_tokens: entry.has_mixed_tokens,
            wrapped,
        };
        assert(next.chosen(wrap_policy) =~= plain_lines(source.chosen(wrap_policy)));
        plain.push(next);
    }
    proof {
        lemma_chosen_plain(lines@, plain@, wrap_policy);
    }
    insert_history_hyperlink_lines_with_mode_and_wrap_policy(terminal, plain, mode, wrap_policy)
}

/// Works out how to insert plain history lines above the viewport of a terminal that honours
/// scroll regions.
pub fn insert_history_lines_with_wrap_policy(
    terminal: &TerminalState,
    lines: Vec<HistoryEntry<Line>>,
    wrap_policy: HistoryLineWrapPolicy,
) -> (r: HistoryInsertion)
    ensures
        r.inserts(
            *terminal,
            plain_lines(chosen_lines(lines@, wrap_policy)),
            InsertHistoryMode::Standard,
        ),
{
    insert_history_lines_with_mode_and_wrap_policy(
        terminal,
        lines,
        InsertHistoryMode::Standard,
        wrap_policy,
    )
}

/// Works out how to insert `lines`, wrapped at word boundaries, above the viewport.
pub fn insert_history_lines(
    terminal: &TerminalState,
    lines: Vec<HistoryEntry<Line>>,
) -> (r: HistoryInsertion)
    ensures
        r.inserts(
            *terminal,
            plain_lines(chosen_lines(lines@, HistoryLineWrapPolicy::PreWrap)),
            InsertHistoryMode::Standard,
        ),
{
    insert_history_lines_with_wrap_policy(terminal, lines, HistoryLineWrapPolicy::PreWrap)
}

} // verus!
