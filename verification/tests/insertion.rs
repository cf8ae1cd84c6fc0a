//! Whole insertions: the commands, the viewport's new place, and what a terminal makes of them.

use insert_history::ansi::{ResetScrollRegion, SetScrollRegion};
use insert_history::command::{ansi_text, Command};
use insert_history::geometry::{Position, Rect, Size};
use insert_history::insert::{
    insert_history_lines, insert_history_lines_with_mode_and_wrap_policy, keeps_line_intact,
    wrap_width, HistoryEntry, HistoryInsertion, HistoryLineWrapPolicy, InsertHistoryMode,
    TerminalState,
};
use insert_history::style::Style;
use insert_history::text::{Line, Span};

fn line(content: &str) -> Line {
    Line {
        spans: vec![Span {
            content: content.to_string(),
            style: Style::default(),
        }],
        style: Style::default(),
    }
}

fn entry(content: &str) -> HistoryEntry<Line> {
    HistoryEntry {
        line: line(content),
        contains_url_like: false,
        has_mixed_tokens: false,
        wrapped: vec![line(content)],
    }
}

fn state(size: (u16, u16), top: u16, height: u16) -> TerminalState {
    TerminalState {
        screen_size: Size {
            width: size.0,
            height: size.1,
        },
        viewport_area: Rect {
            x: 0,
            y: top,
            width: size.0,
            height,
        },
        last_known_cursor_pos: Position { x: 3, y: 2 },
    }
}

fn insert(
    state: &TerminalState,
    mode: InsertHistoryMode,
    contents: &[&str],
) -> HistoryInsertion {
    insert_history_lines_with_mode_and_wrap_policy(
        state,
        contents.iter().map(|content| entry(content)).collect(),
        mode,
        HistoryLineWrapPolicy::Terminal,
    )
}

fn positions(commands: &[Command]) -> Vec<&Command> {
    commands
        .iter()
        .filter(|command| {
            !matches!(
                command,
                Command::SetColors(..)
                    | Command::SetForegroundColor(_)
                    | Command::SetBackgroundColor(_)
                    | Command::SetAttribute(_)
            )
        })
        .collect()
}

struct Terminal {
    parser: vt100::Parser,
    state: TerminalState,
}

impl Terminal {
    /// A terminal whose rows hold their numbers.
    fn numbered(size: (u16, u16), top: u16, height: u16) -> Self {
        let mut parser = vt100::Parser::new(size.1, size.0, 1000);
        for row in 0..size.1 {
            parser.process(format!("\x1b[{};1Hrow{row}", row + 1).as_bytes());
        }
        Terminal {
            parser,
            state: state(size, top, height),
        }
    }

    fn insert(&mut self, mode: InsertHistoryMode, contents: &[&str]) {
        let insertion = insert(&self.state, mode, contents);
        if let Some(position) = insertion.clear_after {
            let go = ansi_text(&vec![Command::MoveTo(position.x, position.y)]);
            self.parser.process(go.as_bytes());
            self.parser.process(b"\x1b[J");
        }
        self.parser
            .process(ansi_text(&insertion.commands).as_bytes());
        if let Some(area) = insertion.viewport_area {
            self.state.viewport_area = area;
        }
    }

    fn rows(&self) -> Vec<String> {
        let width = self.state.screen_size.width;
        self.parser.screen().rows(0, width).collect()
    }
}

#[test]
fn the_viewport_width_is_the_wrap_width() {
    let area = Rect {
        x: 0,
        y: 0,
        width: 80,
        height: 1,
    };
    assert_eq!(wrap_width(area), 80);
    assert_eq!(wrap_width(Rect { width: 0, ..area }), 1);
}

#[test]
fn only_bare_urls_and_terminal_wrapping_keep_a_line_intact() {
    for url in [false, true] {
        for mixed in [false, true] {
            assert!(keeps_line_intact(HistoryLineWrapPolicy::Terminal, url, mixed));
            assert_eq!(
                keeps_line_intact(HistoryLineWrapPolicy::PreWrap, url, mixed),
                url && !mixed
            );
        }
    }
}

#[test]
fn standard_insertion_makes_room_below() {
    let before = state((20, 10), 4, 3);
    let insertion = insert(&before, InsertHistoryMode::Standard, &["one", "two"]);
    assert_eq!(insertion.clear_after, None);
    assert_eq!(insertion.rows_inserted, Some(2));
    assert_eq!(
        insertion.viewport_area,
        Some(Rect {
            y: 6,
            ..before.viewport_area
        })
    );
    assert_eq!(
        positions(&insertion.commands),
        vec![
            &Command::SetScrollRegion(SetScrollRegion(5..10)),
            &Command::MoveTo(0, 4),
            &Command::ReverseIndex,
            &Command::ReverseIndex,
            &Command::ResetScrollRegion(ResetScrollRegion),
            &Command::SetScrollRegion(SetScrollRegion(1..6)),
            &Command::MoveTo(0, 3),
            &Command::LineBreak,
            &Command::ClearUntilNewLine,
            &Command::Print("one".to_string()),
            &Command::LineBreak,
            &Command::ClearUntilNewLine,
            &Command::Print("two".to_string()),
            &Command::ResetScrollRegion(ResetScrollRegion),
            &Command::MoveTo(3, 2),
        ]
    );
}

#[test]
fn standard_insertion_moves_the_viewport_no_further_than_the_bottom() {
    let before = state((20, 10), 4, 3);
    let insertion = insert(
        &before,
        InsertHistoryMode::Standard,
        &["1", "2", "3", "4", "5"],
    );
    assert_eq!(insertion.rows_inserted, Some(5));
    assert_eq!(insertion.viewport_area.map(|area| area.y), Some(7));
    let ups = insertion
        .commands
        .iter()
        .filter(|command| matches!(command, Command::ReverseIndex))
        .count();
    assert_eq!(ups, 3);
}

#[test]
fn standard_insertion_leaves_a_bottom_viewport_where_it_is() {
    let before = state((20, 10), 7, 3);
    let insertion = insert(&before, InsertHistoryMode::Standard, &["one"]);
    assert_eq!(insertion.viewport_area, None);
    assert_eq!(
        positions(&insertion.commands)[..2],
        [
            &Command::SetScrollRegion(SetScrollRegion(1..7)),
            &Command::MoveTo(0, 6),
        ]
    );
}

#[test]
fn a_screen_of_unknown_size_is_no_room() {
    let before = state((0, 0), 5, 1);
    let insertion = insert(&before, InsertHistoryMode::Standard, &["ab"]);
    assert_eq!(insertion.viewport_area, None);
    // A viewport without columns wraps at one.
    assert_eq!(insertion.rows_inserted, Some(2));
    let insertion = insert(&before, InsertHistoryMode::ZellijRaw, &["ab"]);
    assert_eq!(insertion.viewport_area.map(|area| area.y), Some(0));
}

#[test]
fn no_lines_are_no_rows() {
    for (top, moves) in [(4, true), (7, false)] {
        let before = state((20, 10), top, 3);
        let insertion = insert_history_lines(&before, vec![]);
        assert_eq!(insertion.rows_inserted, None);
        // The viewport's area is set again wherever there is room below it.
        assert_eq!(insertion.viewport_area.is_some(), moves);
        assert!(insertion.viewport_area.unwrap_or(before.viewport_area) == before.viewport_area);
        let insertion = insert(&before, InsertHistoryMode::ZellijRaw, &[]);
        assert_eq!(insertion.rows_inserted, None);
        assert_eq!(insertion.viewport_area, None);
    }
}

#[test]
fn wrapped_lines_are_written_in_place_of_the_whole() {
    let before = state((20, 10), 7, 3);
    let whole = HistoryEntry {
        line: line("one two"),
        contains_url_like: true,
        has_mixed_tokens: true,
        wrapped: vec![line("one"), line("two")],
    };
    let insertion = insert_history_lines(&before, vec![whole]);
    assert_eq!(insertion.rows_inserted, Some(2));
    assert!(insertion.commands.contains(&Command::Print("one".to_string())));
    assert!(insertion.commands.contains(&Command::Print("two".to_string())));
    let bare = HistoryEntry {
        line: line("one two"),
        contains_url_like: true,
        has_mixed_tokens: false,
        wrapped: vec![line("one"), line("two")],
    };
    let insertion = insert_history_lines(&before, vec![bare]);
    assert_eq!(insertion.rows_inserted, Some(1));
    assert!(insertion
        .commands
        .contains(&Command::Print("one two".to_string())));
}

#[test]
fn zellij_insertion_appends_through_the_terminal() {
    let before = state((20, 10), 4, 2);
    let insertion = insert(&before, InsertHistoryMode::ZellijRaw, &["one", "two"]);
    assert_eq!(insertion.clear_after, Some(Position { x: 0, y: 4 }));
    assert_eq!(insertion.rows_inserted, Some(2));
    assert_eq!(insertion.viewport_area.map(|area| area.y), Some(6));
    assert_eq!(
        positions(&insertion.commands),
        vec![
            &Command::MoveTo(0, 4),
            &Command::ClearUntilNewLine,
            &Command::Print("one".to_string()),
            &Command::LineBreak,
            &Command::ClearUntilNewLine,
            &Command::Print("two".to_string()),
            &Command::LineBreak,
            &Command::ClearUntilNewLine,
            &Command::LineBreak,
            &Command::ClearUntilNewLine,
            &Command::MoveTo(3, 2),
        ]
    );
}

#[test]
fn zellij_viewport_stays_on_the_screen() {
    let before = state((20, 10), 7, 3);
    let insertion = insert(&before, InsertHistoryMode::ZellijRaw, &["one"]);
    assert_eq!(insertion.viewport_area, None);
    let before = state((20, 10), 8, 3);
    let insertion = insert(&before, InsertHistoryMode::ZellijRaw, &["one"]);
    assert_eq!(insertion.viewport_area.map(|area| area.y), Some(7));
    let before = state((20, 10), 0, 30);
    let insertion = insert(&before, InsertHistoryMode::ZellijRaw, &["one"]);
    assert_eq!(insertion.viewport_area, None);
}

#[test]
fn rows_are_counted_modulo_the_coordinates() {
    let before = state((1, 10), 4, 2);
    let many = "a".repeat(65536);
    let insertion = insert(&before, InsertHistoryMode::Standard, &[many.as_str()]);
    assert_eq!(insertion.rows_inserted, None);
    let insertion = insert(&before, InsertHistoryMode::Standard, &[many.as_str(), "bc"]);
    assert_eq!(insertion.rows_inserted, Some(2));
}

#[test]
fn history_goes_between_what_was_above_and_the_viewport() {
    let mut term = Terminal::numbered((10, 8), 3, 2);
    term.insert(InsertHistoryMode::Standard, &["one", "twotwotwotwo"]);
    assert_eq!(term.state.viewport_area.y, 6);
    assert_eq!(
        term.rows(),
        vec!["row0", "row1", "row2", "one", "twotwotwot", "wo", "row3", "row4"]
    );
    // The cursor is back where it was.
    assert_eq!(term.parser.screen().cursor_position(), (2, 3));

    // With no room left, what is above scrolls up.
    term.insert(InsertHistoryMode::Standard, &["three", "four"]);
    assert_eq!(term.state.viewport_area.y, 6);
    assert_eq!(
        term.rows(),
        vec!["row2", "one", "twotwotwot", "wo", "three", "four", "row3", "row4"]
    );
    assert_eq!(term.parser.screen().cursor_position(), (2, 3));
}

#[test]
fn a_viewport_at_the_top_makes_way_for_history() {
    let mut term = Terminal::numbered((10, 8), 0, 2);
    term.insert(InsertHistoryMode::Standard, &["one", "two"]);
    assert_eq!(term.state.viewport_area.y, 2);
    assert_eq!(
        term.rows(),
        vec!["one", "two", "row0", "row1", "row2", "row3", "row4", "row5"]
    );
}

#[test]
fn a_region_of_one_row_is_not_taken() {
    // Only one row is above the viewport, so that history is written over it.
    let mut term = Terminal::numbered((10, 4), 1, 3);
    term.insert(InsertHistoryMode::Standard, &["one"]);
    assert_eq!(term.rows(), vec!["row0", "one", "row2", "row3"]);
}

#[test]
fn a_viewport_without_rows_on_the_last_row_makes_way() {
    let mut term = Terminal::numbered((10, 4), 3, 0);
    term.insert(InsertHistoryMode::Standard, &["one", "two"]);
    assert_eq!(term.state.viewport_area.y, 4);
    assert_eq!(term.rows(), vec!["row1", "row2", "one", "two"]);
}

#[test]
fn zellij_history_goes_below_what_was_above() {
    let mut term = Terminal::numbered((10, 8), 3, 2);
    term.insert(InsertHistoryMode::ZellijRaw, &["one", "twotwotwotwo"]);
    assert_eq!(term.state.viewport_area.y, 6);
    assert_eq!(
        term.rows(),
        vec!["row0", "row1", "row2", "one", "twotwotwot", "wo", "", ""]
    );
    assert_eq!(term.parser.screen().cursor_position(), (2, 3));
    term.insert(InsertHistoryMode::ZellijRaw, &["three", "four"]);
    assert_eq!(term.state.viewport_area.y, 6);
    assert_eq!(
        term.rows(),
        vec!["row2", "one", "twotwotwot", "wo", "three", "four", "", ""]
    );
    // What scrolled off is in the scrollback.
    term.parser.set_scrollback(2);
    assert_eq!(
        term.rows(),
        vec!["row0", "row1", "row2", "one", "twotwotwot", "wo", "three", "four"]
    );
}

#[test]
fn nothing_to_insert_scrolls_a_full_screen_through_the_terminal() {
    let mut term = Terminal::numbered((10, 4), 2, 1);
    term.insert(InsertHistoryMode::ZellijRaw, &[]);
    assert_eq!(term.rows(), vec!["row0", "row1", "", ""]);
    let mut term = Terminal::numbered((10, 4), 2, 2);
    term.insert(InsertHistoryMode::ZellijRaw, &[]);
    assert_eq!(term.rows(), vec!["row1", "", "", ""]);
}
