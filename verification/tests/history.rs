//! History insertion on an emulated terminal.

use crossterm::style::{
    Attribute, Color as CColor, Print, SetAttribute, SetBackgroundColor, SetForegroundColor,
};
use crossterm::Command as _;
use insert_history::command::{ansi_text, Command};
use insert_history::geometry::{Position, Rect, Size};
use insert_history::indent::leading_whitespace_prefix;
use insert_history::insert::{
    insert_history_hyperlink_lines_with_mode_and_wrap_policy, insert_history_lines,
    insert_history_lines_with_mode_and_wrap_policy, insert_history_lines_with_wrap_policy,
    HistoryEntry, HistoryInsertion, HistoryLineWrapPolicy, InsertHistoryMode, TerminalState,
};
use insert_history::rows::wrapped_row_count;
use insert_history::spans::{write_history_line, write_spans};
use insert_history::style::{Color, Modifier, Style, BOLD};
use insert_history::text::{plain_hyperlink_lines, HyperlinkLine, Line, Span};

fn raw(content: &str) -> Span {
    Span {
        content: content.to_string(),
        style: Style::default(),
    }
}

fn colored(content: &str, color: Color) -> Span {
    Span {
        content: content.to_string(),
        style: Style {
            fg: Some(color),
            ..Style::default()
        },
    }
}

fn line_of(spans: Vec<Span>) -> Line {
    Line {
        spans,
        style: Style::default(),
    }
}

fn line(content: &str) -> Line {
    line_of(vec![raw(content)])
}

fn green(spans: Vec<Span>) -> Line {
    Line {
        spans,
        style: Style {
            fg: Some(Color::Green),
            ..Style::default()
        },
    }
}

/// A line of prose and what wrapping makes of it.
fn prose(line: Line, wrapped: Vec<Line>) -> HistoryEntry<Line> {
    HistoryEntry {
        line,
        contains_url_like: false,
        has_mixed_tokens: false,
        wrapped,
    }
}

/// A line of prose that fits on one row.
fn short_prose(content: &str) -> HistoryEntry<Line> {
    prose(line(content), vec![line(content)])
}

/// A line that is nothing but a URL and perhaps a decoration in front of it.
fn url_only(line: Line) -> HistoryEntry<Line> {
    HistoryEntry {
        line,
        contains_url_like: true,
        has_mixed_tokens: false,
        wrapped: vec![],
    }
}

/// A line with a URL among other words and what wrapping makes of it.
fn mixed(line: Line, wrapped: Vec<Line>) -> HistoryEntry<Line> {
    HistoryEntry {
        line,
        contains_url_like: true,
        has_mixed_tokens: true,
        wrapped,
    }
}

/// A line that is left to the terminal to wrap.
fn unbroken(content: &str) -> HistoryEntry<Line> {
    prose(line(content), vec![])
}

/// The sequence without the ones that set or reset scroll margins.
fn without_margins(text: &str) -> String {
    let mut out = String::new();
    let mut rest = text;
    while let Some(at) = rest.find("\x1b[") {
        out.push_str(&rest[..at]);
        let tail = &rest[at + 2..];
        let end = tail
            .find(|c: char| ('\x40'..='\x7e').contains(&c))
            .expect("final byte")
            + 1;
        if !tail[..end].ends_with('r') {
            out.push_str("\x1b[");
            out.push_str(&tail[..end]);
        }
        rest = &tail[end..];
    }
    out.push_str(rest);
    out
}

struct Terminal {
    parser: vt100::Parser,
    state: TerminalState,
    honours_margins: bool,
    raw: String,
    rows_inserted: Vec<u16>,
}

impl Terminal {
    fn new(width: u16, height: u16, viewport: Rect) -> Self {
        Terminal {
            parser: vt100::Parser::new(height, width, 1000),
            state: TerminalState {
                screen_size: Size { width, height },
                viewport_area: viewport,
                last_known_cursor_pos: Position { x: 0, y: 0 },
            },
            honours_margins: true,
            raw: String::new(),
            rows_inserted: Vec::new(),
        }
    }

    /// With a viewport of one row at the bottom of the screen.
    fn with_bottom_viewport(width: u16, height: u16) -> Self {
        Self::new(
            width,
            height,
            Rect {
                x: 0,
                y: height - 1,
                width,
                height: 1,
            },
        )
    }

    fn send(&mut self, text: &str) {
        self.raw.push_str(text);
        if self.honours_margins {
            self.parser.process(text.as_bytes());
        } else {
            self.parser.process(without_margins(text).as_bytes());
        }
    }

    fn apply(&mut self, insertion: HistoryInsertion) {
        if let Some(position) = insertion.clear_after {
            let go = ansi_text(&vec![Command::MoveTo(position.x, position.y)]);
            self.send(&go);
            self.send("\x1b[J");
        }
        let text = ansi_text(&insertion.commands);
        self.send(&text);
        if let Some(area) = insertion.viewport_area {
            self.state.viewport_area = area;
        }
        if let Some(rows) = insertion.rows_inserted {
            self.rows_inserted.push(rows);
        }
    }

    fn insert(&mut self, lines: Vec<HistoryEntry<Line>>) {
        let insertion = insert_history_lines(&self.state, lines);
        self.apply(insertion);
    }

    fn rows(&self) -> Vec<String> {
        let width = self.state.screen_size.width;
        self.parser.screen().rows(0, width).collect()
    }

    fn top(&self) -> usize {
        usize::from(self.state.viewport_area.y)
    }

    fn fg(&self, row: u16, col: u16) -> vt100::Color {
        self.parser.screen().cell(row, col).expect("cell").fgcolor()
    }

    fn contents(&self, row: u16, col: u16) -> String {
        self.parser.screen().cell(row, col).expect("cell").contents()
    }
}

fn contains_decstbm(bytes: &[u8]) -> bool {
    let mut i = 0;
    while i + 1 < bytes.len() {
        if bytes[i] == 0x1b && bytes[i + 1] == b'[' {
            let mut j = i + 2;
            while j < bytes.len() && !(0x40..=0x7e).contains(&bytes[j]) {
                j += 1;
            }
            if j < bytes.len() && bytes[j] == b'r' {
                return true;
            }
            i = j + 1;
        } else {
            i += 1;
        }
    }
    false
}

fn contains_reverse_index(bytes: &[u8]) -> bool {
    bytes.windows(2).any(|w| w == [0x1b, b'M'])
}

#[test]
fn writes_bold_then_regular_spans() {
    crossterm::style::force_color_output(true);
    let bold = Span {
        content: "A".to_string(),
        style: Style {
            add_modifier: Modifier { bits: BOLD },
            ..Style::default()
        },
    };
    let spans = vec![bold, raw("B")];

    let mut commands: Vec<Command> = Vec::new();
    write_spans(&mut commands, &spans);
    let actual = ansi_text(&commands);

    let mut expected = String::new();
    SetAttribute(Attribute::Bold).write_ansi(&mut expected).unwrap();
    Print("A").write_ansi(&mut expected).unwrap();
    SetAttribute(Attribute::NormalIntensity).write_ansi(&mut expected).unwrap();
    Print("B").write_ansi(&mut expected).unwrap();
    SetForegroundColor(CColor::Reset).write_ansi(&mut expected).unwrap();
    SetBackgroundColor(CColor::Reset).write_ansi(&mut expected).unwrap();
    SetAttribute(Attribute::Reset).write_ansi(&mut expected).unwrap();

    assert_eq!(actual, expected);
}

#[test]
fn writes_semantic_web_link_without_changing_visible_text() {
    let destination = "https://example.com/long/path";
    let link = format!("\x1b]8;;{destination}\x07{destination}\x1b]8;;\x07");
    let line = HyperlinkLine {
        line: line(destination),
        decorated: Some(vec![raw(&link)]),
    };
    let mut commands: Vec<Command> = Vec::new();
    write_history_line(&mut commands, &line, /*wrap_width*/ 80);

    let output = ansi_text(&commands);
    assert!(output.contains("\x1b]8;;https://example.com/long/path\x07"));
    assert_eq!(line.line.spans[0].content, destination);

    // The hyperlink takes no space: what a terminal shows is the address alone.
    let mut parser = vt100::Parser::new(4, 80, 0);
    parser.process(output.as_bytes());
    assert_eq!(parser.screen().contents(), destination);
}

#[test]
fn vt100_blockquote_line_emits_green_fg() {
    crossterm::style::force_color_output(true);
    let width: u16 = 40;
    let height: u16 = 10;
    let mut term = Terminal::with_bottom_viewport(width, height);

    let quote = || green(vec![raw("> "), raw("Hello world")]);
    term.insert(vec![prose(quote(), vec![quote()])]);

    let mut saw_colored = false;
    'outer: for row in 0..height {
        for col in 0..width {
            if let Some(cell) = term.parser.screen().cell(row, col) {
                if cell.has_contents() && cell.fgcolor() != vt100::Color::Default {
                    saw_colored = true;
                    break 'outer;
                }
            }
        }
    }
    assert!(
        saw_colored,
        "expected at least one colored cell in vt100 output"
    );
    assert_eq!(term.fg(height - 2, 0), vt100::Color::Idx(2));
}

#[test]
fn vt100_blockquote_wrap_preserves_color_on_all_wrapped_lines() {
    crossterm::style::force_color_output(true);
    let width: u16 = 20;
    let height: u16 = 8;
    let mut term = Terminal::with_bottom_viewport(width, height);

    let quote = green(vec![
        raw("> "),
        raw("This is a long quoted line that should wrap"),
    ]);
    let wrapped = vec![
        green(vec![raw("> "), raw("This is a long")]),
        green(vec![raw("quoted line that")]),
        green(vec![raw("should wrap")]),
    ];
    term.insert(vec![prose(quote, wrapped)]);

    let mut non_empty_rows: Vec<u16> = Vec::new();
    for row in 0..height {
        let mut any = false;
        for col in 0..width {
            let contents = term.contents(row, col);
            if !contents.is_empty() && contents != "\0" && contents != " " {
                any = true;
                break;
            }
        }
        if any {
            non_empty_rows.push(row);
        }
    }
    assert!(
        non_empty_rows.len() >= 2,
        "expected wrapped output to span >=2 rows, got {non_empty_rows:?}",
    );
    for row in non_empty_rows {
        for col in 0..width {
            let contents = term.contents(row, col);
            if !contents.is_empty() && contents != " " {
                assert!(
                    term.fg(row, col) != vt100::Color::Default,
                    "expected non-default fg on row {row} col {col}, got {:?}",
                    term.fg(row, col)
                );
            }
        }
    }
}

#[test]
fn vt100_colored_prefix_then_plain_text_resets_color() {
    crossterm::style::force_color_output(true);
    let width: u16 = 40;
    let height: u16 = 6;
    let mut term = Terminal::with_bottom_viewport(width, height);

    let item = || line_of(vec![colored("1. ", Color::LightBlue), raw("Hello world")]);
    term.insert(vec![prose(item(), vec![item()])]);

    'rows: for row in 0..height {
        let mut has_text = false;
        for col in 0..width {
            let contents = term.contents(row, col);
            if !contents.is_empty() && contents != " " {
                has_text = true;
                break;
            }
        }
        if !has_text {
            continue;
        }
        for col in 0..3 {
            assert!(
                term.fg(row, col) != vt100::Color::Default,
                "expected colored prefix at col {col}, got {:?}",
                term.fg(row, col)
            );
        }
        for col in 3..(3 + "Hello world".len() as u16) {
            assert_eq!(
                term.fg(row, col),
                vt100::Color::Default,
                "expected default color for plain text at col {col}, got {:?}",
                term.fg(row, col)
            );
        }
        break 'rows;
    }
}

#[test]
fn vt100_deep_nested_mixed_list_third_level_marker_is_colored() {
    crossterm::style::force_color_output(true);
    // Five levels: ordered, unordered, ordered, unordered, unordered.
    let item = |indent: &str, marker: &str, text: &str| {
        let build = || line_of(vec![raw(indent), colored(marker, Color::LightBlue), raw(text)]);
        prose(build(), vec![build()])
    };
    let width: u16 = 60;
    let height: u16 = 12;
    let mut term = Terminal::with_bottom_viewport(width, height);
    term.insert(vec![
        item("", "1. ", "First"),
        item("   ", "- ", "Second level"),
        item("     ", "1. ", "Third level (ordered)"),
        item("        ", "- ", "Fourth level (bullet)"),
        item("          ", "- ", "Fifth level to test indent consistency"),
    ]);

    let rows = term.rows();
    let needle = "1. Third level (ordered)";
    let row_idx = rows
        .iter()
        .position(|r| r.contains(needle))
        .unwrap_or_else(|| {
            panic!("expected to find row containing {needle:?}, have rows: {rows:?}")
        });
    let col_start = rows[row_idx].find(needle).unwrap() as u16;
    for c in [col_start, col_start + 1] {
        assert!(
            term.fg(row_idx as u16, c) != vt100::Color::Default,
            "expected colored 3rd-level marker at row {row_idx} col {c}",
        );
    }
    let content_col = col_start + 3;
    assert_eq!(
        term.fg(row_idx as u16, content_col),
        vt100::Color::Default,
        "expected default color for 3rd-level content at row {row_idx} col {content_col}",
    );
}

#[test]
fn vt100_prefixed_url_keeps_prefix_and_url_on_same_row() {
    let mut term = Terminal::with_bottom_viewport(48, 8);
    let url = "http://a-long-url.com/this/that/blablablab/new.aspx/many_people_like_how";
    term.insert(vec![url_only(line_of(vec![raw("  │ "), raw(url)]))]);

    let rows = term.rows();
    assert!(
        rows.iter().any(|r| r.contains("│ http://a-long-url.com")),
        "expected prefix and URL on same row, rows: {rows:?}"
    );
    assert!(
        !rows.iter().any(|r| r.trim_end() == "│"),
        "unexpected orphan prefix row, rows: {rows:?}"
    );
}

#[test]
fn vt100_prefixed_url_like_without_scheme_keeps_prefix_and_token_on_same_row() {
    let mut term = Terminal::with_bottom_viewport(48, 8);
    let url_like = "example.test/api/v1/projects/alpha-team/releases/2026-02-17/builds/1234567890";
    term.insert(vec![url_only(line_of(vec![raw("  │ "), raw(url_like)]))]);

    let rows = term.rows();
    assert!(
        rows.iter()
            .any(|r| r.contains("│ example.test/api/v1/projects")),
        "expected prefix and URL-like token on same row, rows: {rows:?}"
    );
    assert!(
        !rows.iter().any(|r| r.trim_end() == "│"),
        "unexpected orphan prefix row, rows: {rows:?}"
    );
}

#[test]
fn vt100_prefixed_mixed_url_line_wraps_suffix_words_together() {
    let mut term = Terminal::with_bottom_viewport(24, 10);
    let url = "https://example.test/path/abcdef12345";
    let whole = line_of(vec![raw("  │ "), raw("see "), raw(url), raw(" tail words")]);
    let wrapped = vec![
        line_of(vec![raw("  │ "), raw("see")]),
        line_of(vec![raw("  "), raw(url)]),
        line_of(vec![raw("  "), raw("tail words")]),
    ];
    term.insert(vec![mixed(whole, wrapped)]);

    let rows = term.rows();
    assert!(
        rows.iter().any(|r| r.contains("│ see")),
        "expected prefixed prose before URL, rows: {rows:?}"
    );
    assert!(
        rows.iter().any(|r| r.contains("tail words")),
        "expected suffix words to wrap as a phrase, rows: {rows:?}"
    );
}

/// Lines that were wrapped at word boundaries, those after the first with the indentation of
/// `whole` in front.
fn indented(whole: &Line, pieces: &[&str]) -> Vec<Line> {
    let mut lines = Vec::new();
    for (index, piece) in pieces.iter().enumerate() {
        let mut spans = if index == 0 {
            Vec::new()
        } else {
            leading_whitespace_prefix(whole).spans
        };
        spans.push(raw(piece));
        lines.push(line_of(spans));
    }
    lines
}

#[test]
fn vt100_prefixed_mixed_url_line_preserves_prefix_on_wrapped_rows() {
    let mut term = Terminal::with_bottom_viewport(24, 10);
    let whole = line_of(vec![
        raw("  "),
        raw("see https://example.com and enough trailing prose to force another wrapped row"),
    ]);
    let wrapped = indented(
        &whole,
        &[
            "  see",
            "https://example.com",
            "and enough trailing",
            "prose to force another",
            "wrapped row",
        ],
    );
    term.insert(vec![mixed(whole, wrapped)]);

    let rows = term.rows();
    let continuation_row = rows
        .iter()
        .find(|row| row.contains("prose to force another"))
        .unwrap_or_else(|| panic!("expected continuation row in screen rows: {rows:?}"));
    assert!(
        continuation_row.starts_with("  "),
        "expected wrapped continuation row to keep the original prefix, rows: {rows:?}"
    );
}

#[test]
fn vt100_prefixed_non_url_line_preserves_prefix_on_wrapped_rows() {
    let mut term = Terminal::with_bottom_viewport(32, 10);
    let whole = line(
        "      dog while this deliberately long string tests code block scrolling versus soft wrapping",
    );
    let wrapped = indented(
        &whole,
        &[
            "      dog while this",
            "deliberately long string",
            "tests code block scrolling",
            "versus soft wrapping",
        ],
    );
    term.insert(vec![prose(whole, wrapped)]);

    let rows = term.rows();
    let continuation_row = rows
        .iter()
        .find(|row| row.contains("tests code block scrolling"))
        .unwrap_or_else(|| panic!("expected continuation row in screen rows: {rows:?}"));
    assert!(
        continuation_row.starts_with("      "),
        "expected wrapped continuation row to keep the original prefix, rows: {rows:?}"
    );
}

#[test]
fn vt100_terminal_wrap_policy_does_not_pre_wrap_long_paragraph() {
    let mut term = Terminal::with_bottom_viewport(20, 8);
    let insertion = insert_history_lines_with_wrap_policy(
        &term.state,
        vec![unbroken("alpha beta gamma delta epsilon zeta")],
        HistoryLineWrapPolicy::Terminal,
    );
    term.apply(insertion);

    let rows = term.rows();
    assert!(
        rows.iter()
            .any(|row| row.trim_end() == "alpha beta gamma del"),
        "expected terminal soft-wrap instead of word pre-wrap, rows: {rows:?}"
    );
}

#[test]
fn vt100_zellij_raw_insert_keeps_soft_wrapped_tail_above_viewport() {
    let width: u16 = 20;
    let height: u16 = 8;
    let mut term = Terminal::new(
        width,
        height,
        Rect {
            x: 0,
            y: height - 2,
            width,
            height: 2,
        },
    );
    let insertion = insert_history_lines_with_mode_and_wrap_policy(
        &term.state,
        vec![unbroken("raw-start-aaaaaaaaaaaaaaaaaaaaaaaa-tail-must-remain")],
        InsertHistoryMode::ZellijRaw,
        HistoryLineWrapPolicy::Terminal,
    );
    term.apply(insertion);

    let rows = term.rows();
    assert_eq!(
        rows,
        vec![
            "",
            "",
            "",
            "raw-start-aaaaaaaaaa",
            "aaaaaaaaaaaaaa-tail-",
            "must-remain",
            "",
            "",
        ]
    );
    let history_rows = rows[..term.top()]
        .iter()
        .map(|row| row.trim_end())
        .collect::<String>();
    let viewport_rows = rows[term.top()..].join("\n");
    assert!(
        history_rows.contains("tail-must-remain"),
        "expected wrapped raw tail above the viewport, rows: {rows:?}"
    );
    assert!(
        !viewport_rows.contains("tail-must-remain"),
        "raw tail must not be written through the viewport, rows: {rows:?}"
    );
}

#[test]
fn vt100_zellij_raw_replay_keeps_overflowing_soft_wrapped_tail_above_viewport() {
    let width: u16 = 20;
    let height: u16 = 8;
    let mut term = Terminal::new(
        width,
        height,
        Rect {
            x: 0,
            y: 0,
            width,
            height: 2,
        },
    );
    let content = format!("raw-start-{}tail-must-remain", "a".repeat(130));
    let insertion = insert_history_lines_with_mode_and_wrap_policy(
        &term.state,
        vec![unbroken(&content)],
        InsertHistoryMode::ZellijRaw,
        HistoryLineWrapPolicy::Terminal,
    );
    term.apply(insertion);

    let rows = term.rows();
    assert_eq!(term.top(), 6);
    assert_eq!(
        rows,
        vec![
            "aaaaaaaaaaaaaaaaaaaa",
            "aaaaaaaaaaaaaaaaaaaa",
            "aaaaaaaaaaaaaaaaaaaa",
            "aaaaaaaaaaaaaaaaaaaa",
            "aaaaaaaaaaaaaaaaaaaa",
            "tail-must-remain",
            "",
            "",
        ]
    );
    let history_rows = rows[..term.top()]
        .iter()
        .map(|row| row.trim_end())
        .collect::<String>();
    let viewport_rows = rows[term.top()..].join("\n");
    assert!(
        history_rows.contains("tail-must-remain"),
        "expected overflowing raw tail above the viewport, rows: {rows:?}"
    );
    assert!(
        !viewport_rows.contains("tail-must-remain"),
        "overflowing raw tail must not be written through the viewport, rows: {rows:?}"
    );
}

#[test]
fn vt100_unwrapped_url_like_clears_continuation_rows() {
    let mut term = Terminal::with_bottom_viewport(20, 10);
    let filler = "XXXXXXXXXXXXXXXXXXXXXXXXXXXXXXXXXXXXXXXXXXXXXXXXXXXXXXXX";
    let filler_line = line_of(vec![raw("  │ "), raw(filler)]);
    let wrapped = vec![
        line_of(vec![raw("  │ "), raw(&filler[..16])]),
        line_of(vec![raw("  "), raw(&filler[..18])]),
        line_of(vec![raw("  "), raw(&filler[..18])]),
        line_of(vec![raw("  "), raw(&filler[..4])]),
    ];
    term.insert(vec![prose(filler_line, wrapped)]);

    let url_like = "example.test/api/v1/short";
    term.insert(vec![url_only(line_of(vec![raw("  │ "), raw(url_like)]))]);

    let rows = term.rows();
    let first_row = rows
        .iter()
        .position(|row| row.contains("│ example.test/api"))
        .unwrap_or_else(|| panic!("expected url-like first row in screen rows: {rows:?}"));
    assert!(
        first_row + 1 < rows.len(),
        "expected a continuation row for wrapped URL-like line, rows: {rows:?}"
    );
    let continuation_row = rows[first_row + 1].trim_end();
    assert!(
        continuation_row.contains("/v1/short") || continuation_row.contains("short"),
        "expected continuation row to contain wrapped URL-like tail, got: {continuation_row:?}"
    );
    assert!(
        !continuation_row.contains('X'),
        "expected continuation row to be cleared before writing wrapped URL-like content, got: {continuation_row:?}"
    );
}

#[test]
fn vt100_long_unwrapped_url_does_not_insert_extra_blank_gap_before_content() {
    let mut term = Terminal::with_bottom_viewport(56, 24);
    let prompt = "Write a long URL as output for testing";
    term.insert(vec![short_prose(prompt)]);

    let long_url = format!(
        "https://example.test/api/v1/projects/alpha-team/releases/2026-02-17/builds/1234567890/{}",
        "very-long-segment-".repeat(16),
    );
    term.insert(vec![url_only(line_of(vec![raw("• "), raw(&long_url)]))]);

    let rows = term.rows();
    let prompt_row = rows
        .iter()
        .position(|row| row.contains("Write a long URL as output for testing"))
        .unwrap_or_else(|| panic!("expected prompt row in screen rows: {rows:?}"));
    let url_row = rows
        .iter()
        .position(|row| row.contains("• https://example.test/api"))
        .unwrap_or_else(|| panic!("expected URL first row in screen rows: {rows:?}"));
    assert!(
        url_row <= prompt_row + 2,
        "expected URL content to appear immediately after prompt (allowing at most one spacer row), got prompt_row={prompt_row}, url_row={url_row}, rows={rows:?}",
    );
}

#[test]
fn scroll_region_free_path_preserves_history_on_margin_ignoring_host() {
    let mut term = Terminal::with_bottom_viewport(20, 8);
    term.honours_margins = false;
    for i in 0..5 {
        let insertion = insert_history_lines_with_mode_and_wrap_policy(
            &term.state,
            vec![short_prose(&format!("history-line-{i}"))],
            InsertHistoryMode::ZellijRaw,
            HistoryLineWrapPolicy::PreWrap,
        );
        term.apply(insertion);
    }

    let rows = term.rows();
    let above: String = rows[..term.top()].join("\n");
    let viewport: String = rows[term.top()..].join("\n");
    assert!(
        above.contains("history-line-4") && above.contains("history-line-3"),
        "recent history must stay above the viewport on a margin-ignoring host, rows: {rows:?}"
    );
    assert!(
        !viewport.contains("history-line-4"),
        "history must not be written through the composer viewport, rows: {rows:?}"
    );
}

#[test]
fn standard_emits_scroll_region_primitives_but_free_path_does_not() {
    let width: u16 = 20;
    let height: u16 = 8;
    // Mid-screen viewport so the Standard path also takes its reverse-index branch.
    let viewport = Rect {
        x: 0,
        y: height - 3,
        width,
        height: 1,
    };

    let mut std_term = Terminal::new(width, height, viewport);
    let insertion = insert_history_lines_with_mode_and_wrap_policy(
        &std_term.state,
        vec![short_prose("hello")],
        InsertHistoryMode::Standard,
        HistoryLineWrapPolicy::PreWrap,
    );
    std_term.apply(insertion);
    assert!(
        contains_decstbm(std_term.raw.as_bytes()),
        "Standard path must emit DECSTBM scroll-region margins"
    );
    assert!(
        contains_reverse_index(std_term.raw.as_bytes()),
        "Standard path with a mid-screen viewport must emit reverse index"
    );

    let mut free_term = Terminal::new(width, height, viewport);
    let insertion = insert_history_lines_with_mode_and_wrap_policy(
        &free_term.state,
        vec![short_prose("hello")],
        InsertHistoryMode::ZellijRaw,
        HistoryLineWrapPolicy::PreWrap,
    );
    free_term.apply(insertion);
    assert!(
        !contains_decstbm(free_term.raw.as_bytes()),
        "scroll-region-free path must not emit DECSTBM margins"
    );
    assert!(
        !contains_reverse_index(free_term.raw.as_bytes()),
        "scroll-region-free path must not emit reverse index"
    );
}

/// Rows that a terminal uses to render `text` at `width` columns.
fn vt100_rows(text: &str, width: u16) -> usize {
    let mut parser = vt100::Parser::new(400, width, 0);
    parser.process(text.as_bytes());
    let (row, _col) = parser.screen().cursor_position();
    row as usize + 1
}

#[test]
fn zz_residual_prewrap_tab_endtoend() {
    for mode in [InsertHistoryMode::Standard, InsertHistoryMode::ZellijRaw] {
        let mut term = Terminal::with_bottom_viewport(16, 20);
        // Several tab-containing lines, wrapped at word boundaries with tabs of no width.
        let entry = |whole: &str, pieces: &[&str]| {
            let whole = line(whole);
            let wrapped = indented(&whole, pieces);
            prose(whole, wrapped)
        };
        let entries = vec![
            entry("UNIQUEA\tcol2\tcol3value", &["UNIQUEA\tcol2\t", "col3value"]),
            entry("UNIQUEB shorter", &["UNIQUEB shorter"]),
            entry(
                "\tUNIQUEC indented deep tab line that wraps a lot here",
                &[
                    "\tUNIQUEC",
                    "indented deep",
                    "tab line that",
                    "wraps a lot here",
                ],
            ),
        ];
        let mut hyperlinked = Vec::new();
        for entry in entries {
            hyperlinked.push(HistoryEntry {
                line: plain_hyperlink_lines(vec![entry.line]).remove(0),
                contains_url_like: entry.contains_url_like,
                has_mixed_tokens: entry.has_mixed_tokens,
                wrapped: plain_hyperlink_lines(entry.wrapped),
            });
        }
        let insertion = insert_history_hyperlink_lines_with_mode_and_wrap_policy(
            &term.state,
            hyperlinked,
            mode,
            HistoryLineWrapPolicy::PreWrap,
        );
        term.apply(insertion);

        let rows = term.rows();
        let above: String = rows[..term.top()].join("\n");
        for needle in ["UNIQUEA", "UNIQUEB", "UNIQUEC"] {
            assert!(
                above.contains(needle),
                "{mode:?}: history marker {needle} not visible above viewport (overwrite!), rows: {rows:?}"
            );
        }
    }
}

#[test]
fn zz_residual_continuation_clear_exact() {
    let width: u16 = 8;
    let mut term = Terminal::with_bottom_viewport(width, 20);
    for _ in 0..2 {
        let insertion = insert_history_lines_with_wrap_policy(
            &term.state,
            vec![unbroken(&"中".repeat(10))],
            HistoryLineWrapPolicy::Terminal,
        );
        term.apply(insertion);
    }

    let rows = term.rows();
    let one = plain_hyperlink_lines(vec![line(&"中".repeat(10))]).remove(0);
    let per = wrapped_row_count(&one, width as usize);
    assert_eq!(per, vt100_rows(&"中".repeat(10), width), "helper vs vt100");
    let nonempty_above = rows[..term.top()]
        .iter()
        .filter(|r| !r.trim_end().is_empty())
        .count();
    assert_eq!(
        nonempty_above,
        2 * per,
        "expected exactly {} filled history rows, got {nonempty_above}; rows: {rows:?}",
        2 * per
    );
}
