//! Exact escape sequences, styles and commands.

use crossterm::style::{Color as CColor, Colors};
use crossterm::Command as _;
use insert_history::ansi::{ResetScrollRegion, SetScrollRegion};
use insert_history::command::{ansi_text, Attribute, Command};
use insert_history::geometry::{Position, Rect};
use insert_history::indent::leading_whitespace_prefix;
use insert_history::spans::{write_history_line, write_spans, ModifierDiff};
use insert_history::style::{
    unwrap_color, Color, Modifier, Style, BOLD, CROSSED_OUT, DIM, HIDDEN, ITALIC,
    RAPID_BLINK, REVERSED, SLOW_BLINK, UNDERLINED,
};
use insert_history::text::{merged_spans, plain_hyperlink_lines, HyperlinkLine, Line, Span};

fn raw(content: &str) -> Span {
    Span {
        content: content.to_string(),
        style: Style::default(),
    }
}

fn styled(content: &str, style: Style) -> Span {
    Span {
        content: content.to_string(),
        style,
    }
}

fn fg(color: Color) -> Style {
    Style {
        fg: Some(color),
        ..Style::default()
    }
}

fn with(bits: u16) -> Style {
    Style {
        add_modifier: Modifier { bits },
        ..Style::default()
    }
}

fn text(command: Command) -> String {
    let mut out = String::from("before ");
    command.write_ansi(&mut out);
    out.strip_prefix("before ").expect("appended").to_string()
}

fn outside(command: impl crossterm::Command) -> String {
    let mut out = String::new();
    command.write_ansi(&mut out).expect("written");
    out
}

/// Every colour that a style can name, as `ratatui` has it too.
fn colors() -> Vec<(Color, ratatui::style::Color)> {
    vec![
        (Color::Reset, ratatui::style::Color::Reset),
        (Color::Black, ratatui::style::Color::Black),
        (Color::Red, ratatui::style::Color::Red),
        (Color::Green, ratatui::style::Color::Green),
        (Color::Yellow, ratatui::style::Color::Yellow),
        (Color::Blue, ratatui::style::Color::Blue),
        (Color::Magenta, ratatui::style::Color::Magenta),
        (Color::Cyan, ratatui::style::Color::Cyan),
        (Color::Gray, ratatui::style::Color::Gray),
        (Color::DarkGray, ratatui::style::Color::DarkGray),
        (Color::LightRed, ratatui::style::Color::LightRed),
        (Color::LightGreen, ratatui::style::Color::LightGreen),
        (Color::LightYellow, ratatui::style::Color::LightYellow),
        (Color::LightBlue, ratatui::style::Color::LightBlue),
        (Color::LightMagenta, ratatui::style::Color::LightMagenta),
        (Color::LightCyan, ratatui::style::Color::LightCyan),
        (Color::White, ratatui::style::Color::White),
        (Color::Rgb(1, 20, 255), ratatui::style::Color::Rgb(1, 20, 255)),
        (Color::Indexed(0), ratatui::style::Color::Indexed(0)),
        (Color::Indexed(203), ratatui::style::Color::Indexed(203)),
    ]
}

#[test]
fn colours_are_written_as_the_outside_crates_write_them() {
    crossterm::style::force_color_output(true);
    for (color, same) in colors() {
        let same: CColor = same.into();
        assert_eq!(
            text(Command::SetForegroundColor(color)),
            outside(crossterm::style::SetForegroundColor(same)),
        );
        assert_eq!(
            text(Command::SetBackgroundColor(color)),
            outside(crossterm::style::SetBackgroundColor(same)),
        );
        for (under, same_under) in colors() {
            assert_eq!(
                text(Command::SetColors(color, under)),
                outside(crossterm::style::SetColors(Colors::new(
                    same,
                    same_under.into()
                ))),
            );
        }
    }
}

#[test]
fn colours_have_exact_sequences() {
    crossterm::style::force_color_output(true);
    assert_eq!(
        text(Command::SetColors(Color::Indexed(2), Color::Reset)),
        "\x1b[38;5;2;49m"
    );
    assert_eq!(
        text(Command::SetColors(Color::Reset, Color::Rgb(1, 20, 255))),
        "\x1b[39;48;2;1;20;255m"
    );
    assert_eq!(
        text(Command::SetForegroundColor(Color::Indexed(203))),
        "\x1b[38;5;203m"
    );
    assert_eq!(
        text(Command::SetForegroundColor(Color::LightBlue)),
        "\x1b[38;5;12m"
    );
    assert_eq!(
        text(Command::SetBackgroundColor(Color::DarkGray)),
        "\x1b[48;5;8m"
    );
    assert_eq!(
        text(Command::SetBackgroundColor(Color::Reset)),
        "\x1b[49m"
    );
}

#[test]
fn cursor_commands_have_exact_sequences() {
    assert_eq!(text(Command::MoveTo(0, 0)), "\x1b[1;1H");
    assert_eq!(text(Command::MoveTo(9, 23)), "\x1b[24;10H");
    assert_eq!(text(Command::MoveTo(65534, 65534)), "\x1b[65535;65535H");
    assert_eq!(text(Command::MoveDown(1)), "\x1b[1B");
    assert_eq!(text(Command::MoveDown(65535)), "\x1b[65535B");
    assert_eq!(text(Command::MoveToColumn(0)), "\x1b[1G");
    assert_eq!(text(Command::MoveToColumn(65534)), "\x1b[65535G");
    assert_eq!(text(Command::SavePosition), "\x1b7");
    assert_eq!(text(Command::RestorePosition), "\x1b8");
    assert_eq!(text(Command::ClearUntilNewLine), "\x1b[K");
    assert_eq!(text(Command::ReverseIndex), "\x1bM");
    assert_eq!(text(Command::LineBreak), "\r\n");
    assert_eq!(text(Command::Print("中\ta".to_string())), "中\ta");
}

#[test]
fn attributes_have_exact_sequences() {
    let codes = [
        (Attribute::Reset, "\x1b[0m"),
        (Attribute::Bold, "\x1b[1m"),
        (Attribute::Dim, "\x1b[2m"),
        (Attribute::Italic, "\x1b[3m"),
        (Attribute::Underlined, "\x1b[4m"),
        (Attribute::SlowBlink, "\x1b[5m"),
        (Attribute::RapidBlink, "\x1b[6m"),
        (Attribute::Reverse, "\x1b[7m"),
        (Attribute::CrossedOut, "\x1b[9m"),
        (Attribute::NormalIntensity, "\x1b[22m"),
        (Attribute::NoItalic, "\x1b[23m"),
        (Attribute::NoUnderline, "\x1b[24m"),
        (Attribute::NoBlink, "\x1b[25m"),
        (Attribute::NoReverse, "\x1b[27m"),
        (Attribute::NotCrossedOut, "\x1b[29m"),
    ];
    for (attribute, sequence) in codes {
        assert_eq!(text(Command::SetAttribute(attribute)), sequence);
    }
}

#[test]
fn scroll_regions_have_exact_sequences() {
    let mut out = String::from("x");
    SetScrollRegion(1..12).write_ansi(&mut out);
    ResetScrollRegion.write_ansi(&mut out);
    SetScrollRegion(0..65535).write_ansi(&mut out);
    assert_eq!(out, "x\x1b[1;12r\x1b[r\x1b[0;65535r");
    assert!(SetScrollRegion(1..2).is_ansi_code_supported());
    assert!(ResetScrollRegion.is_ansi_code_supported());
    assert_eq!(SetScrollRegion(3..9).clone(), SetScrollRegion(3..9));
    assert_eq!(
        ansi_text(&vec![
            Command::SetScrollRegion(SetScrollRegion(10..100)),
            Command::ResetScrollRegion(ResetScrollRegion),
        ]),
        "\x1b[10;100r\x1b[r"
    );
}

#[test]
fn commands_are_written_one_after_the_other() {
    assert_eq!(ansi_text(&vec![]), "");
    assert_eq!(
        ansi_text(&vec![
            Command::LineBreak,
            Command::Print("a".to_string()),
            Command::MoveDown(2),
        ]),
        "\r\na\x1b[2B"
    );
}

#[test]
fn modifiers_have_the_bits_of_ratatui() {
    let flags = [
        (BOLD, ratatui::style::Modifier::BOLD),
        (DIM, ratatui::style::Modifier::DIM),
        (ITALIC, ratatui::style::Modifier::ITALIC),
        (UNDERLINED, ratatui::style::Modifier::UNDERLINED),
        (SLOW_BLINK, ratatui::style::Modifier::SLOW_BLINK),
        (RAPID_BLINK, ratatui::style::Modifier::RAPID_BLINK),
        (REVERSED, ratatui::style::Modifier::REVERSED),
        (HIDDEN, ratatui::style::Modifier::HIDDEN),
        (CROSSED_OUT, ratatui::style::Modifier::CROSSED_OUT),
    ];
    for (bits, flag) in flags {
        assert_eq!(bits, flag.bits());
    }
    for a in (0..512u16).step_by(7) {
        for b in (0..512u16).step_by(11) {
            let (ra, rb) = (
                ratatui::style::Modifier::from_bits_retain(a),
                ratatui::style::Modifier::from_bits_retain(b),
            );
            let (ma, mb) = (Modifier { bits: a }, Modifier { bits: b });
            assert_eq!(ma.contains(b), ra.contains(rb));
            assert_eq!(ma.difference(mb).bits, (ra - rb).bits());
            let (mut m, mut r) = (ma, ra);
            m.insert(mb);
            r.insert(rb);
            assert_eq!(m.bits, r.bits());
            let (mut m, mut r) = (ma, ra);
            m.remove(mb);
            r.remove(rb);
            assert_eq!(m.bits, r.bits());
        }
    }
    assert_eq!(Modifier::empty().bits, 0);
}

#[test]
fn styles_are_laid_over_each_other_as_ratatui_does() {
    let picks = [None, Some(0usize), Some(2), Some(17)];
    let names = colors();
    let sets = [0u16, BOLD, BOLD | DIM, ITALIC | CROSSED_OUT, 0x1ff];
    let mut both = Vec::new();
    for color in picks {
        for add in sets {
            for sub in sets {
                let ours = Style {
                    fg: color.map(|i| names[i].0),
                    bg: picks[(add % 4) as usize].map(|i| names[i].0),
                    underline_color: picks[(sub % 4) as usize].map(|i| names[i].0),
                    add_modifier: Modifier { bits: add },
                    sub_modifier: Modifier { bits: sub },
                };
                let mut theirs = ratatui::style::Style::default();
                theirs.fg = color.map(|i| names[i].1);
                theirs.bg = picks[(add % 4) as usize].map(|i| names[i].1);
                theirs.underline_color = picks[(sub % 4) as usize].map(|i| names[i].1);
                theirs.add_modifier = ratatui::style::Modifier::from_bits_retain(add);
                theirs.sub_modifier = ratatui::style::Modifier::from_bits_retain(sub);
                both.push((ours, theirs));
            }
        }
    }
    let index = |color: Option<Color>| color.map(|c| names.iter().position(|n| n.0 == c));
    let their_index = |color: Option<ratatui::style::Color>| {
        color.map(|c| names.iter().position(|n| n.1 == c))
    };
    for (a, ra) in &both {
        for (b, rb) in &both {
            let ours = a.patch(*b);
            let theirs = ra.patch(*rb);
            assert_eq!(index(ours.fg), their_index(theirs.fg));
            assert_eq!(index(ours.bg), their_index(theirs.bg));
            assert_eq!(
                index(ours.underline_color),
                their_index(theirs.underline_color)
            );
            assert_eq!(ours.add_modifier.bits, theirs.add_modifier.bits());
            assert_eq!(ours.sub_modifier.bits, theirs.sub_modifier.bits());
        }
    }
}

#[test]
fn a_missing_colour_is_the_default() {
    assert_eq!(unwrap_color(None), Color::Reset);
    assert_eq!(unwrap_color(Some(Color::Cyan)), Color::Cyan);
}

#[test]
fn rectangles_are_those_of_ratatui() {
    for (x, y, width, height) in [(0, 0, 0, 0), (3, 4, 5, 6), (1, 65530, 2, 5), (0, 65000, 1, 535)] {
        let ours = Rect {
            x,
            y,
            width,
            height,
        };
        let theirs = ratatui::layout::Rect {
            x,
            y,
            width,
            height,
        };
        assert_eq!(ours.top(), theirs.top());
        assert_eq!(ours.bottom(), theirs.bottom());
        assert_eq!(ours.as_position(), Position { x, y });
        assert_eq!(theirs.as_position().x, x);
        assert_eq!(theirs.as_position().y, y);
    }
    let beyond = Rect {
        x: 0,
        y: 65530,
        width: 1,
        height: 100,
    };
    assert_eq!(beyond.bottom(), 65535);
}

fn diff(from: u16, to: u16) -> String {
    let mut commands: Vec<Command> = vec![Command::Print("<".to_string())];
    ModifierDiff {
        from: Modifier { bits: from },
        to: Modifier { bits: to },
    }
    .queue(&mut commands);
    ansi_text(&commands)
}

#[test]
fn modifier_steps_have_exact_sequences() {
    assert_eq!(diff(0, 0), "<");
    assert_eq!(diff(BOLD, BOLD), "<");
    assert_eq!(
        diff(0, 0x1ff & !HIDDEN),
        "<\x1b[7m\x1b[1m\x1b[3m\x1b[4m\x1b[2m\x1b[9m\x1b[5m\x1b[6m"
    );
    assert_eq!(
        diff(0x1ff, 0),
        "<\x1b[27m\x1b[22m\x1b[23m\x1b[24m\x1b[22m\x1b[29m\x1b[25m"
    );
    // Ending bold ends dim too, so dim is switched on again.
    assert_eq!(diff(BOLD | DIM, DIM), "<\x1b[22m\x1b[2m");
    assert_eq!(diff(BOLD, DIM), "<\x1b[22m\x1b[2m\x1b[2m");
    // Ending dim ends bold too, and bold stays off.
    assert_eq!(diff(BOLD | DIM, BOLD), "<\x1b[22m");
    assert_eq!(diff(SLOW_BLINK | RAPID_BLINK, RAPID_BLINK), "<\x1b[25m");
    assert_eq!(diff(ITALIC, UNDERLINED | REVERSED), "<\x1b[23m\x1b[7m\x1b[4m");
    assert_eq!(diff(0, HIDDEN), "<");
}

#[test]
fn spans_change_the_pen_only_where_it_differs() {
    crossterm::style::force_color_output(true);
    let mut commands: Vec<Command> = Vec::new();
    write_spans(
        &mut commands,
        &vec![
            raw("a"),
            styled("b", fg(Color::Red)),
            styled("c", fg(Color::Red)),
            styled("d", with(BOLD)),
            styled(
                "e",
                Style {
                    sub_modifier: Modifier { bits: BOLD },
                    ..with(BOLD | ITALIC)
                },
            ),
        ],
    );
    assert_eq!(
        ansi_text(&commands),
        "a\x1b[38;5;1;49mbc\x1b[1m\x1b[39;49md\x1b[22m\x1b[3me\x1b[39m\x1b[49m\x1b[0m"
    );
}

#[test]
fn no_spans_only_reset_the_pen() {
    crossterm::style::force_color_output(true);
    let mut commands: Vec<Command> = Vec::new();
    write_spans(&mut commands, &vec![]);
    assert_eq!(ansi_text(&commands), "\x1b[39m\x1b[49m\x1b[0m");
}

#[test]
fn a_line_that_fits_is_written_without_clearing_more() {
    crossterm::style::force_color_output(true);
    let line = Line {
        spans: vec![raw("> "), styled("quoted", with(ITALIC))],
        style: fg(Color::Green),
    };
    let line = plain_hyperlink_lines(vec![line]).remove(0);
    let mut commands: Vec<Command> = Vec::new();
    write_history_line(&mut commands, &line, 10);
    assert_eq!(
        ansi_text(&commands),
        "\x1b[38;5;2;49m\x1b[K\x1b[38;5;2;49m> \x1b[3mquoted\x1b[39m\x1b[49m\x1b[0m"
    );
}

#[test]
fn a_line_of_three_rows_clears_two_more() {
    crossterm::style::force_color_output(true);
    let line = Line {
        spans: vec![raw("abcdefghij")],
        style: Style::default(),
    };
    let line = plain_hyperlink_lines(vec![line]).remove(0);
    let mut commands: Vec<Command> = Vec::new();
    write_history_line(&mut commands, &line, 4);
    assert_eq!(
        ansi_text(&commands),
        "\x1b7\x1b[1B\x1b[1G\x1b[K\x1b[1B\x1b[1G\x1b[K\x1b8\x1b[39;49m\x1b[Kabcdefghij\x1b[39m\x1b[49m\x1b[0m"
    );
}

#[test]
fn decorated_spans_are_printed_in_place_of_the_lines_own() {
    crossterm::style::force_color_output(true);
    let line = HyperlinkLine {
        line: Line {
            spans: vec![raw("abcdef")],
            style: Style::default(),
        },
        decorated: Some(vec![raw("\x1b]8;;x\x07abcdef\x1b]8;;\x07")]),
    };
    let mut commands: Vec<Command> = Vec::new();
    write_history_line(&mut commands, &line, 6);
    // Six visible columns fit on one row, however long the link is.
    assert_eq!(
        ansi_text(&commands),
        "\x1b[39;49m\x1b[K\x1b]8;;x\x07abcdef\x1b]8;;\x07\x1b[39m\x1b[49m\x1b[0m"
    );
}

#[test]
fn merging_lays_the_lines_style_over_each_span() {
    let line = Line {
        spans: vec![styled("a", fg(Color::Red)), styled("b", with(BOLD))],
        style: Style {
            bg: Some(Color::Blue),
            ..fg(Color::Green)
        },
    };
    let merged = merged_spans(&line);
    assert_eq!(merged.len(), 2);
    assert_eq!(merged[0].content, "a");
    assert_eq!(merged[1].content, "b");
    for span in &merged {
        assert_eq!(span.style.fg, Some(Color::Green));
        assert_eq!(span.style.bg, Some(Color::Blue));
    }
    assert_eq!(merged[0].style.add_modifier.bits, 0);
    assert_eq!(merged[1].style.add_modifier.bits, BOLD);
}

fn prefix(spans: Vec<Span>) -> Line {
    leading_whitespace_prefix(&Line {
        spans,
        style: fg(Color::Yellow),
    })
}

#[test]
fn indentation_ends_at_the_first_visible_character() {
    let line = prefix(vec![raw("  \tlet x = 1;"), raw("  ")]);
    assert_eq!(line.spans, vec![raw("  \t")]);
    assert_eq!(line.style, fg(Color::Yellow));
    assert_eq!(prefix(vec![raw("none")]).spans, vec![]);
    assert_eq!(prefix(vec![]).spans, vec![]);
}

#[test]
fn indentation_runs_across_spans_in_their_styles() {
    let line = prefix(vec![
        styled("  ", fg(Color::Red)),
        raw(""),
        styled(" \u{3000}x  ", with(DIM)),
        raw("  "),
    ]);
    assert_eq!(
        line.spans,
        vec![styled("  ", fg(Color::Red)), styled(" \u{3000}", with(DIM))]
    );
    let blank = prefix(vec![raw("  "), raw("\u{a0}\u{2003}")]);
    assert_eq!(blank.spans, vec![raw("  "), raw("\u{a0}\u{2003}")]);
    // A zero-width space is no whitespace.
    assert_eq!(prefix(vec![raw(" \u{200b} ")]).spans, vec![raw(" ")]);
}

#[test]
fn indentation_knows_every_whitespace_character() {
    for code in 0..=0x10ffffu32 {
        if let Some(c) = char::from_u32(code) {
            let line = Line {
                spans: vec![raw(&c.to_string())],
                style: Style::default(),
            };
            let found = leading_whitespace_prefix(&line).spans.len();
            assert_eq!(found, usize::from(c.is_whitespace()));
        }
    }
}
