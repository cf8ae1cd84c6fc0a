//! Colour output switched off for the whole process.

use insert_history::command::Command;
use insert_history::style::Color;

fn text(command: Command) -> String {
    let mut out = String::new();
    command.write_ansi(&mut out);
    out
}

#[test]
fn colours_leave_no_parameters_when_switched_off() {
    crossterm::style::force_color_output(false);
    assert_eq!(
        text(Command::SetColors(Color::Indexed(2), Color::Reset)),
        "\x1b[;m"
    );
    assert_eq!(text(Command::SetForegroundColor(Color::Green)), "\x1b[m");
    assert_eq!(
        text(Command::SetBackgroundColor(Color::Indexed(2))),
        "\x1b[m"
    );
}
