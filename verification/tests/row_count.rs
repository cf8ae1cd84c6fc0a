//! The row count against an emulated terminal.

use insert_history::rows::wrapped_row_count;
use insert_history::style::Style;
use insert_history::text::{plain_hyperlink_lines, HyperlinkLine, Line, Span};
use unicode_width::UnicodeWidthStr;

fn spans(contents: &[&str]) -> HyperlinkLine {
    let spans = contents
        .iter()
        .map(|content| Span {
            content: content.to_string(),
            style: Style::default(),
        })
        .collect();
    plain_hyperlink_lines(vec![Line {
        spans,
        style: Style::default(),
    }])
    .into_iter()
    .next()
    .expect("one line in, one line out")
}

fn hl(text: &str) -> HyperlinkLine {
    spans(&[text])
}

/// Rows a faithful VT parser actually uses to render `text` at `width` columns.
fn vt100_rows(text: &str, width: u16) -> usize {
    let mut parser = vt100::Parser::new(/*rows*/ 400, /*cols*/ width, /*scrollback*/ 0);
    parser.process(text.as_bytes());
    let (row, _col) = parser.screen().cursor_position();
    row as usize + 1
}

#[test]
fn wrapped_row_count_matches_real_terminal() {
    let ascii = "a".repeat(40);
    let cjk = "中".repeat(20);
    let cjk_narrow = "中".repeat(8);
    let emoji = "😀".repeat(15);
    let mixed = "中文mix中文mix中文".to_string();
    let url = "https://example.com/some/really/long/path?q=1".to_string();
    let tab_fn =
        "\tfn very_long_function_name_that_overflows_width(arg_one, arg_two) {}".to_string();
    let tab_lead = "\thello world foo".to_string();
    let tab_table = "id\tname\tvalue\tstatus".to_string();
    let tab_run = "a\tb\tcccccccc".to_string();
    // Tab landing at/past the right margin clamps to the last column (must NOT add a row).
    let tab_clamp = "abcdefgh\tx".to_string();
    // ZWJ family emoji (width-2 bases + zero-width joiners) and regional-indicator flags.
    let zwj = "\u{1F468}\u{200D}\u{1F469}\u{200D}\u{1F467}\u{200D}\u{1F466}".repeat(3);
    let flags = "\u{1F1FA}\u{1F1F8}".repeat(4);
    let cases: &[(&str, u16)] = &[
        ("hello world this is plain ascii", 7),
        (ascii.as_str(), 7),
        (cjk.as_str(), 7),
        (cjk_narrow.as_str(), 3),
        (emoji.as_str(), 7),
        (mixed.as_str(), 9),
        (url.as_str(), 11),
        (tab_fn.as_str(), 24),
        (tab_lead.as_str(), 10),
        (tab_table.as_str(), 20),
        (tab_run.as_str(), 10),
        (tab_clamp.as_str(), 8),
        (zwj.as_str(), 7),
        (flags.as_str(), 7),
        ("", 10),
    ];
    for (text, width) in cases {
        let line = hl(text);
        let got = wrapped_row_count(&line, *width as usize);
        let expected = vt100_rows(text, *width);
        assert_eq!(
            got, expected,
            "row count mismatch for {text:?} at width {width}: got {got}, terminal renders {expected}"
        );
    }
}

#[test]
fn zz_residual_multispan_straddle() {
    // A wide glyph or tab split across span boundaries must be counted as if the chars were
    // contiguous: the column must NOT reset between spans.
    let single = hl("中中中中中");
    let multi = spans(&["中中", "中", "中中"]);
    for w in 3usize..=16 {
        assert_eq!(
            wrapped_row_count(&single, w),
            wrapped_row_count(&multi, w),
            "wide straddle mismatch at width {w}"
        );
        assert_eq!(
            wrapped_row_count(&multi, w),
            vt100_rows("中中中中中", w as u16),
            "wide multi vs vt100 at width {w}"
        );
    }
    let t_single = hl("ab\tcd");
    let t_multi = spans(&["ab", "\t", "cd"]);
    let t_multi2 = spans(&["abcdef", "\tg"]);
    for w in 4usize..=20 {
        assert_eq!(
            wrapped_row_count(&t_single, w),
            wrapped_row_count(&t_multi, w),
            "tab straddle mismatch at width {w}"
        );
        assert_eq!(
            wrapped_row_count(&t_multi, w),
            vt100_rows("ab\tcd", w as u16),
            "tab multi vs vt100 at width {w}"
        );
        assert_eq!(
            wrapped_row_count(&t_multi2, w),
            vt100_rows("abcdef\tg", w as u16),
            "tab multi2 vs vt100 at width {w}"
        );
    }
}

#[test]
fn naive_div_ceil_undercounts_wide_glyphs() {
    let text = "中".repeat(20);
    let line = hl(&text);
    let naive = text.width().max(1).div_ceil(7);
    let actual = vt100_rows(&text, 7);
    assert!(
        naive < actual,
        "expected old div_ceil ({naive}) to undercount real rows ({actual})"
    );
    assert_eq!(wrapped_row_count(&line, 7), actual);
}

#[test]
fn wrapped_row_count_matches_terminal_matrix() {
    let bases: Vec<String> = vec![
        "".to_string(),
        "a".to_string(),
        "abcdefghij".to_string(),
        "a".repeat(30),
        "中".repeat(12),
        "ab中cd中ef".to_string(),
        "\tindented".to_string(),
        "col1\tcol2\tcol3".to_string(),
        "a\tb\tc\td\te\tf".to_string(),
        "中\t中\t中".to_string(),
        "x\t".to_string(),
        "\t\t\tdeep".to_string(),
        "word ".repeat(8),
        "abcdefgh\tx".to_string(),
    ];
    for base in &bases {
        for width in 4u16..=24 {
            let line = hl(base);
            let got = wrapped_row_count(&line, width as usize);
            let expected = vt100_rows(base, width);
            assert_eq!(
                got, expected,
                "matrix mismatch for {base:?} at width {width}: got {got}, terminal renders {expected}"
            );
        }
    }
}

#[test]
fn a_width_of_zero_counts_one_row() {
    assert_eq!(wrapped_row_count(&hl("anything at all"), 0), 1);
}

#[test]
fn even_text_fills_its_rows() {
    // Seven columns take three wide characters: twenty of them need seven rows, not six.
    assert_eq!(wrapped_row_count(&hl(&"中".repeat(20)), 7), 7);
    assert_eq!(wrapped_row_count(&hl(&"a".repeat(40)), 7), 6);
    assert_eq!(wrapped_row_count(&hl(&"a".repeat(42)), 7), 6);
    assert_eq!(wrapped_row_count(&hl(&"a".repeat(43)), 7), 7);
    assert_eq!(wrapped_row_count(&hl(""), 7), 1);
}

#[test]
fn characters_wider_than_the_terminal_take_a_row_each() {
    assert_eq!(wrapped_row_count(&hl("中中中"), 1), 4);
}

#[test]
fn tabs_and_zero_width_characters_add_no_row() {
    assert_eq!(wrapped_row_count(&hl("abcdefgh"), 8), 1);
    assert_eq!(wrapped_row_count(&hl("abcdefgh\t"), 8), 1);
    assert_eq!(wrapped_row_count(&hl("abcdefgh\t\t\t"), 8), 1);
    // The tab went back to the last column, so one more character still fits.
    assert_eq!(wrapped_row_count(&hl("abcdefgh\tx"), 8), 1);
    assert_eq!(wrapped_row_count(&hl("abcdefgh\txy"), 8), 2);
    assert_eq!(wrapped_row_count(&hl("abcdefge\u{301}\u{301}"), 8), 1);
    assert_eq!(wrapped_row_count(&hl("abcdefgh\u{7}\u{85}"), 8), 1);
}

#[test]
fn tabs_go_to_multiples_of_eight() {
    // One column used of the first eight, one of the next: the tail fits eight more.
    assert_eq!(wrapped_row_count(&hl("a\tb\t12345678"), 24), 1);
    assert_eq!(wrapped_row_count(&hl("a\tb\t123456789"), 24), 2);
}

#[test]
fn no_fewer_rows_than_the_columns_need() {
    for text in ["ab中cd中ef", "中中a中中", "plain text", ""] {
        for width in 2usize..=12 {
            let rows = wrapped_row_count(&hl(text), width);
            assert!(text.width().div_ceil(width) <= rows);
        }
    }
}

const SHAPES: [&str; 7] = [
    "",
    "plain text",
    "ab中cd中ef",
    "abcdefgh\tx",
    "col1\tcol2\tcol3",
    "中\t中\t中中",
    "e\u{301}\u{200d}中\t\tz",
];

#[test]
fn a_wider_terminal_needs_no_more_rows() {
    // The tab takes the narrow terminal back to its last column and the wide one on to its own.
    assert_eq!(wrapped_row_count(&hl("abcdefgh\tx"), 8), 1);
    assert_eq!(wrapped_row_count(&hl("abcdefgh\tx"), 9), 1);
    for text in SHAPES {
        for width in 1usize..=20 {
            let narrow = wrapped_row_count(&hl(text), width);
            assert!(wrapped_row_count(&hl(text), width + 1) <= narrow);
        }
    }
}

#[test]
fn more_text_takes_no_fewer_rows() {
    for text in SHAPES {
        for more in SHAPES {
            for width in 0usize..=20 {
                let rows = wrapped_row_count(&hl(text), width);
                assert!(wrapped_row_count(&spans(&[text, more]), width) >= rows);
                assert_eq!(wrapped_row_count(&spans(&[text, "\t\t\t"]), width), rows);
            }
        }
    }
}

#[test]
fn zero_width_characters_move_nothing() {
    for text in SHAPES {
        for more in SHAPES {
            for width in 0usize..=20 {
                assert_eq!(
                    wrapped_row_count(&spans(&[text, "\u{301}\u{200d}\u{7}", more]), width),
                    wrapped_row_count(&spans(&[text, more]), width)
                );
            }
        }
    }
}
