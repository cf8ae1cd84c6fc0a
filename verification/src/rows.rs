//! How many terminal rows a history line takes.

use vstd::prelude::*;
use crate::text::{spans_text, HyperlinkLine};

verus! {

/// The columns that the width tables of `unicode_width` give to a character from U+00A0 on.
pub uninterp spec fn table_columns(c: char) -> usize;

/// Whether a character is a C0 or C1 control character or DEL.
pub open spec fn is_control_code(c: char) -> bool {
    (c as int) < 0x20 || 0x7f <= (c as int) < 0xa0
}

/// The columns that a character takes, or `None` for a control character.
pub open spec fn columns(c: char) -> Option<usize> {
    if is_control_code(c) {
        None
    } else if (c as int) < 0x7f {
        Some(1)
    } else {
        Some(table_columns(c))
    }
}

/// Calls `unicode_width::UnicodeWidthChar::width`. Believed of it: the C0 and C1 control
/// characters and DEL have no width, the other ASCII characters take one column, and from U+00A0
/// on the width comes from the crate's tables and depends on the character alone.
#[verifier::external_body]
fn char_width(c: char) -> (r: Option<usize>)
    ensures
        r == columns(c),
        c as int >= 0xa0 ==> r == Some(table_columns(c)),
{
    unicode_width::UnicodeWidthChar::width(c)
}

/// Where the next character of a line goes: the rows begun so far and the column in the last of
/// them. A row that is full is left only when another character has to be placed.
pub struct TextCursor {
    pub rows: nat,
    pub col: nat,
}

/// The cursor after a terminal of `width` columns has taken one more character.
///
/// A tab goes to the next multiple of eight, but not past the last column, and never to a new
/// row. A character without columns leaves the cursor alone. Any other begins a new row if it
/// does not fit into what is left of this one, so a wide one may leave the last column empty.
pub open spec fn advance(at: TextCursor, c: char, width: nat) -> TextCursor {
    if c == '\t' {
        let stop = (at.col / 8 + 1) * 8;
        TextCursor { rows: at.rows, col: if stop < width { stop } else { (width - 1) as nat } }
    } else {
        match columns(c) {
            None => at,
            Some(w) => if w == 0 {
                at
            } else if at.col + w > width {
                TextCursor { rows: at.rows + 1, col: w as nat }
            } else {
                TextCursor { rows: at.rows, col: at.col + w as nat }
            },
        }
    }
}

/// The cursor after `text`, which began in the first column of its first row.
pub open spec fn cursor_after(text: Seq<char>, width: nat) -> TextCursor
    decreases text.len(),
{
    if text.len() == 0 {
        TextCursor { rows: 1, col: 0 }
    } else {
        advance(cursor_after(text.drop_last(), width), text.last(), width)
    }
}

/// The rows that `text` takes on a terminal of `width` columns.
pub open spec fn row_count(text: Seq<char>, width: nat) -> nat {
    if width == 0 {
        1
    } else {
        cursor_after(text, width).rows
    }
}

/// `n` modulo the machine's word.
pub open spec fn word(n: nat) -> usize {
    (n as int % (usize::MAX + 1)) as usize
}

pub(crate) proof fn lemma_small_word(n: nat)
    requires
        n <= usize::MAX,
    ensures
        word(n) == n,
{
    vstd::arithmetic::div_mod::lemma_small_mod(n, (usize::MAX + 1) as nat);
}

pub(crate) proof fn lemma_word_add(a: nat, b: nat)
    ensures
        word(a + b) == if word(a) + word(b) > usize::MAX {
            word(a) + word(b) - (usize::MAX + 1)
        } else {
            word(a) + word(b)
        },
{
    let m = usize::MAX + 1;
    vstd::arithmetic::div_mod::lemma_add_mod_noop(a as int, b as int, m);
    let sum = a as int % m + b as int % m;
    if sum < m {
        vstd::arithmetic::div_mod::lemma_small_mod(sum as nat, m as nat);
    } else {
        vstd::arithmetic::div_mod::lemma_mod_sub_multiples_vanish(sum, m);
        vstd::arithmetic::div_mod::lemma_small_mod((sum - m) as nat, m as nat);
    }
}

/// `n` modulo 65536: what a terminal coordinate keeps of it.
pub open spec fn short(n: nat) -> u16 {
    (n as int % 0x10000) as u16
}

pub(crate) proof fn lemma_word_as_short(n: nat)
    ensures
        word(n) as u16 == short(n),
{
    let w = word(n);
    assert(w as u16 == w % 0x10000) by (bit_vector);
    assert(usize::MAX + 1 == 0x1_0000_0000 || usize::MAX + 1 == 0x1_0000_0000_0000_0000);
    vstd::arithmetic::div_mod::lemma_mod_mod(n as int, 0x10000, (usize::MAX + 1) / 0x10000);
}

/// Text takes at least one row, and at most one more for each of its characters.
pub proof fn law_row_count_bounds(text: Seq<char>, width: nat)
    ensures
        1 <= row_count(text, width) <= 1 + text.len(),
    decreases text.len(),
{
    if width > 0 && text.len() > 0 {
        law_row_count_bounds(text.drop_last(), width);
    }
}

/// Whether a character begins no new row, wherever it stands.
pub open spec fn stays_on_its_row(c: char) -> bool {
    c == '\t' || columns(c) is None || columns(c) == Some(0usize)
}

/// Text begins in the first column of its first row, and on a terminal without columns it is taken
/// to have one row.
pub proof fn law_text_begins_in_the_first_column(text: Seq<char>, width: nat)
    ensures
        cursor_after(seq![], width) == (TextCursor { rows: 1, col: 0 }),
        row_count(text, 0) == 1,
        width > 0 ==> row_count(text, width) == cursor_after(text, width).rows,
{
}

/// A tab takes the cursor to the first multiple of eight that is further right, or to the last
/// column if there is none on the row. It stays on its row.
pub proof fn law_tab_goes_to_the_next_stop(text: Seq<char>, width: nat)
    requires
        width > 0,
    ensures
        ({
            let at = cursor_after(text, width);
            let next = cursor_after(text.push('\t'), width);
            &&& next.rows == at.rows
            &&& if exists|stop: nat| at.col < stop < width && #[trigger] (stop % 8) == 0 {
                &&& next.col % 8 == 0
                &&& at.col < next.col <= at.col + 8
                &&& next.col < width
            } else {
                next.col == width - 1
            }
        }),
{
    let at = cursor_after(text, width);
    let next = cursor_after(text.push('\t'), width);
    assert(text.push('\t').drop_last() =~= text);
    assert(next == advance(at, '\t', width));
    let first = (at.col / 8 + 1) * 8;
    assert(first % 8 == 0 && at.col < first <= at.col + 8);
    assert forall|stop: nat| at.col < stop < width && #[trigger] (stop % 8) == 0 implies first
        < width by {
        assert(stop >= first);
    }
    if first < width {
        assert(at.col < first < width && (first % 8) == 0);
    }
}

/// Tabs in front of a line indent it by eight columns each, as far as the row goes.
pub proof fn law_tabs_indent_by_eight(text: Seq<char>, width: nat)
    requires
        forall|i: int| 0 <= i < text.len() ==> #[trigger] text[i] == '\t',
        8 * text.len() < width,
    ensures
        cursor_after(text, width) == (TextCursor { rows: 1, col: 8 * text.len() }),
    decreases text.len(),
{
    if text.len() > 0 {
        let before = text.drop_last();
        assert forall|i: int| 0 <= i < before.len() implies #[trigger] before[i] == '\t' by {
            assert(before[i] == text[i]);
        }
        law_tabs_indent_by_eight(before, width);
        assert(text[text.len() - 1] == '\t');
        let stop = 8 * text.len();
        assert(stop % 8 == 0);
        assert(before.push('\t') =~= text);
        law_tab_goes_to_the_next_stop(before, width);
    }
}

/// A character of one or more columns goes right behind the one before it if it fits on the row, and
/// else to the beginning of a new row.
pub proof fn law_character_is_placed(text: Seq<char>, c: char, w: usize, width: nat)
    requires
        width > 0,
        c != '\t',
        columns(c) == Some(w),
        w > 0,
    ensures
        ({
            let at = cursor_after(text, width);
            let next = cursor_after(text.push(c), width);
            if at.col + w <= width {
                next.rows == at.rows && next.col == at.col + w
            } else {
                next.rows == at.rows + 1 && next.col == w
            }
        }),
{
    assert(text.push(c).drop_last() =~= text);
}

/// The printable ASCII characters take one column each, the control characters none.
pub proof fn law_ascii_columns(c: char)
    ensures
        0x20 <= c as int && c as int <= 0x7e ==> columns(c) == Some(1usize),
        (c as int) < 0x20 || c as int == 0x7f ==> columns(c) is None,
{
}

/// Printable ASCII text takes its number of characters divided by the width, rounded up, and at
/// least one row.
pub proof fn law_ascii_text_fills_its_rows(text: Seq<char>, width: nat)
    requires
        width > 0,
        forall|i: int| 0 <= i < text.len() ==> 0x20 <= #[trigger] text[i] as int && text[i] as int
            <= 0x7e,
    ensures
        text.len() == 0 ==> row_count(text, width) == 1,
        text.len() > 0 ==> row_count(text, width) == (text.len() + width - 1) / width as int,
{
    if text.len() > 0 {
        assert forall|i: int| 0 <= i < text.len() implies (#[trigger] text[i]) != '\t' && columns(
            text[i],
        ) is Some && columns(text[i])->0 == 1nat by {
            law_ascii_columns(text[i]);
        }
        law_even_text_fills_its_rows(text, 1, width);
        let n = text.len() as int;
        let w = width as int;
        assert(width / 1nat == width) by (nonlinear_arith);
        assert((n - 1) / w + 1 == (n + w - 1) / w) by (nonlinear_arith)
            requires
                w > 0,
                n > 0,
        ;
    }
}

/// A number below 65536 is kept as it is, and beyond that it begins again.
pub proof fn law_short_numbers_are_kept(n: nat)
    ensures
        n < 0x10000 ==> short(n) == n,
        short(n + 0x10000) == short(n),
{
}

/// A tab begins no new row, nor does a character without columns.
pub proof fn law_tabs_and_zero_width_add_no_row(text: Seq<char>, c: char, width: nat)
    requires
        stays_on_its_row(c),
    ensures
        row_count(text.push(c), width) == row_count(text, width),
{
    assert(text.push(c).drop_last() =~= text);
}

/// A character without columns that is no tab does not move the cursor, wherever it stands: the text
/// is laid out as if it were not there.
pub proof fn law_zero_width_moves_nothing(text: Seq<char>, c: char, rest: Seq<char>, width: nat)
    requires
        c != '\t',
        columns(c) is None || columns(c) == Some(0usize),
    ensures
        cursor_after(text.push(c), width) == cursor_after(text, width),
        cursor_after(text.push(c) + rest, width) == cursor_after(text + rest, width),
        row_count(text.push(c) + rest, width) == row_count(text + rest, width),
    decreases rest.len(),
{
    let with = text.push(c) + rest;
    let without = text + rest;
    assert(text.push(c).drop_last() =~= text);
    if rest.len() == 0 {
        assert(with =~= text.push(c));
        assert(without =~= text);
    } else {
        law_zero_width_moves_nothing(text, c, rest.drop_last(), width);
        assert(with.drop_last() =~= text.push(c) + rest.drop_last());
        assert(without.drop_last() =~= text + rest.drop_last());
    }
}

/// Text that is added at the end never takes rows away. It adds none if it is made of tabs, or of
/// characters without columns.
pub proof fn law_more_text_takes_no_fewer_rows(text: Seq<char>, more: Seq<char>, width: nat)
    ensures
        row_count(text + more, width) >= row_count(text, width),
        (forall|i: int| 0 <= i < more.len() ==> stays_on_its_row(#[trigger] more[i])) ==> row_count(
            text + more,
            width,
        ) == row_count(text, width),
    decreases more.len(),
{
    let all = text + more;
    if more.len() == 0 {
        assert(all =~= text);
    } else {
        let before = more.drop_last();
        law_more_text_takes_no_fewer_rows(text, before, width);
        assert(all.drop_last() =~= text + before);
        assert(all.last() == more[more.len() - 1]);
        if forall|i: int| 0 <= i < more.len() ==> stays_on_its_row(#[trigger] more[i]) {
            assert forall|i: int| 0 <= i < before.len() implies stays_on_its_row(
                #[trigger] before[i],
            ) by {
                assert(before[i] == more[i]);
            }
            assert(stays_on_its_row(more[more.len() - 1]));
        }
    }
}

/// Whether `wide`, on a terminal of `wider` columns, is not ahead of `narrow`, on one of `width`:
/// it is on an earlier row, or on the same and no further right, or `narrow` is at the end of its
/// row and has no more room left on it.
spec fn not_ahead(wide: TextCursor, narrow: TextCursor, width: nat, wider: nat) -> bool {
    ||| wide.rows < narrow.rows
    ||| wide.rows == narrow.rows && wide.col <= narrow.col
    ||| wide.rows == narrow.rows && narrow.col + 1 >= width && wider - wide.col >= width - narrow.col
}

proof fn lemma_advance_not_ahead(
    wide: TextCursor,
    narrow: TextCursor,
    c: char,
    width: nat,
    wider: nat,
)
    requires
        1 <= width <= wider,
        not_ahead(wide, narrow, width, wider),
    ensures
        not_ahead(advance(wide, c, wider), advance(narrow, c, width), width, wider),
{
}

/// A wider terminal needs no more rows for the same text.
pub proof fn law_wider_terminal_needs_no_more_rows(text: Seq<char>, width: nat, wider: nat)
    requires
        1 <= width <= wider,
    ensures
        row_count(text, wider) <= row_count(text, width),
{
    lemma_wider_not_ahead(text, width, wider);
}

proof fn lemma_wider_not_ahead(text: Seq<char>, width: nat, wider: nat)
    requires
        1 <= width <= wider,
    ensures
        not_ahead(cursor_after(text, wider), cursor_after(text, width), width, wider),
    decreases text.len(),
{
    if text.len() > 0 {
        let before = text.drop_last();
        lemma_wider_not_ahead(before, width, wider);
        lemma_advance_not_ahead(
            cursor_after(before, wider),
            cursor_after(before, width),
            text.last(),
            width,
            wider,
        );
    }
}

/// A character of two columns that finds only one left on its row begins a new one.
pub proof fn law_wide_character_wraps_early(text: Seq<char>, c: char, width: nat)
    requires
        width >= 2,
        columns(c) == Some(2usize),
        cursor_after(text, width).col == width - 1,
    ensures
        row_count(text.push(c), width) == row_count(text, width) + 1,
{
    assert(text.push(c).drop_last() =~= text);
}

/// The columns that the characters of a text take together.
pub open spec fn text_columns(text: Seq<char>) -> nat
    decreases text.len(),
{
    if text.len() == 0 {
        0
    } else {
        text_columns(text.drop_last()) + match columns(text.last()) {
            Some(w) => w as nat,
            None => 0,
        }
    }
}

/// Whether a text has no tabs and no character that is wider than `width`.
pub open spec fn each_fits(text: Seq<char>, width: nat) -> bool {
    forall|i: int|
        0 <= i < text.len() ==> (#[trigger] text[i]) != '\t' && (columns(text[i]) matches Some(w)
            ==> w <= width)
}

/// Dividing the width of a text by that of the terminal never gives more rows than are counted. (It
/// may give fewer.)
pub proof fn law_no_fewer_rows_than_the_columns_need(text: Seq<char>, width: nat)
    requires
        width > 0,
        each_fits(text, width),
    ensures
        (text_columns(text) + width - 1) / width as int <= row_count(text, width),
{
    lemma_columns_placed(text, width);
    let rows = row_count(text, width);
    let total = text_columns(text);
    assert((total + width - 1) / width as int <= rows) by (nonlinear_arith)
        requires
            width > 0,
            total <= rows * width,
    ;
}

proof fn lemma_columns_placed(text: Seq<char>, width: nat)
    requires
        width > 0,
        each_fits(text, width),
    ensures
        cursor_after(text, width).rows >= 1,
        cursor_after(text, width).col <= width,
        text_columns(text) <= (cursor_after(text, width).rows - 1) * width + cursor_after(
            text,
            width,
        ).col,
        text_columns(text) <= cursor_after(text, width).rows * width,
    decreases text.len(),
{
    if text.len() > 0 {
        let before = text.drop_last();
        assert forall|i: int| 0 <= i < before.len() implies (#[trigger] before[i]) != '\t' && (
        columns(before[i]) matches Some(w) ==> w <= width) by {
            assert(before[i] == text[i]);
        }
        assert(text[text.len() - 1] != '\t');
        lemma_columns_placed(before, width);
    }
    let at = cursor_after(text, width);
    if text.len() > 0 {
        let was = cursor_after(text.drop_last(), width);
        assert((was.rows + 1 - 1) * width == (was.rows - 1) * width + width) by (nonlinear_arith);
    }
    assert(at.rows * width == (at.rows - 1) * width + width) by (nonlinear_arith);
}

/// Where all characters of a text take the same number of columns, each row holds as many of them
/// as fit on it, whatever that leaves over: a terminal of seven columns takes three wide characters
/// on a row.
pub proof fn law_even_text_fills_its_rows(text: Seq<char>, each: nat, width: nat)
    requires
        0 < each <= width,
        text.len() > 0,
        forall|i: int|
            0 <= i < text.len() ==> (#[trigger] text[i]) != '\t' && columns(text[i]) is Some
                && columns(text[i])->0 == each,
    ensures
        row_count(text, width) == (text.len() - 1) / (width / each) as int + 1,
        cursor_after(text, width).col == each * ((text.len() - 1) % (width / each) as int + 1),
    decreases text.len(),
{
    let per = (width / each) as int;
    let n = text.len() - 1;
    assert(per >= 1 && each * per <= width < each * (per + 1)) by (nonlinear_arith)
        requires
            0 < each <= width,
            per == (width / each) as int,
    ;
    assert(text[n] != '\t');
    let before = text.drop_last();
    if n == 0 {
        assert(cursor_after(before, width) == (TextCursor { rows: 1, col: 0 }));
        assert(n / per == 0 && n % per == 0) by (nonlinear_arith)
            requires
                n == 0,
                per >= 1,
        ;
        assert(each * 1 == each) by (nonlinear_arith);
    } else {
        assert forall|i: int| 0 <= i < before.len() implies (#[trigger] before[i]) != '\t'
            && columns(before[i]) is Some && columns(before[i])->0 == each by {
            assert(before[i] == text[i]);
        }
        law_even_text_fills_its_rows(before, each, width);
        let q = (n - 1) / per;
        let r = (n - 1) % per;
        assert(n - 1 == q * per + r && 0 <= r < per) by (nonlinear_arith)
            requires
                per >= 1,
                q == (n - 1) / per,
                r == (n - 1) % per,
        ;
        let at = cursor_after(before, width);
        let next = cursor_after(text, width);
        assert(at.rows == q + 1 && at.col == each * (r + 1));
        assert(text.last() == text[n]);
        assert(next == advance(at, text[n], width));
        if r + 1 < per {
            assert(each * (r + 1) + each == each * (r + 2) && each * (r + 2) <= width)
                by (nonlinear_arith)
                requires
                    each > 0,
                    r + 1 < per,
                    each * per <= width,
            ;
            vstd::arithmetic::div_mod::lemma_fundamental_div_mod_converse(n, per, q, r + 1);
            assert(next.rows == q + 1 && next.col == each * (r + 2));
            assert(n % per + 1 == r + 2);
        } else {
            assert(each * (r + 1) + each > width) by (nonlinear_arith)
                requires
                    r + 1 == per,
                    width < each * (per + 1),
            ;
            assert(n == (q + 1) * per + 0) by (nonlinear_arith)
                requires
                    n - 1 == q * per + r,
                    r + 1 == per,
            ;
            vstd::arithmetic::div_mod::lemma_fundamental_div_mod_converse(n, per, q + 1, 0);
            assert(each * 1 == each) by (nonlinear_arith);
            assert(next.rows == q + 2 && next.col == each);
            assert(n % per + 1 == 1);
        }
    }
}

/// Number of physical terminal rows that a history line occupies once the terminal soft-wraps it
/// at `wrap_width`.
///
/// The count is that of a real terminal and not the line's width divided by `wrap_width`: a glyph
/// of two columns cannot be placed in the last column, so the terminal wraps early and uses up an
/// extra row. It is kept modulo the machine's word, which no text in memory can reach.
pub fn wrapped_row_count(line: &HyperlinkLine, wrap_width: usize) -> (r: usize)
    ensures
        r == word(row_count(line.line.text(), wrap_width as nat)),
        line.line.text().len() < usize::MAX ==> r == row_count(line.line.text(), wrap_width as nat),
{
    proof {
        let rows = row_count(line.line.text(), wrap_width as nat);
        law_row_count_bounds(line.line.text(), wrap_width as nat);
        if rows <= usize::MAX {
            lemma_small_word(rows);
        }
        lemma_small_word(1);
    }
    if wrap_width == 0 {
        return 1;
    }
    let mut rows: usize = 1;
    let mut col: usize = 0;
    let mut i: usize = 0;
    while i < line.line.spans.len()
        invariant
            wrap_width > 0,
            i <= line.line.spans.len(),
            rows == word(
                cursor_after(spans_text(line.line.spans@.take(i as int)), wrap_width as nat).rows,
            ),
            col == cursor_after(spans_text(line.line.spans@.take(i as int)), wrap_width as nat).col,
        decreases line.line.spans.len() - i,
    {
        let ghost before = spans_text(line.line.spans@.take(i as int));
        let ghost content = line.line.spans@[i as int].content@;
        proof {
            assert(before + content.take(0) =~= before);
        }
        let text = line.line.spans[i].content.as_str();
        for ch in it: text.chars()
            invariant
                wrap_width > 0,
                it.seq() == content,
                rows == word(
                    cursor_after(
                        before + content.take(it.index() as int),
                        wrap_width as nat,
                    ).rows,
                ),
                col == cursor_after(before + content.take(it.index() as int), wrap_width as nat).col,
        {
            let ghost seen = before + content.take(it.index() as int);
            proof {
                let next = before + content.take(it.index() + 1);
                assert(next.drop_last() =~= seen);
                assert(next.last() == ch);
            }
            if ch == '\t' {
                let last: usize = wrap_width - 1;
                let to_stop: usize = 8 - col % 8;
                col = if col <= last && to_stop <= last - col {
                    col + to_stop
                } else {
                    last
                };
            } else {
                let ch_width: usize = match char_width(ch) {
                    Some(w) => w,
                    None => 0,
                };
                if ch_width > 0 {
                    if ch_width > wrap_width || col > wrap_width - ch_width {
                        proof {
                            lemma_word_add(cursor_after(seen, wrap_width as nat).rows, 1);
                            lemma_small_word(1);
                        }
                        rows = rows.wrapping_add(1);
                        col = 0;
                    }
                    col = col + ch_width;
                }
            }
        }
        proof {
            assert(content.take(content.len() as int) =~= content);
            assert(line.line.spans@.take(i + 1).drop_last() =~= line.line.spans@.take(i as int));
        }
        i = i + 1;
    }
    proof {
        assert(line.line.spans@.take(line.line.spans@.len() as int) =~= line.line.spans@);
    }
    rows
}

} // verus!
