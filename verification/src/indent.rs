//! The indentation that the continuation rows of a wrapped line repeat.

use vstd::prelude::*;
use crate::style::Style;
use crate::text::{spans_text, Line, Span};

verus! {

/// Whether a character has the Unicode property `White_Space`.
pub open spec fn is_white_space(c: char) -> bool {
    let code = c as int;
    ||| 0x09 <= code <= 0x0d
    ||| code == 0x20
    ||| code == 0x85
    ||| code == 0xa0
    ||| code == 0x1680
    ||| 0x2000 <= code <= 0x200a
    ||| 0x2028 <= code <= 0x2029
    ||| code == 0x202f
    ||| code == 0x205f
    ||| code == 0x3000
}

/// Calls `char::is_whitespace`. Believed of it: it tells whether the character has the Unicode
/// property `White_Space`.
#[verifier::external_body]
fn is_whitespace(c: char) -> (r: bool)
    ensures
        r == is_white_space(c),
{
    c.is_whitespace()
}

/// The number of whitespace characters that a text begins with.
pub open spec fn white_prefix(text: Seq<char>) -> nat
    decreases text.len(),
{
    if text.len() > 0 && is_white_space(text[0]) {
        1 + white_prefix(text.drop_first())
    } else {
        0
    }
}

/// A span as its characters and their style.
pub struct StyledText {
    pub content: Seq<char>,
    pub style: Style,
}

impl View for Span {
    type V = StyledText;

    open spec fn view(&self) -> StyledText {
        StyledText { content: self.content@, style: self.style }
    }
}

/// Spans as their characters and styles.
pub open spec fn spans_view(spans: Seq<Span>) -> Seq<StyledText> {
    spans.map_values(|span: Span| span@)
}

/// The whitespace that some spans begin with, in the styles it has there. A span that holds
/// none of it leaves nothing.
pub open spec fn leading_whitespace(spans: Seq<StyledText>) -> Seq<StyledText>
    decreases spans.len(),
{
    if spans.len() == 0 {
        seq![]
    } else {
        let first = spans[0];
        let end = white_prefix(first.content);
        (if end > 0 {
            seq![StyledText { content: first.content.take(end as int), style: first.style }]
        } else {
            seq![]
        }) + (if end < first.content.len() {
            seq![]
        } else {
            leading_whitespace(spans.drop_first())
        })
    }
}

proof fn lemma_white_prefix(text: Seq<char>, n: nat)
    requires
        n <= text.len(),
        forall|i: int| 0 <= i < n ==> is_white_space(#[trigger] text[i]),
        n < text.len() ==> !is_white_space(text[n as int]),
    ensures
        white_prefix(text) == n,
    decreases n,
{
    if n > 0 {
        let rest = text.drop_first();
        assert forall|i: int| 0 <= i < n - 1 implies is_white_space(#[trigger] rest[i]) by {
            assert(rest[i] == text[i + 1]);
        }
        if n < text.len() {
            assert(rest[n - 1] == text[n as int]);
        }
        lemma_white_prefix(rest, (n - 1) as nat);
    }
}

fn white_prefix_len(text: &str) -> (r: usize)
    ensures
        r == white_prefix(text@),
        r <= text@.len(),
{
    let len: usize = text.unicode_len();
    let mut end: usize = 0;
    let mut leading = true;
    for ch in it: text.chars()
        invariant
            it.seq() == text@,
            len == text@.len(),
            end <= it.index(),
            leading ==> end == it.index(),
            forall|i: int| 0 <= i < end ==> is_white_space(#[trigger] text@[i]),
            !leading ==> end < it.index() && !is_white_space(text@[end as int]),
    {
        if leading && is_whitespace(ch) {
            end = end + 1;
        } else {
            leading = false;
        }
    }
    proof {
        lemma_white_prefix(text@, end as nat);
    }
    end
}

/// The whitespace that a line begins with, as a line in the same styles. It ends in front of the
/// first character that is no whitespace, which may be in any span.
pub fn leading_whitespace_prefix(line: &Line) -> (r: Line)
    ensures
        spans_view(r.spans@) == leading_whitespace(spans_view(line.spans@)),
        r.style == line.style,
{
    let mut spans: Vec<Span> = Vec::new();
    let ghost all = spans_view(line.spans@);
    let mut i: usize = 0;
    let mut done = false;
    assert(all.skip(0) =~= all);
    assert(spans_view(spans@) + leading_whitespace(all) =~= leading_whitespace(all));
    while i < line.spans.len() && !done
        invariant
            i <= line.spans.len(),
            all == spans_view(line.spans@),
            leading_whitespace(all) == spans_view(spans@) + (if done {
                seq![]
            } else {
                leading_whitespace(all.skip(i as int))
            }),
        decreases line.spans.len() - i,
    {
        let span = &line.spans[i];
        let content = span.content.as_str();
        let prefix_end: usize = white_prefix_len(content);
        let len: usize = content.unicode_len();
        let ghost before = spans_view(spans@);
        proof {
            let rest = all.skip(i as int);
            assert(rest[0] == span@);
            assert(rest.drop_first() =~= all.skip(i + 1));
        }
        if prefix_end > 0 {
            let prefix = Span {
                content: content.substring_char(0, prefix_end).to_owned(),
                style: span.style,
            };
            spans.push(prefix);
            assert(prefix@.content =~= span@.content.take(prefix_end as int));
            assert(spans_view(spans@) =~= before + seq![prefix@]);
        }
        if prefix_end < len {
            done = true;
        }
        i = i + 1;
        assert(leading_whitespace(all) =~= spans_view(spans@) + (if done {
            seq![]
        } else {
            leading_whitespace(all.skip(i as int))
        }));
    }
    assert(leading_whitespace(all) =~= spans_view(spans@));
    Line { spans, style: line.style }
}

proof fn lemma_text_front(spans: Seq<Span>)
    requires
        spans.len() > 0,
    ensures
        spans_text(spans) == spans[0].content@ + spans_text(spans.drop_first()),
    decreases spans.len(),
{
    let rest = spans.drop_first();
    if spans.len() == 1 {
        assert(spans.drop_last() =~= seq![]);
        assert(rest =~= seq![]);
        assert(spans_text(spans.drop_last()) =~= seq![]);
        assert(spans_text(rest) =~= seq![]);
        assert(spans_text(spans) =~= spans[0].content@ + spans_text(rest));
    } else {
        lemma_text_front(spans.drop_last());
        assert(spans.drop_last().drop_first() =~= rest.drop_last());
        assert(spans_text(spans) =~= spans[0].content@ + spans_text(rest));
    }
}

proof fn lemma_white_prefix_bounds(text: Seq<char>)
    ensures
        white_prefix(text) <= text.len(),
        forall|i: int| 0 <= i < white_prefix(text) ==> is_white_space(#[trigger] text[i]),
        white_prefix(text) < text.len() ==> !is_white_space(text[white_prefix(text) as int]),
    decreases text.len(),
{
    if text.len() > 0 && is_white_space(text[0]) {
        let rest = text.drop_first();
        lemma_white_prefix_bounds(rest);
        assert forall|i: int| 0 <= i < white_prefix(text) implies is_white_space(
            #[trigger] text[i],
        ) by {
            if i > 0 {
                assert(rest[i - 1] == text[i]);
            }
        }
        if white_prefix(text) < text.len() {
            assert(rest[white_prefix(rest) as int] == text[white_prefix(text) as int]);
        }
    }
}

proof fn lemma_white_prefix_add(a: Seq<char>, b: Seq<char>)
    ensures
        white_prefix(a + b) == if white_prefix(a) < a.len() {
            white_prefix(a)
        } else {
            a.len() + white_prefix(b)
        },
{
    lemma_white_prefix_bounds(a);
    lemma_white_prefix_bounds(b);
    let n = if white_prefix(a) < a.len() {
        white_prefix(a)
    } else {
        a.len() + white_prefix(b)
    };
    let all = a + b;
    assert forall|i: int| 0 <= i < n implies is_white_space(#[trigger] all[i]) by {
        if i < a.len() {
            assert(all[i] == a[i]);
        } else {
            assert(all[i] == b[i - a.len()]);
        }
    }
    lemma_white_prefix(all, n);
}

/// The text of a line's leading whitespace is the longest run of whitespace that the line's text
/// begins with, across the boundaries of its spans.
pub proof fn law_prefix_is_the_longest_whitespace_run(spans: Seq<Span>, prefix: Seq<Span>)
    requires
        spans_view(prefix) == leading_whitespace(spans_view(spans)),
    ensures
        spans_text(prefix) == spans_text(spans).take(white_prefix(spans_text(spans)) as int),
        spans_text(prefix).len() <= spans_text(spans).len(),
        spans_text(prefix) == spans_text(spans).take(spans_text(prefix).len() as int),
        forall|i: int|
            0 <= i < spans_text(prefix).len() ==> is_white_space(#[trigger] spans_text(prefix)[i]),
        spans_text(prefix).len() < spans_text(spans).len() ==> !is_white_space(
            spans_text(spans)[spans_text(prefix).len() as int],
        ),
    decreases spans.len(),
{
    let text = spans_text(spans);
    lemma_white_prefix_bounds(text);
    if spans.len() == 0 {
        assert(spans_view(prefix).len() == 0);
        assert(spans_text(prefix) =~= text.take(0));
    } else {
        let first = spans[0].content@;
        let rest = spans.drop_first();
        let end = white_prefix(first);
        lemma_white_prefix_bounds(first);
        lemma_text_front(spans);
        lemma_white_prefix_add(first, spans_text(rest));
        assert(spans_view(spans)[0] == spans[0]@);
        assert(spans_view(spans).drop_first() =~= spans_view(rest));
        let tail = if end > 0 {
            prefix.drop_first()
        } else {
            prefix
        };
        if end > 0 {
            let lead = leading_whitespace(spans_view(spans));
            assert(lead[0] == (StyledText {
                content: first.take(end as int),
                style: spans[0].style,
            }));
            assert(prefix.len() == lead.len());
            assert(spans_view(prefix)[0] == prefix[0]@);
            assert(prefix[0].content@ == first.take(end as int));
            lemma_text_front(prefix);
        }
        if end < first.len() {
            assert(spans_view(tail).len() == 0);
            assert(spans_text(tail) =~= seq![]);
            assert(spans_text(prefix) =~= first.take(end as int));
            assert(spans_text(prefix) =~= text.take(end as int));
        } else {
            assert(spans_view(tail) =~= leading_whitespace(spans_view(rest))) by {
                let lead = leading_whitespace(spans_view(spans));
                let below = leading_whitespace(spans_view(rest));
                if end > 0 {
                    assert(lead =~= seq![lead[0]] + below);
                    assert(spans_view(tail) =~= spans_view(prefix).drop_first());
                    assert(lead.drop_first() =~= below);
                } else {
                    assert(lead =~= below);
                }
            }
            law_prefix_is_the_longest_whitespace_run(rest, tail);
            assert(first.take(end as int) =~= first);
            assert(spans_text(prefix) =~= first + spans_text(tail));
            assert(spans_text(prefix) =~= text.take(white_prefix(text) as int));
        }
    }
}

/// Whether all characters of a text are whitespace.
pub open spec fn is_blank(text: Seq<char>) -> bool {
    forall|i: int| 0 <= i < text.len() ==> is_white_space(#[trigger] text[i])
}

/// The indentation is taken span by span. A span that is all whitespace belongs to it as it is, or
/// leaves nothing if it is empty, and what follows counts as well. From the first other span on, only
/// the whitespace in front of its first visible character does, in the span's style.
pub proof fn law_indentation_goes_span_by_span(spans: Seq<StyledText>)
    ensures
        spans.len() == 0 ==> leading_whitespace(spans) == Seq::<StyledText>::empty(),
        spans.len() > 0 && is_blank(spans[0].content) ==> leading_whitespace(spans) == (
        if spans[0].content.len() > 0 {
            seq![spans[0]]
        } else {
            seq![]
        }) + leading_whitespace(spans.drop_first()),
        spans.len() > 0 && !is_blank(spans[0].content) ==> {
            let content = spans[0].content;
            let lead = leading_whitespace(spans);
            if is_white_space(content[0]) {
                &&& lead.len() == 1
                &&& lead[0].style == spans[0].style
                &&& 0 < lead[0].content.len() < content.len()
                &&& lead[0].content == content.take(lead[0].content.len() as int)
                &&& is_blank(lead[0].content)
                &&& !is_white_space(content[lead[0].content.len() as int])
            } else {
                lead.len() == 0
            }
        },
{
    if spans.len() > 0 {
        let first = spans[0];
        let content = first.content;
        let end = white_prefix(content);
        lemma_white_prefix_bounds(content);
        if is_blank(content) {
            if end < content.len() {
                assert(is_white_space(content[end as int]));
            }
            assert(content.take(end as int) =~= content);
            assert((StyledText { content: content.take(end as int), style: first.style }) == first);
        } else {
            assert(end < content.len());
            let part = content.take(end as int);
            assert forall|i: int| 0 <= i < part.len() implies is_white_space(#[trigger] part[i]) by {
                assert(part[i] == content[i]);
            }
        }
    }
}

} // verus!
