//! History text: styled spans and the lines made of them.

use vstd::prelude::*;
use crate::style::Style;

verus! {

/// A run of text in one style.
#[derive(Debug, PartialEq, Eq)]
pub struct Span {
    pub content: String,
    pub style: Style,
}

/// A line of text. Its own style is laid over the styles of its spans.
#[derive(Debug, PartialEq, Eq)]
pub struct Line {
    pub spans: Vec<Span>,
    pub style: Style,
}

/// The visible text of some spans, one after the other.
pub open spec fn spans_text(spans: Seq<Span>) -> Seq<char>
    decreases spans.len(),
{
    if spans.len() == 0 {
        seq![]
    } else {
        spans_text(spans.drop_last()) + spans.last().content@
    }
}

impl Line {
    /// The visible text of the line.
    pub open spec fn text(self) -> Seq<char> {
        spans_text(self.spans@)
    }
}

/// The text of some spans is that of the first of them followed by that of the others; that of one
/// span is its content, and that of none is empty.
pub proof fn law_span_texts_add_up(spans: Seq<Span>, more: Seq<Span>)
    ensures
        spans_text(spans + more) == spans_text(spans) + spans_text(more),
        spans.len() == 0 ==> spans_text(spans) == Seq::<char>::empty(),
        spans.len() == 1 ==> spans_text(spans) == spans[0].content@,
    decreases more.len(),
{
    if more.len() == 0 {
        assert(spans + more =~= spans);
        assert(spans_text(spans) + spans_text(more) =~= spans_text(spans));
    } else {
        law_span_texts_add_up(spans, more.drop_last());
        assert((spans + more).drop_last() =~= spans + more.drop_last());
        assert(spans_text(spans + more) =~= spans_text(spans) + spans_text(more));
    }
    if spans.len() == 1 {
        assert(spans.drop_last() =~= seq![]);
        assert(spans_text(spans.drop_last()) =~= seq![]);
        assert(spans_text(spans) =~= spans[0].content@);
    }
}

/// A line's text is that of all its spans.
pub proof fn law_line_text_is_that_of_its_spans(line: Line)
    ensures
        line.text() == spans_text(line.spans@),
{
}

/// A line that may carry hyperlinks.
///
/// `decorated` holds the spans to print in place of the line's own: those of
/// [`merged_spans`], with the hyperlink sequences worked into them. A plain line has none. The
/// space that the line takes is that of its visible text either way.
#[derive(Debug, PartialEq, Eq)]
pub struct HyperlinkLine {
    pub line: Line,
    pub decorated: Option<Vec<Span>>,
}

/// A span with a line's style laid over its own.
pub open spec fn merged_span(span: Span, style: Style) -> Span {
    Span { content: span.content, style: span.style.patched(style) }
}

impl Line {
    /// The spans of the line with the line's style laid over each.
    pub open spec fn merged(self) -> Seq<Span> {
        self.spans@.map_values(|span: Span| merged_span(span, self.style))
    }
}

impl HyperlinkLine {
    /// The spans that are printed for the line.
    pub open spec fn printed(self) -> Seq<Span> {
        match self.decorated {
            Some(spans) => spans@,
            None => self.line.merged(),
        }
    }

    /// A line without hyperlinks.
    pub open spec fn plain(line: Line) -> HyperlinkLine {
        HyperlinkLine { line, decorated: None }
    }
}

/// A plain line is the line itself and prints each of its spans, with the line's style laid over it;
/// a decorated one prints what it was decorated with.
pub proof fn law_what_a_line_prints(line: HyperlinkLine, i: int)
    ensures
        HyperlinkLine::plain(line.line).line == line.line,
        HyperlinkLine::plain(line.line).decorated is None,
        line.decorated matches Some(spans) ==> line.printed() == spans@,
        line.decorated is None ==> line.printed().len() == line.line.spans@.len(),
        line.decorated is None && 0 <= i < line.line.spans@.len() ==> {
            &&& line.printed()[i].content == line.line.spans@[i].content
            &&& line.printed()[i].style == line.line.spans@[i].style.patched(line.line.style)
        },
{
}

/// Merges the line-level style into each span so that colours reflect line styles (a blockquote
/// with a green foreground, for one).
pub fn merged_spans(line: &Line) -> (r: Vec<Span>)
    ensures
        r@ == line.merged(),
{
    let mut merged: Vec<Span> = Vec::new();
    let mut i: usize = 0;
    while i < line.spans.len()
        invariant
            i <= line.spans.len(),
            merged@ == line.merged().take(i as int),
        decreases line.spans.len() - i,
    {
        let span = &line.spans[i];
        merged.push(Span { content: span.content.clone(), style: span.style.patch(line.style) });
        assert(merged@ =~= line.merged().take(i + 1));
        i = i + 1;
    }
    assert(merged@ =~= line.merged());
    merged
}

/// Lines without hyperlinks.
pub fn plain_hyperlink_lines(lines: Vec<Line>) -> (r: Vec<HyperlinkLine>)
    ensures
        r@ == lines@.map_values(|line: Line| HyperlinkLine::plain(line)),
{
    let mut plain: Vec<HyperlinkLine> = Vec::new();
    for line in it: lines
        invariant
            it.seq() == lines@,
            plain@.len() == it.index(),
            forall|i: int|
                0 <= i < it.index() ==> #[trigger] plain@[i] == HyperlinkLine::plain(lines@[i]),
    {
        plain.push(HyperlinkLine { line, decorated: None });
    }
    assert(plain@ =~= lines@.map_values(|line: Line| HyperlinkLine::plain(line)));
    plain
}

} // verus!
