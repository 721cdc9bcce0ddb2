//! Styled text: spans of one style, lines of spans, and whole texts.

use vstd::prelude::*;

use crate::style::{plain_style, Alignment, Style};

verus! {

/// A piece of text in one style.
#[derive(Debug, Clone, PartialEq)]
pub struct Span {
    pub content: String,
    pub style: Style,
}

/// A line of spans, with an optional line style and alignment.
#[derive(Debug, Clone, PartialEq)]
pub struct Line {
    pub spans: Vec<Span>,
    pub style: Style,
    pub alignment: Option<Alignment>,
}

/// A sequence of lines with a base style.
#[derive(Debug, Clone, PartialEq)]
pub struct Text {
    pub lines: Vec<Line>,
    pub style: Style,
    pub alignment: Option<Alignment>,
}

/// The contents of the spans, concatenated.
pub open spec fn spans_content(spans: Seq<Span>) -> Seq<char>
    decreases spans.len(),
{
    if spans.len() == 0 {
        Seq::empty()
    } else {
        spans_content(spans.drop_last()) + spans.last().content@
    }
}

impl Span {
    /// A span in the plain style.
    pub fn raw(content: &str) -> (s: Span)
        ensures
            s.content@ == content@,
            s.style == plain_style(),
    {
        Span { content: content.to_owned(), style: Style::new() }
    }

    /// A span in the given style.
    pub fn styled(content: &str, style: Style) -> (s: Span)
        ensures
            s.content@ == content@,
            s.style == style,
    {
        Span { content: content.to_owned(), style }
    }

    /// A span owning the given string, in the given style.
    pub fn from_string(content: String, style: Style) -> (s: Span)
        ensures
            s.content == content,
            s.style == style,
    {
        Span { content, style }
    }

    /// A copy of this span.
    pub fn duplicate(&self) -> (s: Span)
        ensures
            s == *self,
    {
        Span { content: self.content.clone(), style: self.style }
    }
}

/// A copy of a sequence of spans.
pub fn duplicate_spans(spans: &Vec<Span>) -> (r: Vec<Span>)
    ensures
        r@ == spans@,
{
    let mut r: Vec<Span> = Vec::new();
    let mut i: usize = 0;
    while i < spans.len()
        invariant
            i <= spans.len(),
            r@ == spans@.take(i as int),
        decreases spans.len() - i,
    {
        r.push(spans[i].duplicate());
        i = i + 1;
        assert(r@ =~= spans@.take(i as int));
    }
    assert(spans@.take(spans.len() as int) =~= spans@);
    r
}

impl Line {
    /// The empty line.
    pub fn empty() -> (l: Line)
        ensures
            l.spans@.len() == 0,
            l.style == plain_style(),
            l.alignment.is_none(),
    {
        Line { spans: Vec::new(), style: Style::new(), alignment: None }
    }

    /// A line of the given spans, unstyled and unaligned.
    pub fn from_spans(spans: Vec<Span>) -> (l: Line)
        ensures
            l.spans == spans,
            l.style == plain_style(),
            l.alignment.is_none(),
    {
        Line { spans, style: Style::new(), alignment: None }
    }

    /// A line of one span in the given style.
    pub fn from_span(span: Span) -> (l: Line)
        ensures
            l.spans@ == seq![span],
            l.style == plain_style(),
            l.alignment.is_none(),
    {
        let mut spans = Vec::new();
        spans.push(span);
        Line { spans, style: Style::new(), alignment: None }
    }

    /// A line of one plain span with the given content.
    pub fn raw(content: &str) -> (l: Line)
        ensures
            l.spans@.len() == 1,
            l.spans@[0].content@ == content@,
            l.spans@[0].style == plain_style(),
            l.style == plain_style(),
            l.alignment.is_none(),
    {
        Line::from_span(Span::raw(content))
    }

    /// `self` with the given alignment.
    pub fn alignment(self, alignment: Alignment) -> (l: Line)
        ensures
            l.spans == self.spans,
            l.style == self.style,
            l.alignment == Some(alignment),
    {
        Line { alignment: Some(alignment), ..self }
    }

    /// A copy of this line.
    pub fn duplicate(&self) -> (l: Line)
        ensures
            l.spans@ == self.spans@,
            l.style == self.style,
            l.alignment == self.alignment,
    {
        Line { spans: duplicate_spans(&self.spans), style: self.style, alignment: self.alignment }
    }
}

impl Text {
    /// A text of the given lines, unstyled and unaligned.
    pub fn from_lines(lines: Vec<Line>) -> (t: Text)
        ensures
            t.lines == lines,
            t.style == plain_style(),
            t.alignment.is_none(),
    {
        Text { lines, style: Style::new(), alignment: None }
    }
}

} // verus!
