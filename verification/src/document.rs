//! Hit-testing: map (screen) coordinates back to Markdown elements.
//!
//! [`MarkdownDocument`] pairs the rendered [`Text`] with per-span
//! annotations recording which Markdown element produced each piece of
//! output. [`MarkdownDocument::element_at`] takes coordinates in Text space
//! (line index + display-cell column); [`MarkdownDocument::element_at_screen`]
//! takes absolute screen coordinates, given a [`ParagraphView`] describing
//! how a paragraph widget renders the text (area, scroll, wrap, alignment).

use vstd::prelude::*;

use crate::style::{Alignment, Rect};
use crate::text::{Line, Span, Text};
use crate::unicode::display_width;
use crate::wrap::{
    cluster_width, hit_src_col, lemma_left_row_columns, lemma_unaligned_row_ignores_offset, line_clusters, spec_hit_src_col, spec_truncated_row,
    spec_wrapped_rows, truncated_row, wrapped_rows,
};

verus! {

/// Identifier of an [`Element`] within a [`MarkdownDocument`]: its index in
/// the document's element arena. Every span of one element occurrence
/// shares the id.
#[derive(Debug, Clone, Copy, PartialEq, Eq, Hash, Structural)]
pub struct ElementId(pub u32);

/// The GFM alert kind of a block quote (`> [!NOTE]` etc.).
#[derive(Debug, Clone, Copy, PartialEq, Eq, Structural)]
pub enum QuoteKind {
    Note,
    Tip,
    Warning,
    Caution,
    Important,
}

/// The kind of a Markdown [`Element`], with its payload.
#[derive(Debug, Clone, PartialEq)]
pub enum ElementKind {
    /// Output not attributable to a specific element.
    Document,
    Paragraph,
    /// A heading of level 1 to 6.
    Heading { level: u8 },
    /// A code block; `lang` is `None` when unspecified.
    CodeBlock { lang: Option<String> },
    InlineCode,
    /// A block quote with its GFM alert kind, if any.
    BlockQuote { kind: Option<QuoteKind> },
    /// A list, ordered (`1.`) or not.
    List { ordered: bool },
    /// A list item; `Some(checked)` for task-list items.
    ListItem { checked: Option<bool> },
    /// A table (its separator row and cell separators).
    Table,
    /// A table cell; `row` 0 is the header row.
    TableCell { row: u16, col: u16, header: bool },
    /// A link with its rendered alt text and destination.
    Link { alt: String, url: String },
    /// An image with its alt text and URL.
    Image { alt: String, url: String },
    Strong,
    Emphasis,
    Strikethrough,
    Superscript,
    Subscript,
    /// Inline (`false`) or display (`true`) math.
    Math { display: bool },
    /// Raw HTML, inline or block.
    Html,
    /// A thematic break.
    Rule,
    /// A footnote reference with its label.
    FootnoteRef { label: String },
    /// A footnote definition with its label.
    FootnoteDef { label: String },
    DefinitionList,
    DefinitionTitle,
    Definition,
}

/// A Markdown element that produced (part of) the rendered output.
#[derive(Debug, Clone, PartialEq)]
pub struct Element {
    pub kind: ElementKind,
    /// The enclosing element, if any.
    pub parent: Option<ElementId>,
}

impl ElementKind {
    /// A copy of this kind.
    pub fn duplicate(&self) -> (k: ElementKind)
        ensures
            k == *self,
    {
        match self {
            ElementKind::Document => ElementKind::Document,
            ElementKind::Paragraph => ElementKind::Paragraph,
            ElementKind::Heading { level } => ElementKind::Heading { level: *level },
            ElementKind::CodeBlock { lang } => ElementKind::CodeBlock {
                lang: match lang {
                    Some(l) => Some(l.clone()),
                    None => None,
                },
            },
            ElementKind::InlineCode => ElementKind::InlineCode,
            ElementKind::BlockQuote { kind } => ElementKind::BlockQuote { kind: *kind },
            ElementKind::List { ordered } => ElementKind::List { ordered: *ordered },
            ElementKind::ListItem { checked } => ElementKind::ListItem { checked: *checked },
            ElementKind::Table => ElementKind::Table,
            ElementKind::TableCell { row, col, header } => ElementKind::TableCell {
                row: *row,
                col: *col,
                header: *header,
            },
            ElementKind::Link { alt, url } => ElementKind::Link { alt: alt.clone(), url: url.clone() },
            ElementKind::Image { alt, url } => ElementKind::Image {
                alt: alt.clone(),
                url: url.clone(),
            },
            ElementKind::Strong => ElementKind::Strong,
            ElementKind::Emphasis => ElementKind::Emphasis,
            ElementKind::Strikethrough => ElementKind::Strikethrough,
            ElementKind::Superscript => ElementKind::Superscript,
            ElementKind::Subscript => ElementKind::Subscript,
            ElementKind::Math { display } => ElementKind::Math { display: *display },
            ElementKind::Html => ElementKind::Html,
            ElementKind::Rule => ElementKind::Rule,
            ElementKind::FootnoteRef { label } => ElementKind::FootnoteRef { label: label.clone() },
            ElementKind::FootnoteDef { label } => ElementKind::FootnoteDef { label: label.clone() },
            ElementKind::DefinitionList => ElementKind::DefinitionList,
            ElementKind::DefinitionTitle => ElementKind::DefinitionTitle,
            ElementKind::Definition => ElementKind::Definition,
        }
    }
}

/// A display-cell column range `[start, end)` within one output line,
/// tagged with the element that produced it.
#[derive(Debug, Clone, Copy, PartialEq, Eq, Structural)]
pub struct SpanRange {
    pub start: u16,
    pub end: u16,
    pub element: ElementId,
}

/// The number of cells a span occupies in its line's annotations: its
/// display width, capped at `u16::MAX`.
pub open spec fn span_cells(s: Span) -> u16 {
    if display_width(s.content@) > 65535 {
        65535
    } else {
        display_width(s.content@) as u16
    }
}

/// The column just after some spans (saturating at `u16::MAX`).
pub open spec fn spans_end(spans: Seq<Span>) -> u16
    decreases spans.len(),
{
    if spans.len() == 0 {
        0
    } else {
        spans_end(spans.drop_last()).saturating_add(span_cells(spans.last()))
    }
}

/// The ranges tile the spans: one range per span, in order, each starting
/// where the previous ends and as wide as its span.
pub open spec fn tiles(ranges: Seq<SpanRange>, spans: Seq<Span>) -> bool {
    &&& ranges.len() == spans.len()
    &&& forall|k: int|
        0 <= k < ranges.len() ==> (#[trigger] ranges[k]).start == spans_end(spans.take(k))
            && ranges[k].end == spans_end(spans.take(k + 1))
}

/// Each line's annotations tile its spans.
pub open spec fn lines_tiled(lines: Seq<Line>, annotations: Seq<Vec<SpanRange>>) -> bool {
    &&& annotations.len() == lines.len()
    &&& forall|l: int| 0 <= l < lines.len() ==> tiles(#[trigger] annotations[l]@, lines[l].spans@)
}

/// The column after the first `j` spans is at most the column after the
/// first `k`, for `j <= k`.
proof fn lemma_spans_end_monotone(spans: Seq<Span>, j: int, k: int)
    requires
        0 <= j <= k <= spans.len(),
    ensures
        spans_end(spans.take(j)) <= spans_end(spans.take(k)),
    decreases k - j,
{
    if j < k {
        lemma_spans_end_monotone(spans, j, k - 1);
        assert(spans.take(k).drop_last() =~= spans.take(k - 1));
    }
}

/// Over tiled ranges, the first range at or after index `i` covering a
/// column between the start of range `i` and the start of range `k + 1`
/// is range `k`, where `k` is the span whose cells contain the column.
proof fn lemma_first_hit_from(ranges: Seq<SpanRange>, spans: Seq<Span>, i: int, k: int, col: u16)
    requires
        tiles(ranges, spans),
        0 <= i <= k < spans.len(),
        spans_end(spans.take(i)) <= col,
        spans_end(spans.take(k)) <= col < spans_end(spans.take(k + 1)),
    ensures
        first_hit(ranges.skip(i), col) == Some(ranges[k].element),
    decreases k - i,
{
    assert(ranges.skip(i)[0] == ranges[i]);
    if i < k {
        lemma_spans_end_monotone(spans, i + 1, k);
        assert(ranges.skip(i).drop_first() =~= ranges.skip(i + 1));
        lemma_first_hit_from(ranges, spans, i + 1, k, col);
    }
}

/// No range of tiled ranges covers a column at or after the end of the
/// spans.
proof fn lemma_first_hit_past_end(ranges: Seq<SpanRange>, spans: Seq<Span>, i: int, col: u16)
    requires
        tiles(ranges, spans),
        0 <= i <= spans.len(),
        col >= spans_end(spans),
    ensures
        first_hit(ranges.skip(i), col) is None,
    decreases spans.len() - i,
{
    if i < spans.len() {
        assert(ranges.skip(i)[0] == ranges[i]);
        lemma_spans_end_monotone(spans, i + 1, spans.len() as int);
        assert(spans.take(spans.len() as int) =~= spans);
        assert(ranges.skip(i).drop_first() =~= ranges.skip(i + 1));
        lemma_first_hit_past_end(ranges, spans, i + 1, col);
    } else {
        assert(ranges.skip(i).len() == 0);
    }
}

/// Some span contains each column before the end of the spans.
proof fn lemma_span_at(spans: Seq<Span>, col: u16) -> (k: int)
    requires
        col < spans_end(spans),
    ensures
        0 <= k < spans.len(),
        spans_end(spans.take(k)) <= col < spans_end(spans.take(k + 1)),
    decreases spans.len(),
{
    assert(spans.len() > 0);
    let prev = spans.drop_last();
    if col < spans_end(prev) {
        let k = lemma_span_at(prev, col);
        assert(prev.take(k) =~= spans.take(k));
        assert(prev.take(k + 1) =~= spans.take(k + 1));
        k
    } else {
        assert(spans.take(spans.len() - 1) =~= prev);
        assert(spans.take(spans.len() as int) =~= spans);
        spans.len() - 1
    }
}

/// How a paragraph widget renders the document: everything needed to map
/// absolute screen coordinates back to Text-space coordinates.
#[derive(Debug, Clone, Copy, PartialEq, Eq)]
pub struct ParagraphView {
    /// The area the paragraph is rendered into.
    pub area: Rect,
    /// The `(y, x)` scroll offset. With wrapping, `y` counts wrapped rows
    /// and `x` is ignored.
    pub scroll: (u16, u16),
    /// `Some(trim)` when the paragraph wraps, with the given trim flag.
    pub wrap: Option<bool>,
    /// The paragraph-level alignment; a line's own alignment takes
    /// precedence.
    pub alignment: Alignment,
}

impl ParagraphView {
    /// A view of a paragraph rendered into `area` with no scroll, no wrap,
    /// left alignment.
    pub fn new(area: Rect) -> (v: ParagraphView)
        ensures
            v == (ParagraphView { area, scroll: (0, 0), wrap: None, alignment: Alignment::Left }),
    {
        ParagraphView { area, scroll: (0, 0), wrap: None, alignment: Alignment::Left }
    }

    /// `self` with the `(y, x)` scroll offset set.
    pub fn scroll(self, y: u16, x: u16) -> (v: ParagraphView)
        ensures
            v == (ParagraphView { scroll: (y, x), ..self }),
    {
        ParagraphView { scroll: (y, x), ..self }
    }

    /// `self` with wrapping enabled, with the given trim flag.
    pub fn wrap(self, trim: bool) -> (v: ParagraphView)
        ensures
            v == (ParagraphView { wrap: Some(trim), ..self }),
    {
        ParagraphView { wrap: Some(trim), ..self }
    }

    /// `self` with the paragraph-level alignment set.
    pub fn alignment(self, alignment: Alignment) -> (v: ParagraphView)
        ensures
            v == (ParagraphView { alignment, ..self }),
    {
        ParagraphView { alignment, ..self }
    }
}

/// The element of the first range (in order) that covers `column`.
pub open spec fn first_hit(ranges: Seq<SpanRange>, column: u16) -> Option<ElementId>
    decreases ranges.len(),
{
    if ranges.len() == 0 {
        None
    } else if ranges[0].start <= column && column < ranges[0].end {
        Some(ranges[0].element)
    } else {
        first_hit(ranges.drop_first(), column)
    }
}

/// Every parent id of an element precedes the element's own id, and every
/// annotated element exists.
pub open spec fn arena_wf(elements: Seq<Element>) -> bool {
    forall|i: int|
        0 <= i < elements.len() ==> match #[trigger] elements[i].parent {
            Some(p) => (p.0 as int) < i,
            None => true,
        }
}

/// Every range of every line names an element of the arena.
pub open spec fn annotations_wf(annotations: Seq<Vec<SpanRange>>, n_elements: int) -> bool {
    forall|l: int, k: int|
        0 <= l < annotations.len() && 0 <= k < annotations[l]@.len() ==> (
        #[trigger] annotations[l]@[k]).element.0 < n_elements
}

/// The ids of the ancestors of an element whose parent is `next`,
/// innermost first.
pub open spec fn ancestor_ids(elements: Seq<Element>, next: Option<ElementId>) -> Seq<ElementId>
    decreases
            (match next {
                Some(id) => id.0 + 1,
                None => 0,
            }),
{
    match next {
        None => Seq::empty(),
        Some(id) => {
            if (id.0 as int) < elements.len() {
                match elements[id.0 as int].parent {
                    Some(p) => if p.0 < id.0 {
                        seq![id] + ancestor_ids(elements, Some(p))
                    } else {
                        seq![id]
                    },
                    None => seq![id],
                }
            } else {
                Seq::empty()
            }
        },
    }
}

/// The alignment of a line: its own, else the paragraph's.
pub open spec fn line_alignment(line: Line, paragraph: Alignment) -> Alignment {
    match line.alignment {
        Some(a) => a,
        None => paragraph,
    }
}

/// The line index and source column under position `x` of wrapped row
/// `remaining`, counting wrapped rows from line `idx` on.
pub open spec fn wrapped_hit(
    lines: Seq<Line>,
    idx: int,
    remaining: int,
    x: u16,
    width: u16,
    trim: bool,
    alignment: Alignment,
) -> Option<(int, u16)>
    decreases lines.len() - idx,
{
    if idx < 0 || idx >= lines.len() {
        None
    } else {
        let rows = spec_wrapped_rows(lines[idx], width, trim);
        if remaining < rows.len() {
            match spec_hit_src_col(rows[remaining], x, width, line_alignment(lines[idx], alignment)) {
                Some(src) => Some((idx, src)),
                None => None,
            }
        } else {
            wrapped_hit(lines, idx + 1, remaining - rows.len(), x, width, trim, alignment)
        }
    }
}

/// A rendered Markdown document: the [`Text`] for display plus the element
/// annotations needed for hit-testing. Produced by
/// [`crate::into_document`] and friends.
#[derive(Debug)]
pub struct MarkdownDocument {
    text: Text,
    /// Arena of all elements, indexed by [`ElementId`].
    elements: Vec<Element>,
    /// Per-line span annotations, parallel to the text's lines.
    line_annotations: Vec<Vec<SpanRange>>,
}

impl MarkdownDocument {
    /// The element arena.
    pub closed spec fn elements(self) -> Seq<Element> {
        self.elements@
    }

    /// The annotations of each line of the text.
    pub closed spec fn annotations(self) -> Seq<Vec<SpanRange>> {
        self.line_annotations@
    }

    /// The rendered text.
    pub closed spec fn rendered(self) -> Text {
        self.text
    }

    /// The element under Text-space position `(row, column)`, if any.
    pub open spec fn hit(self, row: u16, column: u16) -> Option<ElementId> {
        if (row as int) < self.annotations().len() {
            first_hit(self.annotations()[row as int]@, column)
        } else {
            None
        }
    }

    /// The element under screen position `(row, column)` of a paragraph
    /// rendered as `view` describes.
    pub open spec fn screen_hit(self, row: u16, column: u16, view: ParagraphView) -> Option<ElementId> {
        let area = view.area;
        if area.width == 0 || area.height == 0 {
            None
        } else if row < area.y || row >= area.y.saturating_add(area.height) {
            None
        } else if column < area.x || column >= area.x.saturating_add(area.width) {
            None
        } else {
            let y = row - area.y;
            let x = (column - area.x) as u16;
            let lines = self.rendered().lines@;
            match view.wrap {
                None => {
                    let idx = y + view.scroll.0;
                    if idx >= lines.len() {
                        None
                    } else {
                        let a = line_alignment(lines[idx], view.alignment);
                        match spec_hit_src_col(
                            spec_truncated_row(lines[idx], area.width, view.scroll.1, a),
                            x,
                            area.width,
                            a,
                        ) {
                            Some(src) => self.hit(idx as u16, src),
                            None => None,
                        }
                    }
                },
                Some(trim) => match wrapped_hit(lines, 0, y + view.scroll.0, x, area.width, trim, view.alignment) {
                    Some(found) => self.hit(found.0 as u16, found.1),
                    None => None,
                },
            }
        }
    }

    #[verifier::type_invariant]
    closed spec fn wf(self) -> bool {
        &&& self.line_annotations@.len() == self.text.lines@.len()
        &&& lines_tiled(self.text.lines@, self.line_annotations@)
        &&& arena_wf(self.elements@)
        &&& annotations_wf(self.line_annotations@, self.elements@.len() as int)
        &&& self.elements@.len() <= u32::MAX
    }

    /// The document invariant, as seen from outside: one annotation list per
    /// line, tiling the line's spans (one range per span, in order, as wide
    /// as the span); parents precede their children; annotations name
    /// elements of the arena.
    pub open spec fn valid(self) -> bool {
        &&& self.annotations().len() == self.rendered().lines@.len()
        &&& lines_tiled(self.rendered().lines@, self.annotations())
        &&& arena_wf(self.elements())
        &&& annotations_wf(self.annotations(), self.elements().len() as int)
        &&& self.elements().len() <= u32::MAX
    }

    /// Assembles a document from its parts.
    pub fn from_parts(text: Text, elements: Vec<Element>, line_annotations: Vec<Vec<SpanRange>>) -> (d:
        MarkdownDocument)
        requires
            line_annotations@.len() == text.lines@.len(),
            lines_tiled(text.lines@, line_annotations@),
            arena_wf(elements@),
            annotations_wf(line_annotations@, elements@.len() as int),
            elements@.len() <= u32::MAX,
        ensures
            d.rendered() == text,
            d.elements() == elements@,
            d.annotations() == line_annotations@,
    {
        MarkdownDocument { text, elements, line_annotations }
    }

    /// The rendered text.
    pub fn text(&self) -> (t: &Text)
        ensures
            *t == self.rendered(),
    {
        &self.text
    }

    /// Consumes the document and returns the rendered text.
    pub fn into_text(self) -> (t: Text)
        ensures
            t == self.rendered(),
    {
        self.text
    }

    /// The element with the given id.
    pub fn element(&self, id: ElementId) -> (e: &Element)
        requires
            (id.0 as int) < self.elements().len(),
        ensures
            *e == self.elements()[id.0 as int],
    {
        &self.elements[id.0 as usize]
    }

    /// The ancestors of `element`, innermost first.
    pub fn ancestors_of<'a>(&'a self, element: &'a Element) -> (r: Vec<&'a Element>)
        requires
            element.parent matches Some(p) ==> (p.0 as int) < self.elements().len(),
        ensures
            r@.len() == ancestor_ids(self.elements(), element.parent).len(),
            forall|i: int|
                0 <= i < r@.len() ==> *#[trigger] r@[i] == self.elements()[ancestor_ids(
                    self.elements(),
                    element.parent,
                )[i].0 as int],
    {
        proof {
            use_type_invariant(self);
        }
        let ghost elems = self.elements@;
        let mut r: Vec<&'a Element> = Vec::new();
        let mut next = element.parent;
        let ghost all = ancestor_ids(elems, element.parent);
        let ghost mut ids: Seq<ElementId> = Seq::empty();
        while next.is_some()
            invariant
                elems == self.elements@,
                arena_wf(elems),
                next matches Some(p) ==> (p.0 as int) < elems.len(),
                all == ancestor_ids(elems, element.parent),
                all == ids + ancestor_ids(elems, next),
                r@.len() == ids.len(),
                forall|i: int| 0 <= i < r@.len() ==> *#[trigger] r@[i] == elems[ids[i].0 as int],
            decreases
                    (match next {
                        Some(id) => id.0 + 1,
                        None => 0,
                    }),
        {
            let id = next.unwrap();
            let el = &self.elements[id.0 as usize];
            proof {
                assert(ancestor_ids(elems, next) == seq![id] + ancestor_ids(elems, el.parent));
                assert(ids + ancestor_ids(elems, next) =~= ids.push(id) + ancestor_ids(elems, el.parent));
                ids = ids.push(id);
            }
            r.push(el);
            next = el.parent;
        }
        assert(all =~= ids);
        r
    }

    /// The innermost element covering Text-space position `(row, column)`:
    /// `row` indexes the text's lines, `column` is a display-cell column.
    /// `None` for blank lines, padding, and out-of-bounds positions.
    pub fn element_at(&self, row: u16, column: u16) -> (r: Option<&Element>)
        ensures
            match self.hit(row, column) {
                Some(id) => r matches Some(e) && (id.0 as int) < self.elements().len() && *e
                    == self.elements()[id.0 as int],
                None => r is None,
            },
    {
        proof {
            use_type_invariant(self);
        }
        if row as usize >= self.line_annotations.len() {
            return None;
        }
        let ranges = &self.line_annotations[row as usize];
        let mut i: usize = 0;
        assert(ranges@.skip(0) =~= ranges@);
        while i < ranges.len()
            invariant
                i <= ranges@.len(),
                (row as int) < self.line_annotations@.len(),
                ranges@ == self.line_annotations@[row as int]@,
                first_hit(ranges@, column) == first_hit(ranges@.skip(i as int), column),
                forall|k: int| 0 <= k < ranges@.len() ==> (#[trigger] ranges@[k]).element.0 < self.elements@.len(),
            decreases ranges.len() - i,
        {
            assert(ranges@.skip(i as int).drop_first() =~= ranges@.skip(i + 1));
            let range = ranges[i];
            assert(ranges@.skip(i as int)[0] == ranges@[i as int]);
            if range.start <= column && column < range.end {
                assert(first_hit(ranges@.skip(i as int), column) == Some(range.element));
                assert(self.hit(row, column) == Some(range.element));
                return Some(&self.elements[range.element.0 as usize]);
            }
            i = i + 1;
        }
        None
    }

    /// The innermost element at screen position `(row, column)` (e.g. a
    /// mouse event's coordinates), given how the paragraph renders the text:
    /// vertical scroll, horizontal scroll (without wrapping, left-aligned
    /// lines only), word wrapping and alignment. `None` outside the area
    /// or over padding.
    #[verifier::loop_isolation(false)]
    pub fn element_at_screen(&self, row: u16, column: u16, view: &ParagraphView) -> (r: Option<&Element>)
        ensures
            match self.screen_hit(row, column, *view) {
                Some(id) => r matches Some(e) && (id.0 as int) < self.elements().len() && *e
                    == self.elements()[id.0 as int],
                None => r is None,
            },
    {
        let area = view.area;
        if area.width == 0 || area.height == 0 {
            return None;
        }
        if row < area.y || row >= area.y.saturating_add(area.height) {
            return None;
        }
        if column < area.x || column >= area.x.saturating_add(area.width) {
            return None;
        }
        let y = row - area.y;
        let x = column - area.x;
        match view.wrap {
            None => {
                let line_idx = y as usize + view.scroll.0 as usize;
                if line_idx >= self.text.lines.len() {
                    return None;
                }
                let line = &self.text.lines[line_idx];
                let alignment = match line.alignment {
                    Some(a) => a,
                    None => view.alignment,
                };
                let row_map = truncated_row(line, area.width, view.scroll.1, alignment);
                match hit_src_col(&row_map, x, area.width, alignment) {
                    Some(src) => self.element_at(line_idx as u16, src),
                    None => None,
                }
            },
            Some(trim) => {
                let ghost lines = self.text.lines@;
                let mut remaining: usize = y as usize + view.scroll.0 as usize;
                let mut idx: usize = 0;
                while idx < self.text.lines.len()
                    invariant
                        lines == self.text.lines@,
                        idx <= lines.len(),
                        wrapped_hit(lines, 0, y + view.scroll.0, x, area.width, trim, view.alignment)
                            == wrapped_hit(lines, idx as int, remaining as int, x, area.width, trim, view.alignment),
                    decreases lines.len() - idx,
                {
                    let line = &self.text.lines[idx];
                    let rows = wrapped_rows(line, area.width, trim);
                    if remaining < rows.len() {
                        let alignment = match line.alignment {
                            Some(a) => a,
                            None => view.alignment,
                        };
                        return match hit_src_col(&rows[remaining], x, area.width, alignment) {
                            Some(src) => self.element_at(idx as u16, src),
                            None => None,
                        };
                    }
                    remaining = remaining - rows.len();
                    idx = idx + 1;
                }
                None
            },
        }
    }
}

/// Hit-testing a line's cells: the element under column `col` of line
/// `row` is the element of the span whose cells contain that column.
pub proof fn lemma_hit_is_span_element(doc: MarkdownDocument, row: u16, col: u16, k: int)
    requires
        doc.valid(),
        (row as int) < doc.rendered().lines@.len(),
        0 <= k < doc.rendered().lines@[row as int].spans@.len(),
        spans_end(doc.rendered().lines@[row as int].spans@.take(k)) <= col,
        col < spans_end(doc.rendered().lines@[row as int].spans@.take(k + 1)),
    ensures
        doc.hit(row, col) == Some(doc.annotations()[row as int]@[k].element),
{
    let ranges = doc.annotations()[row as int]@;
    let spans = doc.rendered().lines@[row as int].spans@;
    assert(tiles(ranges, spans));
    assert(spans.take(0) =~= Seq::<Span>::empty());
    lemma_first_hit_from(ranges, spans, 0, k, col);
    assert(ranges.skip(0) =~= ranges);
}

/// Every cell that a line's spans occupy hits an element.
pub proof fn lemma_content_cells_hit(doc: MarkdownDocument, row: u16, col: u16)
    requires
        doc.valid(),
        (row as int) < doc.rendered().lines@.len(),
        col < spans_end(doc.rendered().lines@[row as int].spans@),
    ensures
        doc.hit(row, col) is Some,
{
    let k = lemma_span_at(doc.rendered().lines@[row as int].spans@, col);
    lemma_hit_is_span_element(doc, row, col, k);
}

/// No element lies past the end of a line, nor below the last line.
pub proof fn lemma_no_hit_past_end(doc: MarkdownDocument, row: u16, col: u16)
    requires
        doc.valid(),
        (row as int) >= doc.rendered().lines@.len() || col >= spans_end(doc.rendered().lines@[row as int].spans@),
    ensures
        doc.hit(row, col) is None,
{
    if (row as int) < doc.rendered().lines@.len() {
        let ranges = doc.annotations()[row as int]@;
        let spans = doc.rendered().lines@[row as int].spans@;
        assert(tiles(ranges, spans));
        lemma_first_hit_past_end(ranges, spans, 0, col);
        assert(ranges.skip(0) =~= ranges);
    }
}

/// Hit-testing on screen agrees with hit-testing in the text: for a
/// paragraph drawn from the top-left corner of the screen, without scroll
/// or wrapping, a left-aligned line whose graphemes each fit the area's
/// width shows at every drawn column the element found at that column of
/// the line.
pub proof fn lemma_screen_hit_is_text_hit(doc: MarkdownDocument, view: ParagraphView, row: u16, col: u16)
    requires
        doc.valid(),
        view.area.x == 0,
        view.area.y == 0,
        row < view.area.height,
        view.scroll == (0u16, 0u16),
        view.wrap is None,
        (row as int) < doc.rendered().lines@.len(),
        line_alignment(doc.rendered().lines@[row as int], view.alignment) == Alignment::Left,
        forall|k: int|
            0 <= k < line_clusters(doc.rendered().lines@[row as int].spans@).len() ==> cluster_width(
                #[trigger] line_clusters(doc.rendered().lines@[row as int].spans@)[k],
            ) <= view.area.width,
        (col as int) < spec_truncated_row(doc.rendered().lines@[row as int], view.area.width, 0, Alignment::Left).width,
    ensures
        doc.screen_hit(row, col, view) == doc.hit(row, col),
{
    let line = doc.rendered().lines@[row as int];
    lemma_left_row_columns(line, view.area.width, col);
}

/// Scrolling down by `s` rows shows what an area `s` rows taller, not
/// scrolled vertically, shows `s` rows further down: vertical scroll
/// skips whole screen rows (wrapped rows when the paragraph wraps).
pub proof fn lemma_vertical_scroll(doc: MarkdownDocument, view: ParagraphView, r: u16, col: u16)
    requires
        r < view.area.height,
        view.area.y + view.area.height + view.scroll.0 <= u16::MAX,
    ensures
        doc.screen_hit((view.area.y + r) as u16, col, view) == doc.screen_hit(
            (view.area.y + r + view.scroll.0) as u16,
            col,
            ParagraphView {
                area: Rect { height: (view.area.height + view.scroll.0) as u16, ..view.area },
                scroll: (0u16, view.scroll.1),
                ..view
            },
        ),
{
}

/// The horizontal scroll offset matters only for unwrapped, left-aligned
/// lines: when the paragraph wraps, or no line is left-aligned, changing
/// it changes no hit.
pub proof fn lemma_horizontal_scroll(doc: MarkdownDocument, view: ParagraphView, row: u16, col: u16, x2: u16)
    requires
        view.wrap is Some || forall|i: int|
            0 <= i < doc.rendered().lines@.len() ==> line_alignment(#[trigger] doc.rendered().lines@[i], view.alignment)
                != Alignment::Left,
    ensures
        doc.screen_hit(row, col, view) == doc.screen_hit(row, col, ParagraphView { scroll: (view.scroll.0, x2), ..view }),
{
    let area = view.area;
    let lines = doc.rendered().lines@;
    if view.wrap is None && area.width != 0 && area.height != 0 && area.y <= row && row < area.y.saturating_add(
        area.height,
    ) && area.x <= col && col < area.x.saturating_add(area.width) {
        let idx = (row - area.y) + view.scroll.0;
        if idx < lines.len() {
            let a = line_alignment(lines[idx], view.alignment);
            lemma_unaligned_row_ignores_offset(lines[idx], area.width, view.scroll.1, x2, a);
        }
    }
}

/// Past the end of a line, both on screen and in the text, nothing is hit:
/// for a paragraph drawn from the top-left corner of the screen, without
/// scroll or wrapping, a cell of a left-aligned line past both its drawn
/// row and its content, or a row below the last line, hits no element
/// either way.
pub proof fn lemma_screen_hit_past_end(doc: MarkdownDocument, view: ParagraphView, row: u16, col: u16)
    requires
        doc.valid(),
        view.area.x == 0,
        view.area.y == 0,
        view.scroll == (0u16, 0u16),
        view.wrap is None,
        (row as int) >= doc.rendered().lines@.len() || ({
            let line = doc.rendered().lines@[row as int];
            &&& line_alignment(line, view.alignment) == Alignment::Left
            &&& (col as int) >= spec_truncated_row(line, view.area.width, 0, Alignment::Left).width
            &&& col >= spans_end(line.spans@)
        }),
    ensures
        doc.screen_hit(row, col, view) is None,
        doc.hit(row, col) is None,
{
    lemma_no_hit_past_end(doc, row, col);
}

} // verus!
