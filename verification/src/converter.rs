//! The event-driven converter: walks the Markdown events and builds the
//! styled lines of the rendered text, annotating every span with the
//! element that produced it.

use vstd::prelude::*;
use vstd::string::StringExecFns;

use crate::document::{
    annotations_wf, arena_wf, lines_tiled, span_cells, spans_end, tiles, Element, ElementId, ElementKind,
    MarkdownDocument, QuoteKind, SpanRange,
};
use crate::events::{markdown_events, parse_markdown, MdEvent, MdTag, MARKDOWN_OPTIONS};
use crate::renderer::Renderer;
use crate::strings::{
    repeat, repeat_str, split_lines, split_newlines, trim, trim_end_carriage_returns, trim_end_cr, trim_ws,
    u64_to_decimal,
};
use crate::style::{plain_style, Style};
use crate::text::{spans_content, Line, Span, Text};
use crate::theme::Theme;
use crate::unicode::{display_width, str_width};

verus! {

// ── Span annotations ──────────────────────────────────────────────────────────

/// The display width of a span's content, capped at `u16::MAX`.
fn span_width(s: &Span) -> (w: u16)
    ensures
        w == span_cells(*s),
{
    let w = str_width(s.content.as_str());
    if w > 65535 {
        65535
    } else {
        w as u16
    }
}

/// The annotation ranges of a line's spans, each tagged with its element.
pub fn span_ranges(spans: &Vec<Span>, elems: &Vec<ElementId>) -> (r: Vec<SpanRange>)
    requires
        elems@.len() == spans@.len(),
    ensures
        tiles(r@, spans@),
        forall|k: int| 0 <= k < r@.len() ==> (#[trigger] r@[k]).element == elems@[k],
{
    let mut r: Vec<SpanRange> = Vec::new();
    let mut col: u16 = 0;
    let mut i: usize = 0;
    while i < spans.len()
        invariant
            i <= spans@.len(),
            elems@.len() == spans@.len(),
            r@.len() == i,
            col == spans_end(spans@.take(i as int)),
            forall|k: int|
                0 <= k < i ==> (#[trigger] r@[k]).start == spans_end(spans@.take(k)) && r@[k].end
                    == spans_end(spans@.take(k + 1)) && r@[k].element == elems@[k],
        decreases spans@.len() - i,
    {
        let w = span_width(&spans[i]);
        let end = col.saturating_add(w);
        assert(spans@.take(i + 1).drop_last() =~= spans@.take(i as int));
        assert(spans@.take(i + 1).last() == spans@[i as int]);
        r.push(SpanRange { start: col, end, element: elems[i] });
        col = end;
        i = i + 1;
    }
    r
}

/// The annotation ranges of a line whose spans all belong to one element.
pub fn uniform_ranges(spans: &Vec<Span>, elem: ElementId) -> (r: Vec<SpanRange>)
    ensures
        tiles(r@, spans@),
        forall|k: int| 0 <= k < r@.len() ==> (#[trigger] r@[k]).element == elem,
{
    let mut elems: Vec<ElementId> = Vec::new();
    let mut i: usize = 0;
    while i < spans.len()
        invariant
            i <= spans@.len(),
            elems@.len() == i,
            forall|k: int| 0 <= k < i ==> #[trigger] elems@[k] == elem,
        decreases spans@.len() - i,
    {
        elems.push(elem);
        i = i + 1;
    }
    span_ranges(spans, &elems)
}

// ── Block context ─────────────────────────────────────────────────────────────

/// A fully buffered table: all rows are collected before rendering so that
/// column widths can be computed.
pub struct TableBuf {
    /// Header cells.
    pub header: Vec<String>,
    /// Body rows.
    pub rows: Vec<Vec<String>>,
    /// The cell being accumulated.
    pub current_cell: String,
    /// Whether the header section is open.
    pub in_header: bool,
    /// The row being accumulated.
    pub current_row: Vec<String>,
}

impl TableBuf {
    /// An empty table buffer.
    pub fn new() -> (t: TableBuf)
        ensures
            t.header@.len() == 0,
            t.rows@.len() == 0,
            t.current_cell@.len() == 0,
            !t.in_header,
            t.current_row@.len() == 0,
    {
        TableBuf {
            header: Vec::new(),
            rows: Vec::new(),
            current_cell: String::new(),
            in_header: false,
            current_row: Vec::new(),
        }
    }
}

/// The block-level context the converter is inside.
pub enum BlockCtx {
    Paragraph,
    Heading(u8),
    CodeBlock { lang: String, content: String },
    BlockQuote(Option<QuoteKind>),
    OrderedList(u64),
    BulletList,
    Item,
    Table(TableBuf),
    TableHead,
    TableRow,
    TableCell,
    FootnoteDef(String),
    DefinitionList,
    DefinitionListTitle,
    DefinitionListDefinition,
    MetadataBlock,
    HtmlBlock,
}

/// The element kinds that an `End` event can close.
pub enum OpenKind {
    Paragraph,
    Heading(u8),
    BlockQuote,
    CodeBlock,
    HtmlBlock,
    List,
    Item,
    FootnoteDefinition,
    DefinitionList,
    DefinitionListTitle,
    DefinitionListDefinition,
    Table,
    TableHead,
    TableRow,
    TableCell,
    Inline,
    Link(String),
    Image,
    MetadataBlock,
}

/// An open element: what it is, the annotation element it pushed (if any)
/// and how many spans the current line held when it opened.
pub struct OpenTag {
    pub kind: OpenKind,
    pub elem: Option<ElementId>,
    pub span_start: usize,
}

/// A footnote definition collected for rendering at the end.
pub struct FootnoteDef {
    pub label: String,
    pub content: String,
    pub elem: ElementId,
}

// ── Plain helpers ─────────────────────────────────────────────────────────────

/// `s` padded with trailing spaces up to display width `width`.
pub open spec fn padded(s: Seq<char>, width: nat) -> Seq<char> {
    if display_width(s) < width {
        s + repeat(seq![' '], (width - display_width(s)) as nat)
    } else {
        s
    }
}

/// Pads `s` with trailing spaces until its display width equals `width`.
pub fn pad_cell(s: &str, width: usize) -> (r: String)
    ensures
        r@ == padded(s@, width as nat),
{
    let display_w = str_width(s);
    if display_w < width {
        let pad = repeat_str(" ", width - display_w);
        proof {
            reveal_strlit(" ");
            assert(" "@ =~= seq![' ']);
        }
        let r = String::from_str(s).concat(pad.as_str());
        r
    } else {
        String::from_str(s)
    }
}

/// The `#` prefix of a heading of the given level.
pub open spec fn heading_prefix_chars(level: u8) -> Seq<char> {
    let n: nat = if 1 <= level <= 6 {
        level as nat
    } else {
        6
    };
    repeat(seq!['#'], n) + seq![' ']
}

/// The `# ` … `###### ` prefix of a heading.
pub fn heading_prefix(level: u8) -> (r: String)
    ensures
        r@ == heading_prefix_chars(level),
{
    let n: usize = if 1 <= level && level <= 6 {
        level as usize
    } else {
        6
    };
    proof {
        reveal_strlit("#");
        reveal_strlit(" ");
        assert("#"@ =~= seq!['#']);
        assert(" "@ =~= seq![' ']);
    }
    repeat_str("#", n).concat(" ")
}

/// The theme style of a heading level (levels beyond 6 use the level-6
/// style).
pub open spec fn heading_style_of(theme: Theme, level: u8) -> Style {
    if level <= 1 {
        theme.h1
    } else if level == 2 {
        theme.h2
    } else if level == 3 {
        theme.h3
    } else if level == 4 {
        theme.h4
    } else if level == 5 {
        theme.h5
    } else {
        theme.h6
    }
}

/// The theme style of a block quote of the given alert kind.
pub open spec fn quote_style_of(theme: Theme, kind: Option<QuoteKind>) -> Style {
    match kind {
        None => theme.block_quote,
        Some(QuoteKind::Note) => theme.block_quote_note,
        Some(QuoteKind::Tip) => theme.block_quote_tip,
        Some(QuoteKind::Warning) => theme.block_quote_warning,
        Some(QuoteKind::Caution) => theme.block_quote_caution,
        Some(QuoteKind::Important) => theme.block_quote_important,
    }
}

/// The style of a heading level.
pub fn heading_style(theme: &Theme, level: u8) -> (s: Style)
    ensures
        s == heading_style_of(*theme, level),
{
    if level <= 1 {
        theme.h1
    } else if level == 2 {
        theme.h2
    } else if level == 3 {
        theme.h3
    } else if level == 4 {
        theme.h4
    } else if level == 5 {
        theme.h5
    } else {
        theme.h6
    }
}

/// The style of a block quote.
pub fn blockquote_style(theme: &Theme, kind: Option<QuoteKind>) -> (s: Style)
    ensures
        s == quote_style_of(*theme, kind),
{
    match kind {
        None => theme.block_quote,
        Some(QuoteKind::Note) => theme.block_quote_note,
        Some(QuoteKind::Tip) => theme.block_quote_tip,
        Some(QuoteKind::Warning) => theme.block_quote_warning,
        Some(QuoteKind::Caution) => theme.block_quote_caution,
        Some(QuoteKind::Important) => theme.block_quote_important,
    }
}

/// The base style of the innermost block context that has one.
pub open spec fn block_style_of(theme: Theme, stack: Seq<BlockCtx>) -> Style
    decreases stack.len(),
{
    if stack.len() == 0 {
        plain_style()
    } else {
        match stack.last() {
            BlockCtx::Heading(level) => heading_style_of(theme, level),
            BlockCtx::CodeBlock { .. } => theme.code_block,
            BlockCtx::BlockQuote(kind) => quote_style_of(theme, kind),
            BlockCtx::HtmlBlock => theme.html,
            BlockCtx::FootnoteDef(_) => theme.footnote_def,
            _ => block_style_of(theme, stack.drop_last()),
        }
    }
}

/// The block style patched with each inline style in turn.
pub open spec fn inline_style_of(base: Style, inline: Seq<Style>) -> Style
    decreases inline.len(),
{
    if inline.len() == 0 {
        base
    } else {
        inline_style_of(base, inline.drop_last()).patched(inline.last())
    }
}

/// The marker of a new list item: `"{n}. "` for the innermost ordered list
/// with counter `n`, `"• "` for a bullet list or outside any list.
pub open spec fn item_marker_of(stack: Seq<BlockCtx>) -> Seq<char>
    decreases stack.len(),
{
    if stack.len() == 0 {
        seq!['•', ' ']
    } else {
        match stack.last() {
            BlockCtx::OrderedList(n) => crate::strings::decimal(n as nat) + seq!['.', ' '],
            BlockCtx::BulletList => seq!['•', ' '],
            _ => item_marker_of(stack.drop_last()),
        }
    }
}

/// The number of content lines of a code block: one per line of the
/// content, without the single empty segment after a final newline.
pub open spec fn code_line_count(content: Seq<char>) -> int {
    let pieces = crate::strings::split_lines(content);
    if pieces.last().len() == 0 {
        pieces.len() - 1
    } else {
        pieces.len() as int
    }
}

/// The lines of a code block in the default rendering: a `[lang]` label
/// line in the label style when the language is given, then one line per
/// content line in the code-block style.
pub fn default_code_block_lines(lang: &str, content: &str, theme: &Theme) -> (out: Vec<Line>)
    ensures
        ({
            let base: int = if lang@.len() > 0 {
                1
            } else {
                0
            };
            &&& out@.len() == base + code_line_count(content@)
            &&& lang@.len() > 0 ==> out@[0].spans@.len() == 1 && out@[0].spans@[0].content@ == seq!['['] + lang@ + seq![']']
                && out@[0].spans@[0].style == theme.code_block_lang
            &&& forall|k: int|
                base <= k < out@.len() ==> (#[trigger] out@[k]).spans@.len() == 1
                    && out@[k].spans@[0].content@ == crate::strings::split_lines(content@)[k - base]
                    && out@[k].spans@[0].style == theme.code_block
            &&& plain_lines(out@)
        }),
{
    let mut out: Vec<Line> = Vec::new();
    if !lang.is_empty() {
        proof {
            reveal_strlit("[");
            reveal_strlit("]");
            assert("["@ =~= seq!['[']);
            assert("]"@ =~= seq![']']);
        }
        let mut label = String::from_str("[");
        label.append(lang);
        label.append("]");
        out.push(Line::from_span(Span::from_string(label, theme.code_block_lang)));
    }
    let ghost base = out@.len() as int;
    assert(plain_lines(out@));
    let pieces = split_newlines(content);
    proof {
        crate::strings::lemma_split_lines_nonempty(content@);
    }
    let n = pieces.len();
    let stop = if pieces[n - 1].as_str().is_empty() {
        n - 1
    } else {
        n
    };
    let mut i: usize = 0;
    while i < stop
        invariant
            i <= stop <= n,
            n == pieces@.len(),
            stop == code_line_count(content@),
            out@.len() == base + i,
            base == (if lang@.len() > 0 {
                1int
            } else {
                0
            }),
            lang@.len() > 0 ==> out@[0].spans@.len() == 1 && out@[0].spans@[0].content@ == seq!['['] + lang@ + seq![']']
                && out@[0].spans@[0].style == theme.code_block_lang,
            forall|k: int|
                base <= k < base + i ==> (#[trigger] out@[k]).spans@.len() == 1
                    && out@[k].spans@[0].content@ == crate::strings::split_lines(content@)[k - base]
                    && out@[k].spans@[0].style == theme.code_block,
            forall|k: int| 0 <= k < pieces@.len() ==> #[trigger] pieces@[k]@ == crate::strings::split_lines(content@)[k],
            plain_lines(out@),
        decreases stop - i,
    {
        let ghost before = out@;
        out.push(Line::from_span(Span::styled(pieces[i].as_str(), theme.code_block)));
        proof {
            lemma_plain_push(before, out@.last());
            assert(out@ =~= before.push(out@.last()));
        }
        i = i + 1;
    }
    out
}

// ── Block stack queries and updates ───────────────────────────────────────────

/// Whether a block context is part of a table.
pub open spec fn is_table_ctx(b: BlockCtx) -> bool {
    b is Table || b is TableHead || b is TableRow || b is TableCell
}

/// Whether some block context is part of a table (table text is buffered).
pub fn is_table_context(stack: &Vec<BlockCtx>) -> (b: bool)
    ensures
        b == exists|k: int| 0 <= k < stack@.len() && is_table_ctx(#[trigger] stack@[k]),
{
    let mut j: usize = stack.len();
    while j > 0
        invariant
            j <= stack@.len(),
            forall|k: int| j <= k < stack@.len() ==> !is_table_ctx(#[trigger] stack@[k]),
        decreases j,
    {
        j = j - 1;
        match &stack[j] {
            BlockCtx::Table(_) | BlockCtx::TableHead | BlockCtx::TableRow | BlockCtx::TableCell => {
                return true;
            },
            _ => {},
        }
    }
    false
}

/// Whether the innermost block context is a metadata block (its text is
/// not shown).
pub fn is_metadata(stack: &Vec<BlockCtx>) -> (b: bool)
    ensures
        b == (stack@.len() > 0 && stack@.last() is MetadataBlock),
{
    if stack.len() == 0 {
        false
    } else {
        match &stack[stack.len() - 1] {
            BlockCtx::MetadataBlock => true,
            _ => false,
        }
    }
}

/// Whether some block context is a code block (its text is buffered).
pub fn is_code_block_context(stack: &Vec<BlockCtx>) -> (b: bool)
    ensures
        b == exists|k: int| 0 <= k < stack@.len() && (#[trigger] stack@[k]) is CodeBlock,
{
    let mut j: usize = stack.len();
    while j > 0
        invariant
            j <= stack@.len(),
            forall|k: int| j <= k < stack@.len() ==> !((#[trigger] stack@[k]) is CodeBlock),
        decreases j,
    {
        j = j - 1;
        if let BlockCtx::CodeBlock { .. } = &stack[j] {
            return true;
        }
    }
    false
}

/// The label of the innermost footnote definition, if any.
pub open spec fn footnote_label_of(stack: Seq<BlockCtx>) -> Option<Seq<char>>
    decreases stack.len(),
{
    if stack.len() == 0 {
        None
    } else {
        match stack.last() {
            BlockCtx::FootnoteDef(label) => Some(label@),
            _ => footnote_label_of(stack.drop_last()),
        }
    }
}

/// The label of the innermost footnote definition, if any.
pub fn current_footnote_def_label(stack: &Vec<BlockCtx>) -> (r: Option<String>)
    ensures
        match r {
            Some(l) => footnote_label_of(stack@) == Some(l@),
            None => footnote_label_of(stack@) is None,
        },
{
    let mut j: usize = stack.len();
    assert(stack@.take(j as int) =~= stack@);
    while j > 0
        invariant
            j <= stack@.len(),
            footnote_label_of(stack@) == footnote_label_of(stack@.take(j as int)),
        decreases j,
    {
        assert(stack@.take(j as int).drop_last() =~= stack@.take(j - 1));
        j = j - 1;
        if let BlockCtx::FootnoteDef(label) = &stack[j] {
            return Some(label.clone());
        }
    }
    None
}

/// The base style of the innermost block context that has one.
pub fn current_block_style(stack: &Vec<BlockCtx>, theme: &Theme) -> (s: Style)
    ensures
        s == block_style_of(*theme, stack@),
{
    let mut j: usize = stack.len();
    assert(stack@.take(j as int) =~= stack@);
    while j > 0
        invariant
            j <= stack@.len(),
            block_style_of(*theme, stack@) == block_style_of(*theme, stack@.take(j as int)),
        decreases j,
    {
        assert(stack@.take(j as int).drop_last() =~= stack@.take(j - 1));
        j = j - 1;
        match &stack[j] {
            BlockCtx::Heading(level) => {
                return heading_style(theme, *level);
            },
            BlockCtx::CodeBlock { .. } => {
                return theme.code_block;
            },
            BlockCtx::BlockQuote(kind) => {
                return blockquote_style(theme, *kind);
            },
            BlockCtx::HtmlBlock => {
                return theme.html;
            },
            BlockCtx::FootnoteDef(_) => {
                return theme.footnote_def;
            },
            _ => {},
        }
    }
    Style::new()
}

/// The effective inline style: the block style patched with every active
/// inline style, outermost first.
pub fn current_style(stack: &Vec<BlockCtx>, inline: &Vec<Style>, theme: &Theme) -> (s: Style)
    ensures
        s == inline_style_of(block_style_of(*theme, stack@), inline@),
{
    let base = current_block_style(stack, theme);
    let mut acc = base;
    let mut i: usize = 0;
    while i < inline.len()
        invariant
            i <= inline@.len(),
            acc == inline_style_of(base, inline@.take(i as int)),
        decreases inline@.len() - i,
    {
        assert(inline@.take(i + 1).drop_last() =~= inline@.take(i as int));
        acc = acc.patch(inline[i]);
        i = i + 1;
    }
    assert(inline@.take(i as int) =~= inline@);
    acc
}

/// The marker of a new list item.
pub fn make_item_marker(stack: &Vec<BlockCtx>) -> (r: String)
    ensures
        r@ == item_marker_of(stack@),
{
    let mut j: usize = stack.len();
    assert(stack@.take(j as int) =~= stack@);
    proof {
        reveal_strlit("• ");
        reveal_strlit(". ");
        assert("• "@ =~= seq!['•', ' ']);
        assert(". "@ =~= seq!['.', ' ']);
    }
    while j > 0
        invariant
            j <= stack@.len(),
            item_marker_of(stack@) == item_marker_of(stack@.take(j as int)),
            "• "@ =~= seq!['•', ' '],
            ". "@ =~= seq!['.', ' '],
        decreases j,
    {
        assert(stack@.take(j as int).drop_last() =~= stack@.take(j - 1));
        assert(stack@.take(j as int).last() == stack@[j - 1]);
        j = j - 1;
        match &stack[j] {
            BlockCtx::OrderedList(n) => {
                return u64_to_decimal(*n).concat(". ");
            },
            BlockCtx::BulletList => {
                return String::from_str("• ");
            },
            _ => {},
        }
    }
    String::from_str("• ")
}

/// The index of the innermost table context, or -1.
pub open spec fn table_index(stack: Seq<BlockCtx>) -> int
    decreases stack.len(),
{
    if stack.len() == 0 {
        -1
    } else if stack.last() is Table {
        stack.len() - 1
    } else {
        table_index(stack.drop_last())
    }
}

/// The index of the innermost code block context, or -1.
pub open spec fn code_index(stack: Seq<BlockCtx>) -> int
    decreases stack.len(),
{
    if stack.len() == 0 {
        -1
    } else if stack.last() is CodeBlock {
        stack.len() - 1
    } else {
        code_index(stack.drop_last())
    }
}

/// The index of the innermost list context (ordered or not), or -1.
pub open spec fn list_index(stack: Seq<BlockCtx>) -> int
    decreases stack.len(),
{
    if stack.len() == 0 {
        -1
    } else if stack.last() is OrderedList || stack.last() is BulletList {
        stack.len() - 1
    } else {
        list_index(stack.drop_last())
    }
}

proof fn lemma_table_index_bounds(stack: Seq<BlockCtx>)
    ensures
        -1 <= table_index(stack) < stack.len(),
        table_index(stack) >= 0 ==> stack[table_index(stack)] is Table,
    decreases stack.len(),
{
    if stack.len() > 0 && !(stack.last() is Table) {
        lemma_table_index_bounds(stack.drop_last());
    }
}

proof fn lemma_code_index_bounds(stack: Seq<BlockCtx>)
    ensures
        -1 <= code_index(stack) < stack.len(),
        code_index(stack) >= 0 ==> stack[code_index(stack)] is CodeBlock,
    decreases stack.len(),
{
    if stack.len() > 0 && !(stack.last() is CodeBlock) {
        lemma_code_index_bounds(stack.drop_last());
    }
}

proof fn lemma_list_index_bounds(stack: Seq<BlockCtx>)
    ensures
        -1 <= list_index(stack) < stack.len(),
        list_index(stack) >= 0 ==> (stack[list_index(stack)] is OrderedList || stack[list_index(stack)] is BulletList),
    decreases stack.len(),
{
    if stack.len() > 0 && !(stack.last() is OrderedList || stack.last() is BulletList) {
        lemma_list_index_bounds(stack.drop_last());
    }
}

/// No context above the innermost list is a list.
proof fn lemma_list_index_top(stack: Seq<BlockCtx>)
    ensures
        forall|k: int|
            list_index(stack) < k < stack.len() ==> !((#[trigger] stack[k]) is OrderedList || stack[k] is BulletList),
    decreases stack.len(),
{
    lemma_list_index_bounds(stack);
    if stack.len() > 0 && !(stack.last() is OrderedList || stack.last() is BulletList) {
        lemma_list_index_top(stack.drop_last());
        assert forall|k: int|
            list_index(stack) < k < stack.len() implies !((#[trigger] stack[k]) is OrderedList || stack[k] is BulletList) by {
            if k < stack.len() - 1 {
                assert(stack[k] == stack.drop_last()[k]);
            }
        }
    }
}

/// No context above the innermost table is a table.
proof fn lemma_table_index_top(stack: Seq<BlockCtx>)
    ensures
        forall|k: int| table_index(stack) < k < stack.len() ==> !((#[trigger] stack[k]) is Table),
    decreases stack.len(),
{
    lemma_table_index_bounds(stack);
    if stack.len() > 0 && !(stack.last() is Table) {
        lemma_table_index_top(stack.drop_last());
        lemma_table_index_bounds(stack.drop_last());
        assert forall|k: int| table_index(stack) < k < stack.len() implies !((#[trigger] stack[k]) is Table) by {
            if k < stack.len() - 1 {
                assert(stack[k] == stack.drop_last()[k]);
            }
        }
    }
}

/// A table with no table above it is the innermost table.
proof fn lemma_table_index_is(stack: Seq<BlockCtx>, j: int)
    requires
        0 <= j < stack.len(),
        stack[j] is Table,
        forall|k: int| j < k < stack.len() ==> !((#[trigger] stack[k]) is Table),
    ensures
        table_index(stack) == j,
    decreases stack.len(),
{
    if j < stack.len() - 1 {
        assert(!(stack.last() is Table));
        assert forall|k: int| j < k < stack.drop_last().len() implies !((#[trigger] stack.drop_last()[k]) is Table) by {
            assert(stack.drop_last()[k] == stack[k]);
        }
        lemma_table_index_is(stack.drop_last(), j);
    }
}

/// Changing the innermost table in place keeps it the innermost table.
proof fn lemma_table_index_kept(a: Seq<BlockCtx>, b: Seq<BlockCtx>)
    requires
        table_index(b) >= 0,
        same_except(a, b, table_index(b)),
        a[table_index(b)] is Table,
    ensures
        table_index(a) == table_index(b),
{
    lemma_table_index_bounds(b);
    lemma_table_index_top(b);
    let j = table_index(b);
    assert forall|k: int| j < k < a.len() implies !((#[trigger] a[k]) is Table) by {
        assert(a[k] == b[k]);
    }
    lemma_table_index_is(a, j);
}

/// `a` and `b` agree everywhere but at index `j`.
pub open spec fn same_except(a: Seq<BlockCtx>, b: Seq<BlockCtx>, j: int) -> bool {
    &&& a.len() == b.len()
    &&& forall|k: int| 0 <= k < a.len() && k != j ==> #[trigger] a[k] == b[k]
}

/// The table buffer of a table context.
pub open spec fn buf_of(b: BlockCtx) -> TableBuf {
    b->Table_0
}

/// The index of the innermost table context, if any.
fn innermost_table(stack: &Vec<BlockCtx>) -> (r: Option<usize>)
    ensures
        r matches Some(j) ==> j as int == table_index(stack@) && j < stack@.len() && stack@[j as int] is Table,
        r is None ==> table_index(stack@) == -1,
{
    proof {
        lemma_table_index_bounds(stack@);
    }
    let mut j: usize = stack.len();
    assert(stack@.take(j as int) =~= stack@);
    while j > 0
        invariant
            j <= stack@.len(),
            table_index(stack@) == table_index(stack@.take(j as int)),
        decreases j,
    {
        assert(stack@.take(j as int).drop_last() =~= stack@.take(j - 1));
        j = j - 1;
        if let BlockCtx::Table(_) = &stack[j] {
            return Some(j);
        }
    }
    None
}

/// Takes the table buffer at index `j` out of the stack, leaving an empty
/// one in its place.
fn take_table(stack: &mut Vec<BlockCtx>, j: usize) -> (buf: TableBuf)
    requires
        j < old(stack)@.len(),
        old(stack)@[j as int] is Table,
    ensures
        buf == buf_of(old(stack)@[j as int]),
        same_except(final(stack)@, old(stack)@, j as int),
        final(stack)@[j as int] is Table,
{
    let mut tmp = BlockCtx::Table(TableBuf::new());
    std::mem::swap(&mut tmp, &mut stack[j]);
    match tmp {
        BlockCtx::Table(buf) => buf,
        _ => TableBuf::new(),
    }
}

/// Appends text to the current cell of the innermost table.
pub fn try_append_table_cell_text(stack: &mut Vec<BlockCtx>, s: &str)
    ensures
        final(stack)@.len() == old(stack)@.len(),
        -1 <= table_index(old(stack)@) < old(stack)@.len(),
        cell_text_appended(old(stack)@, final(stack)@, s@),
        table_index(old(stack)@) == -1 ==> final(stack)@ == old(stack)@,
        table_index(old(stack)@) >= 0 ==> ({
            let j = table_index(old(stack)@);
            let (o, n) = (buf_of(old(stack)@[j]), buf_of(final(stack)@[j]));
            &&& same_except(final(stack)@, old(stack)@, j)
            &&& final(stack)@[j] is Table
            &&& n.current_cell@ == o.current_cell@ + s@
            &&& n.header == o.header && n.rows == o.rows && n.in_header == o.in_header
            &&& n.current_row == o.current_row
        }),
{
    proof {
        lemma_table_index_bounds(stack@);
    }
    if let Some(j) = innermost_table(stack) {
        let mut buf = take_table(stack, j);
        buf.current_cell.append(s);
        stack.set(j, BlockCtx::Table(buf));
    }
}

/// Appends text to the content of the innermost code block.
pub fn append_to_code_block(stack: &mut Vec<BlockCtx>, s: &str)
    ensures
        code_text_appended(old(stack)@, final(stack)@, s@),
        code_index(old(stack)@) == -1 ==> final(stack)@ == old(stack)@,
        code_index(old(stack)@) >= 0 ==> ({
            let j = code_index(old(stack)@);
            &&& same_except(final(stack)@, old(stack)@, j)
            &&& final(stack)@[j] is CodeBlock
            &&& final(stack)@[j]->lang == old(stack)@[j]->lang
            &&& final(stack)@[j]->content@ == old(stack)@[j]->content@ + s@
        }),
{
    proof {
        lemma_code_index_bounds(stack@);
    }
    let mut j: usize = stack.len();
    assert(stack@.take(j as int) =~= stack@);
    while j > 0
        invariant
            j <= stack@.len(),
            stack@ == old(stack)@,
            code_index(stack@) == code_index(stack@.take(j as int)),
        decreases j,
    {
        assert(stack@.take(j as int).drop_last() =~= stack@.take(j - 1));
        j = j - 1;
        let is_code = match &stack[j] {
            BlockCtx::CodeBlock { .. } => true,
            _ => false,
        };
        if is_code {
            let mut tmp = BlockCtx::Paragraph;
            std::mem::swap(&mut tmp, &mut stack[j]);
            if let BlockCtx::CodeBlock { lang, mut content } = tmp {
                content.append(s);
                stack.set(j, BlockCtx::CodeBlock { lang, content });
            }
            return;
        }
    }
}

/// Advances the counter of the innermost list context, when it is an
/// ordered list.
fn advance_innermost_counter(stack: &mut Vec<BlockCtx>)
    ensures
        (list_index(old(stack)@) >= 0 && old(stack)@[list_index(old(stack)@)] is OrderedList) ==> final(stack)@
            == old(stack)@.update(
            list_index(old(stack)@),
            BlockCtx::OrderedList(old(stack)@[list_index(old(stack)@)]->OrderedList_0.wrapping_add(1)),
        ),
        !(list_index(old(stack)@) >= 0 && old(stack)@[list_index(old(stack)@)] is OrderedList) ==> final(stack)@
            == old(stack)@,
{
    proof {
        lemma_list_index_bounds(stack@);
    }
    let mut j: usize = stack.len();
    assert(stack@.take(j as int) =~= stack@);
    while j > 0
        invariant
            j <= stack@.len(),
            stack@ == old(stack)@,
            list_index(stack@) == list_index(stack@.take(j as int)),
        decreases j,
    {
        assert(stack@.take(j as int).drop_last() =~= stack@.take(j - 1));
        j = j - 1;
        let is_bullet = match &stack[j] {
            BlockCtx::BulletList => true,
            _ => false,
        };
        if is_bullet {
            return;
        }
        let counter = match &stack[j] {
            BlockCtx::OrderedList(n) => Some(*n),
            _ => None,
        };
        if let Some(n) = counter {
            stack.set(j, BlockCtx::OrderedList(n.wrapping_add(1)));
            return;
        }
    }
}


/// Advances the counter of the innermost list if it is ordered: a nested
/// list, bullet or ordered, shields every enclosing list's counter.
pub fn advance_list_counter(stack: &mut Vec<BlockCtx>)
    ensures
        (list_index(old(stack)@) >= 0 && old(stack)@[list_index(old(stack)@)] is OrderedList) ==> final(stack)@
            == old(stack)@.update(
            list_index(old(stack)@),
            BlockCtx::OrderedList(old(stack)@[list_index(old(stack)@)]->OrderedList_0.wrapping_add(1)),
        ),
        !(list_index(old(stack)@) >= 0 && old(stack)@[list_index(old(stack)@)] is OrderedList) ==> final(stack)@
            == old(stack)@,
        final(stack)@.len() == old(stack)@.len(),
        forall|i: int|
            0 <= i < old(stack)@.len() && !(old(stack)@[i] is OrderedList) ==> #[trigger] final(stack)@[i]
                == old(stack)@[i],
        forall|i: int, m: int|
            0 <= i < m < old(stack)@.len() && (#[trigger] old(stack)@[m] is OrderedList || old(stack)@[m] is BulletList)
                ==> #[trigger] final(stack)@[i] == old(stack)@[i],
        forall|i: int|
            0 <= i < old(stack)@.len() && old(stack)@[i] is OrderedList && (forall|m: int|
                i < m < old(stack)@.len() ==> !(#[trigger] old(stack)@[m] is OrderedList || old(stack)@[m] is BulletList))
                ==> #[trigger] final(stack)@[i] == BlockCtx::OrderedList(old(stack)@[i]->OrderedList_0.wrapping_add(1)),
{
    let ghost s0 = stack@;
    advance_innermost_counter(stack);
    proof {
        lemma_list_index_bounds(s0);
        lemma_list_index_top(s0);
        let li = list_index(s0);
        assert forall|i: int, m: int|
            0 <= i < m < s0.len() && (#[trigger] s0[m] is OrderedList || s0[m] is BulletList) implies #[trigger] stack@[i]
                == s0[i] by {
            assert(m <= li);
        }
        assert forall|i: int|
            0 <= i < s0.len() && s0[i] is OrderedList && (forall|m: int|
                i < m < s0.len() ==> !(#[trigger] s0[m] is OrderedList || s0[m] is BulletList)) implies #[trigger] stack@[i]
                == BlockCtx::OrderedList(s0[i]->OrderedList_0.wrapping_add(1)) by {
            assert(i <= li);
            if i < li {
                assert(!(s0[li] is OrderedList || s0[li] is BulletList));
            }
        }
    }
}

/// Drains the current cell of the innermost table (empty outside tables).
pub fn flush_table_cell(stack: &mut Vec<BlockCtx>) -> (cell: String)
    ensures
        final(stack)@.len() == old(stack)@.len(),
        -1 <= table_index(old(stack)@) < old(stack)@.len(),
        table_index(old(stack)@) == -1 ==> final(stack)@ == old(stack)@ && cell@.len() == 0,
        table_index(old(stack)@) >= 0 ==> ({
            let j = table_index(old(stack)@);
            let (o, n) = (buf_of(old(stack)@[j]), buf_of(final(stack)@[j]));
            &&& same_except(final(stack)@, old(stack)@, j)
            &&& final(stack)@[j] is Table
            &&& cell == o.current_cell
            &&& n.current_cell@.len() == 0
            &&& n.header == o.header && n.rows == o.rows && n.in_header == o.in_header
            &&& n.current_row == o.current_row
        }),
{
    proof {
        lemma_table_index_bounds(stack@);
    }
    if let Some(j) = innermost_table(stack) {
        let mut buf = take_table(stack, j);
        let mut cell = String::new();
        std::mem::swap(&mut cell, &mut buf.current_cell);
        stack.set(j, BlockCtx::Table(buf));
        cell
    } else {
        String::new()
    }
}

/// Drains the current row of the innermost table (empty outside tables).
pub fn flush_table_row(stack: &mut Vec<BlockCtx>) -> (row: Vec<String>)
    ensures
        final(stack)@.len() == old(stack)@.len(),
        -1 <= table_index(old(stack)@) < old(stack)@.len(),
        table_index(old(stack)@) == -1 ==> final(stack)@ == old(stack)@ && row@.len() == 0,
        table_index(old(stack)@) >= 0 ==> ({
            let j = table_index(old(stack)@);
            let (o, n) = (buf_of(old(stack)@[j]), buf_of(final(stack)@[j]));
            &&& same_except(final(stack)@, old(stack)@, j)
            &&& final(stack)@[j] is Table
            &&& row == o.current_row
            &&& n.current_row@.len() == 0
            &&& n.header == o.header && n.rows == o.rows && n.in_header == o.in_header
            &&& n.current_cell == o.current_cell
        }),
{
    proof {
        lemma_table_index_bounds(stack@);
    }
    if let Some(j) = innermost_table(stack) {
        let mut buf = take_table(stack, j);
        let mut row: Vec<String> = Vec::new();
        std::mem::swap(&mut row, &mut buf.current_row);
        stack.set(j, BlockCtx::Table(buf));
        row
    } else {
        Vec::new()
    }
}

/// Updates the innermost table: sets whether its header section is open
/// (when `in_header` is given) and, when `cells` is non-empty, stores them
/// as the header (`as_header`) or appends them as a body row.
fn table_store(stack: &mut Vec<BlockCtx>, cells: Vec<String>, as_header: bool, in_header: Option<bool>)
    ensures
        final(stack)@.len() == old(stack)@.len(),
        -1 <= table_index(old(stack)@) < old(stack)@.len(),
        table_index(old(stack)@) == -1 ==> final(stack)@ == old(stack)@,
        table_index(old(stack)@) >= 0 ==> ({
            let j = table_index(old(stack)@);
            let (o, n) = (buf_of(old(stack)@[j]), buf_of(final(stack)@[j]));
            &&& same_except(final(stack)@, old(stack)@, j)
            &&& final(stack)@[j] is Table
            &&& n.in_header == (match in_header {
                Some(b) => b,
                None => o.in_header,
            })
            &&& n.header == (if cells@.len() > 0 && as_header { cells } else { o.header })
            &&& n.rows@ == (if cells@.len() > 0 && !as_header { o.rows@.push(cells) } else { o.rows@ })
            &&& n.current_cell == o.current_cell && n.current_row == o.current_row
        }),
{
    proof {
        lemma_table_index_bounds(stack@);
    }
    if let Some(j) = innermost_table(stack) {
        let mut buf = take_table(stack, j);
        if cells.len() > 0 {
            if as_header {
                buf.header = cells;
            } else {
                buf.rows.push(cells);
            }
        }
        if let Some(b) = in_header {
            buf.in_header = b;
        }
        stack.set(j, BlockCtx::Table(buf));
    }
}

/// Appends a cell to the current row of the innermost table.
fn table_push_cell(stack: &mut Vec<BlockCtx>, cell: String)
    ensures
        final(stack)@.len() == old(stack)@.len(),
        -1 <= table_index(old(stack)@) < old(stack)@.len(),
        table_index(old(stack)@) == -1 ==> final(stack)@ == old(stack)@,
        table_index(old(stack)@) >= 0 ==> ({
            let j = table_index(old(stack)@);
            let (o, n) = (buf_of(old(stack)@[j]), buf_of(final(stack)@[j]));
            &&& same_except(final(stack)@, old(stack)@, j)
            &&& final(stack)@[j] is Table
            &&& n.current_row@ == o.current_row@.push(cell)
            &&& n.header == o.header && n.rows == o.rows && n.in_header == o.in_header
            &&& n.current_cell == o.current_cell
        }),
{
    proof {
        lemma_table_index_bounds(stack@);
    }
    if let Some(j) = innermost_table(stack) {
        let mut buf = take_table(stack, j);
        buf.current_row.push(cell);
        stack.set(j, BlockCtx::Table(buf));
    }
}

/// Whether some block context is a list item.
fn inside_item(stack: &Vec<BlockCtx>) -> (b: bool)
    ensures
        b == exists|k: int| 0 <= k < stack@.len() && (#[trigger] stack@[k]) is Item,
{
    let mut j: usize = stack.len();
    while j > 0
        invariant
            j <= stack@.len(),
            forall|k: int| j <= k < stack@.len() ==> !((#[trigger] stack@[k]) is Item),
        decreases j,
    {
        j = j - 1;
        if let BlockCtx::Item = &stack[j] {
            return true;
        }
    }
    false
}


// ── Output under construction ─────────────────────────────────────────────────

/// The rendered output under construction: the committed lines with their
/// annotations, the spans of the line being built (each with its element),
/// and the element arena.
pub struct Output {
    lines: Vec<Line>,
    annotations: Vec<Vec<SpanRange>>,
    spans: Vec<Span>,
    span_elems: Vec<ElementId>,
    elements: Vec<Element>,
}

/// One rendered span as the model sees it: its content, its style and the
/// element it belongs to.
pub type Cell = (Seq<char>, Style, ElementId);

/// The cells of some spans, each tagged with the element at the same index.
pub open spec fn cells_of(spans: Seq<Span>, elems: Seq<ElementId>) -> Seq<Cell> {
    Seq::new(spans.len(), |k: int| (spans[k].content@, spans[k].style, elems[k]))
}

/// The cells of some spans that all belong to `elem`.
pub open spec fn uniform_cells(spans: Seq<Span>, elem: ElementId) -> Seq<Cell> {
    Seq::new(spans.len(), |k: int| (spans[k].content@, spans[k].style, elem))
}

/// A single cell, or none when the content is empty.
pub open spec fn opt_cell(content: Seq<char>, style: Style, elem: ElementId) -> Seq<Cell> {
    if content.len() > 0 {
        seq![(content, style, elem)]
    } else {
        Seq::empty()
    }
}

/// The cells of a committed line, tagged by its annotations.
pub open spec fn line_cells(line: Line, ranges: Vec<SpanRange>) -> Seq<Cell> {
    Seq::new(line.spans@.len(), |k: int| (line.spans@[k].content@, line.spans@[k].style, ranges@[k].element))
}

/// The committed lines and the line being built after writing `pieces`
/// (the parts of a text between its line breaks) in one style, for one
/// element: each break commits the line being built.
pub open spec fn write_pieces(lines: Seq<Seq<Cell>>, pending: Seq<Cell>, pieces: Seq<Seq<char>>, style: Style, elem: ElementId) -> (Seq<Seq<Cell>>, Seq<Cell>)
    decreases pieces.len(),
{
    if pieces.len() == 0 {
        (lines, pending)
    } else if pieces.len() == 1 {
        (lines, pending + opt_cell(pieces[0], style, elem))
    } else {
        let prev = write_pieces(lines, pending, pieces.drop_last(), style, elem);
        (prev.0.push(prev.1), opt_cell(pieces.last(), style, elem))
    }
}

impl Output {
    /// The committed lines.
    pub closed spec fn lines(&self) -> Seq<Line> {
        self.lines@
    }

    /// The annotations of the committed lines.
    pub closed spec fn annotations(&self) -> Seq<Vec<SpanRange>> {
        self.annotations@
    }

    /// The spans of the line being built.
    pub closed spec fn spans(&self) -> Seq<Span> {
        self.spans@
    }

    /// The element of each span of the line being built.
    pub closed spec fn span_elems(&self) -> Seq<ElementId> {
        self.span_elems@
    }

    /// The element arena.
    pub closed spec fn elements(&self) -> Seq<Element> {
        self.elements@
    }

    /// The number of elements.
    pub open spec fn n(&self) -> int {
        self.elements().len() as int
    }

    /// Whether `id` names an element of the arena.
    pub open spec fn has(&self, id: ElementId) -> bool {
        (id.0 as int) < self.n()
    }

    /// Committed lines tiled by their annotations, one element per pending
    /// span, every id in the arena, parents before children, and the
    /// document element at index 0.
    pub open spec fn wf(&self) -> bool {
        &&& lines_tiled(self.lines(), self.annotations())
        &&& annotations_wf(self.annotations(), self.n())
        &&& self.span_elems().len() == self.spans().len()
        &&& forall|k: int| 0 <= k < self.span_elems().len() ==> self.has(#[trigger] self.span_elems()[k])
        &&& arena_wf(self.elements())
        &&& 1 <= self.n() <= u32::MAX
    }

    /// The committed lines, as cells.
    pub open spec fn line_model(&self) -> Seq<Seq<Cell>> {
        Seq::new(self.lines().len(), |i: int| line_cells(self.lines()[i], self.annotations()[i]))
    }

    /// The line being built, as cells.
    pub open spec fn pending(&self) -> Seq<Cell> {
        cells_of(self.spans(), self.span_elems())
    }

    /// `self` grew from `old`: the arena only gained elements at its end
    /// (kinds of existing ones may have been updated, parents kept).
    pub open spec fn grew_from(&self, old: &Output) -> bool {
        &&& old.n() <= self.n()
        &&& forall|i: int| 0 <= i < old.n() ==> (#[trigger] self.elements()[i]).parent == old.elements()[i].parent
    }

    /// An empty output whose arena holds the document element.
    pub fn new() -> (o: Output)
        ensures
            o.wf(),
            o.lines().len() == 0,
            o.spans().len() == 0,
            o.elements() == seq![Element { kind: ElementKind::Document, parent: None }],
    {
        let mut elements: Vec<Element> = Vec::new();
        elements.push(Element { kind: ElementKind::Document, parent: None });
        Output {
            lines: Vec::new(),
            annotations: Vec::new(),
            spans: Vec::new(),
            span_elems: Vec::new(),
            elements,
        }
    }

    /// Adds an element with the given kind and parent and returns its id.
    /// When the arena is full (`u32::MAX` elements) nothing is added and the
    /// document element is returned.
    pub fn add_element(&mut self, kind: ElementKind, parent: Option<ElementId>) -> (id: ElementId)
        requires
            old(self).wf(),
            parent matches Some(p) ==> old(self).has(p),
        ensures
            final(self).wf(),
            final(self).grew_from(old(self)),
            final(self).has(id),
            final(self).lines() == old(self).lines(),
            final(self).annotations() == old(self).annotations(),
            final(self).spans() == old(self).spans(),
            final(self).span_elems() == old(self).span_elems(),
            old(self).n() < u32::MAX ==> id.0 == old(self).n() && final(self).elements()
                == old(self).elements().push(Element { kind, parent }),
            old(self).n() >= u32::MAX ==> id.0 == 0 && final(self).elements() == old(self).elements(),
    {
        let n = self.elements.len();
        if n < 4294967295 {
            self.elements.push(Element { kind, parent });
            ElementId(n as u32)
        } else {
            ElementId(0)
        }
    }

    /// Replaces the kind of element `id`, keeping its parent.
    pub fn set_kind(&mut self, id: ElementId, kind: ElementKind)
        requires
            old(self).wf(),
            old(self).has(id),
        ensures
            final(self).wf(),
            final(self).grew_from(old(self)),
            final(self).n() == old(self).n(),
            final(self).elements() == old(self).elements().update(
                id.0 as int,
                Element { kind, parent: old(self).elements()[id.0 as int].parent },
            ),
            final(self).lines() == old(self).lines(),
            final(self).annotations() == old(self).annotations(),
            final(self).spans() == old(self).spans(),
            final(self).span_elems() == old(self).span_elems(),
    {
        let i = id.0 as usize;
        let parent = self.elements[i].parent;
        self.elements.set(i, Element { kind, parent });
    }

    /// Appends a span to the line being built, unless its content is empty.
    pub fn push_span(&mut self, content: String, style: Style, elem: ElementId)
        requires
            old(self).wf(),
            old(self).has(elem),
        ensures
            final(self).wf(),
            final(self).elements() == old(self).elements(),
            final(self).lines() == old(self).lines(),
            final(self).annotations() == old(self).annotations(),
            content@.len() > 0 ==> final(self).spans() == old(self).spans().push(Span { content, style })
                && final(self).span_elems() == old(self).span_elems().push(elem),
            content@.len() == 0 ==> final(self).spans() == old(self).spans() && final(self).span_elems()
                == old(self).span_elems(),
            final(self).pending() == old(self).pending() + opt_cell(content@, style, elem),
            final(self).line_model() == old(self).line_model(),
    {
        if !content.as_str().is_empty() {
            self.spans.push(Span::from_string(content, style));
            self.span_elems.push(elem);
        }
        assert(self.pending() =~= old(self).pending() + opt_cell(content@, style, elem));
        assert(self.line_model() =~= old(self).line_model());
    }

    /// Appends spans to the line being built, all tagged with `elem`
    /// (empty ones included).
    pub fn push_spans(&mut self, spans: Vec<Span>, elem: ElementId)
        requires
            old(self).wf(),
            old(self).has(elem),
        ensures
            final(self).wf(),
            final(self).elements() == old(self).elements(),
            final(self).lines() == old(self).lines(),
            final(self).annotations() == old(self).annotations(),
            final(self).spans() == old(self).spans() + spans@,
            final(self).span_elems().len() == final(self).spans().len(),
            forall|k: int| old(self).span_elems().len() <= k < final(self).span_elems().len()
                ==> #[trigger] final(self).span_elems()[k] == elem,
            forall|k: int| 0 <= k < old(self).span_elems().len()
                ==> #[trigger] final(self).span_elems()[k] == old(self).span_elems()[k],
            final(self).pending() == old(self).pending() + uniform_cells(spans@, elem),
            final(self).line_model() == old(self).line_model(),
    {
        let mut rest = spans;
        let ghost s0 = self.spans@;
        let ghost e0 = self.span_elems@;
        let ghost all = rest@;
        while rest.len() > 0
            invariant
                self.wf(),
                self.elements@ == old(self).elements@,
                self.lines@ == old(self).lines@,
                self.annotations@ == old(self).annotations@,
                (elem.0 as int) < self.elements@.len(),
                s0 == old(self).spans@,
                e0 == old(self).span_elems@,
                all == spans@,
                self.spans@ + rest@ == s0 + all,
                self.spans@.len() >= s0.len(),
                e0.len() == s0.len(),
                self.span_elems@.len() == self.spans@.len(),
                forall|k: int| e0.len() <= k < self.span_elems@.len() ==> #[trigger] self.span_elems@[k] == elem,
                forall|k: int| 0 <= k < e0.len() ==> #[trigger] self.span_elems@[k] == e0[k],
            decreases rest@.len(),
        {
            let ghost before = self.spans@;
            let ghost r0 = rest@;
            let sp = rest.remove(0);
            assert(before.push(sp) + rest@ =~= before + r0);
            self.spans.push(sp);
            self.span_elems.push(elem);
        }
        assert(self.spans@ + rest@ =~= self.spans@);
        assert(self.pending() =~= old(self).pending() + uniform_cells(spans@, elem));
        assert(self.line_model() =~= old(self).line_model());
    }

    /// Commits the line being built: its spans become a new line (unstyled,
    /// unaligned) annotated with their elements; the line being built is
    /// then empty.
    pub fn commit_line(&mut self)
        requires
            old(self).wf(),
        ensures
            final(self).wf(),
            final(self).elements() == old(self).elements(),
            final(self).lines().len() == old(self).lines().len() + 1,
            final(self).lines().drop_last() == old(self).lines(),
            final(self).lines().last().spans@ == old(self).spans(),
            final(self).lines().last().style == plain_style(),
            final(self).lines().last().alignment is None,
            final(self).annotations().drop_last() == old(self).annotations(),
            forall|k: int| 0 <= k < old(self).spans().len()
                ==> (#[trigger] final(self).annotations().last()@[k]).element == old(self).span_elems()[k],
            final(self).spans().len() == 0,
            final(self).span_elems().len() == 0,
            final(self).line_model() == old(self).line_model().push(old(self).pending()),
            final(self).pending().len() == 0,
            plain_lines(old(self).lines()) ==> plain_lines(final(self).lines()),
    {
        let mut spans: Vec<Span> = Vec::new();
        let mut elems: Vec<ElementId> = Vec::new();
        std::mem::swap(&mut spans, &mut self.spans);
        std::mem::swap(&mut elems, &mut self.span_elems);
        let ranges = span_ranges(&spans, &elems);
        let ghost l0 = self.lines@;
        let ghost a0 = self.annotations@;
        self.lines.push(Line::from_spans(spans));
        self.annotations.push(ranges);
        assert(self.lines@.drop_last() =~= l0);
        assert(self.annotations@.drop_last() =~= a0);
        assert forall|l: int, k: int|
            0 <= l < self.annotations@.len() && 0 <= k < self.annotations@[l]@.len() implies (
            #[trigger] self.annotations@[l]@[k]).element.0 < self.elements@.len() by {
            if l < a0.len() {
                assert(self.annotations@[l] == a0[l]);
            }
        }
        assert forall|l: int| 0 <= l < self.lines@.len() implies tiles(
            #[trigger] self.annotations@[l]@,
            self.lines@[l].spans@,
        ) by {
            if l < a0.len() {
                assert(self.annotations@[l] == a0[l]);
                assert(self.lines@[l] == l0[l]);
            }
        }
        assert(self.line_model() =~= old(self).line_model().push(old(self).pending())) by {
            assert forall|i: int| 0 <= i < l0.len() implies self.line_model()[i] == old(self).line_model()[i] by {
                assert(self.lines@[i] == l0[i]);
                assert(self.annotations@[i] == a0[i]);
            }
            assert(line_cells(self.lines@.last(), self.annotations@.last()) =~= old(self).pending());
        }
        proof {
            if plain_lines(old(self).lines()) {
                lemma_plain_push(old(self).lines(), self.lines@.last());
                assert(self.lines@ =~= old(self).lines().push(self.lines@.last()));
            }
        }
    }

    /// Appends an empty line with no annotations.
    pub fn push_blank(&mut self)
        requires
            old(self).wf(),
        ensures
            final(self).wf(),
            final(self).elements() == old(self).elements(),
            final(self).spans() == old(self).spans(),
            final(self).span_elems() == old(self).span_elems(),
            final(self).lines().len() == old(self).lines().len() + 1,
            final(self).lines().drop_last() == old(self).lines(),
            final(self).lines().last().spans@.len() == 0,
            final(self).lines().last().style == plain_style(),
            final(self).lines().last().alignment is None,
            final(self).annotations().drop_last() == old(self).annotations(),
            final(self).line_model() == old(self).line_model().push(Seq::empty()),
            final(self).pending() == old(self).pending(),
            plain_lines(old(self).lines()) ==> plain_lines(final(self).lines()),
    {
        let ghost l0 = self.lines@;
        let ghost a0 = self.annotations@;
        self.lines.push(Line::empty());
        self.annotations.push(Vec::new());
        assert(self.lines@.drop_last() =~= l0);
        assert(self.annotations@.drop_last() =~= a0);
        assert forall|l: int, k: int|
            0 <= l < self.annotations@.len() && 0 <= k < self.annotations@[l]@.len() implies (
            #[trigger] self.annotations@[l]@[k]).element.0 < self.elements@.len() by {
            if l < a0.len() {
                assert(self.annotations@[l] == a0[l]);
            }
        }
        assert forall|l: int| 0 <= l < self.lines@.len() implies tiles(
            #[trigger] self.annotations@[l]@,
            self.lines@[l].spans@,
        ) by {
            if l < a0.len() {
                assert(self.annotations@[l] == a0[l]);
                assert(self.lines@[l] == l0[l]);
            }
        }
        assert(self.line_model() =~= old(self).line_model().push(Seq::empty())) by {
            assert forall|i: int| 0 <= i < l0.len() implies self.line_model()[i] == old(self).line_model()[i] by {
                assert(self.lines@[i] == l0[i]);
                assert(self.annotations@[i] == a0[i]);
            }
            assert(line_cells(self.lines@.last(), self.annotations@.last()) =~= Seq::<Cell>::empty());
        }
        proof {
            if plain_lines(old(self).lines()) {
                lemma_plain_push(old(self).lines(), self.lines@.last());
                assert(self.lines@ =~= old(self).lines().push(self.lines@.last()));
            }
        }
    }

    /// Appends a finished line whose spans all belong to `elem`.
    pub fn push_line(&mut self, line: Line, elem: ElementId)
        requires
            old(self).wf(),
            old(self).has(elem),
        ensures
            final(self).wf(),
            final(self).elements() == old(self).elements(),
            final(self).spans() == old(self).spans(),
            final(self).span_elems() == old(self).span_elems(),
            final(self).lines() == old(self).lines().push(line),
            final(self).annotations().drop_last() == old(self).annotations(),
            forall|k: int| 0 <= k < line.spans@.len()
                ==> (#[trigger] final(self).annotations().last()@[k]).element == elem,
            final(self).line_model() == old(self).line_model().push(uniform_cells(line.spans@, elem)),
            final(self).pending() == old(self).pending(),
            (plain_lines(old(self).lines()) && line.style == plain_style() && line.alignment is None) ==> plain_lines(final(self).lines()),
    {
        let ranges = uniform_ranges(&line.spans, elem);
        let ghost l0 = self.lines@;
        let ghost a0 = self.annotations@;
        self.lines.push(line);
        self.annotations.push(ranges);
        assert(self.annotations@.drop_last() =~= a0);
        assert forall|l: int, k: int|
            0 <= l < self.annotations@.len() && 0 <= k < self.annotations@[l]@.len() implies (
            #[trigger] self.annotations@[l]@[k]).element.0 < self.elements@.len() by {
            if l < a0.len() {
                assert(self.annotations@[l] == a0[l]);
            }
        }
        assert forall|l: int| 0 <= l < self.lines@.len() implies tiles(
            #[trigger] self.annotations@[l]@,
            self.lines@[l].spans@,
        ) by {
            if l < a0.len() {
                assert(self.annotations@[l] == a0[l]);
                assert(self.lines@[l] == l0[l]);
            }
        }
        assert(self.line_model() =~= old(self).line_model().push(uniform_cells(line.spans@, elem))) by {
            assert forall|i: int| 0 <= i < l0.len() implies self.line_model()[i] == old(self).line_model()[i] by {
                assert(self.lines@[i] == l0[i]);
                assert(self.annotations@[i] == a0[i]);
            }
            assert(line_cells(self.lines@.last(), self.annotations@.last()) =~= uniform_cells(line.spans@, elem));
        }
        proof {
            if plain_lines(old(self).lines()) && line.style == plain_style() && line.alignment is None {
                lemma_plain_push(old(self).lines(), line);
            }
        }
    }

    /// Appends a finished line of the given spans, each belonging to the
    /// element at the same index of `elems`.
    pub fn push_line_elems(&mut self, spans: Vec<Span>, elems: Vec<ElementId>)
        requires
            old(self).wf(),
            elems@.len() == spans@.len(),
            forall|k: int| 0 <= k < elems@.len() ==> old(self).has(#[trigger] elems@[k]),
        ensures
            final(self).wf(),
            final(self).elements() == old(self).elements(),
            final(self).spans() == old(self).spans(),
            final(self).span_elems() == old(self).span_elems(),
            final(self).lines().len() == old(self).lines().len() + 1,
            final(self).lines().drop_last() == old(self).lines(),
            final(self).lines().last().spans@ == spans@,
            final(self).lines().last().style == plain_style(),
            final(self).lines().last().alignment is None,
            final(self).annotations().drop_last() == old(self).annotations(),
            forall|k: int| 0 <= k < spans@.len()
                ==> (#[trigger] final(self).annotations().last()@[k]).element == elems@[k],
            final(self).line_model() == old(self).line_model().push(cells_of(spans@, elems@)),
            final(self).pending() == old(self).pending(),
            plain_lines(old(self).lines()) ==> plain_lines(final(self).lines()),
    {
        let ghost sp = spans@;
        let ghost el = elems@;
        let ranges = span_ranges(&spans, &elems);
        let ghost l0 = self.lines@;
        let ghost a0 = self.annotations@;
        self.lines.push(Line::from_spans(spans));
        self.annotations.push(ranges);
        assert(self.lines@.drop_last() =~= l0);
        assert(self.annotations@.drop_last() =~= a0);
        assert forall|l: int, k: int|
            0 <= l < self.annotations@.len() && 0 <= k < self.annotations@[l]@.len() implies (
            #[trigger] self.annotations@[l]@[k]).element.0 < self.elements@.len() by {
            if l < a0.len() {
                assert(self.annotations@[l] == a0[l]);
            }
        }
        assert forall|l: int| 0 <= l < self.lines@.len() implies tiles(
            #[trigger] self.annotations@[l]@,
            self.lines@[l].spans@,
        ) by {
            if l < a0.len() {
                assert(self.annotations@[l] == a0[l]);
                assert(self.lines@[l] == l0[l]);
            }
        }
        assert(self.line_model() =~= old(self).line_model().push(cells_of(sp, el))) by {
            assert forall|i: int| 0 <= i < l0.len() implies self.line_model()[i] == old(self).line_model()[i] by {
                assert(self.lines@[i] == l0[i]);
                assert(self.annotations@[i] == a0[i]);
            }
            assert(line_cells(self.lines@.last(), self.annotations@.last()) =~= cells_of(sp, el));
        }
        proof {
            if plain_lines(old(self).lines()) {
                lemma_plain_push(old(self).lines(), self.lines@.last());
                assert(self.lines@ =~= old(self).lines().push(self.lines@.last()));
            }
        }
    }

    /// Appends finished lines whose spans all belong to `elem`.
    pub fn push_lines(&mut self, lines: Vec<Line>, elem: ElementId)
        requires
            old(self).wf(),
            old(self).has(elem),
        ensures
            final(self).wf(),
            final(self).elements() == old(self).elements(),
            final(self).spans() == old(self).spans(),
            final(self).span_elems() == old(self).span_elems(),
            final(self).lines() == old(self).lines() + lines@,
            final(self).line_model() == old(self).line_model() + lines@.map_values(
                |l: Line| uniform_cells(l.spans@, elem),
            ),
            final(self).pending() == old(self).pending(),
            (plain_lines(old(self).lines()) && plain_lines(lines@)) ==> plain_lines(final(self).lines()),
    {
        let mut rest = lines;
        let ghost all = rest@;
        while rest.len() > 0
            invariant
                self.wf(),
                self.elements@ == old(self).elements@,
                self.spans@ == old(self).spans@,
                self.span_elems@ == old(self).span_elems@,
                (elem.0 as int) < self.elements@.len(),
                all == lines@,
                self.lines@ + rest@ == old(self).lines@ + all,
                self.lines@.len() >= old(self).lines@.len(),
                self.line_model() == old(self).line_model() + all.take(
                    self.lines@.len() - old(self).lines@.len(),
                ).map_values(|l: Line| uniform_cells(l.spans@, elem)),
            decreases rest@.len(),
        {
            let ghost before = self.lines@;
            let ghost m0 = self.line_model();
            let ghost r0 = rest@;
            let line = rest.remove(0);
            assert(before.push(line) + rest@ =~= before + r0);
            self.push_line(line, elem);
            proof {
                let d = self.lines@.len() - old(self).lines@.len();
                assert(all[d - 1] == line) by {
                    assert((before + r0)[before.len() as int] == r0[0]);
                }
                assert(all.take(d).map_values(|l: Line| uniform_cells(l.spans@, elem)) =~= all.take(d - 1).map_values(
                    |l: Line| uniform_cells(l.spans@, elem),
                ).push(uniform_cells(line.spans@, elem)));
            }
        }
        assert(self.lines@ + rest@ =~= self.lines@);
        assert(all.take(all.len() as int) =~= all);
        proof {
            if plain_lines(old(self).lines()) && plain_lines(all) {
                lemma_plain_concat(old(self).lines(), all);
            }
        }
    }

    /// Removes the last line if it has no spans.
    pub fn drop_trailing_blank(&mut self)
        requires
            old(self).wf(),
        ensures
            final(self).wf(),
            final(self).elements() == old(self).elements(),
            final(self).spans() == old(self).spans(),
            final(self).span_elems() == old(self).span_elems(),
            (old(self).lines().len() > 0 && old(self).lines().last().spans@.len() == 0) ==> final(self).lines()
                == old(self).lines().drop_last() && final(self).annotations() == old(self).annotations().drop_last(),
            !(old(self).lines().len() > 0 && old(self).lines().last().spans@.len() == 0) ==> final(self).lines()
                == old(self).lines() && final(self).annotations() == old(self).annotations(),
            (old(self).lines().len() > 0 && old(self).lines().last().spans@.len() == 0) ==> final(self).line_model()
                == old(self).line_model().drop_last(),
            !(old(self).lines().len() > 0 && old(self).lines().last().spans@.len() == 0) ==> final(self).line_model()
                == old(self).line_model(),
            final(self).pending() == old(self).pending(),
    {
        let n = self.lines.len();
        if n > 0 && self.lines[n - 1].spans.len() == 0 {
            let ghost l0 = self.lines@;
            let ghost a0 = self.annotations@;
            self.lines.pop();
            self.annotations.pop();
            assert(self.lines@ =~= l0.drop_last());
            assert(self.annotations@ =~= a0.drop_last());
            assert forall|l: int, k: int|
                0 <= l < self.annotations@.len() && 0 <= k < self.annotations@[l]@.len() implies (
                #[trigger] self.annotations@[l]@[k]).element.0 < self.elements@.len() by {
                assert(self.annotations@[l] == a0[l]);
            }
            assert forall|l: int| 0 <= l < self.lines@.len() implies tiles(
                #[trigger] self.annotations@[l]@,
                self.lines@[l].spans@,
            ) by {
                assert(self.annotations@[l] == a0[l]);
                assert(self.lines@[l] == l0[l]);
            }
            assert(self.line_model() =~= old(self).line_model().drop_last());
        }
    }

    /// Takes the spans of the line being built (and their elements),
    /// leaving it empty.
    pub fn take_spans(&mut self) -> (r: (Vec<Span>, Vec<ElementId>))
        requires
            old(self).wf(),
        ensures
            final(self).wf(),
            r.0@ == old(self).spans(),
            r.1@ == old(self).span_elems(),
            final(self).spans().len() == 0,
            final(self).elements() == old(self).elements(),
            final(self).lines() == old(self).lines(),
            final(self).annotations() == old(self).annotations(),
            final(self).pending().len() == 0,
            final(self).line_model() == old(self).line_model(),
    {
        let mut spans: Vec<Span> = Vec::new();
        let mut elems: Vec<ElementId> = Vec::new();
        std::mem::swap(&mut spans, &mut self.spans);
        std::mem::swap(&mut elems, &mut self.span_elems);
        (spans, elems)
    }

    /// Keeps only the first `n` spans of the line being built.
    pub fn truncate_spans(&mut self, n: usize)
        requires
            old(self).wf(),
            n <= old(self).spans().len(),
        ensures
            final(self).wf(),
            final(self).spans() == old(self).spans().take(n as int),
            final(self).span_elems() == old(self).span_elems().take(n as int),
            final(self).elements() == old(self).elements(),
            final(self).lines() == old(self).lines(),
            final(self).annotations() == old(self).annotations(),
            final(self).pending() == old(self).pending().take(n as int),
            final(self).line_model() == old(self).line_model(),
    {
        self.spans.truncate(n);
        self.span_elems.truncate(n);
        assert(self.pending() =~= old(self).pending().take(n as int));
        assert(self.line_model() =~= old(self).line_model());
    }

    /// Inserts a non-empty span at index `at` of the line being built.
    pub fn insert_span(&mut self, at: usize, content: String, style: Style, elem: ElementId)
        requires
            old(self).wf(),
            old(self).has(elem),
            at <= old(self).spans().len(),
            content@.len() > 0,
        ensures
            final(self).wf(),
            final(self).elements() == old(self).elements(),
            final(self).lines() == old(self).lines(),
            final(self).annotations() == old(self).annotations(),
            final(self).spans() == old(self).spans().insert(at as int, Span { content, style }),
            final(self).span_elems() == old(self).span_elems().insert(at as int, elem),
            final(self).pending() == old(self).pending().insert(at as int, (content@, style, elem)),
            final(self).line_model() == old(self).line_model(),
    {
        let ghost c = content@;
        self.spans.insert(at, Span::from_string(content, style));
        self.span_elems.insert(at, elem);
        assert forall|k: int| 0 <= k < self.span_elems().len() implies self.has(#[trigger] self.span_elems()[k]) by {
            if k < at {
                assert(self.span_elems()[k] == old(self).span_elems()[k]);
            } else if k > at {
                assert(self.span_elems()[k] == old(self).span_elems()[k - 1]);
            }
        }
        assert(self.pending() =~= old(self).pending().insert(at as int, (c, style, elem)));
        assert(self.line_model() =~= old(self).line_model());
    }

    /// The contents of the spans of the line being built from index
    /// `start` on, concatenated.
    pub fn spans_text_from(&self, start: usize) -> (r: String)
        requires
            start <= self.spans().len(),
        ensures
            r@ == spans_content(self.spans().skip(start as int)),
    {
        let mut r = String::new();
        let mut i: usize = start;
        assert(self.spans@.skip(start as int).take(0) =~= Seq::<Span>::empty());
        while i < self.spans.len()
            invariant
                start <= i <= self.spans@.len(),
                r@ == spans_content(self.spans@.skip(start as int).take(i - start)),
            decreases self.spans@.len() - i,
        {
            let ghost t = self.spans@.skip(start as int);
            assert(t.take(i + 1 - start).drop_last() =~= t.take(i - start));
            assert(t.take(i + 1 - start).last() == self.spans@[i as int]);
            r.append(self.spans[i].content.as_str());
            i = i + 1;
        }
        assert(self.spans@.skip(start as int).take(i - start) =~= self.spans@.skip(start as int));
        r
    }

    /// Whether the line being built has no spans.
    pub fn spans_empty(&self) -> (b: bool)
        ensures
            b == (self.spans().len() == 0),
    {
        self.spans.len() == 0
    }

    /// The number of spans of the line being built.
    pub fn spans_len(&self) -> (n: usize)
        ensures
            n == self.spans().len(),
    {
        self.spans.len()
    }

    /// Turns the output into a document: the committed lines form a text in
    /// the given base style.
    pub fn into_document(self, style: Style) -> (d: MarkdownDocument)
        requires
            self.wf(),
        ensures
            d.rendered().lines@ == self.lines(),
            d.rendered().style == style,
            d.rendered().alignment is None,
            d.elements() == self.elements(),
            d.annotations() == self.annotations(),
    {
        let text = Text { lines: self.lines, style, alignment: None };
        MarkdownDocument::from_parts(text, self.elements, self.annotations)
    }
}

/// Every line has no style and no alignment of its own.
pub open spec fn plain_lines(lines: Seq<Line>) -> bool {
    forall|i: int| 0 <= i < lines.len() ==> (#[trigger] lines[i]).style == plain_style() && lines[i].alignment is None
}

/// Appending a plain line keeps the lines plain.
proof fn lemma_plain_push(lines: Seq<Line>, line: Line)
    requires
        plain_lines(lines),
        line.style == plain_style(),
        line.alignment is None,
    ensures
        plain_lines(lines.push(line)),
{
    assert forall|i: int| 0 <= i < lines.push(line).len() implies (#[trigger] lines.push(line)[i]).style
        == plain_style() && lines.push(line)[i].alignment is None by {
        if i < lines.len() {
            assert(lines.push(line)[i] == lines[i]);
        }
    }
}

/// Appending plain lines keeps the lines plain.
proof fn lemma_plain_concat(a: Seq<Line>, b: Seq<Line>)
    requires
        plain_lines(a),
        plain_lines(b),
    ensures
        plain_lines(a + b),
{
    assert forall|i: int| 0 <= i < (a + b).len() implies (#[trigger] (a + b)[i]).style == plain_style() && (a
        + b)[i].alignment is None by {
        if i < a.len() {
            assert((a + b)[i] == a[i]);
        } else {
            assert((a + b)[i] == b[i - a.len()]);
        }
    }
}

/// Whether text is swallowed: the innermost block is a metadata block.
pub open spec fn metadata_ctx(b: Seq<BlockCtx>) -> bool {
    b.len() > 0 && b.last() is MetadataBlock
}

/// Whether text is buffered into a table cell.
pub open spec fn table_ctx(b: Seq<BlockCtx>) -> bool {
    exists|k: int| 0 <= k < b.len() && is_table_ctx(#[trigger] b[k])
}

/// Whether text is buffered into a code block.
pub open spec fn code_ctx(b: Seq<BlockCtx>) -> bool {
    exists|k: int| 0 <= k < b.len() && (#[trigger] b[k]) is CodeBlock
}

/// `new` is `old` with `s` appended to the current cell of the innermost
/// table (unchanged outside tables).
pub open spec fn cell_text_appended(old: Seq<BlockCtx>, new: Seq<BlockCtx>, s: Seq<char>) -> bool {
    &&& table_index(old) == -1 ==> new == old
    &&& table_index(old) >= 0 ==> ({
        let j = table_index(old);
        let (o, n) = (buf_of(old[j]), buf_of(new[j]));
        &&& same_except(new, old, j)
        &&& new[j] is Table
        &&& n.current_cell@ == o.current_cell@ + s
        &&& n.header == o.header && n.rows == o.rows && n.in_header == o.in_header
        &&& n.current_row == o.current_row
    })
}

/// `new` is `old` with `s` appended to the content of the innermost code
/// block (unchanged outside code blocks).
pub open spec fn code_text_appended(old: Seq<BlockCtx>, new: Seq<BlockCtx>, s: Seq<char>) -> bool {
    &&& code_index(old) == -1 ==> new == old
    &&& code_index(old) >= 0 ==> ({
        let j = code_index(old);
        &&& same_except(new, old, j)
        &&& new[j] is CodeBlock
        &&& new[j]->lang == old[j]->lang
        &&& new[j]->content@ == old[j]->content@ + s
    })
}

/// `new` is `old` with `s` appended to the content of the first definition
/// labelled `label` (unchanged when there is none).
pub open spec fn footnote_text_appended(old: Seq<FootnoteDef>, new: Seq<FootnoteDef>, label: Seq<char>, s: Seq<char>) -> bool {
    &&& new.len() == old.len()
    &&& (forall|i: int| 0 <= i < old.len() ==> (#[trigger] old[i]).label@ != label) ==> new == old
    &&& forall|i: int|
        0 <= i < old.len() && (#[trigger] old[i]).label@ == label && (forall|j: int| 0 <= j < i ==> (#[trigger] old[j]).label@ != label)
            ==> {
            &&& new[i].label == old[i].label
            &&& new[i].elem == old[i].elem
            &&& new[i].content@ == old[i].content@ + s
            &&& forall|k: int| 0 <= k < old.len() && k != i ==> #[trigger] new[k] == old[k]
        }
}

/// The id that the next added element gets.
pub open spec fn next_id(o: Output) -> ElementId {
    if o.n() < u32::MAX {
        ElementId(o.n() as u32)
    } else {
        ElementId(0)
    }
}

/// The arena of `o` after adding an element (nothing is added once the
/// arena is full).
pub open spec fn with_element(o: Output, kind: ElementKind, parent: Option<ElementId>) -> Seq<Element> {
    if o.n() < u32::MAX {
        o.elements().push(Element { kind, parent })
    } else {
        o.elements()
    }
}

/// `new` extends `old` with cells that all belong to `elem`.
pub open spec fn extends_with(old: Seq<Cell>, new: Seq<Cell>, elem: ElementId) -> bool {
    &&& new.len() >= old.len()
    &&& new.take(old.len() as int) == old
    &&& forall|k: int| old.len() <= k < new.len() ==> (#[trigger] new[k]).2 == elem
}

/// The stack after popping its innermost context (unchanged when empty).
pub open spec fn popped<T>(b: Seq<T>) -> Seq<T> {
    if b.len() > 0 {
        b.drop_last()
    } else {
        b
    }
}

/// `new` is `old` followed by lines whose cells all belong to `elem`.
pub open spec fn lines_with(old: Seq<Seq<Cell>>, new: Seq<Seq<Cell>>, elem: ElementId) -> bool {
    &&& new.len() >= old.len()
    &&& new.take(old.len() as int) == old
    &&& forall|i: int, k: int| old.len() <= i < new.len() && 0 <= k < new[i].len() ==> (#[trigger] new[i][k]).2 == elem
}

/// The lines of a code block in the default rendering, as cells: the
/// `[lang]` label when a language is given, then one line per content line.
pub open spec fn code_block_cells(lang: Seq<char>, content: Seq<char>, theme: Theme, elem: ElementId) -> Seq<Seq<Cell>> {
    let label: Seq<Seq<Cell>> = if lang.len() > 0 {
        seq![seq![(seq!['['] + lang + seq![']'], theme.code_block_lang, elem)]]
    } else {
        Seq::empty()
    };
    label + Seq::new(code_line_count(content) as nat, |k: int| seq![(split_lines(content)[k], theme.code_block, elem)])
}

/// The line of one footnote definition in the rendered output.
pub open spec fn footnote_line(d: FootnoteDef, theme: Theme) -> Seq<Cell> {
    seq![
        (seq!['['] + d.label@ + seq![']', ':', ' '], theme.footnote_def, d.elem),
        (d.content@, theme.footnote_def, d.elem),
    ]
}

/// The lines that render the collected footnote definitions: nothing when
/// there are none; else a blank line, a rule belonging to the document, and
/// one line per definition.
pub open spec fn footnote_cells(defs: Seq<FootnoteDef>, theme: Theme) -> Seq<Seq<Cell>> {
    if defs.len() == 0 {
        Seq::empty()
    } else {
        seq![Seq::empty(), seq![(repeat(seq!['─'], 40), theme.rule, ElementId(0))]] + Seq::new(
            defs.len(),
            |i: int| footnote_line(defs[i], theme),
        )
    }
}

/// The lines without a final blank line.
pub open spec fn without_trailing_blank(lines: Seq<Seq<Cell>>) -> Seq<Seq<Cell>> {
    if lines.len() > 0 && lines.last().len() == 0 {
        lines.drop_last()
    } else {
        lines
    }
}

/// The rendered lines of a document, as cells.
pub open spec fn doc_cells(d: MarkdownDocument) -> Seq<Seq<Cell>> {
    Seq::new(d.rendered().lines@.len(), |i: int| line_cells(d.rendered().lines@[i], d.annotations()[i]))
}

/// The number of columns of some rows: the longest row's length.
pub open spec fn rows_cols(rows: Seq<Vec<String>>) -> nat
    decreases rows.len(),
{
    if rows.len() == 0 {
        0
    } else {
        let m = rows_cols(rows.drop_last());
        if rows.last()@.len() > m {
            rows.last()@.len()
        } else {
            m
        }
    }
}

/// The number of columns of a table: its header's or its longest row's.
pub open spec fn table_cols(header: Seq<String>, rows: Seq<Vec<String>>) -> nat {
    if header.len() > rows_cols(rows) {
        header.len()
    } else {
        rows_cols(rows)
    }
}

/// The display width of the widest cell of column `i` over some rows (0
/// when no row has that column).
pub open spec fn col_max(rows: Seq<Vec<String>>, i: int) -> nat
    decreases rows.len(),
{
    if rows.len() == 0 {
        0
    } else {
        let w = if i < rows.last()@.len() {
            display_width(rows.last()@[i]@)
        } else {
            0
        };
        let m = col_max(rows.drop_last(), i);
        if w > m {
            w
        } else {
            m
        }
    }
}

/// The width of column `i`: its widest cell, header included, and at least
/// one cell.
pub open spec fn col_width(header: Seq<String>, rows: Seq<Vec<String>>, i: int) -> nat {
    let h = if i < header.len() {
        display_width(header[i]@)
    } else {
        0
    };
    let m = if h > col_max(rows, i) {
        h
    } else {
        col_max(rows, i)
    };
    if m < 1 {
        1
    } else {
        m
    }
}

/// The widths of all columns of a table.
pub open spec fn col_widths(header: Seq<String>, rows: Seq<Vec<String>>) -> Seq<nat> {
    Seq::new(table_cols(header, rows), |i: int| col_width(header, rows, i))
}

/// The text of cell `i` of a row (empty when the row is shorter).
pub open spec fn cell_text(cells: Seq<String>, i: int) -> Seq<char> {
    if 0 <= i < cells.len() {
        cells[i]@
    } else {
        Seq::empty()
    }
}

/// The number of spans of a rendered table row: a cell per column with a
/// separator between each two.
pub open spec fn row_spans(ncols: nat) -> nat {
    if ncols == 0 {
        0
    } else {
        (2 * ncols - 1) as nat
    }
}

/// `n`, or the arena's limit (`u32::MAX` elements) when `n` exceeds it.
pub open spec fn capped(n: int) -> int {
    if n < u32::MAX {
        n
    } else {
        u32::MAX as int
    }
}

/// The element of cell `col` of a table row whose cells' elements were
/// added from arena index `base` on: the table-cell element at index
/// `base + col`, child of the table, or the document element when that
/// index is past the arena's limit.
pub open spec fn cell_elem_ok(
    id: ElementId,
    elements: Seq<Element>,
    row: u16,
    col: int,
    header: bool,
    table: ElementId,
    base: int,
) -> bool {
    let j = base + col;
    if 0 <= j < u32::MAX {
        &&& id == ElementId(j as u32)
        &&& j < elements.len()
        &&& elements[j] == (Element {
            kind: ElementKind::TableCell { row, col: col as u16, header },
            parent: Some(table),
        })
    } else {
        id == ElementId(0)
    }
}

/// The elements of a rendered table row whose cells' elements were added
/// from arena index `base` on: cell `i` (span `2i`) belongs to a new
/// table-cell element of this row and column, child of the table (to the
/// document element only once the arena is full); each separator (odd
/// span) belongs to the table.
pub open spec fn row_elems(
    cells: Seq<Cell>,
    elements: Seq<Element>,
    row: u16,
    header: bool,
    table: ElementId,
    base: int,
) -> bool {
    &&& forall|k: int| 0 <= k < cells.len() && k % 2 == 1 ==> (#[trigger] cells[k]).2 == table
    &&& forall|k: int|
        0 <= k < cells.len() && k % 2 == 0 ==> cell_elem_ok((#[trigger] cells[k]).2, elements, row, k / 2, header, table, base)
}

/// Adding elements at the end of the arena keeps a row's elements.
proof fn lemma_row_elems_grow(
    cells: Seq<Cell>,
    a: Seq<Element>,
    b: Seq<Element>,
    row: u16,
    header: bool,
    table: ElementId,
    base: int,
)
    requires
        row_elems(cells, a, row, header, table, base),
        a.len() <= b.len(),
        b.take(a.len() as int) == a,
    ensures
        row_elems(cells, b, row, header, table, base),
{
    assert forall|k: int| 0 <= k < cells.len() && k % 2 == 0 implies cell_elem_ok(
        (#[trigger] cells[k]).2,
        b,
        row,
        k / 2,
        header,
        table,
        base,
    ) by {
        let j = base + k / 2;
        assert(cell_elem_ok(cells[k].2, a, row, k / 2, header, table, base));
        if 0 <= j < u32::MAX {
            assert(b.take(a.len() as int)[j] == b[j]);
        }
    }
}

/// The arena size after one more row of `c` cells.
proof fn lemma_capped_row(n0: int, c: int, r: int)
    requires
        0 <= c,
        0 <= r,
    ensures
        capped(capped(n0 + c * (r + 1)) + c) == capped(n0 + c * (r + 2)),
{
    assert(c * (r + 2) == c * (r + 1) + c) by (nonlinear_arith);
}

/// The contents and styles of a rendered table row: each cell padded to its
/// column's width in `style`, with ` │ ` separators between them.
pub open spec fn row_texts(cells: Seq<String>, widths: Seq<nat>, style: Style, sep: Style) -> Seq<(Seq<char>, Style)> {
    Seq::new(
        row_spans(widths.len()),
        |k: int|
            if k % 2 == 1 {
                (seq![' ', '│', ' '], sep)
            } else {
                (padded(cell_text(cells, k / 2), widths[k / 2]), style)
            },
    )
}

/// The separator row of a rendered table: `─` across each column, `─┼─`
/// between columns, all belonging to the table.
pub open spec fn sep_cells(widths: Seq<nat>, sep: Style, table: ElementId) -> Seq<Cell> {
    Seq::new(
        row_spans(widths.len()),
        |k: int|
            if k % 2 == 1 {
                (seq!['─', '┼', '─'], sep, table)
            } else {
                (repeat(seq!['─'], widths[k / 2]), sep, table)
            },
    )
}

/// The contents and styles of some cells.
pub open spec fn texts(cells: Seq<Cell>) -> Seq<(Seq<char>, Style)> {
    cells.map_values(|c: Cell| (c.0, c.1))
}

proof fn lemma_rows_cols_ge(rows: Seq<Vec<String>>, r: int)
    requires
        0 <= r < rows.len(),
    ensures
        rows[r]@.len() <= rows_cols(rows),
    decreases rows.len(),
{
    if r < rows.len() - 1 {
        lemma_rows_cols_ge(rows.drop_last(), r);
        assert(rows.drop_last()[r] == rows[r]);
    }
}

proof fn lemma_col_max_ge(rows: Seq<Vec<String>>, i: int, r: int)
    requires
        0 <= r < rows.len(),
        0 <= i < rows[r]@.len(),
    ensures
        display_width(rows[r]@[i]@) <= col_max(rows, i),
    decreases rows.len(),
{
    if r < rows.len() - 1 {
        lemma_col_max_ge(rows.drop_last(), i, r);
        assert(rows.drop_last()[r] == rows[r]);
    }
}

proof fn lemma_col_max_attained(rows: Seq<Vec<String>>, i: int)
    requires
        0 <= i,
    ensures
        col_max(rows, i) == 0 || exists|r: int|
            0 <= r < rows.len() && i < rows[r]@.len() && 0 <= i && display_width(#[trigger] rows[r]@[i]@) == col_max(rows, i),
    decreases rows.len(),
{
    if rows.len() > 0 {
        lemma_col_max_attained(rows.drop_last(), i);
        let m = col_max(rows.drop_last(), i);
        if col_max(rows, i) != m {
            let r = rows.len() - 1;
            assert(rows.last() == rows[r]);
            assert(i < rows[r]@.len());
            assert(display_width(rows[r]@[i]@) == col_max(rows, i));
        } else if m != 0 {
            let r = choose|r: int|
                0 <= r < rows.drop_last().len() && i < rows.drop_last()[r]@.len() && 0 <= i && display_width(
                    #[trigger] rows.drop_last()[r]@[i]@,
                ) == m;
            assert(rows.drop_last()[r] == rows[r]);
            assert(display_width(rows[r]@[i]@) == col_max(rows, i));
        }
    }
}

/// Every column of a table is as wide as its widest cell, header and body
/// rows alike, and at least one cell wide: each cell fits its column, and
/// a column wider than one cell is exactly as wide as one of its cells.
pub proof fn lemma_column_widths_fit_cells(header: Seq<String>, rows: Seq<Vec<String>>)
    ensures
        forall|k: int| 0 <= k < header.len() ==> display_width(#[trigger] header[k]@) <= col_widths(header, rows)[k],
        forall|r: int| 0 <= r < rows.len() ==> (#[trigger] rows[r])@.len() <= col_widths(header, rows).len(),
        forall|r: int, k: int|
            0 <= r < rows.len() && 0 <= k < rows[r]@.len() ==> display_width(#[trigger] rows[r]@[k]@) <= col_widths(
                header,
                rows,
            )[k],
        forall|k: int|
            0 <= k < col_widths(header, rows).len() ==> {
                let w = #[trigger] col_widths(header, rows)[k];
                &&& w >= 1
                &&& (w == 1 || (k < header.len() && display_width(header[k]@) == w) || exists|r: int|
                    0 <= r < rows.len() && k < rows[r]@.len() && display_width(#[trigger] rows[r]@[k]@) == w)
            },
{
    assert forall|r: int| 0 <= r < rows.len() implies (#[trigger] rows[r])@.len() <= col_widths(header, rows).len() by {
        lemma_rows_cols_ge(rows, r);
    }
    assert forall|r: int, k: int| 0 <= r < rows.len() && 0 <= k < rows[r]@.len() implies display_width(
        #[trigger] rows[r]@[k]@,
    ) <= col_widths(header, rows)[k] by {
        lemma_rows_cols_ge(rows, r);
        lemma_col_max_ge(rows, k, r);
    }
    assert forall|k: int| 0 <= k < col_widths(header, rows).len() implies {
        let w = #[trigger] col_widths(header, rows)[k];
        &&& w >= 1
        &&& (w == 1 || (k < header.len() && display_width(header[k]@) == w) || exists|r: int|
            0 <= r < rows.len() && k < rows[r]@.len() && display_width(#[trigger] rows[r]@[k]@) == w)
    } by {
        lemma_col_max_attained(rows, k);
    }
}

/// The widths of the columns of a table.
pub fn column_widths(header: &Vec<String>, rows: &Vec<Vec<String>>) -> (w: Vec<usize>)
    ensures
        w@.len() == table_cols(header@, rows@),
        forall|i: int| 0 <= i < w@.len() ==> #[trigger] w@[i] as nat == col_width(header@, rows@, i),
        forall|k: int| 0 <= k < header@.len() ==> display_width(#[trigger] header@[k]@) <= w@[k],
        forall|r: int| 0 <= r < rows@.len() ==> (#[trigger] rows@[r])@.len() <= w@.len(),
        forall|r: int, k: int|
            0 <= r < rows@.len() && 0 <= k < rows@[r]@.len() ==> display_width(#[trigger] rows@[r]@[k]@) <= w@[k],
        forall|k: int|
            0 <= k < w@.len() ==> {
                let x = #[trigger] w@[k];
                &&& x >= 1
                &&& (x == 1 || (k < header@.len() && display_width(header@[k]@) == x) || exists|r: int|
                    0 <= r < rows@.len() && k < rows@[r]@.len() && display_width(#[trigger] rows@[r]@[k]@) == x)
            },
{
    let mut ncols = header.len();
    let mut r: usize = 0;
    assert(rows@.take(0) =~= Seq::<Vec<String>>::empty());
    while r < rows.len()
        invariant
            r <= rows@.len(),
            ncols as nat == table_cols(header@, rows@.take(r as int)),
        decreases rows@.len() - r,
    {
        assert(rows@.take(r + 1).drop_last() =~= rows@.take(r as int));
        if rows[r].len() > ncols {
            ncols = rows[r].len();
        }
        r = r + 1;
    }
    assert(rows@.take(rows@.len() as int) =~= rows@);
    let mut widths: Vec<usize> = Vec::new();
    let mut i: usize = 0;
    while i < ncols
        invariant
            i <= ncols,
            widths@.len() == i,
            forall|k: int|
                0 <= k < i ==> #[trigger] widths@[k] as nat == (if k < header@.len() {
                    display_width(header@[k]@)
                } else {
                    0
                }),
        decreases ncols - i,
    {
        let w = if i < header.len() {
            str_width(header[i].as_str())
        } else {
            0
        };
        widths.push(w);
        i = i + 1;
    }
    r = 0;
    while r < rows.len()
        invariant
            r <= rows@.len(),
            widths@.len() == ncols,
            forall|k: int|
                0 <= k < ncols ==> {
                    let h = if k < header@.len() {
                        display_width(header@[k]@)
                    } else {
                        0
                    };
                    #[trigger] widths@[k] as nat == if h > col_max(rows@.take(r as int), k) {
                        h
                    } else {
                        col_max(rows@.take(r as int), k)
                    }
                },
        decreases rows@.len() - r,
    {
        let row = &rows[r];
        let ghost prev = rows@.take(r as int);
        let ghost next = rows@.take(r + 1);
        assert(next.drop_last() =~= prev);
        assert(next.last() == *row);
        let mut c: usize = 0;
        while c < row.len()
            invariant
                c <= row@.len(),
                widths@.len() == ncols,
                next.len() > 0,
                next.drop_last() == prev,
                next.last() == *row,
                forall|k: int|
                    0 <= k < ncols ==> {
                        let h = if k < header@.len() {
                            display_width(header@[k]@)
                        } else {
                            0
                        };
                        let m = if k < c {
                            col_max(next, k)
                        } else {
                            col_max(prev, k)
                        };
                        #[trigger] widths@[k] as nat == if h > m {
                            h
                        } else {
                            m
                        }
                    },
            decreases row@.len() - c,
        {
            if c < ncols {
                let w = str_width(row[c].as_str());
                assert(col_max(next, c as int) == if w as nat > col_max(prev, c as int) {
                    w as nat
                } else {
                    col_max(prev, c as int)
                });
                if w > widths[c] {
                    widths.set(c, w);
                }
            }
            c = c + 1;
        }
        assert forall|k: int| 0 <= k < ncols && k >= row@.len() implies col_max(next, k) == col_max(prev, k) by {}
        r = r + 1;
    }
    assert(rows@.take(rows@.len() as int) =~= rows@);
    i = 0;
    while i < ncols
        invariant
            i <= ncols,
            widths@.len() == ncols,
            forall|k: int| 0 <= k < i ==> #[trigger] widths@[k] as nat == col_width(header@, rows@, k),
            forall|k: int|
                i <= k < ncols ==> {
                    let h = if k < header@.len() {
                        display_width(header@[k]@)
                    } else {
                        0
                    };
                    #[trigger] widths@[k] as nat == if h > col_max(rows@, k) {
                        h
                    } else {
                        col_max(rows@, k)
                    }
                },
        decreases ncols - i,
    {
        if widths[i] < 1 {
            widths.set(i, 1);
        }
        i = i + 1;
    }
    proof {
        lemma_column_widths_fit_cells(header@, rows@);
        assert forall|k: int| 0 <= k < widths@.len() implies widths@[k] as nat == col_widths(header@, rows@)[k] by {}
    }
    widths
}

// ── The converter ─────────────────────────────────────────────────────────────

/// The element that new spans belong to: that of the innermost open tag.
pub open spec fn cur_of(open: Seq<OpenTag>) -> Option<ElementId> {
    if open.len() == 0 {
        None
    } else {
        open.last().elem
    }
}

/// The element of the innermost open list item, if any.
pub open spec fn item_of(open: Seq<OpenTag>) -> Option<ElementId>
    decreases open.len(),
{
    if open.len() == 0 {
        None
    } else if open.last().kind is Item {
        open.last().elem
    } else {
        item_of(open.drop_last())
    }
}

/// The number of open list items.
pub open spec fn count_items(open: Seq<OpenTag>) -> nat
    decreases open.len(),
{
    if open.len() == 0 {
        0
    } else {
        count_items(open.drop_last()) + if open.last().kind is Item {
            1nat
        } else {
            0nat
        }
    }
}

proof fn lemma_count_items_le(open: Seq<OpenTag>)
    ensures
        count_items(open) <= open.len(),
    decreases open.len(),
{
    if open.len() > 0 {
        lemma_count_items_le(open.drop_last());
    }
}

/// Walks the Markdown events of one text and builds the rendered output
/// with its element annotations.
pub struct Converter<'r> {
    renderer: &'r Renderer,
    out: Output,
    /// Block-level context stack.
    block_stack: Vec<BlockCtx>,
    /// Inline style stack (bold, italic, link …).
    inline_stack: Vec<Style>,
    /// Nesting depth of list items.
    item_depth: usize,
    /// URL stashed when a link opens.
    pending_link_url: Option<String>,
    /// Alt text accumulated inside an image.
    pending_image_alt: Option<String>,
    /// URL stashed when an image opens.
    pending_image_url: Option<String>,
    /// Whether text currently goes to the image's alt text.
    in_image: bool,
    /// Footnote definitions, rendered at the end.
    footnote_defs: Vec<FootnoteDef>,
    /// The open elements, innermost last.
    open: Vec<OpenTag>,
}

impl<'r> Converter<'r> {
    /// The renderer in use.
    pub closed spec fn renderer(&self) -> Renderer {
        *self.renderer
    }

    /// The output built so far.
    pub closed spec fn output(&self) -> Output {
        self.out
    }

    /// The block-level context stack.
    pub closed spec fn blocks(&self) -> Seq<BlockCtx> {
        self.block_stack@
    }

    /// The inline style stack.
    pub closed spec fn inlines(&self) -> Seq<Style> {
        self.inline_stack@
    }

    /// The open elements, innermost last.
    pub closed spec fn open_tags(&self) -> Seq<OpenTag> {
        self.open@
    }

    /// The collected footnote definitions.
    pub closed spec fn footnotes(&self) -> Seq<FootnoteDef> {
        self.footnote_defs@
    }

    /// Whether text currently goes to an image's alt text.
    pub closed spec fn in_image_alt(&self) -> bool {
        self.in_image
    }

    /// The converter's invariant: a well-formed output, and every element
    /// id it holds names an element of the output's arena.
    pub closed spec fn inv(&self) -> bool {
        &&& self.out.wf()
        &&& forall|k: int|
            0 <= k < self.open@.len() ==> ((#[trigger] self.open@[k]).elem matches Some(id) ==> self.out.has(id))
        &&& forall|k: int| 0 <= k < self.footnote_defs@.len() ==> self.out.has(#[trigger] self.footnote_defs@[k].elem)
        &&& self.item_depth <= count_items(self.open@)
        &&& self.renderer.is_plain() ==> plain_lines(self.out.lines())
    }

    /// Everything but the output is as in `o`.
    pub open spec fn ctx_same(&self, o: &Self) -> bool {
        &&& self.renderer() == o.renderer()
        &&& self.blocks() == o.blocks()
        &&& self.inlines() == o.inlines()
        &&& self.depth() == o.depth()
        &&& self.link_url() == o.link_url()
        &&& self.image_alt() == o.image_alt()
        &&& self.image_url() == o.image_url()
        &&& self.in_image_alt() == o.in_image_alt()
        &&& self.footnotes() == o.footnotes()
        &&& self.open_tags() == o.open_tags()
    }

    /// The style text takes at this point: the block style patched with
    /// every open inline style.
    pub open spec fn style_now(&self) -> Style {
        inline_style_of(block_style_of(self.renderer().theme, self.blocks()), self.inlines())
    }

    /// The element text belongs to at this point.
    pub open spec fn elem_now(&self) -> ElementId {
        match cur_of(self.open_tags()) {
            Some(id) => id,
            None => ElementId(0),
        }
    }

    /// The alt text being collected for an image, if any.
    pub closed spec fn image_alt(&self) -> Option<String> {
        self.pending_image_alt
    }

    /// The URL of the link being rendered, if any.
    pub closed spec fn link_url(&self) -> Option<String> {
        self.pending_link_url
    }

    /// The URL of the image being rendered, if any.
    pub closed spec fn image_url(&self) -> Option<String> {
        self.pending_image_url
    }

    /// Nothing but the output differs from `o`; the output's arena did not
    /// change.
    pub open spec fn output_only(&self, o: &Self) -> bool {
        &&& self.ctx_same(o)
        &&& self.output().elements() == o.output().elements()
    }

    /// Nothing differs from `o`.
    pub open spec fn unchanged(&self, o: &Self) -> bool {
        &&& self.ctx_same(o)
        &&& self.output() == o.output()
    }

    /// The nesting depth of list items.
    pub closed spec fn depth(&self) -> usize {
        self.item_depth
    }

    /// The pending state of links and images is as in `o`, and so are the
    /// renderer, the list depth and the footnote definitions.
    pub open spec fn keeps(&self, o: &Self) -> bool {
        &&& self.renderer() == o.renderer()
        &&& self.depth() == o.depth()
        &&& self.link_url() == o.link_url()
        &&& self.image_alt() == o.image_alt()
        &&& self.image_url() == o.image_url()
        &&& self.in_image_alt() == o.in_image_alt()
        &&& self.footnotes() == o.footnotes()
    }

    /// One more open tag than `o`: `kind`, with element `elem`, opened when
    /// the line being built held `start` spans.
    pub open spec fn opened(&self, o: &Self, kind: OpenKind, elem: Option<ElementId>, start: int) -> bool {
        &&& self.open_tags().len() == o.open_tags().len() + 1
        &&& self.open_tags().drop_last() == o.open_tags()
        &&& self.open_tags().last().kind == kind
        &&& self.open_tags().last().elem == elem
        &&& self.open_tags().last().span_start == start
    }

    /// The arena of `o` plus one element of the given kind, child of the
    /// innermost open element of `o`.
    pub open spec fn added(&self, o: &Self, kind: ElementKind) -> bool {
        self.output().elements() == with_element(o.output(), kind, cur_of(o.open_tags()))
    }

    /// The lines and the line being built are as in `o`.
    pub open spec fn same_text(&self, o: &Self) -> bool {
        &&& self.output().line_model() == o.output().line_model()
        &&& self.output().pending() == o.output().pending()
    }

    /// A block context pushed, an element of the given kind added and a tag
    /// opened for it; nothing rendered.
    pub open spec fn block_opened(&self, o: &Self, ctx: BlockCtx, kind: ElementKind, ok: OpenKind) -> bool {
        &&& self.keeps(o)
        &&& self.blocks() == o.blocks().push(ctx)
        &&& self.inlines() == o.inlines()
        &&& self.added(o, kind)
        &&& self.same_text(o)
        &&& self.opened(o, ok, Some(next_id(o.output())), o.output().pending().len() as int)
    }

    /// An inline style pushed, an element of the given kind added and an
    /// inline tag opened for it; nothing rendered.
    pub open spec fn inline_opened(&self, o: &Self, style: Style, kind: ElementKind) -> bool {
        &&& self.keeps(o)
        &&& self.blocks() == o.blocks()
        &&& self.inlines() == o.inlines().push(style)
        &&& self.added(o, kind)
        &&& self.same_text(o)
        &&& self.opened(o, OpenKind::Inline, Some(next_id(o.output())), o.output().pending().len() as int)
    }

    /// A table-part context pushed and a tag opened without an element of
    /// its own; nothing rendered.
    pub open spec fn part_opened(&self, o: &Self, ctx: BlockCtx, ok: OpenKind) -> bool {
        &&& self.keeps(o)
        &&& self.blocks() == o.blocks().push(ctx)
        &&& self.inlines() == o.inlines()
        &&& self.output() == o.output()
        &&& self.opened(o, ok, cur_of(o.open_tags()), o.output().pending().len() as int)
    }

    /// What a start tag does.
    pub open spec fn start_effect(&self, o: &Self, tag: MdTag) -> bool {
        let theme = o.renderer().theme;
        let e = next_id(o.output());
        match tag {
            MdTag::Paragraph => self.block_opened(o, BlockCtx::Paragraph, ElementKind::Paragraph, OpenKind::Paragraph),
            MdTag::Heading(level) => {
                &&& self.keeps(o)
                &&& self.blocks() == o.blocks().push(BlockCtx::Heading(level))
                &&& self.inlines() == o.inlines()
                &&& self.added(o, ElementKind::Heading { level })
                &&& self.output().line_model() == o.output().line_model()
                &&& self.output().pending() == o.output().pending() + (if o.renderer().heading is None {
                    opt_cell(heading_prefix_chars(level), heading_style_of(theme, level), e)
                } else {
                    Seq::empty()
                })
                &&& self.opened(o, OpenKind::Heading(level), Some(e), self.output().pending().len() as int)
            },
            MdTag::BlockQuote(kind) => {
                &&& self.keeps(o)
                &&& self.blocks() == o.blocks().push(BlockCtx::BlockQuote(kind))
                &&& self.inlines() == o.inlines()
                &&& self.added(o, ElementKind::BlockQuote { kind })
                &&& self.output().line_model() == o.output().line_model()
                &&& self.output().pending() == o.output().pending().push((seq!['▌', ' '], quote_style_of(theme, kind), e))
                &&& self.opened(o, OpenKind::BlockQuote, Some(e), self.output().pending().len() as int)
            },
            MdTag::CodeBlock(info) => {
                let lang = match info {
                    Some(l) => trim_ws(l@),
                    None => Seq::<char>::empty(),
                };
                &&& self.keeps(o)
                &&& self.blocks().drop_last() == o.blocks()
                &&& self.blocks().len() == o.blocks().len() + 1
                &&& self.blocks().last() is CodeBlock
                &&& self.blocks().last()->lang@ == lang
                &&& self.blocks().last()->content@.len() == 0
                &&& self.inlines() == o.inlines()
                &&& (o.output().n() < u32::MAX ==> {
                    &&& self.output().elements().drop_last() == o.output().elements()
                    &&& self.output().elements().len() == o.output().elements().len() + 1
                    &&& self.output().elements().last().parent == cur_of(o.open_tags())
                    &&& self.output().elements().last().kind matches ElementKind::CodeBlock { lang: l } && (if lang.len()
                        > 0 {
                        l matches Some(x) && x@ == lang
                    } else {
                        l is None
                    })
                })
                &&& (o.output().n() >= u32::MAX ==> self.output().elements() == o.output().elements())
                &&& self.same_text(o)
                &&& self.opened(o, OpenKind::CodeBlock, Some(e), o.output().pending().len() as int)
            },
            MdTag::HtmlBlock => self.block_opened(o, BlockCtx::HtmlBlock, ElementKind::Html, OpenKind::HtmlBlock),
            MdTag::List(start) => {
                &&& self.keeps(o)
                &&& self.blocks() == o.blocks().push(
                    match start {
                        Some(n) => BlockCtx::OrderedList(n),
                        None => BlockCtx::BulletList,
                    },
                )
                &&& self.inlines() == o.inlines()
                &&& self.added(o, ElementKind::List { ordered: start is Some })
                &&& (o.output().pending().len() > 0 ==> self.output().line_model() == o.output().line_model().push(o.output().pending())
                    && self.output().pending().len() == 0)
                &&& (o.output().pending().len() == 0 ==> self.same_text(o))
                &&& self.opened(o, OpenKind::List, Some(e), 0)
            },
            MdTag::Item => {
                let b1 = o.blocks().push(BlockCtx::Item);
                let li = list_index(b1);
                &&& self.renderer() == o.renderer()
                &&& self.link_url() == o.link_url()
                &&& self.image_alt() == o.image_alt()
                &&& self.image_url() == o.image_url()
                &&& self.in_image_alt() == o.in_image_alt()
                &&& self.footnotes() == o.footnotes()
                &&& self.depth() == o.depth() + 1
                &&& self.blocks() == (if li >= 0 && b1[li] is OrderedList {
                    b1.update(li, BlockCtx::OrderedList(b1[li]->OrderedList_0.wrapping_add(1)))
                } else {
                    b1
                })
                &&& self.inlines() == o.inlines()
                &&& self.added(o, ElementKind::ListItem { checked: None })
                &&& self.output().line_model() == o.output().line_model()
                &&& self.output().pending() == o.output().pending() + opt_cell(
                    repeat(seq![' ', ' '], (self.depth() - 1) as nat) + item_marker_of(b1),
                    theme.list_marker,
                    e,
                )
                &&& self.opened(o, OpenKind::Item, Some(e), o.output().pending().len() as int)
            },
            MdTag::FootnoteDefinition(label) => {
                &&& self.renderer() == o.renderer()
                &&& self.depth() == o.depth()
                &&& self.link_url() == o.link_url()
                &&& self.image_alt() == o.image_alt()
                &&& self.image_url() == o.image_url()
                &&& self.in_image_alt() == o.in_image_alt()
                &&& self.footnotes().len() == o.footnotes().len() + 1
                &&& self.footnotes().drop_last() == o.footnotes()
                &&& self.footnotes().last().label == label
                &&& self.footnotes().last().content@.len() == 0
                &&& self.footnotes().last().elem == e
                &&& self.blocks() == o.blocks().push(BlockCtx::FootnoteDef(label))
                &&& self.inlines() == o.inlines()
                &&& self.added(o, ElementKind::FootnoteDef { label })
                &&& self.same_text(o)
                &&& self.opened(o, OpenKind::FootnoteDefinition, Some(e), o.output().pending().len() as int)
            },
            MdTag::DefinitionList => self.block_opened(
                o,
                BlockCtx::DefinitionList,
                ElementKind::DefinitionList,
                OpenKind::DefinitionList,
            ),
            MdTag::DefinitionListTitle => {
                &&& self.keeps(o)
                &&& self.blocks() == o.blocks().push(BlockCtx::DefinitionListTitle)
                &&& self.inlines() == o.inlines().push(theme.strong)
                &&& self.added(o, ElementKind::DefinitionTitle)
                &&& self.same_text(o)
                &&& self.opened(o, OpenKind::DefinitionListTitle, Some(e), o.output().pending().len() as int)
            },
            MdTag::DefinitionListDefinition => {
                &&& self.keeps(o)
                &&& self.blocks() == o.blocks().push(BlockCtx::DefinitionListDefinition)
                &&& self.inlines() == o.inlines()
                &&& self.added(o, ElementKind::Definition)
                &&& self.output().line_model() == o.output().line_model()
                &&& self.output().pending() == o.output().pending().push((seq![' ', ' '], plain_style(), e))
                &&& self.opened(o, OpenKind::DefinitionListDefinition, Some(e), self.output().pending().len() as int)
            },
            MdTag::Table => {
                &&& self.keeps(o)
                &&& self.blocks().drop_last() == o.blocks()
                &&& self.blocks().len() == o.blocks().len() + 1
                &&& self.blocks().last() is Table
                &&& buf_of(self.blocks().last()).header@.len() == 0
                &&& buf_of(self.blocks().last()).rows@.len() == 0
                &&& buf_of(self.blocks().last()).current_cell@.len() == 0
                &&& buf_of(self.blocks().last()).current_row@.len() == 0
                &&& !buf_of(self.blocks().last()).in_header
                &&& self.inlines() == o.inlines()
                &&& self.added(o, ElementKind::Table)
                &&& self.same_text(o)
                &&& self.opened(o, OpenKind::Table, Some(e), o.output().pending().len() as int)
            },
            MdTag::TableHead => {
                let b = self.blocks().drop_last();
                &&& self.keeps(o)
                &&& self.blocks().len() == o.blocks().len() + 1
                &&& self.blocks().last() is TableHead
                &&& (table_index(o.blocks()) == -1 ==> b == o.blocks())
                &&& (table_index(o.blocks()) >= 0 ==> {
                    let j = table_index(o.blocks());
                    &&& same_except(b, o.blocks(), j)
                    &&& b[j] is Table
                    &&& buf_of(b[j]).in_header
                    &&& buf_of(b[j]).header == buf_of(o.blocks()[j]).header
                    &&& buf_of(b[j]).rows@ == buf_of(o.blocks()[j]).rows@
                    &&& buf_of(b[j]).current_cell == buf_of(o.blocks()[j]).current_cell
                    &&& buf_of(b[j]).current_row == buf_of(o.blocks()[j]).current_row
                })
                &&& self.inlines() == o.inlines()
                &&& self.output() == o.output()
                &&& self.opened(o, OpenKind::TableHead, cur_of(o.open_tags()), o.output().pending().len() as int)
            },
            MdTag::TableRow => self.part_opened(o, BlockCtx::TableRow, OpenKind::TableRow),
            MdTag::TableCell => self.part_opened(o, BlockCtx::TableCell, OpenKind::TableCell),
            MdTag::Emphasis => self.inline_opened(o, theme.emphasis, ElementKind::Emphasis),
            MdTag::Strong => self.inline_opened(o, theme.strong, ElementKind::Strong),
            MdTag::Strikethrough => self.inline_opened(o, theme.strikethrough, ElementKind::Strikethrough),
            MdTag::Superscript => self.inline_opened(o, theme.superscript, ElementKind::Superscript),
            MdTag::Subscript => self.inline_opened(o, theme.subscript, ElementKind::Subscript),
            MdTag::Link(url) => {
                &&& self.renderer() == o.renderer()
                &&& self.depth() == o.depth()
                &&& self.link_url() == Some(url)
                &&& self.image_alt() == o.image_alt()
                &&& self.image_url() == o.image_url()
                &&& self.in_image_alt() == o.in_image_alt()
                &&& self.footnotes() == o.footnotes()
                &&& self.blocks() == o.blocks()
                &&& self.inlines() == o.inlines().push(theme.link)
                &&& (o.output().n() < u32::MAX ==> {
                    &&& self.output().elements().drop_last() == o.output().elements()
                    &&& self.output().elements().len() == o.output().elements().len() + 1
                    &&& self.output().elements().last().parent == cur_of(o.open_tags())
                    &&& self.output().elements().last().kind matches ElementKind::Link { alt: a, url: u } && a@.len() == 0
                        && u == url
                })
                &&& (o.output().n() >= u32::MAX ==> self.output().elements() == o.output().elements())
                &&& self.same_text(o)
                &&& self.opened(o, OpenKind::Link(url), Some(e), o.output().pending().len() as int)
            },
            MdTag::Image(url) => {
                &&& self.renderer() == o.renderer()
                &&& self.depth() == o.depth()
                &&& self.link_url() == o.link_url()
                &&& self.image_alt() matches Some(a) && a@.len() == 0
                &&& self.image_url() == Some(url)
                &&& self.in_image_alt()
                &&& self.footnotes() == o.footnotes()
                &&& self.blocks() == o.blocks()
                &&& self.inlines() == o.inlines()
                &&& (o.output().n() < u32::MAX ==> {
                    &&& self.output().elements().drop_last() == o.output().elements()
                    &&& self.output().elements().len() == o.output().elements().len() + 1
                    &&& self.output().elements().last().parent == cur_of(o.open_tags())
                    &&& self.output().elements().last().kind matches ElementKind::Image { alt: a, url: u } && a@.len() == 0
                        && u == url
                })
                &&& (o.output().n() >= u32::MAX ==> self.output().elements() == o.output().elements())
                &&& self.same_text(o)
                &&& self.opened(o, OpenKind::Image, Some(e), o.output().pending().len() as int)
            },
            MdTag::MetadataBlock => self.part_opened(o, BlockCtx::MetadataBlock, OpenKind::MetadataBlock),
        }
    }

    /// The renderer, the inline styles, the list depth and the pending link
    /// and image URLs and image state are as in `o`.
    pub open spec fn same_rest(&self, o: &Self) -> bool {
        &&& self.renderer() == o.renderer()
        &&& self.inlines() == o.inlines()
        &&& self.depth() == o.depth()
        &&& self.link_url() == o.link_url()
        &&& self.image_url() == o.image_url()
        &&& self.in_image_alt() == o.in_image_alt()
    }

    /// The renderer, the pending link and image state and the footnote
    /// definitions are as in `o`.
    pub open spec fn same_misc(&self, o: &Self) -> bool {
        &&& self.renderer() == o.renderer()
        &&& self.link_url() == o.link_url()
        &&& self.image_alt() == o.image_alt()
        &&& self.image_url() == o.image_url()
        &&& self.in_image_alt() == o.in_image_alt()
        &&& self.footnotes() == o.footnotes()
    }

    /// The innermost block popped; nothing else but the output changed, and
    /// the output's arena did not.
    pub open spec fn block_closed(&self, o: &Self) -> bool {
        &&& self.same_misc(o)
        &&& self.blocks() == popped(o.blocks())
        &&& self.inlines() == o.inlines()
        &&& self.output().elements() == o.output().elements()
    }

    /// The line being built committed, then a blank line.
    pub open spec fn committed_and_blank(&self, o: &Self) -> bool {
        &&& self.output().line_model() == o.output().line_model().push(o.output().pending()).push(Seq::empty())
        &&& self.output().pending().len() == 0
    }

    /// The line being built committed.
    pub open spec fn committed(&self, o: &Self) -> bool {
        &&& self.output().line_model() == o.output().line_model().push(o.output().pending())
        &&& self.output().pending().len() == 0
    }

    /// What closing an element of kind `kind` (element `e`, opened when the
    /// line being built held `start` spans) does to everything but the open
    /// tags and the list depth.
    pub open spec fn end_arm(&self, o: &Self, kind: OpenKind, e: ElementId, start: int) -> bool {
        let theme = o.renderer().theme;
        match kind {
            OpenKind::Paragraph => self.block_closed(o) && self.committed_and_blank(o),
            OpenKind::Heading(level) => {
                &&& self.block_closed(o)
                &&& (o.renderer().heading is None ==> self.committed_and_blank(o))
                &&& (o.renderer().heading is Some ==> {
                    &&& lines_with(o.output().line_model(), self.output().line_model().drop_last(), e)
                    &&& self.output().line_model().len() >= o.output().line_model().len() + 1
                    &&& self.output().line_model().last() == Seq::<Cell>::empty()
                    &&& self.output().pending().len() == 0
                })
            },
            OpenKind::BlockQuote => {
                &&& self.block_closed(o)
                &&& (o.output().pending().len() > 0 ==> self.committed_and_blank(o))
                &&& (o.output().pending().len() == 0 ==> self.same_text(o))
            },
            OpenKind::CodeBlock => {
                let top = o.blocks().last();
                &&& self.block_closed(o)
                &&& self.output().pending() == o.output().pending()
                &&& (!(o.blocks().len() > 0 && top is CodeBlock) ==> self.output().line_model() == o.output().line_model())
                &&& (o.blocks().len() > 0 && top is CodeBlock && o.renderer().code_block is None) ==> self.output().line_model()
                    == o.output().line_model() + code_block_cells(top->lang@, top->content@, theme, e) + seq![Seq::<Cell>::empty()]
                &&& (o.blocks().len() > 0 && top is CodeBlock && o.renderer().code_block is Some) ==> {
                    &&& lines_with(o.output().line_model(), self.output().line_model().drop_last(), e)
                    &&& self.output().line_model().len() >= o.output().line_model().len() + 1
                    &&& self.output().line_model().last() == Seq::<Cell>::empty()
                }
            },
            OpenKind::List => {
                &&& self.block_closed(o)
                &&& self.output().pending() == o.output().pending()
                &&& (!(exists|k: int| 0 <= k < popped(o.blocks()).len() && (#[trigger] popped(o.blocks())[k]) is Item)
                    ==> self.output().line_model() == o.output().line_model().push(Seq::empty()))
                &&& ((exists|k: int| 0 <= k < popped(o.blocks()).len() && (#[trigger] popped(o.blocks())[k]) is Item)
                    ==> self.output().line_model() == o.output().line_model())
            },
            OpenKind::Item | OpenKind::HtmlBlock => {
                &&& self.block_closed(o)
                &&& (o.output().pending().len() > 0 ==> self.committed(o))
                &&& (o.output().pending().len() == 0 ==> self.same_text(o))
            },
            OpenKind::Table => {
                &&& self.same_misc(o)
                &&& self.blocks() == popped(o.blocks())
                &&& self.inlines() == o.inlines()
                &&& self.output().pending() == o.output().pending()
                &&& self.output().elements().take(o.output().n()) == o.output().elements()
                &&& (!(o.blocks().len() > 0 && o.blocks().last() is Table) ==> self.output().line_model()
                    == o.output().line_model() && self.output().elements() == o.output().elements())
                &&& (o.blocks().len() > 0 && o.blocks().last() is Table) ==> {
                    let buf = buf_of(o.blocks().last());
                    let w = col_widths(buf.header@, buf.rows@);
                    let m0 = o.output().line_model().len() as int;
                    let lm = self.output().line_model();
                    let n0 = o.output().n();
                    &&& lm.len() >= m0 + 1
                    &&& lm.take(m0) == o.output().line_model()
                    &&& lm.last() == Seq::<Cell>::empty()
                    &&& w.len() == 0 ==> lm == o.output().line_model().push(Seq::empty()) && self.output().elements()
                        == o.output().elements()
                    &&& w.len() > 0 ==> {
                        &&& self.output().n() == capped(n0 + w.len() * (buf.rows@.len() + 1))
                        &&& lm.len() == m0 + 3 + buf.rows@.len()
                        &&& texts(lm[m0]) == row_texts(buf.header@, w, theme.table_header, theme.table_separator)
                        &&& row_elems(lm[m0], self.output().elements(), 0, true, e, n0)
                        &&& lm[m0 + 1] == sep_cells(w, theme.table_separator, e)
                        &&& forall|r: int|
                            0 <= r < buf.rows@.len() ==> texts(#[trigger] lm[m0 + 2 + r]) == row_texts(
                                buf.rows@[r]@,
                                w,
                                theme.table_cell,
                                theme.table_separator,
                            )
                        &&& forall|r: int|
                            0 <= r < buf.rows@.len() ==> row_elems(
                                #[trigger] lm[m0 + 2 + r],
                                self.output().elements(),
                                (r + 1) as u16,
                                false,
                                e,
                                capped(n0 + w.len() * (r + 1)),
                            )
                    }
                }
            },
            OpenKind::TableHead | OpenKind::TableRow | OpenKind::TableCell => {
                let j = table_index(o.blocks());
                let b = o.blocks();
                let t = buf_of(b[j]);
                let m = self.blocks();
                let u = buf_of(m[j]);
                &&& self.same_misc(o)
                &&& self.inlines() == o.inlines()
                &&& self.output() == o.output()
                &&& (j == -1 || j == b.len() - 1) ==> m == popped(b)
                &&& (0 <= j < b.len() - 1) ==> {
                    &&& m == popped(b).update(j, m[j])
                    &&& m[j] is Table
                    &&& match kind {
                        OpenKind::TableHead => {
                            &&& u.header == (if t.current_row@.len() > 0 { t.current_row } else { t.header })
                            &&& u.rows@ == t.rows@
                            &&& u.current_row@.len() == 0
                            &&& u.current_cell == t.current_cell
                            &&& !u.in_header
                        },
                        OpenKind::TableRow => {
                            &&& u.header == t.header
                            &&& u.rows@ == (if t.current_row@.len() > 0 { t.rows@.push(t.current_row) } else { t.rows@ })
                            &&& u.current_row@.len() == 0
                            &&& u.current_cell == t.current_cell
                            &&& u.in_header == t.in_header
                        },
                        _ => {
                            &&& u.header == t.header
                            &&& u.rows@ == t.rows@
                            &&& u.current_row@ == t.current_row@.push(t.current_cell)
                            &&& u.current_cell@.len() == 0
                            &&& u.in_header == t.in_header
                        },
                    }
                }
            },
            OpenKind::FootnoteDefinition | OpenKind::MetadataBlock => self.block_closed(o) && self.same_text(o),
            OpenKind::DefinitionList => {
                &&& self.block_closed(o)
                &&& self.output().line_model() == o.output().line_model().push(Seq::empty())
                &&& self.output().pending() == o.output().pending()
            },
            OpenKind::DefinitionListTitle => {
                &&& self.same_misc(o)
                &&& self.blocks() == popped(o.blocks())
                &&& self.inlines() == popped(o.inlines())
                &&& self.output().elements() == o.output().elements()
                &&& self.committed(o)
            },
            OpenKind::DefinitionListDefinition => self.block_closed(o) && self.committed(o),
            OpenKind::Inline => {
                &&& self.same_misc(o)
                &&& self.blocks() == o.blocks()
                &&& self.inlines() == popped(o.inlines())
                &&& self.output() == o.output()
            },
            OpenKind::Link(url) => {
                let s = if start <= o.output().pending().len() {
                    start
                } else {
                    o.output().pending().len() as int
                };
                let shown = match o.link_url() {
                    Some(u) => u@,
                    None => Seq::<char>::empty(),
                };
                &&& self.renderer() == o.renderer()
                &&& self.link_url() is None
                &&& self.image_alt() == o.image_alt()
                &&& self.image_url() == o.image_url()
                &&& self.in_image_alt() == o.in_image_alt()
                &&& self.footnotes() == o.footnotes()
                &&& self.blocks() == o.blocks()
                &&& self.inlines() == popped(o.inlines())
                &&& self.output().line_model() == o.output().line_model()
                &&& (o.renderer().link is None ==> self.output().pending() == o.output().pending().insert(
                    s,
                    (seq!['['], theme.link, e),
                ).push((seq![']', '('] + shown + seq![')'], theme.link, e)))
                &&& (o.renderer().link is Some ==> extends_with(o.output().pending().take(s), self.output().pending(), e))
                &&& self.output().elements() == o.output().elements().update(
                    e.0 as int,
                    Element {
                        kind: self.output().elements()[e.0 as int].kind,
                        parent: o.output().elements()[e.0 as int].parent,
                    },
                )
                &&& self.output().elements()[e.0 as int].kind matches ElementKind::Link { alt: a, url: u } && u == url && a@
                    == spans_content(o.output().spans().skip(s))
            },
            OpenKind::Image => {
                let alt = match o.image_alt() {
                    Some(a) => a@,
                    None => Seq::<char>::empty(),
                };
                let url = match o.image_url() {
                    Some(u) => u@,
                    None => Seq::<char>::empty(),
                };
                &&& self.renderer() == o.renderer()
                &&& self.link_url() == o.link_url()
                &&& self.image_alt() is None
                &&& self.image_url() is None
                &&& !self.in_image_alt()
                &&& self.footnotes() == o.footnotes()
                &&& self.blocks() == o.blocks()
                &&& self.inlines() == o.inlines()
                &&& self.output().line_model() == o.output().line_model()
                &&& (o.renderer().image is None ==> self.output().pending() == o.output().pending().push(
                    (seq!['🖼', ' '] + alt + seq!['('] + url + seq![')'], theme.image, e),
                ))
                &&& extends_with(o.output().pending(), self.output().pending(), e)
                &&& self.output().elements() == o.output().elements().update(
                    e.0 as int,
                    Element {
                        kind: self.output().elements()[e.0 as int].kind,
                        parent: o.output().elements()[e.0 as int].parent,
                    },
                )
                &&& self.output().elements()[e.0 as int].kind matches ElementKind::Image { alt: a, url: u } && a@ == alt
                    && u@ == url
            },
        }
    }

    /// What a text event does.
    pub open spec fn text_effect(&self, o: &Self, s: String) -> bool {
        &&& (metadata_ctx(o.blocks()) ==> self.unchanged(o))
        &&& (!metadata_ctx(o.blocks()) && o.in_image_alt() ==> {
            &&& self.output() == o.output()
            &&& self.same_rest(o)
            &&& self.blocks() == o.blocks()
            &&& self.footnotes() == o.footnotes()
            &&& self.open_tags() == o.open_tags()
            &&& match o.image_alt() {
                Some(a) => self.image_alt() matches Some(b) && b@ == a@ + s@,
                None => self.image_alt() is None,
            }
        })
        &&& (!metadata_ctx(o.blocks()) && !o.in_image_alt() && table_ctx(o.blocks()) ==> {
            &&& self.output() == o.output()
            &&& self.same_rest(o)
            &&& self.image_alt() == o.image_alt()
            &&& cell_text_appended(o.blocks(), self.blocks(), s@)
            &&& self.footnotes() == o.footnotes()
            &&& self.open_tags() == o.open_tags()
        })
        &&& (!metadata_ctx(o.blocks()) && !o.in_image_alt() && !table_ctx(o.blocks())
            && footnote_label_of(o.blocks()) is Some ==> {
            &&& self.output() == o.output()
            &&& self.same_rest(o)
            &&& self.image_alt() == o.image_alt()
            &&& self.blocks() == o.blocks()
            &&& footnote_text_appended(
                o.footnotes(),
                self.footnotes(),
                footnote_label_of(o.blocks())->0,
                s@,
            )
            &&& self.open_tags() == o.open_tags()
        })
        &&& (!metadata_ctx(o.blocks()) && !o.in_image_alt() && !table_ctx(o.blocks())
            && footnote_label_of(o.blocks()) is None && code_ctx(o.blocks()) ==> {
            &&& self.output() == o.output()
            &&& self.same_rest(o)
            &&& self.image_alt() == o.image_alt()
            &&& code_text_appended(o.blocks(), self.blocks(), s@)
            &&& self.footnotes() == o.footnotes()
            &&& self.open_tags() == o.open_tags()
        })
        &&& (!metadata_ctx(o.blocks()) && !o.in_image_alt() && !table_ctx(o.blocks())
            && footnote_label_of(o.blocks()) is None && !code_ctx(o.blocks()) ==> {
            &&& self.output_only(o)
            &&& (self.output().line_model(), self.output().pending()) == write_pieces(
                o.output().line_model(),
                o.output().pending(),
                split_lines(s@),
                o.style_now(),
                o.elem_now(),
            )
        })
    }

    /// What an inline-code event does.
    pub open spec fn code_effect(&self, o: &Self, code: String) -> bool {
        &&& (metadata_ctx(o.blocks()) || table_ctx(o.blocks()) ==> self.unchanged(o))
        &&& (!(metadata_ctx(o.blocks()) || table_ctx(o.blocks())) ==> {
            &&& self.ctx_same(o)
            &&& self.output().elements() == with_element(
                o.output(),
                ElementKind::InlineCode,
                cur_of(o.open_tags()),
            )
            &&& self.output().line_model() == o.output().line_model()
            &&& extends_with(o.output().pending(), self.output().pending(), next_id(o.output()))
            &&& o.renderer().inline_code is None ==> self.output().pending() == o.output().pending().push(
                (
                    code@,
                    o.style_now().patched(o.renderer().theme.inline_code),
                    next_id(o.output()),
                ),
            )
        })
    }

    /// What a math event does.
    pub open spec fn math_effect(&self, o: &Self, math: String, display: bool) -> bool {
        &&& (metadata_ctx(o.blocks()) ==> self.unchanged(o))
        &&& (!metadata_ctx(o.blocks()) ==> {
            &&& self.ctx_same(o)
            &&& self.output().elements() == with_element(
                o.output(),
                ElementKind::Math { display },
                cur_of(o.open_tags()),
            )
            &&& self.output().line_model() == o.output().line_model()
            &&& self.output().pending() == o.output().pending() + opt_cell(
                math@,
                o.style_now().patched(o.renderer().theme.math),
                next_id(o.output()),
            )
        })
    }

    /// What a soft break does.
    pub open spec fn soft_break_effect(&self, o: &Self) -> bool {
        &&& (metadata_ctx(o.blocks()) || o.in_image_alt() || table_ctx(o.blocks()) ==> self.unchanged(o))
        &&& (!(metadata_ctx(o.blocks()) || o.in_image_alt() || table_ctx(o.blocks()))
            && footnote_label_of(o.blocks()) is Some ==> {
            &&& self.output() == o.output()
            &&& self.same_rest(o)
            &&& self.image_alt() == o.image_alt()
            &&& self.open_tags() == o.open_tags()
            &&& self.blocks() == o.blocks()
            &&& footnote_text_appended(
                o.footnotes(),
                self.footnotes(),
                footnote_label_of(o.blocks())->0,
                seq![' '],
            )
        })
        &&& (!(metadata_ctx(o.blocks()) || o.in_image_alt() || table_ctx(o.blocks()))
            && footnote_label_of(o.blocks()) is None ==> {
            &&& self.output_only(o)
            &&& self.output().line_model() == o.output().line_model()
            &&& self.output().pending() == o.output().pending().push(
                (seq![' '], o.style_now(), o.elem_now()),
            )
        })
    }

    /// What a hard break does.
    pub open spec fn hard_break_effect(&self, o: &Self) -> bool {
        &&& (metadata_ctx(o.blocks()) || o.in_image_alt() || table_ctx(o.blocks()) ==> self.unchanged(o))
        &&& (!(metadata_ctx(o.blocks()) || o.in_image_alt() || table_ctx(o.blocks())) ==> {
            &&& self.output_only(o)
            &&& self.output().line_model() == o.output().line_model().push(o.output().pending())
            &&& self.output().pending().len() == 0
        })
    }

    /// What a thematic break does.
    pub open spec fn rule_effect(&self, o: &Self) -> bool {
        &&& (self.ctx_same(o))
        &&& (self.output().elements() == with_element(o.output(), ElementKind::Rule, cur_of(o.open_tags())))
        &&& (self.output().pending().len() == 0)
        &&& (self.output().line_model().len() >= o.output().line_model().len() + 2)
        &&& (self.output().line_model().take(o.output().line_model().len() + 1int) == o.output().line_model().push(o.output().pending()))
        &&& (self.output().line_model().last() == Seq::<Cell>::empty())
        &&& lines_with(
            o.output().line_model().push(o.output().pending()),
            self.output().line_model().drop_last(),
            next_id(o.output()),
        )
        &&& (o.renderer().rule is None ==> self.output().line_model() == o.output().line_model().push(
            o.output().pending(),
        ).push(seq![(repeat(seq!['─'], 40), o.renderer().theme.rule, next_id(o.output()))]).push(
            Seq::empty(),
        ))
    }

    /// What an HTML event does.
    pub open spec fn html_effect(&self, o: &Self, html: String, inline: bool) -> bool {
        &&& (metadata_ctx(o.blocks()) ==> self.unchanged(o))
        &&& (!metadata_ctx(o.blocks()) ==> {
            let in_block = !inline && o.open_tags().len() > 0 && o.open_tags().last().kind is HtmlBlock;
            let elem = if in_block {
                o.elem_now()
            } else {
                next_id(o.output())
            };
            &&& self.ctx_same(o)
            &&& self.output().elements() == (if in_block {
                o.output().elements()
            } else {
                with_element(o.output(), ElementKind::Html, cur_of(o.open_tags()))
            })
            &&& (self.output().line_model(), self.output().pending()) == write_pieces(
                o.output().line_model(),
                o.output().pending(),
                split_lines(html@).map_values(|p: Seq<char>| trim_end_cr(p)),
                o.renderer().theme.html,
                elem,
            )
        })
    }

    /// What a task-list marker does.
    pub open spec fn task_marker_effect(&self, o: &Self, checked: bool) -> bool {
        &&& (metadata_ctx(o.blocks()) ==> self.unchanged(o))
        &&& (!metadata_ctx(o.blocks()) ==> {
            let marker = if checked {
                seq!['[', 'x', ']', ' ']
            } else {
                seq!['[', ' ', ']', ' ']
            };
            &&& self.ctx_same(o)
            &&& self.output().line_model() == o.output().line_model()
            &&& match item_of(o.open_tags()) {
                Some(item) => {
                    &&& self.output().pending() == o.output().pending().push(
                        (marker, o.style_now(), item),
                    )
                    &&& self.output().elements() == o.output().elements().update(
                        item.0 as int,
                        Element {
                            kind: ElementKind::ListItem { checked: Some(checked) },
                            parent: o.output().elements()[item.0 as int].parent,
                        },
                    )
                },
                None => {
                    &&& self.output().pending() == o.output().pending().push(
                        (marker, o.style_now(), o.elem_now()),
                    )
                    &&& self.output().elements() == o.output().elements()
                },
            }
        })
    }

    /// What a footnote reference does.
    pub open spec fn footnote_ref_effect(&self, o: &Self, label: String) -> bool {
        &&& (self.ctx_same(o))
        &&& (self.output().elements() == with_element(
            o.output(),
            ElementKind::FootnoteRef { label },
            cur_of(o.open_tags()),
        ))
        &&& (self.output().line_model() == o.output().line_model())
        &&& (extends_with(o.output().pending(), self.output().pending(), next_id(o.output())))
        &&& (o.renderer().footnote_ref is None ==> self.output().pending() == o.output().pending().push(
            (seq!['[', '^'] + label@ + seq![']'], o.renderer().theme.footnote_ref, next_id(o.output())),
        ))
    }

    /// What an end event does.
    pub open spec fn end_effect(&self, o: &Self) -> bool {
        &&& (o.open_tags().len() == 0 ==> self.unchanged(o))
        &&& (o.open_tags().len() > 0 ==> {
            let t = o.open_tags().last();
            let e = match t.elem {
                Some(id) => id,
                None => ElementId(0),
            };
            &&& self.open_tags() == o.open_tags().drop_last()
            &&& self.depth() == (if t.kind is Item {
                if o.depth() > 0 {
                    (o.depth() - 1) as usize
                } else {
                    0
                }
            } else {
                o.depth()
            })
            &&& self.end_arm(o, t.kind, e, t.span_start as int)
        })
    }

    /// What one event does to the converter.
    pub open spec fn event_effect(&self, o: &Self, event: MdEvent) -> bool {
        &&& self.inv()
        &&& match event {
            MdEvent::Start(tag) => self.start_effect(o, tag),
            MdEvent::End => self.end_effect(o),
            MdEvent::Text(s) => self.text_effect(o, s),
            MdEvent::Code(s) => self.code_effect(o, s),
            MdEvent::InlineMath(s) => self.math_effect(o, s, false),
            MdEvent::DisplayMath(s) => self.math_effect(o, s, true),
            MdEvent::Html(s) => self.html_effect(o, s, false),
            MdEvent::InlineHtml(s) => self.html_effect(o, s, true),
            MdEvent::FootnoteReference(label) => self.footnote_ref_effect(o, label),
            MdEvent::SoftBreak => self.soft_break_effect(o),
            MdEvent::HardBreak => self.hard_break_effect(o),
            MdEvent::Rule => self.rule_effect(o),
            MdEvent::TaskListMarker(checked) => self.task_marker_effect(o, checked),
        }
    }

    /// A converter for `renderer` before any event: no output but the
    /// document element, nothing open, nothing pending.
    pub open spec fn initial(&self, renderer: Renderer) -> bool {
        &&& self.inv()
        &&& self.renderer() == renderer
        &&& self.output().lines().len() == 0
        &&& self.output().annotations().len() == 0
        &&& self.output().spans().len() == 0
        &&& self.output().span_elems().len() == 0
        &&& self.output().elements() == seq![Element { kind: ElementKind::Document, parent: None }]
        &&& self.blocks().len() == 0
        &&& self.inlines().len() == 0
        &&& self.depth() == 0
        &&& self.link_url() is None
        &&& self.image_alt() is None
        &&& self.image_url() is None
        &&& !self.in_image_alt()
        &&& self.footnotes().len() == 0
        &&& self.open_tags().len() == 0
    }

    /// `d` is the document that ending the conversion here produces: the
    /// line being built committed, the footnote definitions appended, one
    /// trailing blank line dropped, the text in the theme's base style.
    pub open spec fn finishes(&self, d: MarkdownDocument) -> bool {
        let theme = self.renderer().theme;
        let committed = if self.output().pending().len() > 0 {
            self.output().line_model().push(self.output().pending())
        } else {
            self.output().line_model()
        };
        &&& d.valid()
        &&& doc_cells(d) == without_trailing_blank(committed + footnote_cells(self.footnotes(), theme))
        &&& d.elements() == self.output().elements()
        &&& d.rendered().style == theme.base
        &&& d.rendered().alignment is None
    }

    /// `d` is what converting `events`, starting from this converter, gives:
    /// a run of converter states, one event's effect apart each, whose last
    /// state finishes into `d`.
    pub open spec fn renders(&self, events: Seq<MdEvent>, d: MarkdownDocument) -> bool {
        exists|states: Seq<Converter<'r>>|
            {
                &&& states.len() == events.len() + 1
                &&& states[0] == *self
                &&& (forall|i: int| 0 <= i < events.len() ==> #[trigger] states[i + 1].event_effect(&states[i], events[i]))
                &&& states.last().finishes(d)
            }
    }

    /// A converter with empty output and no open element.
    pub fn new(renderer: &'r Renderer) -> (c: Converter<'r>)
        ensures
            c.initial(*renderer),
            c.inv(),
            c.renderer() == *renderer,
            c.output().lines().len() == 0,
            c.output().spans().len() == 0,
            c.blocks().len() == 0,
            c.inlines().len() == 0,
            c.open_tags().len() == 0,
            c.footnotes().len() == 0,
            !c.in_image_alt(),
    {
        Converter {
            renderer,
            out: Output::new(),
            block_stack: Vec::new(),
            inline_stack: Vec::new(),
            item_depth: 0,
            pending_link_url: None,
            pending_image_alt: None,
            pending_image_url: None,
            in_image: false,
            footnote_defs: Vec::new(),
            open: Vec::new(),
        }
    }

    /// The theme in use.
    fn theme(&self) -> (t: Theme)
        ensures
            t == self.renderer().theme,
    {
        self.renderer.theme
    }

    /// The element of the innermost open tag, if any.
    fn cur(&self) -> (r: Option<ElementId>)
        requires
            self.inv(),
        ensures
            r == cur_of(self.open_tags()),
            r matches Some(id) ==> self.output().has(id),
    {
        let n = self.open.len();
        if n == 0 {
            None
        } else {
            assert(self.open@[n - 1] == self.open@.last());
            self.open[n - 1].elem
        }
    }

    /// The element that new spans belong to: that of the innermost open
    /// tag, or the document element.
    fn span_elem(&self) -> (r: ElementId)
        requires
            self.inv(),
        ensures
            r == (match cur_of(self.open_tags()) {
                Some(id) => id,
                None => ElementId(0),
            }),
            self.output().has(r),
    {
        match self.cur() {
            Some(id) => id,
            None => ElementId(0),
        }
    }

    /// Adds an element of the given kind, child of the innermost open
    /// element.
    fn new_elem(&mut self, kind: ElementKind) -> (id: ElementId)
        requires
            old(self).inv(),
        ensures
            final(self).ctx_same(old(self)),
            final(self).inv(),
            final(self).output().has(id),
            final(self).output().grew_from(&old(self).output()),
            final(self).output().lines() == old(self).output().lines(),
            final(self).output().annotations() == old(self).output().annotations(),
            final(self).output().spans() == old(self).output().spans(),
            final(self).output().span_elems() == old(self).output().span_elems(),
            old(self).output().n() < u32::MAX ==> id.0 == old(self).output().n()
                && final(self).output().elements() == old(self).output().elements().push(
                Element { kind, parent: cur_of(old(self).open_tags()) },
            ),
            id == next_id(old(self).output()),
            final(self).output().elements() == with_element(old(self).output(), kind, cur_of(old(self).open_tags())),
            final(self).output().line_model() == old(self).output().line_model(),
            final(self).output().pending() == old(self).output().pending(),
            final(self).renderer() == old(self).renderer(),
            final(self).blocks() == old(self).blocks(),
            final(self).inlines() == old(self).inlines(),
            final(self).open_tags() == old(self).open_tags(),
            final(self).footnotes() == old(self).footnotes(),
            final(self).in_image_alt() == old(self).in_image_alt(),
    {
        let parent = self.cur();
        self.out.add_element(kind, parent)
    }

    /// The element of the innermost open list item, if any.
    fn innermost_item(&self) -> (r: Option<ElementId>)
        requires
            self.inv(),
        ensures
            r == item_of(self.open_tags()),
            r matches Some(id) ==> self.output().has(id),
    {
        let mut j: usize = self.open.len();
        assert(self.open@.take(j as int) =~= self.open@);
        while j > 0
            invariant
                j <= self.open@.len(),
                self.inv(),
                item_of(self.open@) == item_of(self.open@.take(j as int)),
            decreases j,
        {
            assert(self.open@.take(j as int).drop_last() =~= self.open@.take(j - 1));
            assert(self.open@.take(j as int).last() == self.open@[j - 1]);
            j = j - 1;
            if let OpenKind::Item = self.open[j].kind {
                return self.open[j].elem;
            }
        }
        None
    }

    /// Opens a tag: records it with its element (or, when it has none, the
    /// innermost open element) and the current number of spans.
    fn open_tag(&mut self, kind: OpenKind, elem: Option<ElementId>)
        requires
            old(self).inv(),
            elem matches Some(id) ==> old(self).output().has(id),
        ensures
            final(self).item_depth == old(self).item_depth,
            final(self).pending_link_url == old(self).pending_link_url,
            final(self).pending_image_alt == old(self).pending_image_alt,
            final(self).pending_image_url == old(self).pending_image_url,
            final(self).in_image == old(self).in_image,
            final(self).inv(),
            final(self).open_tags().len() == old(self).open_tags().len() + 1,
            final(self).open_tags().drop_last() == old(self).open_tags(),
            final(self).open_tags().last().kind == kind,
            final(self).open_tags().last().elem == (match elem {
                Some(id) => Some(id),
                None => cur_of(old(self).open_tags()),
            }),
            final(self).open_tags().last().span_start == old(self).output().spans().len(),
            final(self).output() == old(self).output(),
            final(self).renderer() == old(self).renderer(),
            final(self).blocks() == old(self).blocks(),
            final(self).inlines() == old(self).inlines(),
            final(self).footnotes() == old(self).footnotes(),
            final(self).in_image_alt() == old(self).in_image_alt(),
    {
        let e = match elem {
            Some(id) => Some(id),
            None => self.cur(),
        };
        let span_start = self.out.spans_len();
        let ghost o0 = self.open@;
        self.open.push(OpenTag { kind, elem: e, span_start });
        assert(self.open@.drop_last() =~= o0);
    }

    /// Appends a span to the line being built (unless empty), belonging to
    /// `elem`.
    fn push_span(&mut self, content: String, style: Style, elem: ElementId)
        requires
            old(self).inv(),
            old(self).output().has(elem),
        ensures
            final(self).ctx_same(old(self)),
            final(self).inv(),
            final(self).output().elements() == old(self).output().elements(),
            final(self).output().lines() == old(self).output().lines(),
            final(self).output().annotations() == old(self).output().annotations(),
            content@.len() > 0 ==> final(self).output().spans() == old(self).output().spans().push(
                Span { content, style },
            ) && final(self).output().span_elems() == old(self).output().span_elems().push(elem),
            content@.len() == 0 ==> final(self).output().spans() == old(self).output().spans()
                && final(self).output().span_elems() == old(self).output().span_elems(),
            final(self).renderer() == old(self).renderer(),
            final(self).blocks() == old(self).blocks(),
            final(self).inlines() == old(self).inlines(),
            final(self).open_tags() == old(self).open_tags(),
            final(self).footnotes() == old(self).footnotes(),
            final(self).in_image_alt() == old(self).in_image_alt(),
            final(self).output().pending() == old(self).output().pending() + opt_cell(content@, style, elem),
            final(self).output().line_model() == old(self).output().line_model(),
    {
        self.out.push_span(content, style, elem);
    }

    /// Commits the line being built.
    fn commit_line(&mut self)
        requires
            old(self).inv(),
        ensures
            final(self).ctx_same(old(self)),
            final(self).inv(),
            final(self).output().elements() == old(self).output().elements(),
            final(self).output().lines() == old(self).output().lines().push(final(self).output().lines().last()),
            final(self).output().lines().last().spans@ == old(self).output().spans(),
            final(self).output().spans().len() == 0,
            final(self).renderer() == old(self).renderer(),
            final(self).blocks() == old(self).blocks(),
            final(self).inlines() == old(self).inlines(),
            final(self).open_tags() == old(self).open_tags(),
            final(self).footnotes() == old(self).footnotes(),
            final(self).in_image_alt() == old(self).in_image_alt(),
            final(self).output().line_model() == old(self).output().line_model().push(old(self).output().pending()),
            final(self).output().pending().len() == 0,
    {
        self.out.commit_line();
        assert(self.out.lines() =~= self.out.lines().drop_last().push(self.out.lines().last()));
    }

    /// Commits the line being built, then appends a blank line.
    fn commit_line_and_blank(&mut self)
        requires
            old(self).inv(),
        ensures
            final(self).ctx_same(old(self)),
            final(self).inv(),
            final(self).output().elements() == old(self).output().elements(),
            final(self).output().lines().len() == old(self).output().lines().len() + 2,
            final(self).output().lines().take(old(self).output().lines().len() as int) == old(self).output().lines(),
            final(self).output().lines()[old(self).output().lines().len() as int].spans@ == old(self).output().spans(),
            final(self).output().lines().last().spans@.len() == 0,
            final(self).output().spans().len() == 0,
            final(self).renderer() == old(self).renderer(),
            final(self).blocks() == old(self).blocks(),
            final(self).inlines() == old(self).inlines(),
            final(self).open_tags() == old(self).open_tags(),
            final(self).footnotes() == old(self).footnotes(),
            final(self).in_image_alt() == old(self).in_image_alt(),
            final(self).output().line_model() == old(self).output().line_model().push(old(self).output().pending()).push(
                Seq::empty(),
            ),
            final(self).output().pending().len() == 0,
    {
        let ghost l0 = self.out.lines();
        self.out.commit_line();
        let ghost l1 = self.out.lines();
        self.out.push_blank();
        assert(self.out.lines().take(l0.len() as int) =~= l0) by {
            assert(l1.drop_last() == l0);
            assert(self.out.lines().drop_last() == l1);
        }
    }

    /// Appends text to the content of the innermost footnote definition
    /// (the first collected definition with its label).
    fn append_to_current_footnote(&mut self, s: &str)
        requires
            old(self).inv(),
        ensures
            final(self).inv(),
            final(self).renderer() == old(self).renderer(),
            final(self).output() == old(self).output(),
            final(self).blocks() == old(self).blocks(),
            final(self).inlines() == old(self).inlines(),
            final(self).open_tags() == old(self).open_tags(),
            final(self).in_image_alt() == old(self).in_image_alt(),
            final(self).image_alt() == old(self).image_alt(),
            final(self).same_rest(old(self)),
            final(self).footnotes().len() == old(self).footnotes().len(),
            footnote_label_of(old(self).blocks()) is None ==> final(self).footnotes() == old(self).footnotes(),
            footnote_label_of(old(self).blocks()) matches Some(l) ==> footnote_text_appended(
                old(self).footnotes(),
                final(self).footnotes(),
                l,
                s@,
            ),
    {
        if let Some(label) = current_footnote_def_label(&self.block_stack) {
            let mut i: usize = 0;
            while i < self.footnote_defs.len()
                invariant
                    self.inv(),
                    i <= self.footnote_defs@.len(),
                    self.footnote_defs@ == old(self).footnote_defs@,
                    self.out == old(self).out,
                    self.renderer == old(self).renderer,
                    self.block_stack@ == old(self).block_stack@,
                    self.inline_stack@ == old(self).inline_stack@,
                    self.open@ == old(self).open@,
                    self.in_image == old(self).in_image,
                    self.pending_image_alt == old(self).pending_image_alt,
                    self.same_rest(old(self)),
                    forall|j: int| 0 <= j < i ==> (#[trigger] self.footnote_defs@[j]).label@ != label@,
                    footnote_label_of(old(self).block_stack@) == Some(label@),
                decreases self.footnote_defs@.len() - i,
            {
                if self.footnote_defs[i].label == label {
                    let def_label = self.footnote_defs[i].label.clone();
                    let elem = self.footnote_defs[i].elem;
                    let content = self.footnote_defs[i].content.clone().concat(s);
                    let ghost d0 = self.footnote_defs@;
                    self.footnote_defs.set(i, FootnoteDef { label: def_label, content, elem });
                    proof {
                        assert(d0[i as int].label@ == label@);
                        assert(footnote_label_of(old(self).block_stack@) == Some(label@));
                        assert forall|ii: int|
                            0 <= ii < d0.len() && (#[trigger] d0[ii]).label@ == label@ && (forall|j: int|
                                0 <= j < ii ==> (#[trigger] d0[j]).label@ != label@) implies ii == i by {
                            if ii < i {
                                assert(self.footnote_defs@[ii] == d0[ii]);
                            } else if ii > i {
                                assert(d0[i as int].label@ == label@);
                            }
                        }
                        assert(footnote_text_appended(d0, self.footnote_defs@, label@, s@));
                    }
                    return;
                }
                i = i + 1;
            }
        }
    }

    /// A text event. Swallowed inside metadata; collected as alt text
    /// inside an image; buffered inside a table cell, a footnote definition
    /// or a code block; otherwise written in the current style for the
    /// current element, each line break committing the line being built.
    fn on_text(&mut self, s: String)
        requires
            old(self).inv(),
        ensures
            final(self).inv(),
            final(self).renderer() == old(self).renderer(),
            final(self).text_effect(old(self), s),
    {
        if is_metadata(&self.block_stack) {
            return;
        }
        if self.in_image {
            let mut alt: Option<String> = None;
            std::mem::swap(&mut alt, &mut self.pending_image_alt);
            if let Some(a) = alt {
                self.pending_image_alt = Some(a.concat(s.as_str()));
            }
            return;
        }
        if is_table_context(&self.block_stack) {
            try_append_table_cell_text(&mut self.block_stack, s.as_str());
            return;
        }
        if current_footnote_def_label(&self.block_stack).is_some() {
            self.append_to_current_footnote(s.as_str());
            return;
        }
        let theme = self.theme();
        let style = current_style(&self.block_stack, &self.inline_stack, &theme);
        if is_code_block_context(&self.block_stack) {
            append_to_code_block(&mut self.block_stack, s.as_str());
            return;
        }
        let pieces = split_newlines(s.as_str());
        let elem = self.span_elem();
        let ghost all = split_lines(s@);
        let ghost l0 = self.out.line_model();
        let ghost p0 = self.out.pending();
        let n = pieces.len();
        let mut i: usize = 0;
        assert(all.take(0).len() == 0);
        while i < n
            invariant
                self.inv(),
                self.output_only(old(self)),
                self.out.has(elem),
                i <= n,
                n == pieces@.len(),
                n == all.len(),
                forall|k: int| 0 <= k < n ==> #[trigger] pieces@[k]@ == all[k],
                (self.out.line_model(), self.out.pending()) == write_pieces(l0, p0, all.take(i as int), style, elem),
            decreases n - i,
        {
            let ghost before = (self.out.line_model(), self.out.pending());
            if i > 0 {
                self.commit_line();
            }
            self.push_span(pieces[i].clone(), style, elem);
            proof {
                assert(all.take(i + 1).drop_last() =~= all.take(i as int));
                assert(all.take(i + 1).last() == all[i as int]);
                if i > 0 {
                    assert(Seq::<Cell>::empty() + opt_cell(all[i as int], style, elem) =~= opt_cell(all[i as int], style, elem));
                }
            }
            i = i + 1;
        }
        assert(all.take(n as int) =~= all);
    }

    /// An inline code event: a new inline-code element whose spans are the
    /// custom renderer's, or the code in the current style patched with the
    /// inline-code style. Swallowed inside metadata and tables.
    fn on_code(&mut self, code: String)
        requires
            old(self).inv(),
        ensures
            final(self).inv(),
            final(self).renderer() == old(self).renderer(),
            final(self).code_effect(old(self), code),
    {
        if is_metadata(&self.block_stack) || is_table_context(&self.block_stack) {
            return;
        }
        let elem = self.new_elem(ElementKind::InlineCode);
        let ghost p0 = self.out.pending();
        let spans = match &self.renderer.inline_code {
            Some(f) => f.call(code.as_str()),
            None => {
                let theme = self.theme();
                let style = current_style(&self.block_stack, &self.inline_stack, &theme).patch(theme.inline_code);
                let mut v: Vec<Span> = Vec::new();
                v.push(Span::from_string(code, style));
                v
            },
        };
        let ghost sp = spans@;
        self.out.push_spans(spans, elem);
        proof {
            assert((p0 + uniform_cells(sp, elem)).take(p0.len() as int) =~= p0);
            if old(self).renderer.inline_code is None {
                assert(p0 + uniform_cells(sp, elem) =~= p0.push(uniform_cells(sp, elem)[0]));
            }
        }
    }

    /// An inline or display math event: a new math element, its content in
    /// the current style patched with the math style. Swallowed inside
    /// metadata.
    fn on_math(&mut self, math: String, display: bool)
        requires
            old(self).inv(),
        ensures
            final(self).inv(),
            final(self).renderer() == old(self).renderer(),
            final(self).math_effect(old(self), math, display),
    {
        if is_metadata(&self.block_stack) {
            return;
        }
        let elem = self.new_elem(ElementKind::Math { display });
        let theme = self.theme();
        let style = current_style(&self.block_stack, &self.inline_stack, &theme).patch(theme.math);
        self.push_span(math, style, elem);
    }

    /// A soft line break: a space in the current style (appended to the
    /// content inside a footnote definition). Swallowed inside metadata,
    /// images and tables.
    fn on_soft_break(&mut self)
        requires
            old(self).inv(),
        ensures
            final(self).inv(),
            final(self).renderer() == old(self).renderer(),
            final(self).soft_break_effect(old(self)),
    {
        if is_metadata(&self.block_stack) || self.in_image || is_table_context(&self.block_stack) {
            return;
        }
        proof {
            reveal_strlit(" ");
            assert(" "@ =~= seq![' ']);
        }
        if current_footnote_def_label(&self.block_stack).is_some() {
            self.append_to_current_footnote(" ");
            return;
        }
        let theme = self.theme();
        let style = current_style(&self.block_stack, &self.inline_stack, &theme);
        let elem = self.span_elem();
        let ghost p0 = self.out.pending();
        let space = String::from_str(" ");
        assert(space@ =~= seq![' ']);
        self.push_span(space, style, elem);
        assert(self.out.pending() =~= p0.push((seq![' '], style, elem)));
    }

    /// A hard line break: the line being built is committed. Ignored inside
    /// metadata, images and tables.
    fn on_hard_break(&mut self)
        requires
            old(self).inv(),
        ensures
            final(self).inv(),
            final(self).renderer() == old(self).renderer(),
            final(self).hard_break_effect(old(self)),
    {
        if is_metadata(&self.block_stack) || self.in_image || is_table_context(&self.block_stack) {
            return;
        }
        self.commit_line();
    }

    /// A thematic break: the line being built is committed, then the rule's
    /// lines (by default forty `─` in the rule style) belonging to a new
    /// rule element, then a blank line.
    fn on_rule(&mut self)
        requires
            old(self).inv(),
        ensures
            final(self).inv(),
            final(self).renderer() == old(self).renderer(),
            final(self).rule_effect(old(self)),
    {
        self.commit_line();
        let ghost m1 = self.out.line_model();
        let elem = self.new_elem(ElementKind::Rule);
        let theme = self.theme();
        let lines = match &self.renderer.rule {
            Some(f) => f.call(),
            None => {
                let mut v: Vec<Line> = Vec::new();
                let bar = repeat_str("─", 40);
                proof {
                    reveal_strlit("─");
                    assert("─"@ =~= seq!['─']);
                }
                v.push(Line::from_span(Span::from_string(bar, theme.rule)));
                v
            },
        };
        let ghost ls = lines@;
        assert(self.renderer.rule is None ==> plain_lines(ls));
        self.out.push_lines(lines, elem);
        let ghost m2 = self.out.line_model();
        self.out.push_blank();
        proof {
            assert(m2 == m1 + ls.map_values(|l: Line| uniform_cells(l.spans@, elem)));
            assert(self.out.line_model().take(m1.len() as int) =~= m1) by {
                assert(m2.take(m1.len() as int) =~= m1);
            }
            assert(self.out.line_model().drop_last() == m2);
            assert(m2.take(m1.len() as int) =~= m1);
            assert forall|i: int, k: int| m1.len() <= i < m2.len() && 0 <= k < m2[i].len() implies (#[trigger] m2[i][k]).2
                == elem by {
                assert(m2[i] == uniform_cells(ls[i - m1.len()].spans@, elem));
            }
            if old(self).renderer.rule is None {
                assert(ls.map_values(|l: Line| uniform_cells(l.spans@, elem)) =~= seq![
                    seq![(repeat(seq!['─'], 40), theme.rule, elem)],
                ]) by {
                    assert(uniform_cells(ls[0].spans@, elem) =~= seq![(repeat(seq!['─'], 40), theme.rule, elem)]);
                }
                assert(self.out.line_model() =~= m1.push(seq![(repeat(seq!['─'], 40), theme.rule, elem)]).push(
                    Seq::empty(),
                ));
            }
        }
    }

    /// Whether the innermost open element is an HTML block.
    fn in_html_block(&self) -> (b: bool)
        ensures
            b == (self.open_tags().len() > 0 && self.open_tags().last().kind is HtmlBlock),
    {
        let n = self.open.len();
        if n == 0 {
            false
        } else {
            assert(self.open@[n - 1] == self.open@.last());
            match self.open[n - 1].kind {
                OpenKind::HtmlBlock => true,
                _ => false,
            }
        }
    }

    /// Raw HTML, block-level or inline: verbatim in the HTML style, line by
    /// line, without trailing carriage returns. Block HTML inside an HTML
    /// block belongs to that block; other HTML gets a new element.
    /// Swallowed inside metadata.
    fn on_html(&mut self, html: String, inline: bool)
        requires
            old(self).inv(),
        ensures
            final(self).inv(),
            final(self).renderer() == old(self).renderer(),
            final(self).html_effect(old(self), html, inline),
    {
        if is_metadata(&self.block_stack) {
            return;
        }
        let elem = if !inline && self.in_html_block() {
            self.span_elem()
        } else {
            self.new_elem(ElementKind::Html)
        };
        let theme = self.theme();
        let pieces = split_newlines(html.as_str());
        let ghost all = split_lines(html@).map_values(|p: Seq<char>| trim_end_cr(p));
        let ghost l0 = self.out.line_model();
        let ghost p0 = self.out.pending();
        let n = pieces.len();
        let mut i: usize = 0;
        while i < n
            invariant
                self.inv(),
                self.ctx_same(old(self)),
                self.out.elements() == (if !inline && old(self).open@.len() > 0 && old(self).open@.last().kind is HtmlBlock {
                    old(self).out.elements()
                } else {
                    with_element(old(self).out, ElementKind::Html, cur_of(old(self).open@))
                }),
                self.out.has(elem),
                i <= n,
                n == pieces@.len(),
                n == all.len(),
                forall|k: int| 0 <= k < n ==> trim_end_cr(#[trigger] pieces@[k]@) == all[k],
                (self.out.line_model(), self.out.pending()) == write_pieces(l0, p0, all.take(i as int), theme.html, elem),
            decreases n - i,
        {
            if i > 0 {
                self.commit_line();
            }
            self.push_span(trim_end_carriage_returns(pieces[i].as_str()), theme.html, elem);
            proof {
                assert(all.take(i + 1).drop_last() =~= all.take(i as int));
                assert(all.take(i + 1).last() == all[i as int]);
                if i > 0 {
                    assert(Seq::<Cell>::empty() + opt_cell(all[i as int], theme.html, elem) =~= opt_cell(
                        all[i as int],
                        theme.html,
                        elem,
                    ));
                }
            }
            i = i + 1;
        }
        assert(all.take(n as int) =~= all);
    }

    /// A task-list marker: `[x] ` or `[ ] ` in the current style, belonging
    /// to the innermost open list item, which records its state (to the
    /// current element outside list items). Swallowed inside metadata.
    fn on_task_marker(&mut self, checked: bool)
        requires
            old(self).inv(),
        ensures
            final(self).inv(),
            final(self).renderer() == old(self).renderer(),
            final(self).task_marker_effect(old(self), checked),
    {
        if is_metadata(&self.block_stack) {
            return;
        }
        proof {
            reveal_strlit("[x] ");
            reveal_strlit("[ ] ");
            assert("[x] "@ =~= seq!['[', 'x', ']', ' ']);
            assert("[ ] "@ =~= seq!['[', ' ', ']', ' ']);
        }
        let marker = if checked {
            String::from_str("[x] ")
        } else {
            String::from_str("[ ] ")
        };
        let ghost m = marker@;
        let theme = self.theme();
        let style = current_style(&self.block_stack, &self.inline_stack, &theme);
        match self.innermost_item() {
            Some(item) => {
                let ghost p0 = self.out.pending();
                self.push_span(marker, style, item);
                let ghost pend = self.out.pending();
                self.out.set_kind(item, ElementKind::ListItem { checked: Some(checked) });
                assert(self.out.pending() == pend);
                assert(self.out.pending() =~= p0.push((m, style, item)));
            },
            None => {
                let elem = self.span_elem();
                let ghost p0 = self.out.pending();
                self.push_span(marker, style, elem);
                assert(self.out.pending() =~= p0.push((m, style, elem)));
            },
        }
    }

    /// A footnote reference: a new footnote-reference element whose spans
    /// are the custom renderer's, or `[^label]` in the footnote-reference
    /// style.
    fn on_footnote_ref(&mut self, label: String)
        requires
            old(self).inv(),
        ensures
            final(self).inv(),
            final(self).renderer() == old(self).renderer(),
            final(self).footnote_ref_effect(old(self), label),
    {
        let elem = self.new_elem(ElementKind::FootnoteRef { label: label.clone() });
        let ghost p0 = self.out.pending();
        proof {
            reveal_strlit("[^");
            reveal_strlit("]");
            assert("[^"@ =~= seq!['[', '^']);
            assert("]"@ =~= seq![']']);
        }
        let spans = match &self.renderer.footnote_ref {
            Some(f) => f.call(label.as_str()),
            None => {
                let theme = self.theme();
                let text = String::from_str("[^").concat(label.as_str()).concat("]");
                let mut v: Vec<Span> = Vec::new();
                v.push(Span::from_string(text, theme.footnote_ref));
                v
            },
        };
        let ghost sp = spans@;
        self.out.push_spans(spans, elem);
        proof {
            assert((p0 + uniform_cells(sp, elem)).take(p0.len() as int) =~= p0);
            if old(self).renderer.footnote_ref is None {
                assert(p0 + uniform_cells(sp, elem) =~= p0.push(uniform_cells(sp, elem)[0]));
            }
        }
    }

    /// Opens a block element that renders nothing when it starts.
    fn start_block(&mut self, ctx: BlockCtx, kind: ElementKind, ok: OpenKind)
        requires
            old(self).inv(),
        ensures
            final(self).inv(),
            final(self).block_opened(old(self), ctx, kind, ok),
    {
        self.block_stack.push(ctx);
        let e = self.new_elem(kind);
        self.open_tag(ok, Some(e));
    }

    /// Opens an inline element: its style applies until it closes.
    fn start_inline(&mut self, style: Style, kind: ElementKind)
        requires
            old(self).inv(),
        ensures
            final(self).inv(),
            final(self).inline_opened(old(self), style, kind),
    {
        self.inline_stack.push(style);
        let e = self.new_elem(kind);
        self.open_tag(OpenKind::Inline, Some(e));
    }

    /// Opens a table part or a metadata block: no element of its own.
    fn start_part(&mut self, ctx: BlockCtx, ok: OpenKind)
        requires
            old(self).inv(),
        ensures
            final(self).inv(),
            final(self).part_opened(old(self), ctx, ok),
    {
        self.block_stack.push(ctx);
        self.open_tag(ok, None);
    }

    /// Opens a heading: its `#` prefix in the heading style, unless a custom
    /// heading renderer is set.
    fn start_heading(&mut self, level: u8)
        requires
            old(self).inv(),
        ensures
            final(self).inv(),
            final(self).start_effect(old(self), MdTag::Heading(level)),
    {
        let theme = self.theme();
        self.block_stack.push(BlockCtx::Heading(level));
        let e = self.new_elem(ElementKind::Heading { level });
        let ghost p0 = self.out.pending();
        if self.renderer.heading.is_none() {
            let style = heading_style(&theme, level);
            self.push_span(heading_prefix(level), style, e);
        } else {
            assert(p0 + Seq::<Cell>::empty() =~= p0);
        }
        self.open_tag(OpenKind::Heading(level), Some(e));
    }

    /// Opens a block quote: `▌ ` in the quote's style.
    fn start_quote(&mut self, kind: Option<QuoteKind>)
        requires
            old(self).inv(),
        ensures
            final(self).inv(),
            final(self).start_effect(old(self), MdTag::BlockQuote(kind)),
    {
        let theme = self.theme();
        self.block_stack.push(BlockCtx::BlockQuote(kind));
        let e = self.new_elem(ElementKind::BlockQuote { kind });
        let style = blockquote_style(&theme, kind);
        proof {
            reveal_strlit("▌ ");
            assert("▌ "@ =~= seq!['▌', ' ']);
        }
        let ghost p0 = self.out.pending();
        let bar = String::from_str("▌ ");
        assert(bar@ =~= seq!['▌', ' ']);
        self.push_span(bar, style, e);
        assert(self.out.pending() =~= p0.push((seq!['▌', ' '], style, e)));
        self.open_tag(OpenKind::BlockQuote, Some(e));
    }

    /// Opens a code block: its content is buffered until it closes; the
    /// language is the trimmed info string.
    fn start_code_block(&mut self, info: Option<String>)
        requires
            old(self).inv(),
        ensures
            final(self).inv(),
            final(self).start_effect(old(self), MdTag::CodeBlock(info)),
    {
        let lang = match &info {
            Some(l) => trim(l.as_str()),
            None => String::new(),
        };
        let kind_lang = if lang.as_str().is_empty() {
            None
        } else {
            Some(lang.clone())
        };
        let e = self.new_elem(ElementKind::CodeBlock { lang: kind_lang });
        let ghost b0 = self.block_stack@;
        self.block_stack.push(BlockCtx::CodeBlock { lang, content: String::new() });
        assert(self.block_stack@.drop_last() =~= b0);
        proof {
            if old(self).out.n() < u32::MAX {
                assert(self.out.elements().drop_last() =~= old(self).out.elements());
            }
        }
        self.open_tag(OpenKind::CodeBlock, Some(e));
    }

    /// Opens a list: the line being built (an item's text before a nested
    /// list) is committed first.
    fn start_list(&mut self, start: Option<u64>)
        requires
            old(self).inv(),
        ensures
            final(self).inv(),
            final(self).start_effect(old(self), MdTag::List(start)),
    {
        if !self.out.spans_empty() {
            self.commit_line();
        }
        let ordered = start.is_some();
        match start {
            Some(n) => self.block_stack.push(BlockCtx::OrderedList(n)),
            None => self.block_stack.push(BlockCtx::BulletList),
        }
        let e = self.new_elem(ElementKind::List { ordered });
        self.open_tag(OpenKind::List, Some(e));
    }

    /// Opens a list item: its indentation and marker in the list-marker
    /// style; an ordered list's counter advances.
    fn start_item(&mut self)
        requires
            old(self).inv(),
        ensures
            final(self).inv(),
            final(self).start_effect(old(self), MdTag::Item),
    {
        let theme = self.theme();
        let e = self.new_elem(ElementKind::ListItem { checked: None });
        self.open_tag(OpenKind::Item, Some(e));
        proof {
            assert(self.open@.drop_last() =~= old(self).open@);
            assert(self.open@.last().kind is Item);
            assert(count_items(self.open@) == count_items(old(self).open@) + 1);
            lemma_count_items_le(self.open@);
            assert(self.open@.len() == self.open.len());
        }
        self.item_depth = self.item_depth + 1;
        self.block_stack.push(BlockCtx::Item);
        let indent = repeat_str("  ", self.item_depth.saturating_sub(1));
        let marker = make_item_marker(&self.block_stack);
        proof {
            reveal_strlit("  ");
            assert("  "@ =~= seq![' ', ' ']);
        }
        self.push_span(indent.concat(marker.as_str()), theme.list_marker, e);
        advance_list_counter(&mut self.block_stack);
    }

    /// Opens a footnote definition: its text is collected for the end.
    fn start_footnote_def(&mut self, label: String)
        requires
            old(self).inv(),
        ensures
            final(self).inv(),
            final(self).start_effect(old(self), MdTag::FootnoteDefinition(label)),
    {
        let e = self.new_elem(ElementKind::FootnoteDef { label: label.clone() });
        let ghost f0 = self.footnote_defs@;
        self.footnote_defs.push(FootnoteDef { label: label.clone(), content: String::new(), elem: e });
        assert(self.footnote_defs@.drop_last() =~= f0);
        self.block_stack.push(BlockCtx::FootnoteDef(label));
        self.open_tag(OpenKind::FootnoteDefinition, Some(e));
    }

    /// Opens a definition-list title: rendered in the strong style.
    fn start_def_title(&mut self)
        requires
            old(self).inv(),
        ensures
            final(self).inv(),
            final(self).start_effect(old(self), MdTag::DefinitionListTitle),
    {
        let theme = self.theme();
        self.block_stack.push(BlockCtx::DefinitionListTitle);
        self.inline_stack.push(theme.strong);
        let e = self.new_elem(ElementKind::DefinitionTitle);
        self.open_tag(OpenKind::DefinitionListTitle, Some(e));
    }

    /// Opens a definition: indented by two spaces.
    fn start_definition(&mut self)
        requires
            old(self).inv(),
        ensures
            final(self).inv(),
            final(self).start_effect(old(self), MdTag::DefinitionListDefinition),
    {
        self.block_stack.push(BlockCtx::DefinitionListDefinition);
        let e = self.new_elem(ElementKind::Definition);
        proof {
            reveal_strlit("  ");
            assert("  "@ =~= seq![' ', ' ']);
        }
        let ghost p0 = self.out.pending();
        let indent = String::from_str("  ");
        assert(indent@ =~= seq![' ', ' ']);
        self.push_span(indent, Style::new(), e);
        assert(self.out.pending() =~= p0.push((seq![' ', ' '], plain_style(), e)));
        self.open_tag(OpenKind::DefinitionListDefinition, Some(e));
    }

    /// Opens a table: its cells are buffered until it closes.
    fn start_table(&mut self)
        requires
            old(self).inv(),
        ensures
            final(self).inv(),
            final(self).start_effect(old(self), MdTag::Table),
    {
        let ghost b0 = self.block_stack@;
        self.block_stack.push(BlockCtx::Table(TableBuf::new()));
        assert(self.block_stack@.drop_last() =~= b0);
        let e = self.new_elem(ElementKind::Table);
        self.open_tag(OpenKind::Table, Some(e));
    }

    /// Opens a table's header section.
    fn start_table_head(&mut self)
        requires
            old(self).inv(),
        ensures
            final(self).inv(),
            final(self).start_effect(old(self), MdTag::TableHead),
    {
        table_store(&mut self.block_stack, Vec::new(), true, Some(true));
        let ghost b1 = self.block_stack@;
        assert(b1.len() == old(self).block_stack@.len());
        self.block_stack.push(BlockCtx::TableHead);
        assert(self.block_stack@.drop_last() =~= b1);
        self.open_tag(OpenKind::TableHead, None);
    }

    /// Opens a link: its text takes the link style; the URL is kept for
    /// its end.
    fn start_link(&mut self, url: String)
        requires
            old(self).inv(),
        ensures
            final(self).inv(),
            final(self).start_effect(old(self), MdTag::Link(url)),
    {
        let theme = self.theme();
        self.pending_link_url = Some(url.clone());
        self.inline_stack.push(theme.link);
        let e = self.new_elem(ElementKind::Link { alt: String::new(), url: url.clone() });
        proof {
            if old(self).out.n() < u32::MAX {
                assert(self.out.elements().drop_last() =~= old(self).out.elements());
            }
        }
        self.open_tag(OpenKind::Link(url), Some(e));
    }

    /// Opens an image: its text becomes the alt text.
    fn start_image(&mut self, url: String)
        requires
            old(self).inv(),
        ensures
            final(self).inv(),
            final(self).start_effect(old(self), MdTag::Image(url)),
    {
        self.pending_image_url = Some(url.clone());
        self.pending_image_alt = Some(String::new());
        self.in_image = true;
        let e = self.new_elem(ElementKind::Image { alt: String::new(), url });
        proof {
            if old(self).out.n() < u32::MAX {
                assert(self.out.elements().drop_last() =~= old(self).out.elements());
            }
        }
        self.open_tag(OpenKind::Image, Some(e));
    }

    /// A start tag: opens the element, pushing its block context or inline
    /// style and rendering the prefix it starts with.
    fn handle_start(&mut self, tag: MdTag)
        requires
            old(self).inv(),
        ensures
            final(self).inv(),
            final(self).renderer() == old(self).renderer(),
            final(self).start_effect(old(self), tag),
    {
        let theme = self.theme();
        match tag {
            MdTag::Paragraph => self.start_block(BlockCtx::Paragraph, ElementKind::Paragraph, OpenKind::Paragraph),
            MdTag::Heading(level) => self.start_heading(level),
            MdTag::BlockQuote(kind) => self.start_quote(kind),
            MdTag::CodeBlock(info) => self.start_code_block(info),
            MdTag::HtmlBlock => self.start_block(BlockCtx::HtmlBlock, ElementKind::Html, OpenKind::HtmlBlock),
            MdTag::List(start) => self.start_list(start),
            MdTag::Item => self.start_item(),
            MdTag::FootnoteDefinition(label) => self.start_footnote_def(label),
            MdTag::DefinitionList => self.start_block(
                BlockCtx::DefinitionList,
                ElementKind::DefinitionList,
                OpenKind::DefinitionList,
            ),
            MdTag::DefinitionListTitle => self.start_def_title(),
            MdTag::DefinitionListDefinition => self.start_definition(),
            MdTag::Table => self.start_table(),
            MdTag::TableHead => self.start_table_head(),
            MdTag::TableRow => self.start_part(BlockCtx::TableRow, OpenKind::TableRow),
            MdTag::TableCell => self.start_part(BlockCtx::TableCell, OpenKind::TableCell),
            MdTag::Emphasis => self.start_inline(theme.emphasis, ElementKind::Emphasis),
            MdTag::Strong => self.start_inline(theme.strong, ElementKind::Strong),
            MdTag::Strikethrough => self.start_inline(theme.strikethrough, ElementKind::Strikethrough),
            MdTag::Superscript => self.start_inline(theme.superscript, ElementKind::Superscript),
            MdTag::Subscript => self.start_inline(theme.subscript, ElementKind::Subscript),
            MdTag::Link(url) => self.start_link(url),
            MdTag::Image(url) => self.start_image(url),
            MdTag::MetadataBlock => self.start_part(BlockCtx::MetadataBlock, OpenKind::MetadataBlock),
        }
    }

    /// One row of a rendered table: the cells padded to the column widths,
    /// separated by ` │ `. Each cell becomes a table-cell element, child of
    /// the table; the separators belong to the table.
    fn table_row(&mut self, cells: &Vec<String>, widths: &Vec<usize>, row: u16, header: bool, style: Style, table: ElementId)
        requires
            old(self).inv(),
            old(self).output().has(table),
        ensures
            final(self).inv(),
            final(self).renderer() == old(self).renderer(),
            final(self).output().n() == capped(old(self).output().n() + widths@.len()),
            final(self).output().elements().take(old(self).output().n()) == old(self).output().elements(),
            final(self).ctx_same(old(self)),
            final(self).output().pending() == old(self).output().pending(),
            final(self).output().line_model().len() == old(self).output().line_model().len() + 1,
            final(self).output().line_model().drop_last() == old(self).output().line_model(),
            texts(final(self).output().line_model().last()) == row_texts(
                cells@,
                widths@.map_values(|w: usize| w as nat),
                style,
                old(self).renderer().theme.table_separator,
            ),
            row_elems(
                final(self).output().line_model().last(),
                final(self).output().elements(),
                row,
                header,
                table,
                old(self).output().n(),
            ),
    {
        let theme = self.theme();
        let ghost w = widths@.map_values(|w: usize| w as nat);
        let ghost want = row_texts(cells@, w, style, theme.table_separator);
        let mut spans: Vec<Span> = Vec::new();
        let mut elems: Vec<ElementId> = Vec::new();
        proof {
            reveal_strlit(" │ ");
            reveal_strlit("");
            assert(" │ "@ =~= seq![' ', '│', ' ']);
            assert(""@ =~= Seq::<char>::empty());
        }
        let mut i: usize = 0;
        while i < widths.len()
            invariant
                self.inv(),
                self.renderer == old(self).renderer,
                self.out.lines() == old(self).out.lines(),
                self.out.annotations() == old(self).out.annotations(),
                self.out.spans() == old(self).out.spans(),
                self.out.span_elems() == old(self).out.span_elems(),
                self.ctx_same(old(self)),
                self.out.n() == capped(old(self).out.n() + i),
                self.out.elements().take(old(self).out.n()) == old(self).out.elements(),
                self.out.has(table),
                i <= widths@.len(),
                w == widths@.map_values(|w: usize| w as nat),
                want == row_texts(cells@, w, style, theme.table_separator),
                theme == old(self).renderer.theme,
                " │ "@ =~= seq![' ', '│', ' '],
                ""@ =~= Seq::<char>::empty(),
                elems@.len() == spans@.len(),
                spans@.len() == row_spans(i as nat),
                forall|k: int| 0 <= k < elems@.len() ==> self.out.has(#[trigger] elems@[k]),
                forall|k: int| 0 <= k < spans@.len() ==> (#[trigger] spans@[k].content@, spans@[k].style) == want[k],
                forall|k: int| 0 <= k < elems@.len() && k % 2 == 1 ==> #[trigger] elems@[k] == table,
                forall|k: int|
                    0 <= k < elems@.len() && k % 2 == 0 ==> cell_elem_ok(
                        #[trigger] elems@[k],
                        self.out.elements(),
                        row,
                        k / 2,
                        header,
                        table,
                        old(self).out.n(),
                    ),
            decreases widths@.len() - i,
        {
            if i > 0 {
                spans.push(Span::styled(" │ ", theme.table_separator));
                elems.push(table);
            }
            let cell: &str = if i < cells.len() {
                cells[i].as_str()
            } else {
                ""
            };
            let cell_str = pad_cell(cell, widths[i]);
            let ghost el0 = self.out.elements();
            let e = self.out.add_element(
                ElementKind::TableCell { row, col: #[verifier::truncate] (i as u16), header },
                Some(table),
            );
            spans.push(Span::from_string(cell_str, style));
            elems.push(e);
            proof {
                assert(self.out.elements().take(el0.len() as int) =~= el0);
                assert(self.out.elements().take(old(self).out.n()) =~= old(self).out.elements()) by {
                    assert(el0.take(old(self).out.n()) == old(self).out.elements());
                }
                let k = spans@.len() - 1;
                assert(k / 2 == i as int);
                assert(want[k] == (padded(cell_text(cells@, i as int), w[i as int]), style));
                assert forall|j: int| 0 <= j < elems@.len() && j % 2 == 0 implies cell_elem_ok(
                    #[trigger] elems@[j],
                    self.out.elements(),
                    row,
                    j / 2,
                    header,
                    table,
                    old(self).out.n(),
                ) by {
                    let jj = old(self).out.n() + j / 2;
                    if j < k && 0 <= jj < u32::MAX {
                        assert(self.out.elements()[jj] == el0[jj]);
                    }
                }
            }
            i = i + 1;
        }
        let ghost sp = spans@;
        let ghost el = elems@;
        self.out.push_line_elems(spans, elems);
        proof {
            assert(row_spans(widths@.len() as nat) == want.len());
            assert(texts(self.out.line_model().last()) =~= want);
            let last = self.out.line_model().last();
            assert(last == cells_of(sp, el));
            assert forall|k: int| 0 <= k < last.len() && k % 2 == 0 implies cell_elem_ok(
                (#[trigger] last[k]).2,
                self.out.elements(),
                row,
                k / 2,
                header,
                table,
                old(self).out.n(),
            ) by {
                assert(last[k].2 == el[k]);
            }
            assert forall|k: int| 0 <= k < last.len() && k % 2 == 1 implies (#[trigger] last[k]).2 == table by {
                assert(last[k].2 == el[k]);
            }
        }
    }

    /// Renders a buffered table: a header row, a `─┼─` separator row and
    /// the body rows, every column padded to its widest cell (at least one
    /// cell wide). Nothing when the table has no column.
    fn render_table(&mut self, buf: TableBuf, table: ElementId)
        requires
            old(self).inv(),
            old(self).output().has(table),
        ensures
            final(self).inv(),
            final(self).renderer() == old(self).renderer(),
            final(self).ctx_same(old(self)),
            final(self).output().pending() == old(self).output().pending(),
            final(self).output().line_model().len() >= old(self).output().line_model().len(),
            final(self).output().line_model().take(old(self).output().line_model().len() as int) == old(self).output().line_model(),
            ({
                let w = col_widths(buf.header@, buf.rows@);
                let m0 = old(self).output().line_model().len() as int;
                let lm = final(self).output().line_model();
                let theme = old(self).renderer().theme;
                let els = final(self).output().elements();
                let n0 = old(self).output().n();
                &&& w.len() == 0 ==> lm == old(self).output().line_model() && els == old(self).output().elements()
                &&& w.len() > 0 ==> {
                    &&& final(self).output().n() == capped(n0 + w.len() * (buf.rows@.len() + 1))
                    &&& els.take(n0) == old(self).output().elements()
                    &&& lm.len() == m0 + 2 + buf.rows@.len()
                    &&& texts(lm[m0]) == row_texts(buf.header@, w, theme.table_header, theme.table_separator)
                    &&& row_elems(lm[m0], els, 0, true, table, n0)
                    &&& lm[m0 + 1] == sep_cells(w, theme.table_separator, table)
                    &&& forall|r: int|
                        0 <= r < buf.rows@.len() ==> texts(#[trigger] lm[m0 + 2 + r]) == row_texts(
                            buf.rows@[r]@,
                            w,
                            theme.table_cell,
                            theme.table_separator,
                        )
                    &&& forall|r: int|
                        0 <= r < buf.rows@.len() ==> row_elems(
                            #[trigger] lm[m0 + 2 + r],
                            els,
                            (r + 1) as u16,
                            false,
                            table,
                            capped(n0 + w.len() * (r + 1)),
                        )
                }
            }),
    {
        let theme = self.theme();
        let widths = column_widths(&buf.header, &buf.rows);
        let ghost w = col_widths(buf.header@, buf.rows@);
        assert(widths@.map_values(|x: usize| x as nat) =~= w);
        let ncols = widths.len();
        if ncols == 0 {
            return;
        }
        let ghost m0 = self.out.line_model();
        self.table_row(&buf.header, &widths, 0, true, theme.table_header, table);
        let ghost m1 = self.out.line_model();
        let mut sep: Vec<Span> = Vec::new();
        proof {
            reveal_strlit("─┼─");
            reveal_strlit("─");
            assert("─┼─"@ =~= seq!['─', '┼', '─']);
            assert("─"@ =~= seq!['─']);
        }
        let mut i: usize = 0;
        while i < ncols
            invariant
                i <= ncols,
                widths@.len() == ncols,
                w == widths@.map_values(|x: usize| x as nat),
                sep@.len() == row_spans(i as nat),
                "─┼─"@ =~= seq!['─', '┼', '─'],
                "─"@ =~= seq!['─'],
                forall|k: int|
                    0 <= k < sep@.len() ==> (#[trigger] sep@[k].content@, sep@[k].style, table) == sep_cells(
                        w,
                        theme.table_separator,
                        table,
                    )[k],
            decreases ncols - i,
        {
            if i > 0 {
                sep.push(Span::styled("─┼─", theme.table_separator));
            }
            sep.push(Span::from_string(repeat_str("─", widths[i]), theme.table_separator));
            proof {
                let k = sep@.len() - 1;
                assert(k / 2 == i as int);
            }
            i = i + 1;
        }
        let ghost sp = sep@;
        self.out.push_line(Line::from_spans(sep), table);
        let ghost m2 = self.out.line_model();
        let ghost b: int = m0.len() as int;
        assert(m2.last() =~= sep_cells(w, theme.table_separator, table));
        assert(m2[b] == m1.last());
        let mut r: usize = 0;
        while r < buf.rows.len()
            invariant
                self.inv(),
                self.renderer == old(self).renderer,
                self.ctx_same(old(self)),
                self.out.pending() == old(self).out.pending(),
                self.out.n() >= old(self).out.n(),
                self.out.has(table),
                r <= buf.rows@.len(),
                theme == old(self).renderer.theme,
                w == widths@.map_values(|x: usize| x as nat),
                b == m0.len(),
                m2.len() == b + 2,
                self.out.line_model().len() == b + 2 + r,
                self.out.line_model().take(b + 2) == m2,
                m2.take(b) == m0,
                m0 == old(self).out.line_model(),
                texts(m2[b]) == row_texts(buf.header@, w, theme.table_header, theme.table_separator),
                m2[b + 1] == sep_cells(w, theme.table_separator, table),
                forall|q: int|
                    0 <= q < r ==> texts(#[trigger] self.out.line_model()[b + 2 + q]) == row_texts(
                        buf.rows@[q]@,
                        w,
                        theme.table_cell,
                        theme.table_separator,
                    ),
                ncols == w.len(),
                self.out.n() == capped(old(self).out.n() + ncols * (r + 1)),
                self.out.elements().take(old(self).out.n()) == old(self).out.elements(),
                row_elems(m2[b], self.out.elements(), 0, true, table, old(self).out.n()),
                forall|q: int|
                    0 <= q < r ==> row_elems(
                        #[trigger] self.out.line_model()[b + 2 + q],
                        self.out.elements(),
                        (q + 1) as u16,
                        false,
                        table,
                        capped(old(self).out.n() + ncols * (q + 1)),
                    ),
            decreases buf.rows@.len() - r,
        {
            let row_idx = #[verifier::truncate] ((r + 1) as u16);
            let ghost mr = self.out.line_model();
            let ghost er = self.out.elements();
            self.table_row(&buf.rows[r], &widths, row_idx, false, theme.table_cell, table);
            proof {
                let en = self.out.elements();
                lemma_capped_row(old(self).out.n() as int, ncols as int, r as int);
                assert(en.take(er.len() as int) == er);
                assert(en.take(old(self).out.n()) =~= old(self).out.elements()) by {
                    assert(er.take(old(self).out.n()) == old(self).out.elements());
                }
                lemma_row_elems_grow(m2[b], er, en, 0, true, table, old(self).out.n());
                assert(row_idx == (r + 1) as u16);
                assert forall|q: int| 0 <= q < r + 1 implies row_elems(
                    #[trigger] self.out.line_model()[b + 2 + q],
                    en,
                    (q + 1) as u16,
                    false,
                    table,
                    capped(old(self).out.n() + ncols * (q + 1)),
                ) by {
                    if q < r {
                        assert(self.out.line_model()[b + 2 + q] == mr[b + 2 + q]);
                        lemma_row_elems_grow(
                            mr[b + 2 + q],
                            er,
                            en,
                            (q + 1) as u16,
                            false,
                            table,
                            capped(old(self).out.n() + ncols * (q + 1)),
                        );
                    } else {
                        assert(self.out.line_model()[b + 2 + q] == self.out.line_model().last());
                    }
                }
                assert(self.out.line_model().drop_last() == mr);
                assert(self.out.line_model().take(b + 2) =~= mr.take(b + 2));
                assert forall|q: int| 0 <= q < r + 1 implies texts(#[trigger] self.out.line_model()[b + 2 + q]) == row_texts(
                    buf.rows@[q]@,
                    w,
                    theme.table_cell,
                    theme.table_separator,
                ) by {
                    if q < r {
                        assert(self.out.line_model()[b + 2 + q] == mr[b + 2 + q]);
                    }
                }
            }
            r = r + 1;
        }
        proof {
            let lm = self.out.line_model();
            assert(lm.take(b) =~= m0) by {
                assert(lm.take(b + 2).take(b) =~= lm.take(b));
            }
            assert(lm[b] == m2[b]) by {
                assert(lm.take(b + 2)[m0.len() as int] == lm[b]);
            }
            assert(lm[b + 1] == m2[b + 1]) by {
                assert(lm.take(b + 2)[b + 1] == lm[b + 1]);
            }
            assert(m2[b] == m1.last());
        }
    }

    /// Renders the collected footnote definitions: a blank line, a rule,
    /// then one `[label]: content` line per definition, in collection order.
    fn render_footnote_defs(&mut self)
        requires
            old(self).inv(),
        ensures
            final(self).inv(),
            final(self).renderer() == old(self).renderer(),
            final(self).footnotes().len() == 0,
            final(self).output().spans() == old(self).output().spans(),
            final(self).output().pending() == old(self).output().pending(),
            final(self).output().elements() == old(self).output().elements(),
            final(self).output().line_model() == old(self).output().line_model() + footnote_cells(
                old(self).footnotes(),
                old(self).renderer().theme,
            ),
            ({
                let m0 = old(self).output().line_model().len() as int;
                let lm = final(self).output().line_model();
                let defs = old(self).footnotes();
                let style = old(self).renderer().theme.footnote_def;
                &&& defs.len() == 0 ==> lm.len() == m0
                &&& defs.len() > 0 ==> lm.len() == m0 + 2 + defs.len()
                &&& forall|k: int|
                    0 <= k < defs.len() ==> #[trigger] lm[m0 + 2 + k] == seq![
                        (seq!['['] + defs[k].label@ + seq![']', ':', ' '], style, defs[k].elem),
                        (defs[k].content@, style, defs[k].elem),
                    ]
            }),
    {
        proof {
            let m0 = self.out.line_model().len() as int;
            let defs = self.footnote_defs@;
            let fc = footnote_cells(defs, self.renderer.theme);
            let lm = self.out.line_model() + fc;
            assert forall|k: int| 0 <= k < defs.len() implies #[trigger] lm[m0 + 2 + k] == seq![
                (seq!['['] + defs[k].label@ + seq![']', ':', ' '], self.renderer.theme.footnote_def, defs[k].elem),
                (defs[k].content@, self.renderer.theme.footnote_def, defs[k].elem),
            ] by {
                assert(lm[m0 + 2 + k] == fc[2 + k]);
            }
        }
        if self.footnote_defs.len() == 0 {
            assert(self.out.line_model() + footnote_cells(self.footnote_defs@, self.renderer.theme) =~= self.out.line_model());
            return;
        }
        let theme = self.theme();
        let ghost m0 = self.out.line_model();
        self.out.push_blank();
        proof {
            reveal_strlit("─");
            assert("─"@ =~= seq!['─']);
        }
        self.out.push_line(Line::from_span(Span::from_string(repeat_str("─", 40), theme.rule)), ElementId(0));
        let ghost head = seq![Seq::<Cell>::empty(), seq![(repeat(seq!['─'], 40), theme.rule, ElementId(0))]];
        assert(self.out.line_model() =~= m0 + head) by {
            assert(uniform_cells(seq![Span { content: self.out.lines().last().spans@[0].content, style: theme.rule }], ElementId(0))
                =~= seq![(repeat(seq!['─'], 40), theme.rule, ElementId(0))]);
        }
        let mut defs: Vec<FootnoteDef> = Vec::new();
        std::mem::swap(&mut defs, &mut self.footnote_defs);
        let ghost all = defs@;
        proof {
            reveal_strlit("[");
            reveal_strlit("]: ");
            assert("["@ =~= seq!['[']);
            assert("]: "@ =~= seq![']', ':', ' ']);
        }
        while defs.len() > 0
            invariant
                self.inv(),
                self.renderer == old(self).renderer,
                self.footnote_defs@.len() == 0,
                self.out.spans() == old(self).out.spans(),
                self.out.span_elems() == old(self).out.span_elems(),
                self.out.elements() == old(self).out.elements(),
                forall|k: int| 0 <= k < defs@.len() ==> self.out.has(#[trigger] defs@[k].elem),
                defs@.len() <= all.len(),
                defs@ == all.skip(all.len() - defs@.len()),
                self.out.line_model() == m0 + head + Seq::new(
                    (all.len() - defs@.len()) as nat,
                    |i: int| footnote_line(all[i], theme),
                ),
                theme == old(self).renderer.theme,
                "["@ =~= seq!['['],
                "]: "@ =~= seq![']', ':', ' '],
            decreases defs@.len(),
        {
            let ghost d0 = defs@;
            let ghost k = all.len() - d0.len();
            let ghost mk = self.out.line_model();
            let d = defs.remove(0);
            assert(d0[0] == d);
            assert(d == all[k]) by {
                assert(all.skip(k)[0] == all[k]);
            }
            assert(defs@ =~= all.skip(k + 1));
            assert forall|j: int| 0 <= j < defs@.len() implies self.out.has(#[trigger] defs@[j].elem) by {
                assert(defs@[j] == d0[j + 1]);
            }
            let ghost dl = d.label@;
            let ghost dc = d.content@;
            let label = String::from_str("[").concat(d.label.as_str()).concat("]: ");
            let mut spans: Vec<Span> = Vec::new();
            spans.push(Span::from_string(label, theme.footnote_def));
            spans.push(Span::from_string(d.content, theme.footnote_def));
            let ghost sp = spans@;
            self.out.push_line(Line::from_spans(spans), d.elem);
            proof {
                assert(uniform_cells(sp, d.elem) =~= footnote_line(all[k], theme));
                assert(self.out.line_model() =~= m0 + head + Seq::new(
                    (k + 1) as nat,
                    |i: int| footnote_line(all[i], theme),
                ));
            }
        }
        assert(self.out.line_model() =~= m0 + footnote_cells(all, theme));
    }

    /// Pops the innermost block context.
    fn pop_block(&mut self)
        requires
            old(self).inv(),
        ensures
            final(self).inv(),
            final(self).block_closed(old(self)),
            final(self).out == old(self).out,
            final(self).open@ == old(self).open@,
            final(self).item_depth == old(self).item_depth,
    {
        let ghost b0 = self.block_stack@;
        self.block_stack.pop();
        assert(self.block_stack@ =~= popped(b0));
    }

    /// Closes a paragraph: its line is committed, then a blank line.
    fn end_paragraph(&mut self)
        requires
            old(self).inv(),
        ensures
            final(self).inv(),
            final(self).end_arm(old(self), OpenKind::Paragraph, ElementId(0), 0),
            final(self).open@ == old(self).open@,
            final(self).item_depth == old(self).item_depth,
    {
        self.pop_block();
        self.commit_line_and_blank();
    }

    /// Closes a heading: its line is committed (or its spans handed to the
    /// custom renderer, whose lines belong to the heading), then a blank
    /// line.
    fn end_heading(&mut self, level: u8, e: ElementId)
        requires
            old(self).inv(),
            old(self).output().has(e),
        ensures
            final(self).inv(),
            final(self).end_arm(old(self), OpenKind::Heading(level), e, 0),
            final(self).open@ == old(self).open@,
            final(self).item_depth == old(self).item_depth,
    {
        self.pop_block();
        match &self.renderer.heading {
            Some(f) => {
                let ghost m0 = self.out.line_model();
                let (spans, _elems) = self.out.take_spans();
                let lines = f.call(level, spans);
                let ghost ls = lines@;
                self.out.push_lines(lines, e);
                let ghost m1 = self.out.line_model();
                self.out.push_blank();
                proof {
                    assert(self.out.line_model().drop_last() == m1);
                    assert(m1.take(m0.len() as int) =~= m0);
                    assert forall|i: int, k: int|
                        m0.len() <= i < m1.len() && 0 <= k < m1[i].len() implies (#[trigger] m1[i][k]).2 == e by {
                        assert(m1[i] == uniform_cells(ls[i - m0.len()].spans@, e));
                    }
                }
            },
            None => {
                self.commit_line_and_blank();
            },
        }
    }

    /// Closes a block quote: its line, if any, is committed, then a blank
    /// line.
    fn end_quote(&mut self)
        requires
            old(self).inv(),
        ensures
            final(self).inv(),
            final(self).end_arm(old(self), OpenKind::BlockQuote, ElementId(0), 0),
            final(self).open@ == old(self).open@,
            final(self).item_depth == old(self).item_depth,
    {
        self.pop_block();
        if !self.out.spans_empty() {
            self.commit_line_and_blank();
        }
    }

    /// Closes a code block: its buffered content is rendered (by the custom
    /// renderer, or as a `[lang]` label and one line per content line), all
    /// belonging to the code block, then a blank line.
    fn end_code_block(&mut self, e: ElementId)
        requires
            old(self).inv(),
            old(self).output().has(e),
        ensures
            final(self).inv(),
            final(self).end_arm(old(self), OpenKind::CodeBlock, e, 0),
            final(self).open@ == old(self).open@,
            final(self).item_depth == old(self).item_depth,
    {
        let theme = self.theme();
        let ghost b0 = self.block_stack@;
        let ctx = self.block_stack.pop();
        assert(self.block_stack@ =~= popped(b0));
        if let Some(BlockCtx::CodeBlock { lang, content }) = ctx {
            let ghost m0 = self.out.line_model();
            let lines = match &self.renderer.code_block {
                Some(f) => f.call(lang.as_str(), content.as_str()),
                None => default_code_block_lines(lang.as_str(), content.as_str(), &theme),
            };
            let ghost ls = lines@;
            self.out.push_lines(lines, e);
            let ghost m1 = self.out.line_model();
            self.out.push_blank();
            proof {
                assert(self.out.line_model().drop_last() == m1);
                assert(m1.take(m0.len() as int) =~= m0);
                assert forall|i: int, k: int|
                    m0.len() <= i < m1.len() && 0 <= k < m1[i].len() implies (#[trigger] m1[i][k]).2 == e by {
                    assert(m1[i] == uniform_cells(ls[i - m0.len()].spans@, e));
                }
                if old(self).renderer.code_block is None {
                    crate::strings::lemma_split_lines_nonempty(content@);
                    let cells = ls.map_values(|l: Line| uniform_cells(l.spans@, e));
                    let want = code_block_cells(lang@, content@, theme, e);
                    let base: int = if lang@.len() > 0 {
                        1
                    } else {
                        0
                    };
                    assert(cells.len() == want.len());
                    assert forall|i: int| 0 <= i < cells.len() implies cells[i] =~= want[i] by {
                        assert(ls[i].spans@.len() == 1);
                    }
                    assert(cells =~= want);
                    assert(self.out.line_model() =~= m0 + want + seq![Seq::<Cell>::empty()]);
                }
            }
        } else {
            assert(self.out.line_model() == old(self).out.line_model());
        }
    }

    /// Closes a list: a blank line follows the outermost list.
    fn end_list(&mut self)
        requires
            old(self).inv(),
        ensures
            final(self).inv(),
            final(self).end_arm(old(self), OpenKind::List, ElementId(0), 0),
            final(self).open@ == old(self).open@,
            final(self).item_depth == old(self).item_depth,
    {
        self.pop_block();
        if !inside_item(&self.block_stack) {
            self.out.push_blank();
        }
    }

    /// Closes a list item or an HTML block: its line, if any, is committed.
    fn end_item_or_html(&mut self, kind: OpenKind)
        requires
            old(self).inv(),
            kind is Item || kind is HtmlBlock,
        ensures
            final(self).inv(),
            final(self).end_arm(old(self), kind, ElementId(0), 0),
            final(self).open@ == old(self).open@,
            final(self).item_depth == old(self).item_depth,
    {
        self.pop_block();
        if !self.out.spans_empty() {
            self.commit_line();
        }
    }

    /// Closes a table: the buffered table is rendered, then a blank line.
    fn end_table(&mut self, e: ElementId)
        requires
            old(self).inv(),
            old(self).output().has(e),
        ensures
            final(self).inv(),
            final(self).end_arm(old(self), OpenKind::Table, e, 0),
            final(self).open@ == old(self).open@,
            final(self).item_depth == old(self).item_depth,
    {
        let ghost b0 = self.block_stack@;
        let ctx = self.block_stack.pop();
        assert(self.block_stack@ =~= popped(b0));
        if let Some(BlockCtx::Table(buf)) = ctx {
            let ghost m0 = self.out.line_model();
            let ghost b = buf;
            self.render_table(buf, e);
            let ghost m1 = self.out.line_model();
            self.out.push_blank();
            proof {
                assert(self.out.line_model().take(m0.len() as int) =~= m1.take(m0.len() as int));
                let lm = self.out.line_model();
                let w = col_widths(b.header@, b.rows@);
                if w.len() > 0 {
                    assert forall|r: int| 0 <= r < b.rows@.len() implies texts(#[trigger] lm[m0.len() + 2 + r]) == row_texts(
                        b.rows@[r]@,
                        w,
                        self.renderer.theme.table_cell,
                        self.renderer.theme.table_separator,
                    ) by {
                        assert(lm[m0.len() + 2 + r] == m1[m0.len() + 2 + r]);
                    }
                    assert(lm[m0.len() as int] == m1[m0.len() as int]);
                    assert forall|r: int| 0 <= r < b.rows@.len() implies row_elems(
                        #[trigger] lm[m0.len() + 2 + r],
                        self.out.elements(),
                        (r + 1) as u16,
                        false,
                        e,
                        capped(old(self).out.n() + w.len() * (r + 1)),
                    ) by {
                        assert(lm[m0.len() + 2 + r] == m1[m0.len() + 2 + r]);
                    }
                }
            }
        }
        assert(self.out.elements().take(old(self).out.n()) =~= old(self).out.elements());
    }

    /// Closes a table's header section, a row or a cell: the buffered cell
    /// joins the row, the row joins the body (or becomes the header).
    fn end_table_part(&mut self, kind: OpenKind)
        requires
            old(self).inv(),
            kind is TableHead || kind is TableRow || kind is TableCell,
        ensures
            final(self).inv(),
            final(self).end_arm(old(self), kind, ElementId(0), 0),
            final(self).open@ == old(self).open@,
            final(self).item_depth == old(self).item_depth,
    {
        proof {
            lemma_table_index_bounds(self.block_stack@);
        }
        let ghost b0 = self.block_stack@;
        match kind {
            OpenKind::TableHead => {
                let row = flush_table_row(&mut self.block_stack);
                proof {
                    if table_index(b0) >= 0 {
                        lemma_table_index_kept(self.block_stack@, b0);
                    }
                }
                table_store(&mut self.block_stack, row, true, Some(false));
            },
            OpenKind::TableRow => {
                let row = flush_table_row(&mut self.block_stack);
                proof {
                    if table_index(b0) >= 0 {
                        lemma_table_index_kept(self.block_stack@, b0);
                    }
                }
                table_store(&mut self.block_stack, row, false, None);
            },
            _ => {
                let cell = flush_table_cell(&mut self.block_stack);
                proof {
                    if table_index(b0) >= 0 {
                        lemma_table_index_kept(self.block_stack@, b0);
                    }
                }
                table_push_cell(&mut self.block_stack, cell);
            },
        }
        let ghost b1 = self.block_stack@;
        self.block_stack.pop();
        proof {
            let j = table_index(b0);
            if j == -1 {
                assert(b1 == b0);
                assert(self.block_stack@ =~= popped(b0));
            } else if j == b0.len() - 1 {
                assert(self.block_stack@ =~= popped(b0));
            } else {
                assert(self.block_stack@ =~= popped(b0).update(j, self.block_stack@[j]));
            }
        }
    }

    /// Closes a footnote definition or a metadata block.
    fn end_silent_block(&mut self, kind: OpenKind)
        requires
            old(self).inv(),
            kind is FootnoteDefinition || kind is MetadataBlock,
        ensures
            final(self).inv(),
            final(self).end_arm(old(self), kind, ElementId(0), 0),
            final(self).open@ == old(self).open@,
            final(self).item_depth == old(self).item_depth,
    {
        self.pop_block();
    }

    /// Closes a definition list: a blank line.
    fn end_def_list(&mut self)
        requires
            old(self).inv(),
        ensures
            final(self).inv(),
            final(self).end_arm(old(self), OpenKind::DefinitionList, ElementId(0), 0),
            final(self).open@ == old(self).open@,
            final(self).item_depth == old(self).item_depth,
    {
        self.pop_block();
        self.out.push_blank();
    }

    /// Closes a definition-list title: its style ends and its line is
    /// committed.
    fn end_def_title(&mut self)
        requires
            old(self).inv(),
        ensures
            final(self).inv(),
            final(self).end_arm(old(self), OpenKind::DefinitionListTitle, ElementId(0), 0),
            final(self).open@ == old(self).open@,
            final(self).item_depth == old(self).item_depth,
    {
        self.pop_block();
        let ghost i0 = self.inline_stack@;
        self.inline_stack.pop();
        assert(self.inline_stack@ =~= popped(i0));
        self.commit_line();
    }

    /// Closes a definition: its line is committed.
    fn end_definition(&mut self)
        requires
            old(self).inv(),
        ensures
            final(self).inv(),
            final(self).end_arm(old(self), OpenKind::DefinitionListDefinition, ElementId(0), 0),
            final(self).open@ == old(self).open@,
            final(self).item_depth == old(self).item_depth,
    {
        self.pop_block();
        self.commit_line();
    }

    /// Closes an inline element: its style ends.
    fn end_inline(&mut self)
        requires
            old(self).inv(),
        ensures
            final(self).inv(),
            final(self).end_arm(old(self), OpenKind::Inline, ElementId(0), 0),
            final(self).open@ == old(self).open@,
            final(self).item_depth == old(self).item_depth,
    {
        let ghost i0 = self.inline_stack@;
        self.inline_stack.pop();
        assert(self.inline_stack@ =~= popped(i0));
    }

    /// Closes a link: its alt text is the content of its own spans; the
    /// custom renderer's spans replace them, or they are shown as
    /// `[alt](url)`, the brackets and the URL in the link style. The link
    /// element records its alt text and URL.
    fn end_link(&mut self, url: String, e: ElementId, start: usize)
        requires
            old(self).inv(),
            old(self).output().has(e),
        ensures
            final(self).inv(),
            final(self).end_arm(old(self), OpenKind::Link(url), e, start as int),
            final(self).open@ == old(self).open@,
            final(self).item_depth == old(self).item_depth,
    {
        let theme = self.theme();
        let ghost i0 = self.inline_stack@;
        self.inline_stack.pop();
        assert(self.inline_stack@ =~= popped(i0));
        let mut pending: Option<String> = None;
        std::mem::swap(&mut pending, &mut self.pending_link_url);
        let shown_url = match pending {
            Some(u) => u,
            None => String::new(),
        };
        let len = self.out.spans_len();
        let s0 = if start <= len {
            start
        } else {
            len
        };
        let alt = self.out.spans_text_from(s0);
        let ghost p0 = self.out.pending();
        match &self.renderer.link {
            Some(f) => {
                let spans = f.call(alt.as_str(), shown_url.as_str());
                let ghost sp = spans@;
                self.out.truncate_spans(s0);
                self.out.push_spans(spans, e);
                assert((p0.take(s0 as int) + uniform_cells(sp, e)).take(p0.take(s0 as int).len() as int) =~= p0.take(
                    s0 as int,
                ));
            },
            None => {
                proof {
                    reveal_strlit("[");
                    reveal_strlit("](");
                    reveal_strlit(")");
                    assert("["@ =~= seq!['[']);
                    assert("]("@ =~= seq![']', '(']);
                    assert(")"@ =~= seq![')']);
                }
                self.out.insert_span(s0, String::from_str("["), theme.link, e);
                let ghost p1 = self.out.pending();
                let text = String::from_str("](").concat(shown_url.as_str()).concat(")");
                let ghost t = text@;
                assert(t =~= seq![']', '('] + shown_url@ + seq![')']);
                self.out.push_span(text, theme.link, e);
                assert(opt_cell(t, theme.link, e) =~= seq![(t, theme.link, e)]);
                assert(self.out.pending() =~= p1.push((t, theme.link, e)));
            },
        }
        let ghost el0 = self.out.elements();
        self.out.set_kind(e, ElementKind::Link { alt, url });
    }

    /// Closes an image: its spans (the custom renderer's, or `🖼 alt(url)`
    /// in the image style) belong to the image element, which records its
    /// alt text and URL.
    fn end_image(&mut self, e: ElementId)
        requires
            old(self).inv(),
            old(self).output().has(e),
        ensures
            final(self).inv(),
            final(self).end_arm(old(self), OpenKind::Image, e, 0),
            final(self).open@ == old(self).open@,
            final(self).item_depth == old(self).item_depth,
    {
        let theme = self.theme();
        self.in_image = false;
        let mut pending_alt: Option<String> = None;
        std::mem::swap(&mut pending_alt, &mut self.pending_image_alt);
        let alt = match pending_alt {
            Some(a) => a,
            None => String::new(),
        };
        let mut pending_url: Option<String> = None;
        std::mem::swap(&mut pending_url, &mut self.pending_image_url);
        let url = match pending_url {
            Some(u) => u,
            None => String::new(),
        };
        let ghost p0 = self.out.pending();
        proof {
            reveal_strlit("🖼 ");
            reveal_strlit("(");
            reveal_strlit(")");
            assert("🖼 "@ =~= seq!['🖼', ' ']);
            assert("("@ =~= seq!['(']);
            assert(")"@ =~= seq![')']);
        }
        let spans = match &self.renderer.image {
            Some(f) => f.call(alt.as_str(), url.as_str()),
            None => {
                let text = String::from_str("🖼 ").concat(alt.as_str()).concat("(").concat(url.as_str()).concat(")");
                let mut v: Vec<Span> = Vec::new();
                v.push(Span::from_string(text, theme.image));
                v
            },
        };
        let ghost sp = spans@;
        self.out.push_spans(spans, e);
        proof {
            assert((p0 + uniform_cells(sp, e)).take(p0.len() as int) =~= p0);
            if old(self).renderer.image is None {
                assert(p0 + uniform_cells(sp, e) =~= p0.push(uniform_cells(sp, e)[0]));
            }
        }
        self.out.set_kind(e, ElementKind::Image { alt, url });
    }

    /// An end event: closes the innermost open element, emitting what it
    /// buffered (code blocks, tables, custom renderings) and the lines and
    /// blank lines it ends with.
    fn handle_end(&mut self)
        requires
            old(self).inv(),
        ensures
            final(self).inv(),
            final(self).renderer() == old(self).renderer(),
            final(self).end_effect(old(self)),
    {
        let n = self.open.len();
        if n == 0 {
            return;
        }
        proof {
            assert(self.open@[n - 1] == self.open@.last());
        }
        let tag = match self.open.pop() {
            Some(t) => t,
            None => {
                return;
            },
        };
        proof {
            assert(self.open@ == old(self).open@.drop_last());
            assert(count_items(old(self).open@) == count_items(self.open@) + if tag.kind is Item {
                1nat
            } else {
                0nat
            });
        }
        if let OpenKind::Item = tag.kind {
            self.item_depth = self.item_depth.saturating_sub(1);
        }
        let e = match tag.elem {
            Some(id) => id,
            None => ElementId(0),
        };
        let start = tag.span_start;
        match tag.kind {
            OpenKind::Paragraph => self.end_paragraph(),
            OpenKind::Heading(level) => self.end_heading(level, e),
            OpenKind::BlockQuote => self.end_quote(),
            OpenKind::CodeBlock => self.end_code_block(e),
            OpenKind::List => self.end_list(),
            OpenKind::Item => self.end_item_or_html(OpenKind::Item),
            OpenKind::HtmlBlock => self.end_item_or_html(OpenKind::HtmlBlock),
            OpenKind::Table => self.end_table(e),
            OpenKind::TableHead => self.end_table_part(OpenKind::TableHead),
            OpenKind::TableRow => self.end_table_part(OpenKind::TableRow),
            OpenKind::TableCell => self.end_table_part(OpenKind::TableCell),
            OpenKind::FootnoteDefinition => self.end_silent_block(OpenKind::FootnoteDefinition),
            OpenKind::MetadataBlock => self.end_silent_block(OpenKind::MetadataBlock),
            OpenKind::DefinitionList => self.end_def_list(),
            OpenKind::DefinitionListTitle => self.end_def_title(),
            OpenKind::DefinitionListDefinition => self.end_definition(),
            OpenKind::Inline => self.end_inline(),
            OpenKind::Link(url) => self.end_link(url, e, start),
            OpenKind::Image => self.end_image(e),
        }
    }

    /// Dispatches one event.
    fn handle_event(&mut self, event: MdEvent)
        requires
            old(self).inv(),
        ensures
            final(self).inv(),
            final(self).renderer() == old(self).renderer(),
            final(self).event_effect(old(self), event),
    {
        match event {
            MdEvent::Start(tag) => self.handle_start(tag),
            MdEvent::End => self.handle_end(),
            MdEvent::Text(s) => self.on_text(s),
            MdEvent::Code(s) => self.on_code(s),
            MdEvent::InlineMath(s) => self.on_math(s, false),
            MdEvent::DisplayMath(s) => self.on_math(s, true),
            MdEvent::Html(s) => self.on_html(s, false),
            MdEvent::InlineHtml(s) => self.on_html(s, true),
            MdEvent::FootnoteReference(label) => self.on_footnote_ref(label),
            MdEvent::SoftBreak => self.on_soft_break(),
            MdEvent::HardBreak => self.on_hard_break(),
            MdEvent::Rule => self.on_rule(),
            MdEvent::TaskListMarker(checked) => self.on_task_marker(checked),
        }
    }

    /// Ends the conversion: commits the line being built, appends the
    /// footnote definitions, drops one trailing blank line, and returns the
    /// document, its text in the theme's base style.
    pub fn finish(self) -> (d: MarkdownDocument)
        requires
            self.inv(),
        ensures
            self.finishes(d),
            d.valid(),
            d.rendered().style == self.renderer().theme.base,
            d.rendered().alignment is None,
            self.renderer().is_plain() ==> plain_lines(d.rendered().lines@),
            (self.output().lines().len() == 0 && self.output().spans().len() == 0 && self.footnotes().len() == 0)
                ==> d.rendered().lines@.len() == 0,
    {
        let ghost c0 = self;
        let mut c = self;
        let ghost m0 = c.out.line_model();
        if !c.out.spans_empty() {
            c.commit_line();
        }
        let ghost m1 = c.out.line_model();
        c.render_footnote_defs();
        let ghost m2 = c.out.line_model();
        proof {
            assert(m2.len() == c.out.lines().len());
            if m2.len() > 0 {
                assert(m2.last() == line_cells(c.out.lines().last(), c.out.annotations().last()));
            }
        }
        c.out.drop_trailing_blank();
        let theme = c.theme();
        let ghost lines = c.out.lines();
        let ghost anns = c.out.annotations();
        let ghost m3 = c.out.line_model();
        let d = c.out.into_document(theme.base);
        proof {
            assert(doc_cells(d) =~= m3);
            assert(m2 == m1 + footnote_cells(c0.footnote_defs@, theme));
        }
        d
    }

    /// Converts a sequence of Markdown events.
    pub fn render_events(self, events: Vec<MdEvent>) -> (d: MarkdownDocument)
        requires
            self.inv(),
        ensures
            self.renders(events@, d),
            d.valid(),
            d.rendered().style == self.renderer().theme.base,
            d.rendered().alignment is None,
            self.renderer().is_plain() ==> plain_lines(d.rendered().lines@),
            (events@.len() == 0 && self.output().lines().len() == 0 && self.output().spans().len() == 0
                && self.footnotes().len() == 0) ==> d.rendered().lines@.len() == 0,
    {
        let ghost c0 = self;
        let mut c = self;
        let ghost r0 = c.renderer();
        let mut rest = events;
        let ghost all = rest@;
        let ghost mut states: Seq<Converter<'r>> = seq![c];
        while rest.len() > 0
            invariant
                c.inv(),
                c.renderer() == r0,
                rest@.len() <= all.len(),
                rest@ == all.skip(all.len() - rest@.len()),
                states.len() == all.len() - rest@.len() + 1,
                states[0] == c0,
                states.last() == c,
                forall|i: int| 0 <= i < states.len() - 1 ==> #[trigger] states[i + 1].event_effect(&states[i], all[i]),
                all.len() == 0 ==> c == c0,
            decreases rest@.len(),
        {
            let ghost k = all.len() - rest@.len();
            let ghost before = c;
            let ghost r_old = rest@;
            let event = rest.remove(0);
            assert(event == all[k]) by {
                assert(all.skip(k)[0] == all[k]);
            }
            assert(rest@ =~= all.skip(k + 1));
            c.handle_event(event);
            proof {
                let s2 = states.push(c);
                assert forall|i: int| 0 <= i < s2.len() - 1 implies #[trigger] s2[i + 1].event_effect(&s2[i], all[i]) by {
                    if i < states.len() - 1 {
                        assert(s2[i + 1] == states[i + 1]);
                        assert(s2[i] == states[i]);
                    } else {
                        assert(s2[i] == before);
                        assert(s2[i + 1] == c);
                    }
                }
                states = s2;
            }
        }
        let ghost last = c;
        let d = c.finish();
        assert(states.len() == all.len() + 1);
        assert(c0.renders(all, d)) by {
            assert(states.last().finishes(d));
        }
        d
    }

    /// Converts a Markdown text: parses it with pulldown-cmark and converts
    /// the events.
    pub fn convert(self, markdown: &str) -> (d: MarkdownDocument)
        requires
            self.inv(),
        ensures
            self.renders(markdown_events(markdown@, MARKDOWN_OPTIONS), d),
            d.valid(),
            d.rendered().style == self.renderer().theme.base,
            d.rendered().alignment is None,
            self.renderer().is_plain() ==> plain_lines(d.rendered().lines@),
            (markdown_events(markdown@, MARKDOWN_OPTIONS).len() == 0 && self.output().lines().len() == 0 && self.output().spans().len()
                == 0 && self.footnotes().len() == 0) ==> d.rendered().lines@.len() == 0,
    {
        let events = parse_markdown(markdown, MARKDOWN_OPTIONS);
        self.render_events(events)
    }
}

/// `d` is what converting `events` with `renderer` gives, starting from
/// the initial converter.
pub open spec fn converted<'a>(renderer: Renderer, events: Seq<MdEvent>, d: MarkdownDocument) -> bool {
    exists|c: Converter<'a>| c.initial(renderer) && c.renders(events, d)
}


} // verus!
