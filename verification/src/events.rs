//! Markdown parsing: the events that pulldown-cmark produces for a Markdown
//! text, as plain values of this library.

use vstd::prelude::*;

use pulldown_cmark::{BlockQuoteKind, CodeBlockKind, Event, Options, Parser, Tag};

use crate::document::QuoteKind;

verus! {

/// pulldown-cmark's parser event, carried opaquely.
#[verifier::external_type_specification]
#[verifier::external_body]
pub struct ExEvent<'a>(Event<'a>);

/// pulldown-cmark's start tag, carried opaquely.
#[verifier::external_type_specification]
#[verifier::external_body]
pub struct ExTag<'a>(Tag<'a>);

/// pulldown-cmark's GFM alert kind, carried opaquely.
#[verifier::external_type_specification]
#[verifier::external_body]
pub struct ExBlockQuoteKind(BlockQuoteKind);

/// The element that a `Start` event opens.
#[derive(Debug)]
pub enum MdTag {
    Paragraph,
    /// A heading of level 1 to 6.
    Heading(u8),
    /// A block quote, with its GFM alert kind if any.
    BlockQuote(Option<QuoteKind>),
    /// A code block: `Some(info string)` when fenced, `None` when indented.
    CodeBlock(Option<String>),
    HtmlBlock,
    /// A list: `Some(first number)` when ordered, `None` for bullets.
    List(Option<u64>),
    Item,
    /// A footnote definition with its label.
    FootnoteDefinition(String),
    DefinitionList,
    DefinitionListTitle,
    DefinitionListDefinition,
    Table,
    TableHead,
    TableRow,
    TableCell,
    Emphasis,
    Strong,
    Strikethrough,
    Superscript,
    Subscript,
    /// A link with its destination URL.
    Link(String),
    /// An image with its URL.
    Image(String),
    MetadataBlock,
}

/// One parser event. `End` closes the innermost open element (start and
/// end events are balanced).
#[derive(Debug)]
pub enum MdEvent {
    Start(MdTag),
    End,
    Text(String),
    Code(String),
    InlineMath(String),
    DisplayMath(String),
    Html(String),
    InlineHtml(String),
    FootnoteReference(String),
    SoftBreak,
    HardBreak,
    Rule,
    /// A task-list marker, checked or not.
    TaskListMarker(bool),
}

/// The Markdown extensions this library enables, as pulldown-cmark's
/// `Options` bits: tables (1 << 1), footnotes (1 << 2), strikethrough
/// (1 << 3), task lists (1 << 4), math (1 << 10), GFM alerts (1 << 11),
/// definition lists (1 << 12), superscript (1 << 13) and subscript
/// (1 << 14).
pub const MARKDOWN_OPTIONS: u32 = 31774;

/// The events that pulldown-cmark's `Parser::new_ext` yields for a Markdown
/// text with the given extension bits, each as an [`MdEvent`].
pub uninterp spec fn markdown_events(md: Seq<char>, options: u32) -> Seq<MdEvent>;

/// Runs pulldown-cmark's `Parser::new_ext` with the extensions whose bits
/// are set in `options` (unknown bits are dropped, as
/// `Options::from_bits_truncate` does), converting each event one for one.
/// The contract claims that the result is the parser's event sequence for
/// these characters and these extensions.
#[verifier::external_body]
pub fn parse_markdown(md: &str, options: u32) -> (events: Vec<MdEvent>)
    ensures
        events@ == markdown_events(md@, options),
{
    Parser::new_ext(md, Options::from_bits_truncate(options)).map(md_event).collect()
}

/// Converts a pulldown-cmark `Event` into an [`MdEvent`], variant for
/// variant.
#[verifier::external_body]
fn md_event(e: Event<'_>) -> MdEvent {
    match e {
        Event::Start(t) => MdEvent::Start(md_tag(t)),
        Event::End(_) => MdEvent::End,
        Event::Text(s) => MdEvent::Text(s.into_string()),
        Event::Code(s) => MdEvent::Code(s.into_string()),
        Event::InlineMath(s) => MdEvent::InlineMath(s.into_string()),
        Event::DisplayMath(s) => MdEvent::DisplayMath(s.into_string()),
        Event::Html(s) => MdEvent::Html(s.into_string()),
        Event::InlineHtml(s) => MdEvent::InlineHtml(s.into_string()),
        Event::FootnoteReference(s) => MdEvent::FootnoteReference(s.into_string()),
        Event::SoftBreak => MdEvent::SoftBreak,
        Event::HardBreak => MdEvent::HardBreak,
        Event::Rule => MdEvent::Rule,
        Event::TaskListMarker(b) => MdEvent::TaskListMarker(b),
    }
}

/// Converts the pulldown-cmark tags that carry data; the others go through
/// [`md_block_tag`].
#[verifier::external_body]
fn md_tag(t: Tag<'_>) -> MdTag {
    match t {
        Tag::Heading { level, .. } => MdTag::Heading(level as u8),
        Tag::BlockQuote(k) => MdTag::BlockQuote(k.map(quote_kind)),
        Tag::CodeBlock(CodeBlockKind::Fenced(l)) => MdTag::CodeBlock(Some(l.into_string())),
        Tag::CodeBlock(CodeBlockKind::Indented) => MdTag::CodeBlock(None),
        Tag::List(n) => MdTag::List(n),
        Tag::FootnoteDefinition(l) => MdTag::FootnoteDefinition(l.into_string()),
        Tag::Link { dest_url, .. } => MdTag::Link(dest_url.into_string()),
        Tag::Image { dest_url, .. } => MdTag::Image(dest_url.into_string()),
        other => md_block_tag(other),
    }
}

/// Converts the block-level pulldown-cmark tags without data; the others go
/// through [`md_inline_tag`].
#[verifier::external_body]
fn md_block_tag(t: Tag<'_>) -> MdTag {
    match t {
        Tag::Paragraph => MdTag::Paragraph,
        Tag::HtmlBlock => MdTag::HtmlBlock,
        Tag::Item => MdTag::Item,
        Tag::DefinitionList => MdTag::DefinitionList,
        Tag::DefinitionListTitle => MdTag::DefinitionListTitle,
        Tag::DefinitionListDefinition => MdTag::DefinitionListDefinition,
        Tag::MetadataBlock(_) => MdTag::MetadataBlock,
        other => md_inline_tag(other),
    }
}

/// Converts the table and inline pulldown-cmark tags without data. Only
/// reached from [`md_block_tag`] for those variants; the last arm is never
/// taken.
#[verifier::external_body]
fn md_inline_tag(t: Tag<'_>) -> MdTag {
    match t {
        Tag::Table(_) => MdTag::Table,
        Tag::TableHead => MdTag::TableHead,
        Tag::TableRow => MdTag::TableRow,
        Tag::TableCell => MdTag::TableCell,
        Tag::Emphasis => MdTag::Emphasis,
        Tag::Strong => MdTag::Strong,
        Tag::Strikethrough => MdTag::Strikethrough,
        Tag::Superscript => MdTag::Superscript,
        Tag::Subscript => MdTag::Subscript,
        _ => MdTag::Paragraph,
    }
}

/// Converts pulldown-cmark's `BlockQuoteKind`, variant for variant.
#[verifier::external_body]
fn quote_kind(k: BlockQuoteKind) -> QuoteKind {
    match k {
        BlockQuoteKind::Note => QuoteKind::Note,
        BlockQuoteKind::Tip => QuoteKind::Tip,
        BlockQuoteKind::Warning => QuoteKind::Warning,
        BlockQuoteKind::Caution => QuoteKind::Caution,
        BlockQuoteKind::Important => QuoteKind::Important,
    }
}

} // verus!
