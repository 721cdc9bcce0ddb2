//! Per-element rendering customization: [`RendererBuilder`] replaces the
//! default rendering of an element type with a caller-supplied closure;
//! [`RendererBuilder::build`] produces the [`Renderer`] that the conversion
//! functions take.

use vstd::prelude::*;

use crate::text::{Line, Span};
use crate::theme::{default_theme, Theme};

verus! {

/// A caller-supplied closure from two strings to spans (links and images:
/// alt text and URL).
#[verifier::external_body]
pub struct SpanPairFn {
    f: Box<dyn Fn(&str, &str) -> Vec<Span> + Send + Sync>,
}

/// A caller-supplied closure from one string to spans (inline code, and
/// footnote references: the label).
#[verifier::external_body]
pub struct SpanFn {
    f: Box<dyn Fn(&str) -> Vec<Span> + Send + Sync>,
}

/// A caller-supplied closure from two strings to lines (code blocks:
/// language and content).
#[verifier::external_body]
pub struct LinePairFn {
    f: Box<dyn Fn(&str, &str) -> Vec<Line> + Send + Sync>,
}

/// A caller-supplied closure from a heading level and the heading's styled
/// spans to lines.
#[verifier::external_body]
pub struct HeadingFn {
    f: Box<dyn Fn(u8, Vec<Span>) -> Vec<Line> + Send + Sync>,
}

/// A caller-supplied closure producing lines (thematic breaks).
#[verifier::external_body]
pub struct LinesFn {
    f: Box<dyn Fn() -> Vec<Line> + Send + Sync>,
}

/// Renders a link: `(alt_text, url)`.
pub type LinkFn = SpanPairFn;

/// Renders an image: `(alt_text, url)`.
pub type ImageFn = SpanPairFn;

/// Renders inline code: the code.
pub type InlineCodeFn = SpanFn;

/// Renders a code block: `(language, content)`; the language is empty when
/// none is given.
pub type CodeBlockFn = LinePairFn;

/// Renders a thematic break.
pub type RuleFn = LinesFn;

/// Renders a footnote reference: its label.
pub type FootnoteRefFn = SpanFn;

impl SpanPairFn {
    /// Boxes a closure.
    #[verifier::external_body]
    pub fn new(f: impl Fn(&str, &str) -> Vec<Span> + Send + Sync + 'static) -> SpanPairFn {
        SpanPairFn { f: Box::new(f) }
    }

    /// Calls the closure. Nothing is claimed of its result: the closure is
    /// the caller's code.
    #[verifier::external_body]
    pub fn call(&self, a: &str, b: &str) -> Vec<Span> {
        (self.f)(a, b)
    }
}

impl SpanFn {
    /// Boxes a closure.
    #[verifier::external_body]
    pub fn new(f: impl Fn(&str) -> Vec<Span> + Send + Sync + 'static) -> SpanFn {
        SpanFn { f: Box::new(f) }
    }

    /// Calls the closure. Nothing is claimed of its result: the closure is
    /// the caller's code.
    #[verifier::external_body]
    pub fn call(&self, a: &str) -> Vec<Span> {
        (self.f)(a)
    }
}

impl LinePairFn {
    /// Boxes a closure.
    #[verifier::external_body]
    pub fn new(f: impl Fn(&str, &str) -> Vec<Line> + Send + Sync + 'static) -> LinePairFn {
        LinePairFn { f: Box::new(f) }
    }

    /// Calls the closure. Nothing is claimed of its result: the closure is
    /// the caller's code.
    #[verifier::external_body]
    pub fn call(&self, a: &str, b: &str) -> Vec<Line> {
        (self.f)(a, b)
    }
}

impl HeadingFn {
    /// Boxes a closure.
    #[verifier::external_body]
    pub fn new(f: impl Fn(u8, Vec<Span>) -> Vec<Line> + Send + Sync + 'static) -> HeadingFn {
        HeadingFn { f: Box::new(f) }
    }

    /// Calls the closure. Nothing is claimed of its result: the closure is
    /// the caller's code.
    #[verifier::external_body]
    pub fn call(&self, level: u8, spans: Vec<Span>) -> Vec<Line> {
        (self.f)(level, spans)
    }
}

impl LinesFn {
    /// Boxes a closure.
    #[verifier::external_body]
    pub fn new(f: impl Fn() -> Vec<Line> + Send + Sync + 'static) -> LinesFn {
        LinesFn { f: Box::new(f) }
    }

    /// Calls the closure. Nothing is claimed of its result: the closure is
    /// the caller's code.
    #[verifier::external_body]
    pub fn call(&self) -> Vec<Line> {
        (self.f)()
    }
}

/// A renderer without custom element renderers is determined by its theme:
/// so [`crate::into_text`] and [`crate::into_text_with_theme`] convert as
/// [`crate::into_text_with_renderer`] does with the renderer that
/// `RendererBuilder::new()` (with that theme) builds.
pub proof fn lemma_plain_renderer_is_its_theme(a: Renderer, b: Renderer)
    requires
        a.is_plain(),
        b.is_plain(),
        a.theme == b.theme,
    ensures
        a == b,
{
}

/// The [`Theme`] and the optional custom renderer of each element type.
/// Build one with [`RendererBuilder`].
pub struct Renderer {
    pub theme: Theme,
    pub link: Option<LinkFn>,
    pub image: Option<ImageFn>,
    pub inline_code: Option<InlineCodeFn>,
    pub code_block: Option<CodeBlockFn>,
    pub heading: Option<HeadingFn>,
    pub rule: Option<RuleFn>,
    pub footnote_ref: Option<FootnoteRefFn>,
}

impl Renderer {
    /// Whether no element type has a custom renderer.
    pub open spec fn is_plain(&self) -> bool {
        &&& self.link is None
        &&& self.image is None
        &&& self.inline_code is None
        &&& self.code_block is None
        &&& self.heading is None
        &&& self.rule is None
        &&& self.footnote_ref is None
    }

    /// The theme of this renderer.
    pub fn theme(&self) -> (t: &Theme)
        ensures
            *t == self.theme,
    {
        &self.theme
    }
}

/// Builder for [`Renderer`]: every setter is optional; unset element types
/// use the built-in rendering.
pub struct RendererBuilder {
    theme: Theme,
    link: Option<LinkFn>,
    image: Option<ImageFn>,
    inline_code: Option<InlineCodeFn>,
    code_block: Option<CodeBlockFn>,
    heading: Option<HeadingFn>,
    rule: Option<RuleFn>,
    footnote_ref: Option<FootnoteRefFn>,
}

impl RendererBuilder {
    /// The renderer that [`RendererBuilder::build`] would produce.
    pub closed spec fn target(&self) -> Renderer {
        Renderer {
            theme: self.theme,
            link: self.link,
            image: self.image,
            inline_code: self.inline_code,
            code_block: self.code_block,
            heading: self.heading,
            rule: self.rule,
            footnote_ref: self.footnote_ref,
        }
    }

    /// A builder with the default theme and no custom renderers.
    pub fn new() -> (b: RendererBuilder)
        ensures
            b.target().theme == default_theme(),
            b.target().is_plain(),
    {
        RendererBuilder {
            theme: Theme::default(),
            link: None,
            image: None,
            inline_code: None,
            code_block: None,
            heading: None,
            rule: None,
            footnote_ref: None,
        }
    }

    /// Replaces the theme used for default rendering (custom renderers get
    /// no theme).
    pub fn with_theme(self, theme: Theme) -> (b: RendererBuilder)
        ensures
            b.target() == (Renderer { theme, ..self.target() }),
    {
        RendererBuilder { theme, ..self }
    }

    /// Replaces link rendering: the closure receives `(alt_text, url)`.
    pub fn with_link(self, f: impl Fn(&str, &str) -> Vec<Span> + Send + Sync + 'static) -> (b: RendererBuilder)
        ensures
            b.target().link is Some,
            b.target() == (Renderer { link: b.target().link, ..self.target() }),
    {
        RendererBuilder { link: Some(SpanPairFn::new(f)), ..self }
    }

    /// Replaces image rendering: the closure receives `(alt_text, url)`.
    pub fn with_image(self, f: impl Fn(&str, &str) -> Vec<Span> + Send + Sync + 'static) -> (b: RendererBuilder)
        ensures
            b.target().image is Some,
            b.target() == (Renderer { image: b.target().image, ..self.target() }),
    {
        RendererBuilder { image: Some(SpanPairFn::new(f)), ..self }
    }

    /// Replaces inline-code rendering: the closure receives the code.
    pub fn with_inline_code(self, f: impl Fn(&str) -> Vec<Span> + Send + Sync + 'static) -> (b: RendererBuilder)
        ensures
            b.target().inline_code is Some,
            b.target() == (Renderer { inline_code: b.target().inline_code, ..self.target() }),
    {
        RendererBuilder { inline_code: Some(SpanFn::new(f)), ..self }
    }

    /// Replaces code-block rendering: the closure receives `(language,
    /// content)`, the language empty when none is given.
    pub fn with_code_block(self, f: impl Fn(&str, &str) -> Vec<Line> + Send + Sync + 'static) -> (b: RendererBuilder)
        ensures
            b.target().code_block is Some,
            b.target() == (Renderer { code_block: b.target().code_block, ..self.target() }),
    {
        RendererBuilder { code_block: Some(LinePairFn::new(f)), ..self }
    }

    /// Replaces heading rendering: the closure receives the level (1 to 6)
    /// and the heading's styled spans.
    pub fn with_heading(self, f: impl Fn(u8, Vec<Span>) -> Vec<Line> + Send + Sync + 'static) -> (b: RendererBuilder)
        ensures
            b.target().heading is Some,
            b.target() == (Renderer { heading: b.target().heading, ..self.target() }),
    {
        RendererBuilder { heading: Some(HeadingFn::new(f)), ..self }
    }

    /// Replaces thematic-break rendering.
    pub fn with_rule(self, f: impl Fn() -> Vec<Line> + Send + Sync + 'static) -> (b: RendererBuilder)
        ensures
            b.target().rule is Some,
            b.target() == (Renderer { rule: b.target().rule, ..self.target() }),
    {
        RendererBuilder { rule: Some(LinesFn::new(f)), ..self }
    }

    /// Replaces footnote-reference rendering: the closure receives the label.
    pub fn with_footnote_ref(self, f: impl Fn(&str) -> Vec<Span> + Send + Sync + 'static) -> (b: RendererBuilder)
        ensures
            b.target().footnote_ref is Some,
            b.target() == (Renderer { footnote_ref: b.target().footnote_ref, ..self.target() }),
    {
        RendererBuilder { footnote_ref: Some(SpanFn::new(f)), ..self }
    }

    /// Consumes the builder and produces the [`Renderer`].
    pub fn build(self) -> (r: Renderer)
        ensures
            r == self.target(),
    {
        Renderer {
            theme: self.theme,
            link: self.link,
            image: self.image,
            inline_code: self.inline_code,
            code_block: self.code_block,
            heading: self.heading,
            rule: self.rule,
            footnote_ref: self.footnote_ref,
        }
    }
}

impl Default for RendererBuilder {
    fn default() -> (b: RendererBuilder)
        ensures
            b.target().theme == default_theme(),
            b.target().is_plain(),
    {
        RendererBuilder::new()
    }
}

} // verus!
