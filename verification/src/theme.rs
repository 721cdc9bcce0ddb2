//! Styling configuration for the Markdown renderer: one [`Style`] per
//! Markdown element type. The defaults use only the 16-colour ANSI palette.

use vstd::prelude::*;

use crate::style::{plain_style, Color, Modifier, Style, BOLD_BITS, CROSSED_OUT_BITS, DIM_BITS, ITALIC_BITS, UNDERLINED_BITS};

verus! {

/// Per-element styling configuration. Start from [`Theme::default`] and
/// override single fields as needed.
#[derive(Debug, Clone, Copy)]
pub struct Theme {
    /// Base style of the whole rendered text.
    pub base: Style,
    pub h1: Style,
    pub h2: Style,
    pub h3: Style,
    pub h4: Style,
    pub h5: Style,
    pub h6: Style,
    pub strong: Style,
    pub emphasis: Style,
    pub strikethrough: Style,
    pub superscript: Style,
    pub subscript: Style,
    pub inline_code: Style,
    pub link: Style,
    pub image: Style,
    /// Code-block content.
    pub code_block: Style,
    /// The `[lang]` label line of a code block.
    pub code_block_lang: Style,
    pub block_quote: Style,
    /// GFM alert variants (`> [!NOTE]`, `> [!TIP]`, ...).
    pub block_quote_note: Style,
    pub block_quote_tip: Style,
    pub block_quote_warning: Style,
    pub block_quote_caution: Style,
    pub block_quote_important: Style,
    /// Bullet and number markers of list items.
    pub list_marker: Style,
    pub table_header: Style,
    pub table_cell: Style,
    /// The `─┼─` separator line and the `│` cell separators.
    pub table_separator: Style,
    /// Thematic breaks.
    pub rule: Style,
    pub footnote_ref: Style,
    pub footnote_def: Style,
    pub math: Style,
    pub html: Style,
}

/// The style with the given foreground colour and added modifier bits.
pub open spec fn fg_style(fg: Color, bits: u16) -> Style {
    Style {
        fg: Some(fg),
        bg: None,
        add_modifier: Modifier { bits },
        sub_modifier: Modifier { bits: 0 },
    }
}

/// The style that only adds the given modifier bits.
pub open spec fn mod_style(bits: u16) -> Style {
    Style { fg: None, bg: None, add_modifier: Modifier { bits }, sub_modifier: Modifier { bits: 0 } }
}

/// The default theme.
pub open spec fn default_theme() -> Theme {
    Theme {
        base: plain_style(),
        h1: fg_style(Color::Cyan, BOLD_BITS),
        h2: fg_style(Color::Cyan, BOLD_BITS | UNDERLINED_BITS),
        h3: fg_style(Color::Blue, BOLD_BITS),
        h4: fg_style(Color::Blue, BOLD_BITS | ITALIC_BITS),
        h5: fg_style(Color::Magenta, BOLD_BITS),
        h6: fg_style(Color::Magenta, BOLD_BITS | ITALIC_BITS),
        strong: mod_style(BOLD_BITS),
        emphasis: mod_style(ITALIC_BITS),
        strikethrough: mod_style(CROSSED_OUT_BITS),
        superscript: mod_style(DIM_BITS),
        subscript: mod_style(DIM_BITS),
        inline_code: fg_style(Color::Yellow, 0),
        link: fg_style(Color::Blue, UNDERLINED_BITS),
        image: fg_style(Color::Cyan, UNDERLINED_BITS),
        code_block: fg_style(Color::Yellow, 0),
        code_block_lang: fg_style(Color::DarkGray, ITALIC_BITS),
        block_quote: fg_style(Color::Gray, ITALIC_BITS),
        block_quote_note: fg_style(Color::Cyan, ITALIC_BITS),
        block_quote_tip: fg_style(Color::Green, ITALIC_BITS),
        block_quote_warning: fg_style(Color::Yellow, ITALIC_BITS),
        block_quote_caution: fg_style(Color::Red, ITALIC_BITS),
        block_quote_important: fg_style(Color::Magenta, ITALIC_BITS),
        list_marker: fg_style(Color::DarkGray, 0),
        table_header: mod_style(BOLD_BITS),
        table_cell: plain_style(),
        table_separator: fg_style(Color::DarkGray, 0),
        rule: fg_style(Color::DarkGray, 0),
        footnote_ref: fg_style(Color::DarkGray, DIM_BITS),
        footnote_def: fg_style(Color::DarkGray, 0),
        math: fg_style(Color::Yellow, 0),
        html: fg_style(Color::DarkGray, 0),
    }
}

/// The style with a foreground colour and added modifiers.
fn fg_mod(color: Color, m: Modifier) -> (s: Style)
    ensures
        s == fg_style(color, m.bits),
{
    let s = Style::new().fg(color).add_modifier(m);
    let b = m.bits;
    assert(0u16 | b == b && 0u16 & !b == 0) by (bit_vector);
    s
}

/// The style that only adds the given modifiers.
fn mods(m: Modifier) -> (s: Style)
    ensures
        s == mod_style(m.bits),
{
    let s = Style::new().add_modifier(m);
    let b = m.bits;
    assert(0u16 | b == b && 0u16 & !b == 0) by (bit_vector);
    s
}

impl Default for Theme {
    /// Headings in a cyan/blue/magenta palette of decreasing weight, bold
    /// and italic inline styles, yellow code, blue underlined links, grey
    /// italic block quotes, dark-grey markers, rules and separators.
    fn default() -> (t: Theme)
        ensures
            t == default_theme(),
    {
        let bold = Modifier::bold();
        let italic = Modifier::italic();
        let underlined = Modifier::underlined();
        let none = Modifier::empty();
        let bold_underlined = bold.union(underlined);
        let bold_italic = bold.union(italic);
        Theme {
            base: Style::new(),
            h1: fg_mod(Color::Cyan, bold),
            h2: fg_mod(Color::Cyan, bold_underlined),
            h3: fg_mod(Color::Blue, bold),
            h4: fg_mod(Color::Blue, bold_italic),
            h5: fg_mod(Color::Magenta, bold),
            h6: fg_mod(Color::Magenta, bold_italic),
            strong: mods(bold),
            emphasis: mods(italic),
            strikethrough: mods(Modifier::crossed_out()),
            superscript: mods(Modifier::dim()),
            subscript: mods(Modifier::dim()),
            inline_code: fg_mod(Color::Yellow, none),
            link: fg_mod(Color::Blue, underlined),
            image: fg_mod(Color::Cyan, underlined),
            code_block: fg_mod(Color::Yellow, none),
            code_block_lang: fg_mod(Color::DarkGray, italic),
            block_quote: fg_mod(Color::Gray, italic),
            block_quote_note: fg_mod(Color::Cyan, italic),
            block_quote_tip: fg_mod(Color::Green, italic),
            block_quote_warning: fg_mod(Color::Yellow, italic),
            block_quote_caution: fg_mod(Color::Red, italic),
            block_quote_important: fg_mod(Color::Magenta, italic),
            list_marker: fg_mod(Color::DarkGray, none),
            table_header: mods(bold),
            table_cell: Style::new(),
            table_separator: fg_mod(Color::DarkGray, none),
            rule: fg_mod(Color::DarkGray, none),
            footnote_ref: fg_mod(Color::DarkGray, Modifier::dim()),
            footnote_def: fg_mod(Color::DarkGray, none),
            math: fg_mod(Color::Yellow, none),
            html: fg_mod(Color::DarkGray, none),
        }
    }
}

/// Whether a colour, when set, is one of the 16 ANSI colours (an unset
/// colour leaves the terminal's own).
pub open spec fn ansi16(c: Option<Color>) -> bool {
    match c {
        Some(Color::Rgb(..)) => false,
        Some(Color::Indexed(..)) => false,
        Some(Color::Reset) => false,
        _ => true,
    }
}

/// Every style of a theme, in field order.
pub open spec fn theme_styles(t: Theme) -> Seq<Style> {
    seq![
        t.base, t.h1, t.h2, t.h3, t.h4, t.h5, t.h6, t.strong, t.emphasis, t.strikethrough, t.superscript,
        t.subscript, t.inline_code, t.link, t.image, t.code_block, t.code_block_lang, t.block_quote,
        t.block_quote_note, t.block_quote_tip, t.block_quote_warning, t.block_quote_caution,
        t.block_quote_important, t.list_marker, t.table_header, t.table_cell, t.table_separator, t.rule,
        t.footnote_ref, t.footnote_def, t.math, t.html,
    ]
}

/// The default theme needs no true-colour terminal: every foreground and
/// background it sets is one of the 16 ANSI colours.
pub proof fn lemma_default_theme_is_ansi16()
    ensures
        forall|i: int|
            0 <= i < theme_styles(default_theme()).len() ==> ansi16((#[trigger] theme_styles(default_theme())[i]).fg)
                && ansi16(theme_styles(default_theme())[i].bg),
{
}

} // verus!
