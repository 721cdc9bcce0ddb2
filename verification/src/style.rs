//! Terminal styling values: colours, text modifiers, styles, alignment and
//! rectangles. These are plain data; the `patch` operation composes styles
//! the way a terminal renderer layers them.

use vstd::prelude::*;

verus! {

/// A terminal colour: the 16 ANSI colours, `Reset`, an RGB triple or an
/// indexed (256-colour palette) entry.
#[derive(Clone, Copy, Debug, PartialEq, Eq, Structural)]
pub enum Color {
    Reset,
    Black,
    Red,
    Green,
    Yellow,
    Blue,
    Magenta,
    Cyan,
    Gray,
    DarkGray,
    LightRed,
    LightGreen,
    LightYellow,
    LightBlue,
    LightMagenta,
    LightCyan,
    White,
    Rgb(u8, u8, u8),
    Indexed(u8),
}

/// Bit of the bold modifier.
pub const BOLD_BITS: u16 = 1;

/// Bit of the dim modifier.
pub const DIM_BITS: u16 = 2;

/// Bit of the italic modifier.
pub const ITALIC_BITS: u16 = 4;

/// Bit of the underline modifier.
pub const UNDERLINED_BITS: u16 = 8;

/// Bit of the slow-blink modifier.
pub const SLOW_BLINK_BITS: u16 = 16;

/// Bit of the rapid-blink modifier.
pub const RAPID_BLINK_BITS: u16 = 32;

/// Bit of the reversed-video modifier.
pub const REVERSED_BITS: u16 = 64;

/// Bit of the hidden modifier.
pub const HIDDEN_BITS: u16 = 128;

/// Bit of the crossed-out modifier.
pub const CROSSED_OUT_BITS: u16 = 256;

/// A set of text modifiers (bold, italic, ...), one bit each.
#[derive(Clone, Copy, Debug, PartialEq, Eq, Structural)]
pub struct Modifier {
    pub bits: u16,
}

impl Modifier {
    /// True when every modifier of `other` is in `self`.
    pub open spec fn has(self, other: Modifier) -> bool {
        self.bits & other.bits == other.bits
    }

    /// The empty set of modifiers.
    pub fn empty() -> (m: Modifier)
        ensures
            m.bits == 0,
    {
        Modifier { bits: 0 }
    }

    /// The modifier set holding exactly the given bits.
    pub fn from_bits(bits: u16) -> (m: Modifier)
        ensures
            m.bits == bits,
    {
        Modifier { bits }
    }

    /// Bold.
    pub fn bold() -> (m: Modifier)
        ensures
            m.bits == BOLD_BITS,
    {
        Modifier { bits: BOLD_BITS }
    }

    /// Dim.
    pub fn dim() -> (m: Modifier)
        ensures
            m.bits == DIM_BITS,
    {
        Modifier { bits: DIM_BITS }
    }

    /// Italic.
    pub fn italic() -> (m: Modifier)
        ensures
            m.bits == ITALIC_BITS,
    {
        Modifier { bits: ITALIC_BITS }
    }

    /// Underlined.
    pub fn underlined() -> (m: Modifier)
        ensures
            m.bits == UNDERLINED_BITS,
    {
        Modifier { bits: UNDERLINED_BITS }
    }

    /// Crossed out.
    pub fn crossed_out() -> (m: Modifier)
        ensures
            m.bits == CROSSED_OUT_BITS,
    {
        Modifier { bits: CROSSED_OUT_BITS }
    }

    /// Reversed video.
    pub fn reversed() -> (m: Modifier)
        ensures
            m.bits == REVERSED_BITS,
    {
        Modifier { bits: REVERSED_BITS }
    }

    /// The union of two modifier sets.
    pub fn union(self, other: Modifier) -> (m: Modifier)
        ensures
            m.bits == self.bits | other.bits,
    {
        Modifier { bits: self.bits | other.bits }
    }

    /// `self` without the modifiers of `other`.
    pub fn difference(self, other: Modifier) -> (m: Modifier)
        ensures
            m.bits == self.bits & !other.bits,
    {
        Modifier { bits: self.bits & !other.bits }
    }

    /// Whether every modifier of `other` is set in `self`.
    pub fn contains(&self, other: Modifier) -> (b: bool)
        ensures
            b == self.has(other),
    {
        self.bits & other.bits == other.bits
    }

    /// Whether no modifier is set.
    pub fn is_empty(&self) -> (b: bool)
        ensures
            b == (self.bits == 0),
    {
        self.bits == 0
    }
}

/// Horizontal alignment of a line within its area.
#[derive(Clone, Copy, Debug, PartialEq, Eq, Structural)]
pub enum Alignment {
    Left,
    Center,
    Right,
}

/// A rectangle on the screen, in cells.
#[derive(Clone, Copy, Debug, PartialEq, Eq, Structural)]
pub struct Rect {
    pub x: u16,
    pub y: u16,
    pub width: u16,
    pub height: u16,
}

impl Rect {
    /// The rectangle at `(x, y)` of the given size.
    pub fn new(x: u16, y: u16, width: u16, height: u16) -> (r: Rect)
        ensures
            r == (Rect { x, y, width, height }),
    {
        Rect { x, y, width, height }
    }
}

/// Foreground and background colours plus the modifiers a style adds and
/// removes. `None` colours leave the underlying colour unchanged.
#[derive(Clone, Copy, Debug, PartialEq, Eq, Structural)]
pub struct Style {
    pub fg: Option<Color>,
    pub bg: Option<Color>,
    pub add_modifier: Modifier,
    pub sub_modifier: Modifier,
}

/// The style that changes nothing.
pub open spec fn plain_style() -> Style {
    Style {
        fg: None,
        bg: None,
        add_modifier: Modifier { bits: 0 },
        sub_modifier: Modifier { bits: 0 },
    }
}

/// `over` if it is set, else `under`.
pub open spec fn color_over(over: Option<Color>, under: Option<Color>) -> Option<Color> {
    match over {
        Some(c) => Some(c),
        None => under,
    }
}

impl Style {
    /// `self` with `other` laid over it: the colours of `other` win where
    /// set; modifiers that `other` adds are added and those it removes are
    /// removed.
    pub open spec fn patched(self, other: Style) -> Style {
        Style {
            fg: color_over(other.fg, self.fg),
            bg: color_over(other.bg, self.bg),
            add_modifier: Modifier {
                bits: (self.add_modifier.bits & !other.sub_modifier.bits) | other.add_modifier.bits,
            },
            sub_modifier: Modifier {
                bits: (self.sub_modifier.bits & !other.add_modifier.bits) | other.sub_modifier.bits,
            },
        }
    }

    /// The style that changes nothing.
    pub fn new() -> (s: Style)
        ensures
            s == plain_style(),
    {
        Style {
            fg: None,
            bg: None,
            add_modifier: Modifier { bits: 0 },
            sub_modifier: Modifier { bits: 0 },
        }
    }

    /// `self` with the foreground colour set.
    pub fn fg(self, color: Color) -> (s: Style)
        ensures
            s == (Style { fg: Some(color), ..self }),
    {
        Style { fg: Some(color), ..self }
    }

    /// `self` with the background colour set.
    pub fn bg(self, color: Color) -> (s: Style)
        ensures
            s == (Style { bg: Some(color), ..self }),
    {
        Style { bg: Some(color), ..self }
    }

    /// `self` adding the given modifiers (and no longer removing them).
    pub fn add_modifier(self, m: Modifier) -> (s: Style)
        ensures
            s.fg == self.fg,
            s.bg == self.bg,
            s.add_modifier.bits == self.add_modifier.bits | m.bits,
            s.sub_modifier.bits == self.sub_modifier.bits & !m.bits,
    {
        Style {
            add_modifier: Modifier { bits: self.add_modifier.bits | m.bits },
            sub_modifier: Modifier { bits: self.sub_modifier.bits & !m.bits },
            ..self
        }
    }

    /// `self` removing the given modifiers (and no longer adding them).
    pub fn remove_modifier(self, m: Modifier) -> (s: Style)
        ensures
            s.fg == self.fg,
            s.bg == self.bg,
            s.add_modifier.bits == self.add_modifier.bits & !m.bits,
            s.sub_modifier.bits == self.sub_modifier.bits | m.bits,
    {
        Style {
            add_modifier: Modifier { bits: self.add_modifier.bits & !m.bits },
            sub_modifier: Modifier { bits: self.sub_modifier.bits | m.bits },
            ..self
        }
    }

    /// `self` with `other` laid over it.
    pub fn patch(self, other: Style) -> (s: Style)
        ensures
            s == self.patched(other),
    {
        let fg = match other.fg {
            Some(c) => Some(c),
            None => self.fg,
        };
        let bg = match other.bg {
            Some(c) => Some(c),
            None => self.bg,
        };
        Style {
            fg,
            bg,
            add_modifier: Modifier {
                bits: (self.add_modifier.bits & !other.sub_modifier.bits) | other.add_modifier.bits,
            },
            sub_modifier: Modifier {
                bits: (self.sub_modifier.bits & !other.add_modifier.bits) | other.sub_modifier.bits,
            },
        }
    }
}

impl Default for Style {
    fn default() -> (s: Style)
        ensures
            s == plain_style(),
    {
        Style::new()
    }
}

/// Laying the plain style over a style changes nothing.
pub proof fn lemma_patch_plain_right(s: Style)
    ensures
        s.patched(plain_style()) == s,
{
    let a = s.add_modifier.bits;
    let b = s.sub_modifier.bits;
    assert((a & !0u16) | 0u16 == a) by (bit_vector);
    assert((b & !0u16) | 0u16 == b) by (bit_vector);
}

/// Laying a style over the plain style gives that style.
pub proof fn lemma_patch_plain_left(s: Style)
    ensures
        plain_style().patched(s) == s,
{
    let a = s.add_modifier.bits;
    let b = s.sub_modifier.bits;
    assert((0u16 & !b) | a == a) by (bit_vector);
    assert((0u16 & !a) | b == b) by (bit_vector);
}

/// A modifier that the overlaid style adds is present in the result, and
/// one that the underlying style adds survives unless the overlay removes it.
pub proof fn lemma_patch_keeps_added(s: Style, o: Style, m: Modifier)
    ensures
        o.add_modifier.has(m) ==> s.patched(o).add_modifier.has(m),
        s.add_modifier.has(m) && o.sub_modifier.bits & m.bits == 0 ==> s.patched(o).add_modifier.has(m),
{
    let a = s.add_modifier.bits;
    let r = o.sub_modifier.bits;
    let b = o.add_modifier.bits;
    let x = m.bits;
    assert(b & x == x ==> ((a & !r) | b) & x == x) by (bit_vector);
    assert(a & x == x && r & x == 0 ==> ((a & !r) | b) & x == x) by (bit_vector);
}

} // verus!
