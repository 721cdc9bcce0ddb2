//! Unicode text measurement: display widths (unicode-width), grapheme
//! clusters (unicode-segmentation) and the White_Space property of `char`
//! (the fixed list of characters that std's `char::is_whitespace` accepts).

use vstd::prelude::*;

use unicode_segmentation::UnicodeSegmentation;
use unicode_width::UnicodeWidthStr;

verus! {

/// The display width, in terminal cells, that unicode-width assigns to a
/// string (ambiguous-width characters count as one cell).
pub uninterp spec fn display_width(s: Seq<char>) -> nat;

/// The extended grapheme clusters into which unicode-segmentation splits a
/// string, in order.
pub uninterp spec fn grapheme_clusters(s: Seq<char>) -> Seq<Seq<char>>;

/// Whether a character has the Unicode `White_Space` property, as std's
/// `char::is_whitespace` classifies it: the ASCII controls U+0009 to
/// U+000D, the space, U+0085, the no-break space, U+1680, U+2000 to
/// U+200A, the line and paragraph separators, U+202F, U+205F and U+3000.
pub open spec fn white_space(c: char) -> bool {
    let n = c as u32;
    ||| 0x9 <= n <= 0xD
    ||| n == 0x20
    ||| n == 0x85
    ||| n == 0xA0
    ||| n == 0x1680
    ||| 0x2000 <= n <= 0x200A
    ||| n == 0x2028
    ||| n == 0x2029
    ||| n == 0x202F
    ||| n == 0x205F
    ||| n == 0x3000
}

/// `UnicodeWidthStr::width` of unicode-width. The contract claims only that
/// the result is the width that unicode-width computes for these characters.
#[verifier::external_body]
pub fn str_width(s: &str) -> (w: usize)
    ensures
        w as nat == display_width(s@),
{
    UnicodeWidthStr::width(s)
}

/// `UnicodeSegmentation::graphemes(s, true)` of unicode-segmentation, each
/// cluster copied into a `String`. The contract claims that the clusters are
/// the ones unicode-segmentation computes for these characters, in order.
#[verifier::external_body]
pub fn graphemes(s: &str) -> (gs: Vec<String>)
    ensures
        gs@.len() == grapheme_clusters(s@).len(),
        forall|i: int| 0 <= i < gs@.len() ==> #[trigger] gs@[i]@ == grapheme_clusters(s@)[i],
{
    UnicodeSegmentation::graphemes(s, true).map(|g| g.to_string()).collect()
}

/// Whether a character has the Unicode `White_Space` property.
pub fn char_is_whitespace(c: char) -> (b: bool)
    ensures
        b == white_space(c),
{
    let n = c as u32;
    (0x9 <= n && n <= 0xD) || n == 0x20 || n == 0x85 || n == 0xA0 || n == 0x1680 || (0x2000 <= n && n <= 0x200A)
        || n == 0x2028 || n == 0x2029 || n == 0x202F || n == 0x205F || n == 0x3000
}

} // verus!
