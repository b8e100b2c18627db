//! The characters that separate words.

use vstd::prelude::*;

verus! {

/// Whether `c` carries the Unicode property `White_Space`.
///
/// These are the 25 code points of that property: the ASCII controls
/// U+0009 to U+000D, the space, NEL, the no-break space, the Ogham space
/// mark, the typographic spaces U+2000 to U+200A, the line and paragraph
/// separators, the narrow no-break space, the medium mathematical space and
/// the ideographic space.
pub open spec fn white_space(c: char) -> bool {
    ||| '\u{0009}' <= c <= '\u{000D}'
    ||| c == '\u{0020}'
    ||| c == '\u{0085}'
    ||| c == '\u{00A0}'
    ||| c == '\u{1680}'
    ||| '\u{2000}' <= c <= '\u{200A}'
    ||| c == '\u{2028}'
    ||| c == '\u{2029}'
    ||| c == '\u{202F}'
    ||| c == '\u{205F}'
    ||| c == '\u{3000}'
}

/// Tests `c` for the property `White_Space`.
pub fn is_whitespace(c: char) -> (r: bool)
    ensures
        r == white_space(c),
{
    if c <= '\u{0020}' {
        c == '\u{0020}' || ('\u{0009}' <= c && c <= '\u{000D}')
    } else if c <= '\u{00A0}' {
        c == '\u{0085}' || c == '\u{00A0}'
    } else if c <= '\u{1680}' {
        c == '\u{1680}'
    } else {
        ('\u{2000}' <= c && c <= '\u{200A}') || c == '\u{2028}' || c == '\u{2029}' || c
            == '\u{202F}' || c == '\u{205F}' || c == '\u{3000}'
    }
}

} // verus!
