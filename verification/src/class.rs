//! Classes of chars that the word motions and deletions go by.
use vstd::prelude::*;

verus! {

/// Whether `char::is_alphanumeric` holds of a non-ASCII `c` (the Unicode
/// Alphabetic property or a numeric general category).
pub uninterp spec fn unicode_alphanumeric(c: char) -> bool;

/// An ASCII letter or digit.
pub open spec fn ascii_alphanumeric(c: char) -> bool {
    ('a' <= c <= 'z') || ('A' <= c <= 'Z') || ('0' <= c <= '9')
}

/// Whether `char::is_alphanumeric` holds of `c`: among ASCII chars exactly
/// the letters and digits have the Alphabetic property or a numeric general
/// category; beyond ASCII the Unicode tables decide.
pub open spec fn alphanumeric(c: char) -> bool {
    if (c as u32) < 0x80 {
        ascii_alphanumeric(c)
    } else {
        unicode_alphanumeric(c)
    }
}

/// The chars with the Unicode White_Space property (PropList.txt), which is
/// what `char::is_whitespace` tests: the controls U+0009 to U+000D, the
/// space, U+0085, the no-break space U+00A0, U+1680, the spaces U+2000 to
/// U+200A, the line and paragraph separators U+2028 and U+2029, U+202F,
/// U+205F and the ideographic space U+3000.
pub open spec fn whitespace(c: char) -> bool {
    let u = c as u32;
    ||| 0x09 <= u <= 0x0d
    ||| u == 0x20
    ||| u == 0x85
    ||| u == 0xa0
    ||| u == 0x1680
    ||| 0x2000 <= u <= 0x200a
    ||| u == 0x2028
    ||| u == 0x2029
    ||| u == 0x202f
    ||| u == 0x205f
    ||| u == 0x3000
}

/// Calls `char::is_alphanumeric`: true of the ASCII letters and digits and
/// of no other ASCII char; beyond ASCII the result is named
/// `unicode_alphanumeric(c)`, as it rests on the Unicode tables that std
/// carries.
#[verifier::external_body]
fn char_is_alphanumeric(c: char) -> (r: bool)
    ensures
        (c as u32) < 0x80 ==> r == ascii_alphanumeric(c),
        (c as u32) >= 0x80 ==> r == unicode_alphanumeric(c),
{
    c.is_alphanumeric()
}

/// Calls `char::is_whitespace`, which holds exactly of the chars with the
/// Unicode White_Space property, as `whitespace` lists them.
#[verifier::external_body]
pub(crate) fn char_is_whitespace(c: char) -> (r: bool)
    ensures
        r == whitespace(c),
{
    c.is_whitespace()
}

/// A word char: alphanumeric or the underscore.
pub open spec fn word_char(c: char) -> bool {
    alphanumeric(c) || c == '_'
}

/// Whether `ch` is a word char: alphanumeric or `_`.
pub fn is_word_char(ch: char) -> (r: bool)
    ensures
        r == word_char(ch),
{
    if (ch as u32) < 0x80 {
        ('a' <= ch && ch <= 'z') || ('A' <= ch && ch <= 'Z') || ('0' <= ch && ch <= '9')
            || ch == '_'
    } else {
        char_is_alphanumeric(ch)
    }
}

} // verus!
