//! Character classes used by the tokenizer.
//!
//! Each class exists twice: as a spec function, which the contracts and the
//! ghost model speak of, and as an executable function proved to agree with
//! it.  Whitespace follows the Unicode `White_Space` list; digits and the
//! characters that may open an identifier are ASCII, while an identifier
//! continues with any Unicode letter or number, named by
//! [`is_unicode_alnum`] and answered by std.

use vstd::prelude::*;

verus! {

/// A whitespace character: the Unicode `White_Space` set.
pub open spec fn is_ws_char(c: char) -> bool {
    ||| c == ' '
    ||| c == '\t'
    ||| c == '\n'
    ||| c == '\r'
    ||| c == '\u{000B}'
    ||| c == '\u{000C}'
    ||| c == '\u{0085}'
    ||| c == '\u{00A0}'
    ||| c == '\u{1680}'
    ||| (0x2000 <= c as u32 && c as u32 <= 0x200A)
    ||| c == '\u{2028}'
    ||| c == '\u{2029}'
    ||| c == '\u{202F}'
    ||| c == '\u{205F}'
    ||| c == '\u{3000}'
}

/// A character that may open an identifier: an ASCII letter or `_`.
pub open spec fn is_ident_start_char(c: char) -> bool {
    ||| ('a' as u32 <= c as u32 && c as u32 <= 'z' as u32)
    ||| ('A' as u32 <= c as u32 && c as u32 <= 'Z' as u32)
    ||| c == '_'
}

/// What `char::is_alphanumeric` returns: whether the character is a Unicode
/// letter or number.  The property is tabular, so it is named rather than
/// written out.
pub uninterp spec fn is_unicode_alnum(c: char) -> bool;

/// A character that may continue an identifier: an ASCII letter, an ASCII
/// digit, `_`, or any Unicode letter or number.
pub open spec fn is_ident_cont_char(c: char) -> bool {
    is_ident_start_char(c) || is_digit_char(c) || is_unicode_alnum(c)
}

/// An ASCII decimal digit.
pub open spec fn is_digit_char(c: char) -> bool {
    '0' as u32 <= c as u32 && c as u32 <= '9' as u32
}

/// An ASCII hexadecimal digit.
pub open spec fn is_hex_digit_char(c: char) -> bool {
    ||| is_digit_char(c)
    ||| ('a' as u32 <= c as u32 && c as u32 <= 'f' as u32)
    ||| ('A' as u32 <= c as u32 && c as u32 <= 'F' as u32)
}

/// A character that may continue a numeric span: a hexadecimal digit or `.`.
/// The span is validated afterwards, so stray hexadecimal letters or extra
/// periods become a lexing error rather than splitting the span.
pub open spec fn is_num_cont_char(c: char) -> bool {
    is_hex_digit_char(c) || c == '.'
}

pub fn is_ws(c: char) -> (r: bool)
    ensures
        r == is_ws_char(c),
{
    let u = c as u32;
    c == ' ' || c == '\t' || c == '\n' || c == '\r' || c == '\u{000B}' || c == '\u{000C}'
        || c == '\u{0085}' || c == '\u{00A0}' || c == '\u{1680}' || (0x2000 <= u && u <= 0x200A)
        || c == '\u{2028}' || c == '\u{2029}' || c == '\u{202F}' || c == '\u{205F}'
        || c == '\u{3000}'
}

pub fn is_ident_start(c: char) -> (r: bool)
    ensures
        r == is_ident_start_char(c),
{
    let u = c as u32;
    ('a' as u32 <= u && u <= 'z' as u32) || ('A' as u32 <= u && u <= 'Z' as u32) || c == '_'
}

/// Relies on `char::is_alphanumeric` from std: whether the character is a
/// Unicode letter or number; the result depends on the character alone.
#[verifier::external_body]
fn is_alphanumeric(c: char) -> (r: bool)
    ensures
        r == is_unicode_alnum(c),
{
    c.is_alphanumeric()
}

pub fn is_ident_cont(c: char) -> (r: bool)
    ensures
        r == is_ident_cont_char(c),
{
    is_ident_start(c) || is_digit(c) || is_alphanumeric(c)
}

pub fn is_digit(c: char) -> (r: bool)
    ensures
        r == is_digit_char(c),
{
    let u = c as u32;
    '0' as u32 <= u && u <= '9' as u32
}

pub fn is_hex_digit(c: char) -> (r: bool)
    ensures
        r == is_hex_digit_char(c),
{
    let u = c as u32;
    is_digit(c) || ('a' as u32 <= u && u <= 'f' as u32) || ('A' as u32 <= u && u <= 'F' as u32)
}

pub fn is_num_cont(c: char) -> (r: bool)
    ensures
        r == is_num_cont_char(c),
{
    is_hex_digit(c) || c == '.'
}

} // verus!
