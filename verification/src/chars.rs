//! Characters and text: the classes of chars that the lexer goes by, and the
//! passage between text and sequences of chars.

use vstd::prelude::*;
use crate::decimal::is_digit;

verus! {

/// What `char::is_numeric` says of a char outside ASCII.
pub uninterp spec fn unicode_numeric(c: char) -> bool;

/// What `char::is_alphanumeric` says of a char outside ASCII.
pub uninterp spec fn unicode_alphanumeric(c: char) -> bool;

/// What `char::is_whitespace` says of a char outside ASCII.
pub uninterp spec fn unicode_whitespace(c: char) -> bool;

/// What `{:?}` writes for a text: the text in double quotes, with the chars
/// that cannot stand for themselves escaped.
pub uninterp spec fn debug_quoted(s: Seq<char>) -> Seq<char>;

/// An ASCII letter.
pub open spec fn is_letter(c: char) -> bool {
    ('a' <= c <= 'z') || ('A' <= c <= 'Z')
}

/// A char of the ASCII range.
pub open spec fn is_ascii_char(c: char) -> bool {
    (c as u32) < 128
}

/// A char with a numeric general category: in ASCII, the ten digits.
pub open spec fn numeric_char(c: char) -> bool {
    if is_ascii_char(c) {
        is_digit(c)
    } else {
        unicode_numeric(c)
    }
}

/// A char that is alphabetic or numeric: in ASCII, the letters and digits.
pub open spec fn alphanumeric_char(c: char) -> bool {
    if is_ascii_char(c) {
        is_letter(c) || is_digit(c)
    } else {
        unicode_alphanumeric(c)
    }
}

/// A char with the white-space property: in ASCII, the space and the
/// controls from tab to carriage return.
pub open spec fn whitespace_char(c: char) -> bool {
    if is_ascii_char(c) {
        c == ' ' || ('\t' <= c <= '\r')
    } else {
        unicode_whitespace(c)
    }
}

/// `char::is_numeric`: true of the ASCII digits and of no other ASCII char;
/// outside ASCII the answer is only named.
pub assume_specification[ char::is_numeric ](c: char) -> (r: bool)
    ensures
        r == (if is_ascii_char(c) {
            is_digit(c)
        } else {
            unicode_numeric(c)
        }),
;

/// `char::is_alphanumeric`: true of the ASCII letters and digits and of no
/// other ASCII char; outside ASCII the answer is only named.
pub assume_specification[ char::is_alphanumeric ](c: char) -> (r: bool)
    ensures
        r == (if is_ascii_char(c) {
            is_letter(c) || is_digit(c)
        } else {
            unicode_alphanumeric(c)
        }),
;

/// `char::is_whitespace`: in ASCII, true of the space and of the controls
/// U+0009 to U+000D and of nothing else; outside ASCII the answer is only
/// named.
pub assume_specification[ char::is_whitespace ](c: char) -> (r: bool)
    ensures
        r == (if is_ascii_char(c) {
            c == ' ' || ('\t' <= c <= '\r')
        } else {
            unicode_whitespace(c)
        }),
;

/// Formats a text with `{:?}`, as `Debug` for `str` writes it. The contract
/// only names the result.
#[verifier::external_body]
pub(crate) fn debug_quote(s: &str) -> (r: String)
    ensures
        r@ == debug_quoted(s@),
{
    format!("{:?}", s)
}

/// The chars of a text, in order.
pub fn chars_of(s: &str) -> (v: Vec<char>)
    ensures
        v@ == s@,
{
    let mut v: Vec<char> = Vec::new();
    let it = s.chars();
    for c in iter: it
        invariant
            v@ == iter.seq().take(iter.index()),
    {
        v.push(c);
    }
    v
}

/// The text that consists of the given chars.
pub fn text_of(chars: &[char]) -> (s: String)
    ensures
        s@ == chars@,
{
    let mut s = String::new();
    let mut i: usize = 0;
    while i < chars.len()
        invariant
            i <= chars.len(),
            s@ == chars@.take(i as int),
        decreases chars.len() - i,
    {
        s.push(chars[i]);
        assert(chars@.take(i + 1) =~= chars@.take(i as int).push(chars@[i as int]));
        i += 1;
    }
    assert(chars@.take(i as int) =~= chars@);
    s
}

} // verus!
