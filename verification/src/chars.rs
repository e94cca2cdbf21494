//! Character classes of the scanner.

use vstd::prelude::*;

verus! {

/// Whether `c` has the Unicode `Alphabetic` property, as `char::is_alphabetic` decides it.
pub uninterp spec fn alphabetic(c: char) -> bool;

/// Whether `c` is numeric in Unicode's sense (one of the general categories
/// `Nd`, `Nl` and `No`), as `char::is_numeric` decides it.
pub uninterp spec fn numeric(c: char) -> bool;

/// Whether `c` has the Unicode `White_Space` property, as `char::is_whitespace` decides it.
pub uninterp spec fn whitespace(c: char) -> bool;

/// `char::is_alphabetic` is a function of the character alone; its result is
/// given the name [`alphabetic`] and nothing more is claimed of it.
pub assume_specification[ char::is_alphabetic ](c: char) -> (b: bool)
    ensures
        b == alphabetic(c),
;

/// `char::is_alphanumeric` holds, by its documentation, of exactly the
/// characters of which `char::is_alphabetic` or `char::is_numeric` holds.
/// The latter's result is given the name [`numeric`].
pub assume_specification[ char::is_alphanumeric ](c: char) -> (b: bool)
    ensures
        b == (alphabetic(c) || numeric(c)),
;

/// `char::is_whitespace` is a function of the character alone; its result is
/// given the name [`whitespace`] and nothing more is claimed of it.
pub assume_specification[ char::is_whitespace ](c: char) -> (b: bool)
    ensures
        b == whitespace(c),
;

/// A decimal digit, `0` to `9`.
pub open spec fn digit(c: char) -> bool {
    '0' <= c && c <= '9'
}

/// A character that may start a number literal: a digit or a dot.
pub open spec fn number_start(c: char) -> bool {
    digit(c) || c == '.'
}

/// A character that may start an identifier: an alphabetic one or an underscore.
pub open spec fn identifier_start(c: char) -> bool {
    alphabetic(c) || c == '_'
}

/// A character that may continue an identifier: an alphabetic or numeric
/// one, or an underscore.
pub open spec fn identifier_part(c: char) -> bool {
    alphabetic(c) || numeric(c) || c == '_'
}

/// Decides [`digit`].
pub fn is_digit(c: char) -> (b: bool)
    ensures
        b == digit(c),
{
    '0' <= c && c <= '9'
}

/// Decides [`identifier_start`].
pub fn is_identifier_start(c: char) -> (b: bool)
    ensures
        b == identifier_start(c),
{
    c.is_alphabetic() || c == '_'
}

/// Decides [`identifier_part`].
pub fn is_identifier_part(c: char) -> (b: bool)
    ensures
        b == identifier_part(c),
{
    c.is_alphanumeric() || c == '_'
}

} // verus!
