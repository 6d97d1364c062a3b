//! Trusted bindings to text primitives of the standard library.
//!
//! Everything the crate takes on trust about the standard library stands
//! here: a name for the rendering of `char::escape_debug`, the construction
//! of a character from its scalar value, and the conversion of well-formed
//! UTF-8 bytes into a `String`.

use vstd::prelude::*;
use vstd::utf8::*;

verus! {

/// The characters that `char::escape_debug` yields for `c`.  The rendering
/// depends on Unicode character tables, so it is named rather than spelled
/// out; it is a function of the character alone.
pub uninterp spec fn debug_escape_of(c: char) -> Seq<char>;

/// Relies on `char::escape_debug`: the escaped form of a character depends
/// on that character alone.
#[verifier::external_body]
pub(crate) fn escape_debug_char(c: char) -> (r: String)
    ensures
        r@ == debug_escape_of(c),
{
    format!("{}", c.escape_debug())
}

/// Relies on `char::from_u32`: every Unicode scalar value denotes exactly
/// one character, whose numeric value it is.
#[verifier::external_body]
pub(crate) fn char_from_scalar(v: u32) -> (r: char)
    requires
        is_scalar(v),
    ensures
        r as u32 == v,
{
    match char::from_u32(v) {
        Some(c) => c,
        None => '\u{fffd}',
    }
}

/// Relies on `str::from_utf8`: a byte run that is well-formed UTF-8 is the
/// text holding exactly those bytes, borrowed in place.
#[verifier::external_body]
pub(crate) fn str_from_utf8_bytes(bytes: &[u8]) -> (r: &str)
    requires
        valid_utf8(bytes@),
    ensures
        encode_utf8(r@) == bytes@,
{
    match str::from_utf8(bytes) {
        Ok(s) => s,
        Err(_) => "",
    }
}

/// Relies on `String::from_utf8`: a byte vector that is well-formed UTF-8
/// becomes the string holding exactly those bytes.
#[verifier::external_body]
pub(crate) fn string_from_utf8_bytes(bytes: Vec<u8>) -> (r: String)
    requires
        valid_utf8(bytes@),
    ensures
        encode_utf8(r@) == bytes@,
{
    match String::from_utf8(bytes) {
        Ok(s) => s,
        Err(_) => String::new(),
    }
}

} // verus!
