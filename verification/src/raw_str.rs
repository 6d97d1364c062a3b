//! A borrowed string slice that may or may not hold well-formed UTF-8.

use vstd::prelude::*;
use vstd::utf8::*;

use crate::display::{
    display_chars, display_padded_chars, display_render, display_render_padded, display_width,
    Alignment,
};
use crate::escape::{debug_chars, debug_render};
use crate::order::{compare_bytes, eq_bytes, lex_cmp};
use crate::scan::{
    is_utf8_bytes, lemma_valid_iff_prefix_total, utf8_prefix_len, utf8_valid_prefix,
    Utf8DecodeError,
};
use crate::support::str_from_utf8_bytes;
use core::cmp::Ordering;

verus! {

broadcast use vstd::seq::group_seq_axioms;

/// A borrowed run of bytes treated as a string that tolerates contents that
/// are not well-formed UTF-8.  The view of a `RawStr` is exactly the
/// underlying byte run.
#[derive(Clone, Copy, Eq, Hash)]
pub struct RawStr<'a> {
    bytes: &'a [u8],
}

impl<'a> View for RawStr<'a> {
    type V = Seq<u8>;

    closed spec fn view(&self) -> Seq<u8> {
        self.bytes@
    }
}

impl<'a> RawStr<'a> {
    /// Wraps a byte run; the wrapper has the same length and the same byte
    /// at every index as the run it wraps.
    pub fn new(bytes: &'a [u8]) -> (r: Self)
        ensures
            r@ == bytes@,
    {
        RawStr { bytes }
    }

    /// Wraps a byte run, as [`RawStr::new`] does.
    pub fn from_bytes(bytes: &'a [u8]) -> (r: Self)
        ensures
            r@ == bytes@,
    {
        RawStr { bytes }
    }

    /// The underlying byte run.
    pub fn as_bytes(&self) -> (r: &'a [u8])
        ensures
            r@ == self@,
    {
        self.bytes
    }

    /// Length in bytes.
    pub fn len(&self) -> (r: usize)
        ensures
            r == self@.len(),
    {
        self.bytes.len()
    }

    /// True when the run holds no bytes.
    pub fn is_empty(&self) -> (r: bool)
        ensures
            r == (self@.len() == 0),
    {
        self.bytes.len() == 0
    }

    /// Decodes the run as borrowed UTF-8 text.  Succeeds exactly when the
    /// run is well formed, returning the text that encodes back to the same
    /// bytes; fails otherwise, reporting the length of the longest
    /// well-formed prefix.
    pub fn to_utf8(&self) -> (r: Result<&'a str, Utf8DecodeError>)
        ensures
            r is Ok <==> valid_utf8(self@),
            r is Ok ==> encode_utf8(r->Ok_0@) == self@ && r->Ok_0@ == decode_utf8(self@),
            r is Err ==> r->Err_0.valid_up_to == utf8_prefix_len(self@),
    {
        let p = utf8_valid_prefix(self.bytes);
        proof {
            lemma_valid_iff_prefix_total(self@);
        }
        if p == self.bytes.len() {
            let s = str_from_utf8_bytes(self.bytes);
            proof {
                encode_utf8_decode_utf8(s@);
                decode_utf8_encode_utf8(self@);
            }
            Ok(s)
        } else {
            Err(Utf8DecodeError { valid_up_to: p })
        }
    }

    /// True when the run is well-formed UTF-8.
    pub fn is_utf8(&self) -> (r: bool)
        ensures
            r == valid_utf8(self@),
    {
        is_utf8_bytes(self.bytes)
    }

    /// The diagnostic rendering: a quoted token escaping every scalar and
    /// every rejected byte.
    pub fn to_debug_string(&self) -> (r: String)
        ensures
            r@ == debug_chars(self@),
    {
        debug_render(self.bytes)
    }

    /// The readable rendering: well-formed runs verbatim, one replacement
    /// character per maximal rejected run.
    pub fn to_display_string(&self) -> (r: String)
        ensures
            r@ == display_chars(self@),
    {
        display_render(self.bytes)
    }

    /// The readable rendering padded to at least `width` visible characters
    /// with `fill`, placed according to `align`.
    pub fn to_display_string_padded(&self, align: Alignment, width: usize, fill: char) -> (r:
        String)
        ensures
            r@ == display_padded_chars(self@, align, width as int, fill),
    {
        display_render_padded(self.bytes, align, width, fill)
    }

    /// The visible length of the readable rendering, in Unicode scalars.
    pub fn display_len(&self) -> (r: usize)
        ensures
            r == display_chars(self@).len(),
    {
        display_width(self.bytes)
    }

    /// Bytewise equality against any byte run.
    pub fn eq_bytes(&self, other: &[u8]) -> (r: bool)
        ensures
            r == (self@ == other@),
    {
        eq_bytes(self.bytes, other)
    }

    /// Byte-lexicographic comparison against any byte run.
    pub fn cmp_bytes(&self, other: &[u8]) -> (r: Ordering)
        ensures
            r == lex_cmp(self@, other@),
    {
        compare_bytes(self.bytes, other)
    }

    /// Byte-lexicographic comparison with another wrapped run.
    pub fn compare(&self, other: &RawStr<'_>) -> (r: Ordering)
        ensures
            r == lex_cmp(self@, other@),
    {
        compare_bytes(self.bytes, other.bytes)
    }
}

impl<'a> PartialEq for RawStr<'a> {
    /// Equality is byte equality.
    fn eq(&self, other: &RawStr<'a>) -> (r: bool) {
        eq_bytes(self.bytes, other.bytes)
    }
}

impl<'a> vstd::std_specs::cmp::PartialEqSpecImpl for RawStr<'a> {
    open spec fn obeys_eq_spec() -> bool {
        true
    }

    open spec fn eq_spec(&self, other: &RawStr<'a>) -> bool {
        self@ == other@
    }
}

impl<'a> PartialOrd for RawStr<'a> {
    /// Ordering is byte-lexicographic ordering of the underlying bytes.
    fn partial_cmp(&self, other: &RawStr<'a>) -> (r: Option<Ordering>) {
        Some(compare_bytes(self.bytes, other.bytes))
    }
}

impl<'a> vstd::std_specs::cmp::PartialOrdSpecImpl for RawStr<'a> {
    open spec fn obeys_partial_cmp_spec() -> bool {
        true
    }

    open spec fn partial_cmp_spec(&self, other: &RawStr<'a>) -> Option<Ordering> {
        Some(lex_cmp(self@, other@))
    }
}

} // verus!
