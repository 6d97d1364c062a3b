//! An owned, growable sequence of bytes with string-like behaviour.

use vstd::prelude::*;
use vstd::utf8::*;

use crate::bstr::BStr;
use crate::display::{
    display_chars, display_padded_chars, display_render, display_render_padded, Alignment,
};
use crate::escape::{debug_chars, debug_render};
use crate::order::{compare_bytes, eq_bytes, lex_cmp};
use crate::scan::{lemma_valid_iff_prefix_total, utf8_prefix_len, utf8_valid_prefix,
    Utf8DecodeError};
use crate::support::string_from_utf8_bytes;
use core::cmp::Ordering;

verus! {

broadcast use vstd::seq::group_seq_axioms;

/// An owned, growable run of bytes that tolerates contents that are not
/// well-formed UTF-8.  The view of a `BString` is exactly the bytes it
/// holds.
#[derive(Eq, Hash)]
pub struct BString {
    bytes: Vec<u8>,
}

impl Default for BString {
    /// The empty buffer.
    fn default() -> (r: Self)
        ensures
            r@ == Seq::<u8>::empty(),
    {
        BString { bytes: Vec::new() }
    }
}

impl View for BString {
    type V = Seq<u8>;

    closed spec fn view(&self) -> Seq<u8> {
        self.bytes@
    }
}

impl BString {
    /// Takes ownership of a byte vector; the buffer holds the same length
    /// and the same byte at every index as the vector it was built from.
    pub fn new(bytes: Vec<u8>) -> (r: Self)
        ensures
            r@ == bytes@,
    {
        BString { bytes }
    }

    /// Takes ownership of a byte vector, as [`BString::new`] does.
    pub fn from_bytes(bytes: Vec<u8>) -> (r: Self)
        ensures
            r@ == bytes@,
    {
        BString { bytes }
    }

    /// Copies a byte run into a new buffer.
    pub fn from_slice(bytes: &[u8]) -> (r: Self)
        ensures
            r@ == bytes@,
    {
        BString { bytes: vstd::slice::slice_to_vec(bytes) }
    }

    /// A borrowed view over the buffer's contents.
    pub fn as_bstr(&self) -> (r: BStr<'_>)
        ensures
            r@ == self@,
    {
        BStr::new(self.bytes.as_slice())
    }

    /// The bytes the buffer holds.
    pub fn as_bytes(&self) -> (r: &[u8])
        ensures
            r@ == self@,
    {
        self.bytes.as_slice()
    }

    /// Gives the byte vector back.
    pub fn into_bytes(self) -> (r: Vec<u8>)
        ensures
            r@ == self@,
    {
        self.bytes
    }

    /// Length in bytes.
    pub fn len(&self) -> (r: usize)
        ensures
            r == self@.len(),
    {
        self.bytes.len()
    }

    /// True when the buffer holds no bytes.
    pub fn is_empty(&self) -> (r: bool)
        ensures
            r == (self@.len() == 0),
    {
        self.bytes.len() == 0
    }

    /// Appends one byte.
    pub fn push(&mut self, b: u8)
        ensures
            final(self)@ == old(self)@.push(b),
    {
        self.bytes.push(b);
    }

    /// Decodes the buffer as UTF-8 text, consuming it.  Succeeds exactly
    /// when the contents are well formed, returning the text that encodes
    /// back to the same bytes; fails otherwise, reporting the length of the
    /// longest well-formed prefix.
    pub fn into_utf8(self) -> (r: Result<String, Utf8DecodeError>)
        ensures
            r is Ok <==> valid_utf8(self@),
            r is Ok ==> encode_utf8(r->Ok_0@) == self@ && r->Ok_0@ == decode_utf8(self@),
            r is Err ==> r->Err_0.valid_up_to == utf8_prefix_len(self@),
    {
        let p = utf8_valid_prefix(self.bytes.as_slice());
        proof {
            lemma_valid_iff_prefix_total(self@);
        }
        if p == self.bytes.len() {
            let s = string_from_utf8_bytes(self.bytes);
            proof {
                encode_utf8_decode_utf8(s@);
                decode_utf8_encode_utf8(self@);
            }
            Ok(s)
        } else {
            Err(Utf8DecodeError { valid_up_to: p })
        }
    }

    /// The diagnostic rendering: a quoted token escaping every scalar and
    /// every rejected byte.
    pub fn to_debug_string(&self) -> (r: String)
        ensures
            r@ == debug_chars(self@),
    {
        debug_render(self.bytes.as_slice())
    }

    /// The readable rendering: well-formed runs verbatim, one replacement
    /// character per maximal rejected run.
    pub fn to_display_string(&self) -> (r: String)
        ensures
            r@ == display_chars(self@),
    {
        display_render(self.bytes.as_slice())
    }

    /// The readable rendering padded to at least `width` visible characters
    /// with `fill`, placed according to `align`.
    pub fn to_display_string_padded(&self, align: Alignment, width: usize, fill: char) -> (r:
        String)
        ensures
            r@ == display_padded_chars(self@, align, width as int, fill),
    {
        display_render_padded(self.bytes.as_slice(), align, width, fill)
    }

    /// Bytewise equality against any byte run.
    pub fn eq_bytes(&self, other: &[u8]) -> (r: bool)
        ensures
            r == (self@ == other@),
    {
        eq_bytes(self.bytes.as_slice(), other)
    }

    /// Byte-lexicographic comparison with another buffer.
    pub fn compare(&self, other: &BString) -> (r: Ordering)
        ensures
            r == lex_cmp(self@, other@),
    {
        compare_bytes(self.bytes.as_slice(), other.bytes.as_slice())
    }
}

impl PartialEq for BString {
    /// Equality is byte equality.
    fn eq(&self, other: &BString) -> (r: bool) {
        eq_bytes(self.bytes.as_slice(), other.bytes.as_slice())
    }
}

impl vstd::std_specs::cmp::PartialEqSpecImpl for BString {
    open spec fn obeys_eq_spec() -> bool {
        true
    }

    open spec fn eq_spec(&self, other: &BString) -> bool {
        self@ == other@
    }
}

impl PartialOrd for BString {
    /// Ordering is byte-lexicographic ordering of the underlying bytes.
    fn partial_cmp(&self, other: &BString) -> (r: Option<Ordering>) {
        Some(compare_bytes(self.bytes.as_slice(), other.bytes.as_slice()))
    }
}

impl vstd::std_specs::cmp::PartialOrdSpecImpl for BString {
    open spec fn obeys_partial_cmp_spec() -> bool {
        true
    }

    open spec fn partial_cmp_spec(&self, other: &BString) -> Option<Ordering> {
        Some(lex_cmp(self@, other@))
    }
}

} // verus!
