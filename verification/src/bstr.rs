//! A transparent view over a slice of bytes.

use vstd::prelude::*;

use crate::display::{
    display_chars, display_padded_chars, display_render, display_render_padded, Alignment,
};
use crate::escape::{debug_chars, debug_render};
use crate::order::{compare_bytes, eq_bytes, lex_cmp};
use core::cmp::Ordering;

verus! {

broadcast use vstd::seq::group_seq_axioms;

/// A borrowed run of bytes with string-like behaviour: bytewise comparison
/// and the two renderings.  The view of a `BStr` is exactly the underlying
/// byte run.
#[derive(Clone, Copy, Eq, Hash)]
pub struct BStr<'a> {
    bytes: &'a [u8],
}

impl<'a> View for BStr<'a> {
    type V = Seq<u8>;

    closed spec fn view(&self) -> Seq<u8> {
        self.bytes@
    }
}

impl<'a> BStr<'a> {
    /// Wraps a byte run; the wrapper has the same length and the same byte
    /// at every index as the run it wraps.
    pub fn new(bytes: &'a [u8]) -> (r: Self)
        ensures
            r@ == bytes@,
    {
        BStr { bytes }
    }

    /// Wraps a byte run, as [`BStr::new`] does.
    pub fn from_bytes(bytes: &'a [u8]) -> (r: Self)
        ensures
            r@ == bytes@,
    {
        BStr { bytes }
    }

    /// The underlying byte run.
    pub fn as_bytes(&self) -> (r: &'a [u8])
        ensures
            r@ == self@,
    {
        self.bytes
    }

    /// Length in bytes.
    pub fn len(&self) -> (r: usize)
        ensures
            r == self@.len(),
    {
        self.bytes.len()
    }

    /// The diagnostic rendering: a quoted token escaping every scalar and
    /// every rejected byte.
    pub fn to_debug_string(&self) -> (r: String)
        ensures
            r@ == debug_chars(self@),
    {
        debug_render(self.bytes)
    }

    /// The readable rendering: well-formed runs verbatim, one replacement
    /// character per maximal rejected run.
    pub fn to_display_string(&self) -> (r: String)
        ensures
            r@ == display_chars(self@),
    {
        display_render(self.bytes)
    }

    /// The readable rendering padded to at least `width` visible characters
    /// with `fill`, placed according to `align`.
    pub fn to_display_string_padded(&self, align: Alignment, width: usize, fill: char) -> (r:
        String)
        ensures
            r@ == display_padded_chars(self@, align, width as int, fill),
    {
        display_render_padded(self.bytes, align, width, fill)
    }

    /// Bytewise equality against any byte run.
    pub fn eq_bytes(&self, other: &[u8]) -> (r: bool)
        ensures
            r == (self@ == other@),
    {
        eq_bytes(self.bytes, other)
    }

    /// Byte-lexicographic comparison with another wrapped run.
    pub fn compare(&self, other: &BStr<'_>) -> (r: Ordering)
        ensures
            r == lex_cmp(self@, other@),
    {
        compare_bytes(self.bytes, other.bytes)
    }
}

impl<'a> PartialEq for BStr<'a> {
    /// Equality is byte equality.
    fn eq(&self, other: &BStr<'a>) -> (r: bool) {
        eq_bytes(self.bytes, other.bytes)
    }
}

impl<'a> vstd::std_specs::cmp::PartialEqSpecImpl for BStr<'a> {
    open spec fn obeys_eq_spec() -> bool {
        true
    }

    open spec fn eq_spec(&self, other: &BStr<'a>) -> bool {
        self@ == other@
    }
}

impl<'a> PartialOrd for BStr<'a> {
    /// Ordering is byte-lexicographic ordering of the underlying bytes.
    fn partial_cmp(&self, other: &BStr<'a>) -> (r: Option<Ordering>) {
        Some(compare_bytes(self.bytes, other.bytes))
    }
}

impl<'a> vstd::std_specs::cmp::PartialOrdSpecImpl for BStr<'a> {
    open spec fn obeys_partial_cmp_spec() -> bool {
        true
    }

    open spec fn partial_cmp_spec(&self, other: &BStr<'a>) -> Option<Ordering> {
        Some(lex_cmp(self@, other@))
    }
}

} // verus!
