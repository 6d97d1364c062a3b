//! Byte strings that tolerate arbitrary contents, including bytes that are
//! not valid UTF-8.
//!
//! The crate offers a borrowed view over a run of bytes ([`RawStr`], with
//! [`BStr`] as a lighter variant) and an owned, growable byte buffer
//! ([`BString`]).  Both behave like text strings as far as possible: they can
//! be compared bytewise, decoded to UTF-8 text when their contents permit it,
//! and rendered for diagnostics or for human-readable output.
//!
//! The rendering subsystem is the heart of the crate.  A byte run is split
//! into maximal alternating runs of well-formed UTF-8 and of bytes that the
//! UTF-8 automaton rejects.  The diagnostic rendering escapes every scalar of
//! the well-formed runs and every rejected byte, wrapped in quotes; the
//! readable rendering emits the well-formed runs verbatim and one replacement
//! character per rejected run, and can pad the result to a minimum width,
//! counted in Unicode scalars.

use vstd::prelude::*;

pub mod bstr;
pub mod bstring;
pub mod display;
pub mod escape;
pub mod order;
pub mod raw_str;
pub mod scan;
pub mod support;

pub use bstr::BStr;
pub use bstring::BString;
pub use display::{display_chars, display_render, display_render_padded, display_width, Alignment};
pub use escape::{debug_chars, debug_render};
pub use order::{compare_bytes, eq_bytes, lex_cmp};
pub use raw_str::RawStr;
pub use scan::Utf8DecodeError;

verus! {

/// The Unicode replacement character, U+FFFD.
///
/// This character stands in for each maximal run of rejected bytes when a
/// byte string is rendered as readable text.
pub const UTF8_REPLACEMENT_CHARACTER: char = '\u{FFFD}';

} // verus!
