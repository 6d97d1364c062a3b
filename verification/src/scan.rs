//! Scanning a byte run with the UTF-8 automaton.
//!
//! The scanner decodes one scalar at a time.  Wherever no well-formed scalar
//! encoding starts, the renderers treat the byte at that position as
//! rejected and resume scanning at the next byte; a maximal run of such
//! positions forms one rejected run.

use vstd::prelude::*;
use vstd::utf8::*;

verus! {

broadcast use vstd::seq::group_seq_axioms;

/// Error from decoding a byte run as UTF-8 text.
#[derive(Clone, Copy, Debug, PartialEq, Eq, Structural)]
pub struct Utf8DecodeError {
    /// Length in bytes of the longest well-formed prefix of the input.
    pub valid_up_to: usize,
}

/// The suffix of `s` that starts at position `i`.
pub open spec fn suffix(s: Seq<u8>, i: int) -> Seq<u8> {
    s.subrange(i, s.len() as int)
}

/// Length in bytes of the longest prefix of `s` made of well-formed scalar
/// encodings.
pub open spec fn utf8_prefix_len(s: Seq<u8>) -> int
    decreases s.len(),
{
    if s.len() == 0 || !valid_first_scalar(s) {
        0
    } else {
        length_of_first_scalar(s) + utf8_prefix_len(pop_first_scalar(s))
    }
}

pub proof fn lemma_prefix_len_bounds(s: Seq<u8>)
    ensures
        0 <= utf8_prefix_len(s) <= s.len(),
    decreases s.len(),
{
    if s.len() != 0 && valid_first_scalar(s) {
        lemma_prefix_len_bounds(pop_first_scalar(s));
    }
}

/// The whole run is well formed exactly when the well-formed prefix covers it.
pub proof fn lemma_valid_iff_prefix_total(s: Seq<u8>)
    ensures
        valid_utf8(s) <==> utf8_prefix_len(s) == s.len(),
    decreases s.len(),
{
    if s.len() != 0 && valid_first_scalar(s) {
        lemma_valid_iff_prefix_total(pop_first_scalar(s));
        lemma_prefix_len_bounds(pop_first_scalar(s));
    }
}

/// Popping the scalar at the front of the suffix at `i` leaves the suffix at
/// `i` advanced by that scalar's length.
pub proof fn lemma_suffix_pop(s: Seq<u8>, i: int)
    requires
        0 <= i <= s.len(),
        valid_first_scalar(suffix(s, i)),
    ensures
        length_of_first_scalar(suffix(s, i)) <= s.len() - i,
        pop_first_scalar(suffix(s, i)) == suffix(s, i + length_of_first_scalar(suffix(s, i))),
{
    let k = length_of_first_scalar(suffix(s, i));
    assert(pop_first_scalar(suffix(s, i)) =~= suffix(s, i + k));
}

/// Dropping one byte of the suffix at `i` gives the suffix at `i + 1`.
pub proof fn lemma_suffix_step(s: Seq<u8>, i: int)
    requires
        0 <= i < s.len(),
    ensures
        suffix(s, i).subrange(1, suffix(s, i).len() as int) == suffix(s, i + 1),
{
    assert(suffix(s, i).subrange(1, suffix(s, i).len() as int) =~= suffix(s, i + 1));
}

/// Encoding a concatenation of character runs encodes each run in place.
pub proof fn lemma_encode_utf8_concat(a: Seq<char>, b: Seq<char>)
    ensures
        encode_utf8(a + b) == encode_utf8(a) + encode_utf8(b),
    decreases a.len(),
{
    if a.len() == 0 {
        assert(a + b =~= b);
        assert(encode_utf8(a) + encode_utf8(b) =~= encode_utf8(b));
    } else {
        assert((a + b).drop_first() =~= a.drop_first() + b);
        lemma_encode_utf8_concat(a.drop_first(), b);
        assert((a + b)[0] == a[0]);
        assert(encode_utf8(a + b) =~= encode_utf8(a) + encode_utf8(b));
    }
}

/// A single character encodes to its scalar's encoding.
pub proof fn lemma_encode_utf8_single(c: char)
    ensures
        encode_utf8(seq![c]) == encode_scalar(c as u32),
{
    let single = seq![c];
    assert(single.len() == 1);
    assert(single[0] == c);
    assert(single.drop_first() =~= Seq::<char>::empty());
    assert(encode_utf8(Seq::<char>::empty()) =~= Seq::<u8>::empty());
    assert(encode_utf8(single) == encode_scalar(c as u32) + encode_utf8(single.drop_first()));
    assert(encode_utf8(single) =~= encode_scalar(c as u32));
}

/// Appending one character to a run appends that character's encoding.
pub proof fn lemma_encode_utf8_snoc(a: Seq<char>, c: char)
    ensures
        encode_utf8(a + seq![c]) == encode_utf8(a) + encode_scalar(c as u32),
{
    lemma_encode_utf8_concat(a, seq![c]);
    lemma_encode_utf8_single(c);
}

/// The bytes of the scalar at the front of `s` form, on their own, a
/// well-formed encoding of that same scalar.
pub proof fn lemma_take_first_scalar_utf8(s: Seq<u8>)
    requires
        valid_first_scalar(s),
    ensures
        valid_first_scalar(take_first_scalar(s)),
        length_of_first_scalar(take_first_scalar(s)) == length_of_first_scalar(s),
        decode_first_scalar(take_first_scalar(s)) == decode_first_scalar(s),
        valid_utf8(take_first_scalar(s)),
{
    let k = length_of_first_scalar(s);
    let t = take_first_scalar(s);
    assert(t.len() == k);
    assert(forall|j: int| 0 <= j < k ==> t[j] == s[j]);
    assert(valid_first_scalar(t));
    assert(pop_first_scalar(t) =~= Seq::<u8>::empty());
    assert(valid_utf8(Seq::<u8>::empty()));
    assert(valid_utf8(t));
}

/// The scalar at the front of `s`, re-encoded, gives back exactly its bytes.
pub proof fn lemma_scalar_bytes(s: Seq<u8>)
    requires
        valid_first_scalar(s),
    ensures
        encode_scalar(((decode_first_scalar(s) as char) as u32)) == take_first_scalar(s),
{
    lemma_take_first_scalar_utf8(s);
    decode_utf8_first_scalar(take_first_scalar(s));
    assert(take_first_scalar(take_first_scalar(s)) =~= take_first_scalar(s));
}

/// Casting a decoded scalar to `char` and back preserves its value.
pub proof fn lemma_decoded_char_value(s: Seq<u8>)
    requires
        valid_first_scalar(s),
    ensures
        ((decode_first_scalar(s) as char) as u32) == decode_first_scalar(s),
{
    let v = decode_first_scalar(s);
    let c = v as char;
    let w = c as u32;
    lemma_scalar_bytes(s);
    lemma_take_first_scalar_utf8(s);
    encode_utf8_first_scalar(seq![c]);
    lemma_encode_utf8_single(c);
    assert(decode_first_scalar(encode_scalar(w)) == w);
    assert(encode_scalar(w) == take_first_scalar(s));
    assert(decode_first_scalar(take_first_scalar(s)) == v);
}

fn is_cont_byte(b: u8) -> (r: bool)
    ensures
        r == is_continuation_byte(b),
{
    0x80 <= b && b <= 0xbf
}

/// Decodes the scalar whose well-formed UTF-8 encoding starts at position `i`
/// of `s`, returning its value and the length of its encoding, or `None` when
/// no well-formed encoding starts there.
pub fn decode_scalar_at(s: &[u8], i: usize) -> (r: Option<(u32, usize)>)
    requires
        i < s@.len(),
    ensures
        match r {
            Some(p) => {
                &&& valid_first_scalar(suffix(s@, i as int))
                &&& p.1 == length_of_first_scalar(suffix(s@, i as int))
                &&& p.0 == decode_first_scalar(suffix(s@, i as int))
                &&& i + p.1 <= s@.len()
                &&& 1 <= p.1 <= 4
                &&& is_scalar(p.0)
            },
            None => !valid_first_scalar(suffix(s@, i as int)),
        },
{
    let n = s.len();
    let rem = n - i;
    let b0 = s[i];
    if b0 < 0x80 {
        proof {
            assert(b0 < 0x80 ==> (b0 & 0x7f) == b0) by (bit_vector);
        }
        Some((b0 as u32, 1))
    } else if b0 < 0xc0 {
        // a continuation byte cannot lead an encoding
        None
    } else if b0 < 0xe0 {
        if rem >= 2 && is_cont_byte(s[i + 1]) {
            let b1 = s[i + 1];
            let v: u32 = (((b0 & 0x1f) as u32) << 6) | ((b1 & 0x3f) as u32);
            proof {
                assert((((b0 & 0x1f) as u32) << 6) | ((b1 & 0x3f) as u32) <= 0x7ff)
                    by (bit_vector);
            }
            if v >= 0x80 {
                Some((v, 2))
            } else {
                None
            }
        } else {
            None
        }
    } else if b0 < 0xf0 {
        if rem >= 3 && is_cont_byte(s[i + 1]) && is_cont_byte(s[i + 2]) {
            let b1 = s[i + 1];
            let b2 = s[i + 2];
            let v: u32 = (((b0 & 0x0f) as u32) << 12) | (((b1 & 0x3f) as u32) << 6) | ((b2
                & 0x3f) as u32);
            proof {
                assert((((b0 & 0x0f) as u32) << 12) | (((b1 & 0x3f) as u32) << 6) | ((b2
                    & 0x3f) as u32) <= 0xffff) by (bit_vector);
            }
            if v >= 0x800 && !(0xd800 <= v && v <= 0xdfff) {
                Some((v, 3))
            } else {
                None
            }
        } else {
            None
        }
    } else if b0 < 0xf8 {
        if rem >= 4 && is_cont_byte(s[i + 1]) && is_cont_byte(s[i + 2]) && is_cont_byte(
            s[i + 3],
        ) {
            let b1 = s[i + 1];
            let b2 = s[i + 2];
            let b3 = s[i + 3];
            let v: u32 = (((b0 & 0x07) as u32) << 18) | (((b1 & 0x3f) as u32) << 12) | (((b2
                & 0x3f) as u32) << 6) | ((b3 & 0x3f) as u32);
            if 0x10000 <= v && v <= 0x10ffff {
                Some((v, 4))
            } else {
                None
            }
        } else {
            None
        }
    } else {
        None
    }
}

/// Length in bytes of the longest well-formed UTF-8 prefix of `s`.
pub fn utf8_valid_prefix(s: &[u8]) -> (r: usize)
    ensures
        r == utf8_prefix_len(s@),
        r <= s@.len(),
{
    let n = s.len();
    let mut i: usize = 0;
    proof {
        assert(suffix(s@, 0) =~= s@);
    }
    while i < n
        invariant
            0 <= i <= n,
            n == s@.len(),
            utf8_prefix_len(s@) == i + utf8_prefix_len(suffix(s@, i as int)),
        decreases n - i,
    {
        match decode_scalar_at(s, i) {
            Some((_v, k)) => {
                proof {
                    lemma_suffix_pop(s@, i as int);
                    lemma_prefix_len_bounds(suffix(s@, (i + k) as int));
                }
                i = i + k;
            },
            None => {
                proof {
                    assert(utf8_prefix_len(suffix(s@, i as int)) == 0);
                }
                return i;
            },
        }
    }
    proof {
        assert(suffix(s@, i as int).len() == 0);
    }
    i
}

/// True when `s` is entirely well-formed UTF-8.
pub fn is_utf8_bytes(s: &[u8]) -> (r: bool)
    ensures
        r == valid_utf8(s@),
{
    proof {
        lemma_valid_iff_prefix_total(s@);
    }
    let p = utf8_valid_prefix(s);
    p == s.len()
}

} // verus!
