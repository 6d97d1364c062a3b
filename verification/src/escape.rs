//! Diagnostic rendering of a byte run: a quoted, single-line token in which
//! every well-formed scalar is escaped and every rejected byte appears as a
//! hexadecimal escape.  Rejected bytes are never replaced, so the token
//! identifies the underlying bytes exactly.

use vstd::prelude::*;
use vstd::utf8::*;

use crate::scan::{
    decode_scalar_at, lemma_encode_utf8_concat, lemma_encode_utf8_single, lemma_suffix_pop,
    lemma_suffix_step, suffix,
};
use crate::support::{char_from_scalar, debug_escape_of, escape_debug_char, string_from_utf8_bytes};

verus! {

broadcast use vstd::seq::group_seq_axioms;

/// The lower-case hexadecimal digit for a value below 16.
pub open spec fn hex_digit(v: u8) -> u8 {
    if v < 10 {
        (0x30 + v) as u8
    } else {
        (0x57 + v) as u8
    }
}

/// The ASCII escape of one byte: the named escapes, printable ASCII
/// verbatim, and a two-digit lower-case hexadecimal escape otherwise.
pub open spec fn ascii_escape_bytes(b: u8) -> Seq<u8> {
    if b == 0x09 {
        seq![0x5cu8, 0x74u8]
    } else if b == 0x0d {
        seq![0x5cu8, 0x72u8]
    } else if b == 0x0a {
        seq![0x5cu8, 0x6eu8]
    } else if b == 0x5c {
        seq![0x5cu8, 0x5cu8]
    } else if b == 0x27 {
        seq![0x5cu8, 0x27u8]
    } else if b == 0x22 {
        seq![0x5cu8, 0x22u8]
    } else if 0x20 <= b && b <= 0x7e {
        seq![b]
    } else {
        seq![0x5cu8, 0x78u8, hex_digit(b >> 4), hex_digit(b & 0x0f)]
    }
}

/// A run of ASCII bytes, read as characters.
pub open spec fn bytes_as_chars(bs: Seq<u8>) -> Seq<char> {
    bs.map(|j: int, b: u8| b as char)
}

/// An ASCII byte run encodes in UTF-8 to itself.
pub proof fn lemma_ascii_bytes_chars(bs: Seq<u8>)
    requires
        forall|j: int| 0 <= j < bs.len() ==> bs[j] < 0x80,
    ensures
        encode_utf8(bytes_as_chars(bs)) == bs,
{
    let cs = bytes_as_chars(bs);
    assert(is_ascii_chars(cs));
    is_ascii_chars_encode_utf8(cs);
    assert(encode_utf8(cs) =~= bs);
}

/// Every byte of an ASCII escape is itself ASCII.
proof fn lemma_ascii_escape_bytes_ascii(b: u8)
    ensures
        forall|j: int|
            0 <= j < ascii_escape_bytes(b).len() ==> ascii_escape_bytes(b)[j] < 0x80,
        encode_utf8(bytes_as_chars(ascii_escape_bytes(b))) == ascii_escape_bytes(b),
{
    assert(b >> 4 < 16) by (bit_vector);
    assert(b & 0x0f < 16) by (bit_vector);
    lemma_ascii_bytes_chars(ascii_escape_bytes(b));
}

/// The characters escaping one well-formed scalar of value `v`: `\0` for the
/// null scalar, the ASCII escape for the rest of the ASCII range, and the
/// standard debug escape beyond it.
pub open spec fn escaped_scalar_chars(v: u32) -> Seq<char> {
    if v == 0 {
        bytes_as_chars(seq![0x5cu8, 0x30u8])
    } else if v <= 0x7f {
        bytes_as_chars(ascii_escape_bytes(v as u8))
    } else {
        debug_escape_of(v as char)
    }
}

/// The characters between the quotes of the diagnostic rendering of `s`.
pub open spec fn debug_body_chars(s: Seq<u8>) -> Seq<char>
    decreases s.len(),
{
    if s.len() == 0 {
        Seq::empty()
    } else if valid_first_scalar(s) {
        escaped_scalar_chars(decode_first_scalar(s)) + debug_body_chars(pop_first_scalar(s))
    } else {
        bytes_as_chars(ascii_escape_bytes(s[0])) + debug_body_chars(s.subrange(1, s.len() as int))
    }
}

/// The characters of the diagnostic rendering of `s`, quotes included.
pub open spec fn debug_chars(s: Seq<u8>) -> Seq<char> {
    seq!['"'] + debug_body_chars(s) + seq!['"']
}

proof fn lemma_encode_quote()
    ensures
        encode_utf8(seq!['"']) == seq![0x22u8],
{
    lemma_encode_utf8_single('"');
    assert(('"' as u32) == 0x22);
    assert(((0x22u32 & 0x7f) as u8) == 0x22u8) by (bit_vector);
    assert(encode_scalar(0x22) =~= seq![0x22u8]);
}

/// Appends the ASCII escape of one byte.
fn push_ascii_escape(out: &mut Vec<u8>, b: u8)
    ensures
        final(out)@ == old(out)@ + ascii_escape_bytes(b),
{
    if b == 0x09 {
        out.push(0x5c);
        out.push(0x74);
    } else if b == 0x0d {
        out.push(0x5c);
        out.push(0x72);
    } else if b == 0x0a {
        out.push(0x5c);
        out.push(0x6e);
    } else if b == 0x5c {
        out.push(0x5c);
        out.push(0x5c);
    } else if b == 0x27 {
        out.push(0x5c);
        out.push(0x27);
    } else if b == 0x22 {
        out.push(0x5c);
        out.push(0x22);
    } else if 0x20 <= b && b <= 0x7e {
        out.push(b);
    } else {
        proof {
            assert(b >> 4 < 16) by (bit_vector);
            assert(b & 0x0f < 16) by (bit_vector);
        }
        let hi = b >> 4;
        let lo = b & 0x0f;
        out.push(0x5c);
        out.push(0x78);
        out.push(if hi < 10 {
            0x30 + hi
        } else {
            0x57 + hi
        });
        out.push(if lo < 10 {
            0x30 + lo
        } else {
            0x57 + lo
        });
    }
    proof {
        assert(final(out)@ =~= old(out)@ + ascii_escape_bytes(b));
    }
}

/// The diagnostic rendering of `s`, as UTF-8 bytes.
pub(crate) fn debug_bytes(s: &[u8]) -> (out: Vec<u8>)
    ensures
        out@ == encode_utf8(debug_chars(s@)),
{
    let n = s.len();
    let mut out: Vec<u8> = Vec::new();
    out.push(0x22);
    let ghost mut done: Seq<char> = seq!['"'];
    proof {
        lemma_encode_quote();
        assert(out@ =~= encode_utf8(done));
        assert(suffix(s@, 0) =~= s@);
    }
    let mut i: usize = 0;
    while i < n
        invariant
            i <= n,
            n == s@.len(),
            out@ == encode_utf8(done),
            seq!['"'] + debug_body_chars(s@) == done + debug_body_chars(suffix(s@, i as int)),
        decreases n - i,
    {
        let ghost suf = suffix(s@, i as int);
        match decode_scalar_at(s, i) {
            Some((v, k)) => {
                let ghost esc = escaped_scalar_chars(v);
                if v == 0 {
                    out.push(0x5c);
                    out.push(0x30);
                    proof {
                        lemma_ascii_bytes_chars(seq![0x5cu8, 0x30u8]);
                        assert(out@ =~= encode_utf8(done) + encode_utf8(esc));
                    }
                } else if v < 0x80 {
                    push_ascii_escape(&mut out, v as u8);
                    proof {
                        lemma_ascii_escape_bytes_ascii(v as u8);
                        assert(out@ =~= encode_utf8(done) + encode_utf8(esc));
                    }
                } else {
                    let c = char_from_scalar(v);
                    let e = escape_debug_char(c);
                    out.extend_from_slice(e.as_str().as_bytes());
                    proof {
                        char_u32_cast(c, v);
                        assert(e@ == debug_escape_of(v as char));
                        assert(out@ =~= encode_utf8(done) + encode_utf8(esc));
                    }
                }
                proof {
                    lemma_suffix_pop(s@, i as int);
                    lemma_encode_utf8_concat(done, esc);
                    assert(debug_body_chars(suf) == esc + debug_body_chars(suffix(s@, i + k)));
                    done = done + esc;
                    assert(seq!['"'] + debug_body_chars(s@) == done + debug_body_chars(
                        suffix(s@, i + k),
                    ));
                }
                i = i + k;
            },
            None => {
                let b = s[i];
                let ghost esc = bytes_as_chars(ascii_escape_bytes(b));
                push_ascii_escape(&mut out, b);
                proof {
                    lemma_ascii_escape_bytes_ascii(b);
                    lemma_suffix_step(s@, i as int);
                    lemma_encode_utf8_concat(done, esc);
                    assert(suf[0] == b);
                    assert(debug_body_chars(suf) == esc + debug_body_chars(suffix(s@, i + 1)));
                    done = done + esc;
                    assert(out@ =~= encode_utf8(done));
                }
                i = i + 1;
            },
        }
    }
    out.push(0x22);
    proof {
        assert(debug_body_chars(suffix(s@, i as int)) =~= Seq::<char>::empty());
        lemma_encode_quote();
        lemma_encode_utf8_concat(done, seq!['"']);
        done = done + seq!['"'];
        assert(out@ =~= encode_utf8(done));
        assert(debug_chars(s@) =~= done);
    }
    out
}

/// True for a lower-case hexadecimal digit character.
pub open spec fn is_hex_char(c: char) -> bool {
    (0x30 <= c as u32 && c as u32 <= 0x39) || (0x61 <= c as u32 && c as u32 <= 0x66)
}

/// The value of a lower-case hexadecimal digit character.
pub open spec fn hex_char_value(c: char) -> int {
    if c as u32 <= 0x39 {
        c as u32 - 0x30
    } else {
        c as u32 - 0x57
    }
}

/// Reads a diagnostic token body back into bytes under the documented
/// escape grammar, or `None` where the characters do not follow it.
pub open spec fn unescape_debug(cs: Seq<char>) -> Option<Seq<u8>>
    decreases cs.len(),
{
    if cs.len() == 0 {
        Some(Seq::empty())
    } else if cs[0] == '\\' {
        if cs.len() < 2 {
            None
        } else if cs[1] == 'x' {
            if cs.len() >= 4 && is_hex_char(cs[2]) && is_hex_char(cs[3]) {
                match unescape_debug(cs.subrange(4, cs.len() as int)) {
                    Some(rest) => Some(
                        seq![(16 * hex_char_value(cs[2]) + hex_char_value(cs[3])) as u8] + rest,
                    ),
                    None => None,
                }
            } else {
                None
            }
        } else if cs[1] == '0' || cs[1] == 't' || cs[1] == 'r' || cs[1] == 'n' || cs[1] == '\\'
            || cs[1] == '\'' || cs[1] == '"' {
            let b: u8 = if cs[1] == '0' {
                0x00
            } else if cs[1] == 't' {
                0x09
            } else if cs[1] == 'r' {
                0x0d
            } else if cs[1] == 'n' {
                0x0a
            } else if cs[1] == '\\' {
                0x5c
            } else if cs[1] == '\'' {
                0x27
            } else {
                0x22
            };
            match unescape_debug(cs.subrange(2, cs.len() as int)) {
                Some(rest) => Some(seq![b] + rest),
                None => None,
            }
        } else {
            None
        }
    } else if 0x20 <= cs[0] as u32 && cs[0] as u32 <= 0x7e && cs[0] != '"' {
        match unescape_debug(cs.subrange(1, cs.len() as int)) {
            Some(rest) => Some(seq![cs[0] as u8] + rest),
            None => None,
        }
    } else {
        None
    }
}

/// True when every well-formed scalar of `s` lies in the ASCII range, so
/// that the diagnostic rendering of `s` uses no Unicode escape table.
pub open spec fn debug_ascii_only(s: Seq<u8>) -> bool
    decreases s.len(),
{
    if s.len() == 0 {
        true
    } else if valid_first_scalar(s) {
        decode_first_scalar(s) <= 0x7f && debug_ascii_only(pop_first_scalar(s))
    } else {
        debug_ascii_only(s.subrange(1, s.len() as int))
    }
}

proof fn lemma_unescape_ascii_escape(b: u8, rest: Seq<char>, tail: Seq<u8>)
    requires
        unescape_debug(rest) == Some(tail),
    ensures
        unescape_debug(bytes_as_chars(ascii_escape_bytes(b)) + rest) == Some(seq![b] + tail),
{
    let tok = bytes_as_chars(ascii_escape_bytes(b));
    let cs = tok + rest;
    if b == 0x09 || b == 0x0d || b == 0x0a || b == 0x5c || b == 0x27 || b == 0x22 {
        assert(cs[0] == '\\');
        assert(cs.subrange(2, cs.len() as int) =~= rest);
        assert(unescape_debug(cs) == Some(seq![b] + tail));
    } else if 0x20 <= b && b <= 0x7e {
        assert(cs[0] == (b as char));
        assert(cs[0] as u32 == b);
        assert(cs[0] != '\\');
        assert(cs[0] != '"');
        assert(cs[0] as u8 == b);
        assert(cs.subrange(1, cs.len() as int) =~= rest);
        assert(unescape_debug(cs) == Some(seq![b] + tail));
    } else {
        let hi = b >> 4;
        let lo = b & 0x0f;
        assert(b >> 4 < 16 && b & 0x0f < 16) by (bit_vector);
        assert(cs[0] == '\\');
        assert(cs[1] == 'x');
        assert(cs[2] == (hex_digit(hi) as char));
        assert(cs[3] == (hex_digit(lo) as char));
        assert(is_hex_char(cs[2]));
        assert(is_hex_char(cs[3]));
        assert(hex_char_value(cs[2]) == hi);
        assert(hex_char_value(cs[3]) == lo);
        assert((b >> 4) * 16 + (b & 0x0f) == b) by (bit_vector);
        assert((16 * hex_char_value(cs[2]) + hex_char_value(cs[3])) as u8 == b);
        assert(cs.subrange(4, cs.len() as int) =~= rest);
        assert(unescape_debug(cs) == Some(seq![b] + tail));
    }
}

proof fn lemma_unescape_null(rest: Seq<char>, tail: Seq<u8>)
    requires
        unescape_debug(rest) == Some(tail),
    ensures
        unescape_debug(bytes_as_chars(seq![0x5cu8, 0x30u8]) + rest) == Some(seq![0u8] + tail),
{
    let tok = bytes_as_chars(seq![0x5cu8, 0x30u8]);
    let cs = tok + rest;
    assert(cs[0] == '\\');
    assert(cs[1] == '0');
    assert(cs.subrange(2, cs.len() as int) =~= rest);
    assert(unescape_debug(cs) == Some(seq![0u8] + tail));
}

/// The diagnostic rendering loses nothing: its body, read back under the
/// escape grammar, reconstructs the bytes exactly.  Stated for byte runs
/// whose well-formed scalars are ASCII; beyond ASCII the rendering follows
/// the named Unicode debug escape, about which nothing further is assumed.
pub proof fn lemma_debug_loss_free(s: Seq<u8>)
    requires
        debug_ascii_only(s),
    ensures
        unescape_debug(debug_body_chars(s)) == Some(s),
    decreases s.len(),
{
    if s.len() == 0 {
        assert(s =~= Seq::<u8>::empty());
    } else if valid_first_scalar(s) {
        let v = decode_first_scalar(s);
        let b0 = s[0];
        let rest_bytes = pop_first_scalar(s);
        lemma_debug_loss_free(rest_bytes);
        assert(b0 <= 0x7f ==> (b0 & 0x7f) == b0) by (bit_vector);
        assert(length_of_first_scalar(s) == 1);
        assert(v == b0);
        if v == 0 {
            lemma_unescape_null(debug_body_chars(rest_bytes), rest_bytes);
        } else {
            lemma_unescape_ascii_escape(v as u8, debug_body_chars(rest_bytes), rest_bytes);
        }
        assert(seq![v as u8] + rest_bytes =~= s);
    } else {
        let rest_bytes = s.subrange(1, s.len() as int);
        lemma_debug_loss_free(rest_bytes);
        lemma_unescape_ascii_escape(s[0], debug_body_chars(rest_bytes), rest_bytes);
        assert(seq![s[0]] + rest_bytes =~= s);
    }
}

/// The diagnostic rendering of `s`: a quoted, escaped, single-line token.
pub fn debug_render(s: &[u8]) -> (r: String)
    ensures
        r@ == debug_chars(s@),
{
    let bytes = debug_bytes(s);
    proof {
        encode_utf8_valid_utf8(debug_chars(s@));
    }
    let r = string_from_utf8_bytes(bytes);
    proof {
        encode_utf8_decode_utf8(r@);
        encode_utf8_decode_utf8(debug_chars(s@));
    }
    r
}

} // verus!
