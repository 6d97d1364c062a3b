//! Readable rendering of a byte run.
//!
//! Well-formed scalars are emitted verbatim; each maximal run of rejected
//! bytes is replaced by a single replacement character.  A render can be
//! padded to a minimum width with a fill character, where width is counted
//! in Unicode scalars: one per decoded scalar, one per rejected run.

use vstd::prelude::*;
use vstd::utf8::*;

use crate::scan::{
    decode_scalar_at, lemma_decoded_char_value, lemma_encode_utf8_concat, lemma_encode_utf8_snoc,
    lemma_scalar_bytes, lemma_suffix_pop, lemma_suffix_step, suffix,
};
use crate::support::string_from_utf8_bytes;
use crate::UTF8_REPLACEMENT_CHARACTER;

verus! {

broadcast use vstd::seq::group_seq_axioms;

/// The characters of the readable rendering of `s`.  `in_run` records
/// whether the position directly follows a rejected byte, so that one
/// replacement character stands for a whole rejected run.
pub open spec fn display_frag(s: Seq<u8>, in_run: bool) -> Seq<char>
    decreases s.len(),
{
    if s.len() == 0 {
        Seq::empty()
    } else if valid_first_scalar(s) {
        seq![decode_first_scalar(s) as char] + display_frag(pop_first_scalar(s), false)
    } else {
        let tail = display_frag(s.subrange(1, s.len() as int), true);
        if in_run {
            tail
        } else {
            seq![UTF8_REPLACEMENT_CHARACTER] + tail
        }
    }
}

/// The characters of the readable rendering of `s`: each well-formed scalar
/// as itself, each maximal rejected run as one replacement character.
pub open spec fn display_chars(s: Seq<u8>) -> Seq<char> {
    display_frag(s, false)
}

/// At a position that starts a well-formed scalar, or at the end, the run
/// flag makes no difference.
proof fn lemma_frag_flag(s: Seq<u8>)
    requires
        s.len() == 0 || valid_first_scalar(s),
    ensures
        display_frag(s, true) == display_frag(s, false),
{
}

/// Appends the UTF-8 encoding of one character.
pub(crate) fn push_char_utf8(out: &mut Vec<u8>, c: char)
    ensures
        final(out)@ == old(out)@ + encode_scalar(c as u32),
{
    proof {
        char_is_scalar(c);
    }
    let v = c as u32;
    if v < 0x80 {
        out.push(v as u8);
        proof {
            assert(v < 0x80 ==> (v & 0x7f) == v) by (bit_vector);
            assert(final(out)@ =~= old(out)@ + encode_scalar(c as u32));
        }
    } else if v < 0x800 {
        let x0 = 0xc0 | (((v >> 6) & 0x1f) as u8);
        let x1 = 0x80 | ((v & 0x3f) as u8);
        out.push(x0);
        out.push(x1);
        proof {
            assert(final(out)@ =~= old(out)@ + encode_scalar(c as u32));
        }
    } else if v < 0x10000 {
        let x0 = 0xe0 | (((v >> 12) & 0x0f) as u8);
        let x1 = 0x80 | (((v >> 6) & 0x3f) as u8);
        let x2 = 0x80 | ((v & 0x3f) as u8);
        out.push(x0);
        out.push(x1);
        out.push(x2);
        proof {
            assert(final(out)@ =~= old(out)@ + encode_scalar(c as u32));
        }
    } else {
        let x0 = 0xf0 | (((v >> 18) & 0x7) as u8);
        let x1 = 0x80 | (((v >> 12) & 0x3f) as u8);
        let x2 = 0x80 | (((v >> 6) & 0x3f) as u8);
        let x3 = 0x80 | ((v & 0x3f) as u8);
        out.push(x0);
        out.push(x1);
        out.push(x2);
        out.push(x3);
        proof {
            assert(final(out)@ =~= old(out)@ + encode_scalar(c as u32));
        }
    }
}

/// The readable rendering of `s`, as UTF-8 bytes.
pub(crate) fn display_bytes(s: &[u8]) -> (out: Vec<u8>)
    ensures
        out@ == encode_utf8(display_chars(s@)),
{
    let n = s.len();
    let mut out: Vec<u8> = Vec::new();
    let ghost mut done: Seq<char> = Seq::empty();
    let mut in_run = false;
    let mut i: usize = 0;
    proof {
        assert(suffix(s@, 0) =~= s@);
        assert(encode_utf8(done) =~= Seq::<u8>::empty());
    }
    while i < n
        invariant
            i <= n,
            n == s@.len(),
            out@ == encode_utf8(done),
            display_chars(s@) == done + display_frag(suffix(s@, i as int), in_run),
        decreases n - i,
    {
        let ghost suf = suffix(s@, i as int);
        match decode_scalar_at(s, i) {
            Some((_v, k)) => {
                let chunk = vstd::slice::slice_subrange(s, i, i + k);
                out.extend_from_slice(chunk);
                proof {
                    let c = decode_first_scalar(suf) as char;
                    lemma_suffix_pop(s@, i as int);
                    assert(chunk@ =~= take_first_scalar(suf));
                    lemma_scalar_bytes(suf);
                    lemma_encode_utf8_snoc(done, c);
                    if in_run {
                        lemma_frag_flag(suf);
                    }
                    assert(display_frag(suf, false) == seq![c] + display_frag(
                        suffix(s@, i + k),
                        false,
                    ));
                    done = done + seq![c];
                    assert(display_chars(s@) == done + display_frag(suffix(s@, i + k), false));
                }
                i = i + k;
                in_run = false;
            },
            None => {
                if !in_run {
                    push_char_utf8(&mut out, UTF8_REPLACEMENT_CHARACTER);
                    proof {
                        lemma_encode_utf8_snoc(done, UTF8_REPLACEMENT_CHARACTER);
                        done = done + seq![UTF8_REPLACEMENT_CHARACTER];
                    }
                }
                proof {
                    lemma_suffix_step(s@, i as int);
                    assert(display_chars(s@) == done + display_frag(suffix(s@, i + 1), true));
                }
                i = i + 1;
                in_run = true;
            },
        }
    }
    proof {
        assert(suffix(s@, i as int).len() == 0);
        assert(display_frag(suffix(s@, i as int), in_run) =~= Seq::<char>::empty());
        assert(display_chars(s@) =~= done);
    }
    out
}

/// The readable rendering of `s`, without padding.
pub fn display_render(s: &[u8]) -> (r: String)
    ensures
        r@ == display_chars(s@),
{
    let bytes = display_bytes(s);
    proof {
        encode_utf8_valid_utf8(display_chars(s@));
    }
    let r = string_from_utf8_bytes(bytes);
    proof {
        encode_utf8_decode_utf8(r@);
        encode_utf8_decode_utf8(display_chars(s@));
    }
    r
}

/// The visible length of the readable rendering of `s`, in Unicode scalars.
pub fn display_width(s: &[u8]) -> (r: usize)
    ensures
        r == display_chars(s@).len(),
{
    let n = s.len();
    let mut count: usize = 0;
    let mut in_run = false;
    let mut i: usize = 0;
    proof {
        assert(suffix(s@, 0) =~= s@);
    }
    while i < n
        invariant
            i <= n,
            count <= i,
            n == s@.len(),
            display_chars(s@).len() == count + display_frag(suffix(s@, i as int), in_run).len(),
        decreases n - i,
    {
        let ghost suf = suffix(s@, i as int);
        match decode_scalar_at(s, i) {
            Some((_v, k)) => {
                proof {
                    lemma_suffix_pop(s@, i as int);
                    if in_run {
                        lemma_frag_flag(suf);
                    }
                }
                count = count + 1;
                i = i + k;
                in_run = false;
            },
            None => {
                if !in_run {
                    count = count + 1;
                }
                proof {
                    lemma_suffix_step(s@, i as int);
                }
                i = i + 1;
                in_run = true;
            },
        }
    }
    proof {
        assert(suffix(s@, i as int).len() == 0);
        assert(display_frag(suffix(s@, i as int), in_run) =~= Seq::<char>::empty());
    }
    count
}

/// How a render narrower than the requested width is placed within it.
#[derive(Clone, Copy, Debug, PartialEq, Eq, Structural)]
pub enum Alignment {
    Left,
    Right,
    Center,
}

/// Fill characters placed before the rendering.
pub open spec fn left_pad(align: Alignment, p: int) -> int {
    match align {
        Alignment::Left => 0,
        Alignment::Right => p,
        Alignment::Center => p / 2,
    }
}

/// Fill characters placed after the rendering.  Under center alignment an
/// odd total leaves the extra fill character on the right.
pub open spec fn right_pad(align: Alignment, p: int) -> int {
    match align {
        Alignment::Left => p,
        Alignment::Right => 0,
        Alignment::Center => p / 2 + p % 2,
    }
}

/// Total padding needed to reach `width` visible characters.
pub open spec fn pad_total(s: Seq<u8>, width: int) -> int {
    let l = display_chars(s).len() as int;
    if width > l {
        width - l
    } else {
        0
    }
}

/// `n` copies of the fill character.
pub open spec fn fill_seq(n: int, fill: char) -> Seq<char> {
    Seq::new(n as nat, |j: int| fill)
}

/// The characters of the readable rendering of `s`, padded to at least
/// `width` visible characters with `fill`, placed according to `align`.
pub open spec fn display_padded_chars(
    s: Seq<u8>,
    align: Alignment,
    width: int,
    fill: char,
) -> Seq<char> {
    let p = pad_total(s, width);
    fill_seq(left_pad(align, p), fill) + display_chars(s) + fill_seq(right_pad(align, p), fill)
}

/// Appends `count` copies of the fill character, UTF-8 encoded.
fn push_fill(out: &mut Vec<u8>, fill: char, count: usize)
    ensures
        final(out)@ == old(out)@ + encode_utf8(fill_seq(count as int, fill)),
{
    let mut j: usize = 0;
    proof {
        assert(fill_seq(0, fill) =~= Seq::<char>::empty());
        assert(out@ =~= old(out)@ + encode_utf8(fill_seq(0, fill)));
    }
    while j < count
        invariant
            j <= count,
            out@ == old(out)@ + encode_utf8(fill_seq(j as int, fill)),
        decreases count - j,
    {
        push_char_utf8(out, fill);
        proof {
            assert(fill_seq(j + 1, fill) =~= fill_seq(j as int, fill) + seq![fill]);
            lemma_encode_utf8_snoc(fill_seq(j as int, fill), fill);
        }
        j = j + 1;
    }
}

/// The readable rendering of `s`, padded to at least `width` visible
/// characters with `fill`, placed according to `align`.
pub fn display_render_padded(s: &[u8], align: Alignment, width: usize, fill: char) -> (r: String)
    ensures
        r@ == display_padded_chars(s@, align, width as int, fill),
{
    let l = display_width(s);
    let p = if width > l {
        width - l
    } else {
        0
    };
    let (lp, rp) = match align {
        Alignment::Left => (0, p),
        Alignment::Right => (p, 0),
        Alignment::Center => (p / 2, p / 2 + p % 2),
    };
    let ghost gp = pad_total(s@, width as int);
    proof {
        assert(lp == left_pad(align, gp));
        assert(rp == right_pad(align, gp));
    }
    let mut out: Vec<u8> = Vec::new();
    push_fill(&mut out, fill, lp);
    let body = display_bytes(s);
    out.extend_from_slice(body.as_slice());
    push_fill(&mut out, fill, rp);
    proof {
        lemma_encode_utf8_concat(fill_seq(lp as int, fill), display_chars(s@));
        lemma_encode_utf8_concat(
            fill_seq(lp as int, fill) + display_chars(s@),
            fill_seq(rp as int, fill),
        );
        assert(out@ =~= encode_utf8(display_padded_chars(s@, align, width as int, fill)));
        encode_utf8_valid_utf8(display_padded_chars(s@, align, width as int, fill));
    }
    let r = string_from_utf8_bytes(out);
    proof {
        encode_utf8_decode_utf8(r@);
        encode_utf8_decode_utf8(display_padded_chars(s@, align, width as int, fill));
    }
    r
}

/// The padded rendering has exactly `max(width, L)` characters, where `L` is
/// the visible length of the unpadded rendering; the fill characters occupy
/// exactly the positions the alignment dictates, with the rendering between
/// them, and the two pads together make up the whole padding.
pub proof fn lemma_padded_shape(s: Seq<u8>, align: Alignment, width: int, fill: char)
    requires
        0 <= width,
    ensures
        ({
            let out = display_padded_chars(s, align, width, fill);
            let l = display_chars(s).len() as int;
            let p = pad_total(s, width);
            &&& out.len() == (if width > l {
                width
            } else {
                l
            })
            &&& left_pad(align, p) + right_pad(align, p) == p
            &&& out.subrange(0, left_pad(align, p)) == fill_seq(left_pad(align, p), fill)
            &&& out.subrange(left_pad(align, p), left_pad(align, p) + l) == display_chars(s)
            &&& out.subrange(left_pad(align, p) + l, out.len() as int) == fill_seq(
                right_pad(align, p),
                fill,
            )
        }),
{
    let out = display_padded_chars(s, align, width, fill);
    let l = display_chars(s).len() as int;
    let p = pad_total(s, width);
    vstd::arithmetic::div_mod::lemma_fundamental_div_mod(p, 2);
    assert(left_pad(align, p) + right_pad(align, p) == p);
    assert(out.subrange(0, left_pad(align, p)) =~= fill_seq(left_pad(align, p), fill));
    assert(out.subrange(left_pad(align, p), left_pad(align, p) + l) =~= display_chars(s));
    assert(out.subrange(left_pad(align, p) + l, out.len() as int) =~= fill_seq(
        right_pad(align, p),
        fill,
    ));
}

/// Under center alignment, an odd total padding puts the extra fill
/// character on the right, never on the left.
pub proof fn lemma_center_extra_fill_right(p: int)
    requires
        0 <= p,
        p % 2 == 1,
    ensures
        right_pad(Alignment::Center, p) == left_pad(Alignment::Center, p) + 1,
{
}

/// Number of maximal rejected runs in `s`, continuing one when `in_run`.
pub open spec fn rejected_run_count_from(s: Seq<u8>, in_run: bool) -> int
    decreases s.len(),
{
    if s.len() == 0 {
        0
    } else if valid_first_scalar(s) {
        rejected_run_count_from(pop_first_scalar(s), false)
    } else {
        (if in_run {
            0int
        } else {
            1int
        }) + rejected_run_count_from(s.subrange(1, s.len() as int), true)
    }
}

/// Number of maximal rejected runs in `s`: the chunks of the canonical
/// partition whose rejected part is non-empty.
pub open spec fn rejected_run_count(s: Seq<u8>) -> int {
    rejected_run_count_from(s, false)
}

/// Number of well-formed scalars in the canonical partition of `s`.
pub open spec fn scalar_count(s: Seq<u8>) -> int
    decreases s.len(),
{
    if s.len() == 0 {
        0
    } else if valid_first_scalar(s) {
        1 + scalar_count(pop_first_scalar(s))
    } else {
        scalar_count(s.subrange(1, s.len() as int))
    }
}

proof fn lemma_display_len_frag(s: Seq<u8>, in_run: bool)
    ensures
        display_frag(s, in_run).len() == scalar_count(s) + rejected_run_count_from(s, in_run),
    decreases s.len(),
{
    if s.len() == 0 {
    } else if valid_first_scalar(s) {
        lemma_display_len_frag(pop_first_scalar(s), false);
    } else {
        lemma_display_len_frag(s.subrange(1, s.len() as int), true);
    }
}

/// The visible length of the readable rendering: one unit per decoded
/// scalar plus one per maximal rejected run.
pub proof fn lemma_display_len(s: Seq<u8>)
    ensures
        display_chars(s).len() == scalar_count(s) + rejected_run_count(s),
{
    lemma_display_len_frag(s, false);
}

/// How many characters of `cs` are the replacement character.
pub open spec fn replacement_count(cs: Seq<char>) -> int
    decreases cs.len(),
{
    if cs.len() == 0 {
        0
    } else {
        (if cs[0] == UTF8_REPLACEMENT_CHARACTER {
            1int
        } else {
            0int
        }) + replacement_count(cs.drop_first())
    }
}

proof fn lemma_replacement_count_single(c: char)
    ensures
        replacement_count(seq![c]) == (if c == UTF8_REPLACEMENT_CHARACTER {
            1int
        } else {
            0int
        }),
{
    assert(seq![c].drop_first() =~= Seq::<char>::empty());
    assert(replacement_count(Seq::<char>::empty()) == 0);
}

proof fn lemma_replacement_count_concat(a: Seq<char>, b: Seq<char>)
    ensures
        replacement_count(a + b) == replacement_count(a) + replacement_count(b),
    decreases a.len(),
{
    if a.len() == 0 {
        assert(a + b =~= b);
    } else {
        assert((a + b).drop_first() =~= a.drop_first() + b);
        lemma_replacement_count_concat(a.drop_first(), b);
        assert((a + b)[0] == a[0]);
    }
}

/// True when no well-formed scalar of `s` decodes to the replacement
/// character itself.
pub open spec fn decodes_no_replacement(s: Seq<u8>) -> bool
    decreases s.len(),
{
    if s.len() == 0 {
        true
    } else if valid_first_scalar(s) {
        decode_first_scalar(s) != 0xfffd && decodes_no_replacement(pop_first_scalar(s))
    } else {
        decodes_no_replacement(s.subrange(1, s.len() as int))
    }
}

proof fn lemma_replacement_count_frag(s: Seq<u8>, in_run: bool)
    requires
        decodes_no_replacement(s),
    ensures
        replacement_count(display_frag(s, in_run)) == rejected_run_count_from(s, in_run),
    decreases s.len(),
{
    if s.len() == 0 {
    } else if valid_first_scalar(s) {
        let c = decode_first_scalar(s) as char;
        lemma_decoded_char_value(s);
        assert(c != UTF8_REPLACEMENT_CHARACTER);
        lemma_replacement_count_frag(pop_first_scalar(s), false);
        lemma_replacement_count_concat(seq![c], display_frag(pop_first_scalar(s), false));
        lemma_replacement_count_single(c);
    } else {
        lemma_replacement_count_frag(s.subrange(1, s.len() as int), true);
        if !in_run {
            let tail = display_frag(s.subrange(1, s.len() as int), true);
            lemma_replacement_count_concat(seq![UTF8_REPLACEMENT_CHARACTER], tail);
            lemma_replacement_count_single(UTF8_REPLACEMENT_CHARACTER);
        }
    }
}

/// The readable rendering holds exactly one replacement character per
/// maximal rejected run, provided none of the well-formed scalars is the
/// replacement character itself.
pub proof fn lemma_replacement_count_display(s: Seq<u8>)
    requires
        decodes_no_replacement(s),
    ensures
        replacement_count(display_chars(s)) == rejected_run_count(s),
{
    lemma_replacement_count_frag(s, false);
}

/// When `s` is well-formed UTF-8, its readable rendering is exactly its
/// decoding, and re-encoding the rendering gives back `s`.
pub proof fn lemma_display_utf8_round_trip(s: Seq<u8>)
    requires
        valid_utf8(s),
    ensures
        display_chars(s) == decode_utf8(s),
        encode_utf8(display_chars(s)) == s,
    decreases s.len(),
{
    if s.len() == 0 {
        assert(display_frag(s, false) =~= decode_utf8(s));
    } else {
        lemma_display_utf8_round_trip(pop_first_scalar(s));
        assert(display_frag(s, false) == seq![decode_first_scalar(s) as char] + display_frag(
            pop_first_scalar(s),
            false,
        ));
    }
    decode_utf8_encode_utf8(s);
}

} // verus!
