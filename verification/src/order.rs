//! Bytewise equality and byte-lexicographic ordering.

use vstd::prelude::*;

use crate::scan::{lemma_suffix_step, suffix};
use core::cmp::Ordering;

verus! {

broadcast use vstd::seq::group_seq_axioms;

/// Byte-lexicographic comparison of two byte runs.
pub open spec fn lex_cmp(a: Seq<u8>, b: Seq<u8>) -> Ordering
    decreases a.len(),
{
    if a.len() == 0 && b.len() == 0 {
        Ordering::Equal
    } else if a.len() == 0 {
        Ordering::Less
    } else if b.len() == 0 {
        Ordering::Greater
    } else if a[0] < b[0] {
        Ordering::Less
    } else if a[0] > b[0] {
        Ordering::Greater
    } else {
        lex_cmp(a.subrange(1, a.len() as int), b.subrange(1, b.len() as int))
    }
}

/// Two byte runs compare equal exactly when they are the same bytes.
pub proof fn lemma_lex_cmp_eq(a: Seq<u8>, b: Seq<u8>)
    ensures
        (lex_cmp(a, b) == Ordering::Equal) <==> a == b,
    decreases a.len(),
{
    if a.len() == 0 && b.len() == 0 {
        assert(a =~= b);
    } else if a.len() == 0 || b.len() == 0 {
    } else if a[0] == b[0] {
        let at = a.subrange(1, a.len() as int);
        let bt = b.subrange(1, b.len() as int);
        lemma_lex_cmp_eq(at, bt);
        if at == bt {
            assert forall|j: int| 0 <= j < a.len() implies a[j] == b[j] by {
                if j >= 1 {
                    assert(a[j] == at[j - 1]);
                    assert(b[j] == bt[j - 1]);
                }
            }
            assert(a =~= b);
        }
        if a == b {
            assert(at =~= bt);
        }
    }
}

/// Compares two byte runs in byte-lexicographic order.
pub fn compare_bytes(a: &[u8], b: &[u8]) -> (r: Ordering)
    ensures
        r == lex_cmp(a@, b@),
{
    let an = a.len();
    let bn = b.len();
    let mut i: usize = 0;
    proof {
        assert(suffix(a@, 0) =~= a@);
        assert(suffix(b@, 0) =~= b@);
    }
    while i < an && i < bn
        invariant
            i <= an,
            i <= bn,
            an == a@.len(),
            bn == b@.len(),
            lex_cmp(a@, b@) == lex_cmp(suffix(a@, i as int), suffix(b@, i as int)),
        decreases an - i,
    {
        let x = a[i];
        let y = b[i];
        if x < y {
            return Ordering::Less;
        }
        if x > y {
            return Ordering::Greater;
        }
        proof {
            lemma_suffix_step(a@, i as int);
            lemma_suffix_step(b@, i as int);
        }
        i = i + 1;
    }
    if an == bn {
        Ordering::Equal
    } else if an < bn {
        Ordering::Less
    } else {
        Ordering::Greater
    }
}

/// Bytewise equality of two byte runs.
pub fn eq_bytes(a: &[u8], b: &[u8]) -> (r: bool)
    ensures
        r == (a@ == b@),
{
    let an = a.len();
    if an != b.len() {
        proof {
            assert(a@ != b@);
        }
        return false;
    }
    let mut i: usize = 0;
    while i < an
        invariant
            i <= an,
            an == a@.len(),
            an == b@.len(),
            forall|j: int| 0 <= j < i ==> a@[j] == b@[j],
        decreases an - i,
    {
        if a[i] != b[i] {
            proof {
                assert(a@ != b@);
            }
            return false;
        }
        i = i + 1;
    }
    proof {
        assert(a@ =~= b@);
    }
    true
}

} // verus!
