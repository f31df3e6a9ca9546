//! Equality and byte-lexicographic order, between two strings of one
//! capacity and between a string and a string slice.
use vstd::prelude::*;
use vstd::string::StringSliceAdditionalSpecFns;
use vstd::utf8::{decode_utf8, encode_utf8, encode_utf8_decode_utf8};

use core::cmp::Ordering;

use crate::fixed::tstr;

verus! {

broadcast use encode_utf8_decode_utf8;

/// Byte-lexicographic order: the first differing byte decides, and a
/// proper prefix comes first.
pub open spec fn lex_order(a: Seq<u8>, b: Seq<u8>) -> Ordering
    decreases a.len(),
{
    if a.len() == 0 {
        if b.len() == 0 {
            Ordering::Equal
        } else {
            Ordering::Less
        }
    } else if b.len() == 0 {
        Ordering::Greater
    } else if a[0] < b[0] {
        Ordering::Less
    } else if a[0] > b[0] {
        Ordering::Greater
    } else {
        lex_order(a.drop_first(), b.drop_first())
    }
}

/// Whether two byte slices hold the same bytes.
fn bytes_equal(a: &[u8], b: &[u8]) -> (r: bool)
    ensures
        r == (a@ == b@),
{
    if a.len() != b.len() {
        return false;
    }
    let mut i: usize = 0;
    while i < a.len()
        invariant
            i <= a.len(),
            a.len() == b.len(),
            a@.take(i as int) == b@.take(i as int),
        decreases a.len() - i,
    {
        if a[i] != b[i] {
            assert(a@[i as int] != b@[i as int]);
            return false;
        }
        assert(a@.take(i + 1) =~= a@.take(i as int).push(a@[i as int]));
        assert(b@.take(i + 1) =~= b@.take(i as int).push(b@[i as int]));
        i = i + 1;
    }
    assert(a@ =~= a@.take(i as int));
    assert(b@ =~= b@.take(i as int));
    true
}

/// Byte-lexicographic comparison of two byte slices.
fn compare_bytes(a: &[u8], b: &[u8]) -> (r: Ordering)
    ensures
        r == lex_order(a@, b@),
{
    let mut i: usize = 0;
    assert(a@.skip(0) =~= a@);
    assert(b@.skip(0) =~= b@);
    while i < a.len() && i < b.len()
        invariant
            i <= a.len(),
            i <= b.len(),
            lex_order(a@, b@) == lex_order(a@.skip(i as int), b@.skip(i as int)),
        decreases a.len() - i,
    {
        assert(a@.skip(i as int)[0] == a@[i as int]);
        assert(b@.skip(i as int)[0] == b@[i as int]);
        if a[i] < b[i] {
            return Ordering::Less;
        }
        if a[i] > b[i] {
            return Ordering::Greater;
        }
        assert(a@.skip(i as int).drop_first() =~= a@.skip(i + 1));
        assert(b@.skip(i as int).drop_first() =~= b@.skip(i + 1));
        i = i + 1;
    }
    if i < a.len() {
        Ordering::Greater
    } else if i < b.len() {
        Ordering::Less
    } else {
        Ordering::Equal
    }
}

/// Equal views have equal encodings, and the other way round.
proof fn lemma_encode_eq(a: Seq<char>, b: Seq<char>)
    ensures
        (encode_utf8(a) == encode_utf8(b)) == (a == b),
{
    if encode_utf8(a) == encode_utf8(b) {
        assert(decode_utf8(encode_utf8(a)) == decode_utf8(encode_utf8(b)));
    }
}

impl<const N: usize> PartialEq for tstr<N> {
    fn eq(&self, other: &Self) -> (r: bool) {
        proof {
            lemma_encode_eq(self@, other@);
        }
        bytes_equal(self.as_bytes(), other.as_bytes())
    }
}

impl<const N: usize> vstd::std_specs::cmp::PartialEqSpecImpl for tstr<N> {
    open spec fn obeys_eq_spec() -> bool {
        true
    }

    open spec fn eq_spec(&self, other: &Self) -> bool {
        self@ == other@
    }
}

impl<const N: usize> Eq for tstr<N> {

}

impl<'t, const N: usize> PartialEq<&'t str> for tstr<N> {
    fn eq(&self, other: &&'t str) -> (r: bool) {
        proof {
            lemma_encode_eq(self@, other@);
        }
        bytes_equal(self.as_bytes(), other.as_bytes())
    }
}

impl<'t, const N: usize> vstd::std_specs::cmp::PartialEqSpecImpl<&'t str> for tstr<N> {
    open spec fn obeys_eq_spec() -> bool {
        true
    }

    open spec fn eq_spec(&self, other: &&'t str) -> bool {
        self@ == other@
    }
}

impl<'t, const N: usize> PartialEq<tstr<N>> for &'t str {
    fn eq(&self, other: &tstr<N>) -> (r: bool) {
        proof {
            lemma_encode_eq(self@, other@);
        }
        bytes_equal(self.as_bytes(), other.as_bytes())
    }
}

impl<'t, const N: usize> vstd::std_specs::cmp::PartialEqSpecImpl<tstr<N>> for &'t str {
    open spec fn obeys_eq_spec() -> bool {
        true
    }

    open spec fn eq_spec(&self, other: &tstr<N>) -> bool {
        self@ == other@
    }
}

impl<const N: usize> PartialOrd for tstr<N> {
    fn partial_cmp(&self, other: &Self) -> (r: Option<Ordering>) {
        Some(compare_bytes(self.as_bytes(), other.as_bytes()))
    }
}

impl<const N: usize> vstd::std_specs::cmp::PartialOrdSpecImpl for tstr<N> {
    open spec fn obeys_partial_cmp_spec() -> bool {
        true
    }

    open spec fn partial_cmp_spec(&self, other: &Self) -> Option<Ordering> {
        Some(lex_order(encode_utf8(self@), encode_utf8(other@)))
    }
}

} // verus!
