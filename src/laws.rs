//! Laws that relate several operations on fixed strings.
use vstd::prelude::*;
use vstd::string::StringSliceAdditionalSpecFns;
use vstd::utf8::encode_utf8;

use crate::encoding::{fit_prefix, keep_chars, lemma_encode_concat, lemma_fit_all};
use crate::fixed::tstr;

verus! {

/// A string made from `s` (`make` ensures `t@ == s@`) has the byte length
/// of `s` and the content of `s`.
pub proof fn law_make_len<const N: usize>(s: &str, t: tstr<N>)
    requires
        t@ == s@,
    ensures
        encode_utf8(t@).len() == s.spec_bytes().len(),
        t@ == s@,
{
}

/// Truncating to `n` characters twice is the same as truncating once.
pub proof fn law_truncate_idempotent<const N: usize>(x: tstr<N>, n: usize)
    ensures
        keep_chars(keep_chars(x@, n as int), n as int) == keep_chars(x@, n as int),
{
}

/// Resizing into a capacity that holds the content and back again gives
/// the original content.
pub proof fn law_resize_round_trip<const N: usize, const M: usize>(x: tstr<N>)
    requires
        encode_utf8(x@).len() < N,
        1 <= M <= 256,
        encode_utf8(x@).len() + 1 <= M,
    ensures
        fit_prefix(fit_prefix(x@, M - 1), N - 1) == x@,
{
    lemma_fit_all(x@, M - 1);
    lemma_fit_all(x@, N - 1);
}

/// Two strings of one capacity always fit together in a string of twice
/// that capacity: the joined content is `a` then `b`, and its byte length
/// is the sum of theirs.
pub proof fn law_concat_fits<const N: usize>(a: tstr<N>, b: tstr<N>)
    requires
        encode_utf8(a@).len() < N,
        encode_utf8(b@).len() < N,
    ensures
        encode_utf8(a@ + b@).len() == encode_utf8(a@).len() + encode_utf8(b@).len(),
        encode_utf8(a@ + b@).len() < 2 * N - 1,
{
    lemma_encode_concat(a@, b@);
}

} // verus!
