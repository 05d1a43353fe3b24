//! Decoding of byte buffers as UTF-8 text.
//!
//! Well-formedness and decoding are the definitions of `vstd::utf8`. The two
//! functions at the end of this file hand the work to the standard library;
//! their contracts are taken on trust, and `utf8_error_len` names what the
//! standard library alone works out.

use vstd::prelude::*;
use vstd::utf8::*;

verus! {

/// `n` is the length of the longest prefix of `bytes` that is well-formed
/// UTF-8.
pub open spec fn is_valid_up_to(bytes: Seq<u8>, n: int) -> bool {
    &&& 0 <= n <= bytes.len()
    &&& valid_utf8(bytes.subrange(0, n))
    &&& forall|m: int| n < m <= bytes.len() ==> !valid_utf8(#[trigger] bytes.subrange(0, m))
}

/// The length of the longest prefix of `bytes` that is well-formed UTF-8.
pub open spec fn valid_up_to(bytes: Seq<u8>) -> int {
    choose|n: int| is_valid_up_to(bytes, n)
}

/// At most one length is that of the longest well-formed prefix.
pub proof fn lemma_valid_up_to_unique(bytes: Seq<u8>, n: int)
    requires
        is_valid_up_to(bytes, n),
    ensures
        valid_up_to(bytes) == n,
{
    let m = valid_up_to(bytes);
    assert(is_valid_up_to(bytes, m));
    if m < n {
        assert(!valid_utf8(bytes.subrange(0, n)));
    } else if n < m {
        assert(!valid_utf8(bytes.subrange(0, m)));
    }
}

/// Among the prefixes of `bytes` of length `k` at most, one is the longest
/// that is well-formed.
proof fn lemma_longest_valid_prefix_within(bytes: Seq<u8>, k: int) -> (n: int)
    requires
        0 <= k <= bytes.len(),
    ensures
        0 <= n <= k,
        valid_utf8(bytes.subrange(0, n)),
        forall|m: int| n < m <= k ==> !valid_utf8(#[trigger] bytes.subrange(0, m)),
    decreases k,
{
    if valid_utf8(bytes.subrange(0, k)) {
        k
    } else if k == 0 {
        assert(bytes.subrange(0, 0) =~= Seq::<u8>::empty());
        0
    } else {
        lemma_longest_valid_prefix_within(bytes, k - 1)
    }
}

/// Every byte sequence has a longest well-formed prefix, and `valid_up_to`
/// is its length.
pub proof fn lemma_valid_up_to_exists(bytes: Seq<u8>)
    ensures
        is_valid_up_to(bytes, valid_up_to(bytes)),
{
    let n = lemma_longest_valid_prefix_within(bytes, bytes.len() as int);
    assert(is_valid_up_to(bytes, n));
}

/// Where ill-formed bytes fail: the length of the longest well-formed
/// prefix, and the length of the ill-formed sequence that follows it, or
/// `None` where the bytes end inside a character.
pub struct Utf8Failure {
    pub valid_up_to: usize,
    pub error_len: Option<usize>,
}

/// What `Utf8Error::error_len` of the standard library gives for bytes that
/// are not well-formed UTF-8: the length of the ill-formed sequence that
/// follows the longest well-formed prefix, or `None` where the bytes end
/// inside a character.
pub uninterp spec fn utf8_error_len(bytes: Seq<u8>) -> Option<usize>;

/// Borrows `bytes` as text through `std::str::from_utf8`.
///
/// Trusted: the call succeeds exactly on well-formed UTF-8 and then yields
/// the decoded characters; on failure `Utf8Error::valid_up_to` is the length
/// of the longest well-formed prefix, and `Utf8Error::error_len` depends on
/// the bytes alone, under the name `utf8_error_len`.
#[verifier::external_body]
pub(crate) fn str_from_utf8(bytes: &[u8]) -> (r: Result<&str, Utf8Failure>)
    ensures
        match r {
            Ok(text) => valid_utf8(bytes@) && text@ == decode_utf8(bytes@),
            Err(failure) => {
                &&& !valid_utf8(bytes@)
                &&& is_valid_up_to(bytes@, failure.valid_up_to as int)
                &&& failure.error_len == utf8_error_len(bytes@)
            },
        },
{
    match std::str::from_utf8(bytes) {
        Ok(text) => Ok(text),
        Err(error) => Err(
            Utf8Failure { valid_up_to: error.valid_up_to(), error_len: error.error_len() },
        ),
    }
}

/// Turns `bytes` into text through `String::from_utf8`, without copying.
///
/// Trusted: the call succeeds exactly on well-formed UTF-8 and then yields
/// the decoded characters; on failure `Utf8Error::valid_up_to` is the length
/// of the longest well-formed prefix, and `Utf8Error::error_len` depends on
/// the bytes alone, under the name `utf8_error_len`.
#[verifier::external_body]
pub(crate) fn string_from_utf8(bytes: Vec<u8>) -> (r: Result<String, Utf8Failure>)
    ensures
        match r {
            Ok(text) => valid_utf8(bytes@) && text@ == decode_utf8(bytes@),
            Err(failure) => {
                &&& !valid_utf8(bytes@)
                &&& is_valid_up_to(bytes@, failure.valid_up_to as int)
                &&& failure.error_len == utf8_error_len(bytes@)
            },
        },
{
    match String::from_utf8(bytes) {
        Ok(text) => Ok(text),
        Err(error) => {
            let error = error.utf8_error();
            Err(Utf8Failure { valid_up_to: error.valid_up_to(), error_len: error.error_len() })
        },
    }
}

} // verus!
