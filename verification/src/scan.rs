//! Searching byte strings for delimiters, with the `memchr` crate.

use vstd::prelude::*;

verus! {

/// `i` is the position of the first byte of `s` that `hit` accepts.
pub open spec fn is_first_hit(s: Seq<u8>, hit: spec_fn(u8) -> bool, i: int) -> bool {
    &&& 0 <= i < s.len()
    &&& hit(s[i])
    &&& forall|j: int| 0 <= j < i ==> !hit(#[trigger] s[j])
}

/// The position of the first byte of `s` that `hit` accepts, if there is one.
pub open spec fn first_hit(s: Seq<u8>, hit: spec_fn(u8) -> bool) -> Option<int> {
    if exists|i: int| is_first_hit(s, hit, i) {
        Some(choose|i: int| is_first_hit(s, hit, i))
    } else {
        None
    }
}

/// The test for one byte value.
pub open spec fn is_byte(b: u8) -> spec_fn(u8) -> bool {
    |x: u8| x == b
}

/// The test for either of two byte values.
pub open spec fn is_either(a: u8, b: u8) -> spec_fn(u8) -> bool {
    |x: u8| x == a || x == b
}

/// The position of the first occurrence of `b` in `s`.
pub open spec fn find_byte(s: Seq<u8>, b: u8) -> Option<int> {
    first_hit(s, is_byte(b))
}

/// The position of the first occurrence of `a` or `b` in `s`.
pub open spec fn find_either(s: Seq<u8>, a: u8, b: u8) -> Option<int> {
    first_hit(s, is_either(a, b))
}

/// There is at most one first hit, so `first_hit` names it; and where no byte
/// is accepted, `first_hit` is `None`.
pub proof fn lemma_first_hit(s: Seq<u8>, hit: spec_fn(u8) -> bool)
    ensures
        first_hit(s, hit) matches Some(i) ==> is_first_hit(s, hit, i),
        forall|i: int| is_first_hit(s, hit, i) ==> first_hit(s, hit) == Some(i),
        first_hit(s, hit) is None <==> forall|j: int| 0 <= j < s.len() ==> !hit(#[trigger] s[j]),
{
    assert forall|i: int| is_first_hit(s, hit, i) implies first_hit(s, hit) == Some(i) by {
        let k = choose|k: int| is_first_hit(s, hit, k);
        if k < i {
            assert(!hit(s[k]));
        } else if i < k {
            assert(!hit(s[i]));
        }
    }
    if forall|j: int| 0 <= j < s.len() ==> !hit(#[trigger] s[j]) {
    } else {
        let j0 = choose|j: int| 0 <= j < s.len() && hit(#[trigger] s[j]);
        lemma_first_hit_exists(s, hit, j0);
    }
}

/// Where some byte is accepted, there is a first one.
proof fn lemma_first_hit_exists(s: Seq<u8>, hit: spec_fn(u8) -> bool, j0: int)
    requires
        0 <= j0 < s.len(),
        hit(s[j0]),
    ensures
        exists|i: int| is_first_hit(s, hit, i),
    decreases j0,
{
    if forall|j: int| 0 <= j < j0 ==> !hit(#[trigger] s[j]) {
        assert(is_first_hit(s, hit, j0));
    } else {
        let j1 = choose|j: int| 0 <= j < j0 && hit(#[trigger] s[j]);
        lemma_first_hit_exists(s, hit, j1);
    }
}

/// The position of the first `needle` byte in `haystack` (`memchr::memchr`).
/// Trusted: the crate documents that it returns the index of the first
/// occurrence, or `None` where there is none.
#[verifier::external_body]
fn memchr_first(needle: u8, haystack: &[u8]) -> (r: Option<usize>)
    ensures
        match r {
            Some(i) => is_first_hit(haystack@, is_byte(needle), i as int),
            None => forall|j: int| 0 <= j < haystack@.len() ==> haystack@[j] != needle,
        },
{
    memchr::memchr(needle, haystack)
}

/// The position of the first byte of `haystack` that is `a` or `b`
/// (`memchr::memchr2`). Trusted: the crate documents that it returns the index
/// of the first occurrence of either needle, or `None` where there is none.
#[verifier::external_body]
fn memchr2_first(a: u8, b: u8, haystack: &[u8]) -> (r: Option<usize>)
    ensures
        match r {
            Some(i) => is_first_hit(haystack@, is_either(a, b), i as int),
            None => forall|j: int| 0 <= j < haystack@.len() ==> haystack@[j] != a && haystack@[j] != b,
        },
{
    memchr::memchr2(a, b, haystack)
}

/// Finds the first occurrence of `b` in `s`.
pub fn position_of(s: &[u8], b: u8) -> (r: Option<usize>)
    ensures
        match r {
            Some(i) => find_byte(s@, b) == Some(i as int),
            None => find_byte(s@, b) is None,
        },
{
    let r = memchr_first(b, s);
    proof {
        lemma_first_hit(s@, is_byte(b));
    }
    r
}

/// Finds the first byte of `s` that is `a` or `b`.
pub fn position_of_either(s: &[u8], a: u8, b: u8) -> (r: Option<usize>)
    ensures
        match r {
            Some(i) => find_either(s@, a, b) == Some(i as int),
            None => find_either(s@, a, b) is None,
        },
{
    let r = memchr2_first(a, b, s);
    proof {
        lemma_first_hit(s@, is_either(a, b));
    }
    r
}

} // verus!
