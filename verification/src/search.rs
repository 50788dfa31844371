//! Searching a byte string for a byte or for a substring.

use vstd::prelude::*;

verus! {

/// Whether `needle` stands in `hay` at index `at`.
pub open spec fn occurs_at(hay: Seq<u8>, needle: Seq<u8>, at: int) -> bool {
    &&& 0 <= at
    &&& at + needle.len() <= hay.len()
    &&& hay.subrange(at, at + needle.len()) =~= needle
}

/// The index of the first `b` in `s`, or `s.len()` where `s` holds none.
pub open spec fn first_index_of(s: Seq<u8>, b: u8) -> int
    decreases s.len(),
{
    if s.len() == 0 || s[0] == b {
        0
    } else {
        1 + first_index_of(s.skip(1), b)
    }
}

/// `first_index_of` is the index that no `b` stands before and at which one
/// stands, or the end.
pub proof fn lemma_first_index_of(s: Seq<u8>, b: u8, i: int)
    requires
        0 <= i <= s.len(),
        forall|j: int| 0 <= j < i ==> s[j] != b,
        i < s.len() ==> s[i] == b,
    ensures
        first_index_of(s, b) == i,
    decreases i,
{
    if i > 0 {
        let rest = s.skip(1);
        assert forall|j: int| 0 <= j < i - 1 implies rest[j] != b by {
            assert(rest[j] == s[j + 1]);
        }
        lemma_first_index_of(rest, b, i - 1);
    }
}

/// Where no `b` stands among the first `n` bytes, the first `b` stands at
/// index `n` or later.
pub proof fn lemma_first_index_at_least(s: Seq<u8>, b: u8, n: int)
    requires
        0 <= n <= s.len(),
        forall|j: int| 0 <= j < n ==> s[j] != b,
    ensures
        n <= first_index_of(s, b) <= s.len(),
    decreases s.len(),
{
    if s.len() > 0 && s[0] != b {
        let rest = s.skip(1);
        if n > 0 {
            assert forall|j: int| 0 <= j < n - 1 implies rest[j] != b by {
                assert(rest[j] == s[j + 1]);
            }
            lemma_first_index_at_least(rest, b, n - 1);
        } else {
            lemma_first_index_at_least(rest, b, 0);
        }
    }
}

/// Calls `memchr::memchr`: the index of the first byte of `hay` that equals
/// `needle`, and `None` where no byte of it does.
#[verifier::external_body]
pub(crate) fn find_byte(needle: u8, hay: &[u8]) -> (found: Option<usize>)
    ensures
        match found {
            Some(i) => i < hay@.len() && hay@[i as int] == needle && forall|j: int|
                0 <= j < i ==> hay@[j] != needle,
            None => forall|j: int| 0 <= j < hay@.len() ==> hay@[j] != needle,
        },
{
    memchr::memchr(needle, hay)
}

/// Calls `memchr::memmem::find`: the index of the first occurrence of `needle`
/// in `hay`, and `None` where it does not occur.
#[verifier::external_body]
pub(crate) fn find_bytes(hay: &[u8], needle: &[u8]) -> (found: Option<usize>)
    ensures
        match found {
            Some(i) => occurs_at(hay@, needle@, i as int) && forall|j: int|
                0 <= j < i ==> !occurs_at(hay@, needle@, j),
            None => forall|j: int| !occurs_at(hay@, needle@, j),
        },
{
    memchr::memmem::find(hay, needle)
}

} // verus!
