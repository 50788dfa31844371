//! The one fault of a regular-expression template that is told apart: a
//! group reference in braces that is never closed.
//!
//! In a template `$$` is a dollar sign, and `${name}` refers to a capture
//! group. A `${` after which no `}` follows is no reference at all, and would
//! be copied out as it stands.

use vstd::prelude::*;

use crate::ascii::{CLOSE_BRACE, DOLLAR, OPEN_BRACE};
use crate::search::find_byte;

verus! {

/// Whether a `$` at index `at` opens a reference in braces that nothing
/// closes.
pub open spec fn opens_unclosed_group(rep: Seq<u8>, at: int) -> bool {
    &&& 0 <= at
    &&& at + 1 < rep.len()
    &&& rep[at] == DOLLAR
    &&& rep[at + 1] == OPEN_BRACE
    &&& forall|j: int| at + 2 <= j < rep.len() ==> rep[j] != CLOSE_BRACE
}

/// The index of the `$` of the first unclosed `${` from `from` on, read from
/// left to right with every `$$` taken as a pair.
pub open spec fn unclosed_group_from(rep: Seq<u8>, from: int) -> Option<int>
    decreases rep.len() - from,
{
    if from < 0 || from >= rep.len() {
        None
    } else if rep[from] != DOLLAR {
        unclosed_group_from(rep, from + 1)
    } else if from + 1 < rep.len() && rep[from + 1] == DOLLAR {
        unclosed_group_from(rep, from + 2)
    } else if opens_unclosed_group(rep, from) {
        Some(from)
    } else {
        unclosed_group_from(rep, from + 1)
    }
}

/// The index of the `$` of the first unclosed `${` in a template.
pub open spec fn unclosed_group(rep: Seq<u8>) -> Option<int> {
    unclosed_group_from(rep, 0)
}

/// Bytes other than `$` are passed over.
pub proof fn lemma_unclosed_group_skip(rep: Seq<u8>, from: int, to: int)
    requires
        0 <= from <= to <= rep.len(),
        forall|j: int| from <= j < to ==> rep[j] != DOLLAR,
    ensures
        unclosed_group_from(rep, from) == unclosed_group_from(rep, to),
    decreases to - from,
{
    if from < to {
        lemma_unclosed_group_skip(rep, from + 1, to);
    }
}

/// Finds the first `${` of a template that no `}` closes, and returns the
/// index of its `$`.
pub fn find_unclosed_group(rep: &[u8]) -> (found: Option<usize>)
    ensures
        match found {
            Some(at) => unclosed_group(rep@) == Some(at as int),
            None => unclosed_group(rep@) is None,
        },
{
    let len = rep.len();
    let mut from: usize = 0;
    while from < len
        invariant
            len == rep@.len(),
            from <= len,
            unclosed_group(rep@) == unclosed_group_from(rep@, from as int),
        decreases len - from,
    {
        let ghost rest = rep@.subrange(from as int, len as int);
        match find_byte(DOLLAR, &rep[from..len]) {
            None => {
                proof {
                    assert forall|j: int| from <= j < len implies rep@[j] != DOLLAR by {
                        assert(rep@[j] == rest[j - from]);
                    }
                    lemma_unclosed_group_skip(rep@, from as int, len as int);
                }
                return None;
            },
            Some(offset) => {
                let at = from + offset;
                proof {
                    assert forall|j: int| from <= j < at implies rep@[j] != DOLLAR by {
                        assert(rep@[j] == rest[j - from]);
                    }
                    assert(rep@[at as int] == rest[offset as int]);
                    lemma_unclosed_group_skip(rep@, from as int, at as int);
                }
                if at + 1 < len && rep[at + 1] == DOLLAR {
                    from = at + 2;
                } else if at + 1 < len && rep[at + 1] == OPEN_BRACE {
                    let ghost after = rep@.subrange(at + 2, len as int);
                    match find_byte(CLOSE_BRACE, &rep[at + 2..len]) {
                        None => {
                            assert forall|j: int| at + 2 <= j < len implies rep@[j]
                                != CLOSE_BRACE by {
                                assert(rep@[j] == after[j - (at + 2)]);
                            }
                            return Some(at);
                        },
                        Some(close) => {
                            assert(rep@[at + 2 + close] == after[close as int]);
                            from = at + 1;
                        },
                    }
                } else {
                    from = at + 1;
                }
            },
        }
    }
    None
}

} // verus!
