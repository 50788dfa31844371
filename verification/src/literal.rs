//! Where a literal byte pattern occurs in a line.

use vstd::prelude::*;

use crate::edit::{edits_fit, Edit};
use crate::search::occurs_at;

verus! {

/// The occurrences of `pat` in `text` from index `from` on, leftmost first
/// and none overlapping another, each with `rep` to take its place. An empty
/// pattern occurs nowhere.
pub open spec fn literal_edits_from(text: Seq<u8>, pat: Seq<u8>, rep: Seq<u8>, from: int) -> Seq<
    Edit,
>
    decreases text.len() - from,
{
    if pat.len() == 0 || from < 0 || from + pat.len() > text.len() {
        Seq::empty()
    } else if occurs_at(text, pat, from) {
        seq![Edit { start: from, end: from + pat.len(), with: rep }] + literal_edits_from(
            text,
            pat,
            rep,
            from + pat.len(),
        )
    } else {
        literal_edits_from(text, pat, rep, from + 1)
    }
}

/// The edits that replace the literal `pat` by `rep` throughout `text`.
pub open spec fn literal_edits(text: Seq<u8>, pat: Seq<u8>, rep: Seq<u8>) -> Seq<Edit> {
    literal_edits_from(text, pat, rep, 0)
}

/// An occurrence in the rest of a line from `from` on is an occurrence in
/// the line, `from` bytes further on.
pub proof fn lemma_occurs_in_rest(text: Seq<u8>, pat: Seq<u8>, from: int, at: int)
    requires
        0 <= from <= text.len(),
        0 <= at,
    ensures
        occurs_at(text.subrange(from, text.len() as int), pat, at) == occurs_at(
            text,
            pat,
            from + at,
        ),
{
    let rest = text.subrange(from, text.len() as int);
    if at + pat.len() <= rest.len() {
        assert(rest.subrange(at, at + pat.len()) =~= text.subrange(
            from + at,
            from + at + pat.len(),
        ));
    }
}

/// The indices at which the pattern does not occur are passed over.
pub proof fn lemma_literal_edits_skip(
    text: Seq<u8>,
    pat: Seq<u8>,
    rep: Seq<u8>,
    from: int,
    to: int,
)
    requires
        0 <= from <= to,
        forall|j: int| from <= j < to ==> !occurs_at(text, pat, j),
    ensures
        literal_edits_from(text, pat, rep, from) == literal_edits_from(text, pat, rep, to),
    decreases to - from,
{
    if from < to {
        lemma_literal_edits_skip(text, pat, rep, from + 1, to);
        if pat.len() > 0 && from + pat.len() > text.len() {
            assert(literal_edits_from(text, pat, rep, from + 1) == Seq::<Edit>::empty());
        }
    }
}

/// Where the pattern occurs nowhere from `from` on, there is nothing to edit.
pub proof fn lemma_literal_edits_none(text: Seq<u8>, pat: Seq<u8>, rep: Seq<u8>, from: int)
    requires
        0 <= from,
        forall|j: int| from <= j ==> !occurs_at(text, pat, j),
    ensures
        literal_edits_from(text, pat, rep, from) == Seq::<Edit>::empty(),
    decreases text.len() - from,
{
    if pat.len() > 0 && from + pat.len() <= text.len() {
        lemma_literal_edits_none(text, pat, rep, from + 1);
    }
}

/// Where the pattern occurs at `at` or before, there is something to edit.
pub proof fn lemma_literal_edits_some(
    text: Seq<u8>,
    pat: Seq<u8>,
    rep: Seq<u8>,
    from: int,
    at: int,
)
    requires
        pat.len() > 0,
        0 <= from <= at,
        occurs_at(text, pat, at),
    ensures
        literal_edits_from(text, pat, rep, from).len() > 0,
    decreases at - from,
{
    if !occurs_at(text, pat, from) {
        lemma_literal_edits_some(text, pat, rep, from + 1, at);
    }
}

/// A line has no edits exactly where the pattern is empty or occurs nowhere
/// in it: such a line, and no other, is put out as it stands with nothing
/// counted.
pub proof fn lemma_literal_edits_empty(text: Seq<u8>, pat: Seq<u8>, rep: Seq<u8>)
    ensures
        literal_edits(text, pat, rep).len() == 0 <==> pat.len() == 0 || forall|at: int|
            !occurs_at(text, pat, at),
{
    if pat.len() > 0 {
        if forall|at: int| !occurs_at(text, pat, at) {
            lemma_literal_edits_none(text, pat, rep, 0);
        } else {
            let at = choose|at: int| occurs_at(text, pat, at);
            lemma_literal_edits_some(text, pat, rep, 0, at);
        }
    }
}

/// Every edit stands at an occurrence of the pattern and puts `rep` there,
/// and the edits follow one another from left to right without overlap.
pub proof fn lemma_literal_edits_fit(text: Seq<u8>, pat: Seq<u8>, rep: Seq<u8>, from: int)
    requires
        0 <= from,
    ensures
        edits_fit(literal_edits_from(text, pat, rep, from), text.len() as int),
        forall|k: int|
            0 <= k < literal_edits_from(text, pat, rep, from).len() ==> {
                let edit = #[trigger] literal_edits_from(text, pat, rep, from)[k];
                &&& from <= edit.start
                &&& occurs_at(text, pat, edit.start)
                &&& edit.end == edit.start + pat.len()
                &&& edit.with == rep
            },
    decreases text.len() - from,
{
    let edits = literal_edits_from(text, pat, rep, from);
    if pat.len() == 0 || from + pat.len() > text.len() {
    } else if occurs_at(text, pat, from) {
        let rest = literal_edits_from(text, pat, rep, from + pat.len());
        lemma_literal_edits_fit(text, pat, rep, from + pat.len());
        assert forall|k: int| 0 < k < edits.len() implies #[trigger] edits[k] == rest[k - 1] by {}
    } else {
        lemma_literal_edits_fit(text, pat, rep, from + 1);
    }
}

} // verus!
