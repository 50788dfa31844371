//! The model of a replacement: a line, and the edits made to it.

use vstd::prelude::*;

verus! {

/// One replacement in a line: the bytes from `start` up to `end` give way to
/// `with`.
pub struct Edit {
    pub start: int,
    pub end: int,
    pub with: Seq<u8>,
}

/// The edits lie within a line of `len` bytes, and none begins before the one
/// ahead of it has ended.
pub open spec fn edits_fit(edits: Seq<Edit>, len: int) -> bool {
    &&& forall|i: int|
        0 <= i < edits.len() ==> 0 <= (#[trigger] edits[i]).start <= edits[i].end <= len
    &&& forall|i: int, j: int|
        0 <= i < j < edits.len() ==> (#[trigger] edits[i]).end <= (#[trigger] edits[j]).start
}

/// Where the untouched text goes on after the first `k` edits.
pub open spec fn resume_at(edits: Seq<Edit>, k: int) -> int {
    if k <= 0 {
        0
    } else {
        edits[k - 1].end
    }
}

/// The output as far as the `k`th replacement: for each of the first `k`
/// edits in turn, the text between the edit before it and its start,
/// then what it puts in.
pub open spec fn edited_prefix(text: Seq<u8>, edits: Seq<Edit>, k: int) -> Seq<u8>
    decreases k,
{
    if k <= 0 {
        Seq::empty()
    } else {
        edited_prefix(text, edits, k - 1) + text.subrange(
            resume_at(edits, k - 1),
            edits[k - 1].start,
        ) + edits[k - 1].with
    }
}

/// The line with the first `k` of its edits made.
pub open spec fn apply_edits(text: Seq<u8>, edits: Seq<Edit>, k: int) -> Seq<u8> {
    edited_prefix(text, edits, k) + text.subrange(resume_at(edits, k), text.len() as int)
}

/// How many of `found` matches are replaced: all of them, or the first alone.
pub open spec fn replaced_count(found: nat, all: bool) -> nat {
    if all || found == 0 {
        found
    } else {
        1
    }
}

/// With no edit made, the line stands as it was.
pub proof fn lemma_apply_no_edits(text: Seq<u8>, edits: Seq<Edit>)
    ensures
        apply_edits(text, edits, 0) == text,
{
    assert(apply_edits(text, edits, 0) =~= text);
}

/// Starts that rise from one to the next, none below 0 and none above
/// `bound`, are `bound + 1` at the most.
pub proof fn lemma_rising_starts(starts: Seq<int>, bound: int)
    requires
        forall|i: int| 0 <= i < starts.len() ==> 0 <= #[trigger] starts[i] <= bound,
        forall|i: int, j: int|
            0 <= i < j < starts.len() ==> #[trigger] starts[i] < #[trigger] starts[j],
    ensures
        starts.len() <= bound + 1 || starts.len() == 0,
    decreases starts.len(),
{
    if starts.len() > 1 {
        let rest = starts.drop_last();
        let top = starts.last();
        assert forall|i: int| 0 <= i < rest.len() implies 0 <= #[trigger] rest[i] <= top - 1 by {
            assert(rest[i] == starts[i]);
            assert(starts[i] < starts[starts.len() - 1]);
        }
        assert forall|i: int, j: int| 0 <= i < j < rest.len() implies #[trigger] rest[i]
            < #[trigger] rest[j] by {
            assert(rest[i] == starts[i] && rest[j] == starts[j]);
        }
        lemma_rising_starts(rest, top - 1);
        assert(top == starts[starts.len() - 1]);
    } else if starts.len() == 1 {
        assert(0 <= starts[0] <= bound);
    }
}

/// Edits beyond the first `k` make no difference to what the first `k` of
/// them give.
pub proof fn lemma_apply_first_edits(text: Seq<u8>, a: Seq<Edit>, b: Seq<Edit>, k: int)
    requires
        forall|i: int| 0 <= i < k ==> a[i] == b[i],
    ensures
        edited_prefix(text, a, k) == edited_prefix(text, b, k),
        apply_edits(text, a, k) == apply_edits(text, b, k),
    decreases k,
{
    if k > 0 {
        lemma_apply_first_edits(text, a, b, k - 1);
    }
}

/// The edits that put `rep` in the place of each span.
pub open spec fn template_edits(spans: Seq<(usize, usize)>, rep: Seq<u8>) -> Seq<Edit> {
    Seq::new(
        spans.len(),
        |i: int| Edit { start: spans[i].0 as int, end: spans[i].1 as int, with: rep },
    )
}

/// The edits that put, in the place of each span, the bytes that come with it.
pub open spec fn expansion_edits(found: Seq<(usize, usize, Vec<u8>)>) -> Seq<Edit> {
    Seq::new(
        found.len(),
        |i: int| Edit { start: found[i].0 as int, end: found[i].1 as int, with: found[i].2@ },
    )
}

/// Appends to `buf` the line `text` with `rep` in the place of each of
/// `spans`, or of the first of them alone unless `all`; returns how many
/// were replaced.
pub fn splice_template(
    buf: &mut Vec<u8>,
    text: &[u8],
    spans: &[(usize, usize)],
    rep: &[u8],
    all: bool,
) -> (count: usize)
    requires
        edits_fit(template_edits(spans@, rep@), text@.len() as int),
    ensures
        count == replaced_count(spans@.len(), all),
        final(buf)@ == old(buf)@ + apply_edits(
            text@,
            template_edits(spans@, rep@),
            count as int,
        ),
{
    let ghost edits = template_edits(spans@, rep@);
    let mut last: usize = 0;
    let mut count: usize = 0;
    while count < spans.len() && (all || count == 0)
        invariant
            edits == template_edits(spans@, rep@),
            edits_fit(edits, text@.len() as int),
            count <= spans@.len(),
            all || count <= 1,
            last == resume_at(edits, count as int),
            last <= text@.len(),
            buf@ == old(buf)@ + edited_prefix(text@, edits, count as int),
        decreases spans@.len() - count,
    {
        let (start, end) = spans[count];
        assert(edits[count as int].start == start && edits[count as int].end == end);
        assert(count > 0 ==> edits[count - 1].end <= edits[count as int].start);
        buf.extend_from_slice(&text[last..start]);
        buf.extend_from_slice(rep);
        last = end;
        count += 1;
    }
    buf.extend_from_slice(&text[last..text.len()]);
    count
}

/// Appends to `buf` the line `text` with, in the place of each span of
/// `found`, the bytes that come with it, or the first span alone unless
/// `all`; returns how many were replaced.
pub fn splice_expansions(
    buf: &mut Vec<u8>,
    text: &[u8],
    found: &[(usize, usize, Vec<u8>)],
    all: bool,
) -> (count: usize)
    requires
        edits_fit(expansion_edits(found@), text@.len() as int),
    ensures
        count == replaced_count(found@.len(), all),
        final(buf)@ == old(buf)@ + apply_edits(text@, expansion_edits(found@), count as int),
{
    let ghost edits = expansion_edits(found@);
    let mut last: usize = 0;
    let mut count: usize = 0;
    while count < found.len() && (all || count == 0)
        invariant
            edits == expansion_edits(found@),
            edits_fit(edits, text@.len() as int),
            count <= found@.len(),
            all || count <= 1,
            last == resume_at(edits, count as int),
            last <= text@.len(),
            buf@ == old(buf)@ + edited_prefix(text@, edits, count as int),
        decreases found@.len() - count,
    {
        let start = found[count].0;
        let end = found[count].1;
        assert(edits[count as int].start == start && edits[count as int].end == end);
        assert(count > 0 ==> edits[count - 1].end <= edits[count as int].start);
        buf.extend_from_slice(&text[last..start]);
        buf.extend_from_slice(found[count].2.as_slice());
        last = end;
        count += 1;
    }
    buf.extend_from_slice(&text[last..text.len()]);
    count
}

} // verus!
