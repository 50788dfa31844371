//! Lines: a line is a run of bytes up to and including the next newline, or
//! what is left of the input where no newline follows.

use vstd::prelude::*;

use crate::ascii::NEWLINE;
use crate::search::{find_byte, first_index_of, lemma_first_index_of};

verus! {

/// The length of the first line of `input`.
pub open spec fn line_len(input: Seq<u8>) -> int {
    let newline = first_index_of(input, NEWLINE);
    if 0 <= newline < input.len() {
        newline + 1
    } else {
        input.len() as int
    }
}

/// Whether `lines` are the lines of one input, as they are read from it:
/// none is empty, a newline stands nowhere but at the end of a line, and
/// every line but the last ends in one.
pub open spec fn are_lines(lines: Seq<Seq<u8>>) -> bool {
    forall|i: int|
        0 <= i < lines.len() ==> {
            &&& (#[trigger] lines[i]).len() > 0
            &&& forall|j: int| 0 <= j < lines[i].len() - 1 ==> lines[i][j] != NEWLINE
            &&& i < lines.len() - 1 ==> lines[i].last() == NEWLINE
        }
}

/// The lines set one after another.
pub open spec fn joined(lines: Seq<Seq<u8>>) -> Seq<u8>
    decreases lines.len(),
{
    if lines.len() == 0 {
        Seq::empty()
    } else {
        lines[0] + joined(lines.skip(1))
    }
}

/// The first line of an input is found again when the input is split.
pub proof fn lemma_first_line(lines: Seq<Seq<u8>>)
    requires
        are_lines(lines),
        lines.len() > 0,
    ensures
        line_len(joined(lines)) == lines[0].len(),
        joined(lines).take(lines[0].len() as int) == lines[0],
        joined(lines).skip(lines[0].len() as int) == joined(lines.skip(1)),
        are_lines(lines.skip(1)),
{
    let first = lines[0];
    let rest = joined(lines.skip(1));
    let input = joined(lines);
    assert(input =~= first + rest);
    assert(input.take(first.len() as int) =~= first);
    assert(input.skip(first.len() as int) =~= rest);
    assert(are_lines(lines.skip(1))) by {
        assert forall|i: int| 0 <= i < lines.skip(1).len() implies {
            &&& (#[trigger] lines.skip(1)[i]).len() > 0
            &&& forall|j: int|
                0 <= j < lines.skip(1)[i].len() - 1 ==> lines.skip(1)[i][j] != NEWLINE
            &&& i < lines.skip(1).len() - 1 ==> lines.skip(1)[i].last() == NEWLINE
        } by {
            assert(lines.skip(1)[i] == lines[i + 1]);
        }
    }
    if first.last() == NEWLINE {
        assert forall|j: int| 0 <= j < first.len() - 1 implies input[j] != NEWLINE by {
            assert(input[j] == first[j]);
        }
        assert(input[first.len() - 1] == first.last());
        lemma_first_index_of(input, NEWLINE, first.len() - 1);
    } else {
        // Only the last line can go without a newline.
        assert(lines.len() == 1);
        assert(lines.skip(1).len() == 0);
        assert(input =~= first);
        lemma_first_index_of(input, NEWLINE, first.len() as int);
    }
}

/// The index at which the line that starts at `from` ends.
pub fn line_end(input: &[u8], from: usize) -> (end: usize)
    requires
        from <= input@.len(),
    ensures
        end == from + line_len(input@.skip(from as int)),
        from <= end <= input@.len(),
        from < input@.len() ==> from < end,
{
    let len = input.len();
    assert(input@.skip(from as int) =~= input@.subrange(from as int, len as int));
    match find_byte(NEWLINE, &input[from..len]) {
        Some(offset) => {
            proof {
                lemma_first_index_of(input@.skip(from as int), NEWLINE, offset as int);
            }
            from + offset + 1
        },
        None => {
            proof {
                lemma_first_index_of(input@.skip(from as int), NEWLINE, len - from);
            }
            len
        },
    }
}

} // verus!
