//! The targets of one run: files, and standard input under the name `-`.
//!
//! Standard input can be read once only, and there is nothing to write back
//! to: it may be named once at most, and not at all where files are edited
//! in place.

use vstd::prelude::*;

verus! {

/// `-`
pub const HYPHEN: u8 = 0x2d;

/// Why a list of targets is turned down.
#[derive(Debug, Clone, Copy, PartialEq, Eq)]
pub enum TargetError {
    /// Standard input is named more than once.
    StdinTwice,
    /// Standard input is named, and the targets are to be edited in place.
    StdinInPlace,
}

/// Whether a target's name stands for standard input: it is `-` and no more.
pub open spec fn names_stdin(name: Seq<u8>) -> bool {
    name.len() == 1 && name[0] == HYPHEN
}

/// How many of the targets are standard input.
pub open spec fn stdin_count(from_stdin: Seq<bool>) -> nat
    decreases from_stdin.len(),
{
    if from_stdin.len() == 0 {
        0
    } else {
        stdin_count(from_stdin.drop_last()) + if from_stdin.last() {
            1nat
        } else {
            0nat
        }
    }
}

/// What is made of a list of targets, of which `stdin` are standard input.
pub open spec fn targets_checked(stdin: nat, in_place: bool) -> Result<(), TargetError> {
    if stdin > 1 {
        Err(TargetError::StdinTwice)
    } else if in_place && stdin > 0 {
        Err(TargetError::StdinInPlace)
    } else {
        Ok(())
    }
}

/// Whether a target's name stands for standard input.
pub fn is_stdin_name(name: &[u8]) -> (stdin: bool)
    ensures
        stdin == names_stdin(name@),
{
    name.len() == 1 && name[0] == HYPHEN
}

/// Checks the targets of a run before any of them is touched. For each
/// target `from_stdin` says whether it is standard input.
pub fn check_targets(from_stdin: &[bool], in_place: bool) -> (checked: Result<(), TargetError>)
    ensures
        checked == targets_checked(stdin_count(from_stdin@), in_place),
{
    // Two are as bad as any number above: the count stops there.
    let mut seen: usize = 0;
    let mut i: usize = 0;
    while i < from_stdin.len()
        invariant
            i <= from_stdin@.len(),
            seen <= 2,
            seen < 2 ==> seen == stdin_count(from_stdin@.take(i as int)),
            seen == 2 ==> stdin_count(from_stdin@.take(i as int)) >= 2,
        decreases from_stdin@.len() - i,
    {
        assert(from_stdin@.take(i + 1).drop_last() =~= from_stdin@.take(i as int));
        if from_stdin[i] && seen < 2 {
            seen += 1;
        }
        i += 1;
    }
    assert(from_stdin@.take(i as int) =~= from_stdin@);
    if seen > 1 {
        Err(TargetError::StdinTwice)
    } else if in_place && seen > 0 {
        Err(TargetError::StdinInPlace)
    } else {
        Ok(())
    }
}

} // verus!
