//! The regular-expression engine, as far as the replacer relies on it.
//!
//! Matching and template expansion are the work of the `regex` crate. What
//! it finds in a line is not proved here: it is named, and the items of this
//! module say how the crate's results relate to those names.

use vstd::prelude::*;

use regex::bytes::Regex;

use crate::ascii::DOLLAR;
use crate::edit::Edit;

verus! {

/// `regex::bytes::Regex`, a compiled regular expression over bytes. What it
/// matches is known through `regex_matches` alone.
#[verifier::external_type_specification]
#[verifier::external_body]
pub struct ExRegex(regex::bytes::Regex);

/// The successive non-overlapping matches of `re` in `text`, each as the
/// index at which it starts and the index at which it ends: what
/// `Regex::find_iter` yields.
pub uninterp spec fn regex_matches(re: Regex, text: Seq<u8>) -> Seq<(int, int)>;

/// For each match of `re` in `text` in turn, the template `rep` with its
/// references to capture groups filled in from that match: what
/// `Captures::expand` appends for it.
pub uninterp spec fn regex_expansions(re: Regex, text: Seq<u8>, rep: Seq<u8>) -> Seq<Seq<u8>>;

/// What compiling `pattern` gives with the two flags set as given: the
/// compiled expression, or the `regex` crate's account of why it turns the
/// pattern down. This is what `RegexBuilder::build` returns.
pub uninterp spec fn regex_compiled(pattern: Seq<char>, multi_line: bool, case_insensitive: bool) -> Result<Regex, String>;

/// Whether a template is used as it stands: it holds no `$`, so that nothing
/// in it refers to a capture group.
pub open spec fn is_fixed_template(rep: Seq<u8>) -> bool {
    forall|i: int| 0 <= i < rep.len() ==> rep[i] != DOLLAR
}

/// The edits that `re` makes to a line with the template `rep`. An empty
/// line is left alone, whatever the pattern.
pub open spec fn regex_edits(re: Regex, text: Seq<u8>, rep: Seq<u8>) -> Seq<Edit> {
    let found = regex_matches(re, text);
    if text.len() == 0 {
        Seq::empty()
    } else if is_fixed_template(rep) {
        Seq::new(found.len(), |i: int| Edit { start: found[i].0, end: found[i].1, with: rep })
    } else {
        Seq::new(
            found.len(),
            |i: int|
                Edit {
                    start: found[i].0,
                    end: found[i].1,
                    with: regex_expansions(re, text, rep)[i],
                },
        )
    }
}

/// A line in which the pattern has no match has no edits: it is put out as
/// it stands, with nothing counted.
pub proof fn lemma_regex_edits_without_match(re: Regex, text: Seq<u8>, rep: Seq<u8>)
    requires
        regex_matches(re, text).len() == 0,
    ensures
        regex_edits(re, text, rep).len() == 0,
{
}

/// Calls `RegexBuilder::build` on `pattern` with the two flags set as given
/// and every other option left as the builder has it. Whether the pattern is
/// accepted is for the `regex` crate to say, and depends on nothing but
/// what is handed over here; where it is not, what comes back is the crate's
/// own account of the fault.
#[verifier::external_body]
pub(crate) fn compile(pattern: &str, multi_line: bool, case_insensitive: bool) -> (compiled:
    Result<Regex, String>)
    ensures
        compiled == regex_compiled(pattern@, multi_line, case_insensitive),
{
    regex::bytes::RegexBuilder::new(pattern)
        .multi_line(multi_line)
        .case_insensitive(case_insensitive)
        .build()
        .map_err(|fault| fault.to_string())
}

/// Calls `Replacer::no_expansion` of the `regex` crate on a byte template:
/// it answers with the template itself exactly where the template holds no
/// `$`.
#[verifier::external_body]
pub(crate) fn template_is_fixed(rep: &[u8]) -> (fixed: bool)
    ensures
        fixed == is_fixed_template(rep@),
{
    let mut template: &[u8] = rep;
    regex::bytes::Replacer::no_expansion(&mut template).is_some()
}

/// Calls `Regex::find`: the first match in `text`, as its start and end. It
/// is the first of the matches that `Regex::find_iter` yields.
#[verifier::external_body]
pub(crate) fn find_first_span(re: &Regex, text: &[u8]) -> (first: Option<(usize, usize)>)
    ensures
        match first {
            Some(span) => {
                &&& regex_matches(*re, text@).len() > 0
                &&& span.0 == regex_matches(*re, text@)[0].0
                &&& span.1 == regex_matches(*re, text@)[0].1
                &&& span.0 <= span.1 <= text@.len()
            },
            None => regex_matches(*re, text@).len() == 0,
        },
{
    re.find(text).map(|m| (m.start(), m.end()))
}

/// Calls `Regex::captures`, which finds the match that `Regex::find` finds,
/// and hands it out as the start and end of the whole match
/// (`Captures::get_match`) and the bytes that `Captures::expand` appends for
/// the template `rep`.
#[verifier::external_body]
pub(crate) fn expand_first_match(re: &Regex, text: &[u8], rep: &[u8]) -> (first: Option<
    (usize, usize, Vec<u8>),
>)
    ensures
        match first {
            Some(found) => {
                &&& regex_matches(*re, text@).len() > 0
                &&& found.0 == regex_matches(*re, text@)[0].0
                &&& found.1 == regex_matches(*re, text@)[0].1
                &&& found.2@ == regex_expansions(*re, text@, rep@)[0]
                &&& found.0 <= found.1 <= text@.len()
            },
            None => regex_matches(*re, text@).len() == 0,
        },
{
    re.captures(text).map(
        |caps| {
            let whole = caps.get_match();
            let mut expanded = Vec::new();
            caps.expand(rep, &mut expanded);
            (whole.start(), whole.end(), expanded)
        },
    )
}

/// Calls `Regex::find_iter` and hands out each match as its start and end.
/// The matches lie within `text`, and each starts where the one before it
/// ended, or later. No two start at the same index: after an empty match
/// the search moves on by a byte.
#[verifier::external_body]
pub(crate) fn find_spans(re: &Regex, text: &[u8]) -> (spans: Vec<(usize, usize)>)
    ensures
        spans@.len() == regex_matches(*re, text@).len(),
        forall|i: int|
            0 <= i < spans@.len() ==> (#[trigger] spans@[i]).0 == regex_matches(*re, text@)[i].0
                && spans@[i].1 == regex_matches(*re, text@)[i].1,
        forall|i: int|
            0 <= i < spans@.len() ==> (#[trigger] spans@[i]).0 <= spans@[i].1 <= text@.len(),
        forall|i: int, j: int|
            0 <= i < j < spans@.len() ==> (#[trigger] spans@[i]).1 <= (#[trigger] spans@[j]).0
                && spans@[i].0 < spans@[j].0,
{
    re.find_iter(text).map(|m| (m.start(), m.end())).collect()
}

/// Calls `Regex::captures_iter`, which finds the matches that
/// `Regex::find_iter` finds, and hands out each as the start and end of the
/// whole match (`Captures::get_match`) and the bytes that
/// `Captures::expand` appends for the template `rep`. As there, the matches
/// lie within `text` in order, and no two start at the same index.
#[verifier::external_body]
pub(crate) fn expand_matches(re: &Regex, text: &[u8], rep: &[u8]) -> (found: Vec<
    (usize, usize, Vec<u8>),
>)
    ensures
        found@.len() == regex_matches(*re, text@).len(),
        forall|i: int|
            0 <= i < found@.len() ==> (#[trigger] found@[i]).0 == regex_matches(*re, text@)[i].0
                && found@[i].1 == regex_matches(*re, text@)[i].1 && found@[i].2@
                == regex_expansions(*re, text@, rep@)[i],
        forall|i: int|
            0 <= i < found@.len() ==> (#[trigger] found@[i]).0 <= found@[i].1 <= text@.len(),
        forall|i: int, j: int|
            0 <= i < j < found@.len() ==> (#[trigger] found@[i]).1 <= (#[trigger] found@[j]).0
                && found@[i].0 < found@[j].0,
{
    re.captures_iter(text).map(
        |caps| {
            let whole = caps.get_match();
            let mut expanded = Vec::new();
            caps.expand(rep, &mut expanded);
            (whole.start(), whole.end(), expanded)
        },
    ).collect()
}

} // verus!
