//! Patterns, and the replacer that applies one to every line of a stream.

use vstd::prelude::*;

use regex::bytes::Regex;

use crate::edit::{
    apply_edits, edited_prefix, expansion_edits, lemma_apply_first_edits, lemma_apply_no_edits,
    lemma_rising_starts, replaced_count, resume_at, splice_expansions, splice_template,
    template_edits, Edit,
};
use crate::literal::{
    lemma_literal_edits_none, lemma_literal_edits_skip, lemma_occurs_in_rest, literal_edits,
    literal_edits_from,
};
use crate::lines::{are_lines, joined, lemma_first_line, line_end, line_len};
use crate::regexp::{
    compile, expand_first_match, expand_matches, find_first_span, find_spans, regex_compiled,
    regex_edits, template_is_fixed,
};
use crate::search::{find_bytes, occurs_at};
use crate::template::{find_unclosed_group, unclosed_group};

verus! {

/// Something that can be looked for in a line and replaced there.
pub trait Pattern {
    /// The matches of the pattern in `text`, in order, each with the bytes
    /// that the template `rep` puts in its place.
    spec fn edits(&self, text: Seq<u8>, rep: Seq<u8>) -> Seq<Edit>;

    /// Makes replacements in `text` and appends the result to `buf`, which
    /// is never cleared. Every match is replaced if `all`, else the first
    /// alone. Returns the number of replacements made.
    ///
    /// A line in which the pattern does not occur is appended as it stands,
    /// and 0 is returned. In an empty line nothing is ever replaced.
    fn replace_into(&self, buf: &mut Vec<u8>, text: &[u8], rep: &[u8], all: bool) -> (count:
        usize)
        ensures
            count == replaced_count(self.edits(text@, rep@).len(), all),
            final(buf)@ == old(buf)@ + apply_edits(
                text@,
                self.edits(text@, rep@),
                count as int,
            ),
            self.edits(text@, rep@).len() == 0 ==> count == 0 && final(buf)@ == old(buf)@
                + text@,
            text@.len() == 0 ==> count == 0 && final(buf)@ == old(buf)@,
    ;
}

impl Pattern for Regex {
    open spec fn edits(&self, text: Seq<u8>, rep: Seq<u8>) -> Seq<Edit> {
        regex_edits(*self, text, rep)
    }

    /// However often the pattern matches nothing at all, it is replaced
    /// once at an index at the most: the count never goes beyond the length
    /// of the line by more than one.
    fn replace_into(&self, buf: &mut Vec<u8>, text: &[u8], rep: &[u8], all: bool) -> (count:
        usize)
        ensures
            count <= text@.len() + 1,
    {
        proof {
            lemma_apply_no_edits(text@, self.edits(text@, rep@));
        }
        // An empty line is left alone, whatever the pattern would match in it.
        if text.len() == 0 {
            assert(buf@ + text@ =~= buf@);
            return 0;
        }
        if template_is_fixed(rep) {
            // No group is referred to: the matches are enough.
            let spans = if all {
                find_spans(self, text)
            } else {
                // Nothing is looked for beyond the first match.
                let mut first: Vec<(usize, usize)> = Vec::new();
                if let Some(span) = find_first_span(self, text) {
                    first.push(span);
                }
                first
            };
            proof {
                lemma_apply_first_edits(
                    text@,
                    template_edits(spans@, rep@),
                    self.edits(text@, rep@),
                    spans@.len() as int,
                );
                lemma_rising_starts(
                    Seq::new(spans@.len(), |i: int| spans@[i].0 as int),
                    text@.len() as int,
                );
            }
            splice_template(buf, text, spans.as_slice(), rep, all)
        } else {
            let found = if all {
                expand_matches(self, text, rep)
            } else {
                let mut first: Vec<(usize, usize, Vec<u8>)> = Vec::new();
                if let Some(expanded) = expand_first_match(self, text, rep) {
                    first.push(expanded);
                }
                first
            };
            proof {
                lemma_apply_first_edits(
                    text@,
                    expansion_edits(found@),
                    self.edits(text@, rep@),
                    found@.len() as int,
                );
                lemma_rising_starts(
                    Seq::new(found@.len(), |i: int| found@[i].0 as int),
                    text@.len() as int,
                );
            }
            splice_expansions(buf, text, found.as_slice(), all)
        }
    }
}

impl<'a> Pattern for &'a [u8] {
    open spec fn edits(&self, text: Seq<u8>, rep: Seq<u8>) -> Seq<Edit> {
        literal_edits(text, self@, rep)
    }

    fn replace_into(&self, buf: &mut Vec<u8>, text: &[u8], rep: &[u8], all: bool) -> (count:
        usize) {
        let pat: &[u8] = *self;
        let ghost edits = literal_edits(text@, pat@, rep@);
        let mut last: usize = 0;
        let mut count: usize = 0;
        // An empty pattern occurs nowhere: there is nothing to look for.
        let mut searching = pat.len() > 0;
        while searching && (all || count == 0)
            invariant
                edits == literal_edits(text@, pat@, rep@),
                count <= edits.len(),
                count <= last <= text@.len(),
                all || count <= 1,
                last == resume_at(edits, count as int),
                searching ==> pat@.len() > 0,
                searching ==> edits.skip(count as int) =~= literal_edits_from(
                    text@,
                    pat@,
                    rep@,
                    last as int,
                ),
                !searching ==> count == edits.len(),
                buf@ == old(buf)@ + edited_prefix(text@, edits, count as int),
            decreases text@.len() - last + (if searching { 1int } else { 0int }),
        {
            match find_bytes(&text[last..text.len()], pat) {
                Some(offset) => {
                    proof {
                        lemma_occurs_in_rest(text@, pat@, last as int, offset as int);
                        assert forall|j: int| last <= j < last + offset implies !occurs_at(
                            text@,
                            pat@,
                            j,
                        ) by {
                            lemma_occurs_in_rest(text@, pat@, last as int, j - last);
                        }
                        lemma_literal_edits_skip(
                            text@,
                            pat@,
                            rep@,
                            last as int,
                            last + offset,
                        );
                    }
                    let start = last + offset;
                    let ghost rest = literal_edits_from(
                        text@,
                        pat@,
                        rep@,
                        start + pat@.len(),
                    );
                    let ghost edit = Edit {
                        start: start as int,
                        end: start + pat@.len(),
                        with: rep@,
                    };
                    assert(edits.skip(count as int) =~= seq![edit] + rest);
                    assert(edits[count as int] == edits.skip(count as int)[0]);
                    assert(edits.skip(count + 1) =~= edits.skip(count as int).skip(1));
                    buf.extend_from_slice(&text[last..start]);
                    buf.extend_from_slice(rep);
                    last = start + pat.len();
                    count += 1;
                },
                None => {
                    proof {
                        assert forall|j: int| last <= j implies !occurs_at(text@, pat@, j) by {
                            lemma_occurs_in_rest(text@, pat@, last as int, j - last);
                        }
                        lemma_literal_edits_none(text@, pat@, rep@, last as int);
                        assert(edits.skip(count as int).len() == 0);
                    }
                    searching = false;
                },
            }
        }
        buf.extend_from_slice(&text[last..text.len()]);
        proof {
            lemma_apply_no_edits(text@, edits);
            if text@.len() == 0 {
                assert(old(buf)@ + text@ =~= old(buf)@);
            }
        }
        count
    }
}

impl Pattern for Vec<u8> {
    open spec fn edits(&self, text: Seq<u8>, rep: Seq<u8>) -> Seq<Edit> {
        literal_edits(text, self@, rep)
    }

    fn replace_into(&self, buf: &mut Vec<u8>, text: &[u8], rep: &[u8], all: bool) -> (count:
        usize) {
        let pat: &[u8] = self.as_slice();
        pat.replace_into(buf, text, rep, all)
    }
}

/// `std::io::Error`, carried from where reading or writing failed to the
/// outcome of the work; nothing here looks into it.
#[verifier::external_type_specification]
#[verifier::external_body]
pub struct ExIoError(std::io::Error);

/// Why the input or the output could not be worked through to the end.
#[derive(Debug)]
pub enum StreamIOError {
    /// The input could not be read.
    Read(std::io::Error),
    /// The output could not be written.
    Write(std::io::Error),
}

/// Why a replacer for a regular expression could not be made.
#[derive(Debug, PartialEq, Eq)]
pub enum BuildError {
    /// The pattern was turned down, for the reason given.
    Pattern(String),
    /// The template holds a `${` that nothing closes; the index is that of
    /// its `$`.
    Template(usize),
}

/// What the reader and writer of a stream have last done.
pub enum StreamEvent<'a> {
    /// Nothing yet.
    Started,
    /// A line was read: its bytes, the newline included; none at the end of
    /// the input.
    LineRead(&'a [u8]),
    /// Reading failed.
    ReadFailed(std::io::Error),
    /// The bytes handed over were written.
    LineWritten,
    /// Writing failed.
    WriteFailed(std::io::Error),
}

/// What the reader and writer of a stream are to do next.
#[derive(Debug)]
pub enum StreamAction {
    /// Read the next line.
    ReadLine,
    /// Write these bytes.
    WriteLine(Vec<u8>),
    /// Stop, with this outcome.
    Finish(Result<(), StreamIOError>),
}

/// A pattern, the template that replaces it, and two switches: whether every
/// match in a line is replaced or the first alone, and whether lines without
/// a match are left out of the output.
#[derive(Debug, Clone)]
pub struct Replacer<P> {
    pattern: P,
    replacement: Vec<u8>,
    replace_all: bool,
    print_only_matches: bool,
}

/// What becomes of a compiled pattern and a template: a template with an
/// unclosed `${` is turned down first, then a pattern that did not compile;
/// otherwise a replacer is made that replaces the first match in a line and
/// puts out every line.
pub open spec fn regex_replacer_made(
    compiled: Result<Regex, String>,
    replacement: Seq<u8>,
    made: Result<Replacer<Regex>, BuildError>,
) -> bool {
    match unclosed_group(replacement) {
        Some(at) => made == Err::<Replacer<Regex>, BuildError>(
            BuildError::Template(at as usize),
        ),
        None => match compiled {
            Err(fault) => made == Err::<Replacer<Regex>, BuildError>(BuildError::Pattern(fault)),
            Ok(re) => {
                &&& made matches Ok(replacer)
                &&& replacer.pattern() == re
                &&& replacer.template() == replacement
                &&& !replacer.every_match()
                &&& !replacer.matching_only()
            },
        },
    }
}

impl Replacer<()> {
    /// A replacer for the regular expression `re`, in which `^` and `$`
    /// match at the start and end of every line, and letters match in their
    /// own case only. Only the first match in a line is replaced, and every
    /// line is put out.
    ///
    /// A template with a `${` that nothing closes is turned down, whatever
    /// the pattern; then a pattern that does not compile is turned down,
    /// with the reason that the `regex` crate gives.
    pub fn regex(re: &str, replacement: Vec<u8>) -> (made: Result<Replacer<Regex>, BuildError>)
        ensures
            regex_replacer_made(regex_compiled(re@, true, false), replacement@, made),
    {
        Replacer::regex_with_case(re, replacement, false)
    }

    /// As `regex`, but letters match in either case if `ignore_case`.
    pub fn regex_with_case(re: &str, replacement: Vec<u8>, ignore_case: bool) -> (made: Result<
        Replacer<Regex>,
        BuildError,
    >)
        ensures
            regex_replacer_made(regex_compiled(re@, true, ignore_case), replacement@, made),
    {
        Replacer::from_compiled(compile(re, true, ignore_case), replacement)
    }

    /// Makes a replacer of a pattern as it came back from compiling, and of
    /// a template.
    pub fn from_compiled(compiled: Result<Regex, String>, replacement: Vec<u8>) -> (made: Result<
        Replacer<Regex>,
        BuildError,
    >)
        ensures
            regex_replacer_made(compiled, replacement@, made),
    {
        match find_unclosed_group(replacement.as_slice()) {
            Some(at) => Err(BuildError::Template(at)),
            None => match compiled {
                Err(fault) => Err(BuildError::Pattern(fault)),
                Ok(pattern) => Ok(
                    Replacer { pattern, replacement, replace_all: false, print_only_matches: false },
                ),
            },
        }
    }

    /// A replacer for the bytes `pattern`, looked for as they stand. Only
    /// the first match in a line is replaced, and every line is put out.
    pub fn literal(pattern: Vec<u8>, replacement: Vec<u8>) -> (made: Replacer<Vec<u8>>)
        ensures
            made.pattern() == pattern,
            made.template() == replacement@,
            !made.every_match(),
            !made.matching_only(),
    {
        Replacer { pattern, replacement, replace_all: false, print_only_matches: false }
    }
}

impl<P> Replacer<P> {
    /// The pattern looked for.
    pub closed spec fn pattern(&self) -> P {
        self.pattern
    }

    /// The template that takes the place of a match.
    pub closed spec fn template(&self) -> Seq<u8> {
        self.replacement@
    }

    /// Whether every match in a line is replaced, not the first alone.
    pub closed spec fn every_match(&self) -> bool {
        self.replace_all
    }

    /// Whether lines without a match are left out.
    pub closed spec fn matching_only(&self) -> bool {
        self.print_only_matches
    }

    /// Sets whether every match in a line is replaced, or the first alone.
    pub fn replace_all(self, replace_all: bool) -> (made: Self)
        ensures
            made.every_match() == replace_all,
            made.pattern() == self.pattern(),
            made.template() == self.template(),
            made.matching_only() == self.matching_only(),
    {
        Replacer {
            pattern: self.pattern,
            replacement: self.replacement,
            replace_all,
            print_only_matches: self.print_only_matches,
        }
    }

    /// Sets whether lines in which nothing was replaced are left out.
    pub fn print_only_matches(self, print_only_matches: bool) -> (made: Self)
        ensures
            made.matching_only() == print_only_matches,
            made.pattern() == self.pattern(),
            made.template() == self.template(),
            made.every_match() == self.every_match(),
    {
        Replacer {
            pattern: self.pattern,
            replacement: self.replacement,
            replace_all: self.replace_all,
            print_only_matches,
        }
    }
}

impl<P: Pattern> Replacer<P> {
    /// A replacer for any pattern. Only the first match in a line is
    /// replaced, and every line is put out.
    pub fn new(pattern: P, replacement: Vec<u8>) -> (made: Replacer<P>)
        ensures
            made.pattern() == pattern,
            made.template() == replacement@,
            !made.every_match(),
            !made.matching_only(),
    {
        Replacer { pattern, replacement, replace_all: false, print_only_matches: false }
    }

    /// The matches in `line`, each with what replaces it.
    pub open spec fn line_edits(&self, line: Seq<u8>) -> Seq<Edit> {
        self.pattern().edits(line, self.template())
    }

    /// How many replacements are made in `line`.
    pub open spec fn line_count(&self, line: Seq<u8>) -> nat {
        replaced_count(self.line_edits(line).len(), self.every_match())
    }

    /// `line` with its replacements made.
    pub open spec fn replaced_line(&self, line: Seq<u8>) -> Seq<u8> {
        apply_edits(line, self.line_edits(line), self.line_count(line) as int)
    }

    /// Whether `line` is left out of the output: nothing was replaced in it,
    /// and only lines with a match are wanted.
    pub open spec fn drops(&self, line: Seq<u8>) -> bool {
        self.matching_only() && self.line_count(line) == 0
    }

    /// What is put out for `line`: nothing at all where it is left out.
    pub open spec fn line_output(&self, line: Seq<u8>) -> Seq<u8> {
        if self.drops(line) {
            Seq::empty()
        } else {
            self.replaced_line(line)
        }
    }

    /// What is put out for a whole input, line after line.
    pub open spec fn stream_output(&self, input: Seq<u8>) -> Seq<u8>
        decreases input.len(),
    {
        if input.len() == 0 {
            Seq::empty()
        } else {
            let first = line_len(input);
            self.line_output(input.take(first)) + self.stream_output(input.skip(first))
        }
    }

    /// What is put out for each of `lines` in turn: the line with its
    /// replacements made, and nothing for a line that is left out.
    pub open spec fn emitted(&self, lines: Seq<Seq<u8>>) -> Seq<Seq<u8>>
        decreases lines.len(),
    {
        if lines.len() == 0 {
            Seq::empty()
        } else if self.drops(lines[0]) {
            self.emitted(lines.skip(1))
        } else {
            seq![self.replaced_line(lines[0])] + self.emitted(lines.skip(1))
        }
    }

    /// The output of a stream is made of the lines that are not left out,
    /// each with its replacements made, in the order in which they were
    /// read, and of nothing else. Where only lines with a match are wanted,
    /// these are the lines in which something was replaced.
    pub proof fn lemma_stream_output_by_line(&self, lines: Seq<Seq<u8>>)
        requires
            are_lines(lines),
        ensures
            self.stream_output(joined(lines)) == joined(self.emitted(lines)),
        decreases lines.len(),
    {
        if lines.len() > 0 {
            lemma_first_line(lines);
            self.lemma_stream_output_by_line(lines.skip(1));
            let rest = self.emitted(lines.skip(1));
            if self.drops(lines[0]) {
                assert(Seq::<u8>::empty() + joined(rest) =~= joined(rest));
            } else {
                let put_out = seq![self.replaced_line(lines[0])] + rest;
                assert(put_out[0] == self.replaced_line(lines[0]));
                assert(put_out.skip(1) =~= rest);
            }
        }
    }

    /// Decides what is done next to a stream, from what was last done to it.
    ///
    /// Reading opens, and follows every write. A line that is read is
    /// replaced in and handed back to be written, or passed over where it
    /// is left out; an empty read is the end of the input. A failure ends
    /// the work at once with the error that says which side failed.
    pub fn step(&self, event: StreamEvent<'_>) -> (action: StreamAction)
        ensures
            match event {
                StreamEvent::Started | StreamEvent::LineWritten => action is ReadLine,
                StreamEvent::LineRead(line) => if line@.len() == 0 {
                    action matches StreamAction::Finish(Ok(_))
                } else if self.drops(line@) {
                    action is ReadLine
                } else {
                    action matches StreamAction::WriteLine(bytes) && bytes@ == self.replaced_line(
                        line@,
                    )
                },
                StreamEvent::ReadFailed(fault) => action matches StreamAction::Finish(
                    Err(StreamIOError::Read(cause)),
                ) && cause == fault,
                StreamEvent::WriteFailed(fault) => action matches StreamAction::Finish(
                    Err(StreamIOError::Write(cause)),
                ) && cause == fault,
            },
    {
        match event {
            StreamEvent::Started => StreamAction::ReadLine,
            StreamEvent::LineWritten => StreamAction::ReadLine,
            StreamEvent::LineRead(line) => {
                if line.len() == 0 {
                    return StreamAction::Finish(Ok(()));
                }
                let mut replaced: Vec<u8> = Vec::new();
                let count = self.pattern.replace_into(
                    &mut replaced,
                    line,
                    self.replacement.as_slice(),
                    self.replace_all,
                );
                assert(replaced@ =~= self.replaced_line(line@));
                if !self.print_only_matches || count != 0 {
                    StreamAction::WriteLine(replaced)
                } else {
                    StreamAction::ReadLine
                }
            },
            StreamEvent::ReadFailed(fault) => StreamAction::Finish(Err(StreamIOError::Read(fault))),
            StreamEvent::WriteFailed(fault) => StreamAction::Finish(
                Err(StreamIOError::Write(fault)),
            ),
        }
    }

    /// Replaces in every line of `input` and appends what is put out to
    /// `output`: the lines in the order in which they stand, each with its
    /// replacements made, without those that are left out.
    pub fn replace_stream(&self, input: &[u8], output: &mut Vec<u8>)
        ensures
            final(output)@ == old(output)@ + self.stream_output(input@),
    {
        let len = input.len();
        let mut scratch: Vec<u8> = Vec::new();
        let mut pos: usize = 0;
        assert(input@.skip(0) =~= input@);
        while pos < len
            invariant
                len == input@.len(),
                pos <= len,
                output@ + self.stream_output(input@.skip(pos as int)) == old(output)@
                    + self.stream_output(input@),
            decreases len - pos,
        {
            let ghost rest = input@.skip(pos as int);
            let ghost before = output@;
            let end = line_end(input, pos);
            let line = &input[pos..end];
            assert(rest.take(end - pos) =~= line@);
            assert(rest.skip(end - pos) =~= input@.skip(end as int));
            scratch.clear();
            let count = self.pattern.replace_into(
                &mut scratch,
                line,
                self.replacement.as_slice(),
                self.replace_all,
            );
            assert(scratch@ =~= self.replaced_line(line@));
            if !self.print_only_matches || count != 0 {
                output.extend_from_slice(scratch.as_slice());
            }
            assert(output@ =~= before + self.line_output(line@));
            assert((before + self.line_output(line@)) + self.stream_output(
                input@.skip(end as int),
            ) =~= before + (self.line_output(line@) + self.stream_output(
                input@.skip(end as int),
            )));
            pos = end;
        }
        assert(self.stream_output(input@.skip(pos as int)) =~= Seq::<u8>::empty());
        assert(output@ + Seq::<u8>::empty() =~= output@);
    }
}

} // verus!
