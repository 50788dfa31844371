use std::io::{Error, ErrorKind};

use regex::bytes::Regex;
use rp::lines::line_end;
use rp::replace::{Pattern, Replacer, StreamAction, StreamEvent, StreamIOError};

fn through<P: Pattern>(replacer: &Replacer<P>, input: &[u8]) -> Vec<u8> {
    let mut output = vec![];
    replacer.replace_stream(input, &mut output);
    output
}

#[test]
fn only_the_lines_with_a_match_come_out() {
    let input = b"one fish\ntwo fowl\nred fish\n\nblue whale\nfish";
    let made = Replacer::literal(b"fish".to_vec(), b"FISH".to_vec()).print_only_matches(true);
    assert_eq!(through(&made, input), b"one FISH\nred FISH\nFISH");
    let made = Replacer::regex(r"(\w+) fish", b"fish $1".to_vec()).unwrap().print_only_matches(true);
    assert_eq!(through(&made, input), b"fish one\nfish red\n");
}

#[test]
fn no_line_comes_out_where_none_has_a_match() {
    let made = Replacer::literal(b"x".to_vec(), b"y".to_vec()).print_only_matches(true);
    assert_eq!(through(&made, b"a\nb\n\nc"), b"");
    assert_eq!(through(&made, b""), b"");
}

#[test]
fn every_line_comes_out_unless_told() {
    let input = b"one fish\ntwo fowl\nred fish\n\nblue whale\nfish";
    let made = Replacer::literal(b"fish".to_vec(), b"FISH".to_vec());
    assert_eq!(through(&made, input), b"one FISH\ntwo fowl\nred FISH\n\nblue whale\nFISH");
}

#[test]
fn each_line_has_its_own_first_match() {
    let made = Replacer::literal(b"a".to_vec(), b"-".to_vec());
    assert_eq!(through(&made, b"aa\naa\naa"), b"-a\n-a\n-a");
    let made = made.replace_all(true);
    assert_eq!(through(&made, b"aa\naa\naa"), b"--\n--\n--");
}

#[test]
fn the_newline_belongs_to_its_line() {
    let made = Replacer::regex(r"\n", b";".to_vec()).unwrap();
    assert_eq!(through(&made, b"a\nb\nc"), b"a;b;c");
    let made = Replacer::literal(b"\na".to_vec(), b"!".to_vec());
    assert_eq!(through(&made, b"x\nab\nab"), b"x\nab\nab");
    let made = Replacer::regex(r"$", b"!".to_vec()).unwrap().replace_all(true);
    assert_eq!(through(&made, b"a\nb"), b"a!\n!b!");
}

#[test]
fn an_empty_input_gives_an_empty_output() {
    let made = Replacer::regex(r"^", b"> ".to_vec()).unwrap();
    assert_eq!(through(&made, b""), b"");
    assert_eq!(through(&made, b"a\n\nb"), b"> a\n> \n> b");
}

#[test]
fn replace_stream_appends_to_what_is_there() {
    let made = Replacer::literal(b"b".to_vec(), b"B".to_vec());
    let mut output = b"head\n".to_vec();
    made.replace_stream(b"abc\n", &mut output);
    made.replace_stream(b"cba", &mut output);
    assert_eq!(output, b"head\naBc\ncBa");
}

#[test]
fn a_line_that_is_emptied_is_still_written() {
    let made = Replacer::regex(r"^.*\n?", b"".to_vec()).unwrap().print_only_matches(true);
    assert_eq!(through(&made, b"a\nb\n"), b"");
    match made.step(StreamEvent::LineRead(b"a\n")) {
        StreamAction::WriteLine(bytes) => assert_eq!(bytes, b""),
        other => panic!("{:?}", other),
    }
}

#[test]
fn line_end_is_past_the_newline_or_at_the_end() {
    assert_eq!(line_end(b"ab\ncd\n\nef", 0), 3);
    assert_eq!(line_end(b"ab\ncd\n\nef", 1), 3);
    assert_eq!(line_end(b"ab\ncd\n\nef", 2), 3);
    assert_eq!(line_end(b"ab\ncd\n\nef", 3), 6);
    assert_eq!(line_end(b"ab\ncd\n\nef", 6), 7);
    assert_eq!(line_end(b"ab\ncd\n\nef", 7), 9);
    assert_eq!(line_end(b"ab\ncd\n\nef", 9), 9);
    assert_eq!(line_end(b"", 0), 0);
    assert_eq!(line_end(b"\r\n", 0), 2);
}

#[test]
fn the_work_begins_with_a_read_and_reads_on_after_a_write() {
    let made = Replacer::literal(b"a".to_vec(), b"b".to_vec());
    assert!(matches!(made.step(StreamEvent::Started), StreamAction::ReadLine));
    assert!(matches!(made.step(StreamEvent::LineWritten), StreamAction::ReadLine));
}

#[test]
fn a_line_read_is_written_with_its_replacements() {
    let made = Replacer::literal(b"a".to_vec(), b"b".to_vec());
    match made.step(StreamEvent::LineRead(b"banana\n")) {
        StreamAction::WriteLine(bytes) => assert_eq!(bytes, b"bbnana\n"),
        other => panic!("{:?}", other),
    }
    match made.step(StreamEvent::LineRead(b"kiwi\n")) {
        StreamAction::WriteLine(bytes) => assert_eq!(bytes, b"kiwi\n"),
        other => panic!("{:?}", other),
    }
    let made = Replacer::new(Regex::new("(an)+").unwrap(), b"[$0]".to_vec()).replace_all(true);
    match made.step(StreamEvent::LineRead(b"banana and an ant")) {
        StreamAction::WriteLine(bytes) => assert_eq!(bytes, b"b[anan]a [an]d [an] [an]t"),
        other => panic!("{:?}", other),
    }
}

#[test]
fn a_line_without_a_match_is_passed_over_where_only_matches_are_wanted() {
    let made = Replacer::literal(b"a".to_vec(), b"b".to_vec()).print_only_matches(true);
    assert!(matches!(made.step(StreamEvent::LineRead(b"kiwi\n")), StreamAction::ReadLine));
    match made.step(StreamEvent::LineRead(b"banana\n")) {
        StreamAction::WriteLine(bytes) => assert_eq!(bytes, b"bbnana\n"),
        other => panic!("{:?}", other),
    }
}

#[test]
fn an_empty_read_ends_the_work() {
    for only in [false, true] {
        let made = Replacer::literal(b"a".to_vec(), b"b".to_vec()).print_only_matches(only);
        assert!(matches!(made.step(StreamEvent::LineRead(b"")), StreamAction::Finish(Ok(()))));
        let made = Replacer::regex("^", b"x".to_vec()).unwrap().print_only_matches(only);
        assert!(matches!(made.step(StreamEvent::LineRead(b"")), StreamAction::Finish(Ok(()))));
    }
}

#[test]
fn a_failed_read_ends_the_work_with_a_read_error() {
    let made = Replacer::literal(b"a".to_vec(), b"b".to_vec());
    let fault = Error::new(ErrorKind::UnexpectedEof, "the pipe broke");
    match made.step(StreamEvent::ReadFailed(fault)) {
        StreamAction::Finish(Err(StreamIOError::Read(cause))) => {
            assert_eq!(cause.kind(), ErrorKind::UnexpectedEof);
            assert_eq!(cause.to_string(), "the pipe broke");
        }
        other => panic!("{:?}", other),
    }
}

#[test]
fn a_failed_write_ends_the_work_with_a_write_error() {
    let made = Replacer::literal(b"a".to_vec(), b"b".to_vec());
    let fault = Error::new(ErrorKind::WriteZero, "the disk is full");
    match made.step(StreamEvent::WriteFailed(fault)) {
        StreamAction::Finish(Err(StreamIOError::Write(cause))) => {
            assert_eq!(cause.kind(), ErrorKind::WriteZero);
            assert_eq!(cause.to_string(), "the disk is full");
        }
        other => panic!("{:?}", other),
    }
}

fn drive<P: Pattern>(replacer: &Replacer<P>, input: &[u8]) -> Vec<u8> {
    let mut output = vec![];
    let mut pos = 0;
    let mut action = replacer.step(StreamEvent::Started);
    loop {
        action = match action {
            StreamAction::ReadLine => {
                let end = line_end(input, pos);
                let line = &input[pos..end];
                pos = end;
                replacer.step(StreamEvent::LineRead(line))
            }
            StreamAction::WriteLine(bytes) => {
                output.extend_from_slice(&bytes);
                replacer.step(StreamEvent::LineWritten)
            }
            StreamAction::Finish(outcome) => {
                assert!(outcome.is_ok());
                return output;
            }
        };
    }
}

#[test]
fn stepping_through_a_stream_gives_what_replace_stream_gives() {
    let inputs: [&[u8]; 6] = [b"", b"\n", b"abc", b"abc\n", b"a\nbab\n\nccc\nabba", b"\n\n\xffa\n"];
    for input in inputs {
        for only in [false, true] {
            for all in [false, true] {
                let made = Replacer::literal(b"a".to_vec(), b"<>".to_vec())
                    .replace_all(all)
                    .print_only_matches(only);
                assert_eq!(drive(&made, input), through(&made, input));
                let made = Replacer::regex("(a)|b*", b"<$1>".to_vec())
                    .unwrap()
                    .replace_all(all)
                    .print_only_matches(only);
                assert_eq!(drive(&made, input), through(&made, input));
            }
        }
    }
}
