use rp::unescape::{nibble, parse_hex, parse_unicode, unescape_bytes, Error, ErrorKind};

#[test]
fn test_nibble() {
    assert_eq!(nibble(b'0').unwrap(), 0);
    assert_eq!(nibble(b'1').unwrap(), 1);
    assert_eq!(nibble(b'A').unwrap(), 10);
    assert_eq!(nibble(b'a').unwrap(), 10);
    assert_eq!(nibble(b'F').unwrap(), 15);
    assert_eq!(nibble(b'f').unwrap(), 15);

    assert!(nibble(b'-').is_err());
    assert!(nibble(b'\0').is_err());
    assert!(nibble(b'g').is_err());
    assert!(nibble(b'\n').is_err());
}

#[test]
fn test_hex() {
    assert_eq!(parse_hex("00".as_bytes()).unwrap(), 0);
    assert_eq!(parse_hex("10".as_bytes()).unwrap(), 0x10);
    assert_eq!(parse_hex("FE".as_bytes()).unwrap(), 0xfe);
    assert_eq!(parse_hex("ed".as_bytes()).unwrap(), 0xed);

    assert!(parse_hex("".as_bytes()).is_err());
    assert!(parse_hex("0".as_bytes()).is_err());
    assert!(parse_hex("x".as_bytes()).is_err());
    assert!(parse_hex("0g".as_bytes()).is_err());
}

#[test]
fn test_unicode() {
    assert_eq!(parse_unicode("{0}".as_bytes()).unwrap(), (0, 3));
    assert_eq!(parse_unicode("{9}".as_bytes()).unwrap(), ('\t' as u32, 3));
    assert_eq!(parse_unicode("{0009}".as_bytes()).unwrap(), ('\t' as u32, 6));
    assert_eq!(parse_unicode("{1b}".as_bytes()).unwrap(), (0x1b, 4));
    assert_eq!(parse_unicode("{1F600}".as_bytes()).unwrap(), ('\u{1F600}' as u32, 7));
    // invalid codepoint, but still parsable
    assert_eq!(parse_unicode("{D800}".as_bytes()).unwrap(), (0xD800, 6));

    assert!(parse_unicode("".as_bytes()).is_err());
    assert!(parse_unicode("{}".as_bytes()).is_err());
    assert!(parse_unicode("{0   ".as_bytes()).is_err());
    assert!(parse_unicode("{123456789}".as_bytes()).is_err());
    assert!(parse_unicode("{123X}".as_bytes()).is_err());
}

fn check(input: &str, expected: &[u8]) {
    assert_eq!(unescape_bytes(input.as_bytes()).unwrap(), expected);
}

#[test]
fn test_unescape() {
    check(r"hello\x20world", "hello world".as_bytes());
    check(r"hello\0world", "hello\0world".as_bytes());
    check(r"hello\xFFworld", b"hello\xffworld");
    check(r"hello\u{1F600}world", "hello\u{1F600}world".as_bytes());
    check(r"hello\u{000020}world", "hello world".as_bytes());
    check(r"hello\u{20}world", "hello world".as_bytes());
    check(r"hello\x20world\n", "hello world\n".as_bytes());
    check(r"\n\n\n\xff\u{1234}", b"\n\n\n\xff\xe1\x88\xb4");

    assert!(unescape_bytes(r"hello\".as_bytes()).is_err());
    assert!(unescape_bytes(r"hello\xgg".as_bytes()).is_err());
    assert!(unescape_bytes(r"hello\x{ff}".as_bytes()).is_err());
    assert!(unescape_bytes(r"\u{D800}".as_bytes()).is_err()); // not a valid unicode codepoint
    assert!(unescape_bytes(r"bad escape \X10".as_bytes()).is_err());
}

fn rejected(input: &str) -> Error {
    unescape_bytes(input.as_bytes()).unwrap_err()
}

#[test]
fn nibble_agrees_with_the_digits_of_base_16_on_every_byte() {
    for b in 0..=255u8 {
        let c = char::from(b);
        match c.to_digit(16) {
            Some(v) => assert_eq!(nibble(b), Ok(v as u8)),
            None => assert_eq!(nibble(b), Err(ErrorKind::InvalidHexDigit(c))),
        }
    }
}

#[test]
fn parse_hex_reports_the_first_fault() {
    assert_eq!(parse_hex(b""), Err(ErrorKind::TruncatedHex));
    assert_eq!(parse_hex(b"0"), Err(ErrorKind::TruncatedHex));
    assert_eq!(parse_hex(b"x"), Err(ErrorKind::InvalidHexDigit('x')));
    assert_eq!(parse_hex(b"xy"), Err(ErrorKind::InvalidHexDigit('x')));
    assert_eq!(parse_hex(b"0g"), Err(ErrorKind::InvalidHexDigit('g')));
    assert_eq!(parse_hex(b"fF"), Ok(0xff));
    assert_eq!(parse_hex(b"7e and more"), Ok(0x7e));
}

#[test]
fn parse_hex_takes_every_pair_of_digits() {
    for value in 0..=255u8 {
        assert_eq!(parse_hex(format!("{:02x}", value).as_bytes()), Ok(value));
        assert_eq!(parse_hex(format!("{:02X}", value).as_bytes()), Ok(value));
    }
}

#[test]
fn parse_unicode_counts_the_braces() {
    assert_eq!(parse_unicode(b"{10FFFF}"), Ok((0x10FFFF, 8)));
    assert_eq!(parse_unicode(b"{FFFFFF}"), Ok((0xFFFFFF, 8)));
    assert_eq!(parse_unicode(b"{a}bc"), Ok((10, 3)));
    assert_eq!(parse_unicode(b"{0}}"), Ok((0, 3)));
}

#[test]
fn parse_unicode_wants_a_brace_and_a_digit() {
    assert_eq!(parse_unicode(b""), Err(ErrorKind::TruncatedUnicode));
    assert_eq!(parse_unicode(b"{1"), Err(ErrorKind::TruncatedUnicode));
    assert_eq!(parse_unicode(b"1234"), Err(ErrorKind::TruncatedUnicode));
    assert_eq!(parse_unicode(b"{12345"), Err(ErrorKind::TruncatedUnicode));
    assert_eq!(parse_unicode(b"{}"), Err(ErrorKind::TruncatedUnicode));
    assert_eq!(parse_unicode(b"{}1"), Err(ErrorKind::TruncatedUnicode));
    assert_eq!(parse_unicode(b"{}}"), Err(ErrorKind::TruncatedUnicode));
}

#[test]
fn parse_unicode_looks_no_further_than_eight_bytes() {
    assert_eq!(parse_unicode(b"{123456}"), Ok((0x123456, 8)));
    assert_eq!(parse_unicode(b"{1234567}"), Err(ErrorKind::TruncatedUnicode));
    assert_eq!(parse_unicode(b"{123456789}"), Err(ErrorKind::TruncatedUnicode));
    assert_eq!(parse_unicode(b"{zzzzzzz}"), Err(ErrorKind::TruncatedUnicode));
}

#[test]
fn parse_unicode_reports_the_leftmost_bad_digit() {
    assert_eq!(parse_unicode(b"{123X}"), Err(ErrorKind::InvalidHexDigit('X')));
    assert_eq!(parse_unicode(b"{g1h}"), Err(ErrorKind::InvalidHexDigit('g')));
    assert_eq!(parse_unicode(b"{0   }"), Err(ErrorKind::InvalidHexDigit(' ')));
    assert_eq!(parse_unicode(b"{{1}"), Err(ErrorKind::InvalidHexDigit('{')));
}

#[test]
fn error_kind_at_holds_both() {
    let e = ErrorKind::TruncatedHex.at(17);
    assert_eq!(e.pos, 17);
    assert_eq!(e.kind, ErrorKind::TruncatedHex);
    assert_eq!(e, Error { pos: 17, kind: ErrorKind::TruncatedHex });
}

#[test]
fn unescape_leaves_plain_bytes_alone() {
    assert_eq!(unescape_bytes(b"").unwrap(), b"");
    assert_eq!(unescape_bytes(b"plain text").unwrap(), b"plain text");
    assert_eq!(unescape_bytes(b"caf\xc3\xa9 \xff\xfe").unwrap(), b"caf\xc3\xa9 \xff\xfe");
}

#[test]
fn unescape_knows_each_short_escape() {
    assert_eq!(unescape_bytes(br"\\").unwrap(), b"\\");
    assert_eq!(unescape_bytes(br"\0").unwrap(), b"\0");
    assert_eq!(unescape_bytes(br"\n").unwrap(), b"\n");
    assert_eq!(unescape_bytes(br"\r").unwrap(), b"\r");
    assert_eq!(unescape_bytes(br"\t").unwrap(), b"\t");
    assert_eq!(unescape_bytes(br"a\\n\\b").unwrap(), br"a\n\b");
    assert_eq!(unescape_bytes(br"\\\\").unwrap(), br"\\");
    assert_eq!(unescape_bytes(br"\t\r\n\0\\").unwrap(), b"\t\r\n\0\\");
}

#[test]
fn unescape_takes_any_byte_in_hex() {
    for value in 0..=255u8 {
        let input = format!("<\\x{:02x}>", value);
        assert_eq!(unescape_bytes(input.as_bytes()).unwrap(), [b'<', value, b'>']);
    }
}

#[test]
fn unescape_rejects_a_lone_backslash_at_the_end() {
    assert_eq!(rejected(r"hello\"), Error { pos: 5, kind: ErrorKind::MissingEscape });
    assert_eq!(rejected(r"\"), Error { pos: 0, kind: ErrorKind::MissingEscape });
    assert_eq!(rejected(r"\\\"), Error { pos: 2, kind: ErrorKind::MissingEscape });
}

#[test]
fn unescape_rejects_an_unknown_escape() {
    assert_eq!(rejected(r"bad escape \X10"), Error { pos: 11, kind: ErrorKind::InvalidEscape('X') });
    assert_eq!(rejected(r"\q"), Error { pos: 0, kind: ErrorKind::InvalidEscape('q') });
    assert_eq!(rejected(r"\1"), Error { pos: 0, kind: ErrorKind::InvalidEscape('1') });
    assert_eq!(rejected(r"\U{41}"), Error { pos: 0, kind: ErrorKind::InvalidEscape('U') });
    assert_eq!(
        unescape_bytes(b"\\\xe9").unwrap_err(),
        Error { pos: 0, kind: ErrorKind::InvalidEscape('\u{e9}') }
    );
}

#[test]
fn unescape_rejects_a_short_hex_escape() {
    assert_eq!(rejected(r"ab\x"), Error { pos: 2, kind: ErrorKind::TruncatedHex });
    assert_eq!(rejected(r"ab\x4"), Error { pos: 2, kind: ErrorKind::TruncatedHex });
}

#[test]
fn unescape_rejects_a_bad_hex_digit() {
    assert_eq!(rejected(r"hello\xgg"), Error { pos: 5, kind: ErrorKind::InvalidHexDigit('g') });
    assert_eq!(rejected(r"hello\x{ff}"), Error { pos: 5, kind: ErrorKind::InvalidHexDigit('{') });
    assert_eq!(rejected(r"\x4z"), Error { pos: 0, kind: ErrorKind::InvalidHexDigit('z') });
    assert_eq!(rejected(r"\u{12G4}"), Error { pos: 0, kind: ErrorKind::InvalidHexDigit('G') });
}

#[test]
fn unescape_rejects_a_broken_unicode_escape() {
    assert_eq!(rejected(r"x\u"), Error { pos: 1, kind: ErrorKind::TruncatedUnicode });
    assert_eq!(rejected(r"x\u41"), Error { pos: 1, kind: ErrorKind::TruncatedUnicode });
    assert_eq!(rejected(r"x\u{41"), Error { pos: 1, kind: ErrorKind::TruncatedUnicode });
    assert_eq!(rejected(r"x\u{}"), Error { pos: 1, kind: ErrorKind::TruncatedUnicode });
    assert_eq!(rejected(r"x\u{}y"), Error { pos: 1, kind: ErrorKind::TruncatedUnicode });
    assert_eq!(rejected(r"\u{1234567}"), Error { pos: 0, kind: ErrorKind::TruncatedUnicode });
    assert_eq!(rejected(r"\u{0000041}"), Error { pos: 0, kind: ErrorKind::TruncatedUnicode });
}

#[test]
fn unescape_rejects_what_is_no_scalar_value() {
    assert_eq!(
        rejected(r"\u{D800}"),
        Error { pos: 0, kind: ErrorKind::InvalidUnicodeCodepoint(0xD800) }
    );
    assert_eq!(
        rejected(r"ok\u{DFFF}"),
        Error { pos: 2, kind: ErrorKind::InvalidUnicodeCodepoint(0xDFFF) }
    );
    assert_eq!(
        rejected(r"\u{110000}"),
        Error { pos: 0, kind: ErrorKind::InvalidUnicodeCodepoint(0x110000) }
    );
    assert_eq!(
        rejected(r"\u{FFFFFF}"),
        Error { pos: 0, kind: ErrorKind::InvalidUnicodeCodepoint(0xFFFFFF) }
    );
}

#[test]
fn unescape_reports_the_first_of_two_faults() {
    assert_eq!(rejected(r"a\qb\"), Error { pos: 1, kind: ErrorKind::InvalidEscape('q') });
    assert_eq!(rejected(r"\n\x4\q"), Error { pos: 2, kind: ErrorKind::InvalidHexDigit('\\') });
}

#[test]
fn unescape_encodes_the_ends_of_each_width() {
    assert_eq!(unescape_bytes(br"\u{0}").unwrap(), b"\x00");
    assert_eq!(unescape_bytes(br"\u{7F}").unwrap(), b"\x7f");
    assert_eq!(unescape_bytes(br"\u{80}").unwrap(), b"\xc2\x80");
    assert_eq!(unescape_bytes(br"\u{7FF}").unwrap(), b"\xdf\xbf");
    assert_eq!(unescape_bytes(br"\u{800}").unwrap(), b"\xe0\xa0\x80");
    assert_eq!(unescape_bytes(br"\u{D7FF}").unwrap(), b"\xed\x9f\xbf");
    assert_eq!(unescape_bytes(br"\u{E000}").unwrap(), b"\xee\x80\x80");
    assert_eq!(unescape_bytes(br"\u{FFFF}").unwrap(), b"\xef\xbf\xbf");
    assert_eq!(unescape_bytes(br"\u{10000}").unwrap(), b"\xf0\x90\x80\x80");
    assert_eq!(unescape_bytes(br"\u{10FFFF}").unwrap(), b"\xf4\x8f\xbf\xbf");
}

#[test]
fn unescape_encodes_scalar_values_as_std_does() {
    let mut value: u32 = 0;
    while value <= 0x10FFFF {
        let input = format!("\\u{{{:X}}}", value);
        let decoded = unescape_bytes(input.as_bytes());
        match char::from_u32(value) {
            Some(c) => {
                let mut utf8 = [0u8; 4];
                assert_eq!(decoded.unwrap(), c.encode_utf8(&mut utf8).as_bytes());
            }
            None => assert_eq!(
                decoded.unwrap_err(),
                Error { pos: 0, kind: ErrorKind::InvalidUnicodeCodepoint(value) }
            ),
        }
        value += 37;
    }
}

#[test]
fn unescape_goes_on_after_an_escape() {
    assert_eq!(unescape_bytes(br"\x41\x42C\u{44}E\\F").unwrap(), b"ABCDE\\F");
    assert_eq!(unescape_bytes(br"\u{1F600}\u{1F600}").unwrap(), "\u{1F600}\u{1F600}".as_bytes());
    assert_eq!(unescape_bytes(br"\x5cn").unwrap(), br"\n");
}
