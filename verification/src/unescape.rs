//! Decoding of backslash escape sequences in a replacement template.
//!
//! The escapes are those of Rust's string literals, with one addition: `\xHH`
//! may name any byte, so that what comes out need not be valid UTF-8.

use vstd::prelude::*;
use vstd::utf8::{encode_scalar, is_scalar};

use crate::ascii::{
    BACKSLASH, CARRIAGE_RETURN, CLOSE_BRACE, DIGIT_0, DIGIT_9, LOWER_A, LOWER_F, LOWER_N, LOWER_R,
    LOWER_T, LOWER_U, LOWER_X, NEWLINE, NUL, OPEN_BRACE, TAB, UPPER_A, UPPER_F,
};
use crate::search::{
    find_byte, first_index_of, lemma_first_index_at_least, lemma_first_index_of,
};

verus! {

/// Why an escape sequence was rejected.
#[derive(Debug, Clone, Copy, PartialEq, Eq)]
pub enum ErrorKind {
    /// A backslash is the last byte of the input.
    MissingEscape,
    /// The byte after the backslash selects no known escape.
    InvalidEscape(char),
    /// Fewer than two bytes follow `\x`.
    TruncatedHex,
    /// A byte that should be a hex digit is not one.
    InvalidHexDigit(char),
    /// `\u` is not followed by `{`, one to six digits and `}`.
    TruncatedUnicode,
    /// The digits of a `\u{..}` escape name no Unicode scalar value.
    InvalidUnicodeCodepoint(u32),
}

/// A rejected escape sequence, with the index of the backslash that begins it.
#[derive(Debug, Clone, Copy, PartialEq, Eq)]
pub struct Error {
    pub pos: usize,
    pub kind: ErrorKind,
}

impl ErrorKind {
    /// The error of this kind for the escape that begins at `pos`.
    pub fn at(self, pos: usize) -> (e: Error)
        ensures
            e == (Error { pos, kind: self }),
    {
        Error { pos, kind: self }
    }
}

/// How many bytes of a `\u` escape are searched for the closing brace, the
/// opening brace among them.
pub const UNICODE_LOOKAHEAD: usize = 8;

/// The value of an ASCII hex digit, in either case.
pub open spec fn hex_value(b: u8) -> Option<u8> {
    if DIGIT_0 <= b <= DIGIT_9 {
        Some((b - DIGIT_0) as u8)
    } else if LOWER_A <= b <= LOWER_F {
        Some((b - LOWER_A + 10) as u8)
    } else if UPPER_A <= b <= UPPER_F {
        Some((b - UPPER_A + 10) as u8)
    } else {
        None
    }
}

/// The byte that the two hex digits at the start of `bytes` spell.
pub open spec fn hex_pair(bytes: Seq<u8>) -> Result<u8, ErrorKind> {
    if bytes.len() < 1 {
        Err(ErrorKind::TruncatedHex)
    } else {
        match hex_value(bytes[0]) {
            None => Err(ErrorKind::InvalidHexDigit(bytes[0] as char)),
            Some(hi) => if bytes.len() < 2 {
                Err(ErrorKind::TruncatedHex)
            } else {
                match hex_value(bytes[1]) {
                    None => Err(ErrorKind::InvalidHexDigit(bytes[1] as char)),
                    Some(lo) => Ok((hi * 16 + lo) as u8),
                }
            },
        }
    }
}

/// 16 to the power of `n`.
pub open spec fn pow16(n: nat) -> int
    decreases n,
{
    if n == 0 {
        1
    } else {
        16 * pow16((n - 1) as nat)
    }
}

/// The number that `digits` spell in base 16, the most significant digit
/// first; the leftmost byte that is no hex digit is the error.
pub open spec fn hex_number(digits: Seq<u8>) -> Result<int, ErrorKind>
    decreases digits.len(),
{
    if digits.len() == 0 {
        Ok(0)
    } else {
        match hex_number(digits.drop_last()) {
            Err(kind) => Err(kind),
            Ok(high) => match hex_value(digits.last()) {
                None => Err(ErrorKind::InvalidHexDigit(digits.last() as char)),
                Some(low) => Ok(high * 16 + low),
            },
        }
    }
}

/// What follows `\u`: an opening brace, one to six hex digits and a closing
/// brace, which must stand among the first `UNICODE_LOOKAHEAD` bytes. The
/// result is the number spelled and the count of bytes taken up, braces
/// included. The number need not be a scalar value.
pub open spec fn unicode_escape(bytes: Seq<u8>) -> Result<(u32, usize), ErrorKind> {
    let close = first_index_of(bytes, CLOSE_BRACE);
    if bytes.len() < 3 || bytes[0] != OPEN_BRACE {
        Err(ErrorKind::TruncatedUnicode)
    } else if close >= bytes.len() || close >= UNICODE_LOOKAHEAD || close < 2 {
        Err(ErrorKind::TruncatedUnicode)
    } else {
        match hex_number(bytes.subrange(1, close)) {
            Err(kind) => Err(kind),
            Ok(value) => Ok((value as u32, (close + 1) as usize)),
        }
    }
}

/// What the escape sequence at the start of `bytes` stands for, and how many
/// bytes it takes up, the backslash included.
pub open spec fn escape(bytes: Seq<u8>) -> Result<(Seq<u8>, int), ErrorKind> {
    if bytes.len() < 2 {
        Err(ErrorKind::MissingEscape)
    } else if bytes[1] == DIGIT_0 {
        Ok((seq![NUL], 2))
    } else if bytes[1] == BACKSLASH {
        Ok((seq![BACKSLASH], 2))
    } else if bytes[1] == LOWER_N {
        Ok((seq![NEWLINE], 2))
    } else if bytes[1] == LOWER_R {
        Ok((seq![CARRIAGE_RETURN], 2))
    } else if bytes[1] == LOWER_T {
        Ok((seq![TAB], 2))
    } else if bytes[1] == LOWER_X {
        match hex_pair(bytes.skip(2)) {
            Err(kind) => Err(kind),
            Ok(byte) => Ok((seq![byte], 4)),
        }
    } else if bytes[1] == LOWER_U {
        match unicode_escape(bytes.skip(2)) {
            Err(kind) => Err(kind),
            Ok((value, taken)) => if is_scalar(value) {
                Ok((encode_scalar(value), taken + 2))
            } else {
                Err(ErrorKind::InvalidUnicodeCodepoint(value))
            },
        }
    } else {
        Err(ErrorKind::InvalidEscape(bytes[1] as char))
    }
}

/// `head`, and then what `rest` decodes to, if it decodes.
pub open spec fn prepend(head: Seq<u8>, rest: Result<Seq<u8>, Error>) -> Result<Seq<u8>, Error> {
    match rest {
        Ok(tail) => Ok(head + tail),
        Err(e) => Err(e),
    }
}

/// What `bytes` decodes to from index `from` on: every byte stands for
/// itself but the backslash, which begins an escape. The first escape that
/// is rejected is the error, at the index of its backslash.
pub open spec fn unescaped_from(bytes: Seq<u8>, from: int) -> Result<Seq<u8>, Error>
    decreases bytes.len() - from,
{
    if from < 0 || from >= bytes.len() {
        Ok(Seq::empty())
    } else if bytes[from] != BACKSLASH {
        prepend(seq![bytes[from]], unescaped_from(bytes, from + 1))
    } else {
        match escape(bytes.skip(from)) {
            Err(kind) => Err(Error { pos: from as usize, kind }),
            Ok((out, taken)) => prepend(out, unescaped_from(bytes, from + taken)),
        }
    }
}

/// What `bytes` decodes to.
pub open spec fn unescaped(bytes: Seq<u8>) -> Result<Seq<u8>, Error> {
    unescaped_from(bytes, 0)
}

/// A run of bytes without a backslash decodes to itself.
pub proof fn lemma_unescaped_plain(bytes: Seq<u8>, from: int, to: int)
    requires
        0 <= from <= to <= bytes.len(),
        forall|j: int| from <= j < to ==> bytes[j] != BACKSLASH,
    ensures
        unescaped_from(bytes, from) == prepend(
            bytes.subrange(from, to),
            unescaped_from(bytes, to),
        ),
    decreases to - from,
{
    if from < to {
        lemma_unescaped_plain(bytes, from + 1, to);
        let rest = unescaped_from(bytes, to);
        match rest {
            Ok(tail) => {
                assert(seq![bytes[from]] + (bytes.subrange(from + 1, to) + tail)
                    =~= bytes.subrange(from, to) + tail);
            },
            Err(_) => {},
        }
    } else {
        match unescaped_from(bytes, to) {
            Ok(tail) => {
                assert(bytes.subrange(from, to) + tail =~= tail);
            },
            Err(_) => {},
        }
    }
}

/// Input without a backslash decodes to itself.
pub proof fn lemma_unescaped_without_backslash(bytes: Seq<u8>)
    requires
        forall|j: int| 0 <= j < bytes.len() ==> bytes[j] != BACKSLASH,
    ensures
        unescaped(bytes) == Ok::<Seq<u8>, Error>(bytes),
{
    lemma_unescaped_plain(bytes, 0, bytes.len() as int);
    assert(bytes.subrange(0, bytes.len() as int) + Seq::<u8>::empty() =~= bytes);
}

/// Every error names the index of a backslash: that of the escape which was
/// rejected.
pub proof fn lemma_unescaped_error_at_backslash(bytes: Seq<u8>, from: int)
    requires
        0 <= from,
        bytes.len() <= usize::MAX,
    ensures
        unescaped_from(bytes, from) matches Err(e) ==> from <= e.pos < bytes.len()
            && bytes[e.pos as int] == BACKSLASH && escape(bytes.skip(e.pos as int)) == Err::<
            (Seq<u8>, int),
            ErrorKind,
        >(e.kind),
    decreases bytes.len() - from,
{
    if from < bytes.len() {
        if bytes[from] != BACKSLASH {
            lemma_unescaped_error_at_backslash(bytes, from + 1);
        } else {
            match escape(bytes.skip(from)) {
                Err(_) => {},
                Ok((_, taken)) => {
                    lemma_unescaped_error_at_backslash(bytes, from + taken);
                },
            }
        }
    }
}

/// A number of up to six hex digits is below 2^24.
pub proof fn lemma_hex_number_bound(digits: Seq<u8>)
    requires
        digits.len() <= 6,
    ensures
        hex_number(digits) matches Ok(value) ==> 0 <= value < pow16(digits.len()),
    decreases digits.len(),
{
    if digits.len() > 0 {
        lemma_hex_number_bound(digits.drop_last());
    }
}

/// Parses one hex digit.
pub fn nibble(b: u8) -> (r: Result<u8, ErrorKind>)
    ensures
        r == match hex_value(b) {
            Some(v) => Ok::<u8, ErrorKind>(v),
            None => Err(ErrorKind::InvalidHexDigit(b as char)),
        },
{
    if DIGIT_0 <= b && b <= DIGIT_9 {
        Ok(b - DIGIT_0)
    } else if LOWER_A <= b && b <= LOWER_F {
        Ok(b - LOWER_A + 10)
    } else if UPPER_A <= b && b <= UPPER_F {
        Ok(b - UPPER_A + 10)
    } else {
        Err(ErrorKind::InvalidHexDigit(b as char))
    }
}

/// Parses exactly two hex digits from the start of `bytes`.
pub fn parse_hex(bytes: &[u8]) -> (r: Result<u8, ErrorKind>)
    ensures
        r == hex_pair(bytes@),
{
    if bytes.len() < 1 {
        return Err(ErrorKind::TruncatedHex);
    }
    let hi = match nibble(bytes[0]) {
        Ok(hi) => hi,
        Err(kind) => return Err(kind),
    };
    if bytes.len() < 2 {
        return Err(ErrorKind::TruncatedHex);
    }
    let lo = match nibble(bytes[1]) {
        Ok(lo) => lo,
        Err(kind) => return Err(kind),
    };
    assert((hi << 4) | lo == hi * 16 + lo) by (bit_vector)
        requires
            hi < 16,
            lo < 16,
    ;
    Ok((hi << 4) | lo)
}

/// Parses one to six hex digits between curly braces into a `u32`. Returns
/// the number and the count of bytes used, the braces included.
pub fn parse_unicode(bytes: &[u8]) -> (r: Result<(u32, usize), ErrorKind>)
    ensures
        r == unicode_escape(bytes@),
{
    // At the least a pair of braces and one digit.
    if bytes.len() < 3 {
        return Err(ErrorKind::TruncatedUnicode);
    }
    if bytes[0] != OPEN_BRACE {
        return Err(ErrorKind::TruncatedUnicode);
    }
    // The closing brace must be found within the lookahead.
    let mut end: usize = 1;
    while end < bytes.len() && end < UNICODE_LOOKAHEAD && bytes[end] != CLOSE_BRACE
        invariant
            1 <= end <= bytes@.len(),
            end <= UNICODE_LOOKAHEAD,
            forall|j: int| 0 <= j < end ==> bytes@[j] != CLOSE_BRACE,
        decreases bytes@.len() - end,
    {
        end += 1;
    }
    if end >= bytes.len() || end >= UNICODE_LOOKAHEAD {
        proof {
            if end < bytes@.len() {
                lemma_first_index_at_least(bytes@, CLOSE_BRACE, end as int);
            } else {
                lemma_first_index_of(bytes@, CLOSE_BRACE, end as int);
            }
        }
        return Err(ErrorKind::TruncatedUnicode);
    }
    proof {
        lemma_first_index_of(bytes@, CLOSE_BRACE, end as int);
    }
    if end < 2 {
        return Err(ErrorKind::TruncatedUnicode);
    }
    let ghost digits = bytes@.subrange(1, end as int);
    let mut val: u32 = 0;
    let mut i: usize = 1;
    while i < end
        invariant
            1 <= i <= end < bytes@.len(),
            2 <= end < UNICODE_LOOKAHEAD,
            bytes@.len() >= 3,
            bytes@[0] == OPEN_BRACE,
            first_index_of(bytes@, CLOSE_BRACE) == end,
            digits == bytes@.subrange(1, end as int),
            hex_number(digits.take(i - 1)) == Ok::<int, ErrorKind>(val as int),
            val < pow16((i - 1) as nat),
        decreases end - i,
    {
        let ghost before = digits.take(i - 1);
        let ghost upto = digits.take(i as int);
        assert(upto.drop_last() =~= before);
        assert(upto.last() == bytes@[i as int]);
        match nibble(bytes[i]) {
            Ok(low) => {
                proof {
                    lemma_pow16_values();
                }
                assert((val << 4) | (low as u32) == val * 16 + low) by (bit_vector)
                    requires
                        val < 0x10_0000,
                        low < 16,
                ;
                val = (val << 4) | (low as u32);
            },
            Err(kind) => {
                proof {
                    assert(hex_number(upto) == Err::<int, ErrorKind>(kind));
                    lemma_hex_number_error(digits, i as int);
                }
                return Err(kind);
            },
        }
        i += 1;
    }
    assert(digits.take(end - 1) =~= digits);
    Ok((val, end + 1))
}

/// The powers of 16 that six hex digits can reach.
pub proof fn lemma_pow16_values()
    ensures
        pow16(0) == 1,
        pow16(1) == 0x10,
        pow16(2) == 0x100,
        pow16(3) == 0x1000,
        pow16(4) == 0x1_0000,
        pow16(5) == 0x10_0000,
        pow16(6) == 0x100_0000,
{
    reveal_with_fuel(pow16, 7);
}

/// An error among the first `n` digits is the error of the whole number.
pub proof fn lemma_hex_number_error(digits: Seq<u8>, n: int)
    requires
        0 <= n <= digits.len(),
        hex_number(digits.take(n)) is Err,
    ensures
        hex_number(digits) == hex_number(digits.take(n)),
    decreases digits.len() - n,
{
    if n < digits.len() {
        assert(digits.take(n + 1).drop_last() =~= digits.take(n));
        lemma_hex_number_error(digits, n + 1);
    } else {
        assert(digits.take(n) =~= digits);
    }
}

/// Appends the UTF-8 encoding of the scalar value `scalar`.
fn push_scalar(out: &mut Vec<u8>, scalar: u32)
    requires
        is_scalar(scalar),
    ensures
        final(out)@ == old(out)@ + encode_scalar(scalar),
{
    if scalar < 0x80 {
        assert((scalar & 0x7F) < 0x100) by (bit_vector);
        out.push((scalar & 0x7F) as u8);
    } else if scalar < 0x800 {
        assert(((scalar >> 6) & 0x1F) < 0x100 && (scalar & 0x3F) < 0x100) by (bit_vector);
        out.push(0xC0 | ((scalar >> 6) & 0x1F) as u8);
        out.push(0x80 | (scalar & 0x3F) as u8);
    } else if scalar < 0x1_0000 {
        assert(((scalar >> 12) & 0x0F) < 0x100 && ((scalar >> 6) & 0x3F) < 0x100 && (scalar
            & 0x3F) < 0x100) by (bit_vector);
        out.push(0xE0 | ((scalar >> 12) & 0x0F) as u8);
        out.push(0x80 | ((scalar >> 6) & 0x3F) as u8);
        out.push(0x80 | (scalar & 0x3F) as u8);
    } else {
        assert(((scalar >> 18) & 0x7) < 0x100 && ((scalar >> 12) & 0x3F) < 0x100 && ((scalar
            >> 6) & 0x3F) < 0x100 && (scalar & 0x3F) < 0x100) by (bit_vector);
        out.push(0xF0 | ((scalar >> 18) & 0x7) as u8);
        out.push(0x80 | ((scalar >> 12) & 0x3F) as u8);
        out.push(0x80 | ((scalar >> 6) & 0x3F) as u8);
        out.push(0x80 | (scalar & 0x3F) as u8);
    }
}

/// Expands the escape sequences in `bytes`. What comes out need not be valid
/// UTF-8.
pub fn unescape_bytes(bytes: &[u8]) -> (r: Result<Vec<u8>, Error>)
    ensures
        match r {
            Ok(out) => unescaped(bytes@) == Ok::<Seq<u8>, Error>(out@),
            Err(e) => unescaped(bytes@) == Err::<Seq<u8>, Error>(e),
        },
{
    let len = bytes.len();
    let mut out: Vec<u8> = Vec::with_capacity(len);
    let mut last: usize = 0;
    let mut scanning = true;
    while scanning
        invariant
            len == bytes@.len(),
            last <= len,
            unescaped(bytes@) == prepend(out@, unescaped_from(bytes@, last as int)),
            !scanning ==> last == len,
        decreases len - last + (if scanning { 1int } else { 0int }),
    {
        let ghost done = out@;
        let ghost rest = bytes@.subrange(last as int, len as int);
        match find_byte(BACKSLASH, &bytes[last..len]) {
            None => {
                proof {
                    assert forall|j: int| last <= j < len implies bytes@[j] != BACKSLASH by {
                        assert(bytes@[j] == rest[j - last]);
                    }
                    lemma_unescaped_plain(bytes@, last as int, len as int);
                    lemma_prepend_twice(
                        done,
                        bytes@.subrange(last as int, len as int),
                        unescaped_from(bytes@, len as int),
                    );
                }
                out.extend_from_slice(&bytes[last..len]);
                assert(out@ =~= done + rest);
                last = len;
                scanning = false;
            },
            Some(offset) => {
                // `offset` counts from `last`: make it an index into `bytes`.
                let pos = last + offset;
                let ghost seen = bytes@.skip(pos as int);
                proof {
                    assert forall|j: int| last <= j < pos implies bytes@[j] != BACKSLASH by {
                        assert(bytes@[j] == rest[j - last]);
                    }
                    assert(bytes@[pos as int] == rest[offset as int]);
                    lemma_unescaped_plain(bytes@, last as int, pos as int);
                    lemma_prepend_twice(
                        done,
                        bytes@.subrange(last as int, pos as int),
                        unescaped_from(bytes@, pos as int),
                    );
                }
                out.extend_from_slice(&bytes[last..pos]);
                let ghost copied = out@;
                assert(copied =~= done + bytes@.subrange(last as int, pos as int));
                if pos + 1 >= len {
                    return Err(ErrorKind::MissingEscape.at(pos));
                }
                let esc = bytes[pos + 1];
                assert(seen[1] == esc);
                assert(seen.skip(2) =~= bytes@.subrange(pos + 2, len as int));
                if esc == DIGIT_0 {
                    out.push(NUL);
                    last = pos + 2;
                } else if esc == BACKSLASH {
                    out.push(BACKSLASH);
                    last = pos + 2;
                } else if esc == LOWER_N {
                    out.push(NEWLINE);
                    last = pos + 2;
                } else if esc == LOWER_R {
                    out.push(CARRIAGE_RETURN);
                    last = pos + 2;
                } else if esc == LOWER_T {
                    out.push(TAB);
                    last = pos + 2;
                } else if esc == LOWER_X {
                    match parse_hex(&bytes[pos + 2..len]) {
                        Ok(byte) => {
                            out.push(byte);
                            // Two more bytes of input went into it.
                            last = pos + 4;
                        },
                        Err(kind) => {
                            return Err(kind.at(pos));
                        },
                    }
                } else if esc == LOWER_U {
                    match parse_unicode(&bytes[pos + 2..len]) {
                        Ok((value, taken)) => {
                            if value > 0x10_FFFF || (0xD800 <= value && value <= 0xDFFF) {
                                return Err(ErrorKind::InvalidUnicodeCodepoint(value).at(pos));
                            }
                            push_scalar(&mut out, value);
                            last = pos + 2 + taken;
                        },
                        Err(kind) => {
                            return Err(kind.at(pos));
                        },
                    }
                } else {
                    return Err(ErrorKind::InvalidEscape(esc as char).at(pos));
                }
                proof {
                    // The escape at `pos` stands for what was just pushed.
                    let decoded = escape(seen)->Ok_0.0;
                    assert(out@ =~= copied + decoded);
                    lemma_prepend_twice(copied, decoded, unescaped_from(bytes@, last as int));
                }
            },
        }
    }
    assert(out@ + Seq::<u8>::empty() =~= out@);
    Ok(out)
}

/// A `\u` escape written out: `\u{`, the digits, `}`.
pub open spec fn unicode_escape_of(digits: Seq<u8>) -> Seq<u8> {
    seq![BACKSLASH, LOWER_U, OPEN_BRACE] + digits + seq![CLOSE_BRACE]
}

/// Where `digits` spell a number, each of them is a hex digit.
pub proof fn lemma_hex_number_digits(digits: Seq<u8>)
    requires
        hex_number(digits) is Ok,
    ensures
        forall|i: int| 0 <= i < digits.len() ==> hex_value(#[trigger] digits[i]) is Some,
    decreases digits.len(),
{
    if digits.len() > 0 {
        lemma_hex_number_digits(digits.drop_last());
        assert forall|i: int| 0 <= i < digits.len() implies hex_value(
            #[trigger] digits[i],
        ) is Some by {
            if i < digits.len() - 1 {
                assert(digits[i] == digits.drop_last()[i]);
            }
        }
    }
}

/// A `\u` escape of one to six hex digits decodes to the UTF-8 encoding of
/// the number they spell where that is a scalar value, which is every
/// number up to 10FFFF but the surrogates D800 to DFFF, and is rejected as
/// an invalid code point where it is none.
pub proof fn lemma_unicode_escape_decodes(digits: Seq<u8>, value: int)
    requires
        1 <= digits.len() <= 6,
        hex_number(digits) == Ok::<int, ErrorKind>(value),
    ensures
        0 <= value < 0x100_0000,
        is_scalar(value as u32) <==> value <= 0x10_FFFF && !(0xD800 <= value <= 0xDFFF),
        unescaped(unicode_escape_of(digits)) == if is_scalar(value as u32) {
            Ok::<Seq<u8>, Error>(encode_scalar(value as u32))
        } else {
            Err::<Seq<u8>, Error>(
                Error { pos: 0, kind: ErrorKind::InvalidUnicodeCodepoint(value as u32) },
            )
        },
{
    let bytes = unicode_escape_of(digits);
    let braced = bytes.skip(2);
    let close = digits.len() + 1;
    lemma_hex_number_bound(digits);
    lemma_pow16_values();
    lemma_hex_number_digits(digits);
    assert(bytes.skip(0) =~= bytes);
    assert forall|j: int| 0 <= j < close implies braced[j] != CLOSE_BRACE by {
        if j > 0 {
            assert(braced[j] == digits[j - 1]);
        }
    }
    lemma_first_index_of(braced, CLOSE_BRACE, close as int);
    assert(braced.subrange(1, close as int) =~= digits);
    assert(unicode_escape(braced) == Ok::<(u32, usize), ErrorKind>(
        (value as u32, (close + 1) as usize),
    ));
    if is_scalar(value as u32) {
        assert(unescaped_from(bytes, bytes.len() as int) == Ok::<Seq<u8>, Error>(Seq::empty()));
        assert(encode_scalar(value as u32) + Seq::<u8>::empty() =~= encode_scalar(
            value as u32,
        ));
    }
}

/// A `\u` escape whose closing brace stands beyond the lookahead, as after
/// seven digits or more, is rejected as truncated.
pub proof fn lemma_unicode_escape_too_long(digits: Seq<u8>)
    requires
        digits.len() >= 7,
        forall|i: int| 0 <= i < 7 ==> digits[i] != CLOSE_BRACE,
    ensures
        unescaped(unicode_escape_of(digits)) == Err::<Seq<u8>, Error>(
            Error { pos: 0, kind: ErrorKind::TruncatedUnicode },
        ),
{
    let bytes = unicode_escape_of(digits);
    let braced = bytes.skip(2);
    assert(bytes.skip(0) =~= bytes);
    assert forall|j: int| 0 <= j < 8 implies braced[j] != CLOSE_BRACE by {
        if j > 0 {
            assert(braced[j] == digits[j - 1]);
        }
    }
    lemma_first_index_at_least(braced, CLOSE_BRACE, 8);
}

/// Prepending in two steps is prepending the two heads joined.
pub proof fn lemma_prepend_twice(first: Seq<u8>, second: Seq<u8>, rest: Result<Seq<u8>, Error>)
    ensures
        prepend(first, prepend(second, rest)) == prepend(first + second, rest),
{
    match rest {
        Ok(tail) => {
            assert(first + (second + tail) =~= (first + second) + tail);
        },
        Err(_) => {},
    }
}

} // verus!
