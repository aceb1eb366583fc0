//! Scanning of byte slices: runs of a class of bytes, tags, numbers, and
//! cursors that go through an input or stop at a failure.

use crate::codes::{decode, is_known};
use crate::error::{missing, unknown, CodeSpace, Construct, Failure};
use vstd::prelude::*;
use vstd::slice::*;
use vstd::string::*;

verus! {

/// The bytes that the grammars name, by their ASCII codes.
pub const TAB: u8 = 0x09;

pub const LF: u8 = 0x0a;

pub const CR: u8 = 0x0d;

pub const SPACE: u8 = 0x20;

pub const QUOTE: u8 = 0x22;

pub const OPEN_PAREN: u8 = 0x28;

pub const CLOSE_PAREN: u8 = 0x29;

pub const STAR: u8 = 0x2a;

pub const PLUS: u8 = 0x2b;

pub const COMMA: u8 = 0x2c;

pub const MINUS: u8 = 0x2d;

pub const DOT: u8 = 0x2e;

pub const ZERO: u8 = 0x30;

pub const NINE: u8 = 0x39;

pub const COLON: u8 = 0x3a;

pub const UPPER_A: u8 = 0x41;

pub const UPPER_F: u8 = 0x46;

pub const UPPER_Z: u8 = 0x5a;

pub const OPEN_BRACKET: u8 = 0x5b;

pub const CLOSE_BRACKET: u8 = 0x5d;

pub const LOWER_A: u8 = 0x61;

pub const LOWER_F: u8 = 0x66;

pub const LOWER_Z: u8 = 0x7a;

/// Sets of bytes that the grammars scan runs of.
#[derive(Clone, Copy, Debug, PartialEq, Eq)]
pub enum ByteClass {
    /// Space or tab.
    Space,
    /// Space, tab, carriage return or line feed.
    Whitespace,
    /// ASCII decimal digit.
    Digit,
    /// ASCII letter.
    Alpha,
    /// ASCII letter or decimal digit.
    Alphanumeric,
    /// ASCII hexadecimal digit, either case.
    HexDigit,
    /// Anything but carriage return and line feed.
    LineContent,
    /// Anything but a double quote.
    NameContent,
}

/// Whether `b` is an ASCII decimal digit.
pub open spec fn is_digit(b: u8) -> bool {
    ZERO <= b <= NINE
}

/// Whether `b` is an ASCII letter.
pub open spec fn is_alpha(b: u8) -> bool {
    LOWER_A <= b <= LOWER_Z || UPPER_A <= b <= UPPER_Z
}

/// Whether `b` is an ASCII hexadecimal digit, of either case.
pub open spec fn is_hex_digit(b: u8) -> bool {
    is_digit(b) || LOWER_A <= b <= LOWER_F || UPPER_A <= b <= UPPER_F
}

/// Whether byte `b` belongs to `class`.
pub open spec fn in_class(class: ByteClass, b: u8) -> bool {
    match class {
        ByteClass::Space => b == SPACE || b == TAB,
        ByteClass::Whitespace => b == SPACE || b == TAB || b == CR || b == LF,
        ByteClass::Digit => is_digit(b),
        ByteClass::Alpha => is_alpha(b),
        ByteClass::Alphanumeric => is_alpha(b) || is_digit(b),
        ByteClass::HexDigit => is_hex_digit(b),
        ByteClass::LineContent => b != CR && b != LF,
        ByteClass::NameContent => b != QUOTE,
    }
}

/// Length of the longest run of `class` bytes in `s` that starts at `pos`.
pub open spec fn run_len(s: Seq<u8>, pos: int, class: ByteClass) -> nat
    decreases s.len() - pos,
{
    if 0 <= pos < s.len() && in_class(class, s[pos]) {
        1 + run_len(s, pos + 1, class)
    } else {
        0
    }
}

/// Position just after the longest run of `class` bytes that starts at `pos`.
pub open spec fn run_end(s: Seq<u8>, pos: int, class: ByteClass) -> int {
    pos + run_len(s, pos, class)
}

/// Whether the UTF-8 bytes of `tag` stand in `s` at `pos`.
pub open spec fn has_tag(s: Seq<u8>, pos: int, tag: &str) -> bool {
    let t = tag.spec_bytes();
    0 <= pos && pos + t.len() <= s.len() && s.subrange(pos, pos + t.len()) == t
}

/// Tests whether byte `b` belongs to `class`.
pub(crate) fn byte_in_class(class: ByteClass, b: u8) -> (r: bool)
    ensures
        r == in_class(class, b),
{
    let digit = ZERO <= b && b <= NINE;
    let letter = (LOWER_A <= b && b <= LOWER_Z) || (UPPER_A <= b && b <= UPPER_Z);
    match class {
        ByteClass::Space => b == SPACE || b == TAB,
        ByteClass::Whitespace => b == SPACE || b == TAB || b == CR || b == LF,
        ByteClass::Digit => digit,
        ByteClass::Alpha => letter,
        ByteClass::Alphanumeric => letter || digit,
        ByteClass::HexDigit => digit || (LOWER_A <= b && b <= LOWER_F) || (UPPER_A <= b && b
            <= UPPER_F),
        ByteClass::LineContent => b != CR && b != LF,
        ByteClass::NameContent => b != QUOTE,
    }
}

/// A run ends inside the input, at a byte that is not of its class or at the
/// end, and holds bytes of its class only.
pub proof fn lemma_run_bounds(s: Seq<u8>, pos: int, class: ByteClass)
    requires
        0 <= pos <= s.len(),
    ensures
        pos <= run_end(s, pos, class) <= s.len(),
        run_end(s, pos, class) < s.len() ==> !in_class(class, s[run_end(s, pos, class)]),
        forall|i: int| pos <= i < run_end(s, pos, class) ==> in_class(class, #[trigger] s[i]),
    decreases s.len() - pos,
{
    if pos < s.len() && in_class(class, s[pos]) {
        lemma_run_bounds(s, pos + 1, class);
    }
}

/// Skips the longest run of `class` bytes at `pos`.
pub(crate) fn skip_run(input: &[u8], pos: usize, class: ByteClass) -> (end: usize)
    requires
        pos <= input@.len(),
    ensures
        end == run_end(input@, pos as int, class),
        pos <= end <= input@.len(),
{
    let mut i: usize = pos;
    while i < input.len() && byte_in_class(class, input[i])
        invariant
            pos <= i <= input@.len(),
            run_end(input@, pos as int, class) == run_end(input@, i as int, class),
        decreases input@.len() - i,
    {
        i += 1;
    }
    i
}

/// Matches the bytes of `tag` at `pos`; returns the position after them.
pub(crate) fn match_tag(input: &[u8], pos: usize, tag: &str) -> (r: Option<usize>)
    requires
        pos <= input@.len(),
    ensures
        r == (if has_tag(input@, pos as int, tag) {
            Some((pos + tag.spec_bytes().len()) as usize)
        } else {
            None
        }),
        r matches Some(next) ==> next == pos + tag.spec_bytes().len() && next <= input@.len(),
{
    let t = tag.as_bytes();
    if t.len() > input.len() - pos {
        return None;
    }
    let mut i: usize = 0;
    while i < t.len()
        invariant
            i <= t@.len(),
            t@ == tag.spec_bytes(),
            pos + t@.len() <= input@.len() <= usize::MAX,
            forall|j: int| 0 <= j < i ==> input@[pos + j] == t@[j],
        decreases t@.len() - i,
    {
        if input[pos + i] != t[i] {
            return None;
        }
        i += 1;
    }
    assert(input@.subrange(pos as int, pos + t@.len()) =~= t@);
    Some(pos + t.len())
}

/// Whether every byte of `s` belongs to `class`.
pub open spec fn all_in_class(s: Seq<u8>, class: ByteClass) -> bool {
    forall|i: int| 0 <= i < s.len() ==> in_class(class, #[trigger] s[i])
}

/// The value of `b` as a digit: `0` to `9`, then `a` to `f` in either case
/// for ten to fifteen.
pub open spec fn digit_value(b: u8) -> int {
    if is_digit(b) {
        b - ZERO
    } else if LOWER_A <= b <= LOWER_F {
        b - LOWER_A + 10
    } else {
        b - UPPER_A + 10
    }
}

/// The number that `digits` write in base `radix`, most significant digit first.
pub open spec fn number(digits: Seq<u8>, radix: int) -> int
    decreases digits.len(),
{
    if digits.len() == 0 {
        0
    } else {
        radix * number(digits.drop_last(), radix) + digit_value(digits.last())
    }
}

/// The digits of base `radix`, for ten and sixteen.
pub open spec fn digits_of(radix: int) -> ByteClass {
    if radix == 10 {
        ByteClass::Digit
    } else {
        ByteClass::HexDigit
    }
}

/// A number is not negative.
pub proof fn lemma_number_nonnegative(digits: Seq<u8>, radix: int)
    requires
        radix >= 1,
        all_in_class(digits, ByteClass::HexDigit),
    ensures
        0 <= number(digits, radix),
    decreases digits.len(),
{
    if digits.len() > 0 {
        let init = digits.drop_last();
        lemma_number_nonnegative(init, radix);
        assert(radix * number(init, radix) >= 0) by (nonlinear_arith)
            requires
                radix >= 1,
                number(init, radix) >= 0,
        ;
    }
}

/// More digits never write a smaller number.
pub proof fn lemma_number_prefix(digits: Seq<u8>, k: int, radix: int)
    requires
        0 <= k <= digits.len(),
        radix >= 1,
        all_in_class(digits, ByteClass::HexDigit),
    ensures
        0 <= number(digits.take(k), radix) <= number(digits, radix),
    decreases digits.len(),
{
    if k == digits.len() {
        assert(digits.take(k) =~= digits);
        lemma_number_nonnegative(digits, radix);
    } else {
        let init = digits.drop_last();
        lemma_number_prefix(init, k, radix);
        assert(init.take(k) =~= digits.take(k));
        lemma_number_nonnegative(init, radix);
        assert(radix * number(init, radix) >= number(init, radix)) by (nonlinear_arith)
            requires
                radix >= 1,
                number(init, radix) >= 0,
        ;
    }
}

/// The value of the hexadecimal digit `b`.
fn digit_of(b: u8) -> (d: u8)
    requires
        is_hex_digit(b),
    ensures
        d == digit_value(b),
        d < 16,
        is_digit(b) ==> d < 10,
{
    if ZERO <= b && b <= NINE {
        b - ZERO
    } else if LOWER_A <= b && b <= LOWER_F {
        b - LOWER_A + 10
    } else {
        b - UPPER_A + 10
    }
}

/// Reads the digits `input[from..to]` in base `radix`, up to `limit`.
pub(crate) fn read_number(input: &[u8], from: usize, to: usize, radix: u8, limit: u64) -> (r: Option<u64>)
    requires
        from <= to <= input@.len(),
        radix == 10 || radix == 16,
        all_in_class(input@.subrange(from as int, to as int), digits_of(radix as int)),
    ensures
        r == (if number(input@.subrange(from as int, to as int), radix as int) <= limit {
            Some(number(input@.subrange(from as int, to as int), radix as int) as u64)
        } else {
            None
        }),
{
    let ghost digits = input@.subrange(from as int, to as int);
    assert(all_in_class(digits, ByteClass::HexDigit));
    let mut acc: u64 = 0;
    let mut i: usize = from;
    while i < to
        invariant
            from <= i <= to <= input@.len(),
            radix == 10 || radix == 16,
            digits == input@.subrange(from as int, to as int),
            all_in_class(digits, ByteClass::HexDigit),
            all_in_class(digits, digits_of(radix as int)),
            acc == number(input@.subrange(from as int, i as int), radix as int),
            acc <= limit,
        decreases to - i,
    {
        let b = input[i];
        assert(b == digits[i - from]);
        let d = digit_of(b);
        let next: u128 = if radix == 10 {
            acc as u128 * 10 + d as u128
        } else {
            acc as u128 * 16 + d as u128
        };
        proof {
            let longer = input@.subrange(from as int, i + 1);
            assert(longer.drop_last() =~= input@.subrange(from as int, i as int));
            assert(digits.take(i + 1 - from) =~= longer);
            lemma_number_prefix(digits, i + 1 - from, radix as int);
        }
        if next > limit as u128 {
            return None;
        }
        acc = next as u64;
        i += 1;
    }
    Some(acc)
}

/// The number that the hexadecimal digits `s` write, where there is a digit,
/// all are digits and the number is at most `limit`. (No such number is
/// negative: see `lemma_number_nonnegative`.)
pub open spec fn spec_hex(s: Seq<u8>, limit: int) -> Option<int> {
    if s.len() > 0 && all_in_class(s, ByteClass::HexDigit) && 0 <= number(s, 16) <= limit {
        Some(number(s, 16))
    } else {
        None
    }
}

/// Reads `input` as a hexadecimal number of at most `limit`.
pub(crate) fn read_hex(input: &[u8], limit: u32) -> (r: Option<u32>)
    ensures
        r == (match spec_hex(input@, limit as int) {
            Some(n) => Some(n as u32),
            None => None,
        }),
{
    let end = skip_run(input, 0, ByteClass::HexDigit);
    proof {
        lemma_run_bounds(input@, 0, ByteClass::HexDigit);
    }
    if input.len() == 0 || end < input.len() {
        return None;
    }
    proof {
        assert(input@.subrange(0, input@.len() as int) =~= input@);
        lemma_number_nonnegative(input@, 16);
    }
    match read_number(input, 0, input.len(), 16, limit as u64) {
        Some(n) => Some(n as u32),
        None => None,
    }
}

/// The 16-bit number that the hexadecimal digits `s` write.
pub open spec fn spec_from_hex(s: Seq<u8>) -> Option<u16> {
    match spec_hex(s, 0xffff) {
        Some(n) => Some(n as u16),
        None => None,
    }
}

/// Reads `input` as a hexadecimal number of 16 bits: at least one digit, digits
/// only, and no sign.
pub fn from_hex(input: &[u8]) -> (r: Option<u16>)
    ensures
        r == spec_from_hex(input@),
{
    match read_hex(input, 0xffff) {
        Some(n) => Some(n as u16),
        None => None,
    }
}

/// The code that four hexadecimal digits at `pos` write.
pub open spec fn code_at(s: Seq<u8>, pos: int) -> Option<u16> {
    if 0 <= pos && pos + 4 <= s.len() {
        spec_from_hex(s.subrange(pos, pos + 4))
    } else {
        None
    }
}

/// Reads a code of four hexadecimal digits at `pos`.
pub(crate) fn read_code(input: &[u8], pos: usize) -> (r: Option<u16>)
    requires
        pos <= input@.len(),
    ensures
        r == code_at(input@, pos as int),
        r is Some ==> pos + 4 <= input@.len() <= usize::MAX,
{
    if input.len() - pos < 4 {
        return None;
    }
    from_hex(slice_subrange(input, pos, pos + 4))
}

/// The value that eight hexadecimal digits at `pos` write.
pub open spec fn value_at(s: Seq<u8>, pos: int) -> Option<u32> {
    if 0 <= pos && pos + 8 <= s.len() {
        match spec_hex(s.subrange(pos, pos + 8), 0xffff_ffff) {
            Some(n) => Some(n as u32),
            None => None,
        }
    } else {
        None
    }
}

/// Reads a value of eight hexadecimal digits at `pos`.
pub(crate) fn read_value(input: &[u8], pos: usize) -> (r: Option<u32>)
    requires
        pos <= input@.len(),
    ensures
        r == value_at(input@, pos as int),
        r is Some ==> pos + 8 <= input@.len() <= usize::MAX,
{
    if input.len() - pos < 8 {
        return None;
    }
    read_hex(slice_subrange(input, pos, pos + 8), 0xffff_ffff)
}

/// Length of the sign at `pos`: one for `+` or `-`, else zero.
pub open spec fn sign_len(s: Seq<u8>, pos: int) -> int {
    if 0 <= pos < s.len() && (s[pos] == PLUS || s[pos] == MINUS) {
        1
    } else {
        0
    }
}

/// The signed decimal integer at `pos` and the position after it: an optional
/// sign, then the longest run of digits, which is not empty. `None` where there
/// is no digit or the integer lies outside `min..=max`.
pub open spec fn integer_at(s: Seq<u8>, pos: int, min: int, max: int) -> Option<(int, int)> {
    let start = pos + sign_len(s, pos);
    let end = run_end(s, start, ByteClass::Digit);
    let magnitude = number(s.subrange(start, end), 10);
    let value = if start > pos && s[pos] == MINUS {
        -magnitude
    } else {
        magnitude
    };
    if start < end && min <= value <= max {
        Some((value, end))
    } else {
        None
    }
}

/// Reads a signed decimal integer of `min..=max` at `pos`.
pub(crate) fn read_integer(input: &[u8], pos: usize, min: i64, max: i64) -> (r: Option<(i64, usize)>)
    requires
        pos <= input@.len(),
    ensures
        match r {
            Some((value, end)) => integer_at(input@, pos as int, min as int, max as int) == Some(
                (value as int, end as int),
            ) && pos < end <= input@.len(),
            None => integer_at(input@, pos as int, min as int, max as int) is None,
        },
{
    let negative = pos < input.len() && input[pos] == MINUS;
    let start: usize = if pos < input.len() && (input[pos] == PLUS || input[pos] == MINUS) {
        pos + 1
    } else {
        pos
    };
    let end = skip_run(input, start, ByteClass::Digit);
    if end == start {
        return None;
    }
    proof {
        lemma_run_bounds(input@, start as int, ByteClass::Digit);
        let digits = input@.subrange(start as int, end as int);
        assert(all_in_class(digits, ByteClass::Digit));
        assert(all_in_class(digits, ByteClass::HexDigit));
        lemma_number_nonnegative(digits, 10);
    }
    match read_number(input, start, end, 10, 0x8000_0000_0000_0000) {
        None => None,
        Some(magnitude) => {
            let value: i128 = if negative {
                -(magnitude as i128)
            } else {
                magnitude as i128
            };
            if min as i128 <= value && value <= max as i128 {
                Some((value as i64, end))
            } else {
                None
            }
        },
    }
}

/// A run never leaves the input.
pub broadcast proof fn lemma_run_len_bound(s: Seq<u8>, pos: int, class: ByteClass)
    requires
        0 <= pos <= s.len(),
    ensures
        #[trigger] run_len(s, pos, class) <= s.len() - pos,
{
    lemma_run_bounds(s, pos, class);
}

/// Where a parse stands: at a position, or stopped by a failure.
pub type Cursor = Result<int, Failure>;

/// The cursor of an executable scan.
pub open spec fn cursor(r: Result<usize, Failure>) -> Cursor {
    match r {
        Ok(pos) => Ok(pos as int),
        Err(f) => Err(f),
    }
}

/// The result of an executable parse, with its position as an `int`.
pub open spec fn parsed<T>(r: Result<(T, usize), Failure>) -> Result<(T, int), Failure> {
    match r {
        Ok((value, next)) => Ok((value, next as int)),
        Err(f) => Err(f),
    }
}

/// The result of an executable parse, with its value by its view.
pub open spec fn viewed<T: View>(r: Result<(T, usize), Failure>) -> Result<(T::V, int), Failure> {
    match r {
        Ok((value, next)) => Ok((value@, next as int)),
        Err(f) => Err(f),
    }
}

/// Whether a parse from `pos` ended inside `s`: at or after `pos` where it
/// succeeded, and with its failure at or after `pos` where it failed. (An
/// offset counts only in an input whose length is one that a machine holds.)
pub open spec fn inside<T>(r: Result<(T, int), Failure>, s: Seq<u8>, pos: int) -> bool {
    match r {
        Ok((_, next)) => pos <= next <= s.len(),
        Err(f) => s.len() <= usize::MAX ==> pos <= f.offset <= s.len(),
    }
}

/// Whether a cursor that set out from `pos` stands or has failed inside `s`,
/// at or after `pos`.
pub open spec fn cursor_inside(c: Cursor, s: Seq<u8>, pos: int) -> bool {
    match c {
        Ok(next) => pos <= next <= s.len(),
        Err(f) => s.len() <= usize::MAX ==> pos <= f.offset <= s.len(),
    }
}

/// After `c`, the tag `tag`, which is `what`.
pub open spec fn tag_after(c: Cursor, s: Seq<u8>, tag: &str, what: Construct) -> Cursor {
    match c {
        Ok(pos) => if has_tag(s, pos, tag) {
            Ok(pos + tag.spec_bytes().len())
        } else {
            Err(missing(pos, what))
        },
        Err(f) => Err(f),
    }
}

/// After `c`, the byte `b`, which is `what`.
pub open spec fn byte_after(c: Cursor, s: Seq<u8>, b: u8, what: Construct) -> Cursor {
    match c {
        Ok(pos) => if 0 <= pos < s.len() && s[pos] == b {
            Ok(pos + 1)
        } else {
            Err(missing(pos, what))
        },
        Err(f) => Err(f),
    }
}

/// After `c`, the longest run of `class` bytes, which may be empty.
pub open spec fn run_after(c: Cursor, s: Seq<u8>, class: ByteClass) -> Cursor {
    match c {
        Ok(pos) => Ok(run_end(s, pos, class)),
        Err(f) => Err(f),
    }
}

/// After `c`, the longest run of `class` bytes, of `least` bytes or more,
/// which is `what`.
pub open spec fn long_run_after(
    c: Cursor,
    s: Seq<u8>,
    class: ByteClass,
    least: int,
    what: Construct,
) -> Cursor {
    match c {
        Ok(pos) => if run_len(s, pos, class) >= least {
            Ok(run_end(s, pos, class))
        } else {
            Err(missing(pos, what))
        },
        Err(f) => Err(f),
    }
}

/// After `c`, a code of four hexadecimal digits that the numbering `space` knows.
pub open spec fn code_after(c: Cursor, s: Seq<u8>, space: CodeSpace) -> Result<(u16, int), Failure> {
    match c {
        Ok(pos) => match code_at(s, pos) {
            Some(code) => if is_known(space, code) {
                Ok((code, pos + 4))
            } else {
                Err(unknown(pos, space, code))
            },
            None => Err(missing(pos, Construct::HexCode)),
        },
        Err(f) => Err(f),
    }
}

/// After `c`, a signed decimal integer of `min..=max`.
pub open spec fn integer_after(c: Cursor, s: Seq<u8>, min: int, max: int) -> Result<
    (int, int),
    Failure,
> {
    match c {
        Ok(pos) => match integer_at(s, pos, min, max) {
            Some(found) => Ok(found),
            None => Err(missing(pos, Construct::Integer)),
        },
        Err(f) => Err(f),
    }
}

/// Goes past the tag `tag` at `pos`.
pub(crate) fn expect_tag(input: &[u8], pos: usize, tag: &str, what: Construct) -> (r: Result<
    usize,
    Failure,
>)
    requires
        pos <= input@.len(),
    ensures
        cursor(r) == tag_after(Ok(pos as int), input@, tag, what),
        r matches Ok(next) ==> pos <= next <= input@.len(),
        r matches Err(f) ==> f.offset == pos,
{
    match match_tag(input, pos, tag) {
        Some(next) => Ok(next),
        None => Err(Failure::expected(pos, what)),
    }
}

/// Goes past the byte `b` at `pos`.
pub(crate) fn expect_byte(input: &[u8], pos: usize, b: u8, what: Construct) -> (r: Result<usize, Failure>)
    requires
        pos <= input@.len(),
    ensures
        cursor(r) == byte_after(Ok(pos as int), input@, b, what),
        r matches Ok(next) ==> pos <= next <= input@.len(),
        r matches Err(f) ==> f.offset == pos,
{
    if pos < input.len() && input[pos] == b {
        Ok(pos + 1)
    } else {
        Err(Failure::expected(pos, what))
    }
}

/// Goes past the longest run of `class` bytes at `pos`, of `least` bytes or
/// more.
pub(crate) fn expect_run(input: &[u8], pos: usize, class: ByteClass, least: usize, what: Construct) -> (r:
    Result<usize, Failure>)
    requires
        pos <= input@.len(),
    ensures
        cursor(r) == long_run_after(Ok(pos as int), input@, class, least as int, what),
        r matches Ok(next) ==> pos <= next <= input@.len(),
        r matches Err(f) ==> f.offset == pos,
{
    let end = skip_run(input, pos, class);
    if end - pos >= least {
        Ok(end)
    } else {
        Err(Failure::expected(pos, what))
    }
}

/// Reads a code of the numbering `space` at `pos`.
pub(crate) fn expect_code(input: &[u8], pos: usize, space: CodeSpace) -> (r: Result<(u16, usize), Failure>)
    requires
        pos <= input@.len(),
    ensures
        parsed(r) == code_after(Ok(pos as int), input@, space),
        r matches Ok((code, next)) ==> is_known(space, code) && next == pos + 4 && next
            <= input@.len(),
        r matches Err(f) ==> f.offset == pos,
{
    match read_code(input, pos) {
        Some(code) => match decode(space, code) {
            Some(known) => Ok((known, pos + 4)),
            None => Err(Failure::unknown_code(pos, space, code)),
        },
        None => Err(Failure::expected(pos, Construct::HexCode)),
    }
}

/// Reads a signed decimal integer of `min..=max` at `pos`.
pub(crate) fn expect_integer(input: &[u8], pos: usize, min: i64, max: i64) -> (r: Result<
    (i64, usize),
    Failure,
>)
    requires
        pos <= input@.len(),
    ensures
        match r {
            Ok((value, next)) => integer_after(Ok(pos as int), input@, min as int, max as int)
                == Ok::<(int, int), Failure>((value as int, next as int)) && min <= value <= max
                && pos < next <= input@.len(),
            Err(f) => integer_after(Ok(pos as int), input@, min as int, max as int) == Err::<
                (int, int),
                Failure,
            >(f) && f.offset == pos,
        },
{
    match read_integer(input, pos, min, max) {
        Some(found) => Ok(found),
        None => Err(Failure::expected(pos, Construct::Integer)),
    }
}

/// The items `head` before the items of `r`.
pub open spec fn prepend<T>(head: Seq<T>, r: Result<(Seq<T>, int), Failure>) -> Result<
    (Seq<T>, int),
    Failure,
> {
    match r {
        Ok((tail, end)) => Ok((head + tail, end)),
        Err(f) => Err(f),
    }
}

/// Items may be put before a list one by one.
pub proof fn lemma_prepend_push<T>(head: Seq<T>, item: T, r: Result<(Seq<T>, int), Failure>)
    ensures
        prepend(head, prepend(seq![item], r)) == prepend(head.push(item), r),
{
    if let Ok((tail, end)) = r {
        assert(head + (seq![item] + tail) =~= head.push(item) + tail);
    }
}

/// No items before a list leave the list as it is.
pub proof fn lemma_prepend_nothing<T>(r: Result<(Seq<T>, int), Failure>)
    ensures
        prepend(Seq::empty(), r) == r,
{
    if let Ok((tail, end)) = r {
        assert(Seq::<T>::empty() + tail =~= tail);
    }
}

/// A code that its numbering does not know is a failure that names it.
pub proof fn lemma_unknown_code_is_rejected(s: Seq<u8>, pos: int, space: CodeSpace)
    requires
        code_at(s, pos) matches Some(code) && !is_known(space, code),
    ensures
        code_after(Ok(pos), s, space) == Err::<(u16, int), Failure>(
            unknown(pos, space, code_at(s, pos)->0),
        ),
{
}

} // verus!
