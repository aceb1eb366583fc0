//! The lines of the live event stream.

use crate::codes::{is_known, EV_ABS, EV_KEY};
use crate::error::{missing, unknown, CodeSpace, Construct, Failure};
use crate::parser::{Event, EventTime, KeyState};
use crate::scan::{
    byte_after, code_after, code_at, expect_byte, expect_code, expect_integer, inside, integer_after,
    lemma_run_bounds, lemma_run_len_bound, parsed, read_value, run_after, run_end, sign_len,
    skip_run, value_at, ByteClass, Cursor, CLOSE_BRACKET, DOT, OPEN_BRACKET, SPACE,
};
use vstd::prelude::*;

verus! {

broadcast use lemma_run_len_bound;

/// The key state that the number `value` stands for.
pub open spec fn key_state_of(value: u32) -> Option<KeyState> {
    if value == 0 {
        Some(KeyState::Released)
    } else if value == 1 {
        Some(KeyState::Pressed)
    } else if value == 2 {
        Some(KeyState::Repeated)
    } else {
        None
    }
}

/// The 32 bits of `value` read as a signed number in two's complement.
pub open spec fn as_signed(value: u32) -> i32 {
    if value <= 0x7fff_ffff {
        value as i32
    } else {
        (value - 0x1_0000_0000) as i32
    }
}

/// The timestamp of an event line: `[`, spaces if any, the seconds, `.`, the
/// microseconds, `]`; both numbers are signed decimal integers of 64 bits.
pub open spec fn event_time_at(s: Seq<u8>, pos: int) -> Result<(EventTime, int), Failure> {
    let c = byte_after(Ok(pos), s, OPEN_BRACKET, Construct::OpenBracket);
    let c = run_after(c, s, ByteClass::Space);
    match integer_after(c, s, i64::MIN as int, i64::MAX as int) {
        Ok((seconds, dot)) => {
            let c = byte_after(Ok(dot), s, DOT, Construct::Dot);
            match integer_after(c, s, i64::MIN as int, i64::MAX as int) {
                Ok((microseconds, end)) => match byte_after(
                    Ok(end),
                    s,
                    CLOSE_BRACKET,
                    Construct::CloseBracket,
                ) {
                    Ok(next) => Ok(
                        (
                            EventTime {
                                seconds: seconds as i64,
                                microseconds: microseconds as i64,
                            },
                            next,
                        ),
                    ),
                    Err(f) => Err(f),
                },
                Err(f) => Err(f),
            }
        },
        Err(f) => Err(f),
    }
}

/// After `c`, a value of eight hexadecimal digits.
pub open spec fn value_after(c: Cursor, s: Seq<u8>) -> Result<(u32, int), Failure> {
    match c {
        Ok(pos) => match value_at(s, pos) {
            Some(value) => Ok((value, pos + 8)),
            None => Err(missing(pos, Construct::HexValue)),
        },
        Err(f) => Err(f),
    }
}

/// After `c`, the fields of a key event: the key's code, one space, and the
/// state as a value of 0, 1 or 2.
pub open spec fn key_event_after(c: Cursor, s: Seq<u8>, time: EventTime) -> Result<
    (Event, int),
    Failure,
> {
    match code_after(c, s, CodeSpace::Key) {
        Ok((key, next)) => {
            let c = byte_after(Ok(next), s, SPACE, Construct::Space);
            match value_after(c, s) {
                Ok((value, end)) => match key_state_of(value) {
                    Some(state) => Ok((Event::Key { time, key, state }, end)),
                    None => Err(missing(end - 8, Construct::KeyState)),
                },
                Err(f) => Err(f),
            }
        },
        Err(f) => Err(f),
    }
}

/// After `c`, the fields of an absolute event: the axis' code, one space, and
/// the value, whose 32 bits are read as a signed number.
pub open spec fn absolute_event_after(c: Cursor, s: Seq<u8>, time: EventTime) -> Result<
    (Event, int),
    Failure,
> {
    match code_after(c, s, CodeSpace::AbsoluteAxis) {
        Ok((axis, next)) => {
            let c = byte_after(Ok(next), s, SPACE, Construct::Space);
            match value_after(c, s) {
                Ok((value, end)) => Ok((Event::Absolute { time, axis, value: as_signed(value) }, end)),
                Err(f) => Err(f),
            }
        },
        Err(f) => Err(f),
    }
}

/// Where the event type of an event line stands, and the time of the event:
/// after the timestamp and one space.
pub open spec fn event_kind_at(s: Seq<u8>, pos: int) -> Result<(EventTime, int), Failure> {
    match event_time_at(s, pos) {
        Ok((time, next)) => match byte_after(Ok(next), s, SPACE, Construct::Space) {
            Ok(at) => Ok((time, at)),
            Err(f) => Err(f),
        },
        Err(f) => Err(f),
    }
}

/// An event line: the timestamp, one space, the event type, one space, and
/// the fields of a key event or of an absolute event; for any other type,
/// the rest of the line, which is passed over.
pub open spec fn event_at(s: Seq<u8>, pos: int) -> Result<(Event, int), Failure> {
    match event_kind_at(s, pos) {
        Ok((time, at)) => match code_after(Ok(at), s, CodeSpace::EventKind) {
            Ok((kind, next)) => {
                let c = byte_after(Ok(next), s, SPACE, Construct::Space);
                if kind == EV_KEY {
                    key_event_after(c, s, time)
                } else if kind == EV_ABS {
                    absolute_event_after(c, s, time)
                } else {
                    match c {
                        Ok(rest) => Ok((Event::Ignored, run_end(s, rest, ByteClass::LineContent))),
                        Err(f) => Err(f),
                    }
                }
            },
            Err(f) => Err(f),
        },
        Err(f) => Err(f),
    }
}

/// A timestamp ends inside the input, after where it began, or fails inside
/// the input.
pub proof fn lemma_event_time_inside(s: Seq<u8>, pos: int)
    requires
        0 <= pos <= s.len(),
    ensures
        inside(event_time_at(s, pos), s, pos),
        event_time_at(s, pos) matches Ok((_, next)) ==> pos < next,
{
    let c = byte_after(Ok(pos), s, OPEN_BRACKET, Construct::OpenBracket);
    if let Ok(seconds) = run_after(c, s, ByteClass::Space) {
        lemma_run_bounds(s, seconds + sign_len(s, seconds), ByteClass::Digit);
        if let Ok((_, dot)) = integer_after(Ok(seconds), s, i64::MIN as int, i64::MAX as int) {
            if let Ok(microseconds) = byte_after(Ok(dot), s, DOT, Construct::Dot) {
                lemma_run_bounds(
                    s,
                    microseconds + sign_len(s, microseconds),
                    ByteClass::Digit,
                );
            }
        }
    }
}

/// An event ends inside the input, after where it began, or fails inside the
/// input; it holds only codes that are known.
pub proof fn lemma_event_inside(s: Seq<u8>, pos: int)
    requires
        0 <= pos <= s.len(),
    ensures
        inside(event_at(s, pos), s, pos),
        event_at(s, pos) matches Ok((event, next)) ==> pos < next && event.well_formed(),
{
    lemma_event_time_inside(s, pos);
    if let Ok((time, next)) = event_time_at(s, pos) {
        let c = byte_after(Ok(next), s, SPACE, Construct::Space);
        if let Ok((kind, next)) = code_after(c, s, CodeSpace::EventKind) {
            if let Ok(rest) = byte_after(Ok(next), s, SPACE, Construct::Space) {
                lemma_run_bounds(s, rest, ByteClass::LineContent);
            }
        }
    }
}

/// An event line whose event type is four hexadecimal digits that the
/// numbering of event types does not know fails at it.
pub proof fn lemma_unknown_event_type(s: Seq<u8>, pos: int, time: EventTime, at: int, kind: u16)
    requires
        event_kind_at(s, pos) == Ok::<(EventTime, int), Failure>((time, at)),
        code_at(s, at) == Some(kind),
        !is_known(CodeSpace::EventKind, kind),
    ensures
        event_at(s, pos) == Err::<(Event, int), Failure>(unknown(at, CodeSpace::EventKind, kind)),
{
}

/// A key event whose key, and an absolute event whose axis, is four
/// hexadecimal digits that the numbering does not know fails at it.
pub proof fn lemma_unknown_key_or_axis(s: Seq<u8>, pos: int, time: EventTime, at: int, code: u16)
    requires
        event_kind_at(s, pos) == Ok::<(EventTime, int), Failure>((time, at)),
        code_at(s, at) == Some(EV_KEY) || code_at(s, at) == Some(EV_ABS),
        at + 4 < s.len() && s[at + 4] == SPACE,
        code_at(s, at + 5) == Some(code),
    ensures
        code_at(s, at) == Some(EV_KEY) && !is_known(CodeSpace::Key, code) ==> event_at(s, pos)
            == Err::<(Event, int), Failure>(unknown(at + 5, CodeSpace::Key, code)),
        code_at(s, at) == Some(EV_ABS) && !is_known(CodeSpace::AbsoluteAxis, code) ==> event_at(
            s,
            pos,
        ) == Err::<(Event, int), Failure>(unknown(at + 5, CodeSpace::AbsoluteAxis, code)),
{
}

/// Reads the timestamp at `pos`.
fn parse_event_time(input: &[u8], pos: usize) -> (r: Result<(EventTime, usize), Failure>)
    requires
        pos <= input@.len(),
    ensures
        parsed(r) == event_time_at(input@, pos as int),
        r matches Ok((_, next)) ==> pos < next <= input@.len(),
        r matches Err(f) ==> pos <= f.offset <= input@.len(),
{
    let p = expect_byte(input, pos, OPEN_BRACKET, Construct::OpenBracket)?;
    let p = skip_run(input, p, ByteClass::Space);
    let (seconds, p) = expect_integer(input, p, i64::MIN, i64::MAX)?;
    let p = expect_byte(input, p, DOT, Construct::Dot)?;
    let (microseconds, p) = expect_integer(input, p, i64::MIN, i64::MAX)?;
    let next = expect_byte(input, p, CLOSE_BRACKET, Construct::CloseBracket)?;
    Ok((EventTime { seconds, microseconds }, next))
}

/// Reads a value of eight hexadecimal digits at `pos`.
fn expect_value(input: &[u8], pos: usize) -> (r: Result<(u32, usize), Failure>)
    requires
        pos <= input@.len(),
    ensures
        parsed(r) == value_after(Ok(pos as int), input@),
        r matches Ok((_, next)) ==> next == pos + 8 && next <= input@.len(),
        r matches Err(f) ==> f.offset == pos,
{
    match read_value(input, pos) {
        Some(value) => Ok((value, pos + 8)),
        None => Err(Failure::expected(pos, Construct::HexValue)),
    }
}

/// The key state that `value` stands for.
fn key_state(value: u32) -> (r: Option<KeyState>)
    ensures
        r == key_state_of(value),
{
    if value == 0 {
        Some(KeyState::Released)
    } else if value == 1 {
        Some(KeyState::Pressed)
    } else if value == 2 {
        Some(KeyState::Repeated)
    } else {
        None
    }
}

/// Reads the 32 bits of `value` as a signed number.
fn reinterpret(value: u32) -> (r: i32)
    ensures
        r == as_signed(value),
{
    if value <= 0x7fff_ffff {
        value as i32
    } else {
        (value as i64 - 0x1_0000_0000) as i32
    }
}

/// Reads the event at `pos`.
pub(crate) fn parse_event(input: &[u8], pos: usize) -> (r: Result<(Event, usize), Failure>)
    requires
        pos <= input@.len(),
    ensures
        parsed(r) == event_at(input@, pos as int),
        r matches Ok((_, next)) ==> pos < next <= input@.len(),
        r matches Err(f) ==> pos <= f.offset <= input@.len(),
{
    let (time, p) = parse_event_time(input, pos)?;
    let p = expect_byte(input, p, SPACE, Construct::Space)?;
    let (kind, p) = expect_code(input, p, CodeSpace::EventKind)?;
    let p = expect_byte(input, p, SPACE, Construct::Space)?;
    if kind == EV_KEY {
        let (key, p) = expect_code(input, p, CodeSpace::Key)?;
        let p = expect_byte(input, p, SPACE, Construct::Space)?;
        let (value, end) = expect_value(input, p)?;
        match key_state(value) {
            Some(state) => Ok((Event::Key { time, key, state }, end)),
            None => Err(Failure::expected(p, Construct::KeyState)),
        }
    } else if kind == EV_ABS {
        let (axis, p) = expect_code(input, p, CodeSpace::AbsoluteAxis)?;
        let p = expect_byte(input, p, SPACE, Construct::Space)?;
        let (value, end) = expect_value(input, p)?;
        Ok((Event::Absolute { time, axis, value: reinterpret(value) }, end))
    } else {
        Ok((Event::Ignored, skip_run(input, p, ByteClass::LineContent)))
    }
}

} // verus!
