//! Errors of the two text grammars.

use vstd::prelude::*;

verus! {

/// A construct of one of the grammars, named where it is missing.
#[derive(Clone, Copy, Debug, PartialEq, Eq)]
pub enum Construct {
    /// The marker `add device ` that opens a device block.
    DeviceMarker,
    /// The decimal index after the device marker.
    DeviceIndex,
    /// A `:`.
    Colon,
    /// At least one space or tab (in an event line: exactly one space).
    Space,
    /// A line feed.
    Newline,
    /// Valid UTF-8 in a device path or name.
    Text,
    /// The marker `name:`.
    NameMarker,
    /// A `"` around the device name.
    Quote,
    /// The marker `events:`.
    EventsMarker,
    /// At least one space, tab, carriage return or line feed: before a
    /// capability line, before a code of a list, before the marker
    /// `input props:`, or around a property.
    Whitespace,
    /// The label of a capability line: 2 to 10 letters and digits.
    Label,
    /// A `(`.
    OpenParen,
    /// A code of four hexadecimal digits.
    HexCode,
    /// A `)`.
    CloseParen,
    /// The name of a field of an absolute axis, such as ` value `.
    AxisField,
    /// A signed decimal integer that fits its field.
    Integer,
    /// A `,`.
    Comma,
    /// A property token `INPUT_PROP_`.
    Property,
    /// The letters that name a property.
    PropertyName,
    /// The `[` that opens a timestamp.
    OpenBracket,
    /// The `.` between seconds and microseconds.
    Dot,
    /// The `]` that closes a timestamp.
    CloseBracket,
    /// A value of eight hexadecimal digits.
    HexValue,
    /// A key state: 0, 1 or 2.
    KeyState,
}

/// The numbering that a four-digit code belongs to.
#[derive(Clone, Copy, Debug, PartialEq, Eq)]
pub enum CodeSpace {
    EventKind,
    Key,
    RelativeAxis,
    AbsoluteAxis,
    Switch,
}

/// Why a parse stopped.
#[derive(Clone, Copy, Debug, PartialEq, Eq)]
pub enum Cause {
    /// The input does not continue with this construct.
    Expected(Construct),
    /// Four hexadecimal digits were read, but their value is no code of this numbering.
    UnknownCode(CodeSpace, u16),
}

/// A parse that stopped at byte `offset` of its input.
#[derive(Clone, Copy, Debug, PartialEq, Eq)]
pub struct Failure {
    pub offset: usize,
    pub cause: Cause,
}

/// The error of a whole capability dump or of a whole event line.
#[derive(Clone, Copy, Debug, PartialEq, Eq)]
pub enum ParseError {
    /// The capability dump does not follow its grammar at `offset`.
    MalformedCapabilityDump { offset: usize, expected: Construct },
    /// The event line does not follow its grammar at `offset`.
    MalformedEventLine { offset: usize, expected: Construct },
    /// The code at `offset` is outside its numbering.
    UnknownCode { offset: usize, space: CodeSpace, code: u16 },
}

/// The failure at `pos` for a missing construct.
pub open spec fn missing(pos: int, construct: Construct) -> Failure {
    Failure { offset: pos as usize, cause: Cause::Expected(construct) }
}

/// The failure at `pos` for a code outside its numbering.
pub open spec fn unknown(pos: int, space: CodeSpace, code: u16) -> Failure {
    Failure { offset: pos as usize, cause: Cause::UnknownCode(space, code) }
}

/// Whether `r` is no failure for want of valid UTF-8.
pub open spec fn not_for_text<T>(r: Result<T, Failure>) -> bool {
    r matches Err(f) ==> f.cause != Cause::Expected(Construct::Text)
}

/// A failure inside a capability dump, as the dump's error.
pub open spec fn dump_error(f: Failure) -> ParseError {
    match f.cause {
        Cause::Expected(expected) => ParseError::MalformedCapabilityDump {
            offset: f.offset,
            expected,
        },
        Cause::UnknownCode(space, code) => ParseError::UnknownCode { offset: f.offset, space, code },
    }
}

/// A failure inside an event line, as the line's error.
pub open spec fn line_error(f: Failure) -> ParseError {
    match f.cause {
        Cause::Expected(expected) => ParseError::MalformedEventLine { offset: f.offset, expected },
        Cause::UnknownCode(space, code) => ParseError::UnknownCode { offset: f.offset, space, code },
    }
}

impl Failure {
    pub fn expected(pos: usize, construct: Construct) -> (f: Failure)
        ensures
            f == missing(pos as int, construct),
    {
        Failure { offset: pos, cause: Cause::Expected(construct) }
    }

    pub fn unknown_code(pos: usize, space: CodeSpace, code: u16) -> (f: Failure)
        ensures
            f == unknown(pos as int, space, code),
    {
        Failure { offset: pos, cause: Cause::UnknownCode(space, code) }
    }

    pub fn in_dump(self) -> (e: ParseError)
        ensures
            e == dump_error(self),
    {
        match self.cause {
            Cause::Expected(expected) => ParseError::MalformedCapabilityDump {
                offset: self.offset,
                expected,
            },
            Cause::UnknownCode(space, code) => ParseError::UnknownCode {
                offset: self.offset,
                space,
                code,
            },
        }
    }

    pub fn in_line(self) -> (e: ParseError)
        ensures
            e == line_error(self),
    {
        match self.cause {
            Cause::Expected(expected) => ParseError::MalformedEventLine {
                offset: self.offset,
                expected,
            },
            Cause::UnknownCode(space, code) => ParseError::UnknownCode {
                offset: self.offset,
                space,
                code,
            },
        }
    }
}

impl ParseError {
    /// The byte offset at which the parse stopped.
    pub open spec fn spec_offset(self) -> usize {
        match self {
            ParseError::MalformedCapabilityDump { offset, .. } => offset,
            ParseError::MalformedEventLine { offset, .. } => offset,
            ParseError::UnknownCode { offset, .. } => offset,
        }
    }

    /// The byte offset at which the parse stopped.
    #[verifier::when_used_as_spec(spec_offset)]
    pub fn offset(self) -> (offset: usize)
        ensures
            offset == self.spec_offset(),
    {
        match self {
            ParseError::MalformedCapabilityDump { offset, .. } => offset,
            ParseError::MalformedEventLine { offset, .. } => offset,
            ParseError::UnknownCode { offset, .. } => offset,
        }
    }
}

} // verus!
