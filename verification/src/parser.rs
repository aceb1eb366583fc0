//! The capability dump of `getevent -p` and the event lines of `getevent -t`:
//! what they hold, and how they are read.
//!
//! Each grammar is a spec function on the input's bytes; the parsers return
//! what it says.

use crate::codes::is_known;
use crate::device::{device_views, devices_at, lemma_devices_inside, parse_device_blocks};
use crate::error::{dump_error, line_error, CodeSpace, Construct, ParseError};
use crate::event::{event_at, lemma_event_inside, parse_event};
use crate::scan::{in_class, lemma_run_bounds, ByteClass};
use vstd::prelude::*;
use vstd::string::*;
use vstd::utf8::*;

verus! {

/// Range and precision of an absolute axis. A `resolution` of 0 means that the
/// device states none.
#[derive(Clone, Copy, Debug, PartialEq, Eq)]
pub struct AbsoluteInfo {
    pub value: i32,
    pub minimum: i32,
    pub maximum: i32,
    pub fuzz: i32,
    pub flat: i32,
    pub resolution: i32,
}

/// An absolute axis, by its code, with its range.
#[derive(Clone, Copy, Debug, PartialEq, Eq)]
pub struct AbsoluteInfoSetup {
    pub axis: u16,
    pub info: AbsoluteInfo,
}

/// What a device can report, each signal by its code, in the order of the dump.
#[derive(Clone, Debug, PartialEq, Eq)]
pub struct ADBDeviceEvents {
    pub keys: Vec<u16>,
    pub relative: Vec<u16>,
    pub absolute: Vec<AbsoluteInfoSetup>,
    /// Each switch with whether it is active.
    pub switches: Vec<(u16, bool)>,
}

/// One device of a capability dump.
#[derive(Clone, Debug, PartialEq, Eq)]
pub struct ADBDevice {
    pub path: String,
    pub name: String,
    pub events: ADBDeviceEvents,
}

/// The capabilities of a device as sequences.
pub struct Capabilities {
    pub keys: Seq<u16>,
    pub relative: Seq<u16>,
    pub absolute: Seq<AbsoluteInfoSetup>,
    pub switches: Seq<(u16, bool)>,
}

/// A device as its texts and its capabilities.
pub struct DeviceView {
    pub path: Seq<char>,
    pub name: Seq<char>,
    pub events: Capabilities,
}

impl Capabilities {
    /// No capability at all.
    pub open spec fn empty() -> Capabilities {
        Capabilities {
            keys: Seq::empty(),
            relative: Seq::empty(),
            absolute: Seq::empty(),
            switches: Seq::empty(),
        }
    }

    /// Every code is a code of its numbering.
    pub open spec fn well_formed(self) -> bool {
        &&& forall|i: int|
            0 <= i < self.keys.len() ==> is_known(CodeSpace::Key, #[trigger] self.keys[i])
        &&& forall|i: int|
            0 <= i < self.relative.len() ==> is_known(
                CodeSpace::RelativeAxis,
                #[trigger] self.relative[i],
            )
        &&& forall|i: int|
            0 <= i < self.absolute.len() ==> is_known(
                CodeSpace::AbsoluteAxis,
                (#[trigger] self.absolute[i]).axis,
            )
        &&& forall|i: int|
            0 <= i < self.switches.len() ==> is_known(
                CodeSpace::Switch,
                (#[trigger] self.switches[i]).0,
            )
    }
}

impl View for ADBDeviceEvents {
    type V = Capabilities;

    open spec fn view(&self) -> Capabilities {
        Capabilities {
            keys: self.keys@,
            relative: self.relative@,
            absolute: self.absolute@,
            switches: self.switches@,
        }
    }
}

impl View for ADBDevice {
    type V = DeviceView;

    open spec fn view(&self) -> DeviceView {
        DeviceView { path: self.path@, name: self.name@, events: self.events@ }
    }
}

/// When an event happened, as the remote device stamps it.
#[derive(Clone, Copy, Debug, PartialEq, Eq)]
pub struct EventTime {
    pub seconds: i64,
    pub microseconds: i64,
}

/// The state that a key event reports.
#[derive(Clone, Copy, Debug, PartialEq, Eq)]
pub enum KeyState {
    Released,
    Pressed,
    Repeated,
}

/// One event of the live stream.
#[derive(Clone, Copy, Debug, PartialEq, Eq)]
pub enum Event {
    Key { time: EventTime, key: u16, state: KeyState },
    Absolute { time: EventTime, axis: u16, value: i32 },
    /// An event of a kind that the bridge does not track.
    Ignored,
}

impl Event {
    /// The codes of the event are codes of their numberings.
    pub open spec fn well_formed(self) -> bool {
        match self {
            Event::Key { key, .. } => is_known(CodeSpace::Key, key),
            Event::Absolute { axis, .. } => is_known(CodeSpace::AbsoluteAxis, axis),
            Event::Ignored => true,
        }
    }
}

/// The devices of the capability dump `s` with the offset at which the last
/// of them ends, or where and why `s` is no dump.
pub open spec fn dump_devices(s: Seq<u8>) -> Result<(int, Seq<DeviceView>), ParseError> {
    match devices_at(s, 0) {
        Ok((devices, end)) => Ok((end, devices)),
        Err(f) => Err(dump_error(f)),
    }
}

/// The event that the line `s` encodes with the offset at which its encoding
/// ends, or where and why `s` is no event line.
pub open spec fn line_event(s: Seq<u8>) -> Result<(int, Event), ParseError> {
    match event_at(s, 0) {
        Ok((event, end)) => Ok((end, event)),
        Err(f) => Err(line_error(f)),
    }
}

/// Whether `r` is the reading of the capability dump `s`: devices of the
/// views that the dump's grammar gives and the offset at which it ends, or
/// the failure that it gives.
pub open spec fn reads_dump(r: Result<(usize, Vec<ADBDevice>), ParseError>, s: Seq<u8>) -> bool {
    match r {
        Ok((rest, devices)) => dump_devices(s) == Ok::<(int, Seq<DeviceView>), ParseError>(
            (rest as int, device_views(devices@)),
        ),
        Err(e) => dump_devices(s) == Err::<(int, Seq<DeviceView>), ParseError>(e),
    }
}

/// Whether `r` is the reading of the event line `s`: the event that the
/// line's grammar gives and the offset at which it ends, or the failure that
/// it gives.
pub open spec fn reads_line(r: Result<(usize, Event), ParseError>, s: Seq<u8>) -> bool {
    match r {
        Ok((rest, event)) => line_event(s) == Ok::<(int, Event), ParseError>((rest as int, event)),
        Err(e) => line_event(s) == Err::<(int, Event), ParseError>(e),
    }
}

/// Reads a capability dump: one device block or more, each beginning where
/// the one before ended, to the end of the input. With the devices comes the
/// offset at which the last block ends: only whitespace follows it. Anything
/// else after a block is a failure at the block that it does not begin.
/// Every code of a device that is read is a code of its numbering.
pub fn parse_dump(input: &[u8]) -> (r: Result<(usize, Vec<ADBDevice>), ParseError>)
    ensures
        reads_dump(r, input@),
        r matches Ok((rest, devices)) ==> devices@.len() > 0 && 0 < rest <= input@.len() && (
        forall|i: int| rest <= i < input@.len() ==> in_class(ByteClass::Whitespace, #[trigger] input@[i]))
            && (forall|i: int|
            0 <= i < devices@.len() ==> (#[trigger] devices@[i])@.events.well_formed()),
        r matches Err(e) ==> e.offset() <= input@.len(),
{
    proof {
        lemma_dump_is_read_to_its_end(input@);
    }
    match parse_device_blocks(input) {
        Ok((devices, rest)) => {
            proof {
                assert forall|i: int| 0 <= i < devices@.len() implies (
                #[trigger] devices@[i])@.events.well_formed() by {
                    assert(device_views(devices@)[i] == devices@[i]@);
                }
            }
            Ok((rest, devices))
        },
        Err(f) => Err(f.in_dump()),
    }
}

/// Reads the capability dump `input`, as `parse_dump` reads its bytes. Being
/// text, the dump does not fail for the text of a path or of a name.
pub fn parse_devices(input: &str) -> (r: Result<(usize, Vec<ADBDevice>), ParseError>)
    ensures
        reads_dump(r, input.spec_bytes()),
        r matches Ok((rest, devices)) ==> devices@.len() > 0 && 0 < rest
            <= input.spec_bytes().len() && (forall|i: int|
            rest <= i < input.spec_bytes().len() ==> in_class(
                ByteClass::Whitespace,
                #[trigger] input.spec_bytes()[i],
            )) && (forall|i: int|
            0 <= i < devices@.len() ==> (#[trigger] devices@[i])@.events.well_formed()),
        r matches Err(e) ==> e.offset() <= input.spec_bytes().len() && !(
        e matches ParseError::MalformedCapabilityDump { expected: Construct::Text, .. }),
{
    proof {
        encode_utf8_valid_utf8(input@);
        lemma_dump_of_text(input.spec_bytes());
    }
    parse_dump(input.as_bytes())
}

/// Reads one line of the live stream. With the event comes the offset at
/// which its encoding ends; what follows it on the line is not looked at.
/// Every code of an event that is read is a code of its numbering.
pub fn parse_line(input: &[u8]) -> (r: Result<(usize, Event), ParseError>)
    ensures
        reads_line(r, input@),
        r matches Ok((rest, event)) ==> event.well_formed() && 0 < rest <= input@.len(),
        r matches Err(e) ==> e.offset() <= input@.len(),
{
    proof {
        lemma_event_inside(input@, 0);
    }
    match parse_event(input, 0) {
        Ok((event, rest)) => Ok((rest, event)),
        Err(f) => Err(f.in_line()),
    }
}

/// Reads the line `input` of the live stream, as `parse_line` reads its
/// bytes.
pub fn parse_input_event(input: &str) -> (r: Result<(usize, Event), ParseError>)
    ensures
        reads_line(r, input.spec_bytes()),
        r matches Ok((rest, event)) ==> event.well_formed() && 0 < rest <= input.spec_bytes().len(),
        r matches Err(e) ==> e.offset() <= input.spec_bytes().len(),
{
    parse_line(input.as_bytes())
}

/// A dump has one reading: two readings of the same bytes give the same
/// failure, or devices of the same views that end at the same offset.
pub proof fn lemma_dump_has_one_reading(
    s: Seq<u8>,
    first: Result<(usize, Vec<ADBDevice>), ParseError>,
    second: Result<(usize, Vec<ADBDevice>), ParseError>,
)
    requires
        reads_dump(first, s),
        reads_dump(second, s),
    ensures
        match (first, second) {
            (Ok((rest, a)), Ok((again, b))) => rest == again && device_views(a@) == device_views(
                b@,
            ),
            (Err(e), Err(f)) => e == f,
            _ => false,
        },
{
}

/// An event line has one reading: two readings of the same bytes are equal.
pub proof fn lemma_line_has_one_reading(
    s: Seq<u8>,
    first: Result<(usize, Event), ParseError>,
    second: Result<(usize, Event), ParseError>,
)
    requires
        reads_line(first, s),
        reads_line(second, s),
    ensures
        first == second,
{
}

/// A dump is read to its end or fails at an offset inside it: where the
/// grammar gives devices, there is at least one, only whitespace follows the
/// last, and every code of every device is a code of its numbering.
pub proof fn lemma_dump_is_read_to_its_end(s: Seq<u8>)
    ensures
        match dump_devices(s) {
            Ok((end, devices)) => devices.len() > 0 && 0 < end <= s.len() && (forall|i: int|
                end <= i < s.len() ==> in_class(ByteClass::Whitespace, #[trigger] s[i])) && (
            forall|i: int| 0 <= i < devices.len() ==> (#[trigger] devices[i]).events.well_formed()),
            Err(e) => s.len() <= usize::MAX ==> e.offset() <= s.len(),
        },
{
    lemma_devices_inside(s, 0);
    if let Ok((devices, end)) = devices_at(s, 0) {
        lemma_run_bounds(s, end, ByteClass::Whitespace);
    }
}

/// A dump that is valid UTF-8 does not fail for the text of a path or of a
/// name.
pub proof fn lemma_dump_of_text(s: Seq<u8>)
    requires
        valid_utf8(s),
    ensures
        !(dump_devices(s) matches Err(
            ParseError::MalformedCapabilityDump { expected: Construct::Text, .. },
        )),
{
    lemma_devices_inside(s, 0);
}

/// An event line is read or fails at an offset inside it: where the grammar
/// gives an event, its encoding ends inside the line, and its code is a code
/// of its numbering.
pub proof fn lemma_line_is_read_or_fails_inside(s: Seq<u8>)
    ensures
        match line_event(s) {
            Ok((rest, event)) => 0 < rest <= s.len() && event.well_formed(),
            Err(e) => s.len() <= usize::MAX ==> e.offset() <= s.len(),
        },
{
    lemma_event_inside(s, 0);
}

} // verus!
