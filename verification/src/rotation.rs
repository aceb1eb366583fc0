//! Remaps the absolute events of a device that is used rotated against the
//! display.

use crate::codes::{ABS_TILT_X, ABS_TILT_Y, ABS_X, ABS_Y};
use crate::error::ParseError;
use crate::parser::{line_event, parse_input_event, Event, EventTime};
use vstd::prelude::*;
use vstd::string::*;

verus! {

/// How far the device is turned.
#[derive(Clone, Copy, Debug, PartialEq, Eq)]
pub enum Rotation {
    Rotation90,
    Rotation180,
    Rotation270,
}

/// A rotation with the maxima of the device's X and Y axes.
#[derive(Clone, Copy, Debug, PartialEq, Eq)]
pub struct RotationData {
    pub rotation: Rotation,
    pub maximum_x: i32,
    pub maximum_y: i32,
}

/// What a rotation does to the value of an axis.
#[derive(Clone, Copy, Debug, PartialEq, Eq)]
pub enum Mirror {
    /// The value stays.
    Keep,
    /// The value changes its sign.
    Negate,
    /// The value is counted back from the maximum of X.
    FromMaximumX,
    /// The value is counted back from the maximum of Y.
    FromMaximumY,
}

/// The table of the remapper: for `rotation` and `axis`, the axis that is
/// reported instead and what becomes of the value. `None` for an axis that no
/// rotation touches.
pub open spec fn remap_rule(rotation: Rotation, axis: u16) -> Option<(u16, Mirror)> {
    match rotation {
        Rotation::Rotation90 => if axis == ABS_X {
            Some((ABS_Y, Mirror::Keep))
        } else if axis == ABS_Y {
            Some((ABS_X, Mirror::FromMaximumY))
        } else if axis == ABS_TILT_X {
            Some((ABS_TILT_Y, Mirror::Keep))
        } else if axis == ABS_TILT_Y {
            Some((ABS_TILT_X, Mirror::Negate))
        } else {
            None
        },
        Rotation::Rotation180 => if axis == ABS_X {
            Some((ABS_X, Mirror::FromMaximumX))
        } else if axis == ABS_Y {
            Some((ABS_Y, Mirror::FromMaximumY))
        } else if axis == ABS_TILT_X {
            Some((ABS_TILT_X, Mirror::Negate))
        } else if axis == ABS_TILT_Y {
            Some((ABS_TILT_Y, Mirror::Negate))
        } else {
            None
        },
        Rotation::Rotation270 => if axis == ABS_X {
            Some((ABS_Y, Mirror::FromMaximumX))
        } else if axis == ABS_Y {
            Some((ABS_X, Mirror::Keep))
        } else if axis == ABS_TILT_X {
            Some((ABS_TILT_Y, Mirror::Negate))
        } else if axis == ABS_TILT_Y {
            Some((ABS_TILT_X, Mirror::Keep))
        } else {
            None
        },
    }
}

/// The number `x` in 32 bits: itself where it fits, else the number of the
/// same 32 low bits. For differences of two 32-bit numbers.
pub open spec fn wrapped(x: int) -> i32 {
    if x > i32::MAX {
        (x - 0x1_0000_0000) as i32
    } else if x < i32::MIN {
        (x + 0x1_0000_0000) as i32
    } else {
        x as i32
    }
}

/// The value `value` under `mirror`.
pub open spec fn mirrored(mirror: Mirror, data: RotationData, value: i32) -> i32 {
    match mirror {
        Mirror::Keep => value,
        Mirror::Negate => wrapped(-value),
        Mirror::FromMaximumX => wrapped(data.maximum_x - value),
        Mirror::FromMaximumY => wrapped(data.maximum_y - value),
    }
}

/// The event that the bridge emits for `event`: an absolute event on X, Y or
/// a tilt axis follows the table when a rotation is set; every other event is
/// emitted as it is.
pub open spec fn remapped(event: Event, data: Option<RotationData>) -> Event {
    match (event, data) {
        (Event::Absolute { time, axis, value }, Some(data)) => match remap_rule(
            data.rotation,
            axis,
        ) {
            Some((to, mirror)) => Event::Absolute {
                time,
                axis: to,
                value: mirrored(mirror, data, value),
            },
            None => event,
        },
        _ => event,
    }
}

/// Looks `axis` up in the table of `rotation`.
fn rule_for(rotation: Rotation, axis: u16) -> (r: Option<(u16, Mirror)>)
    ensures
        r == remap_rule(rotation, axis),
{
    match rotation {
        Rotation::Rotation90 => if axis == ABS_X {
            Some((ABS_Y, Mirror::Keep))
        } else if axis == ABS_Y {
            Some((ABS_X, Mirror::FromMaximumY))
        } else if axis == ABS_TILT_X {
            Some((ABS_TILT_Y, Mirror::Keep))
        } else if axis == ABS_TILT_Y {
            Some((ABS_TILT_X, Mirror::Negate))
        } else {
            None
        },
        Rotation::Rotation180 => if axis == ABS_X {
            Some((ABS_X, Mirror::FromMaximumX))
        } else if axis == ABS_Y {
            Some((ABS_Y, Mirror::FromMaximumY))
        } else if axis == ABS_TILT_X {
            Some((ABS_TILT_X, Mirror::Negate))
        } else if axis == ABS_TILT_Y {
            Some((ABS_TILT_Y, Mirror::Negate))
        } else {
            None
        },
        Rotation::Rotation270 => if axis == ABS_X {
            Some((ABS_Y, Mirror::FromMaximumX))
        } else if axis == ABS_Y {
            Some((ABS_X, Mirror::Keep))
        } else if axis == ABS_TILT_X {
            Some((ABS_TILT_Y, Mirror::Negate))
        } else if axis == ABS_TILT_Y {
            Some((ABS_TILT_X, Mirror::Keep))
        } else {
            None
        },
    }
}

/// Brings the difference `x` of two 32-bit numbers into 32 bits.
fn wrap(x: i64) -> (r: i32)
    requires
        -0x1_0000_0000 < x < 0x1_0000_0000,
    ensures
        r == wrapped(x as int),
{
    if x > 0x7fff_ffff {
        (x - 0x1_0000_0000) as i32
    } else if x < -0x8000_0000 {
        (x + 0x1_0000_0000) as i32
    } else {
        x as i32
    }
}

/// Applies `mirror` to `value`.
fn mirror_value(mirror: Mirror, data: &RotationData, value: i32) -> (r: i32)
    ensures
        r == mirrored(mirror, *data, value),
{
    match mirror {
        Mirror::Keep => value,
        Mirror::Negate => wrap(-(value as i64)),
        Mirror::FromMaximumX => wrap(data.maximum_x as i64 - value as i64),
        Mirror::FromMaximumY => wrap(data.maximum_y as i64 - value as i64),
    }
}

/// Remaps `event` for the rotation `rotation_data_opt`, if one is set.
pub fn remap_event(rotation_data_opt: &Option<RotationData>, event: Event) -> (r: Event)
    ensures
        r == remapped(event, *rotation_data_opt),
{
    match (event, rotation_data_opt) {
        (Event::Absolute { time, axis, value }, Some(data)) => match rule_for(data.rotation, axis) {
            Some((to, mirror)) => Event::Absolute {
                time,
                axis: to,
                value: mirror_value(mirror, data, value),
            },
            None => event,
        },
        _ => event,
    }
}

/// An event line that could not be read, with the reason.
#[derive(Clone, Debug, PartialEq, Eq)]
pub struct LineError {
    pub line: String,
    pub error: ParseError,
}

/// The event that the bridge emits for the line `s`, or why `s` is no event
/// line.
pub open spec fn translated(s: Seq<u8>, data: Option<RotationData>) -> Result<Event, ParseError> {
    match line_event(s) {
        Ok((_, event)) => Ok(remapped(event, data)),
        Err(e) => Err(e),
    }
}

/// Reads one line of the live stream and remaps its event. A line that
/// cannot be read comes back in the error; the next line is read on its own.
pub fn translate_device_event(rotation_data_opt: &Option<RotationData>, raw_event: &str) -> (r:
    Result<Event, LineError>)
    ensures
        match r {
            Ok(event) => translated(raw_event.spec_bytes(), *rotation_data_opt) == Ok::<
                Event,
                ParseError,
            >(event),
            Err(e) => translated(raw_event.spec_bytes(), *rotation_data_opt) == Err::<
                Event,
                ParseError,
            >(e.error) && e.line@ == raw_event@,
        },
{
    match parse_input_event(raw_event) {
        Ok((_, event)) => Ok(remap_event(rotation_data_opt, event)),
        Err(error) => Err(LineError { line: raw_event.to_owned(), error }),
    }
}

/// Under a rotation by 180 degrees an event on X keeps its axis, and its
/// value is counted back from the maximum of X, wherever that difference fits
/// 32 bits.
pub proof fn lemma_rotation_180_mirrors_x(data: RotationData, time: EventTime, value: i32)
    requires
        data.rotation == Rotation::Rotation180,
        i32::MIN <= data.maximum_x - value <= i32::MAX,
    ensures
        remapped(Event::Absolute { time, axis: ABS_X, value }, Some(data)) == (Event::Absolute {
            time,
            axis: ABS_X,
            value: (data.maximum_x - value) as i32,
        }),
{
}

/// Under a rotation by 90 degrees an event on X becomes an event on Y with
/// the same value.
pub proof fn lemma_rotation_90_moves_x_to_y(data: RotationData, time: EventTime, value: i32)
    requires
        data.rotation == Rotation::Rotation90,
    ensures
        remapped(Event::Absolute { time, axis: ABS_X, value }, Some(data)) == (Event::Absolute {
            time,
            axis: ABS_Y,
            value,
        }),
{
}

/// Under a rotation by 90 degrees an event on Y becomes an event on X, and
/// its value is counted back from the maximum of Y, wherever that difference
/// fits 32 bits.
pub proof fn lemma_rotation_90_mirrors_y_to_x(data: RotationData, time: EventTime, value: i32)
    requires
        data.rotation == Rotation::Rotation90,
        i32::MIN <= data.maximum_y - value <= i32::MAX,
    ensures
        remapped(Event::Absolute { time, axis: ABS_Y, value }, Some(data)) == (Event::Absolute {
            time,
            axis: ABS_X,
            value: (data.maximum_y - value) as i32,
        }),
{
}

/// An event that is no absolute event passes every rotation unchanged, and
/// so does every event where no rotation is set, and every absolute event on
/// an axis other than X, Y and the two tilt axes.
pub proof fn lemma_untouched_events(event: Event, data: Option<RotationData>)
    ensures
        !(event is Absolute) ==> remapped(event, data) == event,
        data is None ==> remapped(event, data) == event,
        event matches Event::Absolute { axis, .. } && axis != ABS_X && axis != ABS_Y && axis
            != ABS_TILT_X && axis != ABS_TILT_Y ==> remapped(event, data) == event,
{
}

/// A remapped event is timed as the event it came from; where the codes of an
/// event are codes of their numberings, so are those of the remapped event.
pub proof fn lemma_remap_keeps_kind(event: Event, data: Option<RotationData>)
    ensures
        event.well_formed() ==> remapped(event, data).well_formed(),
        event matches Event::Absolute { time, .. } ==> remapped(event, data) matches Event::Absolute {
            time: after,
            ..
        } && after == time,
{
}

/// Two rotations by 180 degrees bring every event back, whatever the maxima.
pub proof fn lemma_rotation_180_twice(event: Event, data: RotationData)
    requires
        data.rotation == Rotation::Rotation180,
    ensures
        remapped(remapped(event, Some(data)), Some(data)) == event,
{
}

/// A position on X or Y that lies between 0 and the maximum of its axis is
/// remapped to a position between 0 and that same maximum.
pub proof fn lemma_remapped_position_stays_in_range(
    data: RotationData,
    time: EventTime,
    axis: u16,
    value: i32,
)
    requires
        axis == ABS_X || axis == ABS_Y,
        0 <= value <= (if axis == ABS_X {
            data.maximum_x
        } else {
            data.maximum_y
        }),
    ensures
        remapped(Event::Absolute { time, axis, value }, Some(data)) matches Event::Absolute {
            value: after,
            ..
        } && 0 <= after <= (if axis == ABS_X {
            data.maximum_x
        } else {
            data.maximum_y
        }),
{
}

} // verus!
