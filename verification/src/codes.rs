//! The kernel's numberings of event types, keys, axes and switches.
//!
//! Which codes exist is decided by the `input_linux` crate; the few codes that
//! the bridge treats specially are named here.

use crate::error::CodeSpace;
use vstd::prelude::*;

verus! {

/// Event type of key and button events.
pub const EV_KEY: u16 = 0x01;

/// Event type of relative-axis events.
pub const EV_REL: u16 = 0x02;

/// Event type of absolute-axis events.
pub const EV_ABS: u16 = 0x03;

/// Event type of switch events.
pub const EV_SW: u16 = 0x05;

/// Highest event type of the ordinary range.
pub const EV_MAX: u16 = 0x1f;

/// Event type of uinput's own requests, outside the ordinary range.
pub const EV_UINPUT: u16 = 0x0101;

/// Number of key codes.
pub const KEY_CNT: u16 = 0x300;

/// Number of relative-axis codes.
pub const REL_CNT: u16 = 0x10;

/// Number of absolute-axis codes.
pub const ABS_CNT: u16 = 0x40;

/// Number of switch codes.
pub const SW_CNT: u16 = 0x11;

/// Absolute axis X.
pub const ABS_X: u16 = 0x00;

/// Absolute axis Y.
pub const ABS_Y: u16 = 0x01;

/// Absolute axis of the stylus tilt along X.
pub const ABS_TILT_X: u16 = 0x1a;

/// Absolute axis of the stylus tilt along Y.
pub const ABS_TILT_Y: u16 = 0x1b;

/// The key that a pen reports while it is in range.
pub const BTN_TOOL_PEN: u16 = 0x140;

/// Whether `code` is a code of the numbering `space`.
pub open spec fn is_known(space: CodeSpace, code: u16) -> bool {
    match space {
        CodeSpace::EventKind => code <= EV_MAX || code == EV_UINPUT,
        CodeSpace::Key => code < KEY_CNT,
        CodeSpace::RelativeAxis => code < REL_CNT,
        CodeSpace::AbsoluteAxis => code < ABS_CNT,
        CodeSpace::Switch => code < SW_CNT,
    }
}

/// What a decoder of `space` returns for `code`: the code itself where it is known.
pub open spec fn decoded(space: CodeSpace, code: u16) -> Option<u16> {
    if is_known(space, code) {
        Some(code)
    } else {
        None
    }
}

/// Calls `input_linux::EventKind::from_type` and hands back the code of the
/// event type it found. The crate accepts the types up to `EV_MAX` and
/// `EV_UINPUT`, and numbers each type by its code.
#[verifier::external_body]
fn event_kind_from_type(code: u16) -> (r: Option<u16>)
    ensures
        r == decoded(CodeSpace::EventKind, code),
{
    match input_linux::EventKind::from_type(code) {
        Ok(kind) => Some(kind.code()),
        Err(_) => None,
    }
}

/// Calls `input_linux::Key::from_code` and hands back the code of the key it
/// found. The crate accepts the codes below `KEY_CNT`.
#[verifier::external_body]
fn key_from_code(code: u16) -> (r: Option<u16>)
    ensures
        r == decoded(CodeSpace::Key, code),
{
    match input_linux::Key::from_code(code) {
        Ok(key) => Some(key.code()),
        Err(_) => None,
    }
}

/// Calls `input_linux::RelativeAxis::from_code` and hands back the code of the
/// axis it found. The crate accepts the codes below `REL_CNT`.
#[verifier::external_body]
fn relative_axis_from_code(code: u16) -> (r: Option<u16>)
    ensures
        r == decoded(CodeSpace::RelativeAxis, code),
{
    match input_linux::RelativeAxis::from_code(code) {
        Ok(axis) => Some(axis.code()),
        Err(_) => None,
    }
}

/// Calls `input_linux::AbsoluteAxis::from_code` and hands back the code of the
/// axis it found. The crate accepts the codes below `ABS_CNT`.
#[verifier::external_body]
fn absolute_axis_from_code(code: u16) -> (r: Option<u16>)
    ensures
        r == decoded(CodeSpace::AbsoluteAxis, code),
{
    match input_linux::AbsoluteAxis::from_code(code) {
        Ok(axis) => Some(axis.code()),
        Err(_) => None,
    }
}

/// Calls `input_linux::SwitchKind::from_code` and hands back the code of the
/// switch it found. The crate accepts the codes below `SW_CNT`.
#[verifier::external_body]
fn switch_from_code(code: u16) -> (r: Option<u16>)
    ensures
        r == decoded(CodeSpace::Switch, code),
{
    match input_linux::SwitchKind::from_code(code) {
        Ok(switch) => Some(switch.code()),
        Err(_) => None,
    }
}

/// Decodes `code` in the numbering `space`.
pub fn decode(space: CodeSpace, code: u16) -> (r: Option<u16>)
    ensures
        r == decoded(space, code),
{
    match space {
        CodeSpace::EventKind => event_kind_from_type(code),
        CodeSpace::Key => key_from_code(code),
        CodeSpace::RelativeAxis => relative_axis_from_code(code),
        CodeSpace::AbsoluteAxis => absolute_axis_from_code(code),
        CodeSpace::Switch => switch_from_code(code),
    }
}

} // verus!
