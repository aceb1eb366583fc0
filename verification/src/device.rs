//! The device blocks of a capability dump: header line, name line, events
//! section and properties section.

use crate::capability::{capabilities_at, lemma_capabilities_inside, parse_device_events};
use crate::error::{missing, not_for_text, Construct, Failure};
use crate::parser::{ADBDevice, DeviceView};
use crate::scan::{
    byte_after, cursor, cursor_inside, expect_byte, expect_run, expect_tag, has_tag, in_class,
    inside, lemma_prepend_nothing, lemma_prepend_push, lemma_run_bounds, lemma_run_len_bound,
    long_run_after, match_tag, prepend, run_after, run_end, skip_run, tag_after, viewed, ByteClass,
    Cursor, COLON, LF, QUOTE,
};
use vstd::prelude::*;
use vstd::slice::*;
use vstd::string::*;
use vstd::utf8::*;

verus! {

broadcast use lemma_run_len_bound;

/// The text that the bytes `s[start..end]` encode, with the cursor `c` after it.
pub open spec fn text_between(s: Seq<u8>, start: int, end: int, c: Cursor) -> Result<
    (Seq<char>, int),
    Failure,
> {
    match c {
        Ok(next) => if valid_utf8(s.subrange(start, end)) {
            Ok((decode_utf8(s.subrange(start, end)), next))
        } else {
            Err(missing(start, Construct::Text))
        },
        Err(f) => Err(f),
    }
}

/// The header line of a device block: the marker, a decimal index, `:`, a gap,
/// and the path up to the end of the line.
pub open spec fn device_path_at(s: Seq<u8>, pos: int) -> Result<(Seq<char>, int), Failure> {
    let c = tag_after(Ok(pos), s, "add device ", Construct::DeviceMarker);
    let c = long_run_after(c, s, ByteClass::Digit, 1, Construct::DeviceIndex);
    let c = byte_after(c, s, COLON, Construct::Colon);
    let c = long_run_after(c, s, ByteClass::Space, 1, Construct::Space);
    match c {
        Ok(start) => {
            let end = run_end(s, start, ByteClass::LineContent);
            text_between(s, start, end, byte_after(Ok(end), s, LF, Construct::Newline))
        },
        Err(f) => Err(f),
    }
}

/// The name line of a device block: a gap, `name:`, a gap, and the name in
/// double quotes.
pub open spec fn device_name_at(s: Seq<u8>, pos: int) -> Result<(Seq<char>, int), Failure> {
    let c = long_run_after(Ok(pos), s, ByteClass::Space, 1, Construct::Space);
    let c = tag_after(c, s, "name:", Construct::NameMarker);
    let c = long_run_after(c, s, ByteClass::Space, 1, Construct::Space);
    let c = byte_after(c, s, QUOTE, Construct::Quote);
    match c {
        Ok(start) => {
            let end = run_end(s, start, ByteClass::NameContent);
            let c = byte_after(Ok(end), s, QUOTE, Construct::Quote);
            text_between(s, start, end, byte_after(c, s, LF, Construct::Newline))
        },
        Err(f) => Err(f),
    }
}

/// One property: whitespace if any, `INPUT_PROP_`, letters, and whitespace.
pub open spec fn property_at(s: Seq<u8>, pos: int) -> Cursor {
    let c = run_after(Ok(pos), s, ByteClass::Whitespace);
    let c = tag_after(c, s, "INPUT_PROP_", Construct::Property);
    let c = long_run_after(c, s, ByteClass::Alpha, 1, Construct::PropertyName);
    long_run_after(c, s, ByteClass::Whitespace, 1, Construct::Whitespace)
}

/// The properties from `pos` on, as long as the whitespace at hand is followed
/// by `INPUT_PROP_`.
pub open spec fn more_properties_at(s: Seq<u8>, pos: int) -> Cursor
    decreases s.len() - pos,
{
    if has_tag(s, run_end(s, pos, ByteClass::Whitespace), "INPUT_PROP_") {
        match property_at(s, pos) {
            Ok(next) => more_properties_at(s, next),
            Err(f) => Err(f),
        }
    } else {
        Ok(pos)
    }
}

/// The properties of a device block, after the marker `input props:`: the
/// end of the line, whitespace, and either `<none>` on its line or one
/// property or more. The properties are not kept.
pub open spec fn properties_at(s: Seq<u8>, pos: int) -> Cursor {
    let c = byte_after(Ok(pos), s, LF, Construct::Newline);
    match long_run_after(c, s, ByteClass::Whitespace, 1, Construct::Whitespace) {
        Ok(first) => if has_tag(s, first, "<none>") {
            byte_after(
                tag_after(Ok(first), s, "<none>", Construct::Property),
                s,
                LF,
                Construct::Newline,
            )
        } else {
            match property_at(s, first) {
                Ok(next) => more_properties_at(s, next),
                Err(f) => Err(f),
            }
        },
        Err(f) => Err(f),
    }
}

/// A device block: the header line, the name line, the events section, the
/// marker of the properties, and the properties.
pub open spec fn device_at(s: Seq<u8>, pos: int) -> Result<(DeviceView, int), Failure> {
    match device_path_at(s, pos) {
        Ok((path, name_at)) => match device_name_at(s, name_at) {
            Ok((name, events_at)) => match capabilities_at(s, events_at) {
                Ok((events, properties)) => match properties_at(s, properties) {
                    Ok(next) => Ok((DeviceView { path, name, events }, next)),
                    Err(f) => Err(f),
                },
                Err(f) => Err(f),
            },
            Err(f) => Err(f),
        },
        Err(f) => Err(f),
    }
}

/// The device blocks from `pos` to the end of the input: one or more, each
/// beginning where the one before ended; after the last, whitespace only.
pub open spec fn devices_at(s: Seq<u8>, pos: int) -> Result<(Seq<DeviceView>, int), Failure>
    decreases s.len() - pos,
{
    match device_at(s, pos) {
        Ok((device, next)) => if run_end(s, next, ByteClass::Whitespace) >= s.len() {
            Ok((seq![device], next))
        } else {
            proof {
                lemma_device_inside(s, pos);
            }
            prepend(seq![device], devices_at(s, next))
        },
        Err(f) => Err(f),
    }
}

/// Between two ASCII bytes of valid UTF-8 lies valid UTF-8.
pub proof fn lemma_text_between_ascii(s: Seq<u8>, start: int, end: int)
    requires
        valid_utf8(s),
        0 < start <= end < s.len(),
        s[start - 1] <= 0x7f,
        s[end] <= 0x7f,
    ensures
        valid_utf8(s.subrange(start, end)),
{
    let before = s.subrange(start - 1, s.len() as int);
    let from = s.subrange(start, s.len() as int);
    assert(valid_utf8(before)) by {
        is_char_boundary_iff_not_is_continuation_byte(s, start - 1);
        valid_utf8_split(s, start - 1);
    }
    assert(valid_utf8(from)) by {
        assert(pop_first_scalar(before) =~= from);
    }
    is_char_boundary_iff_not_is_continuation_byte(from, end - start);
    valid_utf8_split(from, end - start);
    assert(from.subrange(0, end - start) =~= s.subrange(start, end));
}

/// The header line ends inside the input, after where it began, or fails
/// inside the input; in valid UTF-8 it does not fail for its text.
pub proof fn lemma_device_path_inside(s: Seq<u8>, pos: int)
    requires
        0 <= pos <= s.len(),
    ensures
        inside(device_path_at(s, pos), s, pos),
        valid_utf8(s) ==> not_for_text(device_path_at(s, pos)),
        device_path_at(s, pos) matches Ok((_, next)) ==> pos < next,
{
    let c = tag_after(Ok(pos), s, "add device ", Construct::DeviceMarker);
    let c = long_run_after(c, s, ByteClass::Digit, 1, Construct::DeviceIndex);
    if let Ok(gap) = byte_after(c, s, COLON, Construct::Colon) {
        if let Ok(start) = long_run_after(Ok(gap), s, ByteClass::Space, 1, Construct::Space) {
            let end = run_end(s, start, ByteClass::LineContent);
            lemma_run_bounds(s, start, ByteClass::LineContent);
            if valid_utf8(s) && end < s.len() && s[end] == LF {
                lemma_run_bounds(s, gap, ByteClass::Space);
                assert(in_class(ByteClass::Space, s[start - 1]));
                lemma_text_between_ascii(s, start, end);
            }
        }
    }
}

/// The name line ends inside the input, after where it began, or fails
/// inside the input; in valid UTF-8 it does not fail for its text.
pub proof fn lemma_device_name_inside(s: Seq<u8>, pos: int)
    requires
        0 <= pos <= s.len(),
    ensures
        inside(device_name_at(s, pos), s, pos),
        valid_utf8(s) ==> not_for_text(device_name_at(s, pos)),
        device_name_at(s, pos) matches Ok((_, next)) ==> pos < next,
{
    let c = long_run_after(Ok(pos), s, ByteClass::Space, 1, Construct::Space);
    let c = tag_after(c, s, "name:", Construct::NameMarker);
    let c = long_run_after(c, s, ByteClass::Space, 1, Construct::Space);
    if let Ok(start) = byte_after(c, s, QUOTE, Construct::Quote) {
        let end = run_end(s, start, ByteClass::NameContent);
        lemma_run_bounds(s, start, ByteClass::NameContent);
        if valid_utf8(s) && end < s.len() {
            lemma_text_between_ascii(s, start, end);
        }
    }
}

/// One property ends inside the input, after where it began, or fails inside
/// the input.
pub proof fn lemma_property_inside(s: Seq<u8>, pos: int)
    requires
        0 <= pos <= s.len(),
    ensures
        cursor_inside(property_at(s, pos), s, pos),
        not_for_text(property_at(s, pos)),
        property_at(s, pos) matches Ok(next) ==> pos < next,
{
}

/// The properties end inside the input or fail inside it.
pub proof fn lemma_more_properties_inside(s: Seq<u8>, pos: int)
    requires
        0 <= pos <= s.len(),
    ensures
        cursor_inside(more_properties_at(s, pos), s, pos),
        not_for_text(more_properties_at(s, pos)),
    decreases s.len() - pos,
{
    if has_tag(s, run_end(s, pos, ByteClass::Whitespace), "INPUT_PROP_") {
        lemma_property_inside(s, pos);
        if let Ok(next) = property_at(s, pos) {
            lemma_more_properties_inside(s, next);
        }
    }
}

/// The properties end inside the input, after where they began, or fail
/// inside the input.
pub proof fn lemma_properties_inside(s: Seq<u8>, pos: int)
    requires
        0 <= pos <= s.len(),
    ensures
        cursor_inside(properties_at(s, pos), s, pos),
        not_for_text(properties_at(s, pos)),
        properties_at(s, pos) matches Ok(next) ==> pos < next,
{
    let c = byte_after(Ok(pos), s, LF, Construct::Newline);
    if let Ok(first) = long_run_after(c, s, ByteClass::Whitespace, 1, Construct::Whitespace) {
        lemma_property_inside(s, first);
        if let Ok(next) = property_at(s, first) {
            lemma_more_properties_inside(s, next);
        }
    }
}

/// A device block ends inside the input, after where it began, or fails
/// inside the input; it holds only codes that are known, and in valid UTF-8
/// it does not fail for a text.
pub proof fn lemma_device_inside(s: Seq<u8>, pos: int)
    requires
        0 <= pos <= s.len(),
    ensures
        inside(device_at(s, pos), s, pos),
        valid_utf8(s) ==> not_for_text(device_at(s, pos)),
        device_at(s, pos) matches Ok((device, next)) ==> pos < next && device.events.well_formed(),
{
    lemma_device_path_inside(s, pos);
    if let Ok((path, name_at)) = device_path_at(s, pos) {
        lemma_device_name_inside(s, name_at);
        if let Ok((name, events_at)) = device_name_at(s, name_at) {
            lemma_capabilities_inside(s, events_at);
            if let Ok((events, properties)) = capabilities_at(s, events_at) {
                lemma_properties_inside(s, properties);
            }
        }
    }
}

/// The device blocks are read to the end of the input, but for whitespace,
/// or fail inside the input; there is at least one, and each holds only
/// codes that are known. In valid UTF-8 they do not fail for a text.
pub proof fn lemma_devices_inside(s: Seq<u8>, pos: int)
    requires
        0 <= pos <= s.len(),
    ensures
        inside(devices_at(s, pos), s, pos),
        valid_utf8(s) ==> not_for_text(devices_at(s, pos)),
        devices_at(s, pos) matches Ok((devices, end)) ==> devices.len() > 0 && pos < end
            && run_end(s, end, ByteClass::Whitespace) == s.len() && forall|i: int|
            0 <= i < devices.len() ==> (#[trigger] devices[i]).events.well_formed(),
    decreases s.len() - pos,
{
    lemma_device_inside(s, pos);
    if let Ok((device, next)) = device_at(s, pos) {
        lemma_run_bounds(s, next, ByteClass::Whitespace);
        if run_end(s, next, ByteClass::Whitespace) < s.len() {
            lemma_devices_inside(s, next);
            if let Ok((rest, end)) = devices_at(s, next) {
                let devices = seq![device] + rest;
                assert forall|i: int| 0 <= i < devices.len() implies (
                #[trigger] devices[i]).events.well_formed() by {
                    if i > 0 {
                        assert(devices[i] == rest[i - 1]);
                    }
                }
            }
        }
    }
}

/// Calls `core::str::from_utf8`, which accepts exactly the byte strings that
/// are valid UTF-8 and hands back the same bytes as text.
#[verifier::external_body]
fn str_from_utf8(bytes: &[u8]) -> (r: Option<&str>)
    ensures
        r is Some <==> valid_utf8(bytes@),
        r matches Some(text) ==> text.spec_bytes() == bytes@,
{
    match core::str::from_utf8(bytes) {
        Ok(text) => Some(text),
        Err(_) => None,
    }
}

/// Reads the bytes `input[start..end]` as text: they have to be valid UTF-8.
fn read_text(input: &[u8], start: usize, end: usize) -> (r: Result<String, Failure>)
    requires
        start <= end <= input@.len(),
    ensures
        match r {
            Ok(text) => valid_utf8(input@.subrange(start as int, end as int)) && text@
                == decode_utf8(input@.subrange(start as int, end as int)),
            Err(f) => !valid_utf8(input@.subrange(start as int, end as int)) && f == missing(
                start as int,
                Construct::Text,
            ),
        },
{
    match str_from_utf8(slice_subrange(input, start, end)) {
        Some(text) => {
            proof {
                encode_utf8_decode_utf8(text@);
            }
            Ok(text.to_owned())
        },
        None => Err(Failure::expected(start, Construct::Text)),
    }
}

/// Reads the header line at `pos`.
fn parse_device_path(input: &[u8], pos: usize) -> (r: Result<(String, usize), Failure>)
    requires
        pos <= input@.len(),
    ensures
        viewed(r) == device_path_at(input@, pos as int),
        r matches Ok((_, next)) ==> pos < next <= input@.len(),
        r matches Err(f) ==> pos <= f.offset <= input@.len(),
{
    let p = expect_tag(input, pos, "add device ", Construct::DeviceMarker)?;
    let p = expect_run(input, p, ByteClass::Digit, 1, Construct::DeviceIndex)?;
    let p = expect_byte(input, p, COLON, Construct::Colon)?;
    let start = expect_run(input, p, ByteClass::Space, 1, Construct::Space)?;
    let end = skip_run(input, start, ByteClass::LineContent);
    let next = expect_byte(input, end, LF, Construct::Newline)?;
    let path = read_text(input, start, end)?;
    Ok((path, next))
}

/// Reads the name line at `pos`.
fn parse_device_name(input: &[u8], pos: usize) -> (r: Result<(String, usize), Failure>)
    requires
        pos <= input@.len(),
    ensures
        viewed(r) == device_name_at(input@, pos as int),
        r matches Ok((_, next)) ==> pos < next <= input@.len(),
        r matches Err(f) ==> pos <= f.offset <= input@.len(),
{
    let p = expect_run(input, pos, ByteClass::Space, 1, Construct::Space)?;
    let p = expect_tag(input, p, "name:", Construct::NameMarker)?;
    let p = expect_run(input, p, ByteClass::Space, 1, Construct::Space)?;
    let start = expect_byte(input, p, QUOTE, Construct::Quote)?;
    let end = skip_run(input, start, ByteClass::NameContent);
    let p = expect_byte(input, end, QUOTE, Construct::Quote)?;
    let next = expect_byte(input, p, LF, Construct::Newline)?;
    let name = read_text(input, start, end)?;
    Ok((name, next))
}

/// Reads one property at `pos`.
fn parse_device_input_property(input: &[u8], pos: usize) -> (r: Result<usize, Failure>)
    requires
        pos <= input@.len(),
    ensures
        cursor(r) == property_at(input@, pos as int),
        r matches Ok(next) ==> pos < next <= input@.len(),
        r matches Err(f) ==> pos <= f.offset <= input@.len(),
{
    let p = skip_run(input, pos, ByteClass::Whitespace);
    let p = expect_tag(input, p, "INPUT_PROP_", Construct::Property)?;
    let p = expect_run(input, p, ByteClass::Alpha, 1, Construct::PropertyName)?;
    expect_run(input, p, ByteClass::Whitespace, 1, Construct::Whitespace)
}

/// Reads the properties at `pos`, after their marker.
fn parse_device_input_properties(input: &[u8], pos: usize) -> (r: Result<usize, Failure>)
    requires
        pos <= input@.len(),
    ensures
        cursor(r) == properties_at(input@, pos as int),
        r matches Ok(next) ==> pos < next <= input@.len(),
        r matches Err(f) ==> pos <= f.offset <= input@.len(),
{
    let p = expect_byte(input, pos, LF, Construct::Newline)?;
    let first = expect_run(input, p, ByteClass::Whitespace, 1, Construct::Whitespace)?;
    match match_tag(input, first, "<none>") {
        Some(p) => expect_byte(input, p, LF, Construct::Newline),
        None => {
            let mut cur = parse_device_input_property(input, first)?;
            loop
                invariant
                    pos < cur <= input@.len(),
                    properties_at(input@, pos as int) == more_properties_at(input@, cur as int),
                ensures
                    more_properties_at(input@, cur as int) == Ok::<int, Failure>(cur as int),
                decreases input@.len() - cur,
            {
                let ahead = skip_run(input, cur, ByteClass::Whitespace);
                if match_tag(input, ahead, "INPUT_PROP_").is_none() {
                    break ;
                }
                cur = parse_device_input_property(input, cur)?;
            }
            Ok(cur)
        },
    }
}

/// Reads the device block at `pos`.
fn parse_device(input: &[u8], pos: usize) -> (r: Result<(ADBDevice, usize), Failure>)
    requires
        pos <= input@.len(),
    ensures
        viewed(r) == device_at(input@, pos as int),
        r matches Ok((_, next)) ==> pos < next <= input@.len(),
        r matches Err(f) ==> pos <= f.offset <= input@.len(),
{
    let (path, p) = parse_device_path(input, pos)?;
    let (name, p) = parse_device_name(input, p)?;
    let (events, p) = parse_device_events(input, p)?;
    let next = parse_device_input_properties(input, p)?;
    Ok((ADBDevice { path, name, events }, next))
}

/// The views of `devices`, in their order.
pub open spec fn device_views(devices: Seq<ADBDevice>) -> Seq<DeviceView> {
    devices.map_values(|device: ADBDevice| device@)
}

/// Reads the device blocks of `input`: one or more, to the end of the input.
/// With the devices comes the offset at which the last block ends.
pub(crate) fn parse_device_blocks(input: &[u8]) -> (r: Result<(Vec<ADBDevice>, usize), Failure>)
    ensures
        match r {
            Ok((devices, end)) => devices_at(input@, 0) == Ok::<(Seq<DeviceView>, int), Failure>(
                (device_views(devices@), end as int),
            ),
            Err(f) => devices_at(input@, 0) == Err::<(Seq<DeviceView>, int), Failure>(f)
                && f.offset <= input@.len(),
        },
{
    let mut devices: Vec<ADBDevice> = Vec::new();
    let mut cur: usize = 0;
    proof {
        lemma_prepend_nothing(devices_at(input@, 0));
        assert(device_views(devices@) =~= Seq::<DeviceView>::empty());
    }
    loop
        invariant_except_break
            devices_at(input@, 0) == prepend(device_views(devices@), devices_at(input@, cur as int)),
        invariant
            cur <= input@.len(),
        ensures
            devices_at(input@, 0) == Ok::<(Seq<DeviceView>, int), Failure>(
                (device_views(devices@), cur as int),
            ),
        decreases input@.len() - cur,
    {
        let (device, next) = parse_device(input, cur)?;
        proof {
            lemma_prepend_push(device_views(devices@), device@, devices_at(input@, next as int));
            assert(device_views(devices@.push(device)) =~= device_views(devices@).push(device@));
            assert(device_views(devices@) + seq![device@] =~= device_views(devices@).push(
                device@,
            ));
        }
        devices.push(device);
        cur = next;
        if skip_run(input, next, ByteClass::Whitespace) >= input.len() {
            break ;
        }
    }
    Ok((devices, cur))
}

} // verus!
