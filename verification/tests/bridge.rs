use input_linux::{AbsoluteAxis, EventKind, Key, RelativeAxis, SwitchKind};
use tablet_bridge::cli::{
    identify_tablet_device, run, AppCli, ForwardArgs, IdentityTabletDeviceArgs, ListSubDeviceArgs,
    Task, UsageError,
};
use tablet_bridge::codes::{
    decode, ABS_CNT, ABS_TILT_X, ABS_TILT_Y, ABS_X, ABS_Y, BTN_TOOL_PEN, EV_ABS, EV_KEY, EV_MAX,
    EV_REL, EV_SW, EV_UINPUT, KEY_CNT, REL_CNT, SW_CNT,
};
use tablet_bridge::error::{CodeSpace, Construct, ParseError};
use tablet_bridge::parser::{
    parse_devices, parse_dump, parse_input_event, parse_line, ADBDevice, AbsoluteInfo,
    AbsoluteInfoSetup, Event, EventTime, KeyState,
};
use tablet_bridge::rotation::{
    remap_event, translate_device_event, LineError, Rotation, RotationData,
};
use tablet_bridge::scan::from_hex;
use tablet_bridge::uinput::{setup_virtual_input_device, Declaration, DeviceIdentity};

/// The pen of a tablet, alone in its dump.
const PEN: &str = "add device 1: /dev/input/event9
  name:     \"sec_e-pen\"
  events:
    KEY (0001): 00ac  00fd  0140  0141  014a  014b 
    ABS (0003): 0000  : value 0, min 0, max 19589, fuzz 4, flat 0, resolution 0
                0001  : value 0, min 0, max 31376, fuzz 4, flat 0, resolution 0
                0018  : value 0, min 0, max 4095, fuzz 0, flat 0, resolution 0
                0019  : value 0, min 0, max 255, fuzz 0, flat 0, resolution 0
                001a  : value -11, min -63, max 63, fuzz 0, flat 0, resolution 0
                001b  : value 2, min -63, max 63, fuzz 0, flat 0, resolution 0
    SW  (0005): 000d* 000f* 0010 
  input props:
    <none>
";

/// The devices of a dump that is read.
fn devices_of(dump: &str) -> Vec<ADBDevice> {
    let (rest, devices) = parse_devices(dump).expect("the dump is well formed");
    assert!(dump[rest..].chars().all(|c| c.is_ascii_whitespace()));
    devices
}

fn pen() -> ADBDevice {
    let mut devices = devices_of(PEN);
    assert_eq!(devices.len(), 1);
    devices.remove(0)
}

fn identity() -> DeviceIdentity {
    DeviceIdentity {
        bustype: 0x03,
        vendor: 0x1234,
        product: 0x5678,
        version: 0,
        name: String::from("Android Tablet Bridge"),
    }
}

fn time(seconds: i64, microseconds: i64) -> EventTime {
    EventTime { seconds, microseconds }
}

fn info(maximum: i32, fuzz: i32, resolution: i32) -> AbsoluteInfo {
    AbsoluteInfo { value: 0, minimum: 0, maximum, fuzz, flat: 0, resolution }
}

/// A dump of one device `d` whose events section is `events`.
fn dump_with(events: &str) -> String {
    format!("add device 1: /dev/input/event0\n  name: \"d\"\n  events:\n{events}  input props:\n    <none>\n")
}

fn dump_failure(input: &str) -> ParseError {
    parse_devices(input).expect_err("the dump is not well formed")
}

fn line_failure(input: &str) -> ParseError {
    parse_input_event(input).expect_err("the line is not well formed")
}

fn malformed_dump(offset: usize, expected: Construct) -> ParseError {
    ParseError::MalformedCapabilityDump { offset, expected }
}

fn malformed_line(offset: usize, expected: Construct) -> ParseError {
    ParseError::MalformedEventLine { offset, expected }
}

#[test]
fn pen_x_event_follows_a_rotation_by_90() {
    let device = pen();
    assert_eq!(device.name, "sec_e-pen");
    assert_eq!(device.path, "/dev/input/event9");
    let (_, rotation) =
        setup_virtual_input_device(&device, identity(), Some(Rotation::Rotation90), 10);
    assert_eq!(
        rotation,
        Some(RotationData {
            rotation: Rotation::Rotation90,
            maximum_x: 19589,
            maximum_y: 31376
        })
    );
    let line = "[   52731.412804] 0003 0000 00000064";
    assert_eq!(
        parse_input_event(line),
        Ok((
            36,
            Event::Absolute { time: time(52731, 412804), axis: AbsoluteAxis::X.code(), value: 100 }
        ))
    );
    assert_eq!(
        translate_device_event(&rotation, line),
        Ok(Event::Absolute { time: time(52731, 412804), axis: AbsoluteAxis::Y.code(), value: 100 })
    );
}

#[test]
fn pen_y_event_follows_a_rotation_by_90() {
    let (_, rotation) =
        setup_virtual_input_device(&pen(), identity(), Some(Rotation::Rotation90), 10);
    assert_eq!(
        translate_device_event(&rotation, "[   52731.412804] 0003 0001 00000032"),
        Ok(Event::Absolute {
            time: time(52731, 412804),
            axis: AbsoluteAxis::X.code(),
            value: 31326
        })
    );
}

#[test]
fn malformed_line_is_reported_and_the_next_line_is_read() {
    let truncated = "[   52731.412804] 0003 0000 0000006";
    assert_eq!(
        translate_device_event(&None, truncated),
        Err(LineError {
            line: String::from(truncated),
            error: malformed_line(28, Construct::HexValue)
        })
    );
    assert_eq!(
        translate_device_event(&None, "[   52731.420631] 0003 0000 00000065"),
        Ok(Event::Absolute { time: time(52731, 420631), axis: 0, value: 101 })
    );
}

#[test]
fn remap_table_is_followed_for_every_rotation_and_axis() {
    let at = time(7, 9);
    let event = |axis: u16, value: i32| Event::Absolute { time: at, axis, value };
    let data = |rotation: Rotation| {
        Some(RotationData { rotation, maximum_x: 19589, maximum_y: 31376 })
    };
    let r90 = data(Rotation::Rotation90);
    assert_eq!(remap_event(&r90, event(ABS_X, 100)), event(ABS_Y, 100));
    assert_eq!(remap_event(&r90, event(ABS_Y, 50)), event(ABS_X, 31326));
    assert_eq!(remap_event(&r90, event(ABS_TILT_X, -11)), event(ABS_TILT_Y, -11));
    assert_eq!(remap_event(&r90, event(ABS_TILT_Y, 2)), event(ABS_TILT_X, -2));
    let r180 = data(Rotation::Rotation180);
    assert_eq!(remap_event(&r180, event(ABS_X, 100)), event(ABS_X, 19489));
    assert_eq!(remap_event(&r180, event(ABS_Y, 50)), event(ABS_Y, 31326));
    assert_eq!(remap_event(&r180, event(ABS_TILT_X, -11)), event(ABS_TILT_X, 11));
    assert_eq!(remap_event(&r180, event(ABS_TILT_Y, 2)), event(ABS_TILT_Y, -2));
    let r270 = data(Rotation::Rotation270);
    assert_eq!(remap_event(&r270, event(ABS_X, 100)), event(ABS_Y, 19489));
    assert_eq!(remap_event(&r270, event(ABS_Y, 50)), event(ABS_X, 50));
    assert_eq!(remap_event(&r270, event(ABS_TILT_X, -11)), event(ABS_TILT_Y, 11));
    assert_eq!(remap_event(&r270, event(ABS_TILT_Y, 2)), event(ABS_TILT_X, 2));
}

#[test]
fn other_axes_and_other_events_pass_every_rotation() {
    let key = Event::Key { time: time(1, 2), key: BTN_TOOL_PEN, state: KeyState::Pressed };
    let pressure =
        Event::Absolute { time: time(1, 2), axis: AbsoluteAxis::Pressure.code(), value: 1000 };
    let distance =
        Event::Absolute { time: time(1, 2), axis: AbsoluteAxis::Distance.code(), value: 12 };
    for rotation in [Rotation::Rotation90, Rotation::Rotation180, Rotation::Rotation270] {
        let data = Some(RotationData { rotation, maximum_x: 19589, maximum_y: 31376 });
        assert_eq!(remap_event(&data, key), key);
        assert_eq!(remap_event(&data, Event::Ignored), Event::Ignored);
        assert_eq!(remap_event(&data, pressure), pressure);
        assert_eq!(remap_event(&data, distance), distance);
    }
    let x = Event::Absolute { time: time(1, 2), axis: ABS_X, value: 100 };
    assert_eq!(remap_event(&None, x), x);
}

#[test]
fn two_half_turns_bring_an_event_back() {
    let data = Some(RotationData {
        rotation: Rotation::Rotation180,
        maximum_x: 19589,
        maximum_y: 31376,
    });
    for axis in [ABS_X, ABS_Y, ABS_TILT_X, ABS_TILT_Y, 0x18] {
        for value in [0, 1, -63, 19589, i32::MAX, i32::MIN] {
            let event = Event::Absolute { time: time(0, 0), axis, value };
            assert_eq!(remap_event(&data, remap_event(&data, event)), event);
        }
    }
}

#[test]
fn a_difference_that_does_not_fit_wraps() {
    let data = Some(RotationData {
        rotation: Rotation::Rotation180,
        maximum_x: i32::MAX,
        maximum_y: 0,
    });
    let event = |axis: u16, value: i32| Event::Absolute { time: time(0, 0), axis, value };
    assert_eq!(remap_event(&data, event(ABS_X, -1)), event(ABS_X, i32::MIN));
    assert_eq!(remap_event(&data, event(ABS_Y, i32::MIN)), event(ABS_Y, i32::MIN));
    assert_eq!(remap_event(&data, event(ABS_TILT_X, i32::MIN)), event(ABS_TILT_X, i32::MIN));
    assert_eq!(remap_event(&data, event(ABS_TILT_X, i32::MAX)), event(ABS_TILT_X, -i32::MAX));
}

#[test]
fn unspecified_resolution_is_declared_as_the_fallback() {
    let (descriptor, _) = setup_virtual_input_device(&pen(), identity(), None, 10);
    let resolutions: Vec<i32> = descriptor
        .declarations
        .iter()
        .filter_map(|declaration| match declaration {
            Declaration::Absolute(setup) => Some(setup.info.resolution),
            _ => None,
        })
        .collect();
    assert_eq!(resolutions, vec![10, 10, 10, 10, 10, 10]);

    let mut device = pen();
    device.events.absolute[2].info.resolution = 29;
    let (descriptor, _) = setup_virtual_input_device(&device, identity(), None, 7);
    let resolutions: Vec<i32> = descriptor
        .declarations
        .iter()
        .filter_map(|declaration| match declaration {
            Declaration::Absolute(setup) => Some(setup.info.resolution),
            _ => None,
        })
        .collect();
    assert_eq!(resolutions, vec![7, 7, 29, 7, 7, 7]);
}

#[test]
fn declarations_come_in_order_and_a_quarter_turn_swaps_x_and_y() {
    let (descriptor, _) =
        setup_virtual_input_device(&pen(), identity(), Some(Rotation::Rotation270), 10);
    assert_eq!(descriptor.identity, identity());
    let tilt = AbsoluteInfo { value: 0, minimum: -63, maximum: 63, fuzz: 0, flat: 0, resolution: 10 };
    assert_eq!(
        descriptor.declarations,
        vec![
            Declaration::EnableKeys,
            Declaration::Key(Key::Homepage.code()),
            Declaration::Key(Key::UnknownFD.code()),
            Declaration::Key(Key::ButtonToolPen.code()),
            Declaration::Key(Key::ButtonToolRubber.code()),
            Declaration::Key(Key::ButtonTouch.code()),
            Declaration::Key(Key::ButtonStylus.code()),
            Declaration::EnableAbsolute,
            Declaration::Absolute(AbsoluteInfoSetup {
                axis: AbsoluteAxis::Y.code(),
                info: info(19589, 4, 10)
            }),
            Declaration::Absolute(AbsoluteInfoSetup {
                axis: AbsoluteAxis::X.code(),
                info: info(31376, 4, 10)
            }),
            Declaration::Absolute(AbsoluteInfoSetup {
                axis: AbsoluteAxis::Pressure.code(),
                info: info(4095, 0, 10)
            }),
            Declaration::Absolute(AbsoluteInfoSetup {
                axis: AbsoluteAxis::Distance.code(),
                info: info(255, 0, 10)
            }),
            Declaration::Absolute(AbsoluteInfoSetup {
                axis: AbsoluteAxis::TiltX.code(),
                info: AbsoluteInfo { value: -11, ..tilt }
            }),
            Declaration::Absolute(AbsoluteInfoSetup {
                axis: AbsoluteAxis::TiltY.code(),
                info: AbsoluteInfo { value: 2, ..tilt }
            }),
        ]
    );
}

#[test]
fn a_half_turn_declares_every_axis_under_its_own_code() {
    let (descriptor, rotation) =
        setup_virtual_input_device(&pen(), identity(), Some(Rotation::Rotation180), 10);
    let axes: Vec<u16> = descriptor
        .declarations
        .iter()
        .filter_map(|declaration| match declaration {
            Declaration::Absolute(setup) => Some(setup.axis),
            _ => None,
        })
        .collect();
    assert_eq!(axes, vec![0x00, 0x01, 0x18, 0x19, 0x1a, 0x1b]);
    assert_eq!(
        rotation,
        Some(RotationData {
            rotation: Rotation::Rotation180,
            maximum_x: 19589,
            maximum_y: 31376
        })
    );
}

#[test]
fn rotation_data_needs_a_rotation_and_both_axes() {
    let (_, rotation) = setup_virtual_input_device(&pen(), identity(), None, 10);
    assert_eq!(rotation, None);

    let mut without_y = pen();
    without_y.events.absolute.remove(1);
    let (descriptor, rotation) =
        setup_virtual_input_device(&without_y, identity(), Some(Rotation::Rotation90), 10);
    assert_eq!(rotation, None);
    assert_eq!(
        descriptor.declarations[8],
        Declaration::Absolute(AbsoluteInfoSetup { axis: ABS_Y, info: info(19589, 4, 10) })
    );

    let mut keys_only = pen();
    keys_only.events.absolute.clear();
    let (descriptor, rotation) =
        setup_virtual_input_device(&keys_only, identity(), Some(Rotation::Rotation90), 10);
    assert_eq!(rotation, None);
    assert_eq!(descriptor.declarations.len(), 7);

    let mut nothing = pen();
    nothing.events.absolute.clear();
    nothing.events.keys.clear();
    let (descriptor, _) = setup_virtual_input_device(&nothing, identity(), None, 10);
    assert_eq!(descriptor.declarations, vec![]);
}

#[test]
fn the_last_entry_of_an_axis_gives_its_maximum() {
    let mut device = pen();
    device.events.absolute.push(AbsoluteInfoSetup { axis: ABS_X, info: info(1000, 0, 0) });
    let (_, rotation) =
        setup_virtual_input_device(&device, identity(), Some(Rotation::Rotation90), 10);
    assert_eq!(
        rotation,
        Some(RotationData { rotation: Rotation::Rotation90, maximum_x: 1000, maximum_y: 31376 })
    );
}

#[test]
fn a_dump_parses_to_the_same_devices_each_time() {
    let first = parse_devices(PEN);
    let second = parse_devices(PEN);
    assert!(first.is_ok());
    assert_eq!(first, second);
    let broken = &PEN[..PEN.len() - 20];
    assert!(parse_devices(broken).is_err());
    assert_eq!(parse_devices(broken), parse_devices(broken));
    assert_eq!(parse_dump(PEN.as_bytes()), first);
}

#[test]
fn a_dump_is_read_to_its_end() {
    let with_space = format!("{PEN}\n  \t\r\n");
    assert_eq!(parse_devices(&with_space), parse_devices(PEN));
    assert_eq!(parse_devices(PEN).map(|(rest, _)| rest), Ok(PEN.len()));

    let twice = format!("{PEN}{PEN}");
    assert_eq!(devices_of(&twice).len(), 2);

    let with_rest = format!("{PEN}rest");
    assert_eq!(dump_failure(&with_rest), malformed_dump(PEN.len(), Construct::DeviceMarker));

    let with_gap = format!("{PEN}\n{PEN}");
    assert_eq!(dump_failure(&with_gap), malformed_dump(PEN.len(), Construct::DeviceMarker));

    assert_eq!(dump_failure(""), malformed_dump(0, Construct::DeviceMarker));
    for cut in 0..PEN.len() {
        match parse_devices(&PEN[..cut]) {
            Ok(_) => panic!("a dump cut at {cut} was read"),
            Err(error) => assert!(error.offset() <= cut),
        }
    }
}

#[test]
fn unknown_codes_are_rejected_in_a_dump() {
    let unknown = |offset: usize, space: CodeSpace, code: u16| ParseError::UnknownCode {
        offset,
        space,
        code,
    };
    let head = "add device 1: /dev/input/event0\n  name: \"d\"\n  events:\n".len();
    assert_eq!(
        dump_failure(&dump_with("    KEY (0001): 0072  0300 \n")),
        unknown(head + 22, CodeSpace::Key, 0x300)
    );
    assert_eq!(
        dump_failure(&dump_with("    KEY (0001): ffff \n")),
        unknown(head + 16, CodeSpace::Key, 0xffff)
    );
    assert_eq!(
        dump_failure(&dump_with("    REL (0002): 0000  0010 \n")),
        unknown(head + 22, CodeSpace::RelativeAxis, 0x10)
    );
    assert_eq!(
        dump_failure(&dump_with("    SW  (0005): 0010  0011*\n")),
        unknown(head + 22, CodeSpace::Switch, 0x11)
    );
    assert_eq!(
        dump_failure(&dump_with(
            "    ABS (0003): 0040  : value 0, min 0, max 1, fuzz 0, flat 0, resolution 0\n"
        )),
        unknown(head + 16, CodeSpace::AbsoluteAxis, 0x40)
    );
    assert_eq!(
        dump_failure(&dump_with("    XYZ (0020): 0000 \n")),
        unknown(head + 9, CodeSpace::EventKind, 0x20)
    );
    assert_eq!(
        dump_failure(&dump_with("    XYZ (0100): 0000 \n")),
        unknown(head + 9, CodeSpace::EventKind, 0x100)
    );
}

#[test]
fn the_highest_codes_are_known() {
    let devices = devices_of(&dump_with(
        "    KEY (0001): 0000  02ff \n    REL (0002): 000f \n    ABS (0003): 003f  : value 0, min 0, max 1, fuzz 0, flat 0, resolution 0\n    SW  (0005): 0010*\n    XYZ (001f): 1234  zz\n    UI  (0101):\n",
    ));
    let events = &devices[0].events;
    assert_eq!(events.keys, vec![0x000, 0x2ff]);
    assert_eq!(events.relative, vec![0x0f]);
    assert_eq!(events.absolute, vec![AbsoluteInfoSetup { axis: 0x3f, info: info(1, 0, 0) }]);
    assert_eq!(events.switches, vec![(0x10, true)]);
}

#[test]
fn unknown_codes_are_rejected_in_an_event_line() {
    assert_eq!(
        line_failure("[   1.000002] 0020 0000 00000000"),
        ParseError::UnknownCode { offset: 14, space: CodeSpace::EventKind, code: 0x20 }
    );
    assert_eq!(
        line_failure("[   1.000002] 0001 0300 00000001"),
        ParseError::UnknownCode { offset: 19, space: CodeSpace::Key, code: 0x300 }
    );
    assert_eq!(
        line_failure("[   1.000002] 0003 0040 00000001"),
        ParseError::UnknownCode { offset: 19, space: CodeSpace::AbsoluteAxis, code: 0x40 }
    );
    assert_eq!(
        parse_input_event("[   1.000002] 0001 02ff 00000001"),
        Ok((32, Event::Key { time: time(1, 2), key: 0x2ff, state: KeyState::Pressed }))
    );
    assert_eq!(
        parse_input_event("[   1.000002] 0003 003f 00000001"),
        Ok((32, Event::Absolute { time: time(1, 2), axis: 0x3f, value: 1 }))
    );
}

#[test]
fn other_kinds_of_events_are_ignored() {
    assert_eq!(parse_input_event("[   1.000002] 0000 0000 00000000"), Ok((32, Event::Ignored)));
    assert_eq!(parse_input_event("[   1.000002] 0004 0004 0000000a"), Ok((32, Event::Ignored)));
    assert_eq!(parse_input_event("[   1.000002] 0005 000f 00000001"), Ok((32, Event::Ignored)));
    assert_eq!(parse_input_event("[   1.000002] 001f whatever"), Ok((27, Event::Ignored)));
    assert_eq!(parse_input_event("[   1.000002] 0101 "), Ok((19, Event::Ignored)));
    assert_eq!(parse_input_event("[   1.000002] 0002 0000\nnext"), Ok((23, Event::Ignored)));
    assert_eq!(line_failure("[   1.000002] 0002"), malformed_line(18, Construct::Space));
    assert_eq!(translate_device_event(&None, "[   1.000002] 0002 0000 00000001"), Ok(Event::Ignored));
}

#[test]
fn key_states_are_zero_one_and_two() {
    let key = |state: KeyState| Event::Key { time: time(-3, 14), key: 0x14a, state };
    assert_eq!(
        parse_input_event("[-3.14] 0001 014a 00000000"),
        Ok((26, key(KeyState::Released)))
    );
    assert_eq!(parse_input_event("[-3.14] 0001 014a 00000001"), Ok((26, key(KeyState::Pressed))));
    assert_eq!(
        parse_input_event("[-3.14] 0001 014A 00000002"),
        Ok((26, key(KeyState::Repeated)))
    );
    assert_eq!(line_failure("[-3.14] 0001 014a 00000003"), malformed_line(18, Construct::KeyState));
    assert_eq!(line_failure("[-3.14] 0001 014a ffffffff"), malformed_line(18, Construct::KeyState));
    assert_eq!(line_failure("[-3.14] 0001 014a 80000000"), malformed_line(18, Construct::KeyState));
}

#[test]
fn absolute_values_are_signed_numbers_of_32_bits() {
    let value = |digits: &str| match parse_input_event(&format!("[0.0] 0003 001a {digits}")) {
        Ok((24, Event::Absolute { value, .. })) => value,
        other => panic!("no absolute event: {other:?}"),
    };
    assert_eq!(value("00000000"), 0);
    assert_eq!(value("00000064"), 100);
    assert_eq!(value("ffffffeb"), -21);
    assert_eq!(value("FFFFFFEB"), -21);
    assert_eq!(value("7fffffff"), i32::MAX);
    assert_eq!(value("80000000"), i32::MIN);
    assert_eq!(value("ffffffff"), -1);
    assert_eq!(value("000003e8"), 1000);
    assert_eq!(value("12345678"), 0x12345678);
    assert_eq!(value("9abcdef0"), 0x9abcdef0_u32 as i32);
}

#[test]
fn what_follows_an_event_is_not_looked_at() {
    assert_eq!(
        parse_input_event("[   1.000002] 0003 0000 000000641 and more"),
        Ok((32, Event::Absolute { time: time(1, 2), axis: 0, value: 100 }))
    );
    assert_eq!(
        parse_line(b"[   1.000002] 0003 0000 00000064\xff"),
        Ok((32, Event::Absolute { time: time(1, 2), axis: 0, value: 100 }))
    );
}

#[test]
fn timestamps_are_two_signed_numbers_of_64_bits() {
    let stamp = |line: &str| match parse_input_event(line) {
        Ok((_, Event::Absolute { time, .. })) => time,
        other => panic!("no absolute event: {other:?}"),
    };
    assert_eq!(stamp("[1.2] 0003 0000 00000000"), time(1, 2));
    assert_eq!(stamp("[ \t 0012.000340] 0003 0000 00000000"), time(12, 340));
    assert_eq!(stamp("[+5.-6] 0003 0000 00000000"), time(5, -6));
    assert_eq!(
        stamp("[9223372036854775807.-9223372036854775808] 0003 0000 00000000"),
        time(i64::MAX, i64::MIN)
    );
    assert_eq!(
        stamp("[000000000000000000000000000007.0] 0003 0000 00000000"),
        time(7, 0)
    );
    assert_eq!(
        line_failure("[9223372036854775808.0] 0003 0000 00000000"),
        malformed_line(1, Construct::Integer)
    );
    assert_eq!(
        line_failure("[0.-9223372036854775809] 0003 0000 00000000"),
        malformed_line(3, Construct::Integer)
    );
    assert_eq!(
        line_failure("[0.99999999999999999999999999] 0003 0000 00000000"),
        malformed_line(3, Construct::Integer)
    );
}

#[test]
fn every_construct_of_an_event_line_is_asked_for() {
    assert_eq!(line_failure(""), malformed_line(0, Construct::OpenBracket));
    assert_eq!(line_failure("1.2] 0003"), malformed_line(0, Construct::OpenBracket));
    assert_eq!(line_failure("[  x"), malformed_line(3, Construct::Integer));
    assert_eq!(line_failure("[  -"), malformed_line(3, Construct::Integer));
    assert_eq!(line_failure("[ \n1.2]"), malformed_line(2, Construct::Integer));
    assert_eq!(line_failure("[12"), malformed_line(3, Construct::Dot));
    assert_eq!(line_failure("[12,5]"), malformed_line(3, Construct::Dot));
    assert_eq!(line_failure("[12.]"), malformed_line(4, Construct::Integer));
    assert_eq!(line_failure("[12.5"), malformed_line(5, Construct::CloseBracket));
    assert_eq!(line_failure("[12.5 ]"), malformed_line(5, Construct::CloseBracket));
    assert_eq!(line_failure("[12.5]"), malformed_line(6, Construct::Space));
    assert_eq!(line_failure("[12.5]\t0003"), malformed_line(6, Construct::Space));
    assert_eq!(line_failure("[12.5] "), malformed_line(7, Construct::HexCode));
    assert_eq!(line_failure("[12.5]  0003"), malformed_line(7, Construct::HexCode));
    assert_eq!(line_failure("[12.5] 003"), malformed_line(7, Construct::HexCode));
    assert_eq!(line_failure("[12.5] 00g3 "), malformed_line(7, Construct::HexCode));
    assert_eq!(line_failure("[12.5] +003 "), malformed_line(7, Construct::HexCode));
    assert_eq!(line_failure("[12.5] 0003"), malformed_line(11, Construct::Space));
    assert_eq!(line_failure("[12.5] 0003 "), malformed_line(12, Construct::HexCode));
    assert_eq!(line_failure("[12.5] 0003  0000"), malformed_line(12, Construct::HexCode));
    assert_eq!(line_failure("[12.5] 0003 0000"), malformed_line(16, Construct::Space));
    assert_eq!(line_failure("[12.5] 0003 0000 "), malformed_line(17, Construct::HexValue));
    assert_eq!(line_failure("[12.5] 0003 0000 0000064"), malformed_line(17, Construct::HexValue));
    assert_eq!(line_failure("[12.5] 0003 0000 0000 064"), malformed_line(17, Construct::HexValue));
    assert_eq!(line_failure("[12.5] 0001 0000 "), malformed_line(17, Construct::HexValue));
    assert_eq!(line_failure("[12.5] 0001 0000 00000009"), malformed_line(17, Construct::KeyState));
}

#[test]
fn every_construct_of_a_dump_is_asked_for() {
    let path = "add device 1: /dev/input/event0\n";
    let name = "  name: \"d\"\n";
    let events = "  events:\n";
    let head = path.len() + name.len() + events.len();
    let at = |offset: usize, expected: Construct| malformed_dump(offset, expected);

    assert_eq!(dump_failure("add device1: /x\n"), at(0, Construct::DeviceMarker));
    assert_eq!(dump_failure("add device : /x\n"), at(11, Construct::DeviceIndex));
    assert_eq!(dump_failure("add device 12 /x\n"), at(13, Construct::Colon));
    assert_eq!(dump_failure("add device 12:/x\n"), at(14, Construct::Space));
    assert_eq!(dump_failure("add device 12: /x"), at(17, Construct::Newline));
    assert_eq!(dump_failure("add device 12: /x\r\n"), at(17, Construct::Newline));

    assert_eq!(dump_failure(&format!("{path}name: \"d\"\n")), at(path.len(), Construct::Space));
    assert_eq!(dump_failure(&format!("{path}\n  name: \"d\"\n")), at(path.len(), Construct::Space));
    assert_eq!(dump_failure(&format!("{path}  nom: \"d\"\n")), at(path.len() + 2, Construct::NameMarker));
    assert_eq!(dump_failure(&format!("{path}  name:\"d\"\n")), at(path.len() + 7, Construct::Space));
    assert_eq!(dump_failure(&format!("{path}  name: d\n")), at(path.len() + 8, Construct::Quote));
    assert_eq!(dump_failure(&format!("{path}  name: \"d\n")), at(path.len() + 11, Construct::Quote));
    assert_eq!(dump_failure(&format!("{path}  name: \"d\" \n")), at(path.len() + 11, Construct::Newline));

    let named = format!("{path}{name}");
    assert_eq!(dump_failure(&format!("{named}events:\n")), at(named.len(), Construct::Space));
    assert_eq!(dump_failure(&format!("{named}  event:\n")), at(named.len() + 2, Construct::EventsMarker));
    assert_eq!(dump_failure(&format!("{named}  events: \n")), at(named.len() + 9, Construct::Newline));

    assert_eq!(dump_failure(&dump_with("")), at(head + 8, Construct::OpenParen));
    assert_eq!(dump_failure(&dump_with("KEY (0001): 0001\n")), at(head, Construct::Whitespace));
    assert_eq!(dump_failure(&dump_with("    ? (0001): 0001\n")), at(head + 4, Construct::Label));
    assert_eq!(dump_failure(&dump_with("    KEY(0001): 0001\n")), at(head + 7, Construct::Space));
    assert_eq!(dump_failure(&dump_with("    KEY 0001: 0001\n")), at(head + 8, Construct::OpenParen));
    assert_eq!(dump_failure(&dump_with("    KEY (1): 0001\n")), at(head + 9, Construct::HexCode));
    assert_eq!(dump_failure(&dump_with("    KEY (0001: 0001\n")), at(head + 13, Construct::CloseParen));
    assert_eq!(dump_failure(&dump_with("    KEY (0001) 0001\n")), at(head + 14, Construct::Colon));
    assert_eq!(dump_failure(&dump_with("    KEY (0001): \n")), at(head + 19, Construct::HexCode));
    assert_eq!(dump_failure(&dump_with("    KEY (0001): 001\n")), at(head + 16, Construct::HexCode));
    assert_eq!(dump_failure(&dump_with("    REL (0002):0001\n")), at(head + 15, Construct::Whitespace));
    assert_eq!(dump_failure(&dump_with("    SW  (0005):0001\n")), at(head + 15, Construct::Whitespace));
    assert_eq!(dump_failure(&dump_with("    SW  (0005): *\n")), at(head + 16, Construct::HexCode));

    let axis = |range: &str| dump_failure(&dump_with(&format!("    ABS (0003): 0000{range}")));
    assert_eq!(axis(": value 0\n"), at(head + 20, Construct::Space));
    assert_eq!(axis("  value 0\n"), at(head + 22, Construct::Colon));
    assert_eq!(axis("  :value 0\n"), at(head + 23, Construct::AxisField));
    assert_eq!(axis("  : min 0\n"), at(head + 23, Construct::AxisField));
    assert_eq!(axis("  : value x\n"), at(head + 30, Construct::Integer));
    assert_eq!(axis("  : value 2147483648,"), at(head + 30, Construct::Integer));
    assert_eq!(axis("  : value -2147483649,"), at(head + 30, Construct::Integer));
    assert_eq!(axis("  : value 0 min 0\n"), at(head + 31, Construct::Comma));
    assert_eq!(axis("  : value 0, max 0\n"), at(head + 32, Construct::AxisField));
    assert_eq!(
        axis("  : value 0, min 0, max 0, fuzz 0, flat 0\n"),
        at(head + 61, Construct::Comma)
    );
    assert_eq!(
        axis("  : value 0, min 0, max 0, fuzz 0, flat 0, resolution 0 \n"),
        at(head + 75, Construct::Newline)
    );

    assert_eq!(
        dump_failure(&dump_with("    KEY (0001): 0001input props:\n    <none>\n")),
        at(head + 20, Construct::Whitespace)
    );

    let evented = format!("{path}{name}{events}    KEY (0001): 0001 \n");
    assert_eq!(dump_failure(&evented), at(evented.len(), Construct::Label));
    assert_eq!(
        dump_failure(&format!("{evented}  input props:\n")),
        at(evented.len() + 15, Construct::Whitespace)
    );
    assert_eq!(
        dump_failure(&format!("{evented}  input props: \n    <none>\n")),
        at(evented.len() + 14, Construct::Newline)
    );
    assert_eq!(
        dump_failure(&format!("{evented}  input props:\n    none\n")),
        at(evented.len() + 19, Construct::Property)
    );
    assert_eq!(
        dump_failure(&format!("{evented}  input props:\n    <none>")),
        at(evented.len() + 25, Construct::Newline)
    );
    assert_eq!(
        dump_failure(&format!("{evented}  input props:\n    INPUT_PROP_9\n")),
        at(evented.len() + 30, Construct::PropertyName)
    );
    assert_eq!(
        dump_failure(&format!("{evented}  input props:\n    INPUT_PROP_DIRECT")),
        at(evented.len() + 36, Construct::Whitespace)
    );
    assert_eq!(
        dump_failure(&format!("{evented}  input props:\n    INPUT_PROP_SEMI_MT\n")),
        at(evented.len() + 34, Construct::Whitespace)
    );
    assert_eq!(
        dump_failure(&format!("{evented}  input  props:\n    <none>\n")),
        at(evented.len() + 9, Construct::OpenParen)
    );
}

#[test]
fn text_has_to_be_utf_8() {
    let devices = devices_of(
        "add device 1: /dev/input/évent 0\n  name: \"Stylet élégant ✎\"\n  events:\n    KEY (0001): 0140 \n  input props:\n    <none>\n",
    );
    assert_eq!(devices[0].path, "/dev/input/évent 0");
    assert_eq!(devices[0].name, "Stylet élégant ✎");

    assert_eq!(
        parse_dump(b"add device 1: /dev/\xff\n  name: \"d\"\n"),
        Err(malformed_dump(14, Construct::Text))
    );
    assert_eq!(
        parse_dump(b"add device 1: /dev/x\n  name: \"\xc3\"\n"),
        Err(malformed_dump(30, Construct::Text))
    );
}

#[test]
fn names_and_paths_may_be_empty_or_hold_anything_but_their_end() {
    let devices = devices_of(
        "add device 007: \t\n\tname:\t\"\"\n\tevents:\n KEY (0001): 0140\n input props:\n <none>\n",
    );
    assert_eq!(devices[0].path, "");
    assert_eq!(devices[0].name, "");
    let devices = devices_of(
        "add device 1: a \"b\" c\n  name: \"two\nlines\"\n  events:\n\n\n KEY (0001): 0140\n input props:\n <none>\n",
    );
    assert_eq!(devices[0].path, "a \"b\" c");
    assert_eq!(devices[0].name, "two\nlines");
}

#[test]
fn labels_have_two_to_ten_letters_and_digits() {
    let label = |label: &str| {
        parse_devices(&dump_with(&format!("    {label} (0004): 0004 \n"))).map(|_| ())
    };
    let head = "add device 1: /dev/input/event0\n  name: \"d\"\n  events:\n".len();
    assert!(label("AB").is_ok());
    assert!(label("a1B2c3D4e5").is_ok());
    assert_eq!(label("A"), Err(malformed_dump(head + 4, Construct::Label)));
    assert_eq!(label("a1B2c3D4e5f"), Err(malformed_dump(head + 4, Construct::Label)));
    assert_eq!(label("A_B"), Err(malformed_dump(head + 4, Construct::Label)));
}

#[test]
fn a_later_line_of_a_kind_replaces_an_earlier_one() {
    let devices = devices_of(&dump_with(
        "    KEY (0001): 0001  0002 \n    SW  (0005): 0001*\n    KEY (0001): 0140 \n    MSC (0004): 0004 \n",
    ));
    assert_eq!(devices[0].events.keys, vec![0x140]);
    assert_eq!(devices[0].events.switches, vec![(1, true)]);
    assert_eq!(devices[0].events.relative, vec![]);
    assert_eq!(devices[0].events.absolute, vec![]);
}

#[test]
fn codes_of_a_list_need_no_space_between_them_but_switches_and_axes_do() {
    let devices = devices_of(&dump_with(
        "    KEY (0001):00010002\n\n\t0003 \n    REL (0002): 0001\r\n0002 \n    SW  (0005): 0001*\n0002 0003* \n",
    ));
    assert_eq!(devices[0].events.keys, vec![1, 2, 3]);
    assert_eq!(devices[0].events.relative, vec![1, 2]);
    assert_eq!(devices[0].events.switches, vec![(1, true), (2, false), (3, true)]);
}

#[test]
fn integers_of_an_axis_fill_32_bits() {
    let devices = devices_of(&dump_with(
        "    ABS (0003): 0000  : value -2147483648, min +0, max 2147483647, fuzz -0, flat 0000000000000012, resolution -1\n",
    ));
    assert_eq!(
        devices[0].events.absolute,
        vec![AbsoluteInfoSetup {
            axis: 0,
            info: AbsoluteInfo {
                value: i32::MIN,
                minimum: 0,
                maximum: i32::MAX,
                fuzz: 0,
                flat: 12,
                resolution: -1
            }
        }]
    );
}

#[test]
fn hexadecimal_numbers_of_16_bits() {
    assert_eq!(from_hex(b"0"), Some(0));
    assert_eq!(from_hex(b"014b"), Some(0x14b));
    assert_eq!(from_hex(b"FfFf"), Some(0xffff));
    assert_eq!(from_hex(b"0000000000ffff"), Some(0xffff));
    assert_eq!(from_hex(b"10000"), None);
    assert_eq!(from_hex(b"fffffffffffffffffffffffff"), None);
    assert_eq!(from_hex(b""), None);
    assert_eq!(from_hex(b"+1"), None);
    assert_eq!(from_hex(b"-1"), None);
    assert_eq!(from_hex(b"12g4"), None);
    assert_eq!(from_hex(b" 123"), None);
    assert_eq!(from_hex(b"0x12"), None);
}

#[test]
fn codes_are_those_of_the_kernel() {
    assert_eq!(EV_KEY, EventKind::Key.code());
    assert_eq!(EV_REL, EventKind::Relative.code());
    assert_eq!(EV_ABS, EventKind::Absolute.code());
    assert_eq!(EV_SW, EventKind::Switch.code());
    assert_eq!(EV_UINPUT, EventKind::UInput.code());
    assert_eq!(EV_MAX, EventKind::Unknown1F.code());
    assert_eq!(ABS_X, AbsoluteAxis::X.code());
    assert_eq!(ABS_Y, AbsoluteAxis::Y.code());
    assert_eq!(ABS_TILT_X, AbsoluteAxis::TiltX.code());
    assert_eq!(ABS_TILT_Y, AbsoluteAxis::TiltY.code());
    assert_eq!(BTN_TOOL_PEN, Key::ButtonToolPen.code());
    assert_eq!(usize::from(KEY_CNT), Key::COUNT);
    assert_eq!(usize::from(REL_CNT), RelativeAxis::COUNT);
    assert_eq!(usize::from(ABS_CNT), AbsoluteAxis::COUNT);
    assert_eq!(usize::from(SW_CNT), SwitchKind::COUNT);
}

#[test]
fn a_code_is_known_where_the_kernel_numbers_it() {
    for code in 0..=u16::MAX {
        assert_eq!(decode(CodeSpace::Key, code), Key::from_code(code).ok().map(|_| code));
        assert_eq!(
            decode(CodeSpace::RelativeAxis, code),
            RelativeAxis::from_code(code).ok().map(|_| code)
        );
        assert_eq!(
            decode(CodeSpace::AbsoluteAxis, code),
            AbsoluteAxis::from_code(code).ok().map(|_| code)
        );
        assert_eq!(decode(CodeSpace::Switch, code), SwitchKind::from_code(code).ok().map(|_| code));
        assert_eq!(
            decode(CodeSpace::EventKind, code),
            EventKind::from_type(code).ok().map(|_| code)
        );
    }
    assert_eq!(decode(CodeSpace::Key, 0x2ff), Some(0x2ff));
    assert_eq!(decode(CodeSpace::Key, 0x300), None);
    assert_eq!(decode(CodeSpace::RelativeAxis, 0x0f), Some(0x0f));
    assert_eq!(decode(CodeSpace::RelativeAxis, 0x10), None);
    assert_eq!(decode(CodeSpace::AbsoluteAxis, 0x3f), Some(0x3f));
    assert_eq!(decode(CodeSpace::AbsoluteAxis, 0x40), None);
    assert_eq!(decode(CodeSpace::Switch, 0x10), Some(0x10));
    assert_eq!(decode(CodeSpace::Switch, 0x11), None);
    assert_eq!(decode(CodeSpace::EventKind, 0x1f), Some(0x1f));
    assert_eq!(decode(CodeSpace::EventKind, 0x20), None);
    assert_eq!(decode(CodeSpace::EventKind, 0x101), Some(0x101));
    assert_eq!(decode(CodeSpace::EventKind, 0x100), None);
}

#[test]
fn the_command_line_decides_the_task() {
    assert_eq!(run(AppCli::ListDevice), Ok(Task::ListDevice));
    assert_eq!(
        run(AppCli::ListSubDevice(ListSubDeviceArgs { device: String::from("R52N") })),
        Ok(Task::ListSubDevice { device: String::from("R52N") })
    );
    let forward = |device: Option<&str>, subdevice: Option<&str>| {
        run(AppCli::Forward(ForwardArgs {
            device: device.map(String::from),
            subdevice: subdevice.map(String::from),
            name: String::from("Android Tablet Bridge"),
            rotation: Some(Rotation::Rotation270),
            fallback_resolution: 10,
        }))
    };
    let task = |identity: IdentityTabletDeviceArgs| {
        Ok(Task::Forward {
            identity,
            name: String::from("Android Tablet Bridge"),
            rotation: Some(Rotation::Rotation270),
            fallback_resolution: 10,
        })
    };
    assert_eq!(forward(None, None), task(IdentityTabletDeviceArgs::Automatic));
    assert_eq!(
        forward(Some("R52N"), None),
        task(IdentityTabletDeviceArgs::Device(String::from("R52N")))
    );
    assert_eq!(
        forward(Some("R52N"), Some("sec_e-pen")),
        task(IdentityTabletDeviceArgs::DeviceAndSubdevice(
            String::from("R52N"),
            String::from("sec_e-pen")
        ))
    );
    assert_eq!(forward(None, Some("sec_e-pen")), Err(UsageError::SubdeviceWithoutDevice));
}

#[test]
fn the_tablet_is_the_first_device_with_a_pen() {
    let device = |name: &str, keys: &str| {
        format!("add device 1: /dev/input/{name}\n  name: \"{name}\"\n  events:\n    KEY (0001): {keys} \n  input props:\n    <none>\n")
    };
    let dump = [
        device("keys", "0072  0073"),
        device("pen", "014a  0140"),
        device("other", "0140"),
        device("pen", "0141"),
    ]
    .concat();
    let devices = devices_of(&dump);
    assert_eq!(identify_tablet_device(&devices, &None), Some(1));
    assert_eq!(identify_tablet_device(&devices, &Some(String::from("pen"))), Some(1));
    assert_eq!(identify_tablet_device(&devices, &Some(String::from("other"))), Some(2));
    assert_eq!(identify_tablet_device(&devices, &Some(String::from("keys"))), None);
    assert_eq!(identify_tablet_device(&devices, &Some(String::from("none"))), None);
    assert_eq!(identify_tablet_device(&devices[..1].to_vec(), &None), None);
    assert_eq!(identify_tablet_device(&Vec::new(), &None), None);
}

#[test]
fn positions_are_emitted_on_the_axes_that_are_declared_and_inside_their_ranges() {
    for rotation in [Rotation::Rotation90, Rotation::Rotation180, Rotation::Rotation270] {
        let device = pen();
        let (descriptor, data) = setup_virtual_input_device(&device, identity(), Some(rotation), 10);
        let declared: Vec<AbsoluteInfoSetup> = descriptor
            .declarations
            .iter()
            .filter_map(|declaration| match declaration {
                Declaration::Absolute(setup) => Some(*setup),
                _ => None,
            })
            .collect();
        for (index, axis) in [(0, ABS_X), (1, ABS_Y)] {
            let maximum = device.events.absolute[index].info.maximum;
            for value in [0, 1, 100, maximum - 1, maximum] {
                let event = Event::Absolute { time: time(0, 0), axis, value };
                match remap_event(&data, event) {
                    Event::Absolute { axis: emitted, value: remapped, .. } => {
                        assert_eq!(emitted, declared[index].axis);
                        assert!(0 <= remapped && remapped <= declared[index].info.maximum);
                    }
                    other => panic!("no absolute event: {other:?}"),
                }
            }
        }
    }
}
