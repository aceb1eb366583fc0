//! The events section of a device block: its capability lines and their
//! lists of keys, axes and switches.

use crate::codes::{is_known, EV_ABS, EV_KEY, EV_REL, EV_SW};
use crate::error::{missing, not_for_text, unknown, Cause, CodeSpace, Construct, Failure};
use crate::parser::{ADBDeviceEvents, AbsoluteInfo, AbsoluteInfoSetup, Capabilities};
use crate::scan::{
    byte_after, code_after, code_at, expect_byte, expect_code, expect_integer, expect_run,
    expect_tag, has_tag, inside, integer_after, lemma_prepend_nothing, lemma_prepend_push,
    lemma_run_bounds, lemma_run_len_bound, long_run_after, match_tag, parsed, prepend, run_end,
    run_len, sign_len, skip_run, tag_after, viewed, ByteClass, Cursor, CLOSE_PAREN, COLON, COMMA,
    LF, OPEN_PAREN, STAR,
};
use vstd::prelude::*;
use vstd::string::*;

verus! {

broadcast use lemma_run_len_bound;

/// Where the code of a list item stands, if an item starts at `pos`: after at
/// least `gap` bytes of whitespace, where four hexadecimal digits follow.
pub open spec fn item_start(s: Seq<u8>, pos: int, gap: int) -> Option<int> {
    let p = run_end(s, pos, ByteClass::Whitespace);
    if p - pos >= gap && code_at(s, p) is Some {
        Some(p)
    } else {
        None
    }
}

/// Why no item starts at `pos`.
pub open spec fn no_item(s: Seq<u8>, pos: int, gap: int) -> Failure {
    let p = run_end(s, pos, ByteClass::Whitespace);
    if p - pos >= gap {
        missing(p, Construct::HexCode)
    } else {
        missing(pos, Construct::Whitespace)
    }
}

/// The codes of `space` from `pos` on, as long as items start. A code that
/// `space` does not know is a failure.
pub open spec fn codes_at(s: Seq<u8>, pos: int, space: CodeSpace, gap: int) -> Result<
    (Seq<u16>, int),
    Failure,
>
    decreases s.len() - pos,
{
    match item_start(s, pos, gap) {
        Some(p) => match code_after(Ok(p), s, space) {
            Ok((code, next)) => prepend(seq![code], codes_at(s, next, space, gap)),
            Err(f) => Err(f),
        },
        None => Ok((Seq::empty(), pos)),
    }
}

/// One code of `space` or more at `pos`.
pub open spec fn code_list_at(s: Seq<u8>, pos: int, space: CodeSpace, gap: int) -> Result<
    (Seq<u16>, int),
    Failure,
> {
    if item_start(s, pos, gap) is Some {
        codes_at(s, pos, space, gap)
    } else {
        Err(no_item(s, pos, gap))
    }
}

/// The position after an optional `*` at `pos`.
pub open spec fn star_end(s: Seq<u8>, pos: int) -> int {
    if 0 <= pos < s.len() && s[pos] == STAR {
        pos + 1
    } else {
        pos
    }
}

/// The switches from `pos` on, as long as items start: each a code, active
/// where a `*` follows it.
pub open spec fn switches_at(s: Seq<u8>, pos: int) -> Result<(Seq<(u16, bool)>, int), Failure>
    decreases s.len() - pos,
{
    match item_start(s, pos, 1) {
        Some(p) => match code_after(Ok(p), s, CodeSpace::Switch) {
            Ok((code, next)) => prepend(
                seq![(code, star_end(s, next) > next)],
                switches_at(s, star_end(s, next)),
            ),
            Err(f) => Err(f),
        },
        None => Ok((Seq::empty(), pos)),
    }
}

/// One switch or more at `pos`.
pub open spec fn switch_list_at(s: Seq<u8>, pos: int) -> Result<(Seq<(u16, bool)>, int), Failure> {
    if item_start(s, pos, 1) is Some {
        switches_at(s, pos)
    } else {
        Err(no_item(s, pos, 1))
    }
}

/// The six numbers of an absolute axis, in the order of the dump.
#[derive(Clone, Copy, Debug, PartialEq, Eq)]
pub enum InfoField {
    Value,
    Minimum,
    Maximum,
    Fuzz,
    Flat,
    Resolution,
}

/// How the dump names `field`, with the spaces around the name.
pub open spec fn field_name(field: InfoField) -> &'static str {
    match field {
        InfoField::Value => " value ",
        InfoField::Minimum => " min ",
        InfoField::Maximum => " max ",
        InfoField::Fuzz => " fuzz ",
        InfoField::Flat => " flat ",
        InfoField::Resolution => " resolution ",
    }
}

/// `info` with `field` set to `number`.
pub open spec fn with_field(info: AbsoluteInfo, field: InfoField, number: i32) -> AbsoluteInfo {
    match field {
        InfoField::Value => AbsoluteInfo { value: number, ..info },
        InfoField::Minimum => AbsoluteInfo { minimum: number, ..info },
        InfoField::Maximum => AbsoluteInfo { maximum: number, ..info },
        InfoField::Fuzz => AbsoluteInfo { fuzz: number, ..info },
        InfoField::Flat => AbsoluteInfo { flat: number, ..info },
        InfoField::Resolution => AbsoluteInfo { resolution: number, ..info },
    }
}

/// A range with every number 0, at the cursor `c`.
pub open spec fn no_fields(c: Cursor) -> Result<(AbsoluteInfo, int), Failure> {
    match c {
        Ok(pos) => Ok(
            (
                AbsoluteInfo { value: 0, minimum: 0, maximum: 0, fuzz: 0, flat: 0, resolution: 0 },
                pos,
            ),
        ),
        Err(f) => Err(f),
    }
}

/// After the fields read so far, `field`: a `,` unless it is the first, its
/// name, and a signed decimal integer of 32 bits.
pub open spec fn field_after(
    sofar: Result<(AbsoluteInfo, int), Failure>,
    s: Seq<u8>,
    field: InfoField,
) -> Result<(AbsoluteInfo, int), Failure> {
    match sofar {
        Ok((info, pos)) => {
            let c = if field == InfoField::Value {
                Ok(pos)
            } else {
                byte_after(Ok(pos), s, COMMA, Construct::Comma)
            };
            let c = tag_after(c, s, field_name(field), Construct::AxisField);
            match integer_after(c, s, i32::MIN as int, i32::MAX as int) {
                Ok((number, next)) => Ok((with_field(info, field, number as i32), next)),
                Err(f) => Err(f),
            }
        },
        Err(f) => Err(f),
    }
}

/// The range of the absolute axis `axis`, whose code ends at `pos`: a gap, `:`,
/// the six fields in their order, and the end of the line.
pub open spec fn axis_range_at(s: Seq<u8>, pos: int, axis: u16) -> Result<
    (AbsoluteInfoSetup, int),
    Failure,
> {
    let c = long_run_after(Ok(pos), s, ByteClass::Space, 1, Construct::Space);
    let c = byte_after(c, s, COLON, Construct::Colon);
    let r = field_after(no_fields(c), s, InfoField::Value);
    let r = field_after(r, s, InfoField::Minimum);
    let r = field_after(r, s, InfoField::Maximum);
    let r = field_after(r, s, InfoField::Fuzz);
    let r = field_after(r, s, InfoField::Flat);
    let r = field_after(r, s, InfoField::Resolution);
    match r {
        Ok((info, end)) => match byte_after(Ok(end), s, LF, Construct::Newline) {
            Ok(after) => Ok((AbsoluteInfoSetup { axis, info }, after)),
            Err(f) => Err(f),
        },
        Err(f) => Err(f),
    }
}

/// An absolute axis whose code stands at `pos`: the code and the axis' range.
pub open spec fn axis_setup_at(s: Seq<u8>, pos: int) -> Result<(AbsoluteInfoSetup, int), Failure> {
    match code_after(Ok(pos), s, CodeSpace::AbsoluteAxis) {
        Ok((axis, next)) => axis_range_at(s, next, axis),
        Err(f) => Err(f),
    }
}

/// The absolute axes from `pos` on, as long as items start.
pub open spec fn axes_at(s: Seq<u8>, pos: int) -> Result<(Seq<AbsoluteInfoSetup>, int), Failure>
    decreases s.len() - pos,
{
    match item_start(s, pos, 0) {
        Some(p) => match axis_setup_at(s, p) {
            Ok((setup, next)) => {
                proof {
                    lemma_axis_setup_inside(s, p);
                }
                prepend(seq![setup], axes_at(s, next))
            },
            Err(f) => Err(f),
        },
        None => Ok((Seq::empty(), pos)),
    }
}

/// One absolute axis or more at `pos`.
pub open spec fn axis_list_at(s: Seq<u8>, pos: int) -> Result<
    (Seq<AbsoluteInfoSetup>, int),
    Failure,
> {
    if item_start(s, pos, 0) is Some {
        axes_at(s, pos)
    } else {
        Err(no_item(s, pos, 0))
    }
}

/// What one capability line declares.
pub enum CapabilityLine {
    Keys(Seq<u16>),
    Relative(Seq<u16>),
    Absolute(Seq<AbsoluteInfoSetup>),
    Switch(Seq<(u16, bool)>),
    /// A kind of event that the bridge does not track.
    Other,
}

impl CapabilityLine {
    /// Every code of the line is a code of its numbering.
    pub open spec fn well_formed(self) -> bool {
        match self {
            CapabilityLine::Keys(keys) => forall|i: int|
                0 <= i < keys.len() ==> is_known(CodeSpace::Key, #[trigger] keys[i]),
            CapabilityLine::Relative(axes) => forall|i: int|
                0 <= i < axes.len() ==> is_known(CodeSpace::RelativeAxis, #[trigger] axes[i]),
            CapabilityLine::Absolute(axes) => forall|i: int|
                0 <= i < axes.len() ==> is_known(CodeSpace::AbsoluteAxis, (#[trigger] axes[i]).axis),
            CapabilityLine::Switch(switches) => forall|i: int|
                0 <= i < switches.len() ==> is_known(
                    CodeSpace::Switch,
                    (#[trigger] switches[i]).0,
                ),
            CapabilityLine::Other => true,
        }
    }
}

impl Capabilities {
    /// These capabilities after `line`: a line replaces what an earlier line
    /// of its kind declared.
    pub open spec fn with_line(self, line: CapabilityLine) -> Capabilities {
        match line {
            CapabilityLine::Keys(keys) => Capabilities { keys, ..self },
            CapabilityLine::Relative(relative) => Capabilities { relative, ..self },
            CapabilityLine::Absolute(absolute) => Capabilities { absolute, ..self },
            CapabilityLine::Switch(switches) => Capabilities { switches, ..self },
            CapabilityLine::Other => self,
        }
    }
}

/// The capabilities that `lines` declare together.
pub open spec fn collect(lines: Seq<CapabilityLine>) -> Capabilities
    decreases lines.len(),
{
    if lines.len() == 0 {
        Capabilities::empty()
    } else {
        collect(lines.drop_last()).with_line(lines.last())
    }
}

/// After `c`, the label of a capability line: 2 to 10 letters and digits.
pub open spec fn label_after(c: Cursor, s: Seq<u8>) -> Cursor {
    match c {
        Ok(pos) => if 2 <= run_len(s, pos, ByteClass::Alphanumeric) <= 10 {
            Ok(run_end(s, pos, ByteClass::Alphanumeric))
        } else {
            Err(missing(pos, Construct::Label))
        },
        Err(f) => Err(f),
    }
}

/// What follows the `:` of a capability line of the event type `kind`: a list
/// of keys, relative axes, absolute axes or switches; for any other type, the
/// rest of the line, which is passed over.
pub open spec fn capability_body_at(s: Seq<u8>, pos: int, kind: u16) -> Result<
    (CapabilityLine, int),
    Failure,
> {
    if kind == EV_KEY {
        match code_list_at(s, pos, CodeSpace::Key, 0) {
            Ok((keys, next)) => Ok((CapabilityLine::Keys(keys), next)),
            Err(f) => Err(f),
        }
    } else if kind == EV_REL {
        match code_list_at(s, pos, CodeSpace::RelativeAxis, 1) {
            Ok((axes, next)) => Ok((CapabilityLine::Relative(axes), next)),
            Err(f) => Err(f),
        }
    } else if kind == EV_ABS {
        match axis_list_at(s, pos) {
            Ok((axes, next)) => Ok((CapabilityLine::Absolute(axes), next)),
            Err(f) => Err(f),
        }
    } else if kind == EV_SW {
        match switch_list_at(s, pos) {
            Ok((switches, next)) => Ok((CapabilityLine::Switch(switches), next)),
            Err(f) => Err(f),
        }
    } else {
        Ok((CapabilityLine::Other, run_end(s, pos, ByteClass::LineContent)))
    }
}

/// Where the event type of a capability line stands: after whitespace, a
/// label, a gap and `(`.
pub open spec fn capability_kind_at(s: Seq<u8>, pos: int) -> Cursor {
    let c = long_run_after(Ok(pos), s, ByteClass::Whitespace, 1, Construct::Whitespace);
    let c = label_after(c, s);
    let c = long_run_after(c, s, ByteClass::Space, 1, Construct::Space);
    byte_after(c, s, OPEN_PAREN, Construct::OpenParen)
}

/// A capability line: whitespace, a label, a gap, the event type in
/// parentheses, `:`, and what the type asks for.
pub open spec fn capability_at(s: Seq<u8>, pos: int) -> Result<(CapabilityLine, int), Failure> {
    match code_after(capability_kind_at(s, pos), s, CodeSpace::EventKind) {
        Ok((kind, next)) => {
            let c = byte_after(Ok(next), s, CLOSE_PAREN, Construct::CloseParen);
            match byte_after(c, s, COLON, Construct::Colon) {
                Ok(body) => capability_body_at(s, body, kind),
                Err(f) => Err(f),
            }
        },
        Err(f) => Err(f),
    }
}

/// The marker `input props:` after the capability lines, if it stands after
/// the whitespace at `pos`: the cursor after it, which has failed where no
/// whitespace stands before the marker.
pub open spec fn marker_after(s: Seq<u8>, pos: int) -> Option<Cursor> {
    let marker = run_end(s, pos, ByteClass::Whitespace);
    if !has_tag(s, marker, "input props:") {
        None
    } else if marker > pos {
        Some(Ok(marker + "input props:".spec_bytes().len()))
    } else {
        Some(Err(missing(pos, Construct::Whitespace)))
    }
}

/// The capability lines from `pos` on, one or more, up to the marker
/// `input props:`, which is read too.
pub open spec fn capability_lines_at(s: Seq<u8>, pos: int) -> Result<
    (Seq<CapabilityLine>, int),
    Failure,
>
    decreases s.len() - pos,
{
    match capability_at(s, pos) {
        Ok((line, next)) => match marker_after(s, next) {
            Some(Ok(after)) => Ok((seq![line], after)),
            Some(Err(f)) => Err(f),
            None => {
                proof {
                    lemma_capability_inside(s, pos);
                }
                prepend(seq![line], capability_lines_at(s, next))
            },
        },
        Err(f) => Err(f),
    }
}

/// The events section of a device block: a gap, `events:`, the end of the
/// line, and the capability lines with the marker that ends them.
pub open spec fn capabilities_at(s: Seq<u8>, pos: int) -> Result<(Capabilities, int), Failure> {
    let c = long_run_after(Ok(pos), s, ByteClass::Space, 1, Construct::Space);
    let c = tag_after(c, s, "events:", Construct::EventsMarker);
    match byte_after(c, s, LF, Construct::Newline) {
        Ok(first) => match capability_lines_at(s, first) {
            Ok((lines, next)) => Ok((collect(lines), next)),
            Err(f) => Err(f),
        },
        Err(f) => Err(f),
    }
}

/// A field ends inside the input, after the fields before it, or fails
/// inside the input.
proof fn lemma_field_inside(
    sofar: Result<(AbsoluteInfo, int), Failure>,
    s: Seq<u8>,
    field: InfoField,
    pos: int,
)
    requires
        0 <= pos,
        inside(sofar, s, pos),
    ensures
        inside(field_after(sofar, s, field), s, pos),
        not_for_text(sofar) ==> not_for_text(field_after(sofar, s, field)),
        field_after(sofar, s, field) matches Ok((_, next)) ==> sofar matches Ok((_, before))
            && before < next,
{
    if let Ok((info, before)) = sofar {
        let c = if field == InfoField::Value {
            Ok(before)
        } else {
            byte_after(Ok(before), s, COMMA, Construct::Comma)
        };
        if let Ok(number) = tag_after(c, s, field_name(field), Construct::AxisField) {
            lemma_run_bounds(s, number + sign_len(s, number), ByteClass::Digit);
        }
    }
}

/// The range of an axis ends inside the input, after where it began, or fails
/// inside the input.
pub proof fn lemma_axis_range_inside(s: Seq<u8>, pos: int, axis: u16)
    requires
        0 <= pos <= s.len(),
    ensures
        inside(axis_range_at(s, pos, axis), s, pos),
        not_for_text(axis_range_at(s, pos, axis)),
        axis_range_at(s, pos, axis) matches Ok((setup, next)) ==> pos < next && setup.axis == axis,
{
    let c = long_run_after(Ok(pos), s, ByteClass::Space, 1, Construct::Space);
    let c = byte_after(c, s, COLON, Construct::Colon);
    let r0 = no_fields(c);
    let r1 = field_after(r0, s, InfoField::Value);
    lemma_field_inside(r0, s, InfoField::Value, pos);
    let r2 = field_after(r1, s, InfoField::Minimum);
    lemma_field_inside(r1, s, InfoField::Minimum, pos);
    let r3 = field_after(r2, s, InfoField::Maximum);
    lemma_field_inside(r2, s, InfoField::Maximum, pos);
    let r4 = field_after(r3, s, InfoField::Fuzz);
    lemma_field_inside(r3, s, InfoField::Fuzz, pos);
    let r5 = field_after(r4, s, InfoField::Flat);
    lemma_field_inside(r4, s, InfoField::Flat, pos);
    lemma_field_inside(r5, s, InfoField::Resolution, pos);
}

/// An axis ends inside the input, after where it began, or fails inside the
/// input; its code is one that the numbering of absolute axes knows.
pub proof fn lemma_axis_setup_inside(s: Seq<u8>, pos: int)
    requires
        0 <= pos <= s.len(),
    ensures
        inside(axis_setup_at(s, pos), s, pos),
        not_for_text(axis_setup_at(s, pos)),
        axis_setup_at(s, pos) matches Ok((setup, next)) ==> pos < next && is_known(
            CodeSpace::AbsoluteAxis,
            setup.axis,
        ),
{
    if let Ok((axis, next)) = code_after(Ok(pos), s, CodeSpace::AbsoluteAxis) {
        lemma_axis_range_inside(s, next, axis);
    }
}

/// A list of codes ends inside the input or fails inside it. It ends only
/// where no four hexadecimal digits follow, it holds only codes that its
/// numbering knows, and it fails only at a code that its numbering does not
/// know.
pub proof fn lemma_codes_inside(s: Seq<u8>, pos: int, space: CodeSpace, gap: int)
    requires
        0 <= pos <= s.len(),
    ensures
        inside(codes_at(s, pos, space, gap), s, pos),
        match codes_at(s, pos, space, gap) {
            Ok((codes, end)) => item_start(s, end, gap) is None && forall|i: int|
                0 <= i < codes.len() ==> is_known(space, #[trigger] codes[i]),
            Err(f) => f.cause matches Cause::UnknownCode(of, code) && of == space && !is_known(
                space,
                code,
            ),
        },
    decreases s.len() - pos,
{
    if let Some(p) = item_start(s, pos, gap) {
        if let Ok((code, next)) = code_after(Ok(p), s, space) {
            lemma_codes_inside(s, next, space, gap);
            if let Ok((rest, end)) = codes_at(s, next, space, gap) {
                let codes = seq![code] + rest;
                assert forall|i: int| 0 <= i < codes.len() implies is_known(
                    space,
                    #[trigger] codes[i],
                ) by {
                    if i > 0 {
                        assert(codes[i] == rest[i - 1]);
                    }
                }
            }
        }
    }
}

/// A list of switches ends inside the input or fails inside it. It ends only
/// where no four hexadecimal digits follow, it holds only switches that the
/// numbering knows, and it fails only at a code that the numbering does not
/// know.
pub proof fn lemma_switches_inside(s: Seq<u8>, pos: int)
    requires
        0 <= pos <= s.len(),
    ensures
        inside(switches_at(s, pos), s, pos),
        match switches_at(s, pos) {
            Ok((switches, end)) => item_start(s, end, 1) is None && forall|i: int|
                0 <= i < switches.len() ==> is_known(CodeSpace::Switch, (#[trigger] switches[i]).0),
            Err(f) => f.cause matches Cause::UnknownCode(of, code) && of == CodeSpace::Switch
                && !is_known(CodeSpace::Switch, code),
        },
    decreases s.len() - pos,
{
    if let Some(p) = item_start(s, pos, 1) {
        if let Ok((code, next)) = code_after(Ok(p), s, CodeSpace::Switch) {
            let after = star_end(s, next);
            lemma_switches_inside(s, after);
            if let Ok((rest, end)) = switches_at(s, after) {
                let switches = seq![(code, after > next)] + rest;
                assert forall|i: int| 0 <= i < switches.len() implies is_known(
                    CodeSpace::Switch,
                    (#[trigger] switches[i]).0,
                ) by {
                    if i > 0 {
                        assert(switches[i] == rest[i - 1]);
                    }
                }
            }
        }
    }
}

/// A list of absolute axes ends inside the input or fails inside it. It ends
/// only where no four hexadecimal digits follow, and it holds only axes that
/// the numbering knows.
pub proof fn lemma_axes_inside(s: Seq<u8>, pos: int)
    requires
        0 <= pos <= s.len(),
    ensures
        inside(axes_at(s, pos), s, pos),
        not_for_text(axes_at(s, pos)),
        axes_at(s, pos) matches Ok((axes, end)) ==> item_start(s, end, 0) is None && forall|i: int|
            0 <= i < axes.len() ==> is_known(CodeSpace::AbsoluteAxis, (#[trigger] axes[i]).axis),
    decreases s.len() - pos,
{
    if let Some(p) = item_start(s, pos, 0) {
        lemma_axis_setup_inside(s, p);
        if let Ok((setup, next)) = axis_setup_at(s, p) {
            lemma_axes_inside(s, next);
            if let Ok((rest, end)) = axes_at(s, next) {
                let axes = seq![setup] + rest;
                assert forall|i: int| 0 <= i < axes.len() implies is_known(
                    CodeSpace::AbsoluteAxis,
                    (#[trigger] axes[i]).axis,
                ) by {
                    if i > 0 {
                        assert(axes[i] == rest[i - 1]);
                    }
                }
            }
        }
    }
}

/// A list fails at its item whose code is four hexadecimal digits that the
/// numbering does not know, and names the code.
pub proof fn lemma_unknown_code_in_a_list(s: Seq<u8>, pos: int, space: CodeSpace, gap: int)
    requires
        item_start(s, pos, gap) matches Some(at) && code_at(s, at) matches Some(code) && !is_known(
            space,
            code,
        ),
    ensures
        ({
            let at = item_start(s, pos, gap)->0;
            let failure = unknown(at, space, code_at(s, at)->0);
            &&& codes_at(s, pos, space, gap) == Err::<(Seq<u16>, int), Failure>(failure)
            &&& code_list_at(s, pos, space, gap) == Err::<(Seq<u16>, int), Failure>(failure)
            &&& space == CodeSpace::Switch && gap == 1 ==> switch_list_at(s, pos) == Err::<
                (Seq<(u16, bool)>, int),
                Failure,
            >(failure)
            &&& space == CodeSpace::AbsoluteAxis && gap == 0 ==> axis_list_at(s, pos) == Err::<
                (Seq<AbsoluteInfoSetup>, int),
                Failure,
            >(failure)
        }),
{
}

/// What follows the `:` of a capability line ends inside the input or fails
/// inside it, and holds only codes that are known.
pub proof fn lemma_capability_body_inside(s: Seq<u8>, pos: int, kind: u16)
    requires
        0 <= pos <= s.len(),
    ensures
        inside(capability_body_at(s, pos, kind), s, pos),
        not_for_text(capability_body_at(s, pos, kind)),
        capability_body_at(s, pos, kind) matches Ok((line, _)) ==> line.well_formed(),
{
    lemma_codes_inside(s, pos, CodeSpace::Key, 0);
    lemma_codes_inside(s, pos, CodeSpace::RelativeAxis, 1);
    lemma_axes_inside(s, pos);
    lemma_switches_inside(s, pos);
}

/// A capability line ends inside the input, after where it began, or fails
/// inside the input; it holds only codes that are known.
pub proof fn lemma_capability_inside(s: Seq<u8>, pos: int)
    requires
        0 <= pos <= s.len(),
    ensures
        inside(capability_at(s, pos), s, pos),
        not_for_text(capability_at(s, pos)),
        capability_at(s, pos) matches Ok((line, next)) ==> pos < next && line.well_formed(),
{
    if let Ok((kind, next)) = code_after(capability_kind_at(s, pos), s, CodeSpace::EventKind) {
        let c = byte_after(Ok(next), s, CLOSE_PAREN, Construct::CloseParen);
        if let Ok(body) = byte_after(c, s, COLON, Construct::Colon) {
            lemma_capability_body_inside(s, body, kind);
        }
    }
}

/// A capability line whose event type is four hexadecimal digits that the
/// numbering of event types does not know fails at it.
pub proof fn lemma_unknown_event_type_of_a_capability(s: Seq<u8>, pos: int, at: int, kind: u16)
    requires
        capability_kind_at(s, pos) == Ok::<int, Failure>(at),
        code_at(s, at) == Some(kind),
        !is_known(CodeSpace::EventKind, kind),
    ensures
        capability_at(s, pos) == Err::<(CapabilityLine, int), Failure>(
            unknown(at, CodeSpace::EventKind, kind),
        ),
{
}

/// What lines declare is well formed where each line is.
pub proof fn lemma_collect_well_formed(lines: Seq<CapabilityLine>)
    requires
        forall|i: int| 0 <= i < lines.len() ==> (#[trigger] lines[i]).well_formed(),
    ensures
        collect(lines).well_formed(),
    decreases lines.len(),
{
    if lines.len() > 0 {
        let before = collect(lines.drop_last());
        assert forall|i: int| 0 <= i < lines.drop_last().len() implies (
        #[trigger] lines.drop_last()[i]).well_formed() by {
            assert(lines.drop_last()[i] == lines[i]);
        }
        lemma_collect_well_formed(lines.drop_last());
        assert(lines[lines.len() - 1].well_formed());
        lemma_with_line_well_formed(before, lines.last());
    }
}

/// Capabilities stay well formed when a well-formed line is added.
proof fn lemma_with_line_well_formed(before: Capabilities, line: CapabilityLine)
    requires
        before.well_formed(),
        line.well_formed(),
    ensures
        before.with_line(line).well_formed(),
{
}

/// The capability lines end inside the input, after where they began, or
/// fail inside the input; each holds only codes that are known.
pub proof fn lemma_capability_lines_inside(s: Seq<u8>, pos: int)
    requires
        0 <= pos <= s.len(),
    ensures
        inside(capability_lines_at(s, pos), s, pos),
        not_for_text(capability_lines_at(s, pos)),
        capability_lines_at(s, pos) matches Ok((lines, next)) ==> pos < next && lines.len() > 0
            && forall|i: int| 0 <= i < lines.len() ==> (#[trigger] lines[i]).well_formed(),
    decreases s.len() - pos,
{
    lemma_capability_inside(s, pos);
    if let Ok((line, next)) = capability_at(s, pos) {
        if marker_after(s, next) is None {
            lemma_capability_lines_inside(s, next);
            if let Ok((rest, end)) = capability_lines_at(s, next) {
                let lines = seq![line] + rest;
                assert forall|i: int| 0 <= i < lines.len() implies (
                #[trigger] lines[i]).well_formed() by {
                    if i > 0 {
                        assert(lines[i] == rest[i - 1]);
                    }
                }
            }
        }
    }
}

/// The events section ends inside the input, after where it began, or fails
/// inside the input; it holds only codes that are known.
pub proof fn lemma_capabilities_inside(s: Seq<u8>, pos: int)
    requires
        0 <= pos <= s.len(),
    ensures
        inside(capabilities_at(s, pos), s, pos),
        not_for_text(capabilities_at(s, pos)),
        capabilities_at(s, pos) matches Ok((capabilities, next)) ==> pos < next
            && capabilities.well_formed(),
{
    let c = long_run_after(Ok(pos), s, ByteClass::Space, 1, Construct::Space);
    let c = tag_after(c, s, "events:", Construct::EventsMarker);
    if let Ok(first) = byte_after(c, s, LF, Construct::Newline) {
        lemma_capability_lines_inside(s, first);
        if let Ok((lines, next)) = capability_lines_at(s, first) {
            lemma_collect_well_formed(lines);
        }
    }
}

/// What one capability line declares, as read.
#[derive(Debug)]
pub enum DeviceEvent {
    Keys(Vec<u16>),
    Relative(Vec<u16>),
    Absolute(Vec<AbsoluteInfoSetup>),
    Switch(Vec<(u16, bool)>),
    /// A kind of event that the bridge does not track.
    Other,
}

impl View for DeviceEvent {
    type V = CapabilityLine;

    open spec fn view(&self) -> CapabilityLine {
        match self {
            DeviceEvent::Keys(keys) => CapabilityLine::Keys(keys@),
            DeviceEvent::Relative(axes) => CapabilityLine::Relative(axes@),
            DeviceEvent::Absolute(axes) => CapabilityLine::Absolute(axes@),
            DeviceEvent::Switch(switches) => CapabilityLine::Switch(switches@),
            DeviceEvent::Other => CapabilityLine::Other,
        }
    }
}

/// Reads the failure of a list without a first item.
fn first_item_missing(input: &[u8], pos: usize, gap: usize) -> (f: Failure)
    requires
        pos <= input@.len(),
    ensures
        f == no_item(input@, pos as int, gap as int),
        pos <= f.offset <= input@.len(),
{
    let p = skip_run(input, pos, ByteClass::Whitespace);
    if p - pos >= gap {
        Failure::expected(p, Construct::HexCode)
    } else {
        Failure::expected(pos, Construct::Whitespace)
    }
}

/// Reads the code of the list item at `cur`: `Ok(None)` where no item starts.
fn parse_item(input: &[u8], cur: usize, space: CodeSpace, gap: usize) -> (r: Result<
    Option<(u16, usize)>,
    Failure,
>)
    requires
        cur <= input@.len(),
    ensures
        match r {
            Ok(Some((code, next))) => item_start(input@, cur as int, gap as int) matches Some(p)
                && code_after(Ok(p), input@, space) == Ok::<(u16, int), Failure>(
                (code, next as int),
            ) && is_known(space, code) && cur < next <= input@.len(),
            Ok(None) => item_start(input@, cur as int, gap as int) is None,
            Err(f) => item_start(input@, cur as int, gap as int) matches Some(p) && code_after(
                Ok(p),
                input@,
                space,
            ) == Err::<(u16, int), Failure>(f) && cur <= f.offset <= input@.len(),
        },
{
    let p = skip_run(input, cur, ByteClass::Whitespace);
    if p - cur < gap {
        return Ok(None);
    }
    match expect_code(input, p, space) {
        Ok(found) => Ok(Some(found)),
        Err(f) => match f.cause {
            Cause::Expected(_) => Ok(None),
            Cause::UnknownCode(_, _) => Err(f),
        },
    }
}

/// Reads one code of `space` or more at `pos`, each after at least `gap`
/// bytes of whitespace.
fn parse_codes(input: &[u8], pos: usize, space: CodeSpace, gap: usize) -> (r: Result<
    (Vec<u16>, usize),
    Failure,
>)
    requires
        pos <= input@.len(),
    ensures
        viewed(r) == code_list_at(input@, pos as int, space, gap as int),
        r matches Ok((_, next)) ==> pos < next <= input@.len(),
        r matches Err(f) ==> pos <= f.offset <= input@.len(),
{
    let mut codes: Vec<u16> = Vec::new();
    let mut cur: usize = pos;
    proof {
        lemma_prepend_nothing(codes_at(input@, pos as int, space, gap as int));
    }
    loop
        invariant
            pos <= cur <= input@.len(),
            codes_at(input@, pos as int, space, gap as int) == prepend(
                codes@,
                codes_at(input@, cur as int, space, gap as int),
            ),
            codes@.len() == 0 ==> cur == pos,
            codes@.len() > 0 ==> cur > pos && item_start(input@, pos as int, gap as int) is Some,
        ensures
            item_start(input@, cur as int, gap as int) is None,
        decreases input@.len() - cur,
    {
        match parse_item(input, cur, space, gap) {
            Ok(Some((code, next))) => {
                proof {
                    lemma_prepend_push(
                        codes@,
                        code,
                        codes_at(input@, next as int, space, gap as int),
                    );
                }
                codes.push(code);
                cur = next;
            },
            Ok(None) => {
                break ;
            },
            Err(f) => {
                return Err(f);
            },
        }
    }
    if codes.len() == 0 {
        Err(first_item_missing(input, pos, gap))
    } else {
        proof {
            assert(codes@ + Seq::<u16>::empty() =~= codes@);
        }
        Ok((codes, cur))
    }
}

/// Reads one switch or more at `pos`.
fn parse_switches(input: &[u8], pos: usize) -> (r: Result<(Vec<(u16, bool)>, usize), Failure>)
    requires
        pos <= input@.len(),
    ensures
        viewed(r) == switch_list_at(input@, pos as int),
        r matches Ok((_, next)) ==> pos < next <= input@.len(),
        r matches Err(f) ==> pos <= f.offset <= input@.len(),
{
    let mut switches: Vec<(u16, bool)> = Vec::new();
    let mut cur: usize = pos;
    proof {
        lemma_prepend_nothing(switches_at(input@, pos as int));
    }
    loop
        invariant
            pos <= cur <= input@.len(),
            switches_at(input@, pos as int) == prepend(switches@, switches_at(input@, cur as int)),
            switches@.len() == 0 ==> cur == pos,
            switches@.len() > 0 ==> cur > pos && item_start(input@, pos as int, 1) is Some,
        ensures
            item_start(input@, cur as int, 1) is None,
        decreases input@.len() - cur,
    {
        match parse_item(input, cur, CodeSpace::Switch, 1) {
            Ok(Some((code, next))) => {
                let active = next < input.len() && input[next] == STAR;
                let after: usize = if active {
                    next + 1
                } else {
                    next
                };
                proof {
                    lemma_prepend_push(switches@, (code, active), switches_at(input@, after as int));
                }
                switches.push((code, active));
                cur = after;
            },
            Ok(None) => {
                break ;
            },
            Err(f) => {
                return Err(f);
            },
        }
    }
    if switches.len() == 0 {
        Err(first_item_missing(input, pos, 1))
    } else {
        proof {
            assert(switches@ + Seq::<(u16, bool)>::empty() =~= switches@);
        }
        Ok((switches, cur))
    }
}

/// How the dump names `field`.
fn field_tag(field: InfoField) -> (tag: &'static str)
    ensures
        tag == field_name(field),
{
    match field {
        InfoField::Value => " value ",
        InfoField::Minimum => " min ",
        InfoField::Maximum => " max ",
        InfoField::Fuzz => " fuzz ",
        InfoField::Flat => " flat ",
        InfoField::Resolution => " resolution ",
    }
}

/// Sets `field` of `info` to `number`.
fn set_field(info: AbsoluteInfo, field: InfoField, number: i32) -> (r: AbsoluteInfo)
    ensures
        r == with_field(info, field, number),
{
    let mut r = info;
    match field {
        InfoField::Value => r.value = number,
        InfoField::Minimum => r.minimum = number,
        InfoField::Maximum => r.maximum = number,
        InfoField::Fuzz => r.fuzz = number,
        InfoField::Flat => r.flat = number,
        InfoField::Resolution => r.resolution = number,
    }
    r
}

/// Reads `field` at `pos` into `info`.
fn parse_field(input: &[u8], pos: usize, info: AbsoluteInfo, field: InfoField) -> (r: Result<
    (AbsoluteInfo, usize),
    Failure,
>)
    requires
        pos <= input@.len(),
    ensures
        parsed(r) == field_after(Ok((info, pos as int)), input@, field),
        r matches Ok((_, next)) ==> pos < next <= input@.len(),
        r matches Err(f) ==> pos <= f.offset <= input@.len(),
{
    let p = match field {
        InfoField::Value => pos,
        _ => expect_byte(input, pos, COMMA, Construct::Comma)?,
    };
    let p = expect_tag(input, p, field_tag(field), Construct::AxisField)?;
    let (number, next) = expect_integer(input, p, i32::MIN as i64, i32::MAX as i64)?;
    Ok((set_field(info, field, number as i32), next))
}

/// Reads the range of the absolute axis `axis`, whose code ends at `pos`.
fn parse_absolute_info_setup(input: &[u8], pos: usize, axis: u16) -> (r: Result<
    (AbsoluteInfoSetup, usize),
    Failure,
>)
    requires
        pos <= input@.len(),
    ensures
        parsed(r) == axis_range_at(input@, pos as int, axis),
        r matches Ok((_, next)) ==> pos < next <= input@.len(),
        r matches Err(f) ==> pos <= f.offset <= input@.len(),
{
    let p = expect_run(input, pos, ByteClass::Space, 1, Construct::Space)?;
    let p = expect_byte(input, p, COLON, Construct::Colon)?;
    let info = AbsoluteInfo { value: 0, minimum: 0, maximum: 0, fuzz: 0, flat: 0, resolution: 0 };
    let (info, p) = parse_field(input, p, info, InfoField::Value)?;
    let (info, p) = parse_field(input, p, info, InfoField::Minimum)?;
    let (info, p) = parse_field(input, p, info, InfoField::Maximum)?;
    let (info, p) = parse_field(input, p, info, InfoField::Fuzz)?;
    let (info, p) = parse_field(input, p, info, InfoField::Flat)?;
    let (info, p) = parse_field(input, p, info, InfoField::Resolution)?;
    let next = expect_byte(input, p, LF, Construct::Newline)?;
    Ok((AbsoluteInfoSetup { axis, info }, next))
}

/// Reads one absolute axis or more at `pos`.
fn parse_axes(input: &[u8], pos: usize) -> (r: Result<(Vec<AbsoluteInfoSetup>, usize), Failure>)
    requires
        pos <= input@.len(),
    ensures
        viewed(r) == axis_list_at(input@, pos as int),
        r matches Ok((_, next)) ==> pos < next <= input@.len(),
        r matches Err(f) ==> pos <= f.offset <= input@.len(),
{
    let mut axes: Vec<AbsoluteInfoSetup> = Vec::new();
    let mut cur: usize = pos;
    proof {
        lemma_prepend_nothing(axes_at(input@, pos as int));
    }
    loop
        invariant
            pos <= cur <= input@.len(),
            axes_at(input@, pos as int) == prepend(axes@, axes_at(input@, cur as int)),
            axes@.len() == 0 ==> cur == pos,
            axes@.len() > 0 ==> cur > pos && item_start(input@, pos as int, 0) is Some,
        ensures
            item_start(input@, cur as int, 0) is None,
        decreases input@.len() - cur,
    {
        match parse_item(input, cur, CodeSpace::AbsoluteAxis, 0) {
            Ok(Some((axis, range))) => {
                let (setup, next) = parse_absolute_info_setup(input, range, axis)?;
                proof {
                    lemma_prepend_push(axes@, setup, axes_at(input@, next as int));
                }
                axes.push(setup);
                cur = next;
            },
            Ok(None) => {
                break ;
            },
            Err(f) => {
                return Err(f);
            },
        }
    }
    if axes.len() == 0 {
        Err(first_item_missing(input, pos, 0))
    } else {
        proof {
            assert(axes@ + Seq::<AbsoluteInfoSetup>::empty() =~= axes@);
        }
        Ok((axes, cur))
    }
}

/// Reads the capability line at `pos`.
fn parse_device_event(input: &[u8], pos: usize) -> (r: Result<(DeviceEvent, usize), Failure>)
    requires
        pos <= input@.len(),
    ensures
        viewed(r) == capability_at(input@, pos as int),
        r matches Ok((_, next)) ==> pos < next <= input@.len(),
        r matches Err(f) ==> pos <= f.offset <= input@.len(),
{
    let p = expect_run(input, pos, ByteClass::Whitespace, 1, Construct::Whitespace)?;
    let label = skip_run(input, p, ByteClass::Alphanumeric);
    if label - p < 2 || label - p > 10 {
        return Err(Failure::expected(p, Construct::Label));
    }
    let p = expect_run(input, label, ByteClass::Space, 1, Construct::Space)?;
    let p = expect_byte(input, p, OPEN_PAREN, Construct::OpenParen)?;
    let (kind, p) = expect_code(input, p, CodeSpace::EventKind)?;
    let p = expect_byte(input, p, CLOSE_PAREN, Construct::CloseParen)?;
    let body = expect_byte(input, p, COLON, Construct::Colon)?;
    if kind == EV_KEY {
        let (keys, next) = parse_codes(input, body, CodeSpace::Key, 0)?;
        Ok((DeviceEvent::Keys(keys), next))
    } else if kind == EV_REL {
        let (axes, next) = parse_codes(input, body, CodeSpace::RelativeAxis, 1)?;
        Ok((DeviceEvent::Relative(axes), next))
    } else if kind == EV_ABS {
        let (axes, next) = parse_axes(input, body)?;
        Ok((DeviceEvent::Absolute(axes), next))
    } else if kind == EV_SW {
        let (switches, next) = parse_switches(input, body)?;
        Ok((DeviceEvent::Switch(switches), next))
    } else {
        Ok((DeviceEvent::Other, skip_run(input, body, ByteClass::LineContent)))
    }
}

/// One more capability line: how the lines from `first` on are made of the
/// lines before `cur`, the line at `cur`, and what follows it.
proof fn lemma_capability_lines_step(
    s: Seq<u8>,
    first: int,
    cur: int,
    lines: Seq<CapabilityLine>,
    line: CapabilityLine,
    next: int,
)
    requires
        capability_lines_at(s, first) == prepend(lines, capability_lines_at(s, cur)),
        capability_at(s, cur) == Ok::<(CapabilityLine, int), Failure>((line, next)),
    ensures
        match marker_after(s, next) {
            Some(Ok(after)) => capability_lines_at(s, first) == Ok::<
                (Seq<CapabilityLine>, int),
                Failure,
            >((lines.push(line), after)),
            Some(Err(f)) => capability_lines_at(s, first) == Err::<
                (Seq<CapabilityLine>, int),
                Failure,
            >(f),
            None => capability_lines_at(s, first) == prepend(
                lines.push(line),
                capability_lines_at(s, next),
            ),
        },
        collect(lines.push(line)) == collect(lines).with_line(line),
{
    assert(lines.push(line).drop_last() =~= lines);
    assert(lines + seq![line] =~= lines.push(line));
    lemma_prepend_push(lines, line, capability_lines_at(s, next));
}

impl ADBDeviceEvents {
    /// Takes over what `line` declares.
    fn declare(&mut self, line: DeviceEvent)
        ensures
            final(self)@ == old(self)@.with_line(line@),
    {
        match line {
            DeviceEvent::Keys(keys) => {
                self.keys = keys;
            },
            DeviceEvent::Relative(axes) => {
                self.relative = axes;
            },
            DeviceEvent::Absolute(axes) => {
                self.absolute = axes;
            },
            DeviceEvent::Switch(switches) => {
                self.switches = switches;
            },
            DeviceEvent::Other => {},
        }
    }
}

/// Reads the events section at `pos`.
pub(crate) fn parse_device_events(input: &[u8], pos: usize) -> (r: Result<
    (ADBDeviceEvents, usize),
    Failure,
>)
    requires
        pos <= input@.len(),
    ensures
        viewed(r) == capabilities_at(input@, pos as int),
        r matches Ok((_, next)) ==> pos < next <= input@.len(),
        r matches Err(f) ==> pos <= f.offset <= input@.len(),
{
    let p = expect_run(input, pos, ByteClass::Space, 1, Construct::Space)?;
    let p = expect_tag(input, p, "events:", Construct::EventsMarker)?;
    let first = expect_byte(input, p, LF, Construct::Newline)?;
    let mut events = ADBDeviceEvents {
        keys: Vec::new(),
        relative: Vec::new(),
        absolute: Vec::new(),
        switches: Vec::new(),
    };
    let ghost mut lines: Seq<CapabilityLine> = Seq::empty();
    let mut cur: usize = first;
    proof {
        lemma_prepend_nothing(capability_lines_at(input@, first as int));
    }
    loop
        invariant_except_break
            capability_lines_at(input@, first as int) == prepend(
                lines,
                capability_lines_at(input@, cur as int),
            ),
        invariant
            pos < first <= cur <= input@.len(),
            capabilities_at(input@, pos as int) == (match capability_lines_at(
                input@,
                first as int,
            ) {
                Ok((lines, next)) => Ok((collect(lines), next)),
                Err(f) => Err(f),
            }),
            events@ == collect(lines),
        ensures
            capability_lines_at(input@, first as int) == Ok::<(Seq<CapabilityLine>, int), Failure>(
                (lines, cur as int),
            ),
            first < cur,
        decreases input@.len() - cur,
    {
        let (line, next) = parse_device_event(input, cur)?;
        proof {
            lemma_capability_lines_step(input@, first as int, cur as int, lines, line@, next as int);
            lines = lines.push(line@);
        }
        events.declare(line);
        cur = next;
        let marker = skip_run(input, next, ByteClass::Whitespace);
        if let Some(after) = match_tag(input, marker, "input props:") {
            if marker == next {
                return Err(Failure::expected(next, Construct::Whitespace));
            }
            cur = after;
            break ;
        }
    }
    Ok((events, cur))
}

} // verus!
