//! What the virtual input device has to declare before it is created.

use crate::codes::{ABS_X, ABS_Y};
use crate::parser::{ADBDevice, AbsoluteInfo, AbsoluteInfoSetup, Capabilities};
use crate::rotation::{remap_rule, Rotation, RotationData};
use vstd::prelude::*;

verus! {

/// Who the virtual device says it is. The builder hands it on as it is.
#[derive(Clone, Debug, PartialEq, Eq)]
pub struct DeviceIdentity {
    pub bustype: u16,
    pub vendor: u16,
    pub product: u16,
    pub version: u16,
    pub name: String,
}

/// One step of registering the virtual device.
#[derive(Clone, Copy, Debug, PartialEq, Eq)]
pub enum Declaration {
    /// The device reports keys.
    EnableKeys,
    /// The device has this key.
    Key(u16),
    /// The device reports absolute axes.
    EnableAbsolute,
    /// The device has this absolute axis, with this range.
    Absolute(AbsoluteInfoSetup),
}

/// The identity of the virtual device and its declarations, in the order in
/// which they are to be made.
#[derive(Clone, Debug, PartialEq, Eq)]
pub struct Descriptor {
    pub identity: DeviceIdentity,
    pub declarations: Vec<Declaration>,
}

/// Whether `rotation` swaps X and Y.
pub open spec fn is_quarter_turn(rotation: Option<Rotation>) -> bool {
    rotation == Some(Rotation::Rotation90) || rotation == Some(Rotation::Rotation270)
}

/// The axis on which the events of `axis` are emitted under `rotation`, as
/// far as the declarations go: a quarter turn swaps X and Y and nothing else.
pub open spec fn declared_axis(axis: u16, rotation: Option<Rotation>) -> u16 {
    if is_quarter_turn(rotation) && axis == ABS_X {
        ABS_Y
    } else if is_quarter_turn(rotation) && axis == ABS_Y {
        ABS_X
    } else {
        axis
    }
}

/// The resolution that is declared for `resolution`: `fallback` where the
/// device states none.
pub open spec fn declared_resolution(resolution: i32, fallback: i32) -> i32 {
    if resolution == 0 {
        fallback
    } else {
        resolution
    }
}

/// The absolute axis that is declared for `setup`.
pub open spec fn declared_setup(setup: AbsoluteInfoSetup, rotation: Option<Rotation>, fallback: i32)
    -> AbsoluteInfoSetup {
    AbsoluteInfoSetup {
        axis: declared_axis(setup.axis, rotation),
        info: AbsoluteInfo {
            resolution: declared_resolution(setup.info.resolution, fallback),
            ..setup.info
        },
    }
}

/// The declarations for `keys`: none without a key, else that keys are
/// reported, then each key in its order.
pub open spec fn key_declarations(keys: Seq<u16>) -> Seq<Declaration> {
    if keys.len() == 0 {
        Seq::empty()
    } else {
        seq![Declaration::EnableKeys] + keys.map_values(|key: u16| Declaration::Key(key))
    }
}

/// The declarations for `axes`: none without an axis, else that absolute
/// axes are reported, then each axis in its order, as it is declared.
pub open spec fn absolute_declarations(
    axes: Seq<AbsoluteInfoSetup>,
    rotation: Option<Rotation>,
    fallback: i32,
) -> Seq<Declaration> {
    if axes.len() == 0 {
        Seq::empty()
    } else {
        seq![Declaration::EnableAbsolute] + axes.map_values(
            |setup: AbsoluteInfoSetup|
                Declaration::Absolute(declared_setup(setup, rotation, fallback)),
        )
    }
}

/// All declarations for a device: its keys, then its absolute axes.
pub open spec fn declarations(device: Capabilities, rotation: Option<Rotation>, fallback: i32) -> Seq<
    Declaration,
> {
    key_declarations(device.keys) + absolute_declarations(device.absolute, rotation, fallback)
}

/// The maximum of the last entry of `axes` for `axis`, if there is one.
pub open spec fn last_maximum(axes: Seq<AbsoluteInfoSetup>, axis: u16) -> Option<i32>
    decreases axes.len(),
{
    if axes.len() == 0 {
        None
    } else if axes.last().axis == axis {
        Some(axes.last().info.maximum)
    } else {
        last_maximum(axes.drop_last(), axis)
    }
}

/// What the remapper is to work with: the rotation asked for and the maxima
/// of X and Y, where a rotation is asked for and the device has both axes.
pub open spec fn rotation_data(axes: Seq<AbsoluteInfoSetup>, rotation: Option<Rotation>) -> Option<
    RotationData,
> {
    match (rotation, last_maximum(axes, ABS_X), last_maximum(axes, ABS_Y)) {
        (Some(rotation), Some(maximum_x), Some(maximum_y)) => Some(
            RotationData { rotation, maximum_x, maximum_y },
        ),
        _ => None,
    }
}

/// Declares `setup` as `rotation` and `fallback_resolution` have it.
fn declare_axis(setup: AbsoluteInfoSetup, rotation_opt: Option<Rotation>, fallback_resolution: i32)
    -> (r: AbsoluteInfoSetup)
    ensures
        r == declared_setup(setup, rotation_opt, fallback_resolution),
{
    let mut declared = setup;
    if declared.info.resolution == 0 {
        declared.info.resolution = fallback_resolution;
    }
    let quarter_turn = match rotation_opt {
        Some(Rotation::Rotation90) => true,
        Some(Rotation::Rotation270) => true,
        _ => false,
    };
    if quarter_turn {
        if setup.axis == ABS_X {
            declared.axis = ABS_Y;
        } else if setup.axis == ABS_Y {
            declared.axis = ABS_X;
        }
    }
    declared
}

/// Builds the descriptor of the virtual device for `device`, and the data of
/// the rotation for the remapper.
pub fn setup_virtual_input_device(
    device: &ADBDevice,
    identity: DeviceIdentity,
    rotation_opt: Option<Rotation>,
    fallback_resolution: i32,
) -> (r: (Descriptor, Option<RotationData>))
    ensures
        r.0.identity == identity,
        r.0.declarations@ == declarations(device@.events, rotation_opt, fallback_resolution),
        r.1 == rotation_data(device@.events.absolute, rotation_opt),
{
    let mut declarations: Vec<Declaration> = Vec::new();
    let keys = &device.events.keys;
    if keys.len() > 0 {
        declarations.push(Declaration::EnableKeys);
        let mut i: usize = 0;
        while i < keys.len()
            invariant
                i <= keys@.len(),
                declarations@ == seq![Declaration::EnableKeys] + keys@.take(i as int).map_values(
                    |key: u16| Declaration::Key(key),
                ),
            decreases keys@.len() - i,
        {
            declarations.push(Declaration::Key(keys[i]));
            proof {
                assert(keys@.take(i + 1) =~= keys@.take(i as int).push(keys@[i as int]));
            }
            i += 1;
        }
        proof {
            assert(keys@.take(i as int) =~= keys@);
        }
    }
    let ghost key_part = declarations@;
    let axes = &device.events.absolute;
    let mut maximum_x_opt: Option<i32> = None;
    let mut maximum_y_opt: Option<i32> = None;
    if axes.len() > 0 {
        declarations.push(Declaration::EnableAbsolute);
        let mut i: usize = 0;
        while i < axes.len()
            invariant
                i <= axes@.len(),
                declarations@ == key_part + (seq![Declaration::EnableAbsolute] + axes@.take(
                    i as int,
                ).map_values(
                    |setup: AbsoluteInfoSetup|
                        Declaration::Absolute(
                            declared_setup(setup, rotation_opt, fallback_resolution),
                        ),
                )),
                maximum_x_opt == last_maximum(axes@.take(i as int), ABS_X),
                maximum_y_opt == last_maximum(axes@.take(i as int), ABS_Y),
            decreases axes@.len() - i,
        {
            let setup = axes[i];
            if setup.axis == ABS_X {
                maximum_x_opt = Some(setup.info.maximum);
            } else if setup.axis == ABS_Y {
                maximum_y_opt = Some(setup.info.maximum);
            }
            declarations.push(
                Declaration::Absolute(declare_axis(setup, rotation_opt, fallback_resolution)),
            );
            proof {
                assert(axes@.take(i + 1) =~= axes@.take(i as int).push(setup));
                assert(axes@.take(i + 1).drop_last() =~= axes@.take(i as int));
            }
            i += 1;
        }
        proof {
            assert(axes@.take(i as int) =~= axes@);
        }
    }
    let rotation_data_opt = match (rotation_opt, maximum_x_opt, maximum_y_opt) {
        (Some(rotation), Some(maximum_x), Some(maximum_y)) => Some(
            RotationData { rotation, maximum_x, maximum_y },
        ),
        _ => None,
    };
    (Descriptor { identity, declarations }, rotation_data_opt)
}

/// Keys are declared as the device has them: first that keys are reported,
/// then each key once, in its order.
pub proof fn lemma_keys_are_declared_in_order(keys: Seq<u16>, i: int)
    requires
        0 <= i < keys.len(),
    ensures
        key_declarations(keys).len() == keys.len() + 1,
        key_declarations(keys)[0] == Declaration::EnableKeys,
        key_declarations(keys)[i + 1] == Declaration::Key(keys[i]),
{
}

/// Each absolute axis is declared once, in its place after the declaration
/// that enables absolute axes, with the fallback as its resolution where it
/// stated none; so with a fallback other than 0, no axis is declared with a
/// resolution of 0.
pub proof fn lemma_fallback_resolution(
    axes: Seq<AbsoluteInfoSetup>,
    rotation: Option<Rotation>,
    fallback: i32,
    i: int,
)
    requires
        0 <= i < axes.len(),
    ensures
        absolute_declarations(axes, rotation, fallback).len() == axes.len() + 1,
        absolute_declarations(axes, rotation, fallback)[0] == Declaration::EnableAbsolute,
        absolute_declarations(axes, rotation, fallback)[i + 1] matches Declaration::Absolute(
            declared,
        ) && declared == declared_setup(axes[i], rotation, fallback) && (axes[i].info.resolution
            == 0 ==> declared.info.resolution == fallback) && (axes[i].info.resolution != 0
            ==> declared.info.resolution == axes[i].info.resolution) && (fallback != 0
            ==> declared.info.resolution != 0),
{
}

/// In the declarations of a device the keys come first and the absolute axes
/// after them, each part as it stands for itself.
pub proof fn lemma_declarations_in_two_parts(
    device: Capabilities,
    rotation: Option<Rotation>,
    fallback: i32,
    i: int,
)
    requires
        0 <= i < declarations(device, rotation, fallback).len(),
    ensures
        declarations(device, rotation, fallback).len() == key_declarations(device.keys).len()
            + absolute_declarations(device.absolute, rotation, fallback).len(),
        i < key_declarations(device.keys).len() ==> declarations(device, rotation, fallback)[i]
            == key_declarations(device.keys)[i],
        i >= key_declarations(device.keys).len() ==> declarations(device, rotation, fallback)[i]
            == absolute_declarations(device.absolute, rotation, fallback)[i - key_declarations(
            device.keys,
        ).len()],
{
}

/// A half turn, or no rotation, declares every axis under its own code; a
/// quarter turn declares X as Y and Y as X, and every other axis, the tilt
/// axes too, under its own code.
pub proof fn lemma_declared_axes(axis: u16, rotation: Option<Rotation>)
    ensures
        !is_quarter_turn(rotation) ==> declared_axis(axis, rotation) == axis,
        is_quarter_turn(rotation) ==> declared_axis(ABS_X, rotation) == ABS_Y && declared_axis(
            ABS_Y,
            rotation,
        ) == ABS_X,
        axis != ABS_X && axis != ABS_Y ==> declared_axis(axis, rotation) == axis,
{
}

/// X and Y are declared under the codes under which their events are emitted:
/// the axis that the remapper reports for X or Y is the axis that is declared
/// for it.
pub proof fn lemma_positions_are_emitted_as_declared(axis: u16, rotation: Rotation)
    requires
        axis == ABS_X || axis == ABS_Y,
    ensures
        remap_rule(rotation, axis) matches Some((emitted, _)) && emitted == declared_axis(
            axis,
            Some(rotation),
        ),
{
}

/// The maximum of an axis is found exactly where the device has that axis.
pub proof fn lemma_last_maximum_present(axes: Seq<AbsoluteInfoSetup>, axis: u16)
    ensures
        last_maximum(axes, axis) is Some <==> exists|i: int|
            0 <= i < axes.len() && (#[trigger] axes[i]).axis == axis,
    decreases axes.len(),
{
    if axes.len() > 0 {
        let init = axes.drop_last();
        lemma_last_maximum_present(init, axis);
        if axes.last().axis == axis {
            assert(axes[axes.len() - 1].axis == axis);
        } else if last_maximum(init, axis) is Some {
            let i = choose|i: int| 0 <= i < init.len() && (#[trigger] init[i]).axis == axis;
            assert(axes[i].axis == axis);
        } else {
            assert forall|i: int| 0 <= i < axes.len() implies (#[trigger] axes[i]).axis != axis by {
                if i < init.len() {
                    assert(init[i] == axes[i]);
                }
            }
        }
    }
}

/// The remapper gets its data exactly where a rotation is asked for and the
/// device has both an X and a Y axis; the data then holds that rotation.
pub proof fn lemma_rotation_data_present(axes: Seq<AbsoluteInfoSetup>, rotation: Option<Rotation>)
    ensures
        rotation_data(axes, rotation) is Some <==> rotation is Some && (exists|i: int|
            0 <= i < axes.len() && (#[trigger] axes[i]).axis == ABS_X) && (exists|i: int|
            0 <= i < axes.len() && (#[trigger] axes[i]).axis == ABS_Y),
        rotation_data(axes, rotation) matches Some(data) ==> Some(data.rotation) == rotation,
{
    lemma_last_maximum_present(axes, ABS_X);
    lemma_last_maximum_present(axes, ABS_Y);
}

} // verus!
