//! What the command line asks for, and which device is the tablet.

use crate::codes::BTN_TOOL_PEN;
use crate::parser::{ADBDevice, DeviceView};
use crate::rotation::Rotation;
use vstd::prelude::*;

verus! {

/// The arguments of `list-sub-device`.
#[derive(Clone, Debug, PartialEq, Eq)]
pub struct ListSubDeviceArgs {
    pub device: String,
}

/// The arguments of `forward`.
#[derive(Clone, Debug, PartialEq, Eq)]
pub struct ForwardArgs {
    pub device: Option<String>,
    pub subdevice: Option<String>,
    pub name: String,
    pub rotation: Option<Rotation>,
    pub fallback_resolution: i32,
}

/// A command line, parsed.
#[derive(Clone, Debug, PartialEq, Eq)]
pub enum AppCli {
    ListDevice,
    ListSubDevice(ListSubDeviceArgs),
    Forward(ForwardArgs),
}

/// How the tablet is to be found among the devices.
#[derive(Clone, Debug, PartialEq, Eq)]
pub enum IdentityTabletDeviceArgs {
    /// Among all devices of the server.
    Automatic,
    /// On this device.
    Device(String),
    /// On this device, under this name.
    DeviceAndSubdevice(String, String),
}

/// What the program is to do.
#[derive(Clone, Debug, PartialEq, Eq)]
pub enum Task {
    /// Print the devices of the server.
    ListDevice,
    /// Print the input devices of `device`.
    ListSubDevice { device: String },
    /// Find the tablet and forward its events to a virtual device `name`.
    Forward {
        identity: IdentityTabletDeviceArgs,
        name: String,
        rotation: Option<Rotation>,
        fallback_resolution: i32,
    },
}

/// A command line that asks for nothing that can be done.
#[derive(Clone, Copy, Debug, PartialEq, Eq)]
pub enum UsageError {
    /// An input device is named, but not the device that has it.
    SubdeviceWithoutDevice,
}

/// How the tablet is to be found, for the device and the input device that
/// the command line names.
pub open spec fn identity_for(device: Option<String>, subdevice: Option<String>) -> Result<
    IdentityTabletDeviceArgs,
    UsageError,
> {
    match (device, subdevice) {
        (Some(device), Some(subdevice)) => Ok(
            IdentityTabletDeviceArgs::DeviceAndSubdevice(device, subdevice),
        ),
        (Some(device), None) => Ok(IdentityTabletDeviceArgs::Device(device)),
        (None, None) => Ok(IdentityTabletDeviceArgs::Automatic),
        (None, Some(_)) => Err(UsageError::SubdeviceWithoutDevice),
    }
}

/// The task that the command line `cli` asks for.
pub open spec fn task_of(cli: AppCli) -> Result<Task, UsageError> {
    match cli {
        AppCli::ListDevice => Ok(Task::ListDevice),
        AppCli::ListSubDevice(args) => Ok(Task::ListSubDevice { device: args.device }),
        AppCli::Forward(args) => match identity_for(args.device, args.subdevice) {
            Ok(identity) => Ok(
                Task::Forward {
                    identity,
                    name: args.name,
                    rotation: args.rotation,
                    fallback_resolution: args.fallback_resolution,
                },
            ),
            Err(e) => Err(e),
        },
    }
}

/// Decides what the program is to do for the command line `cli`.
pub fn run(cli: AppCli) -> (r: Result<Task, UsageError>)
    ensures
        r == task_of(cli),
{
    match cli {
        AppCli::ListDevice => Ok(Task::ListDevice),
        AppCli::ListSubDevice(args) => Ok(Task::ListSubDevice { device: args.device }),
        AppCli::Forward(args) => {
            let identity = match (args.device, args.subdevice) {
                (Some(device), Some(subdevice)) => IdentityTabletDeviceArgs::DeviceAndSubdevice(
                    device,
                    subdevice,
                ),
                (Some(device), None) => IdentityTabletDeviceArgs::Device(device),
                (None, None) => IdentityTabletDeviceArgs::Automatic,
                (None, Some(_)) => {
                    return Err(UsageError::SubdeviceWithoutDevice);
                },
            };
            Ok(
                Task::Forward {
                    identity,
                    name: args.name,
                    rotation: args.rotation,
                    fallback_resolution: args.fallback_resolution,
                },
            )
        },
    }
}

/// Whether `device` is taken for the tablet: it has the name asked for, if
/// one is asked for, and it reports the pen.
pub open spec fn is_tablet(device: DeviceView, subdevice: Option<Seq<char>>) -> bool {
    (subdevice matches Some(name) ==> device.name == name) && device.events.keys.contains(
        BTN_TOOL_PEN,
    )
}

/// The name asked for, as text.
pub open spec fn name_asked(subdevice_identifier: Option<String>) -> Option<Seq<char>> {
    match subdevice_identifier {
        Some(name) => Some(name@),
        None => None,
    }
}

/// Whether `key` is among `keys`.
fn has_key(keys: &Vec<u16>, key: u16) -> (r: bool)
    ensures
        r == keys@.contains(key),
{
    let mut i: usize = 0;
    while i < keys.len()
        invariant
            i <= keys@.len(),
            forall|j: int| 0 <= j < i ==> keys@[j] != key,
        decreases keys@.len() - i,
    {
        if keys[i] == key {
            return true;
        }
        i += 1;
    }
    false
}

/// Finds the tablet among the input devices of one device: the first that
/// is taken for it, by its index.
pub fn identify_tablet_device(subdevices: &Vec<ADBDevice>, subdevice_identifier: &Option<String>)
    -> (r: Option<usize>)
    ensures
        match r {
            Some(found) => found < subdevices@.len() && is_tablet(
                subdevices@[found as int]@,
                name_asked(*subdevice_identifier),
            ) && forall|j: int|
                0 <= j < found ==> !is_tablet(
                    (#[trigger] subdevices@[j])@,
                    name_asked(*subdevice_identifier),
                ),
            None => forall|j: int|
                0 <= j < subdevices@.len() ==> !is_tablet(
                    (#[trigger] subdevices@[j])@,
                    name_asked(*subdevice_identifier),
                ),
        },
{
    let mut i: usize = 0;
    while i < subdevices.len()
        invariant
            i <= subdevices@.len(),
            forall|j: int|
                0 <= j < i ==> !is_tablet(
                    (#[trigger] subdevices@[j])@,
                    name_asked(*subdevice_identifier),
                ),
        decreases subdevices@.len() - i,
    {
        let device = &subdevices[i];
        let named = match subdevice_identifier {
            Some(name) => device.name == *name,
            None => true,
        };
        if named && has_key(&device.events.keys, BTN_TOOL_PEN) {
            return Some(i);
        }
        i += 1;
    }
    None
}

} // verus!
