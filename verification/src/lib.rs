//! Bridges a remote stylus or touch device, as `getevent` shows it over ADB,
//! to a local virtual input device.
//!
//! The library reads the capability dump of the remote device and the lines of
//! its live event stream, says what the virtual device has to declare, and
//! remaps the events of a device that is used rotated. It does no I/O: the
//! caller talks to the ADB server and to uinput.
//!
//! - [`parser`]: the devices of a dump, the events of the stream, and the four
//!   functions that read them;
//! - [`device`], [`capability`], [`event`]: the grammars, each as a spec
//!   function on bytes, with the parsers that follow them;
//! - [`scan`]: runs, tags and numbers in a byte slice;
//! - [`codes`]: which codes the kernel numbers;
//! - [`rotation`]: the remapper;
//! - [`uinput`]: the declarations of the virtual device;
//! - [`cli`]: what a command line asks for, and which device is the tablet;
//! - [`error`]: where and why a parse stopped.

pub mod capability;
pub mod cli;
pub mod codes;
pub mod device;
pub mod error;
pub mod event;
pub mod parser;
pub mod rotation;
pub mod scan;
pub mod uinput;
