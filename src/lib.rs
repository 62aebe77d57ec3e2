//! Framing protocol between the control panel and its host: a codec for
//! `Command` (host to panel) and `Report` (panel to host) messages and
//! incremental readers that rebuild messages from a byte stream split at
//! arbitrary points, within fixed-capacity buffers.
//!
//! Every message is a tag byte and then a payload of fixed length, or, for
//! `Report::Debug`, a length byte and that many bytes of UTF-8 text. Numbers
//! are big-endian. Commands: `A` power cycler (slot, state), `B` brightness
//! (target, value), `C` temperature (target, value), `D` LED (r, g, b, pulse).
//! Reports: `H` heartbeat, `V` dial value, `P` press, `L` long press, `X`
//! emergency off, `E` error (code), `D` debug (text).
//!
//! A reader does not skip bytes on its own after `MalformedMessage`: the byte
//! that cannot start a message stays at the front of its buffer, and the
//! caller decides whether to drop the connection or start a new reader.
//!
//! Beside the protocol stand the integer parts of the panel's drivers: the
//! button debouncers, the dial counter and the LED strip's bit patterns.
use vstd::prelude::*;

pub mod arrays;
pub mod button;
pub mod command;
pub mod counter;
pub mod debouncer;
pub mod frame;
pub mod report;
pub mod rgb_led;
pub mod stream;
pub mod reader;

pub use arrayvec::{ArrayString, ArrayVec};
pub use command::Command;
pub use report::Report;
pub use reader::{CommandReader, ReportReader};

verus! {

/// Capacity of a reader's buffer of undecoded bytes.
pub const MAX_SERIAL_MESSAGE_LEN: usize = 256;

/// Largest encoded `Command`.
pub const MAX_COMMAND_LEN: usize = 8;

/// Largest encoded `Report`.
pub const MAX_REPORT_LEN: usize = 256;

/// Largest UTF-8 payload of a `Report::Debug`, in bytes.
pub const MAX_DEBUG_MSG_LEN: usize = 254;

/// Most reports that one call of `ReportReader::process_bytes` hands out.
pub const MAX_REPORT_QUEUE_LEN: usize = 6;

/// Most commands that one call of `CommandReader::process_bytes` hands out.
pub const MAX_COMMAND_QUEUE_LEN: usize = 6;

/// Faults of a reader.
#[derive(Debug, Clone, Copy, PartialEq, Eq, Structural)]
pub enum Error {
    /// The new bytes do not fit beside the undecoded ones.
    BufferFull,
    /// The bytes at the front of the buffer cannot start a message.
    MalformedMessage,
}

} // verus!
