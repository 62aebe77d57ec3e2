//! Commands sent by the host to the panel, and their wire format.
use arrayvec::ArrayVec;
use vstd::prelude::*;

use crate::arrays::{short_bytes, short_new, short_push};
use crate::frame::{frame_outcome, Frame};
use crate::stream::self_delimiting;
use crate::{MAX_COMMAND_LEN, MAX_SERIAL_MESSAGE_LEN};

verus! {

/// Tag of `Command::PowerCycler` (`'A'`).
pub const POWER_CYCLER_TAG: u8 = 0x41;

/// Tag of `Command::Brightness` (`'B'`).
pub const BRIGHTNESS_TAG: u8 = 0x42;

/// Tag of `Command::Temperature` (`'C'`).
pub const TEMPERATURE_TAG: u8 = 0x43;

/// Tag of `Command::Led` (`'D'`).
pub const LED_TAG: u8 = 0x44;

/// A message from the host to the panel.
#[derive(Debug, Clone, Copy, PartialEq, Eq, Structural)]
pub enum Command {
    /// Switch the power of a slot on or off.
    PowerCycler { slot: u8, state: bool },
    /// Set the brightness of a light.
    Brightness { target: u8, value: u16 },
    /// Set the color temperature of a light.
    Temperature { target: u8, value: u16 },
    /// Set the color of the LED strip and whether it pulses.
    Led { r: u8, g: u8, b: u8, pulse: bool },
}

/// The 16-bit number whose big-endian bytes are `hi`, `lo`.
pub open spec fn be_u16(hi: u8, lo: u8) -> u16 {
    (hi as int * 256 + lo as int) as u16
}

/// The big-endian bytes of `v`.
pub open spec fn be_bytes(v: u16) -> Seq<u8> {
    seq![(v / 256) as u8, (v % 256) as u8]
}

/// A flag on the wire: 1 for `true`, 0 for `false`.
pub open spec fn flag_byte(b: bool) -> u8 {
    if b { 1 } else { 0 }
}

/// Whether `t` is the tag of some command.
pub open spec fn is_command_tag(t: u8) -> bool {
    t == POWER_CYCLER_TAG || t == BRIGHTNESS_TAG || t == TEMPERATURE_TAG || t == LED_TAG
}

/// The number of bytes that a command with tag `t` takes on the wire.
pub open spec fn command_len(t: u8) -> nat {
    if t == POWER_CYCLER_TAG {
        3
    } else if t == LED_TAG {
        5
    } else {
        4
    }
}

/// The encoding of a command: its tag, then its fields, numbers big-endian.
pub open spec fn command_bytes(c: Command) -> Seq<u8> {
    match c {
        Command::PowerCycler { slot, state } => seq![POWER_CYCLER_TAG, slot, flag_byte(state)],
        Command::Brightness { target, value } => seq![BRIGHTNESS_TAG, target] + be_bytes(value),
        Command::Temperature { target, value } => seq![TEMPERATURE_TAG, target] + be_bytes(value),
        Command::Led { r, g, b, pulse } => seq![LED_TAG, r, g, b, flag_byte(pulse)],
    }
}

/// The command that a complete frame with a known tag holds.
pub open spec fn command_at(b: Seq<u8>) -> Command {
    let t = b[0];
    if t == POWER_CYCLER_TAG {
        Command::PowerCycler { slot: b[1], state: b[2] != 0 }
    } else if t == BRIGHTNESS_TAG {
        Command::Brightness { target: b[1], value: be_u16(b[2], b[3]) }
    } else if t == TEMPERATURE_TAG {
        Command::Temperature { target: b[1], value: be_u16(b[2], b[3]) }
    } else {
        Command::Led { r: b[1], g: b[2], b: b[3], pulse: b[4] != 0 }
    }
}

/// Decoding a command from the front of `b`: malformed when the first byte is
/// no command tag, incomplete while fewer bytes than its tag asks for are there.
pub open spec fn command_frame(b: Seq<u8>) -> Frame<Command> {
    if b.len() == 0 {
        Frame::Incomplete
    } else if !is_command_tag(b[0]) {
        Frame::Malformed
    } else if b.len() < command_len(b[0]) {
        Frame::Incomplete
    } else {
        Frame::Complete(command_at(b), command_len(b[0]))
    }
}

/// `command_frame` as a function value.
pub open spec fn command_frames() -> spec_fn(Seq<u8>) -> Frame<Command> {
    |b: Seq<u8>| command_frame(b)
}

/// `command_bytes` as a function value.
pub open spec fn command_encoder() -> spec_fn(Command) -> Seq<u8> {
    |c: Command| command_bytes(c)
}

/// Every command can be built.
pub open spec fn any_command() -> spec_fn(Command) -> bool {
    |c: Command| true
}

/// Decoding the encoding of a command gives that command back and takes
/// exactly its encoding, whatever bytes follow it.
pub proof fn command_round_trip(c: Command, rest: Seq<u8>)
    ensures
        command_frame(command_bytes(c)) == Frame::Complete(c, command_bytes(c).len()),
        command_frame(command_bytes(c) + rest) == Frame::Complete(c, command_bytes(c).len()),
{
    let e = command_bytes(c);
    assert(e + Seq::<u8>::empty() =~= e);
    lemma_command_frame_ext(c, Seq::<u8>::empty());
    lemma_command_frame_ext(c, rest);
}

proof fn lemma_command_frame_ext(c: Command, rest: Seq<u8>)
    ensures
        command_frame(command_bytes(c) + rest) == Frame::Complete(c, command_bytes(c).len()),
{
    let b = command_bytes(c) + rest;
    match c {
        Command::PowerCycler { slot, state } => {
            assert(b[0] == POWER_CYCLER_TAG && b[1] == slot && b[2] == flag_byte(state));
        },
        Command::Brightness { target, value } => {
            assert(b[0] == BRIGHTNESS_TAG && b[1] == target);
            assert(b[2] == (value / 256) as u8 && b[3] == (value % 256) as u8);
            assert(be_u16(b[2], b[3]) == value);
        },
        Command::Temperature { target, value } => {
            assert(b[0] == TEMPERATURE_TAG && b[1] == target);
            assert(b[2] == (value / 256) as u8 && b[3] == (value % 256) as u8);
            assert(be_u16(b[2], b[3]) == value);
        },
        Command::Led { r, g, b: blue, pulse } => {
            assert(b[0] == LED_TAG && b[1] == r && b[2] == g && b[3] == blue);
            assert(b[4] == flag_byte(pulse));
        },
    }
}

proof fn lemma_command_frame_prefix(c: Command, i: int)
    requires
        0 <= i < command_bytes(c).len(),
    ensures
        command_frame(command_bytes(c).take(i)) == Frame::<Command>::Incomplete,
{
    let e = command_bytes(c);
    if i > 0 {
        assert(e.take(i)[0] == e[0]);
    }
}

/// Commands are self-delimiting on the wire.
pub proof fn lemma_commands_self_delimiting()
    ensures
        self_delimiting(command_frames(), command_encoder(), any_command()),
{
    assert forall|c: Command, ext: Seq<u8>| #[trigger]
        command_frames()(command_encoder()(c) + ext) == Frame::Complete(
            c,
            command_encoder()(c).len(),
        ) by {
        lemma_command_frame_ext(c, ext);
    }
    assert forall|c: Command, i: int| 0 <= i < command_encoder()(c).len() implies #[trigger]
        command_frames()(command_encoder()(c).take(i)) == Frame::<Command>::Incomplete by {
        lemma_command_frame_prefix(c, i);
    }
    assert forall|c: Command| #[trigger] any_command()(c) implies 0 < command_encoder()(c).len()
        <= MAX_SERIAL_MESSAGE_LEN by {}
}

impl Command {
    /// Decodes the command at the front of `buf`: `Ok(Some((command, n)))` when
    /// its first `n` bytes hold one, `Ok(None)` when more bytes are needed,
    /// `Err(())` when `buf` starts with a byte that is no command tag.
    pub fn try_from(buf: &[u8]) -> (r: Result<Option<(Command, usize)>, ()>)
        ensures
            r == frame_outcome(command_frame(buf@)),
    {
        if buf.len() == 0 {
            return Ok(None);
        }
        let tag = buf[0];
        if tag == POWER_CYCLER_TAG {
            if buf.len() < 3 {
                return Ok(None);
            }
            Ok(Some((Command::PowerCycler { slot: buf[1], state: buf[2] != 0 }, 3)))
        } else if tag == BRIGHTNESS_TAG {
            if buf.len() < 4 {
                return Ok(None);
            }
            let value = (buf[2] as u16) * 256 + buf[3] as u16;
            Ok(Some((Command::Brightness { target: buf[1], value }, 4)))
        } else if tag == TEMPERATURE_TAG {
            if buf.len() < 4 {
                return Ok(None);
            }
            let value = (buf[2] as u16) * 256 + buf[3] as u16;
            Ok(Some((Command::Temperature { target: buf[1], value }, 4)))
        } else if tag == LED_TAG {
            if buf.len() < 5 {
                return Ok(None);
            }
            Ok(Some((Command::Led { r: buf[1], g: buf[2], b: buf[3], pulse: buf[4] != 0 }, 5)))
        } else {
            Err(())
        }
    }

    /// The bytes of this command on the wire.
    pub fn as_arrayvec(&self) -> (r: ArrayVec<u8, MAX_COMMAND_LEN>)
        ensures
            short_bytes(r) == command_bytes(*self),
    {
        let mut buf = short_new();
        match *self {
            Command::PowerCycler { slot, state } => {
                short_push(&mut buf, POWER_CYCLER_TAG);
                short_push(&mut buf, slot);
                short_push(&mut buf, if state { 1 } else { 0 });
            },
            Command::Brightness { target, value } => {
                short_push(&mut buf, BRIGHTNESS_TAG);
                short_push(&mut buf, target);
                short_push(&mut buf, (value / 256) as u8);
                short_push(&mut buf, (value % 256) as u8);
            },
            Command::Temperature { target, value } => {
                short_push(&mut buf, TEMPERATURE_TAG);
                short_push(&mut buf, target);
                short_push(&mut buf, (value / 256) as u8);
                short_push(&mut buf, (value % 256) as u8);
            },
            Command::Led { r, g, b, pulse } => {
                short_push(&mut buf, LED_TAG);
                short_push(&mut buf, r);
                short_push(&mut buf, g);
                short_push(&mut buf, b);
                short_push(&mut buf, if pulse { 1 } else { 0 });
            },
        }
        assert(short_bytes(buf) =~= command_bytes(*self));
        buf
    }
}

} // verus!
