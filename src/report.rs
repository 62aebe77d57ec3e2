//! Reports sent by the panel to the host, and their wire format.
use arrayvec::{ArrayString, ArrayVec};
use vstd::prelude::*;
use vstd::slice::slice_subrange;
use vstd::string::StringSliceAdditionalSpecFns;
use vstd::utf8::{decode_utf8, encode_utf8, valid_utf8};

use crate::arrays::{debug_text, long_bytes, long_extend, long_new, long_push, text_from, text_str, utf8_str};
use crate::command::{be_bytes, be_u16};
use crate::frame::Frame;
use crate::stream::self_delimiting;
use crate::{MAX_DEBUG_MSG_LEN, MAX_REPORT_LEN, MAX_SERIAL_MESSAGE_LEN};

verus! {

/// Tag of `Report::Heartbeat` (`'H'`).
pub const HEARTBEAT_TAG: u8 = 0x48;

/// Tag of `Report::DialValue` (`'V'`).
pub const DIAL_VALUE_TAG: u8 = 0x56;

/// Tag of `Report::Press` (`'P'`).
pub const PRESS_TAG: u8 = 0x50;

/// Tag of `Report::LongPress` (`'L'`).
pub const LONG_PRESS_TAG: u8 = 0x4c;

/// Tag of `Report::EmergencyOff` (`'X'`).
pub const EMERGENCY_OFF_TAG: u8 = 0x58;

/// Tag of `Report::Error` (`'E'`).
pub const ERROR_TAG: u8 = 0x45;

/// Tag of `Report::Debug` (`'D'`).
pub const DEBUG_TAG: u8 = 0x44;

/// A message from the panel to the host.
#[derive(Debug, Clone, Copy, PartialEq, Eq)]
pub enum Report {
    /// The panel is alive.
    Heartbeat,
    /// The dial turned by `diff` steps.
    DialValue { diff: i8 },
    /// The button went down.
    Press,
    /// The button was held down.
    LongPress,
    /// The emergency switch was pulled.
    EmergencyOff,
    /// The panel met a fault with this code.
    Error { code: u16 },
    /// A line of text for whoever debugs the panel.
    Debug { message: ArrayString<MAX_DEBUG_MSG_LEN> },
}

/// A report as a value: the text of a `Debug` report as its characters.
pub enum ReportView {
    Heartbeat,
    DialValue { diff: i8 },
    Press,
    LongPress,
    EmergencyOff,
    Error { code: u16 },
    Debug { message: Seq<char> },
}

impl View for Report {
    type V = ReportView;

    open spec fn view(&self) -> ReportView {
        match *self {
            Report::Heartbeat => ReportView::Heartbeat,
            Report::DialValue { diff } => ReportView::DialValue { diff },
            Report::Press => ReportView::Press,
            Report::LongPress => ReportView::LongPress,
            Report::EmergencyOff => ReportView::EmergencyOff,
            Report::Error { code } => ReportView::Error { code },
            Report::Debug { message } => ReportView::Debug { message: debug_text(message) },
        }
    }
}

/// The two's-complement byte of `d`.
pub open spec fn i8_byte(d: i8) -> u8 {
    if d >= 0 { d as u8 } else { (d + 256) as u8 }
}

/// The signed number whose two's-complement byte is `b`.
pub open spec fn byte_i8(b: u8) -> i8 {
    if b < 128 { b as i8 } else { (b - 256) as i8 }
}

/// A report that can be built: the text of a `Debug` report fits its capacity.
pub open spec fn report_wf(v: ReportView) -> bool {
    match v {
        ReportView::Debug { message } => encode_utf8(message).len() <= MAX_DEBUG_MSG_LEN,
        _ => true,
    }
}

/// The encoding of a report: its tag, then its fields, numbers big-endian; the
/// text of a `Debug` report as its length in bytes, then its UTF-8 bytes.
pub open spec fn report_bytes(v: ReportView) -> Seq<u8> {
    match v {
        ReportView::Heartbeat => seq![HEARTBEAT_TAG],
        ReportView::DialValue { diff } => seq![DIAL_VALUE_TAG, i8_byte(diff)],
        ReportView::Press => seq![PRESS_TAG],
        ReportView::LongPress => seq![LONG_PRESS_TAG],
        ReportView::EmergencyOff => seq![EMERGENCY_OFF_TAG],
        ReportView::Error { code } => seq![ERROR_TAG] + be_bytes(code),
        ReportView::Debug { message } => seq![DEBUG_TAG, encode_utf8(message).len() as u8]
            + encode_utf8(message),
    }
}

/// Whether `t` is the tag of some report.
pub open spec fn is_report_tag(t: u8) -> bool {
    t == HEARTBEAT_TAG || t == DIAL_VALUE_TAG || t == PRESS_TAG || t == LONG_PRESS_TAG || t
        == EMERGENCY_OFF_TAG || t == ERROR_TAG || t == DEBUG_TAG
}

/// The number of bytes that a report with tag `t`, other than `Debug`, takes.
pub open spec fn fixed_report_len(t: u8) -> nat {
    if t == DIAL_VALUE_TAG {
        2
    } else if t == ERROR_TAG {
        3
    } else {
        1
    }
}

/// The report that a complete frame with a known tag other than `Debug` holds.
pub open spec fn fixed_report_at(b: Seq<u8>) -> ReportView {
    let t = b[0];
    if t == HEARTBEAT_TAG {
        ReportView::Heartbeat
    } else if t == DIAL_VALUE_TAG {
        ReportView::DialValue { diff: byte_i8(b[1]) }
    } else if t == PRESS_TAG {
        ReportView::Press
    } else if t == LONG_PRESS_TAG {
        ReportView::LongPress
    } else if t == EMERGENCY_OFF_TAG {
        ReportView::EmergencyOff
    } else {
        ReportView::Error { code: be_u16(b[1], b[2]) }
    }
}

/// Decoding a report from the front of `b`. Malformed when the first byte is no
/// report tag, and for a `Debug` report whose length byte exceeds the text
/// capacity or whose text is not valid UTF-8; incomplete while fewer bytes than
/// the tag and the length byte ask for are there.
pub open spec fn report_frame(b: Seq<u8>) -> Frame<ReportView> {
    if b.len() == 0 {
        Frame::Incomplete
    } else if !is_report_tag(b[0]) {
        Frame::Malformed
    } else if b[0] == DEBUG_TAG {
        if b.len() < 2 {
            Frame::Incomplete
        } else if b[1] > MAX_DEBUG_MSG_LEN {
            Frame::Malformed
        } else if b.len() < 2 + b[1] {
            Frame::Incomplete
        } else {
            let text = b.subrange(2, 2 + b[1]);
            if valid_utf8(text) {
                Frame::Complete(ReportView::Debug { message: decode_utf8(text) }, (2 + b[1]) as nat)
            } else {
                Frame::Malformed
            }
        }
    } else if b.len() < fixed_report_len(b[0]) {
        Frame::Incomplete
    } else {
        Frame::Complete(fixed_report_at(b), fixed_report_len(b[0]))
    }
}

/// Whether a decoder's answer `r` reports the frame `f`, reports compared by
/// their views.
pub open spec fn report_outcome(r: Result<Option<(Report, usize)>, ()>, f: Frame<ReportView>) -> bool {
    match f {
        Frame::Incomplete => r == Ok::<Option<(Report, usize)>, ()>(None),
        Frame::Complete(v, n) => r matches Ok(Some((m, k))) && m@ == v && k == n,
        Frame::Malformed => r is Err,
    }
}

/// `report_frame` as a function value.
pub open spec fn report_frames() -> spec_fn(Seq<u8>) -> Frame<ReportView> {
    |b: Seq<u8>| report_frame(b)
}

/// `report_bytes` as a function value.
pub open spec fn report_encoder() -> spec_fn(ReportView) -> Seq<u8> {
    |v: ReportView| report_bytes(v)
}

/// `report_wf` as a function value.
pub open spec fn buildable_report() -> spec_fn(ReportView) -> bool {
    |v: ReportView| report_wf(v)
}

/// Decoding the encoding of a report that can be built gives that report back
/// and takes exactly its encoding, whatever bytes follow it.
pub proof fn report_round_trip(v: ReportView, rest: Seq<u8>)
    requires
        report_wf(v),
    ensures
        report_frame(report_bytes(v)) == Frame::Complete(v, report_bytes(v).len()),
        report_frame(report_bytes(v) + rest) == Frame::Complete(v, report_bytes(v).len()),
{
    let e = report_bytes(v);
    assert(e + Seq::<u8>::empty() =~= e);
    lemma_report_frame_ext(v, Seq::<u8>::empty());
    lemma_report_frame_ext(v, rest);
}

proof fn lemma_report_frame_ext(v: ReportView, rest: Seq<u8>)
    requires
        report_wf(v),
    ensures
        report_frame(report_bytes(v) + rest) == Frame::Complete(v, report_bytes(v).len()),
{
    let b = report_bytes(v) + rest;
    match v {
        ReportView::DialValue { diff } => {
            assert(b[0] == DIAL_VALUE_TAG && b[1] == i8_byte(diff));
            assert(byte_i8(i8_byte(diff)) == diff);
        },
        ReportView::Error { code } => {
            assert(b[0] == ERROR_TAG);
            assert(b[1] == (code / 256) as u8 && b[2] == (code % 256) as u8);
            assert(be_u16(b[1], b[2]) == code);
        },
        ReportView::Debug { message } => {
            let text = encode_utf8(message);
            assert(b[0] == DEBUG_TAG && b[1] == text.len());
            assert(b.subrange(2, 2 + b[1]) =~= text);
            vstd::utf8::encode_utf8_valid_utf8(message);
            vstd::utf8::encode_utf8_decode_utf8(message);
        },
        _ => {
            assert(b[0] == report_bytes(v)[0]);
        },
    }
}

proof fn lemma_report_frame_prefix(v: ReportView, i: int)
    requires
        report_wf(v),
        0 <= i < report_bytes(v).len(),
    ensures
        report_frame(report_bytes(v).take(i)) == Frame::<ReportView>::Incomplete,
{
    let e = report_bytes(v);
    if i > 0 {
        assert(e.take(i)[0] == e[0]);
        if i > 1 {
            assert(e.take(i)[1] == e[1]);
        }
    }
}

/// Reports that can be built are self-delimiting on the wire.
pub proof fn lemma_reports_self_delimiting()
    ensures
        self_delimiting(report_frames(), report_encoder(), buildable_report()),
{
    assert forall|v: ReportView, ext: Seq<u8>| buildable_report()(v) implies #[trigger]
        report_frames()(report_encoder()(v) + ext) == Frame::Complete(
            v,
            report_encoder()(v).len(),
        ) by {
        lemma_report_frame_ext(v, ext);
    }
    assert forall|v: ReportView, i: int|
        buildable_report()(v) && 0 <= i < report_encoder()(v).len() implies #[trigger]
        report_frames()(report_encoder()(v).take(i)) == Frame::<ReportView>::Incomplete by {
        lemma_report_frame_prefix(v, i);
    }
    assert forall|v: ReportView| #[trigger] buildable_report()(v) implies 0 < report_encoder()(
        v,
    ).len() <= MAX_SERIAL_MESSAGE_LEN by {}
}

impl Report {
    /// Decodes the report at the front of `buf`: `Ok(Some((report, n)))` when
    /// its first `n` bytes hold one, `Ok(None)` when more bytes are needed,
    /// `Err(())` when they cannot start a report.
    pub fn try_from(buf: &[u8]) -> (r: Result<Option<(Report, usize)>, ()>)
        ensures
            report_outcome(r, report_frame(buf@)),
    {
        if buf.len() == 0 {
            return Ok(None);
        }
        let tag = buf[0];
        if tag == HEARTBEAT_TAG {
            Ok(Some((Report::Heartbeat, 1)))
        } else if tag == DIAL_VALUE_TAG {
            if buf.len() < 2 {
                return Ok(None);
            }
            let b = buf[1];
            let diff: i8 = if b < 128 { b as i8 } else { (b as i16 - 256) as i8 };
            Ok(Some((Report::DialValue { diff }, 2)))
        } else if tag == PRESS_TAG {
            Ok(Some((Report::Press, 1)))
        } else if tag == LONG_PRESS_TAG {
            Ok(Some((Report::LongPress, 1)))
        } else if tag == EMERGENCY_OFF_TAG {
            Ok(Some((Report::EmergencyOff, 1)))
        } else if tag == ERROR_TAG {
            if buf.len() < 3 {
                return Ok(None);
            }
            let code = (buf[1] as u16) * 256 + buf[2] as u16;
            Ok(Some((Report::Error { code }, 3)))
        } else if tag == DEBUG_TAG {
            if buf.len() < 2 {
                return Ok(None);
            }
            let len = buf[1] as usize;
            if len > MAX_DEBUG_MSG_LEN {
                return Err(());
            }
            if buf.len() < 2 + len {
                return Ok(None);
            }
            let text = slice_subrange(buf, 2, 2 + len);
            match utf8_str(text) {
                None => Err(()),
                Some(s) => {
                    proof {
                        vstd::utf8::encode_utf8_decode_utf8(s@);
                    }
                    match text_from(s) {
                        Some(message) => Ok(Some((Report::Debug { message }, 2 + len))),
                        None => Err(()),
                    }
                },
            }
        } else {
            Err(())
        }
    }

    /// The bytes of this report on the wire.
    pub fn as_arrayvec(&self) -> (r: ArrayVec<u8, MAX_REPORT_LEN>)
        ensures
            long_bytes(r) == report_bytes(self@),
    {
        let mut buf = long_new();
        match *self {
            Report::Heartbeat => {
                long_push(&mut buf, HEARTBEAT_TAG);
            },
            Report::DialValue { diff } => {
                long_push(&mut buf, DIAL_VALUE_TAG);
                let b: u8 = if diff >= 0 { diff as u8 } else { (diff as i16 + 256) as u8 };
                long_push(&mut buf, b);
            },
            Report::Press => {
                long_push(&mut buf, PRESS_TAG);
            },
            Report::LongPress => {
                long_push(&mut buf, LONG_PRESS_TAG);
            },
            Report::EmergencyOff => {
                long_push(&mut buf, EMERGENCY_OFF_TAG);
            },
            Report::Error { code } => {
                long_push(&mut buf, ERROR_TAG);
                long_push(&mut buf, (code / 256) as u8);
                long_push(&mut buf, (code % 256) as u8);
            },
            Report::Debug { message } => {
                let text = text_str(&message).as_bytes();
                long_push(&mut buf, DEBUG_TAG);
                long_push(&mut buf, text.len() as u8);
                let fits = long_extend(&mut buf, text);
                assert(fits);
            },
        }
        assert(long_bytes(buf) =~= report_bytes(self@));
        buf
    }
}

} // verus!
