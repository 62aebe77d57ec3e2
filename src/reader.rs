//! Incremental readers: they gather bytes as they arrive, in a buffer of fixed
//! capacity, and hand out the messages that are complete.
use arrayvec::ArrayVec;
use vstd::prelude::*;

use crate::arrays::{
    command_items, command_queue_new, command_queue_push, long_bytes, long_drain_front,
    long_extend, long_new, long_push, long_slice, report_items, report_queue_new, report_queue_push,
};
use crate::command::{
    any_command, command_frame, command_bytes, command_encoder, command_frames, is_command_tag,
    lemma_commands_self_delimiting, Command,
};
use crate::report::{
    buildable_report, is_report_tag, lemma_reports_self_delimiting, report_bytes, report_encoder,
    report_frames, report_wf, Report, ReportView,
};
use crate::frame::Frame;
use crate::stream::{feed, feed_all, lemma_feed_pieces, lemma_scan_wire, scan, wire, Fed};
use crate::{Error, MAX_COMMAND_QUEUE_LEN, MAX_REPORT_QUEUE_LEN, MAX_SERIAL_MESSAGE_LEN};

verus! {

/// One call of a command reader whose buffer holds `buf`, handed `bytes`.
pub open spec fn command_feed(buf: Seq<u8>, bytes: Seq<u8>) -> Fed<Command> {
    feed(command_frames(), MAX_COMMAND_QUEUE_LEN as nat, buf, bytes)
}

/// One call of a report reader whose buffer holds `buf`, handed `bytes`.
pub open spec fn report_feed(buf: Seq<u8>, bytes: Seq<u8>) -> Fed<ReportView> {
    feed(report_frames(), MAX_REPORT_QUEUE_LEN as nat, buf, bytes)
}

/// Whether `r` is the answer `out`: the same commands in order, or the same fault.
pub open spec fn answers_commands(
    r: Result<ArrayVec<Command, MAX_COMMAND_QUEUE_LEN>, Error>,
    out: Result<Seq<Command>, Error>,
) -> bool {
    match out {
        Ok(items) => r matches Ok(q) && command_items(q) == items,
        Err(e) => r matches Err(f) && f == e,
    }
}

/// Whether `r` is the answer `out`: reports whose views are those, in order, or
/// the same fault.
pub open spec fn answers_reports(
    r: Result<ArrayVec<Report, MAX_REPORT_QUEUE_LEN>, Error>,
    out: Result<Seq<ReportView>, Error>,
) -> bool {
    match out {
        Ok(items) => r matches Ok(q) && report_items(q).map_values(|m: Report| m@) == items,
        Err(e) => r matches Err(f) && f == e,
    }
}

/// What a command reader whose buffer holds `buf` answers when handed one
/// byte alone, and its buffer afterwards: `BufferFull` when the buffer is
/// full; otherwise the byte is appended and at most one command is decoded
/// from the front.
pub open spec fn command_step(buf: Seq<u8>, byte: u8) -> (Result<Option<Command>, Error>, Seq<u8>) {
    if buf.len() >= MAX_SERIAL_MESSAGE_LEN {
        (Err(Error::BufferFull), buf)
    } else {
        let b = buf.push(byte);
        match command_frame(b) {
            Frame::Complete(c, n) => (Ok(Some(c)), b.skip(n as int)),
            Frame::Incomplete => (Ok(None), b),
            Frame::Malformed => (Err(Error::MalformedMessage), b),
        }
    }
}

/// Gathers the bytes that the host sends and hands out the commands in them.
pub struct CommandReader {
    buf: ArrayVec<u8, MAX_SERIAL_MESSAGE_LEN>,
}

impl View for CommandReader {
    type V = Seq<u8>;

    /// The bytes received and not yet decoded, in order.
    closed spec fn view(&self) -> Seq<u8> {
        long_bytes(self.buf)
    }
}

impl CommandReader {
    /// A reader with nothing received.
    pub fn new() -> (r: Self)
        ensures
            r@ == Seq::<u8>::empty(),
    {
        Self { buf: long_new() }
    }

    /// Appends `bytes` to the undecoded bytes and hands out the commands that
    /// are then complete at the front, in order, removing their bytes; it stops
    /// at an incomplete command or once `MAX_COMMAND_QUEUE_LEN` are out, leaving
    /// the rest for later calls (unless the rest starts with a byte that is no
    /// command tag, which is then malformed at once). `BufferFull`, with nothing changed, when the
    /// bytes do not fit; `MalformedMessage` when a command would start with a
    /// byte that is no command tag, which then stays at the front, while the
    /// commands decoded before it in this call are dropped.
    pub fn process_bytes(&mut self, bytes: &[u8]) -> (r: Result<
        ArrayVec<Command, MAX_COMMAND_QUEUE_LEN>,
        Error,
    >)
        ensures
            answers_commands(r, command_feed(old(self)@, bytes@).out),
            final(self)@ == command_feed(old(self)@, bytes@).buf,
            old(self)@.len() + bytes@.len() > MAX_SERIAL_MESSAGE_LEN ==> (r matches Err(
                Error::BufferFull,
            ) && final(self)@ == old(self)@),
    {
        if !long_extend(&mut self.buf, bytes) {
            return Err(Error::BufferFull);
        }
        let ghost total = long_bytes(self.buf);
        let ghost whole = scan(command_frames(), total, MAX_COMMAND_QUEUE_LEN as nat);
        let mut output = command_queue_new();
        let mut count: usize = 0;
        loop
            invariant
                total == old(self)@ + bytes@,
                total.len() <= MAX_SERIAL_MESSAGE_LEN,
                whole == scan(command_frames(), total, MAX_COMMAND_QUEUE_LEN as nat),
                count <= MAX_COMMAND_QUEUE_LEN,
                command_items(output).len() == count,
                command_items(output) + scan(
                    command_frames(),
                    long_bytes(self.buf),
                    (MAX_COMMAND_QUEUE_LEN - count) as nat,
                ).items == whole.items,
                scan(
                    command_frames(),
                    long_bytes(self.buf),
                    (MAX_COMMAND_QUEUE_LEN - count) as nat,
                ).rest == whole.rest,
                scan(
                    command_frames(),
                    long_bytes(self.buf),
                    (MAX_COMMAND_QUEUE_LEN - count) as nat,
                ).malformed == whole.malformed,
            ensures
                command_items(output) == whole.items,
                long_bytes(self.buf) == whole.rest,
                !whole.malformed,
            decreases MAX_COMMAND_QUEUE_LEN - count,
        {
            let ghost before = long_bytes(self.buf);
            let ghost room = (MAX_COMMAND_QUEUE_LEN - count) as nat;
            if count == MAX_COMMAND_QUEUE_LEN {
                if Command::try_from(long_slice(&self.buf)).is_err() {
                    return Err(Error::MalformedMessage);
                }
                assert(command_items(output) + Seq::<Command>::empty() =~= command_items(output));
                break;
            }
            match Command::try_from(long_slice(&self.buf)) {
                Ok(Some((command, n))) => {
                    long_drain_front(&mut self.buf, n);
                    let ghost s = scan(command_frames(), long_bytes(self.buf), (room - 1) as nat);
                    assert(scan(command_frames(), before, room).items == seq![command] + s.items);
                    command_queue_push(&mut output, command);
                    assert(command_items(output) + s.items =~= (command_items(output).drop_last()
                        + seq![command]) + s.items);
                    count = count + 1;
                },
                Ok(None) => {
                    assert(command_items(output) + Seq::<Command>::empty() =~= command_items(output));
                    break;
                },
                Err(()) => {
                    assert(command_frames()(before) == Frame::<Command>::Malformed);
                    assert(scan(command_frames(), before, room).malformed);
                    assert(scan(command_frames(), before, room).rest == before);
                    return Err(Error::MalformedMessage);
                },
            }
        }
        Ok(output)
    }
}

impl CommandReader {
    /// Appends one byte and decodes at most one command from the front, as
    /// `command_step` says.
    pub fn process_byte(&mut self, byte: u8) -> (r: Result<Option<Command>, Error>)
        ensures
            r == command_step(old(self)@, byte).0,
            final(self)@ == command_step(old(self)@, byte).1,
    {
        if long_slice(&self.buf).len() >= MAX_SERIAL_MESSAGE_LEN {
            return Err(Error::BufferFull);
        }
        long_push(&mut self.buf, byte);
        match Command::try_from(long_slice(&self.buf)) {
            Ok(Some((command, n))) => {
                long_drain_front(&mut self.buf, n);
                Ok(Some(command))
            },
            Ok(None) => Ok(None),
            Err(()) => Err(Error::MalformedMessage),
        }
    }
}

impl Default for CommandReader {
    fn default() -> (r: Self)
        ensures
            r@ == Seq::<u8>::empty(),
    {
        Self::new()
    }
}

/// Gathers the bytes that the panel sends and hands out the reports in them.
pub struct ReportReader {
    /// The bytes received and not yet decoded, in order.
    pub buf: ArrayVec<u8, MAX_SERIAL_MESSAGE_LEN>,
}

impl View for ReportReader {
    type V = Seq<u8>;

    open spec fn view(&self) -> Seq<u8> {
        long_bytes(self.buf)
    }
}

impl ReportReader {
    /// A reader with nothing received.
    pub fn new() -> (r: Self)
        ensures
            r@ == Seq::<u8>::empty(),
    {
        Self { buf: long_new() }
    }

    /// Appends `bytes` to the undecoded bytes and hands out the reports that
    /// are then complete at the front, in order, removing their bytes; it stops
    /// at an incomplete report or once `MAX_REPORT_QUEUE_LEN` are out, leaving
    /// the rest for later calls (unless the rest cannot start a report, which
    /// is then malformed at once). `BufferFull`, with nothing changed, when the
    /// bytes do not fit; `MalformedMessage` when the front cannot start a
    /// report, which then stays at the front, while the reports decoded before
    /// it in this call are dropped.
    pub fn process_bytes(&mut self, bytes: &[u8]) -> (r: Result<
        ArrayVec<Report, MAX_REPORT_QUEUE_LEN>,
        Error,
    >)
        ensures
            answers_reports(r, report_feed(old(self)@, bytes@).out),
            final(self)@ == report_feed(old(self)@, bytes@).buf,
            old(self)@.len() + bytes@.len() > MAX_SERIAL_MESSAGE_LEN ==> (r matches Err(
                Error::BufferFull,
            ) && final(self)@ == old(self)@),
    {
        if !long_extend(&mut self.buf, bytes) {
            return Err(Error::BufferFull);
        }
        let ghost total = long_bytes(self.buf);
        let ghost whole = scan(report_frames(), total, MAX_REPORT_QUEUE_LEN as nat);
        let mut output = report_queue_new();
        let mut count: usize = 0;
        loop
            invariant
                total == old(self)@ + bytes@,
                total.len() <= MAX_SERIAL_MESSAGE_LEN,
                whole == scan(report_frames(), total, MAX_REPORT_QUEUE_LEN as nat),
                count <= MAX_REPORT_QUEUE_LEN,
                report_items(output).len() == count,
                report_items(output).map_values(|m: Report| m@) + scan(
                    report_frames(),
                    long_bytes(self.buf),
                    (MAX_REPORT_QUEUE_LEN - count) as nat,
                ).items == whole.items,
                scan(
                    report_frames(),
                    long_bytes(self.buf),
                    (MAX_REPORT_QUEUE_LEN - count) as nat,
                ).rest == whole.rest,
                scan(
                    report_frames(),
                    long_bytes(self.buf),
                    (MAX_REPORT_QUEUE_LEN - count) as nat,
                ).malformed == whole.malformed,
            ensures
                report_items(output).map_values(|m: Report| m@) == whole.items,
                long_bytes(self.buf) == whole.rest,
                !whole.malformed,
            decreases MAX_REPORT_QUEUE_LEN - count,
        {
            let ghost before = long_bytes(self.buf);
            let ghost room = (MAX_REPORT_QUEUE_LEN - count) as nat;
            let ghost shown = report_items(output).map_values(|m: Report| m@);
            if count == MAX_REPORT_QUEUE_LEN {
                if Report::try_from(long_slice(&self.buf)).is_err() {
                    return Err(Error::MalformedMessage);
                }
                assert(shown + Seq::<ReportView>::empty() =~= shown);
                break;
            }
            match Report::try_from(long_slice(&self.buf)) {
                Ok(Some((report, n))) => {
                    long_drain_front(&mut self.buf, n);
                    let ghost s = scan(report_frames(), long_bytes(self.buf), (room - 1) as nat);
                    assert(scan(report_frames(), before, room).items == seq![report@] + s.items);
                    report_queue_push(&mut output, report);
                    assert(report_items(output).map_values(|m: Report| m@) =~= shown.push(
                        report@,
                    ));
                    assert(shown.push(report@) + s.items =~= shown + (seq![report@] + s.items));
                    count = count + 1;
                },
                Ok(None) => {
                    assert(shown + Seq::<ReportView>::empty() =~= shown);
                    break;
                },
                Err(()) => {
                    assert(report_frames()(before) == Frame::<ReportView>::Malformed);
                    assert(scan(report_frames(), before, room).malformed);
                    assert(scan(report_frames(), before, room).rest == before);
                    return Err(Error::MalformedMessage);
                },
            }
        }
        Ok(output)
    }
}

impl Default for ReportReader {
    fn default() -> (r: Self)
        ensures
            r@ == Seq::<u8>::empty(),
    {
        Self::new()
    }
}

/// Successive calls of `CommandReader::process_bytes`, one per piece and any
/// number of them, starting from a buffer that holds `buf`: each call is
/// `command_feed`, as that function's contract says.
pub open spec fn command_feed_all(buf: Seq<u8>, pieces: Seq<Seq<u8>>) -> Fed<Command> {
    feed_all(command_frames(), MAX_COMMAND_QUEUE_LEN as nat, buf, pieces)
}

/// Successive calls of `ReportReader::process_bytes`, one per piece and any
/// number of them, starting from a buffer that holds `buf`: each call is
/// `report_feed`, as that function's contract says.
pub open spec fn report_feed_all(buf: Seq<u8>, pieces: Seq<Seq<u8>>) -> Fed<ReportView> {
    feed_all(report_frames(), MAX_REPORT_QUEUE_LEN as nat, buf, pieces)
}

/// The encodings of `msgs`, one after the other.
pub open spec fn command_wire(msgs: Seq<Command>) -> Seq<u8> {
    wire(command_encoder(), msgs)
}

/// The encodings of `msgs`, one after the other.
pub open spec fn report_wire(msgs: Seq<ReportView>) -> Seq<u8> {
    wire(report_encoder(), msgs)
}

/// The encodings of some commands, cut into pieces at any points and fed to a
/// new reader one piece per call, come out as those commands in order, as they
/// do when fed in one call, and leave nothing behind; so long as they fit one
/// buffer and one answer.
pub proof fn command_fragmentation(msgs: Seq<Command>, pieces: Seq<Seq<u8>>)
    requires
        pieces.flatten() == command_wire(msgs),
        msgs.len() <= MAX_COMMAND_QUEUE_LEN,
        command_wire(msgs).len() <= MAX_SERIAL_MESSAGE_LEN,
    ensures
        command_feed_all(Seq::empty(), pieces) == (Fed {
            out: Ok(msgs),
            buf: Seq::<u8>::empty(),
        }),
        command_feed(Seq::empty(), command_wire(msgs)) == (Fed {
            out: Ok(msgs),
            buf: Seq::<u8>::empty(),
        }),
{
    lemma_commands_self_delimiting();
    let empty = Seq::<u8>::empty();
    assert(empty + pieces.flatten() =~= pieces.flatten());
    lemma_feed_pieces(
        command_frames(),
        command_encoder(),
        any_command(),
        MAX_COMMAND_QUEUE_LEN as nat,
        msgs,
        empty,
        pieces,
    );
    lemma_scan_wire(
        command_frames(),
        command_encoder(),
        any_command(),
        msgs,
        empty,
        MAX_COMMAND_QUEUE_LEN as nat,
    );
    assert(empty + command_wire(msgs) =~= command_wire(msgs) + empty);
}

/// The encodings of some reports that can be built, cut into pieces at any
/// points and fed to a new reader one piece per call, come out as those reports
/// in order, as they do when fed in one call, and leave nothing behind; so long
/// as they fit one buffer and one answer.
pub proof fn report_fragmentation(msgs: Seq<ReportView>, pieces: Seq<Seq<u8>>)
    requires
        forall|i: int| 0 <= i < msgs.len() ==> report_wf(#[trigger] msgs[i]),
        pieces.flatten() == report_wire(msgs),
        msgs.len() <= MAX_REPORT_QUEUE_LEN,
        report_wire(msgs).len() <= MAX_SERIAL_MESSAGE_LEN,
    ensures
        report_feed_all(Seq::empty(), pieces) == (Fed {
            out: Ok(msgs),
            buf: Seq::<u8>::empty(),
        }),
        report_feed(Seq::empty(), report_wire(msgs)) == (Fed {
            out: Ok(msgs),
            buf: Seq::<u8>::empty(),
        }),
{
    lemma_reports_self_delimiting();
    assert forall|i: int| 0 <= i < msgs.len() implies #[trigger] buildable_report()(msgs[i]) by {}
    let empty = Seq::<u8>::empty();
    assert(empty + pieces.flatten() =~= pieces.flatten());
    lemma_feed_pieces(
        report_frames(),
        report_encoder(),
        buildable_report(),
        MAX_REPORT_QUEUE_LEN as nat,
        msgs,
        empty,
        pieces,
    );
    lemma_scan_wire(
        report_frames(),
        report_encoder(),
        buildable_report(),
        msgs,
        empty,
        MAX_REPORT_QUEUE_LEN as nat,
    );
    assert(empty + report_wire(msgs) =~= report_wire(msgs) + empty);
}

/// A command without its last byte, fed to a new reader, gives no command and
/// no fault; the last byte then gives exactly that command.
pub proof fn command_incomplete_tail(c: Command)
    ensures
        command_feed(Seq::empty(), command_bytes(c).drop_last()) == (Fed {
            out: Ok(Seq::<Command>::empty()),
            buf: command_bytes(c).drop_last(),
        }),
        command_feed(command_bytes(c).drop_last(), seq![command_bytes(c).last()]) == (Fed {
            out: Ok(seq![c]),
            buf: Seq::<u8>::empty(),
        }),
{
    lemma_commands_self_delimiting();
    let e = command_bytes(c);
    let head = e.drop_last();
    let empty = Seq::<u8>::empty();
    assert(any_command()(c));
    assert(head =~= e.take(e.len() - 1));
    assert(command_frames()(e.take(e.len() - 1)) == Frame::<Command>::Incomplete);
    assert(wire(command_encoder(), Seq::<Command>::empty()) =~= empty);
    assert(empty + head =~= wire(command_encoder(), Seq::<Command>::empty()) + head);
    lemma_scan_wire(
        command_frames(),
        command_encoder(),
        any_command(),
        Seq::<Command>::empty(),
        head,
        MAX_COMMAND_QUEUE_LEN as nat,
    );
    let one = seq![c];
    assert(one.drop_first() =~= Seq::<Command>::empty());
    assert(wire(command_encoder(), one) =~= e);
    assert(head + seq![e.last()] =~= wire(command_encoder(), one) + empty);
    lemma_scan_wire(
        command_frames(),
        command_encoder(),
        any_command(),
        one,
        empty,
        MAX_COMMAND_QUEUE_LEN as nat,
    );
}

/// A report that can be built, without its last byte, fed to a new reader,
/// gives no report and no fault; the last byte then gives exactly that report.
pub proof fn report_incomplete_tail(v: ReportView)
    requires
        report_wf(v),
    ensures
        report_feed(Seq::empty(), report_bytes(v).drop_last()) == (Fed {
            out: Ok(Seq::<ReportView>::empty()),
            buf: report_bytes(v).drop_last(),
        }),
        report_feed(report_bytes(v).drop_last(), seq![report_bytes(v).last()]) == (Fed {
            out: Ok(seq![v]),
            buf: Seq::<u8>::empty(),
        }),
{
    lemma_reports_self_delimiting();
    let e = report_bytes(v);
    let head = e.drop_last();
    let empty = Seq::<u8>::empty();
    assert(buildable_report()(v));
    assert(head =~= e.take(e.len() - 1));
    assert(report_frames()(e.take(e.len() - 1)) == Frame::<ReportView>::Incomplete);
    assert(wire(report_encoder(), Seq::<ReportView>::empty()) =~= empty);
    assert(empty + head =~= wire(report_encoder(), Seq::<ReportView>::empty()) + head);
    lemma_scan_wire(
        report_frames(),
        report_encoder(),
        buildable_report(),
        Seq::<ReportView>::empty(),
        head,
        MAX_REPORT_QUEUE_LEN as nat,
    );
    let one = seq![v];
    assert(one.drop_first() =~= Seq::<ReportView>::empty());
    assert(wire(report_encoder(), one) =~= e);
    assert(head + seq![e.last()] =~= wire(report_encoder(), one) + empty);
    lemma_scan_wire(
        report_frames(),
        report_encoder(),
        buildable_report(),
        one,
        empty,
        MAX_REPORT_QUEUE_LEN as nat,
    );
}

/// A byte that is no command tag, fed to a new reader right after at most
/// `MAX_COMMAND_QUEUE_LEN` whole commands, gives `MalformedMessage` in that same call,
/// with none of those commands handed out, and stays at the front of the
/// buffer, whatever follows it.
pub proof fn command_unknown_tag(msgs: Seq<Command>, tag: u8, rest: Seq<u8>)
    requires
        !is_command_tag(tag),
        msgs.len() <= MAX_COMMAND_QUEUE_LEN,
        command_wire(msgs).len() + 1 + rest.len() <= MAX_SERIAL_MESSAGE_LEN,
    ensures
        command_feed(Seq::empty(), command_wire(msgs) + (seq![tag] + rest)) == (Fed::<Command> {
            out: Err(Error::MalformedMessage),
            buf: seq![tag] + rest,
        }),
{
    lemma_commands_self_delimiting();
    let t = seq![tag] + rest;
    assert(t[0] == tag);
    assert forall|i: int| 0 <= i < msgs.len() implies #[trigger] any_command()(msgs[i]) by {}
    lemma_scan_wire(command_frames(), command_encoder(), any_command(), msgs, t, MAX_COMMAND_QUEUE_LEN as nat);
    assert(Seq::<u8>::empty() + (command_wire(msgs) + t) =~= command_wire(msgs) + t);
}

/// A byte that is no report tag, fed to a new reader right after at most
/// `MAX_REPORT_QUEUE_LEN` whole reports, gives `MalformedMessage` in that same call,
/// with none of those reports handed out, and stays at the front of the
/// buffer, whatever follows it.
pub proof fn report_unknown_tag(msgs: Seq<ReportView>, tag: u8, rest: Seq<u8>)
    requires
        forall|i: int| 0 <= i < msgs.len() ==> report_wf(#[trigger] msgs[i]),
        !is_report_tag(tag),
        msgs.len() <= MAX_REPORT_QUEUE_LEN,
        report_wire(msgs).len() + 1 + rest.len() <= MAX_SERIAL_MESSAGE_LEN,
    ensures
        report_feed(Seq::empty(), report_wire(msgs) + (seq![tag] + rest)) == (Fed::<ReportView> {
            out: Err(Error::MalformedMessage),
            buf: seq![tag] + rest,
        }),
{
    lemma_reports_self_delimiting();
    let t = seq![tag] + rest;
    assert(t[0] == tag);
    assert forall|i: int| 0 <= i < msgs.len() implies #[trigger] buildable_report()(msgs[i]) by {}
    lemma_scan_wire(report_frames(), report_encoder(), buildable_report(), msgs, t, MAX_REPORT_QUEUE_LEN as nat);
    assert(Seq::<u8>::empty() + (report_wire(msgs) + t) =~= report_wire(msgs) + t);
}

/// Handing a reader one byte through `process_byte` or through
/// `process_bytes` decodes the same and leaves the same buffer, whenever the
/// buffer does not already start with a complete command.
pub proof fn command_single_byte_is_batch(buf: Seq<u8>, byte: u8)
    requires
        command_frame(buf) == Frame::<Command>::Incomplete,
    ensures
        command_step(buf, byte).1 == command_feed(buf, seq![byte]).buf,
        command_step(buf, byte).0 == (match command_feed(buf, seq![byte]).out {
            Ok(items) => Ok(if items.len() == 0 { None } else { Some(items[0]) }),
            Err(e) => Err(e),
        }),
        command_feed(buf, seq![byte]).out matches Ok(items) ==> items.len() <= 1,
{
    let b = buf.push(byte);
    assert(buf + seq![byte] =~= b);
    if buf.len() > 0 {
        assert(b[0] == buf[0]);
    }
    assert(command_frames()(b) == command_frame(b));
    if let Frame::Complete(c, n) = command_frame(b) {
        assert(scan(command_frames(), Seq::<u8>::empty(), 5).items == Seq::<Command>::empty());
        assert(n == b.len());
        assert(b.skip(n as int) =~= Seq::<u8>::empty());
        assert(command_frames()(Seq::<u8>::empty()) == Frame::<Command>::Incomplete);
        assert(seq![c] + Seq::<Command>::empty() =~= seq![c]);
    }
}

} // verus!
