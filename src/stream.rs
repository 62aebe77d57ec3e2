//! The behaviour of a reader over a stream, stated once for both message
//! families: what one call hands out, what a run of calls hands out, and why
//! the way the stream is cut into calls does not matter.
use vstd::prelude::*;

use crate::frame::Frame;
use crate::{Error, MAX_SERIAL_MESSAGE_LEN};

verus! {

/// What a reader finds in its buffer: the messages decoded from the front, at
/// most as many as there is room for, the bytes left after them, and whether
/// it stopped on bytes that cannot start a message.
pub struct Scan<M> {
    pub items: Seq<M>,
    pub rest: Seq<u8>,
    pub malformed: bool,
}

/// Decodes messages from the front of `b` with `frame` until it needs more
/// bytes, meets a malformed message, or has decoded `room` of them; in the
/// last case the bytes left are still looked at, and a malformed message at
/// their front counts as met.
pub open spec fn scan<M>(frame: spec_fn(Seq<u8>) -> Frame<M>, b: Seq<u8>, room: nat) -> Scan<M>
    decreases room,
{
    if room == 0 {
        Scan { items: Seq::empty(), rest: b, malformed: frame(b) is Malformed }
    } else {
        match frame(b) {
            Frame::Incomplete => Scan { items: Seq::empty(), rest: b, malformed: false },
            Frame::Malformed => Scan { items: Seq::empty(), rest: b, malformed: true },
            Frame::Complete(m, n) => {
                let s = scan(frame, b.skip(n as int), (room - 1) as nat);
                Scan { items: seq![m] + s.items, rest: s.rest, malformed: s.malformed }
            },
        }
    }
}

/// The answer of one call of a reader and its buffer afterwards.
pub struct Fed<M> {
    pub out: Result<Seq<M>, Error>,
    pub buf: Seq<u8>,
}

/// One call of a reader whose buffer holds `buf`, handed `bytes`: `BufferFull`
/// with the buffer unchanged when they do not fit together; otherwise the
/// messages scanned from both, or `MalformedMessage`, and the bytes left.
pub open spec fn feed<M>(
    frame: spec_fn(Seq<u8>) -> Frame<M>,
    room: nat,
    buf: Seq<u8>,
    bytes: Seq<u8>,
) -> Fed<M> {
    if buf.len() + bytes.len() > MAX_SERIAL_MESSAGE_LEN {
        Fed { out: Err(Error::BufferFull), buf }
    } else {
        let s = scan(frame, buf + bytes, room);
        Fed {
            out: if s.malformed {
                Err(Error::MalformedMessage)
            } else {
                Ok(s.items)
            },
            buf: s.rest,
        }
    }
}

/// One call per piece, in order, up to the first fault: all the messages
/// handed out, or that fault, and the buffer afterwards.
pub open spec fn feed_all<M>(
    frame: spec_fn(Seq<u8>) -> Frame<M>,
    room: nat,
    buf: Seq<u8>,
    pieces: Seq<Seq<u8>>,
) -> Fed<M>
    decreases pieces.len(),
{
    if pieces.len() == 0 {
        Fed { out: Ok(Seq::empty()), buf }
    } else {
        let first = feed(frame, room, buf, pieces[0]);
        match first.out {
            Err(e) => first,
            Ok(items) => {
                let later = feed_all(frame, room, first.buf, pieces.drop_first());
                Fed {
                    out: match later.out {
                        Ok(more) => Ok(items + more),
                        Err(e) => Err(e),
                    },
                    buf: later.buf,
                }
            },
        }
    }
}

/// The encodings of `ms`, one after the other.
pub open spec fn wire<M>(enc: spec_fn(M) -> Seq<u8>, ms: Seq<M>) -> Seq<u8>
    decreases ms.len(),
{
    if ms.len() == 0 {
        Seq::empty()
    } else {
        enc(ms[0]) + wire(enc, ms.drop_first())
    }
}

/// `frame` finds each well-formed message at the front of its encoding,
/// whatever follows it, and asks for more bytes on every proper prefix of the
/// encoding; encodings are not empty and fit a reader's buffer.
pub open spec fn self_delimiting<M>(
    frame: spec_fn(Seq<u8>) -> Frame<M>,
    enc: spec_fn(M) -> Seq<u8>,
    wf: spec_fn(M) -> bool,
) -> bool {
    &&& frame(Seq::empty()) == Frame::<M>::Incomplete
    &&& forall|m: M| #[trigger] wf(m) ==> 0 < enc(m).len() <= MAX_SERIAL_MESSAGE_LEN
    &&& forall|m: M, ext: Seq<u8>|
        wf(m) ==> #[trigger] frame(enc(m) + ext) == Frame::Complete(m, enc(m).len())
    &&& forall|m: M, i: int|
        wf(m) && 0 <= i < enc(m).len() ==> #[trigger] frame(enc(m).take(i))
            == Frame::<M>::Incomplete
}

/// The encodings of a sequence are those of its first `j` messages, then
/// those of the rest.
pub proof fn lemma_wire_split<M>(enc: spec_fn(M) -> Seq<u8>, ms: Seq<M>, j: int)
    requires
        0 <= j <= ms.len(),
    ensures
        wire(enc, ms) == wire(enc, ms.take(j)) + wire(enc, ms.skip(j)),
    decreases j,
{
    if j == 0 {
        assert(ms.skip(0) =~= ms);
        assert(wire(enc, ms.take(0)) =~= Seq::<u8>::empty());
        assert(wire(enc, ms) =~= wire(enc, ms.take(j)) + wire(enc, ms.skip(j)));
    } else {
        let tail = ms.drop_first();
        lemma_wire_split(enc, tail, j - 1);
        assert(ms.take(j).drop_first() =~= tail.take(j - 1));
        assert(ms.take(j)[0] == ms[0]);
        assert(tail.skip(j - 1) =~= ms.skip(j));
        assert(wire(enc, ms) =~= wire(enc, ms.take(j)) + wire(enc, ms.skip(j)));
    }
}

/// Scanning whole encodings followed by bytes that hold no complete message
/// at their front gives back exactly those messages and leaves those bytes,
/// malformed when `frame` finds them so.
pub proof fn lemma_scan_wire<M>(
    frame: spec_fn(Seq<u8>) -> Frame<M>,
    enc: spec_fn(M) -> Seq<u8>,
    wf: spec_fn(M) -> bool,
    ms: Seq<M>,
    t: Seq<u8>,
    room: nat,
)
    requires
        self_delimiting(frame, enc, wf),
        forall|i: int| 0 <= i < ms.len() ==> #[trigger] wf(ms[i]),
        ms.len() <= room,
        !(frame(t) is Complete),
    ensures
        scan(frame, wire(enc, ms) + t, room) == (Scan {
            items: ms,
            rest: t,
            malformed: frame(t) is Malformed,
        }),
    decreases ms.len(),
{
    if ms.len() == 0 {
        assert(wire(enc, ms) + t =~= t);
        assert(ms =~= Seq::<M>::empty());
    } else {
        let m = ms[0];
        let tail = ms.drop_first();
        assert(wf(m));
        let b = wire(enc, ms) + t;
        let ext = wire(enc, tail) + t;
        assert(b =~= enc(m) + ext);
        assert(frame(enc(m) + ext) == Frame::Complete(m, enc(m).len()));
        assert(b.skip(enc(m).len() as int) =~= ext);
        assert forall|i: int| 0 <= i < tail.len() implies #[trigger] wf(tail[i]) by {
            assert(tail[i] == ms[i + 1]);
        }
        lemma_scan_wire(frame, enc, wf, tail, t, (room - 1) as nat);
        assert(seq![m] + tail =~= ms);
    }
}

/// A prefix of whole encodings is some of those encodings, then a proper
/// prefix of the next one (or nothing once all are in).
pub proof fn lemma_wire_prefix<M>(
    frame: spec_fn(Seq<u8>) -> Frame<M>,
    enc: spec_fn(M) -> Seq<u8>,
    wf: spec_fn(M) -> bool,
    ms: Seq<M>,
    k: int,
) -> (j: int)
    requires
        self_delimiting(frame, enc, wf),
        forall|i: int| 0 <= i < ms.len() ==> #[trigger] wf(ms[i]),
        0 <= k <= wire(enc, ms).len(),
    ensures
        0 <= j <= ms.len(),
        wire(enc, ms).take(k) == wire(enc, ms.take(j)) + wire(enc, ms).take(k).skip(
            wire(enc, ms.take(j)).len() as int,
        ),
        wire(enc, ms.take(j)).len() <= k,
        frame(wire(enc, ms).take(k).skip(wire(enc, ms.take(j)).len() as int))
            == Frame::<M>::Incomplete,
        j == ms.len() ==> wire(enc, ms.take(j)).len() == k,
    decreases ms.len(),
{
    let w = wire(enc, ms);
    if ms.len() == 0 {
        assert(ms.take(0) =~= ms);
        assert(w.take(k).skip(0) =~= Seq::<u8>::empty());
        assert(w.take(k) =~= wire(enc, ms.take(0)) + w.take(k).skip(0));
        0
    } else {
        let m = ms[0];
        let tail = ms.drop_first();
        assert(wf(m));
        let e = enc(m);
        assert(w == e + wire(enc, tail));
        assert(ms.take(0) =~= Seq::<M>::empty());
        assert(wire(enc, ms.take(0)) =~= Seq::<u8>::empty());
        if k < e.len() {
            assert(w.take(k) =~= e.take(k));
            assert(w.take(k).skip(0) =~= e.take(k));
            assert(w.take(k) =~= wire(enc, ms.take(0)) + w.take(k).skip(0));
            assert(frame(e.take(k)) == Frame::<M>::Incomplete);
            0
        } else {
            assert forall|i: int| 0 <= i < tail.len() implies #[trigger] wf(tail[i]) by {
                assert(tail[i] == ms[i + 1]);
            }
            let j1 = lemma_wire_prefix(frame, enc, wf, tail, k - e.len());
            let j = j1 + 1;
            let wt = wire(enc, tail);
            let head = wire(enc, tail.take(j1));
            assert(ms.take(j).drop_first() =~= tail.take(j1));
            assert(ms.take(j)[0] == m);
            assert(wire(enc, ms.take(j)) == e + head);
            assert(w.take(k) =~= e + wt.take(k - e.len()));
            assert(w.take(k).skip(e.len() + head.len() as int) =~= wt.take(k - e.len()).skip(
                head.len() as int,
            ));
            assert(w.take(k) =~= wire(enc, ms.take(j)) + w.take(k).skip(
                wire(enc, ms.take(j)).len() as int,
            ));
            j
        }
    }
}

/// Feeding whole encodings to a reader, cut into pieces in any way and one call
/// per piece, hands out exactly those messages and leaves the buffer empty,
/// provided they fit one buffer and one answer.
pub proof fn lemma_feed_pieces<M>(
    frame: spec_fn(Seq<u8>) -> Frame<M>,
    enc: spec_fn(M) -> Seq<u8>,
    wf: spec_fn(M) -> bool,
    room: nat,
    ms: Seq<M>,
    buf: Seq<u8>,
    pieces: Seq<Seq<u8>>,
)
    requires
        self_delimiting(frame, enc, wf),
        forall|i: int| 0 <= i < ms.len() ==> #[trigger] wf(ms[i]),
        ms.len() <= room,
        wire(enc, ms).len() <= MAX_SERIAL_MESSAGE_LEN,
        buf + pieces.flatten() == wire(enc, ms),
        frame(buf) == Frame::<M>::Incomplete,
        ms.len() == 0 ==> buf.len() == 0,
        ms.len() > 0 ==> buf.len() < enc(ms[0]).len(),
    ensures
        feed_all(frame, room, buf, pieces) == (Fed { out: Ok(ms), buf: Seq::<u8>::empty() }),
    decreases pieces.len(),
{
    let w = wire(enc, ms);
    if pieces.len() == 0 {
        assert(buf + pieces.flatten() =~= buf);
        if ms.len() > 0 {
            assert(wf(ms[0]));
            assert(w == enc(ms[0]) + wire(enc, ms.drop_first()));
        }
        assert(ms =~= Seq::<M>::empty());
        assert(buf =~= Seq::<u8>::empty());
    } else {
        let x = pieces[0];
        let more = pieces.drop_first();
        assert(pieces.flatten() == x + more.flatten());
        let b1 = buf + x;
        let k = b1.len() as int;
        assert(w =~= b1 + more.flatten());
        assert(b1 =~= w.take(k));
        let j = lemma_wire_prefix(frame, enc, wf, ms, k);
        let done = ms.take(j);
        let left = ms.skip(j);
        let t = w.take(k).skip(wire(enc, done).len() as int);
        assert forall|i: int| 0 <= i < done.len() implies #[trigger] wf(done[i]) by {
            assert(done[i] == ms[i]);
        }
        assert forall|i: int| 0 <= i < left.len() implies #[trigger] wf(left[i]) by {
            assert(left[i] == ms[i + j]);
        }
        lemma_scan_wire(frame, enc, wf, done, t, room);
        assert(feed(frame, room, buf, x) == (Fed { out: Ok(done), buf: t }));
        lemma_wire_split(enc, ms, j);
        let wd = wire(enc, done);
        assert(w == wd + wire(enc, left));
        assert(w == wd + t + more.flatten());
        assert(t + more.flatten() =~= wire(enc, left)) by {
            assert(t + more.flatten() =~= w.skip(wd.len() as int));
            assert(wire(enc, left) =~= w.skip(wd.len() as int));
        }
        if left.len() > 0 {
            assert(left[0] == ms[j]);
            assert(wf(left[0]));
            assert(wire(enc, left) == enc(left[0]) + wire(enc, left.drop_first()));
            if t.len() >= enc(left[0]).len() {
                assert(t.take(enc(left[0]).len() as int) =~= enc(left[0]));
                assert(frame(enc(left[0]) + t.skip(enc(left[0]).len() as int)) == Frame::Complete(
                    left[0],
                    enc(left[0]).len(),
                ));
                assert(t =~= enc(left[0]) + t.skip(enc(left[0]).len() as int));
                assert(false);
            }
        } else {
            assert(j == ms.len());
            assert(t.len() == 0);
        }
        lemma_feed_pieces(frame, enc, wf, room, left, t, more);
        assert(done + left =~= ms);
    }
}

} // verus!
