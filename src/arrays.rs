//! The fixed-capacity containers of `arrayvec` that the codec and the readers
//! use, with the few of their methods that the library calls.
use arrayvec::{ArrayString, ArrayVec};
use vstd::prelude::*;

use crate::command::Command;
use crate::report::Report;
use vstd::string::StringSliceAdditionalSpecFns;
use vstd::utf8::valid_utf8;

verus! {

#[verifier::external_type_specification]
#[verifier::external_body]
#[verifier::reject_recursive_types(T)]
pub struct ExArrayVec<T, const CAP: usize>(ArrayVec<T, CAP>);

/// The bytes held by a buffer of `MAX_COMMAND_LEN` bytes, in order.
pub uninterp spec fn short_bytes(v: ArrayVec<u8, 8>) -> Seq<u8>;

/// Relies on `ArrayVec::new`: an empty vector.
#[verifier::external_body]
pub(crate) fn short_new() -> (r: ArrayVec<u8, 8>)
    ensures
        short_bytes(r) == Seq::<u8>::empty(),
{
    ArrayVec::new()
}

/// Relies on `ArrayVec::push`: appends one byte; it panics only when full.
#[verifier::external_body]
pub(crate) fn short_push(v: &mut ArrayVec<u8, 8>, b: u8)
    requires
        short_bytes(*old(v)).len() < 8,
    ensures
        short_bytes(*final(v)) == short_bytes(*old(v)).push(b),
{
    v.push(b)
}

/// The commands held by a queue of `MAX_COMMAND_QUEUE_LEN` commands, in order.
pub uninterp spec fn command_items(v: ArrayVec<Command, 6>) -> Seq<Command>;

/// Relies on `ArrayVec::new`: an empty vector.
#[verifier::external_body]
pub(crate) fn command_queue_new() -> (r: ArrayVec<Command, 6>)
    ensures
        command_items(r) == Seq::<Command>::empty(),
{
    ArrayVec::new()
}

/// Relies on `ArrayVec::push`: appends one command; it panics only when full.
#[verifier::external_body]
pub(crate) fn command_queue_push(v: &mut ArrayVec<Command, 6>, c: Command)
    requires
        command_items(*old(v)).len() < 6,
    ensures
        command_items(*final(v)) == command_items(*old(v)).push(c),
{
    v.push(c)
}

/// The bytes held by a buffer of `MAX_SERIAL_MESSAGE_LEN` bytes, in order.
pub uninterp spec fn long_bytes(v: ArrayVec<u8, 256>) -> Seq<u8>;

/// Relies on `ArrayVec::new`: an empty vector.
#[verifier::external_body]
pub(crate) fn long_new() -> (r: ArrayVec<u8, 256>)
    ensures
        long_bytes(r) == Seq::<u8>::empty(),
{
    ArrayVec::new()
}

/// Relies on `ArrayVec::push`: appends one byte; it panics only when full.
#[verifier::external_body]
pub(crate) fn long_push(v: &mut ArrayVec<u8, 256>, b: u8)
    requires
        long_bytes(*old(v)).len() < 256,
    ensures
        long_bytes(*final(v)) == long_bytes(*old(v)).push(b),
{
    v.push(b)
}

/// Relies on `ArrayVec::try_extend_from_slice`: appends all of `other` when it
/// fits in the room left, and leaves the vector as it was otherwise.
#[verifier::external_body]
pub(crate) fn long_extend(v: &mut ArrayVec<u8, 256>, other: &[u8]) -> (r: bool)
    ensures
        r <==> long_bytes(*old(v)).len() + other@.len() <= 256,
        r ==> long_bytes(*final(v)) == long_bytes(*old(v)) + other@,
        !r ==> long_bytes(*final(v)) == long_bytes(*old(v)),
{
    v.try_extend_from_slice(other).is_ok()
}

/// Relies on `ArrayVec::drain`: removes the first `n` bytes and keeps the rest
/// in order; it panics only when `n` exceeds the length.
#[verifier::external_body]
pub(crate) fn long_drain_front(v: &mut ArrayVec<u8, 256>, n: usize)
    requires
        n <= long_bytes(*old(v)).len(),
    ensures
        long_bytes(*final(v)) == long_bytes(*old(v)).skip(n as int),
{
    v.drain(..n);
}

/// Relies on `ArrayVec::as_slice`: the bytes held, in order.
#[verifier::external_body]
pub(crate) fn long_slice(v: &ArrayVec<u8, 256>) -> (r: &[u8])
    ensures
        r@ == long_bytes(*v),
{
    v.as_slice()
}

/// The reports held by a queue of `MAX_REPORT_QUEUE_LEN` reports, in order.
pub uninterp spec fn report_items(v: ArrayVec<Report, 6>) -> Seq<Report>;

/// Relies on `ArrayVec::new`: an empty vector.
#[verifier::external_body]
pub(crate) fn report_queue_new() -> (r: ArrayVec<Report, 6>)
    ensures
        report_items(r) == Seq::<Report>::empty(),
{
    ArrayVec::new()
}

/// Relies on `ArrayVec::push`: appends one report; it panics only when full.
#[verifier::external_body]
pub(crate) fn report_queue_push(v: &mut ArrayVec<Report, 6>, m: Report)
    requires
        report_items(*old(v)).len() < 6,
    ensures
        report_items(*final(v)) == report_items(*old(v)).push(m),
{
    v.push(m)
}

#[verifier::external_type_specification]
#[verifier::external_body]
pub struct ExArrayString<const CAP: usize>(ArrayString<CAP>);

/// The characters of a `Report::Debug` message, in order.
pub uninterp spec fn debug_text(s: ArrayString<254>) -> Seq<char>;

/// Relies on `ArrayString::from`: a copy of `s` when its UTF-8 bytes fit in the
/// capacity, none otherwise.
#[verifier::external_body]
pub(crate) fn text_from(s: &str) -> (r: Option<ArrayString<254>>)
    ensures
        r is Some <==> s.spec_bytes().len() <= 254,
        r matches Some(a) ==> debug_text(a) == s@,
{
    ArrayString::from(s).ok()
}

/// Relies on `ArrayString::as_str`: the characters held, within the capacity.
#[verifier::external_body]
pub(crate) fn text_str(a: &ArrayString<254>) -> (r: &str)
    ensures
        r@ == debug_text(*a),
        r.spec_bytes().len() <= 254,
{
    a.as_str()
}

/// Relies on `core::str::from_utf8`: the bytes read as a string when they are
/// valid UTF-8, none otherwise.
#[verifier::external_body]
pub(crate) fn utf8_str(b: &[u8]) -> (r: Option<&str>)
    ensures
        r is Some <==> valid_utf8(b@),
        r matches Some(s) ==> s.spec_bytes() == b@,
{
    core::str::from_utf8(b).ok()
}

} // verus!
