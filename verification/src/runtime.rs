//! Trusted declarations of the cross-thread primitives the pipeline leans
//! on: multi-producer multi-consumer channels, the reference-counted
//! countdown used as a flush barrier, and the wall clock.
//!
//! A channel's contents move concurrently with other threads, and the
//! clock moves on its own, so no contract here pins a returned value; the
//! verified callers state what holds of every outcome.

use vstd::prelude::*;

use crate::error::LogError;

verus! {

#[verifier::external_type_specification]
#[verifier::external_body]
#[verifier::reject_recursive_types(T)]
pub struct ExSender<T>(crossbeam_channel::Sender<T>);

#[verifier::external_type_specification]
#[verifier::external_body]
#[verifier::reject_recursive_types(T)]
pub struct ExReceiver<T>(crossbeam_channel::Receiver<T>);

#[verifier::external_type_specification]
#[verifier::external_body]
pub struct ExWaitGroup(crossbeam_utils::sync::WaitGroup);

#[verifier::external_type_specification]
#[verifier::external_body]
pub struct ExDateTime(fastdate::DateTime);

/// The capacity bound a record channel was made with: what
/// crossbeam_channel::Receiver::capacity reports — `None` for an
/// unbounded channel, the fixed bound for a bounded one.
pub uninterp spec fn spec_chan_bound(
    r: crossbeam_channel::Receiver<crate::appender::FastLogRecord>,
) -> Option<usize>;

/// Relies on crossbeam_channel::unbounded: a channel of unlimited
/// capacity.
#[verifier::external_body]
pub(crate) fn chan_unbounded() -> (r: (
    crossbeam_channel::Sender<crate::appender::FastLogRecord>,
    crossbeam_channel::Receiver<crate::appender::FastLogRecord>,
))
    ensures
        spec_chan_bound(r.1) is None,
{
    crossbeam_channel::unbounded()
}

/// Relies on crossbeam_channel::bounded: a channel holding at most `cap`
/// messages; a send on a full channel blocks.
#[verifier::external_body]
pub(crate) fn chan_bounded(cap: usize) -> (r: (
    crossbeam_channel::Sender<crate::appender::FastLogRecord>,
    crossbeam_channel::Receiver<crate::appender::FastLogRecord>,
))
    ensures
        spec_chan_bound(r.1) == Some(cap),
{
    crossbeam_channel::bounded(cap)
}

/// Relies on crossbeam_channel::Sender::send: blocks until the message is
/// delivered, and fails only when every receiver is gone.
#[verifier::external_body]
pub(crate) fn chan_send<T>(s: &crossbeam_channel::Sender<T>, msg: T) -> (r: Result<(), LogError>) {
    match s.send(msg) {
        Ok(()) => Ok(()),
        Err(e) => Err(LogError::E(format!("{}", e))),
    }
}

/// Relies on crossbeam_channel::Receiver::recv: blocks until a message
/// arrives, and fails only when the channel is empty with no sender left.
#[verifier::external_body]
pub(crate) fn chan_recv<T>(r: &crossbeam_channel::Receiver<T>) -> (res: Result<T, LogError>) {
    match r.recv() {
        Ok(v) => Ok(v),
        Err(e) => Err(LogError::E(format!("{}", e))),
    }
}

/// Relies on crossbeam_channel::Receiver::try_recv: a ready message, or
/// nothing when the channel is empty or closed.
#[verifier::external_body]
pub(crate) fn chan_try_recv<T>(r: &crossbeam_channel::Receiver<T>) -> (res: Option<T>) {
    match r.try_recv() {
        Ok(v) => Some(v),
        Err(_) => None,
    }
}

/// Relies on crossbeam_channel::Receiver::len: how many messages sat in
/// the channel at some moment during the call.
#[verifier::external_body]
pub(crate) fn chan_queue_len<T>(r: &crossbeam_channel::Receiver<T>) -> (res: usize) {
    r.len()
}

/// Relies on crossbeam_utils::sync::WaitGroup::new: a fresh countdown with
/// one holder.
#[verifier::external_body]
pub(crate) fn wg_new() -> (r: crossbeam_utils::sync::WaitGroup) {
    crossbeam_utils::sync::WaitGroup::new()
}

/// Relies on WaitGroup::clone: one more holder of the same countdown.
#[verifier::external_body]
pub(crate) fn wg_clone(w: &crossbeam_utils::sync::WaitGroup) -> (r: crossbeam_utils::sync::WaitGroup) {
    w.clone()
}

/// Relies on WaitGroup::wait: gives up this holder and blocks until every
/// other holder is dropped.
#[verifier::external_body]
pub(crate) fn wg_wait(w: crossbeam_utils::sync::WaitGroup) {
    w.wait();
}

/// Relies on fastdate::DateTime::now: the wall clock, in the local zone.
#[verifier::external_body]
pub(crate) fn dt_now() -> (r: fastdate::DateTime) {
    fastdate::DateTime::now()
}

/// Relies on fastdate::DateTime::unix_timestamp: whole seconds since the
/// Unix epoch.
#[verifier::external_body]
pub(crate) fn dt_unix_timestamp(dt: &fastdate::DateTime) -> (r: i64) {
    dt.unix_timestamp()
}

/// Relies on fastdate::DateTime::unix_timestamp_nano: nanoseconds since
/// the Unix epoch.
#[verifier::external_body]
pub(crate) fn dt_unix_timestamp_nano(dt: &fastdate::DateTime) -> (r: i128) {
    dt.unix_timestamp_nano()
}

/// Relies on fastdate::offset_sec: the local zone's offset from UTC in
/// seconds, as the platform reports it.
#[verifier::external_body]
pub fn offset_sec() -> (r: i32) {
    fastdate::offset_sec()
}

/// The wall clock as plain values: seconds and subsecond nanoseconds since
/// the Unix epoch, clamped into the year span this library supports.
pub fn now_epoch() -> (r: (u64, u32))
    ensures
        r.0 < 253402300800,
        r.1 < 1000000000,
{
    let dt: fastdate::DateTime = dt_now();
    let sec_i: i64 = dt_unix_timestamp(&dt);
    let nano_i: i128 = dt_unix_timestamp_nano(&dt);
    let sec: u64 = if sec_i < 0 {
        0
    } else if sec_i >= 253402300800 {
        253402300799
    } else {
        sec_i as u64
    };
    let sub_i: i128 = if -1000000000000000000000000000 <= nano_i && nano_i
        <= 1000000000000000000000000000 {
        nano_i - (sec_i as i128) * 1000000000
    } else {
        0
    };
    let sub: u32 = if 0 <= sub_i && sub_i < 1000000000 {
        sub_i as u32
    } else {
        0
    };
    (sec, sub)
}

} // verus!
