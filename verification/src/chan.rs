//! Trusted boundary around the channel and clock primitives.
//!
//! The dispatcher moves items over `std::sync::mpsc` channels and samples a
//! millisecond clock. Every call into those facilities goes through this
//! module; the rest of the crate is verified against the declarations here.

use vstd::prelude::*;

verus! {

/// Declares `std::sync::mpsc::Sender` so it can stand in signatures and
/// fields; its values are opaque here.
#[verifier::external_type_specification]
#[verifier::external_body]
#[verifier::reject_recursive_types(T)]
pub struct ExSender<T>(std::sync::mpsc::Sender<T>);

/// Declares `std::sync::mpsc::Receiver` so it can stand in signatures and
/// fields; its values are opaque here.
#[verifier::external_type_specification]
#[verifier::external_body]
#[verifier::reject_recursive_types(T)]
pub struct ExReceiver<T>(std::sync::mpsc::Receiver<T>);

/// What one non-blocking look at the receiving end of a channel can find.
pub enum PollOutcome<M> {
    /// A value was queued and has been taken off the channel.
    Ready(M),
    /// Nothing is queued right now, but a sender is still alive.
    NothingYet,
    /// Nothing is queued and every sender is gone: nothing will ever arrive.
    Closed,
}

/// Relies on `std::sync::mpsc::channel`: returns the two ends of a fresh
/// unbounded channel; the receiving end yields the values given to the
/// sending end, in send order.
#[verifier::external_body]
pub(crate) fn open_channel<M>() -> (std::sync::mpsc::Sender<M>, std::sync::mpsc::Receiver<M>) {
    std::sync::mpsc::channel()
}

/// Relies on `std::sync::mpsc::Sender::send`: true exactly when the receiving
/// end still existed and the value was enqueued for it. Whether it succeeds
/// depends on what other threads have dropped, so nothing is assumed of the
/// result.
#[verifier::external_body]
pub(crate) fn send_value<M>(out: &std::sync::mpsc::Sender<M>, value: M) -> (ok: bool) {
    out.send(value).is_ok()
}

/// Relies on `std::sync::mpsc::Receiver::try_recv`, whose three results map
/// one-to-one onto `PollOutcome`. What it finds depends on what other threads
/// have sent or dropped, so nothing is assumed of the result.
#[verifier::external_body]
pub(crate) fn poll_channel<M>(src: &std::sync::mpsc::Receiver<M>) -> (p: PollOutcome<M>) {
    match src.try_recv() {
        Ok(v) => PollOutcome::Ready(v),
        Err(std::sync::mpsc::TryRecvError::Empty) => PollOutcome::NothingYet,
        Err(std::sync::mpsc::TryRecvError::Disconnected) => PollOutcome::Closed,
    }
}

/// Relies on `std::sync::mpsc::Sender::clone`: another sending handle on the
/// same channel.
pub assume_specification<T>[ <std::sync::mpsc::Sender<T> as Clone>::clone ](
    out: &std::sync::mpsc::Sender<T>,
) -> std::sync::mpsc::Sender<T>;

/// Relies on `clock_ticks::precise_time_ms`: the clock's current reading, in
/// milliseconds since an unspecified epoch. The value depends on the moment
/// of the call, so nothing is assumed of it.
#[verifier::external_body]
pub(crate) fn current_millis() -> (now: u64) {
    clock_ticks::precise_time_ms()
}

} // verus!
