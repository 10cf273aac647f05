//! What this library takes on trust from tokio's channels.
//!
//! A channel is shared with other tasks, so nothing here speaks of what a
//! channel holds: each contract says only what the call hands back.

use vstd::prelude::*;

verus! {

/// The sending end of tokio's bounded queue, `tokio::sync::mpsc::Sender`.
#[verifier::external_type_specification]
#[verifier::external_body]
#[verifier::reject_recursive_types(T)]
pub struct ExMpscSender<T>(tokio::sync::mpsc::Sender<T>);

/// The reading end of tokio's bounded queue, `tokio::sync::mpsc::Receiver`.
#[verifier::external_type_specification]
#[verifier::external_body]
#[verifier::reject_recursive_types(T)]
pub struct ExMpscReceiver<T>(tokio::sync::mpsc::Receiver<T>);

/// Why `try_send` refused a message, `tokio::sync::mpsc::error::TrySendError`:
/// the queue was full, or its reading end is closed. Either way the message
/// is inside.
#[verifier::external_type_specification]
#[verifier::reject_recursive_types(T)]
pub struct ExTrySendError<T>(tokio::sync::mpsc::error::TrySendError<T>);

/// The sending end of tokio's broadcast channel,
/// `tokio::sync::broadcast::Sender`.
#[verifier::external_type_specification]
#[verifier::external_body]
#[verifier::reject_recursive_types(T)]
pub struct ExBroadcastSender<T>(tokio::sync::broadcast::Sender<T>);

/// A reading end of tokio's broadcast channel,
/// `tokio::sync::broadcast::Receiver`.
#[verifier::external_type_specification]
#[verifier::external_body]
#[verifier::reject_recursive_types(T)]
pub struct ExBroadcastReceiver<T>(tokio::sync::broadcast::Receiver<T>);

/// Why a broadcast channel gave no value,
/// `tokio::sync::broadcast::error::RecvError`: every sender is gone, or the
/// receiver fell behind and values were overwritten before it read them.
#[verifier::external_type_specification]
pub struct ExBroadcastRecvError(tokio::sync::broadcast::error::RecvError);

/// The message that a refused `try_send` hands back.
pub open spec fn returned<T>(failure: tokio::sync::mpsc::error::TrySendError<T>) -> T {
    match failure {
        tokio::sync::mpsc::error::TrySendError::Full(message) => message,
        tokio::sync::mpsc::error::TrySendError::Closed(message) => message,
    }
}

/// `tokio::sync::mpsc::channel` makes a bounded queue and hands out its two
/// ends. It panics on a capacity of zero or above an eighth of `usize::MAX`,
/// so both are ruled out. Nothing is claimed of the ends.
pub assume_specification<T>[ tokio::sync::mpsc::channel::<T> ](buffer: usize) -> (ends: (
    tokio::sync::mpsc::Sender<T>,
    tokio::sync::mpsc::Receiver<T>,
))
    requires
        0 < buffer <= usize::MAX / 8,
;

/// `tokio::sync::mpsc::Sender::try_send` puts a message into the queue if
/// there is room and the reading end is open, and never waits. Whether it
/// succeeds depends on what other tasks did, so of success nothing is
/// claimed; a refusal hands back the very message that was passed in.
pub assume_specification<T>[ tokio::sync::mpsc::Sender::<T>::try_send ](
    tx: &tokio::sync::mpsc::Sender<T>,
    message: T,
) -> (outcome: Result<(), tokio::sync::mpsc::error::TrySendError<T>>)
    ensures
        outcome matches Err(failure) ==> returned(failure) == message,
;

/// `tokio::sync::broadcast::channel` makes a broadcast channel with one
/// receiver subscribed. It panics on a capacity of zero or above half of
/// `usize::MAX`, so both are ruled out. Nothing is claimed of the ends.
///
/// The call allocates room for `capacity` values at once. That the memory is
/// there is taken for granted, as for every allocation in this library.
pub assume_specification<T: Clone>[ tokio::sync::broadcast::channel::<T> ](
    capacity: usize,
) -> (ends: (tokio::sync::broadcast::Sender<T>, tokio::sync::broadcast::Receiver<T>))
    requires
        0 < capacity <= usize::MAX / 2,
;

/// `tokio::sync::broadcast::Sender::subscribe` adds a receiver that sees
/// the values sent from now on. Nothing is claimed of the receiver.
///
/// The call panics if a quarter of `usize::MAX` receivers are subscribed at
/// that moment. That number is no value this library holds, and other tasks
/// change it, so no contract can rule it out; it would take that many calls
/// to get there.
pub assume_specification<T>[ tokio::sync::broadcast::Sender::<T>::subscribe ](
    tx: &tokio::sync::broadcast::Sender<T>,
) -> (rx: tokio::sync::broadcast::Receiver<T>)
;

/// `tokio::sync::broadcast::Sender::send` stores a value for every receiver
/// that is subscribed at that moment and returns their number, or returns
/// the value in its error when there is none. How many there are depends on
/// what other tasks did: the contract says only that a count is at least one
/// and that what comes back is what was passed in. The error's one field is
/// moved out, so that callers get the value itself.
#[verifier::external_body]
pub(crate) fn publish<T>(tx: &tokio::sync::broadcast::Sender<T>, value: T) -> (sent: Result<
    usize,
    T,
>)
    ensures
        sent matches Ok(receivers) ==> receivers > 0,
        sent matches Err(unsent) ==> unsent == value,
{
    tx.send(value).map_err(|failure| failure.0)
}

} // verus!
