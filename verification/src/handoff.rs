//! The channels that carry blocks and windows between threads.
//!
//! The channel itself is `crossbeam::channel`; nothing in it is verified
//! here. Whether a message is waiting depends on another thread, so the
//! functions of this module promise little about what comes back, and the
//! callers are verified for every outcome.

use crossbeam::channel::{Receiver, Sender, TrySendError};
use vstd::prelude::*;

verus! {

/// How many blocks the playback channel holds at most: the decoder runs at
/// most this far ahead of the device.
pub const PLAYBACK_CAPACITY: usize = 2;

/// The receiving end of a channel, `crossbeam::channel::Receiver`.
#[verifier::external_type_specification]
#[verifier::external_body]
#[verifier::reject_recursive_types(T)]
pub struct ExReceiver<T>(Receiver<T>);

/// The sending end of a channel, `crossbeam::channel::Sender`.
#[verifier::external_type_specification]
#[verifier::external_body]
#[verifier::reject_recursive_types(T)]
pub struct ExSender<T>(Sender<T>);

/// Calls `Receiver::try_recv`, which never blocks. `None` stands for both of
/// its errors, an empty and a disconnected channel. Nothing is claimed of the
/// message, nor of whether there is one.
#[verifier::external_body]
pub(crate) fn try_receive<T>(rx: &Receiver<T>) -> (message: Option<T>) {
    match rx.try_recv() {
        Ok(message) => Some(message),
        Err(_) => None,
    }
}

/// Calls `Receiver::len`, the number of messages in the channel at the moment
/// of the call. Another thread may change it at once, so nothing is claimed.
#[verifier::external_body]
pub(crate) fn waiting<T>(rx: &Receiver<T>) -> (count: usize) {
    rx.len()
}

/// Calls `Sender::try_send`, which never blocks. On a full or disconnected
/// channel the error of `try_send` carries the message back, and it is handed
/// back here unchanged.
#[verifier::external_body]
pub(crate) fn try_offer<T>(tx: &Sender<T>, message: T) -> (refused: Option<T>)
    ensures
        refused is Some ==> refused == Some(message),
{
    match tx.try_send(message) {
        Ok(()) => None,
        Err(TrySendError::Full(back)) => Some(back),
        Err(TrySendError::Disconnected(back)) => Some(back),
    }
}

/// Receives what is waiting and keeps the newest message.
pub(crate) fn latest<T>(rx: &Receiver<T>) -> (newest: Option<T>) {
    let n: usize = waiting(rx);
    let mut newest: Option<T> = None;
    let mut i: usize = 0;
    while i < n
        invariant
            i <= n,
        decreases n - i,
    {
        match try_receive(rx) {
            Some(message) => {
                newest = Some(message);
            },
            None => {
                break;
            },
        }
        i += 1;
    }
    newest
}

} // verus!
