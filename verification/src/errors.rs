//! Error values returned by the channel operations.

use vstd::prelude::*;

verus! {

/// Error of a non-blocking send attempt. In either case the caller keeps
/// ownership of the message it tried to send.
pub enum TrySendError<T> {
    /// The channel holds `cap` messages; nothing was written.
    Full(T),
    /// The channel is closed; nothing was written.
    Disconnected(T),
}

/// Error of a non-blocking receive attempt.
pub enum TryRecvError {
    /// No message is queued and the channel is still open.
    Empty,
    /// No message is queued and the channel is closed.
    Disconnected,
}

/// Error of a blocking send: the channel closed before the message could be
/// committed. The message is handed back.
pub struct SendError<T>(pub T);

/// Error of a blocking receive: the channel is closed and drained.
pub struct RecvError;

} // verus!
