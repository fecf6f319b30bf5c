//! Bounded ring-buffer channel with a verified core.
//!
//! The channel holds at most `cap` messages in a preallocated ring of slots.
//! Producers push at the tail, consumers pop at the head, and every slot
//! carries a stamp that encodes which lap of the ring it is waiting for.

pub mod channel;
pub mod errors;

pub use channel::ArrayToken;
pub use channel::Channel;
pub use errors::RecvError;
pub use errors::SendError;
pub use errors::TryRecvError;
pub use errors::TrySendError;
