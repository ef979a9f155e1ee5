//! Bounded single- and multi-producer ring channels with selectable wait strategies.

use vstd::prelude::*;

pub mod atomic;
pub mod index;
pub mod mpsc;
pub mod notify;
pub mod sharded;
pub mod spsc;
pub mod wait;

pub use wait::WaitStrategy;

verus! {

/// Why `try_send` did not send; the value comes back in both cases.
#[derive(Debug, PartialEq, Eq)]
pub enum TrySendError<T> {
    /// The ring is full.
    Full(T),
    /// The receiver is gone.
    Disconnected(T),
}

/// Why a blocking `send` did not send: the receiver is gone. The value comes back.
#[derive(Debug, PartialEq, Eq)]
pub struct SendError<T>(pub T);

/// Why `try_recv` returned nothing.
#[derive(Debug, PartialEq, Eq)]
pub enum TryRecvError {
    /// The ring is empty and a sender is still there.
    Empty,
    /// All senders are gone and the ring is drained.
    Disconnected,
}

/// Why a blocking `recv` returned nothing: all senders are gone and the ring is drained.
#[derive(Debug, PartialEq, Eq)]
pub struct RecvError;

impl<T> TrySendError<T> {
    /// The error in words.
    pub fn to_string(&self) -> (s: String)
        ensures
            s@ == match *self {
                TrySendError::Full(_) => "ring is full"@,
                TrySendError::Disconnected(_) => "receiver disconnected"@,
            },
    {
        match self {
            TrySendError::Full(_) => "ring is full".to_owned(),
            TrySendError::Disconnected(_) => "receiver disconnected".to_owned(),
        }
    }
}

impl<T> SendError<T> {
    /// The error in words.
    pub fn to_string(&self) -> (s: String)
        ensures
            s@ == "receiver disconnected"@,
    {
        "receiver disconnected".to_owned()
    }
}

impl TryRecvError {
    /// The error in words.
    pub fn to_string(&self) -> (s: String)
        ensures
            s@ == match *self {
                TryRecvError::Empty => "ring is empty"@,
                TryRecvError::Disconnected => "senders disconnected"@,
            },
    {
        match self {
            TryRecvError::Empty => "ring is empty".to_owned(),
            TryRecvError::Disconnected => "senders disconnected".to_owned(),
        }
    }
}

impl RecvError {
    /// The error in words.
    pub fn to_string(&self) -> (s: String)
        ensures
            s@ == "senders disconnected"@,
    {
        "senders disconnected".to_owned()
    }
}

/// Whether a ring can have `cap` slots: a positive power of two. A channel is made with no
/// other capacity.
pub fn assert_cap(cap: usize) -> (ok: bool)
    ensures
        ok == crate::index::is_cap(cap as int),
{
    proof {
        if crate::index::is_cap(cap as int) {
            crate::index::lemma_cap_positive(cap as int);
        }
    }
    cap > 0 && crate::index::is_power_of_two(cap)
}

} // verus!
