//! The queues on which connections are handed over: the two halves of a channel
//! of `tokio`, each with the channel that it belongs to.
//!
//! A channel is known by a number that exists in proofs alone. The functions
//! that make the halves and send on them are believed, not proved; nothing else
//! can make a half or say that something was sent.

use crate::table::Key;
use crate::table::Table;
use vstd::prelude::*;

verus! {

/// The sending half of a channel of `tokio`.
#[verifier::external_type_specification]
#[verifier::external_body]
#[verifier::reject_recursive_types(T)]
pub struct ExUnboundedSender<T>(tokio::sync::mpsc::UnboundedSender<T>);

/// The receiving half of a channel of `tokio`.
#[verifier::external_type_specification]
#[verifier::external_body]
#[verifier::reject_recursive_types(T)]
pub struct ExUnboundedReceiver<T>(tokio::sync::mpsc::UnboundedReceiver<T>);

/// The end of a queue at which values are put on it.
#[verifier::reject_recursive_types(U)]
pub struct Sender<U> {
    half: tokio::sync::mpsc::UnboundedSender<U>,
    channel: Ghost<int>,
}

/// The end of a queue at which values are taken from it.
#[verifier::reject_recursive_types(U)]
pub struct Receiver<U> {
    half: tokio::sync::mpsc::UnboundedReceiver<U>,
    channel: Ghost<int>,
}

/// That a value was put on a queue.
pub struct Sent<U> {
    channel: Ghost<int>,
    value: Ghost<U>,
}

impl<U> Sender<U> {
    /// The channel that this half belongs to.
    pub closed spec fn id(&self) -> int {
        self.channel@
    }
}

impl<U> Receiver<U> {
    /// The channel that this half belongs to.
    pub closed spec fn id(&self) -> int {
        self.channel@
    }

    /// The half itself, to wait on.
    pub fn into_half(self) -> (r: tokio::sync::mpsc::UnboundedReceiver<U>)
        ensures
            r == self.inner(),
    {
        self.half
    }

    /// The half itself.
    pub closed spec fn inner(self) -> tokio::sync::mpsc::UnboundedReceiver<U> {
        self.half
    }
}

impl<U> Sent<U> {
    /// The channel on which the value was put.
    pub closed spec fn id(&self) -> int {
        self.channel@
    }

    /// The value that was put on it.
    pub closed spec fn value(&self) -> U {
        self.value@
    }
}

/// Whether none of the queues of a table belongs to a channel.
pub open spec fn fresh<K, U>(queues: Map<K, Sender<U>>, channel: int) -> bool {
    forall|k: K| #[trigger] queues.contains_key(k) ==> queues[k].id() != channel
}

/// `tokio::sync::mpsc::unbounded_channel`. It is claimed that the two halves
/// belong to one channel, and that this channel is a new one: no queue that is
/// already there belongs to it. The table is not looked at; it says which queues
/// are meant.
#[verifier::external_body]
pub(crate) fn unbounded_channel<K: Key, U>(there: &Table<K, Sender<U>>) -> (r: (
    Sender<U>,
    Receiver<U>,
))
    ensures
        r.0.id() == r.1.id(),
        fresh(there@, r.0.id()),
{
    let (send, recv) = tokio::sync::mpsc::unbounded_channel();
    let ghost channel: int = arbitrary();
    (
        Sender { half: send, channel: Ghost(channel) },
        Receiver { half: recv, channel: Ghost(channel) },
    )
}

/// `UnboundedSender::send` of `tokio`. Whether the value is taken depends on
/// whether the receiving half is still there. It is claimed that a value which is
/// taken was put on the channel of the half, and that any other comes back.
#[verifier::external_body]
pub(crate) fn send<U>(queue: &Sender<U>, value: U) -> (r: Result<Sent<U>, U>)
    ensures
        match r {
            Ok(sent) => sent.id() == queue.id() && sent.value() == value,
            Err(back) => back == value,
        },
{
    let ghost v = value;
    match queue.half.send(value) {
        Ok(()) => Ok(Sent { channel: Ghost(queue.channel@), value: Ghost(v) }),
        Err(e) => Err(e.0),
    }
}

/// The values that were put on a channel, in the order in which they were.
pub open spec fn arrivals<U>(log: Seq<Sent<U>>, channel: int) -> Seq<U>
    decreases log.len(),
{
    if log.len() == 0 {
        Seq::empty()
    } else {
        let before = arrivals(log.drop_last(), channel);
        if log.last().id() == channel {
            before.push(log.last().value())
        } else {
            before
        }
    }
}

} // verus!
