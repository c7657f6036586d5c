//! A value that one side waits for and the other side supplies.
//!
//! Both sides work on one [`Shared`] state, which they take turns to hold: the
//! waiting side polls it and leaves a waker behind, the supplying side resolves
//! it and wakes whoever waits.

use vstd::prelude::*;

verus! {

/// The state that the two sides share: the value, from when it is supplied to
/// when it is taken, and the waker that was left last.
pub struct Shared<T, W> {
    pub value: Option<T>,
    pub waker: Option<W>,
}

/// What the waiting side learns.
#[derive(Debug, PartialEq, Eq)]
pub enum Poll<T> {
    /// The value, which it now has.
    Ready(T),
    /// Not yet; the waker has been left behind.
    Pending,
}

/// The state at the beginning: no value, and nobody waits.
pub fn create<T, W>() -> (r: Shared<T, W>)
    ensures
        r == (Shared::<T, W> { value: None, waker: None }),
{
    Shared { value: None, waker: None }
}

/// What polling with `waker` does: a value that is there is taken, otherwise the
/// waker stays.
pub open spec fn polled<T, W>(s: Shared<T, W>, waker: W) -> (Shared<T, W>, Poll<T>) {
    match s.value {
        Some(value) => (Shared { value: None, waker: s.waker }, Poll::Ready(value)),
        None => (Shared { value: None, waker: Some(waker) }, Poll::Pending),
    }
}

/// What resolving with `value` does.
pub open spec fn resolved<T, W>(s: Shared<T, W>, value: T) -> Shared<T, W> {
    Shared { value: Some(value), waker: s.waker }
}

impl<T, W> Shared<T, W> {
    /// Takes the value if it is there, and otherwise leaves the waker behind.
    pub fn poll(&mut self, waker: W) -> (r: Poll<T>)
        ensures
            (*final(self), r) == polled(*old(self), waker),
            final(self).value is None,
            match old(self).value {
                Some(value) => r == Poll::Ready(value) && final(self).waker == old(self).waker,
                None => r == Poll::<T>::Pending && final(self).waker == Some(waker),
            },
    {
        match self.value.take() {
            Some(value) => Poll::Ready(value),
            None => {
                self.waker = Some(waker);
                Poll::Pending
            },
        }
    }
}

/// Supplies the value. The waker that is returned has to be woken.
pub fn resolve<T, W>(shared: &mut Shared<T, W>, value: T) -> (r: Option<&W>)
    ensures
        *final(shared) == resolved(*old(shared), value),
        final(shared).value == Some(value),
        final(shared).waker == old(shared).waker,
        match r {
            Some(waker) => old(shared).waker == Some(*waker),
            None => old(shared).waker is None,
        },
{
    shared.value = Some(value);
    shared.waker.as_ref()
}

/// What can happen to the shared state.
pub enum Event<T, W> {
    Poll(W),
    Resolve(T),
}

/// The state after a sequence of events.
pub open spec fn after<T, W>(events: Seq<Event<T, W>>) -> Shared<T, W>
    decreases events.len(),
{
    if events.len() == 0 {
        Shared { value: None, waker: None }
    } else {
        let before = after(events.drop_last());
        match events.last() {
            Event::Poll(waker) => polled(before, waker).0,
            Event::Resolve(value) => resolved(before, value),
        }
    }
}

/// What the poll at the end of a sequence of events learns.
pub open spec fn learned<T, W>(before: Seq<Event<T, W>>, waker: W) -> Poll<T> {
    polled(after(before), waker).1
}

/// Whether all events are polls.
pub open spec fn only_polls<T, W>(events: Seq<Event<T, W>>) -> bool {
    forall|i: int| 0 <= i < events.len() ==> (#[trigger] events[i]) is Poll
}

proof fn lemma_only_polls<T, W>(events: Seq<Event<T, W>>)
    requires
        only_polls(events),
    ensures
        after(events).value is None,
        after(events).waker == if events.len() == 0 {
            None
        } else {
            Some(events.last()->Poll_0)
        },
    decreases events.len(),
{
    if events.len() > 0 {
        assert(only_polls(events.drop_last()));
        lemma_only_polls(events.drop_last());
        assert(events[events.len() - 1] is Poll);
    }
}

/// The value is delivered once: polls before it is supplied learn nothing, the
/// first poll after that gets it, and later polls learn nothing again.
pub proof fn law_delivered_once<T, W>(
    early: Seq<Event<T, W>>,
    value: T,
    late: Seq<Event<T, W>>,
    waker: W,
)
    requires
        only_polls(early),
        only_polls(late),
    ensures
        learned(early, waker) == Poll::<T>::Pending,
        learned(early.push(Event::Resolve(value)) + late, waker) == if late.len() == 0 {
            Poll::Ready(value)
        } else {
            Poll::<T>::Pending
        },
    decreases late.len(),
{
    lemma_only_polls(early);
    let supplied = early.push(Event::Resolve(value));
    assert(supplied.drop_last() =~= early);
    if late.len() == 0 {
        assert(supplied + late =~= supplied);
    } else {
        let trace = supplied + late;
        assert(trace.drop_last() =~= supplied + late.drop_last());
        assert(trace.last() == late.last());
        assert(late[late.len() - 1] is Poll);
        assert(only_polls(late.drop_last()));
        law_delivered_once(early, value, late.drop_last(), late.last()->Poll_0);
    }
}

/// Nobody waits in vain: whoever polled last before the value was supplied is
/// the one that has to be woken, and if nobody polled, nobody has to be.
pub proof fn law_last_waiter_is_woken<T, W>(early: Seq<Event<T, W>>)
    requires
        only_polls(early),
    ensures
        after(early).waker == if early.len() == 0 {
            None
        } else {
            Some(early.last()->Poll_0)
        },
{
    lemma_only_polls(early);
}

} // verus!
