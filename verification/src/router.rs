//! Routes from names to the queues on which connections are handed over.

use crate::queue::send;
use crate::queue::unbounded_channel;
use crate::queue::Receiver;
use crate::queue::Sender;
use crate::queue::Sent;
use crate::table::Key;
use crate::table::Table;
use vstd::prelude::*;

verus! {

/// Why a connection could not be routed.
#[derive(Debug)]
pub enum RouteError<U> {
    /// The name has no route.
    NoSuchConnection,
    /// The route is there, but nobody takes connections from its queue any more.
    QueueClosed(U),
}

/// The routes: for each name the queue on which its connections are handed over.
#[verifier::reject_recursive_types(T)]
#[verifier::reject_recursive_types(S)]
pub struct Router<T: Key, S> {
    table: Table<T, S>,
}

impl<T: Key, S> View for Router<T, S> {
    type V = Map<T::V, S>;

    closed spec fn view(&self) -> Map<T::V, S> {
        self.table@
    }
}

impl<T: Key, S> Router<T, S> {
    /// No routes.
    pub fn new() -> (r: Self)
        ensures
            r@ == Map::<T::V, S>::empty(),
    {
        Router { table: Table::new() }
    }

    /// Whether the name has a route.
    pub fn has_route(&self, name: &T) -> (r: bool)
        ensures
            r == self@.contains_key(name@),
    {
        self.table.contains(name)
    }

    /// Routes the name to the queue, in place of the queue that it may have had.
    pub fn register(&mut self, name: T, queue: S)
        ensures
            final(self)@ == old(self)@.insert(name@, queue),
    {
        self.table.insert(name, queue);
    }

    /// Takes the route of the name away, whoever registered it.
    pub fn unregister(&mut self, name: &T)
        ensures
            final(self)@ == old(self)@.remove(name@),
    {
        self.table.remove(name);
    }

    /// The queue of the name.
    pub fn queue(&self, name: &T) -> (r: Option<&S>)
        ensures
            match r {
                Some(queue) => self@.contains_key(name@) && *queue == self@[name@],
                None => !self@.contains_key(name@),
            },
    {
        self.table.get(name)
    }

    /// The names that have a route, each of them once.
    pub fn names(&self) -> (r: Vec<T>)
        ensures
            forall|i: int, j: int|
                0 <= i < j < r@.len() ==> (#[trigger] r@[i])@ != (#[trigger] r@[j])@,
            forall|i: int| 0 <= i < r@.len() ==> self@.contains_key((#[trigger] r@[i])@),
            forall|name: T::V| #[trigger]
                self@.contains_key(name) ==> exists|i: int|
                    0 <= i < r@.len() && (#[trigger] r@[i])@ == name,
    {
        self.table.keys()
    }
}

/// What the attempt to hand a connection over comes to.
pub fn handed_over<A, U>(sent: Result<A, U>) -> (r: Result<A, RouteError<U>>)
    ensures
        r == match sent {
            Ok(done) => Ok::<A, RouteError<U>>(done),
            Err(back) => Err(RouteError::QueueClosed(back)),
        },
{
    match sent {
        Ok(done) => Ok(done),
        Err(back) => Err(RouteError::QueueClosed(back)),
    }
}

/// The channel on which the connections for a name are handed over.
pub open spec fn target<K, U>(routes: Map<K, Sender<U>>, name: K) -> Option<int> {
    if routes.contains_key(name) {
        Some(routes[name].id())
    } else {
        None
    }
}

/// What routing a connection to a name may come to. Without a route nothing is
/// put anywhere. With one, either the connection was put on the queue of the
/// route, or the queue refused and the connection is back.
pub open spec fn routed<K, U>(
    routes: Map<K, Sender<U>>,
    name: K,
    conn: U,
    outcome: Result<Sent<U>, RouteError<U>>,
) -> bool {
    match outcome {
        Ok(sent) => target(routes, name) == Some(sent.id()) && sent.value() == conn,
        Err(RouteError::NoSuchConnection) => target(routes, name) is None,
        Err(RouteError::QueueClosed(back)) => target(routes, name) is Some && back == conn,
    }
}

/// Whether no two names lead to one channel.
pub open spec fn apart<K, U>(routes: Map<K, Sender<U>>) -> bool {
    forall|a: K, b: K|
        #[trigger] routes.contains_key(a) && #[trigger] routes.contains_key(b) && a != b
            ==> routes[a].id() != routes[b].id()
}

impl<T: Key, U> Router<T, Sender<U>> {
    /// Hands the connection over on the queue of the name. That fails where the
    /// name has no route. Where it has one, only the queue itself can refuse,
    /// and then the connection comes back.
    pub fn route(&self, name: &T, conn: U) -> (r: Result<Sent<U>, RouteError<U>>)
        ensures
            routed(self@, name@, conn, r),
            match r {
                Ok(sent) => self@.contains_key(name@) && sent.id() == self@[name@].id()
                    && sent.value() == conn,
                Err(RouteError::NoSuchConnection) => !self@.contains_key(name@),
                Err(RouteError::QueueClosed(back)) => self@.contains_key(name@) && back == conn,
            },
    {
        match self.queue(name) {
            None => Err(RouteError::NoSuchConnection),
            Some(queue) => handed_over(send(queue, conn)),
        }
    }
}

/// The holder of a route: the name, and the end of the queue at which the
/// connections arrive.
pub struct RouteGuard<T: Key, R> {
    pub name: T,
    pub queue: R,
}

impl<T: Key, R> RouteGuard<T, R> {
    /// Registers the name with the sending end of a queue and keeps the other
    /// end.
    pub fn with_queue<S>(router: &mut Router<T, S>, name: T, send: S, recv: R) -> (r: Self)
        ensures
            final(router)@ == old(router)@.insert(name@, send),
            r.name@ == name@,
            r.queue == recv,
    {
        router.register(name.duplicate(), send);
        RouteGuard { name, queue: recv }
    }

    /// Gives the route up. This is due when the guard goes away.
    pub fn release<S>(&self, router: &mut Router<T, S>)
        ensures
            final(router)@ == old(router)@.remove(self.name@),
    {
        router.unregister(&self.name);
    }
}

impl<T: Key, U> RouteGuard<T, Receiver<U>> {
    /// Registers the name with a new queue, and keeps the end at which the
    /// connections for the name arrive.
    pub fn new(router: &mut Router<T, Sender<U>>, name: T) -> (r: Self)
        ensures
            r.name@ == name@,
            target(final(router)@, name@) == Some(r.queue.id()),
            final(router)@.contains_key(name@),
            final(router)@[name@].id() == r.queue.id(),
            final(router)@ == old(router)@.insert(name@, final(router)@[name@]),
            crate::queue::fresh(old(router)@, r.queue.id()),
            forall|other: T::V|
                other != name@ ==> #[trigger] target(final(router)@, other) != Some(r.queue.id()),
            apart(old(router)@) ==> apart(final(router)@),
    {
        let (send, recv) = unbounded_channel(&router.table);
        RouteGuard::with_queue(router, name, send, recv)
    }

    /// The same guard with the half of the channel itself, to wait on.
    pub fn listen(self) -> (r: RouteGuard<T, tokio::sync::mpsc::UnboundedReceiver<U>>)
        ensures
            r.name == self.name,
            r.queue == self.queue.inner(),
    {
        RouteGuard { name: self.name, queue: self.queue.into_half() }
    }
}

/// Connections go to the queue that was registered last under their name; for
/// other names nothing changes. Where the queue is of a new channel, no name
/// leads any more to the queue that the name had before.
pub proof fn law_register<K, U>(routes: Map<K, Sender<U>>, name: K, queue: Sender<U>, other: K)
    ensures
        target(routes.insert(name, queue), name) == Some(queue.id()),
        other != name ==> target(routes.insert(name, queue), other) == target(routes, other),
        apart(routes) && crate::queue::fresh(routes, queue.id()) && routes.contains_key(name)
            ==> target(routes.insert(name, queue), other) != Some(routes[name].id()),
{
}

/// A name whose route was taken away has none; for other names nothing changes.
pub proof fn law_unregister<K, U>(routes: Map<K, Sender<U>>, name: K, other: K)
    ensures
        target(routes.remove(name), name) is None,
        other != name ==> target(routes.remove(name), other) == target(routes, other),
{
}

/// No two names ever lead to one channel: that is so without routes, and it stays
/// so where a name gets a queue of a new channel, and where a route is taken away.
pub proof fn law_routes_stay_apart<K, U>(routes: Map<K, Sender<U>>, name: K, queue: Sender<U>)
    ensures
        apart(Map::<K, Sender<U>>::empty()),
        apart(routes) && crate::queue::fresh(routes, queue.id()) ==> apart(
            routes.insert(name, queue),
        ),
        apart(routes) ==> apart(routes.remove(name)),
{
}

/// Whether every connection of `requests` was handed over, in this order, with
/// the routes that there were at the time: `log` holds what came of each of them.
pub open spec fn all_routed<K, U>(
    routes: Seq<Map<K, Sender<U>>>,
    requests: Seq<(K, U)>,
    log: Seq<Sent<U>>,
) -> bool {
    &&& requests.len() == log.len()
    &&& routes.len() == log.len()
    &&& forall|i: int|
        0 <= i < log.len() ==> routed(
            routes[i],
            requests[i].0,
            requests[i].1,
            Ok(#[trigger] log[i]),
        )
}

/// Whether a guard holds its name: all the time the name led to its queue.
pub open spec fn held<T: Key, U>(
    routes: Seq<Map<T::V, Sender<U>>>,
    guard: RouteGuard<T, Receiver<U>>,
) -> bool {
    forall|i: int|
        0 <= i < routes.len() ==> target(#[trigger] routes[i], guard.name@) == Some(
            guard.queue.id(),
        )
}

/// The connections for a name, in their order.
pub open spec fn connections_for<K, U>(requests: Seq<(K, U)>, name: K) -> Seq<U>
    decreases requests.len(),
{
    if requests.len() == 0 {
        Seq::empty()
    } else {
        let before = connections_for(requests.drop_last(), name);
        if requests.last().0 == name {
            before.push(requests.last().1)
        } else {
            before
        }
    }
}

/// What is routed to a name arrives, in order and each once, at the guard that
/// holds it, and nothing else does, whatever other routes come and go meanwhile.
/// At no time do two names lead to one channel, which [`law_routes_stay_apart`]
/// gives.
pub proof fn law_arrives_in_order<T: Key, U>(
    routes: Seq<Map<T::V, Sender<U>>>,
    guard: RouteGuard<T, Receiver<U>>,
    requests: Seq<(T::V, U)>,
    log: Seq<Sent<U>>,
)
    requires
        held(routes, guard),
        forall|i: int| 0 <= i < routes.len() ==> apart(#[trigger] routes[i]),
        all_routed(routes, requests, log),
    ensures
        crate::queue::arrivals(log, guard.queue.id()) == connections_for(requests, guard.name@),
    decreases log.len(),
{
    if log.len() > 0 {
        let last = log.len() - 1;
        let (name, conn) = requests[last];
        assert(routed(routes[last], name, conn, Ok(log[last])));
        assert(target(routes[last], guard.name@) == Some(guard.queue.id()));
        assert(apart(routes[last]));
        assert(log[last].id() == guard.queue.id() <==> name == guard.name@);
        assert forall|i: int| 0 <= i < last implies routed(
            routes.drop_last()[i],
            requests.drop_last()[i].0,
            requests.drop_last()[i].1,
            Ok(#[trigger] log.drop_last()[i]),
        ) by {
            assert(log.drop_last()[i] == log[i]);
        }
        assert forall|i: int| 0 <= i < last implies apart(#[trigger] routes.drop_last()[i]) by {
            assert(routes.drop_last()[i] == routes[i]);
        }
        assert forall|i: int| 0 <= i < last implies target(
            #[trigger] routes.drop_last()[i],
            guard.name@,
        ) == Some(guard.queue.id()) by {
            assert(routes.drop_last()[i] == routes[i]);
        }
        law_arrives_in_order(
            routes.drop_last(),
            guard,
            requests.drop_last(),
            log.drop_last(),
        );
    }
}

/// A guard that comes and goes leaves every other route as it was and its own
/// name without one.
pub proof fn law_guard_lifetime<K, S>(routes: Map<K, S>, name: K, queue: S)
    ensures
        routes.insert(name, queue).remove(name) == routes.remove(name),
        !routes.contains_key(name) ==> routes.insert(name, queue).remove(name) == routes,
{
    assert(routes.insert(name, queue).remove(name) =~= routes.remove(name));
    if !routes.contains_key(name) {
        assert(routes.remove(name) =~= routes);
    }
}

/// Where two guards hold one name, the second one's queue takes the
/// connections, and the name loses its route as soon as either guard goes.
pub proof fn law_second_guard<K, U>(
    routes: Map<K, Sender<U>>,
    name: K,
    first: Sender<U>,
    second: Sender<U>,
)
    ensures
        target(routes.insert(name, first).insert(name, second), name) == Some(second.id()),
        crate::queue::fresh(routes.insert(name, first), second.id()) ==> target(
            routes.insert(name, first).insert(name, second),
            name,
        ) != Some(first.id()),
        target(routes.insert(name, first).insert(name, second).remove(name), name) is None,
{
    assert(routes.insert(name, first).contains_key(name));
}

} // verus!
