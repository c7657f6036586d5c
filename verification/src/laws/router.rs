//! Where connections are routed.

use crate::queue::Sender;
use crate::queue::Sent;
use crate::router::RouteError;
use vstd::prelude::*;

verus! {

/// A name leads to the channel of the queue that is registered under it, and to
/// none where none is.
pub proof fn law_target<K, U>(routes: Map<K, Sender<U>>, name: K)
    ensures
        routes.contains_key(name) ==> crate::router::target(routes, name) == Some(
            routes[name].id(),
        ),
        !routes.contains_key(name) ==> crate::router::target(routes, name) is None,
{
}

/// A connection that was routed is on the channel of the queue registered under
/// its name. One without a route was put nowhere, and one that a queue refused is
/// back.
pub proof fn law_routed<K, U>(
    routes: Map<K, Sender<U>>,
    name: K,
    conn: U,
    outcome: Result<Sent<U>, RouteError<U>>,
)
    requires
        crate::router::routed(routes, name, conn, outcome),
    ensures
        outcome is Ok ==> routes.contains_key(name) && outcome->Ok_0.id() == routes[name].id()
            && outcome->Ok_0.value() == conn,
        !routes.contains_key(name) <==> outcome == Err::<Sent<U>, RouteError<U>>(
            RouteError::NoSuchConnection,
        ),
        routes.contains_key(name) && outcome is Err ==> outcome == Err::<Sent<U>, RouteError<U>>(
            RouteError::QueueClosed(conn),
        ),
{
}

/// Routes are apart exactly where the queues under two different names never
/// belong to one channel, and a channel is new exactly where no queue belongs to
/// it.
pub proof fn law_apart<K, U>(routes: Map<K, Sender<U>>, a: K, b: K, channel: int)
    requires
        routes.contains_key(a),
        routes.contains_key(b),
        a != b,
    ensures
        crate::router::apart(routes) ==> routes[a].id() != routes[b].id(),
        crate::queue::fresh(routes, channel) ==> routes[a].id() != channel,
{
}

} // verus!
