//! What the server decides on a connection from a proxy client.

use crate::domain::choose_domain;
use crate::message::AuthKey;
use crate::message::Message;
use crate::message::MessageError;
use crate::message::MessageView;
use crate::minecraft::forward_handshake;
use crate::minecraft::GreetingView;
use crate::minecraft::MinecraftError;
use crate::netty::NettyError;
use crate::parse::Parse;
use crate::queue::Receiver;
use crate::queue::Sender;
use crate::queue::Sent;
use crate::router::RouteGuard;
use crate::router::Router;
use vstd::prelude::*;

verus! {

/// `rand::random` of 32 bytes, which may be any.
#[verifier::external_body]
fn random_key() -> (r: AuthKey) {
    rand::random()
}

/// Why a connection from a proxy client is dropped.
#[derive(Clone, Copy, Debug, PartialEq, Eq, Structural)]
pub enum ProxyError {
    /// The first message is not one that a client sends.
    NotServerbound,
}

/// What is to be done for a proxy client that has sent its first message.
#[derive(Debug)]
pub enum ProxyAction {
    /// Give the client this name, tell it so, and announce its players to it.
    Assign(String),
    /// Choose again: every candidate had a route, and this was the last.
    Retry(String),
    /// Hand the connection over to whoever announced this key.
    Claim(AuthKey),
}

/// Whether the message is one with which a client may open a connection.
pub open spec fn opens_connection(m: MessageView) -> bool {
    m is RequestDomain || m is Authenticate
}

/// What is done for a client whose first message is `msg`: one that asks for a
/// name gets one, one that shows a key gets what was announced under it, and any
/// other is dropped. Names are drawn up to `attempts` times.
pub fn handle_proxy<S>(msg: Message, router: &Router<String, S>, attempts: usize) -> (r: Result<
    ProxyAction,
    ProxyError,
>)
    ensures
        r is Ok <==> opens_connection(msg@),
        r is Ok <==> (msg is RequestDomain || msg is Authenticate),
        msg matches Message::Authenticate(key) ==> (r matches Ok(ProxyAction::Claim(k)) && k == key),
        r is Err ==> r == Err::<ProxyAction, ProxyError>(ProxyError::NotServerbound),
        msg@ matches MessageView::Authenticate(key) ==> (r matches Ok(ProxyAction::Claim(k)) && k@
            == key),
        msg@ matches MessageView::RequestDomain(requested) ==> match r {
            Ok(ProxyAction::Assign(domain)) => crate::domain::chosen(
                router@.dom(),
                requested,
                attempts as nat,
                Ok(domain@),
            ),
            Ok(ProxyAction::Retry(last)) => crate::domain::chosen(
                router@.dom(),
                requested,
                attempts as nat,
                Err(last@),
            ),
            _ => false,
        },
{
    match msg {
        Message::RequestDomain(requested) => match choose_domain(router, requested, attempts) {
            Ok(domain) => Ok(ProxyAction::Assign(domain)),
            Err(last) => Ok(ProxyAction::Retry(last)),
        },
        Message::Authenticate(key) => Ok(ProxyAction::Claim(key)),
        _ => Err(ProxyError::NotServerbound),
    }
}

/// The message that tells a client its name.
pub fn assignment(domain: &String) -> (r: Message)
    ensures
        r@ == MessageView::AssignedDomain(domain@),
        r matches Message::AssignedDomain(d) && d@ == domain@,
{
    Message::AssignedDomain(domain.clone())
}

/// The message that announces a player under a key.
pub fn announcement(key: AuthKey) -> (r: Message)
    ensures
        r@ == MessageView::IncomingConnection(key@),
        r == Message::IncomingConnection(key),
{
    Message::IncomingConnection(key)
}

/// A key drawn at random, and the message that announces a player under it.
pub fn announce_player() -> (r: (AuthKey, Message))
    ensures
        r.1@ == MessageView::IncomingConnection(r.0@),
        r.1 == Message::IncomingConnection(r.0),
{
    let key: AuthKey = random_key();
    (key, announcement(key))
}

/// A player who has been announced, and the guard at which the connection with
/// which the client claims the player will arrive.
pub struct Waiting<U, R> {
    pub player: U,
    pub claim: RouteGuard<AuthKey, R>,
}

/// A player who has been announced, as a mathematical value: the player, the key
/// of the announcement, and the channel on which the claim arrives.
pub struct Relay<U> {
    pub player: U,
    pub key: Seq<u8>,
    pub channel: int,
}

impl<U, C> View for Waiting<U, Receiver<C>> {
    type V = Relay<U>;

    open spec fn view(&self) -> Relay<U> {
        Relay { player: self.player, key: self.claim.name@, channel: self.claim.queue.id() }
    }
}

/// A player announced under a key whose claims go to a queue.
pub open spec fn relay<U, C>(player: U, key: Seq<u8>, queue: Sender<C>) -> Relay<U> {
    Relay { player, key, channel: queue.id() }
}

/// Routes the key under which a player was announced to the guard that waits for
/// the claim.
pub fn await_claim<U, C>(
    player: U,
    key: AuthKey,
    router: &mut Router<AuthKey, Sender<C>>,
) -> (r: Waiting<U, Receiver<C>>)
    ensures
        final(router)@.contains_key(key@),
        final(router)@ == old(router)@.insert(key@, final(router)@[key@]),
        r@ == relay(player, key@, final(router)@[key@]),
        r.player == player,
        r.claim.name@ == key@,
        r.claim.queue.id() == final(router)@[key@].id(),
        crate::queue::fresh(old(router)@, r@.channel),
        crate::router::apart(old(router)@) ==> crate::router::apart(final(router)@),
{
    let claim = RouteGuard::new(router, key);
    Waiting { player, claim }
}

/// The routes once keys have been routed to queues, one after the other.
pub open spec fn awaited<C>(
    routes: Map<Seq<u8>, Sender<C>>,
    keys: Seq<Seq<u8>>,
    queues: Seq<Sender<C>>,
) -> Map<Seq<u8>, Sender<C>>
    decreases keys.len(),
{
    if keys.len() == 0 {
        routes
    } else {
        awaited(routes, keys.drop_last(), queues.drop_last()).insert(keys.last(), queues.last())
    }
}

/// Whether each of the queues was of a new channel when its key was routed to it.
pub open spec fn fresh_in_turn<C>(
    routes: Map<Seq<u8>, Sender<C>>,
    keys: Seq<Seq<u8>>,
    queues: Seq<Sender<C>>,
) -> bool
    decreases keys.len(),
{
    keys.len() == 0 || {
        &&& fresh_in_turn(routes, keys.drop_last(), queues.drop_last())
        &&& crate::queue::fresh(
            awaited(routes, keys.drop_last(), queues.drop_last()),
            queues.last().id(),
        )
    }
}

/// The players who have been announced, given who arrived, under which keys, and
/// on which queues the claims are awaited.
pub open spec fn relays<U, C>(
    arrived: Seq<U>,
    keys: Seq<Seq<u8>>,
    queues: Seq<Sender<C>>,
) -> Seq<Relay<U>> {
    Seq::new(arrived.len(), |i: int| relay(arrived[i], keys[i], queues[i]))
}

/// Whether each of the players waits under a key of their own that leads to
/// their channel, and no two keys lead to one channel.
pub open spec fn awaiting<U, C>(
    routes: Map<Seq<u8>, Sender<C>>,
    waiting: Seq<Relay<U>>,
) -> bool {
    &&& crate::router::apart(routes)
    &&& forall|i: int|
        0 <= i < waiting.len() ==> crate::router::target(routes, (#[trigger] waiting[i]).key)
            == Some(waiting[i].channel)
    &&& forall|i: int, j: int|
        0 <= i < j < waiting.len() ==> (#[trigger] waiting[i]).key != (#[trigger] waiting[j]).key
}

/// A player who is announced under a new key, with the claim awaited on a new
/// channel, joins those who wait, and for the others nothing changes.
pub proof fn law_player_joins<U, C>(
    routes: Map<Seq<u8>, Sender<C>>,
    waiting: Seq<Relay<U>>,
    player: U,
    key: Seq<u8>,
    queue: Sender<C>,
)
    requires
        awaiting(routes, waiting),
        crate::queue::fresh(routes, queue.id()),
        forall|i: int| 0 <= i < waiting.len() ==> (#[trigger] waiting[i]).key != key,
    ensures
        awaiting(routes.insert(key, queue), waiting.push(relay(player, key, queue))),
{
    let after = waiting.push(relay(player, key, queue));
    crate::router::law_routes_stay_apart(routes, key, queue);
    assert forall|i: int| 0 <= i < after.len() implies crate::router::target(
        routes.insert(key, queue),
        (#[trigger] after[i]).key,
    ) == Some(after[i].channel) by {
        if i < waiting.len() {
            assert(after[i] == waiting[i]);
        }
    }
    assert forall|i: int, j: int| 0 <= i < j < after.len() implies (#[trigger] after[i]).key != (
    #[trigger] after[j]).key by {
        assert(after[i] == waiting[i]);
        if j < waiting.len() {
            assert(after[j] == waiting[j]);
        }
    }
}

/// When a player's guard goes, the others wait as before.
pub proof fn law_player_leaves<U, C>(
    routes: Map<Seq<u8>, Sender<C>>,
    waiting: Seq<Relay<U>>,
    i: int,
)
    requires
        awaiting(routes, waiting),
        0 <= i < waiting.len(),
    ensures
        awaiting(routes.remove(waiting[i].key), waiting.remove(i)),
{
    let after = waiting.remove(i);
    assert forall|j: int| 0 <= j < after.len() implies crate::router::target(
        routes.remove(waiting[i].key),
        (#[trigger] after[j]).key,
    ) == Some(after[j].channel) by {
        if j < i {
            assert(after[j] == waiting[j]);
            assert(waiting[j].key != waiting[i].key);
        } else {
            assert(after[j] == waiting[j + 1]);
            assert(waiting[i].key != waiting[j + 1].key);
        }
    }
    assert forall|j: int, k: int| 0 <= j < k < after.len() implies (#[trigger] after[j]).key != (
    #[trigger] after[k]).key by {
        let p = if j < i {
            j
        } else {
            j + 1
        };
        let q = if k < i {
            k
        } else {
            k + 1
        };
        assert(after[j] == waiting[p]);
        assert(after[k] == waiting[q]);
    }
}

/// Behind its name a client is told of every player who arrives, once and in
/// order, under the key that leads to the guard waiting on that player's behalf
/// and to no other. The keys are taken to be different, as keys drawn at random
/// are.
pub proof fn law_players_are_announced<U, C>(
    domain: Seq<char>,
    arrived: Seq<U>,
    keys: Seq<Seq<u8>>,
    queues: Seq<Sender<C>>,
    routes: Map<Seq<u8>, Sender<C>>,
)
    requires
        arrived.len() == keys.len(),
        arrived.len() == queues.len(),
        keys.no_duplicates(),
        crate::router::apart(routes),
        fresh_in_turn(routes, keys, queues),
    ensures
        ({
            let said = crate::client::server_says(domain, keys);
            let waiting = relays(arrived, keys, queues);
            &&& said.len() == arrived.len() + 1
            &&& said[0] == MessageView::AssignedDomain(domain)
            &&& waiting.len() == arrived.len()
            &&& forall|i: int|
                0 <= i < arrived.len() ==> {
                    &&& (#[trigger] waiting[i]).player == arrived[i]
                    &&& said[i + 1] == MessageView::IncomingConnection(waiting[i].key)
                }
            &&& awaiting(awaited(routes, keys, queues), waiting)
        }),
{
    lemma_awaiting(arrived, keys, queues, routes);
}

proof fn lemma_awaiting<U, C>(
    arrived: Seq<U>,
    keys: Seq<Seq<u8>>,
    queues: Seq<Sender<C>>,
    routes: Map<Seq<u8>, Sender<C>>,
)
    requires
        arrived.len() == keys.len(),
        arrived.len() == queues.len(),
        keys.no_duplicates(),
        crate::router::apart(routes),
        fresh_in_turn(routes, keys, queues),
    ensures
        awaiting(awaited(routes, keys, queues), relays(arrived, keys, queues)),
    decreases keys.len(),
{
    if keys.len() > 0 {
        let last = keys.len() - 1;
        let before = relays(arrived.drop_last(), keys.drop_last(), queues.drop_last());
        lemma_awaiting(arrived.drop_last(), keys.drop_last(), queues.drop_last(), routes);
        assert forall|i: int| 0 <= i < before.len() implies (#[trigger] before[i]).key
            != keys[last] by {
            assert(before[i].key == keys[i]);
        }
        law_player_joins(
            awaited(routes, keys.drop_last(), queues.drop_last()),
            before,
            arrived[last],
            keys[last],
            queues[last],
        );
        assert(relays(arrived, keys, queues) =~= before.push(
            relay(arrived[last], keys[last], queues[last]),
        ));
    }
}

/// A connection that claims a player arrives at the guard that waits on that
/// player's behalf and at no other player's: once it has been handed over under
/// the key of a player who waits, it is on that player's channel alone.
pub proof fn law_claim_reaches_its_player<U, C>(
    routes: Map<Seq<u8>, Sender<C>>,
    waiting: Seq<Relay<U>>,
    i: int,
    conn: C,
    sent: Sent<C>,
)
    requires
        awaiting(routes, waiting),
        0 <= i < waiting.len(),
        crate::router::routed(routes, waiting[i].key, conn, Ok(sent)),
    ensures
        sent.id() == waiting[i].channel,
        sent.value() == conn,
        forall|j: int|
            0 <= j < waiting.len() && j != i ==> (#[trigger] waiting[j]).channel != sent.id(),
{
    assert forall|j: int| 0 <= j < waiting.len() && j != i implies (
    #[trigger] waiting[j]).channel != sent.id() by {
        assert(waiting[i].key != waiting[j].key) by {
            if i < j {
                assert(waiting[i].key != waiting[j].key);
            } else {
                assert(waiting[j].key != waiting[i].key);
            }
        }
    }
}

/// What arrives on the channel of a player who waits is a claim of that player:
/// whatever was handed over under any key, it is there only if the key was the
/// player's own.
pub proof fn law_player_gets_own_claims<U, C>(
    routes: Map<Seq<u8>, Sender<C>>,
    waiting: Seq<Relay<U>>,
    i: int,
    key: Seq<u8>,
    conn: C,
    sent: Sent<C>,
)
    requires
        awaiting(routes, waiting),
        0 <= i < waiting.len(),
        crate::router::routed(routes, key, conn, Ok(sent)),
    ensures
        sent.id() == waiting[i].channel <==> key == waiting[i].key,
{
    assert(crate::router::target(routes, waiting[i].key) == Some(waiting[i].channel));
}

/// What a claimed connection carries before the player's own bytes: the message
/// that the stream begins, and the handshake on the player's behalf.
pub open spec fn opening(protocol_version: i32, is_serverlistping: bool) -> Seq<u8> {
    crate::message::frame(MessageView::SwitchToNetty) + crate::minecraft::packet(
        crate::minecraft::forwarded(protocol_version, is_serverlistping),
    )
}

/// Appends what a claimed connection carries before the player's own bytes.
/// Where the handshake cannot be written, only the message in front of it is.
pub fn open_stream(out: &mut Vec<u8>, protocol_version: i32, is_serverlistping: bool) -> (r: Result<
    (),
    NettyError,
>)
    ensures
        protocol_version >= 0 <==> r is Ok,
        r is Ok ==> final(out)@ == old(out)@ + opening(protocol_version, is_serverlistping),
        r matches Err(e) ==> e == NettyError::VarIntTooBig && final(out)@ == old(out)@
            + crate::message::frame(MessageView::SwitchToNetty),
{
    let ghost start = out@;
    proof {
        crate::wire::lemma_le_len(0, 4);
    }
    let _ = Message::SwitchToNetty.write_to(out);
    match forward_handshake(protocol_version, is_serverlistping) {
        Err(e) => Err(e),
        Ok(handshake) => {
            out.extend_from_slice(handshake.as_slice());
            assert(out@ =~= start + opening(protocol_version, is_serverlistping));
            Ok(())
        },
    }
}

/// What the client finds on a claimed connection: the message that the stream
/// begins, and behind it a greeting with the player's protocol version and wish,
/// and behind that the player's own bytes.
pub proof fn law_opening(protocol_version: i32, is_serverlistping: bool, rest: Seq<u8>)
    requires
        protocol_version >= 0,
    ensures
        ({
            let stream = opening(protocol_version, is_serverlistping) + rest;
            let start = crate::message::frame(MessageView::SwitchToNetty).len();
            let end = opening(protocol_version, is_serverlistping).len();
            &&& crate::message::message_at(stream, 0) == Parse::<_, MessageError>::Done(
                MessageView::SwitchToNetty,
                start,
            )
            &&& crate::minecraft::greeting_in(stream.skip(start as int)) == Parse::<
                _,
                MinecraftError,
            >::Done(
                GreetingView::Handshake {
                    protocol_version,
                    addr: crate::minecraft::FORWARDED_HOST@,
                    is_serverlistping,
                },
                (end - start) as nat,
            )
            &&& stream.skip(end as int) == rest
        }),
{
    let handshake = crate::minecraft::packet(
        crate::minecraft::forwarded(protocol_version, is_serverlistping),
    );
    lemma_opening_message(handshake, rest);
    crate::minecraft::law_forwarded_handshake(protocol_version, is_serverlistping, rest);
}

/// Where the message that the stream begins stands in front of other bytes.
proof fn lemma_opening_message(handshake: Seq<u8>, rest: Seq<u8>)
    ensures
        ({
            let switch = crate::message::frame(MessageView::SwitchToNetty);
            let stream = switch + handshake + rest;
            &&& crate::message::message_at(stream, 0) == Parse::<_, MessageError>::Done(
                MessageView::SwitchToNetty,
                switch.len(),
            )
            &&& stream.skip(switch.len() as int) == handshake + rest
            &&& stream.skip((switch + handshake).len() as int) == rest
        }),
{
    let switch = crate::message::frame(MessageView::SwitchToNetty);
    let stream = switch + handshake + rest;
    crate::wire::lemma_le_len(0, 4);
    crate::message::law_frame_round_trip(Seq::empty(), Message::SwitchToNetty, handshake + rest);
    assert(stream =~= Seq::<u8>::empty() + switch + (handshake + rest));
    assert(stream.skip(switch.len() as int) =~= handshake + rest);
    assert(stream.skip((switch + handshake).len() as int) =~= rest);
}

} // verus!
