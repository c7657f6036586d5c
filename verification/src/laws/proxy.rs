//! What passes between the proxy server and a client.

use crate::message::MessageView;
use crate::proxy::Relay;
use crate::proxy::Waiting;
use crate::queue::Receiver;
use crate::queue::Sender;
use vstd::prelude::*;

verus! {

/// A client may open a connection by asking for a name or by showing a key, and
/// by nothing else.
pub proof fn law_openings(m: MessageView)
    ensures
        crate::proxy::opens_connection(m) <==> m is RequestDomain || m is Authenticate,
{
}

/// The view of a player who waits keeps the player, the key and the channel.
pub proof fn law_waiting_view<U, C>(w: Waiting<U, Receiver<C>>, queue: Sender<C>)
    ensures
        w@.player == w.player,
        w@.key == w.claim.name@,
        w@.channel == w.claim.queue.id(),
        crate::proxy::relay(w.player, w.claim.name@, queue) == (Relay {
            player: w.player,
            key: w.claim.name@,
            channel: queue.id(),
        }),
{
}

/// A claimed connection begins with the frame of the message that the stream
/// begins, which is eight bytes, and behind it stands the forwarded handshake.
pub proof fn law_opening_bytes(protocol_version: i32, is_serverlistping: bool)
    ensures
        crate::proxy::opening(protocol_version, is_serverlistping) == seq![
            0u8,
            0,
            0,
            4,
            0,
            0,
            0,
            0,
        ] + crate::minecraft::packet(
            crate::minecraft::forwarded(protocol_version, is_serverlistping),
        ),
{
    reveal_with_fuel(crate::wire::le, 5);
    let body = crate::message::body(MessageView::SwitchToNetty);
    assert(body =~= seq![0u8, 0, 0, 0]);
    assert(crate::wire::le(4, 4) =~= seq![4u8, 0, 0, 0]);
    assert(crate::message::be32(4) =~= seq![0u8, 0, 0, 4]);
    assert(crate::message::frame(MessageView::SwitchToNetty) =~= seq![0u8, 0, 0, 4, 0, 0, 0, 0]);
}

} // verus!
