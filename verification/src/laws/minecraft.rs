//! What is heard from a player's client and what is said to it, field by field.

use crate::minecraft::Action;
use crate::minecraft::ActionView;
use crate::minecraft::Greeting;
use crate::minecraft::GreetingView;
use crate::minecraft::MinecraftError;
use crate::minecraft::Phase;
use crate::netty::NettyError;
use crate::parse::Parse;
use vstd::prelude::*;
use vstd::utf8::*;

verus! {

/// The view of a greeting keeps what it says.
pub proof fn law_greeting_views(protocol_version: i32, addr: String, is_serverlistping: bool)
    ensures
        Greeting::LegacyPing@ == GreetingView::LegacyPing,
        (Greeting::Handshake { protocol_version, addr, is_serverlistping })@
            == (GreetingView::Handshake { protocol_version, addr: addr@, is_serverlistping }),
{
}

/// The view of an action keeps what is to be done.
pub proof fn law_action_views(
    n: usize,
    phase: Phase,
    bytes: Vec<u8>,
    next: Option<Phase>,
    name: String,
    protocol_version: i32,
    is_serverlistping: bool,
    e: MinecraftError,
)
    ensures
        crate::minecraft::action_view(Ok(Action::Read(n))) == Ok::<ActionView, MinecraftError>(
            ActionView::Read(n as nat),
        ),
        crate::minecraft::action_view(Ok(Action::Enter(phase))) == Ok::<ActionView, MinecraftError>(
            ActionView::Enter(phase),
        ),
        crate::minecraft::action_view(Ok(Action::Send(bytes, next))) == Ok::<
            ActionView,
            MinecraftError,
        >(ActionView::Send(bytes@, next)),
        crate::minecraft::action_view(
            Ok(Action::Route { name, protocol_version, is_serverlistping }),
        ) == Ok::<ActionView, MinecraftError>(
            ActionView::Route { name: name@, protocol_version, is_serverlistping },
        ),
        crate::minecraft::action_view(Err(e)) == Err::<ActionView, MinecraftError>(e),
{
}

/// Reading a greeting says what was found: the greeting and the position behind
/// it, how many bytes are missing, or why there is none.
pub proof fn law_greeting_outcomes(g: Greeting, end: usize, missing: usize, e: MinecraftError)
    ensures
        crate::minecraft::greeting_outcome(Ok((g, end))) == Parse::<
            GreetingView,
            MinecraftError,
        >::Done(g@, end as nat),
        crate::minecraft::greeting_outcome(Err(MinecraftError::Incomplete(missing))) == Parse::<
            GreetingView,
            MinecraftError,
        >::Need(missing as nat),
        !(e is Incomplete) ==> crate::minecraft::greeting_outcome(Err(e)) == Parse::<
            GreetingView,
            MinecraftError,
        >::Fail(e),
{
}

/// Whether bytes are a variable-length integer and nothing else.
pub open spec fn is_varint(w: Seq<u8>, v: i32) -> bool {
    crate::netty::varint_at(w, 0) == Parse::<i32, NettyError>::Done(v, w.len())
}

/// Whether bytes are a string and nothing else.
pub open spec fn is_string(w: Seq<u8>, s: Seq<char>) -> bool {
    crate::netty::text_at(w, 0) == Parse::<Seq<char>, NettyError>::Done(s, w.len())
}

/// A variable-length integer behind other bytes and in front of more.
proof fn lemma_varint_between(pre: Seq<u8>, w: Seq<u8>, v: i32, rest: Seq<u8>)
    requires
        is_varint(w, v),
    ensures
        crate::netty::varint_at(pre + (w + rest), pre.len()) == Parse::<i32, NettyError>::Done(
            v,
            pre.len() + w.len(),
        ),
{
    crate::netty::law_varint_continues(w, rest, 0);
    crate::netty::lemma_varint_shift(pre, w + rest, 0);
}

/// A string behind other bytes and in front of more.
proof fn lemma_string_between(pre: Seq<u8>, w: Seq<u8>, s: Seq<char>, rest: Seq<u8>)
    requires
        is_string(w, s),
    ensures
        crate::netty::text_at(pre + (w + rest), pre.len()) == Parse::<
            Seq<char>,
            NettyError,
        >::Done(s, pre.len() + w.len()),
{
    crate::netty::law_string_continues(w, rest, 0);
    crate::netty::lemma_string_shift(pre, w + rest, 0);
}

/// A greeting is a length and, unless that is 254, the number of a packet, a
/// protocol version, a host, a port and a state. The number is 0, and the state 1
/// for the status or 2 for a login; anything else is refused.
pub proof fn law_greeting_value(
    length: Seq<u8>,
    n: i32,
    number: Seq<u8>,
    id: i32,
    version: Seq<u8>,
    protocol_version: i32,
    name: Seq<u8>,
    host: Seq<char>,
    port: Seq<u8>,
    wish: Seq<u8>,
    state: i32,
    rest: Seq<u8>,
)
    requires
        is_varint(length, n),
        is_varint(number, id),
        is_varint(version, protocol_version),
        is_string(name, host),
        port.len() == 2,
        is_varint(wish, state),
    ensures
        ({
            let b = length + (number + (version + (name + (port + (wish + rest)))));
            let found = crate::minecraft::greeting_in(b);
            &&& n == 254 ==> found == Parse::<GreetingView, MinecraftError>::Done(
                GreetingView::LegacyPing,
                length.len(),
            )
            &&& n != 254 && id != 0 ==> found == Parse::<GreetingView, MinecraftError>::Fail(
                MinecraftError::InvalidPacketId,
            )
            &&& n != 254 && id == 0 && (state == 1 || state == 2) ==> found == Parse::<
                GreetingView,
                MinecraftError,
            >::Done(
                GreetingView::Handshake {
                    protocol_version,
                    addr: host,
                    is_serverlistping: state == 1,
                },
                length.len() + number.len() + version.len() + name.len() + 2 + wish.len(),
            )
            &&& n != 254 && id == 0 && state != 1 && state != 2 ==> found == Parse::<
                GreetingView,
                MinecraftError,
            >::Fail(MinecraftError::InvalidState)
        }),
{
    let r4 = wish + rest;
    let r3 = port + r4;
    let r2 = name + r3;
    let r1 = version + r2;
    let r0 = number + r1;
    let b = length + r0;
    let p1 = length;
    let p2 = p1 + number;
    let p3 = p2 + version;
    let p4 = p3 + name;
    let p5 = p4 + port;
    assert(b =~= Seq::<u8>::empty() + (length + r0));
    lemma_varint_between(Seq::empty(), length, n, r0);
    lemma_varint_between(p1, number, id, r1);
    assert(b =~= p2 + r1);
    lemma_varint_between(p2, version, protocol_version, r2);
    assert(p2 + r1 =~= p3 + r2);
    lemma_string_between(p3, name, host, r3);
    assert(p3 + r2 =~= p4 + r3);
    assert(crate::netty::short_at(b, p4.len()) is Done);
    assert(p4 + r3 =~= p5 + r4);
    lemma_varint_between(p5, wish, state, rest);
}

/// A ping of the old kind is known by its length alone, and a packet that is no
/// handshake is refused by its number, whatever follows.
pub proof fn law_greeting_known_early(
    length: Seq<u8>,
    n: i32,
    number: Seq<u8>,
    id: i32,
    x: Seq<u8>,
)
    requires
        is_varint(length, n),
        is_varint(number, id),
    ensures
        n == 254 ==> crate::minecraft::greeting_in(length + x) == Parse::<
            GreetingView,
            MinecraftError,
        >::Done(GreetingView::LegacyPing, length.len()),
        n != 254 && id != 0 ==> crate::minecraft::greeting_in(length + (number + x)) == Parse::<
            GreetingView,
            MinecraftError,
        >::Fail(MinecraftError::InvalidPacketId),
        n != 1 ==> crate::minecraft::status_request_in(length + x) == Parse::<
            (),
            MinecraftError,
        >::Fail(MinecraftError::InvalidStatusRequest),
{
    let none = Seq::<u8>::empty();
    assert(length + x =~= none + (length + x));
    assert(length + (number + x) =~= none + (length + (number + x)));
    lemma_varint_between(none, length, n, x);
    lemma_varint_between(none, length, n, number + x);
    lemma_varint_between(length, number, id, x);
}

/// Where one of the fields of a greeting cannot be read, neither can the greeting,
/// and for the same reason; where bytes of it are missing, the same are asked for.
pub proof fn law_greeting_breaks(
    length: Seq<u8>,
    n: i32,
    number: Seq<u8>,
    version: Seq<u8>,
    protocol_version: i32,
    name: Seq<u8>,
    host: Seq<char>,
    port: Seq<u8>,
    x: Seq<u8>,
    e: NettyError,
    missing: nat,
)
    requires
        is_varint(length, n),
        n != 254,
        is_varint(number, 0),
        is_varint(version, protocol_version),
        is_string(name, host),
        port.len() == 2,
    ensures
        ({
            let fail = Parse::<GreetingView, MinecraftError>::Fail(MinecraftError::Netty(e));
            let need = Parse::<GreetingView, MinecraftError>::Need(missing);
            let no_varint = crate::netty::varint_at(x, 0) == Parse::<i32, NettyError>::Fail(e);
            let half_varint = crate::netty::varint_at(x, 0) == Parse::<i32, NettyError>::Need(
                missing,
            );
            let no_string = crate::netty::text_at(x, 0) == Parse::<Seq<char>, NettyError>::Fail(e);
            let half_string = crate::netty::text_at(x, 0) == Parse::<
                Seq<char>,
                NettyError,
            >::Need(missing);
            &&& no_varint ==> {
                &&& crate::minecraft::greeting_in(x) == fail
                &&& crate::minecraft::greeting_in(length + x) == fail
                &&& crate::minecraft::greeting_in(length + (number + x)) == fail
                &&& crate::minecraft::greeting_in(
                    length + (number + (version + (name + (port + x)))),
                ) == fail
            }
            &&& half_varint ==> {
                &&& crate::minecraft::greeting_in(x) == need
                &&& crate::minecraft::greeting_in(length + x) == need
                &&& crate::minecraft::greeting_in(length + (number + x)) == need
                &&& crate::minecraft::greeting_in(
                    length + (number + (version + (name + (port + x)))),
                ) == need
            }
            &&& no_string ==> crate::minecraft::greeting_in(length + (number + (version + x)))
                == fail
            &&& half_string ==> crate::minecraft::greeting_in(length + (number + (version + x)))
                == need
            &&& x.len() < 2 ==> crate::minecraft::greeting_in(
                length + (number + (version + (name + x))),
            ) == Parse::<GreetingView, MinecraftError>::Need((2 - x.len()) as nat)
        }),
{
    lemma_breaks_early(length, n, number, x, e, missing);
    lemma_breaks_late(
        length,
        n,
        number,
        version,
        protocol_version,
        name,
        host,
        port,
        x,
        e,
        missing,
    );
}

proof fn lemma_breaks_early(
    length: Seq<u8>,
    n: i32,
    number: Seq<u8>,
    x: Seq<u8>,
    e: NettyError,
    missing: nat,
)
    requires
        is_varint(length, n),
        n != 254,
        is_varint(number, 0),
    ensures
        ({
            let fail = Parse::<GreetingView, MinecraftError>::Fail(MinecraftError::Netty(e));
            let need = Parse::<GreetingView, MinecraftError>::Need(missing);
            &&& crate::netty::varint_at(x, 0) == Parse::<i32, NettyError>::Fail(e) ==> {
                &&& crate::minecraft::greeting_in(x) == fail
                &&& crate::minecraft::greeting_in(length + x) == fail
                &&& crate::minecraft::greeting_in(length + (number + x)) == fail
            }
            &&& crate::netty::varint_at(x, 0) == Parse::<i32, NettyError>::Need(missing) ==> {
                &&& crate::minecraft::greeting_in(x) == need
                &&& crate::minecraft::greeting_in(length + x) == need
                &&& crate::minecraft::greeting_in(length + (number + x)) == need
            }
        }),
{
    let none = Seq::<u8>::empty();
    assert(length + x =~= none + (length + x));
    assert(length + (number + x) =~= none + (length + (number + x)));
    lemma_varint_between(none, length, n, x);
    lemma_varint_between(none, length, n, number + x);
    crate::netty::lemma_varint_shift(length, x, 0);
    lemma_varint_between(length, number, 0, x);
    assert(length + (number + x) =~= (length + number) + x);
    crate::netty::lemma_varint_shift(length + number, x, 0);
}

proof fn lemma_breaks_late(
    length: Seq<u8>,
    n: i32,
    number: Seq<u8>,
    version: Seq<u8>,
    protocol_version: i32,
    name: Seq<u8>,
    host: Seq<char>,
    port: Seq<u8>,
    x: Seq<u8>,
    e: NettyError,
    missing: nat,
)
    requires
        is_varint(length, n),
        n != 254,
        is_varint(number, 0),
        is_varint(version, protocol_version),
        is_string(name, host),
        port.len() == 2,
    ensures
        ({
            let fail = Parse::<GreetingView, MinecraftError>::Fail(MinecraftError::Netty(e));
            let need = Parse::<GreetingView, MinecraftError>::Need(missing);
            let last = length + (number + (version + (name + (port + x))));
            &&& crate::netty::varint_at(x, 0) == Parse::<i32, NettyError>::Fail(e)
                ==> crate::minecraft::greeting_in(last) == fail
            &&& crate::netty::varint_at(x, 0) == Parse::<i32, NettyError>::Need(missing)
                ==> crate::minecraft::greeting_in(last) == need
            &&& crate::netty::text_at(x, 0) == Parse::<Seq<char>, NettyError>::Fail(e)
                ==> crate::minecraft::greeting_in(length + (number + (version + x))) == fail
            &&& crate::netty::text_at(x, 0) == Parse::<Seq<char>, NettyError>::Need(missing)
                ==> crate::minecraft::greeting_in(length + (number + (version + x))) == need
            &&& x.len() < 2 ==> crate::minecraft::greeting_in(
                length + (number + (version + (name + x))),
            ) == Parse::<GreetingView, MinecraftError>::Need((2 - x.len()) as nat)
        }),
{
    lemma_breaks_in_host(length, n, number, version, protocol_version, x, e, missing);
    lemma_breaks_in_port(length, n, number, version, protocol_version, name, host, x);
    lemma_breaks_in_state(
        length,
        n,
        number,
        version,
        protocol_version,
        name,
        host,
        port,
        x,
        e,
        missing,
    );
}

proof fn lemma_breaks_in_host(
    length: Seq<u8>,
    n: i32,
    number: Seq<u8>,
    version: Seq<u8>,
    protocol_version: i32,
    x: Seq<u8>,
    e: NettyError,
    missing: nat,
)
    requires
        is_varint(length, n),
        n != 254,
        is_varint(number, 0),
        is_varint(version, protocol_version),
    ensures
        crate::netty::text_at(x, 0) == Parse::<Seq<char>, NettyError>::Fail(e)
            ==> crate::minecraft::greeting_in(length + (number + (version + x))) == Parse::<
            GreetingView,
            MinecraftError,
        >::Fail(MinecraftError::Netty(e)),
        crate::netty::text_at(x, 0) == Parse::<Seq<char>, NettyError>::Need(missing)
            ==> crate::minecraft::greeting_in(length + (number + (version + x))) == Parse::<
            GreetingView,
            MinecraftError,
        >::Need(missing),
{
    let p3 = length + number + version;
    lemma_up_to_host(length, n, number, version, protocol_version, x);
    assert(length + (number + (version + x)) =~= p3 + x);
    crate::netty::lemma_string_shift(p3, x, 0);
}

proof fn lemma_breaks_in_port(
    length: Seq<u8>,
    n: i32,
    number: Seq<u8>,
    version: Seq<u8>,
    protocol_version: i32,
    name: Seq<u8>,
    host: Seq<char>,
    x: Seq<u8>,
)
    requires
        is_varint(length, n),
        n != 254,
        is_varint(number, 0),
        is_varint(version, protocol_version),
        is_string(name, host),
    ensures
        x.len() < 2 ==> crate::minecraft::greeting_in(length + (number + (version + (name + x))))
            == Parse::<GreetingView, MinecraftError>::Need((2 - x.len()) as nat),
{
    let p3 = length + number + version;
    lemma_up_to_host(length, n, number, version, protocol_version, name + x);
    assert(length + (number + (version + (name + x))) =~= p3 + (name + x));
    lemma_string_between(p3, name, host, x);
}

proof fn lemma_breaks_in_state(
    length: Seq<u8>,
    n: i32,
    number: Seq<u8>,
    version: Seq<u8>,
    protocol_version: i32,
    name: Seq<u8>,
    host: Seq<char>,
    port: Seq<u8>,
    x: Seq<u8>,
    e: NettyError,
    missing: nat,
)
    requires
        is_varint(length, n),
        n != 254,
        is_varint(number, 0),
        is_varint(version, protocol_version),
        is_string(name, host),
        port.len() == 2,
    ensures
        ({
            let last = length + (number + (version + (name + (port + x))));
            &&& crate::netty::varint_at(x, 0) == Parse::<i32, NettyError>::Fail(e)
                ==> crate::minecraft::greeting_in(last) == Parse::<
                GreetingView,
                MinecraftError,
            >::Fail(MinecraftError::Netty(e))
            &&& crate::netty::varint_at(x, 0) == Parse::<i32, NettyError>::Need(missing)
                ==> crate::minecraft::greeting_in(last) == Parse::<
                GreetingView,
                MinecraftError,
            >::Need(missing)
        }),
{
    let p3 = length + number + version;
    let p4 = p3 + name;
    let p5 = p4 + port;
    let last = length + (number + (version + (name + (port + x))));
    lemma_up_to_host(length, n, number, version, protocol_version, name + (port + x));
    assert(last =~= p3 + (name + (port + x)));
    lemma_string_between(p3, name, host, port + x);
    assert(p3 + (name + (port + x)) =~= p5 + x);
    assert(crate::netty::short_at(last, p4.len()) is Done);
    crate::netty::lemma_varint_shift(p5, x, 0);
}

/// Behind a length, a number and a protocol version stands the host.
proof fn lemma_up_to_host(
    length: Seq<u8>,
    n: i32,
    number: Seq<u8>,
    version: Seq<u8>,
    protocol_version: i32,
    x: Seq<u8>,
)
    requires
        is_varint(length, n),
        n != 254,
        is_varint(number, 0),
        is_varint(version, protocol_version),
    ensures
        crate::minecraft::greeting_in(length + (number + (version + x)))
            == crate::minecraft::host_at(
            length + (number + (version + x)),
            length.len() + number.len() + version.len(),
            protocol_version,
        ),
{
    let b = length + (number + (version + x));
    let none = Seq::<u8>::empty();
    assert(b =~= none + (length + (number + (version + x))));
    lemma_varint_between(none, length, n, number + (version + x));
    lemma_varint_between(length, number, 0, version + x);
    assert(b =~= (length + number) + (version + x));
    lemma_varint_between(length + number, version, protocol_version, x);
}

/// A request for the status is the length 1 and the number 0.
pub proof fn law_status_request_value(
    length: Seq<u8>,
    n: i32,
    number: Seq<u8>,
    id: i32,
    rest: Seq<u8>,
)
    requires
        is_varint(length, n),
        is_varint(number, id),
    ensures
        ({
            let found = crate::minecraft::status_request_in(length + (number + rest));
            &&& n == 1 && id == 0 ==> found == Parse::<(), MinecraftError>::Done(
                (),
                length.len() + number.len(),
            )
            &&& n != 1 || id != 0 ==> found == Parse::<(), MinecraftError>::Fail(
                MinecraftError::InvalidStatusRequest,
            )
        }),
{
    let none = Seq::<u8>::empty();
    assert(length + (number + rest) =~= none + (length + (number + rest)));
    lemma_varint_between(none, length, n, number + rest);
    lemma_varint_between(length, number, id, rest);
}

/// Where a field of a request for the status cannot be read, neither can the
/// request.
pub proof fn law_status_request_breaks(length: Seq<u8>, x: Seq<u8>, e: NettyError, missing: nat)
    requires
        is_varint(length, 1),
    ensures
        crate::netty::varint_at(x, 0) == Parse::<i32, NettyError>::Fail(e) ==> {
            &&& crate::minecraft::status_request_in(x) == Parse::<(), MinecraftError>::Fail(
                MinecraftError::Netty(e),
            )
            &&& crate::minecraft::status_request_in(length + x) == Parse::<
                (),
                MinecraftError,
            >::Fail(MinecraftError::Netty(e))
        },
        crate::netty::varint_at(x, 0) == Parse::<i32, NettyError>::Need(missing) ==> {
            &&& crate::minecraft::status_request_in(x) == Parse::<(), MinecraftError>::Need(missing)
            &&& crate::minecraft::status_request_in(length + x) == Parse::<
                (),
                MinecraftError,
            >::Need(missing)
        },
{
    let none = Seq::<u8>::empty();
    assert(length + x =~= none + (length + x));
    lemma_varint_between(none, length, 1, x);
    crate::netty::lemma_varint_shift(length, x, 0);
}

/// A number that is not negative is its written form and nothing else.
proof fn lemma_written_varint(v: i32)
    requires
        v >= 0,
    ensures
        is_varint(crate::netty::varint_written(v as int), v),
{
    let w = crate::netty::varint_written(v as int);
    let none = Seq::<u8>::empty();
    crate::netty::law_varint_round_trip(none, v, none);
    assert(none + w + none =~= w);
}

/// A text that is not too long is its written form and nothing else.
proof fn lemma_written_string(s: Seq<char>)
    requires
        encode_utf8(s).len() <= i32::MAX,
    ensures
        is_string(crate::netty::text_written(s), s),
{
    let w = crate::netty::text_written(s);
    let none = Seq::<u8>::empty();
    crate::netty::law_string_round_trip(none, s, none);
    assert(none + w + none =~= w);
}

/// A packet with a text holds its own length, the number 0 and the text, and
/// nothing behind them.
pub proof fn law_text_packet(s: Seq<char>)
    requires
        encode_utf8(s).len() <= 0x7FFF_0000,
    ensures
        ({
            let b = crate::minecraft::text_packet(s);
            &&& crate::netty::varint_at(b, 0) matches Parse::Done(n, p1)
            &&& n == b.len() - p1
            &&& crate::netty::varint_at(b, p1) matches Parse::Done(id, p2)
            &&& id == 0
            &&& crate::netty::text_at(b, p2) == Parse::<Seq<char>, NettyError>::Done(s, b.len())
        }),
{
    let w1 = crate::netty::varint_written(0);
    let w2 = crate::netty::text_written(s);
    let none = Seq::<u8>::empty();
    crate::netty::law_varint_shortest(0, 1);
    crate::netty::law_varint_shortest(encode_utf8(s).len() as i32, 5);
    reveal_with_fuel(crate::netty::place, 2);
    let payload = w1 + w2;
    let w0 = crate::netty::varint_written(payload.len() as int);
    let b = crate::minecraft::text_packet(s);
    lemma_written_varint(payload.len() as i32);
    lemma_written_varint(0);
    lemma_written_string(s);
    assert(b =~= none + (w0 + (w1 + w2)));
    lemma_varint_between(none, w0, payload.len() as i32, w1 + w2);
    assert(b =~= w0 + (w1 + w2));
    lemma_varint_between(w0, w1, 0, w2);
    assert(b =~= (w0 + w1) + (w2 + none));
    lemma_string_between(w0 + w1, w2, s, none);
}

/// The answer to a ping of the old kind is a marker, the number of characters in
/// two bytes, and two bytes for each character, the high ones first.
pub proof fn law_legacy_packet(s: Seq<char>)
    requires
        s.len() <= 0xFFFF,
        forall|i: int| 0 <= i < s.len() ==> (#[trigger] s[i]) as u32 <= 0xFFFF,
    ensures
        ({
            let b = crate::minecraft::legacy_packet(s);
            &&& b.len() == 3 + 2 * s.len()
            &&& b[0] == 0xFF
            &&& b[1] * 256 + b[2] == s.len()
            &&& forall|i: int|
                0 <= i < s.len() ==> b[3 + 2 * i] * 256 + b[4 + 2 * i] == #[trigger] s[i] as int
        }),
{
    lemma_utf16(s);
    let b = crate::minecraft::legacy_packet(s);
    let u = crate::minecraft::utf16(s);
    assert forall|i: int| 0 <= i < s.len() implies b[3 + 2 * i] * 256 + b[4 + 2 * i]
        == #[trigger] s[i] as int by {
        assert(b[3 + 2 * i] == u[2 * i]);
        assert(b[4 + 2 * i] == u[2 * i + 1]);
    }
}

proof fn lemma_char_of_16_bits(c: char)
    requires
        c as u32 <= 0xFFFF,
    ensures
        c as u16 as int == c as int,
{
}

proof fn lemma_utf16(s: Seq<char>)
    requires
        forall|i: int| 0 <= i < s.len() ==> (#[trigger] s[i]) as u32 <= 0xFFFF,
    ensures
        ({
            let u = crate::minecraft::utf16(s);
            &&& u.len() == 2 * s.len()
            &&& forall|i: int|
                0 <= i < s.len() ==> u[2 * i] * 256 + u[2 * i + 1] == #[trigger] s[i] as int
        }),
    decreases s.len(),
{
    if s.len() > 0 {
        let before = s.drop_last();
        assert forall|i: int| 0 <= i < before.len() implies (#[trigger] before[i]) as u32
            <= 0xFFFF by {
            assert(before[i] == s[i]);
        }
        lemma_utf16(before);
        let u = crate::minecraft::utf16(s);
        let v = crate::minecraft::utf16(before);
        assert(s[s.len() - 1] as u32 <= 0xFFFF);
        assert forall|i: int| 0 <= i < s.len() implies u[2 * i] * 256 + u[2 * i + 1]
            == #[trigger] s[i] as int by {
            if i < before.len() {
                assert(before[i] == s[i]);
                assert(u[2 * i] == v[2 * i]);
                assert(u[2 * i + 1] == v[2 * i + 1]);
            } else {
                let c = s.last() as u16;
                assert(s[i] == s.last());
                lemma_char_of_16_bits(s[i]);
                let w = crate::netty::short_written(c);
                assert(u[2 * i] == w[0]);
                assert(u[2 * i + 1] == w[1]);
                crate::laws::netty::law_short_bytes(c, w, 0);
            }
        }
    }
}

/// The handshake that is forwarded holds its own length, the number 0, the
/// player's protocol version, the host name of proxied connections, the port
/// 25565 and the player's wish, 1 for the status or 2 for a login, and nothing
/// behind them.
pub proof fn law_forwarded_fields(protocol_version: i32, is_serverlistping: bool)
    requires
        protocol_version >= 0,
    ensures
        ({
            let b = crate::minecraft::packet(
                crate::minecraft::forwarded(protocol_version, is_serverlistping),
            );
            &&& crate::netty::varint_at(b, 0) matches Parse::Done(n, p1)
            &&& n == b.len() - p1
            &&& crate::netty::varint_at(b, p1) matches Parse::Done(id, p2)
            &&& id == 0
            &&& crate::netty::varint_at(b, p2) matches Parse::Done(version, p3)
            &&& version == protocol_version
            &&& crate::netty::text_at(b, p3) matches Parse::Done(host, p4)
            &&& host == "minerp.proxied.connection"@
            &&& crate::netty::short_at(b, p4) matches Parse::Done(port, p5)
            &&& port == 25565
            &&& crate::netty::varint_at(b, p5) matches Parse::Done(state, p6)
            &&& state == (if is_serverlistping { 1i32 } else { 2i32 })
            &&& p6 == b.len()
        }),
{
    let payload = crate::minecraft::forwarded(protocol_version, is_serverlistping);
    let host = "minerp.proxied.connection"@;
    let state: i32 = if is_serverlistping { 1 } else { 2 };
    crate::minecraft::lemma_host();
    crate::minecraft::lemma_forwarded_len(protocol_version, is_serverlistping);
    lemma_written_varint(payload.len() as i32);
    lemma_written_varint(0);
    lemma_written_varint(protocol_version);
    lemma_written_string(host);
    lemma_written_varint(state);
    lemma_fields_in_a_row(
        crate::netty::varint_written(payload.len() as int),
        payload.len() as i32,
        crate::netty::varint_written(0),
        0,
        crate::netty::varint_written(protocol_version as int),
        protocol_version,
        crate::netty::text_written(host),
        host,
        crate::netty::short_written(25565),
        crate::netty::varint_written(state as int),
        state,
    );
}

proof fn lemma_fields_in_a_row(
    w0: Seq<u8>,
    v0: i32,
    w1: Seq<u8>,
    v1: i32,
    w2: Seq<u8>,
    v2: i32,
    w3: Seq<u8>,
    s3: Seq<char>,
    w4: Seq<u8>,
    w5: Seq<u8>,
    v5: i32,
)
    requires
        is_varint(w0, v0),
        is_varint(w1, v1),
        is_varint(w2, v2),
        is_string(w3, s3),
        w4.len() == 2,
        is_varint(w5, v5),
    ensures
        ({
            let b = w0 + (w1 + w2 + w3 + w4 + w5);
            let p1 = w0.len();
            let p2 = p1 + w1.len();
            let p3 = p2 + w2.len();
            let p4 = p3 + w3.len();
            let p5 = p4 + 2;
            &&& crate::netty::varint_at(b, 0) == Parse::<i32, NettyError>::Done(v0, p1)
            &&& crate::netty::varint_at(b, p1) == Parse::<i32, NettyError>::Done(v1, p2)
            &&& crate::netty::varint_at(b, p2) == Parse::<i32, NettyError>::Done(v2, p3)
            &&& crate::netty::text_at(b, p3) == Parse::<Seq<char>, NettyError>::Done(s3, p4)
            &&& crate::netty::short_at(b, p4) == Parse::<u16, NettyError>::Done(
                (w4[0] * 256 + w4[1]) as u16,
                p5,
            )
            &&& crate::netty::varint_at(b, p5) == Parse::<i32, NettyError>::Done(v5, b.len())
            &&& b.len() == p5 + w5.len()
        }),
{
    let b = w0 + (w1 + w2 + w3 + w4 + w5);
    let none = Seq::<u8>::empty();
    let r4 = w5 + none;
    let r3 = w4 + r4;
    let r2 = w3 + r3;
    let r1 = w2 + r2;
    let r0 = w1 + r1;
    lemma_regrouped(w0, w1, w2, w3, w4, w5);
    assert(crate::netty::varint_at(b, 0) == Parse::<i32, NettyError>::Done(v0, w0.len())) by {
        lemma_varint_between(none, w0, v0, r0);
    }
    assert(crate::netty::varint_at(b, w0.len()) == Parse::<i32, NettyError>::Done(
        v1,
        w0.len() + w1.len(),
    )) by {
        lemma_varint_between(w0, w1, v1, r1);
    }
    assert(crate::netty::varint_at(b, (w0 + w1).len()) == Parse::<i32, NettyError>::Done(
        v2,
        (w0 + w1).len() + w2.len(),
    )) by {
        lemma_varint_between(w0 + w1, w2, v2, r2);
    }
    assert(crate::netty::text_at(b, (w0 + w1 + w2).len()) == Parse::<
        Seq<char>,
        NettyError,
    >::Done(s3, (w0 + w1 + w2).len() + w3.len())) by {
        lemma_string_between(w0 + w1 + w2, w3, s3, r3);
    }
    assert(crate::netty::varint_at(b, (w0 + w1 + w2 + w3 + w4).len()) == Parse::<
        i32,
        NettyError,
    >::Done(v5, (w0 + w1 + w2 + w3 + w4).len() + w5.len())) by {
        lemma_varint_between(w0 + w1 + w2 + w3 + w4, w5, v5, none);
    }
}

/// Six fields in a row, grouped around each of them.
proof fn lemma_regrouped(
    w0: Seq<u8>,
    w1: Seq<u8>,
    w2: Seq<u8>,
    w3: Seq<u8>,
    w4: Seq<u8>,
    w5: Seq<u8>,
)
    requires
        w4.len() == 2,
    ensures
        ({
            let b = w0 + (w1 + w2 + w3 + w4 + w5);
            let none = Seq::<u8>::empty();
            let r4 = w5 + none;
            let r3 = w4 + r4;
            let r2 = w3 + r3;
            let r1 = w2 + r2;
            let r0 = w1 + r1;
            let q4 = w0 + w1 + w2 + w3;
            &&& b == none + (w0 + r0)
            &&& b == w0 + r0
            &&& b == w0 + w1 + r1
            &&& b == w0 + w1 + w2 + r2
            &&& b == q4 + r3
            &&& b == q4 + w4 + r4
            &&& b.len() == q4.len() + 2 + w5.len()
            &&& b[q4.len() as int] == w4[0]
            &&& b[q4.len() as int + 1] == w4[1]
        }),
{
    let b = w0 + (w1 + w2 + w3 + w4 + w5);
    let none = Seq::<u8>::empty();
    let r4 = w5 + none;
    let r3 = w4 + r4;
    let r2 = w3 + r3;
    let r1 = w2 + r2;
    let r0 = w1 + r1;
    let q4 = w0 + w1 + w2 + w3;
    assert(b =~= q4 + w4 + r4);
    assert(q4 + w4 + r4 =~= q4 + r3);
    assert(q4 + r3 =~= w0 + w1 + w2 + r2);
    assert(w0 + w1 + w2 + r2 =~= w0 + w1 + r1);
    assert(w0 + w1 + r1 =~= w0 + r0);
    assert(w0 + r0 =~= none + (w0 + r0));
    assert((q4 + r3)[q4.len() as int] == w4[0]);
    assert((q4 + r3)[q4.len() as int + 1] == w4[1]);
}

/// Where a player belongs who has greeted: a ping of the old kind is answered. A
/// host that is a name, a dot and the whole address of this server leads to the
/// route of the name, or, where the name has none, to an answer. Any other host is
/// refused.
pub proof fn law_welcome(
    protocol_version: i32,
    addr: Seq<char>,
    is_serverlistping: bool,
    name: Seq<char>,
    listen_addr: Seq<char>,
    names: Set<Seq<char>>,
)
    ensures
        crate::minecraft::welcome(GreetingView::LegacyPing, listen_addr, names) == Ok::<
            ActionView,
            MinecraftError,
        >(
            ActionView::Send(
                crate::minecraft::legacy_packet(crate::minecraft::LEGACY_TEXT@),
                None,
            ),
        ),
        ({
            let greeting = GreetingView::Handshake { protocol_version, addr, is_serverlistping };
            let next = crate::minecraft::welcome(greeting, listen_addr, names);
            &&& addr == name + seq!['.'] + listen_addr && names.contains(name) ==> next == Ok::<
                ActionView,
                MinecraftError,
            >(ActionView::Route { name, protocol_version, is_serverlistping })
            &&& addr == name + seq!['.'] + listen_addr && !names.contains(name)
                && is_serverlistping ==> next == Ok::<ActionView, MinecraftError>(
                ActionView::Enter(Phase::StatusRequest),
            )
            &&& addr == name + seq!['.'] + listen_addr && !names.contains(name)
                && !is_serverlistping ==> next == Ok::<ActionView, MinecraftError>(
                ActionView::Send(
                    crate::minecraft::text_packet(crate::minecraft::KICK_TEXT@),
                    None,
                ),
            )
            &&& (forall|stem: Seq<char>| addr != #[trigger] (stem + seq!['.']) + listen_addr)
                ==> next == Err::<ActionView, MinecraftError>(MinecraftError::InvalidHostname)
        }),
{
    crate::laws::domain::law_subdomain(addr, name, listen_addr);
    match crate::text::stem_of(addr, crate::domain::host_suffix(listen_addr)) {
        Some(stem) => {
            crate::laws::domain::law_subdomain(addr, stem, listen_addr);
        },
        None => {},
    }
}

/// What is read in a phase decides what is done: what is missing is read, what
/// cannot be read ends the conversation, a greeting leads where the player
/// belongs, and a request for the status is answered with it before the ping.
pub proof fn law_phases(
    read: Seq<u8>,
    listen_addr: Seq<char>,
    names: Set<Seq<char>>,
    n: nat,
    e: MinecraftError,
    greeting: GreetingView,
    end: nat,
)
    ensures
        ({
            let found = crate::minecraft::greeting_in(read);
            let next = crate::minecraft::next_action(Phase::Greeting, read, listen_addr, names);
            &&& found == Parse::<GreetingView, MinecraftError>::Need(n) ==> next == Ok::<
                ActionView,
                MinecraftError,
            >(ActionView::Read(n))
            &&& found == Parse::<GreetingView, MinecraftError>::Fail(e) ==> next == Err::<
                ActionView,
                MinecraftError,
            >(e)
            &&& found == Parse::<GreetingView, MinecraftError>::Done(greeting, end) ==> next
                == crate::minecraft::welcome(greeting, listen_addr, names)
        }),
        ({
            let found = crate::minecraft::status_request_in(read);
            let next = crate::minecraft::next_action(
                Phase::StatusRequest,
                read,
                listen_addr,
                names,
            );
            &&& found == Parse::<(), MinecraftError>::Need(n) ==> next == Ok::<
                ActionView,
                MinecraftError,
            >(ActionView::Read(n))
            &&& found == Parse::<(), MinecraftError>::Fail(e) ==> next == Err::<
                ActionView,
                MinecraftError,
            >(e)
            &&& found == Parse::<(), MinecraftError>::Done((), end) ==> next == Ok::<
                ActionView,
                MinecraftError,
            >(
                ActionView::Send(
                    crate::minecraft::text_packet(crate::minecraft::STATUS_TEXT@),
                    Some(Phase::Ping),
                ),
            )
        }),
{
}

/// The ten bytes of a ping come back as they are, each at its place, and then the
/// conversation is over; until there are ten, the missing ones are read.
pub proof fn law_ping_is_echoed(read: Seq<u8>, listen_addr: Seq<char>, names: Set<Seq<char>>)
    ensures
        ({
            let next = crate::minecraft::next_action(Phase::Ping, read, listen_addr, names);
            &&& read.len() >= 10 ==> {
                &&& next matches Ok(ActionView::Send(bytes, None))
                &&& bytes.len() == 10
                &&& forall|i: int| 0 <= i < 10 ==> #[trigger] bytes[i] == read[i]
            }
            &&& read.len() < 10 ==> next == Ok::<ActionView, MinecraftError>(
                ActionView::Read((10 - read.len()) as nat),
            )
        }),
{
}

} // verus!
