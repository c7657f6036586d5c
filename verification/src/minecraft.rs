//! What is said to a player's client: reading its greeting, finding out where
//! it belongs, and answering it where it belongs nowhere.

use crate::domain::subdomain;
use crate::netty::read_bigendian_u16;
use crate::netty::read_string;
use crate::netty::read_varint;
use crate::netty::write_bigendian_u16;
use crate::netty::write_string;
use crate::netty::write_varint;
use crate::netty::NettyError;
use crate::parse::Parse;
use crate::router::Router;
use vstd::prelude::*;
use vstd::slice::*;
use vstd::utf8::*;

verus! {

/// The length that tells a ping of the old kind from a handshake.
pub const LEGACY_PING_LENGTH: i32 = 254;

/// The port that a forwarded handshake names.
pub const MINECRAFT_PORT: u16 = 25565;

/// The number of bytes of a ping and of the answer to it.
pub const PING_LENGTH: usize = 10;

/// What a client that pings in the old way is shown: a marker, the number of a
/// protocol, a version, a line of text, and the numbers of players.
pub const LEGACY_TEXT: &'static str =
    "\u{a7}1\u{0}127\u{0}2.0.0\u{0}Minecraft versions below1.6isn't supported\u{0}0\u{0}0";

/// The host name that a forwarded handshake gives.
pub const FORWARDED_HOST: &'static str = "minerp.proxied.connection";

/// The status of an address without a server.
pub const STATUS_TEXT: &'static str =
    "{\"version\":{\"name\":\"No Server Here\",\"protocol\":2147483647},\"players\":{\"max\":0,\"online\":0},\"description\":{\"text\":\"This address isn't proxied to any server. Check your address.\"},\"favicon\":\"data:image/png;base64,<data>\"}";

/// What a player is told who logs in at an address without a server.
pub const KICK_TEXT: &'static str =
    "{\"text\":\"This address isn't proxied to any server. Check your address.\"}";

/// Why a client is not served.
#[derive(Clone, Copy, Debug, PartialEq, Eq, Structural)]
pub enum MinecraftError {
    /// The bytes end too early; at least this many are missing.
    Incomplete(usize),
    /// A value is not encoded as it should be.
    Netty(NettyError),
    /// The first packet is no handshake.
    InvalidPacketId,
    /// The handshake asks neither for the status nor for a login.
    InvalidState,
    /// The handshake names a host that is not below the address of this server.
    InvalidHostname,
    /// The packet behind the handshake does not ask for the status.
    InvalidStatusRequest,
}

/// How a client opens the conversation.
#[derive(Debug)]
pub enum Greeting {
    /// A ping of the old kind.
    LegacyPing,
    /// A handshake.
    Handshake { protocol_version: i32, addr: String, is_serverlistping: bool },
}

/// A greeting as a mathematical value.
pub enum GreetingView {
    LegacyPing,
    Handshake { protocol_version: i32, addr: Seq<char>, is_serverlistping: bool },
}

impl View for Greeting {
    type V = GreetingView;

    open spec fn view(&self) -> GreetingView {
        match *self {
            Greeting::LegacyPing => GreetingView::LegacyPing,
            Greeting::Handshake { protocol_version, addr, is_serverlistping } => {
                GreetingView::Handshake { protocol_version, addr: addr@, is_serverlistping }
            },
        }
    }
}

/// The state that a handshake asks for, and its position in the bytes.
pub open spec fn state_at(
    b: Seq<u8>,
    pos: nat,
    protocol_version: i32,
    addr: Seq<char>,
) -> Parse<GreetingView, MinecraftError> {
    match crate::netty::varint_at(b, pos) {
        Parse::Need(n) => Parse::Need(n),
        Parse::Fail(e) => Parse::Fail(MinecraftError::Netty(e)),
        Parse::Done(state, end) => if state == 1 || state == 2 {
            Parse::Done(
                GreetingView::Handshake { protocol_version, addr, is_serverlistping: state == 1 },
                end,
            )
        } else {
            Parse::Fail(MinecraftError::InvalidState)
        },
    }
}

/// The port of a handshake, which nobody needs, and what follows it.
pub open spec fn port_at(
    b: Seq<u8>,
    pos: nat,
    protocol_version: i32,
    addr: Seq<char>,
) -> Parse<GreetingView, MinecraftError> {
    match crate::netty::short_at(b, pos) {
        Parse::Need(n) => Parse::Need(n),
        Parse::Fail(e) => Parse::Fail(MinecraftError::Netty(e)),
        Parse::Done(_, end) => state_at(b, end, protocol_version, addr),
    }
}

/// The host of a handshake and what follows it.
pub open spec fn host_at(b: Seq<u8>, pos: nat, protocol_version: i32) -> Parse<
    GreetingView,
    MinecraftError,
> {
    match crate::netty::text_at(b, pos) {
        Parse::Need(n) => Parse::Need(n),
        Parse::Fail(e) => Parse::Fail(MinecraftError::Netty(e)),
        Parse::Done(addr, end) => port_at(b, end, protocol_version, addr),
    }
}

/// The protocol version of a handshake and what follows it.
pub open spec fn version_at(b: Seq<u8>, pos: nat) -> Parse<GreetingView, MinecraftError> {
    match crate::netty::varint_at(b, pos) {
        Parse::Need(n) => Parse::Need(n),
        Parse::Fail(e) => Parse::Fail(MinecraftError::Netty(e)),
        Parse::Done(protocol_version, end) => host_at(b, end, protocol_version),
    }
}

/// The number of a packet, which must be that of a handshake, and what follows.
pub open spec fn packet_at(b: Seq<u8>, pos: nat) -> Parse<GreetingView, MinecraftError> {
    match crate::netty::varint_at(b, pos) {
        Parse::Need(n) => Parse::Need(n),
        Parse::Fail(e) => Parse::Fail(MinecraftError::Netty(e)),
        Parse::Done(id, end) => if id == 0 {
            version_at(b, end)
        } else {
            Parse::Fail(MinecraftError::InvalidPacketId)
        },
    }
}

/// The greeting that `b` starts with. Of the length in front of it only the one
/// value that stands for a ping of the old kind matters.
pub open spec fn greeting_in(b: Seq<u8>) -> Parse<GreetingView, MinecraftError> {
    match crate::netty::varint_at(b, 0) {
        Parse::Need(n) => Parse::Need(n),
        Parse::Fail(e) => Parse::Fail(MinecraftError::Netty(e)),
        Parse::Done(len, end) => if len == LEGACY_PING_LENGTH {
            Parse::Done(GreetingView::LegacyPing, end)
        } else {
            packet_at(b, end)
        },
    }
}

/// The result of [`read_greeting`] as a [`Parse`].
pub open spec fn greeting_outcome(r: Result<(Greeting, usize), MinecraftError>) -> Parse<
    GreetingView,
    MinecraftError,
> {
    match r {
        Ok((g, end)) => Parse::Done(g@, end as nat),
        Err(MinecraftError::Incomplete(n)) => Parse::Need(n as nat),
        Err(e) => Parse::Fail(e),
    }
}

/// A failure to read a value as a failure to serve the client.
fn unreadable(e: NettyError) -> (r: MinecraftError)
    ensures
        r == match e {
            NettyError::Incomplete(n) => MinecraftError::Incomplete(n),
            e => MinecraftError::Netty(e),
        },
{
    match e {
        NettyError::Incomplete(n) => MinecraftError::Incomplete(n),
        e => MinecraftError::Netty(e),
    }
}

/// Reads the greeting that the bytes start with.
pub fn read_greeting(buf: &[u8]) -> (r: Result<(Greeting, usize), MinecraftError>)
    ensures
        greeting_outcome(r) == greeting_in(buf@),
{
    let (len, pos): (i32, usize) = match read_varint(buf, 0) {
        Ok(v) => v,
        Err(e) => return Err(unreadable(e)),
    };
    if len == LEGACY_PING_LENGTH {
        return Ok((Greeting::LegacyPing, pos));
    }
    let (id, pos): (i32, usize) = match read_varint(buf, pos) {
        Ok(v) => v,
        Err(e) => return Err(unreadable(e)),
    };
    if id != 0 {
        return Err(MinecraftError::InvalidPacketId);
    }
    let (protocol_version, pos): (i32, usize) = match read_varint(buf, pos) {
        Ok(v) => v,
        Err(e) => return Err(unreadable(e)),
    };
    let (addr, pos): (String, usize) = match read_string(buf, pos) {
        Ok(v) => v,
        Err(e) => return Err(unreadable(e)),
    };
    let (_port, pos): (u16, usize) = match read_bigendian_u16(buf, pos) {
        Ok(v) => v,
        Err(e) => return Err(unreadable(e)),
    };
    let (state, pos): (i32, usize) = match read_varint(buf, pos) {
        Ok(v) => v,
        Err(e) => return Err(unreadable(e)),
    };
    if state == 1 {
        Ok((Greeting::Handshake { protocol_version, addr, is_serverlistping: true }, pos))
    } else if state == 2 {
        Ok((Greeting::Handshake { protocol_version, addr, is_serverlistping: false }, pos))
    } else {
        Err(MinecraftError::InvalidState)
    }
}

/// The request for the status that `b` starts with: a packet of one byte, which
/// is its number.
pub open spec fn status_request_in(b: Seq<u8>) -> Parse<(), MinecraftError> {
    match crate::netty::varint_at(b, 0) {
        Parse::Need(n) => Parse::Need(n),
        Parse::Fail(e) => Parse::Fail(MinecraftError::Netty(e)),
        Parse::Done(len, end) => if len != 1 {
            Parse::Fail(MinecraftError::InvalidStatusRequest)
        } else {
            match crate::netty::varint_at(b, end) {
                Parse::Need(n) => Parse::Need(n),
                Parse::Fail(e) => Parse::Fail(MinecraftError::Netty(e)),
                Parse::Done(request, end) => if request != 0 {
                    Parse::Fail(MinecraftError::InvalidStatusRequest)
                } else {
                    Parse::Done((), end)
                },
            }
        },
    }
}

/// Reads the request for the status and returns the position behind it.
pub fn read_status_request(buf: &[u8]) -> (r: Result<usize, MinecraftError>)
    ensures
        status_request_in(buf@) == match r {
            Ok(end) => Parse::Done((), end as nat),
            Err(MinecraftError::Incomplete(n)) => Parse::Need(n as nat),
            Err(e) => Parse::Fail(e),
        },
{
    let (len, pos): (i32, usize) = match read_varint(buf, 0) {
        Ok(v) => v,
        Err(e) => return Err(unreadable(e)),
    };
    if len != 1 {
        return Err(MinecraftError::InvalidStatusRequest);
    }
    let (request, pos): (i32, usize) = match read_varint(buf, pos) {
        Ok(v) => v,
        Err(e) => return Err(unreadable(e)),
    };
    if request != 0 {
        return Err(MinecraftError::InvalidStatusRequest);
    }
    Ok(pos)
}

/// A packet: its length, then its bytes.
pub open spec fn packet(payload: Seq<u8>) -> Seq<u8> {
    crate::netty::varint_written(payload.len() as int) + payload
}

/// The length in front of a packet is the number of bytes that follow it up to
/// the end of the packet, and these are what the packet carries.
pub proof fn law_packet_length(payload: Seq<u8>, rest: Seq<u8>)
    requires
        payload.len() <= i32::MAX,
    ensures
        crate::netty::varint_at(packet(payload) + rest, 0) matches Parse::Done(n, end) && {
            &&& n == payload.len()
            &&& packet(payload).len() == end + n
            &&& packet(payload).skip(end as int) == payload
        },
{
    let w = crate::netty::varint_written(payload.len() as int);
    assert(packet(payload) + rest =~= Seq::<u8>::empty() + w + (payload + rest));
    crate::netty::law_varint_round_trip(Seq::empty(), payload.len() as i32, payload + rest);
    assert(packet(payload).skip(w.len() as int) =~= payload);
}

/// A packet with the number 0 that carries a text.
pub open spec fn text_packet(s: Seq<char>) -> Seq<u8> {
    packet(crate::netty::varint_written(0) + crate::netty::text_written(s))
}

/// The packet around bytes that are not many.
fn packed(payload: Vec<u8>) -> (r: Vec<u8>)
    requires
        payload@.len() <= i32::MAX,
    ensures
        r@ == packet(payload@),
{
    let mut out: Vec<u8> = Vec::new();
    let _ = write_varint(&mut out, payload.len() as i32);
    out.extend_from_slice(payload.as_slice());
    assert(out@ =~= packet(payload@));
    out
}

/// The packet with a text of up to 32767 ASCII characters.
fn pack_text(s: &str) -> (r: Vec<u8>)
    requires
        is_ascii_chars(s@),
        s@.len() <= 0x7FFF,
    ensures
        r@ == text_packet(s@),
{
    proof {
        is_ascii_chars_encode_utf8(s@);
        crate::netty::law_varint_shortest(s@.len() as i32, 5);
        crate::netty::law_varint_shortest(0, 1);
    }
    let mut payload: Vec<u8> = Vec::new();
    let _ = write_varint(&mut payload, 0);
    let _ = write_string(&mut payload, s);
    assert(payload@ =~= crate::netty::varint_written(0) + crate::netty::text_written(s@));
    packed(payload)
}

/// The status of an address without a server, as a packet.
pub fn status_reply() -> (r: Vec<u8>)
    ensures
        r@ == text_packet(STATUS_TEXT@),
{
    proof {
        reveal_strlit(
            "{\"version\":{\"name\":\"No Server Here\",\"protocol\":2147483647},\"players\":{\"max\":0,\"online\":0},\"description\":{\"text\":\"This address isn't proxied to any server. Check your address.\"},\"favicon\":\"data:image/png;base64,<data>\"}",
        );
    }
    pack_text(STATUS_TEXT)
}

/// What a player is told at an address without a server, as a packet.
pub fn kick_reply() -> (r: Vec<u8>)
    ensures
        r@ == text_packet(KICK_TEXT@),
{
    proof {
        reveal_strlit(
            "{\"text\":\"This address isn't proxied to any server. Check your address.\"}",
        );
    }
    pack_text(KICK_TEXT)
}

/// The UTF-16 form of a text of characters of 16 bits, the high bytes first.
pub open spec fn utf16(s: Seq<char>) -> Seq<u8>
    decreases s.len(),
{
    if s.len() == 0 {
        Seq::empty()
    } else {
        utf16(s.drop_last()) + crate::netty::short_written(s.last() as u16)
    }
}

/// The answer to a ping of the old kind: a marker, the number of characters, and
/// the characters.
pub open spec fn legacy_packet(s: Seq<char>) -> Seq<u8> {
    seq![0xFFu8] + crate::netty::short_written(s.len() as u16) + utf16(s)
}

/// The answer to a ping of the old kind with a text of up to 65535 characters
/// of 16 bits each.
fn pack_legacy(s: &str) -> (r: Vec<u8>)
    requires
        s@.len() <= u16::MAX,
        forall|i: int| 0 <= i < s@.len() ==> (#[trigger] s@[i]) as u32 <= u16::MAX,
    ensures
        r@ == legacy_packet(s@),
{
    let n: usize = s.unicode_len();
    let mut out: Vec<u8> = Vec::new();
    out.push(0xFF);
    write_bigendian_u16(&mut out, n as u16);
    let ghost head = out@;
    let mut i: usize = 0;
    proof {
        assert(s@.take(0) =~= Seq::<char>::empty());
        assert(head =~= head + utf16(s@.take(0)));
    }
    while i < n
        invariant
            n == s@.len(),
            i <= n,
            forall|i: int| 0 <= i < s@.len() ==> (#[trigger] s@[i]) as u32 <= u16::MAX,
            out@ == head + utf16(s@.take(i as int)),
        decreases n - i,
    {
        let c: char = s.get_char(i);
        write_bigendian_u16(&mut out, c as u32 as u16);
        i = i + 1;
        proof {
            assert(s@.take(i as int).drop_last() =~= s@.take(i - 1));
            assert(out@ =~= head + utf16(s@.take(i as int)));
        }
    }
    proof {
        assert(s@.take(n as int) =~= s@);
        assert(out@ =~= legacy_packet(s@));
    }
    out
}

/// The answer to a ping of the old kind.
pub fn legacy_reply() -> (r: Vec<u8>)
    ensures
        r@ == legacy_packet(LEGACY_TEXT@),
{
    proof {
        reveal_strlit(
            "\u{a7}1\u{0}127\u{0}2.0.0\u{0}Minecraft versions below1.6isn't supported\u{0}0\u{0}0",
        );
    }
    pack_legacy(LEGACY_TEXT)
}

/// The bytes of a handshake without their length.
pub open spec fn handshake(
    protocol_version: i32,
    host: Seq<char>,
    port: u16,
    is_serverlistping: bool,
) -> Seq<u8> {
    crate::netty::varint_written(0) + crate::netty::varint_written(protocol_version as int)
        + crate::netty::text_written(host) + crate::netty::short_written(port)
        + crate::netty::varint_written(if is_serverlistping {
        1
    } else {
        2
    })
}

/// The bytes of a forwarded handshake without their length.
pub open spec fn forwarded(protocol_version: i32, is_serverlistping: bool) -> Seq<u8> {
    handshake(protocol_version, FORWARDED_HOST@, MINECRAFT_PORT, is_serverlistping)
}

/// The handshake with which a player's connection is opened at the proxied
/// server, on the player's behalf. A protocol version that is negative cannot be
/// written.
pub fn forward_handshake(protocol_version: i32, is_serverlistping: bool) -> (r: Result<
    Vec<u8>,
    NettyError,
>)
    ensures
        r matches Ok(v) ==> v@ == packet(forwarded(protocol_version, is_serverlistping)),
        protocol_version >= 0 <==> r is Ok,
        r matches Err(e) ==> e == NettyError::VarIntTooBig,
        r matches Ok(v) ==> (crate::netty::varint_at(v@, 0) matches Parse::Done(n, end) && n
            == v@.len() - end),
{
    proof {
        lemma_forwarded_len(protocol_version, is_serverlistping);
        lemma_host();
    }
    let mut payload: Vec<u8> = Vec::new();
    let _ = write_varint(&mut payload, 0);
    match write_varint(&mut payload, protocol_version) {
        Err(e) => return Err(e),
        Ok(()) => {},
    }
    let _ = write_string(&mut payload, FORWARDED_HOST);
    write_bigendian_u16(&mut payload, MINECRAFT_PORT);
    let state: i32 = if is_serverlistping {
        1
    } else {
        2
    };
    let _ = write_varint(&mut payload, state);
    assert(payload@ =~= forwarded(protocol_version, is_serverlistping));
    proof {
        law_packet_length(payload@, Seq::empty());
        assert(packet(payload@) + Seq::<u8>::empty() =~= packet(payload@));
    }
    Ok(packed(payload))
}

pub(crate) proof fn lemma_host()
    ensures
        is_ascii_chars(FORWARDED_HOST@),
        FORWARDED_HOST@.len() == 25,
        encode_utf8(FORWARDED_HOST@).len() == 25,
{
    reveal_strlit("minerp.proxied.connection");
    is_ascii_chars_encode_utf8(FORWARDED_HOST@);
}

pub(crate) proof fn lemma_forwarded_len(protocol_version: i32, is_serverlistping: bool)
    ensures
        protocol_version >= 0 ==> 31 <= forwarded(protocol_version, is_serverlistping).len() <= 35,
{
    lemma_host();
    crate::netty::law_varint_shortest(0, 1);
    crate::netty::law_varint_shortest(1, 1);
    crate::netty::law_varint_shortest(2, 1);
    crate::netty::law_varint_shortest(25, 1);
    reveal_with_fuel(crate::netty::place, 2);
    if protocol_version >= 0 {
        crate::netty::law_varint_shortest(protocol_version, 5);
    }
}

/// How far a conversation with a player's client has come.
#[derive(Clone, Copy, Debug, PartialEq, Eq, Structural)]
pub enum Phase {
    /// The client is to greet.
    Greeting,
    /// The client is to ask for the status of an address without a server.
    StatusRequest,
    /// The client is to ping an address without a server.
    Ping,
}

/// What is to be done next in a conversation.
#[derive(Debug)]
pub enum Action {
    /// Read this many bytes more, and go on with all that has been read.
    Read(usize),
    /// Go on in this phase, with nothing read.
    Enter(Phase),
    /// Send these bytes. Then go on in the phase with nothing read, or close.
    Send(Vec<u8>, Option<Phase>),
    /// Hand the connection over to the route of this name.
    Route { name: String, protocol_version: i32, is_serverlistping: bool },
}

/// An action as a mathematical value.
pub enum ActionView {
    Read(nat),
    Enter(Phase),
    Send(Seq<u8>, Option<Phase>),
    Route { name: Seq<char>, protocol_version: i32, is_serverlistping: bool },
}

impl View for Action {
    type V = ActionView;

    open spec fn view(&self) -> ActionView {
        match *self {
            Action::Read(n) => ActionView::Read(n as nat),
            Action::Enter(phase) => ActionView::Enter(phase),
            Action::Send(bytes, next) => ActionView::Send(bytes@, next),
            Action::Route { name, protocol_version, is_serverlistping } => ActionView::Route {
                name: name@,
                protocol_version,
                is_serverlistping,
            },
        }
    }
}

/// Where a client that has greeted belongs: to the route of the name in front of
/// the address of this server, or, where that name has no route, to an answer.
pub open spec fn welcome(
    greeting: GreetingView,
    listen_addr: Seq<char>,
    names: Set<Seq<char>>,
) -> Result<ActionView, MinecraftError> {
    match greeting {
        GreetingView::LegacyPing => Ok(ActionView::Send(legacy_packet(LEGACY_TEXT@), None)),
        GreetingView::Handshake { protocol_version, addr, is_serverlistping } => {
            match crate::text::stem_of(addr, crate::domain::host_suffix(listen_addr)) {
                None => Err(MinecraftError::InvalidHostname),
                Some(name) => if names.contains(name) {
                    Ok(ActionView::Route { name, protocol_version, is_serverlistping })
                } else if is_serverlistping {
                    Ok(ActionView::Enter(Phase::StatusRequest))
                } else {
                    Ok(ActionView::Send(text_packet(KICK_TEXT@), None))
                },
            }
        },
    }
}

/// What is to be done in a phase with the bytes read in it so far.
pub open spec fn next_action(
    phase: Phase,
    read: Seq<u8>,
    listen_addr: Seq<char>,
    names: Set<Seq<char>>,
) -> Result<ActionView, MinecraftError> {
    match phase {
        Phase::Greeting => match greeting_in(read) {
            Parse::Need(n) => Ok(ActionView::Read(n)),
            Parse::Fail(e) => Err(e),
            Parse::Done(greeting, _) => welcome(greeting, listen_addr, names),
        },
        Phase::StatusRequest => match status_request_in(read) {
            Parse::Need(n) => Ok(ActionView::Read(n)),
            Parse::Fail(e) => Err(e),
            Parse::Done(_, _) => Ok(
                ActionView::Send(text_packet(STATUS_TEXT@), Some(Phase::Ping)),
            ),
        },
        Phase::Ping => if read.len() < PING_LENGTH {
            Ok(ActionView::Read((PING_LENGTH - read.len()) as nat))
        } else {
            Ok(ActionView::Send(read.take(PING_LENGTH as int), None))
        },
    }
}

/// The view of the result of [`handle_minecraft`].
pub open spec fn action_view(r: Result<Action, MinecraftError>) -> Result<
    ActionView,
    MinecraftError,
> {
    match r {
        Ok(action) => Ok(action@),
        Err(e) => Err(e),
    }
}

/// Where a client that has greeted belongs.
pub fn welcome_client<S>(
    greeting: Greeting,
    listen_addr: &str,
    router: &Router<String, S>,
) -> (r: Result<Action, MinecraftError>)
    ensures
        action_view(r) == welcome(greeting@, listen_addr@, router@.dom()),
{
    match greeting {
        Greeting::LegacyPing => Ok(Action::Send(legacy_reply(), None)),
        Greeting::Handshake { protocol_version, addr, is_serverlistping } => {
            match subdomain(addr.as_str(), listen_addr) {
                None => Err(MinecraftError::InvalidHostname),
                Some(name) => {
                    if router.has_route(&name) {
                        Ok(Action::Route { name, protocol_version, is_serverlistping })
                    } else if is_serverlistping {
                        Ok(Action::Enter(Phase::StatusRequest))
                    } else {
                        Ok(Action::Send(kick_reply(), None))
                    }
                },
            }
        },
    }
}

/// What is to be done in a phase with the bytes read in it so far.
pub fn handle_minecraft<S>(
    phase: Phase,
    read: &[u8],
    listen_addr: &str,
    router: &Router<String, S>,
) -> (r: Result<Action, MinecraftError>)
    ensures
        action_view(r) == next_action(phase, read@, listen_addr@, router@.dom()),
        phase is Ping && read@.len() >= 10 ==> (r matches Ok(Action::Send(bytes, None))
            && bytes@.len() == 10 && forall|i: int|
            0 <= i < 10 ==> #[trigger] bytes@[i] == read@[i]),
{
    match phase {
        Phase::Greeting => match read_greeting(read) {
            Err(MinecraftError::Incomplete(n)) => Ok(Action::Read(n)),
            Err(e) => Err(e),
            Ok((greeting, _)) => welcome_client(greeting, listen_addr, router),
        },
        Phase::StatusRequest => match read_status_request(read) {
            Err(MinecraftError::Incomplete(n)) => Ok(Action::Read(n)),
            Err(e) => Err(e),
            Ok(_) => Ok(Action::Send(status_reply(), Some(Phase::Ping))),
        },
        Phase::Ping => {
            if read.len() < PING_LENGTH {
                Ok(Action::Read(PING_LENGTH - read.len()))
            } else {
                let echo: Vec<u8> = slice_to_vec(slice_subrange(read, 0, PING_LENGTH));
                assert(echo@ =~= read@.take(PING_LENGTH as int));
                Ok(Action::Send(echo, None))
            }
        },
    }
}

/// The greeting can be read from a stream, asking for exactly the missing bytes.
pub proof fn law_greeting_continues(b: Seq<u8>, e: Seq<u8>)
    ensures
        crate::parse::continues(greeting_in(b), greeting_in(b + e), b.len(), e.len()),
{
    crate::netty::law_varint_continues(b, e, 0);
    crate::netty::lemma_groups_end(b, 0, 5);
    crate::netty::lemma_groups_end(b + e, 0, 5);
    if let Parse::Done(len, pos) = crate::netty::varint_at(b, 0) {
        if len != LEGACY_PING_LENGTH {
            lemma_packet_continues(b, e, pos);
        }
    }
}

proof fn lemma_packet_continues(b: Seq<u8>, e: Seq<u8>, pos: nat)
    requires
        pos <= b.len(),
    ensures
        crate::parse::continues(packet_at(b, pos), packet_at(b + e, pos), b.len(), e.len()),
{
    crate::netty::law_varint_continues(b, e, pos);
    crate::netty::lemma_groups_end(b, pos, 5);
    crate::netty::lemma_groups_end(b + e, pos, 5);
    if let Parse::Done(id, pos) = crate::netty::varint_at(b, pos) {
        lemma_version_continues(b, e, pos);
    }
}

proof fn lemma_version_continues(b: Seq<u8>, e: Seq<u8>, pos: nat)
    requires
        pos <= b.len(),
    ensures
        crate::parse::continues(version_at(b, pos), version_at(b + e, pos), b.len(), e.len()),
{
    crate::netty::law_varint_continues(b, e, pos);
    crate::netty::lemma_groups_end(b, pos, 5);
    crate::netty::lemma_groups_end(b + e, pos, 5);
    if let Parse::Done(protocol_version, pos) = crate::netty::varint_at(b, pos) {
        lemma_host_continues(b, e, pos, protocol_version);
    }
}

proof fn lemma_host_continues(b: Seq<u8>, e: Seq<u8>, pos: nat, protocol_version: i32)
    requires
        pos <= b.len(),
    ensures
        crate::parse::continues(
            host_at(b, pos, protocol_version),
            host_at(b + e, pos, protocol_version),
            b.len(),
            e.len(),
        ),
{
    crate::netty::law_string_continues(b, e, pos);
    if let Parse::Done(addr, pos) = crate::netty::text_at(b, pos) {
        lemma_port_continues(b, e, pos, protocol_version, addr);
    }
}

proof fn lemma_port_continues(
    b: Seq<u8>,
    e: Seq<u8>,
    pos: nat,
    protocol_version: i32,
    addr: Seq<char>,
)
    requires
        pos <= b.len(),
    ensures
        crate::parse::continues(
            port_at(b, pos, protocol_version, addr),
            port_at(b + e, pos, protocol_version, addr),
            b.len(),
            e.len(),
        ),
{
    crate::netty::law_short_continues(b, e, pos);
    if pos + 2 <= b.len() {
        crate::netty::law_varint_continues(b, e, pos + 2);
    }
}

/// The request for the status can be read from a stream, asking for exactly the
/// missing bytes.
pub proof fn law_status_request_continues(b: Seq<u8>, e: Seq<u8>)
    ensures
        crate::parse::continues(status_request_in(b), status_request_in(b + e), b.len(), e.len()),
{
    crate::netty::law_varint_continues(b, e, 0);
    crate::netty::lemma_groups_end(b, 0, 5);
    crate::netty::lemma_groups_end(b + e, 0, 5);
    if let Parse::Done(len, pos) = crate::netty::varint_at(b, 0) {
        crate::netty::law_varint_continues(b, e, pos);
    }
}

/// Whatever phase a conversation is in, it asks for at least one byte, and
/// asking for fewer bytes than were said to be missing changes nothing.
pub proof fn law_reads_are_needed(
    phase: Phase,
    read: Seq<u8>,
    more: Seq<u8>,
    listen_addr: Seq<char>,
    names: Set<Seq<char>>,
)
    ensures
        next_action(phase, read, listen_addr, names) matches Ok(ActionView::Read(n)) ==> n > 0 && (
        more.len() < n ==> next_action(phase, read + more, listen_addr, names) == Ok::<
            ActionView,
            MinecraftError,
        >(ActionView::Read((n - more.len()) as nat))),
{
    law_greeting_continues(read, more);
    law_status_request_continues(read, more);
}

/// What has been decided stays decided, whatever bytes follow.
pub proof fn law_decisions_stay(
    phase: Phase,
    read: Seq<u8>,
    more: Seq<u8>,
    listen_addr: Seq<char>,
    names: Set<Seq<char>>,
)
    requires
        !(next_action(phase, read, listen_addr, names) matches Ok(ActionView::Read(_))),
    ensures
        next_action(phase, read + more, listen_addr, names) == next_action(
            phase,
            read,
            listen_addr,
            names,
        ),
{
    law_greeting_continues(read, more);
    law_status_request_continues(read, more);
    if phase == Phase::Ping {
        assert((read + more).take(PING_LENGTH as int) =~= read.take(PING_LENGTH as int));
    }
}

/// Every handshake is heard as it was said, and nothing is left of it once it
/// has been read. The one exception is a handshake of the length that stands for
/// a ping of the old kind.
pub proof fn law_handshake_round_trip(
    protocol_version: i32,
    host: Seq<char>,
    port: u16,
    is_serverlistping: bool,
    rest: Seq<u8>,
)
    requires
        protocol_version >= 0,
        encode_utf8(host).len() <= i32::MAX,
        handshake(protocol_version, host, port, is_serverlistping).len() <= i32::MAX,
        handshake(protocol_version, host, port, is_serverlistping).len() != LEGACY_PING_LENGTH,
    ensures
        greeting_in(packet(handshake(protocol_version, host, port, is_serverlistping)) + rest)
            == Parse::<_, MinecraftError>::Done(
            GreetingView::Handshake { protocol_version, addr: host, is_serverlistping },
            packet(handshake(protocol_version, host, port, is_serverlistping)).len(),
        ),
{
    let payload = handshake(protocol_version, host, port, is_serverlistping);
    let w0 = crate::netty::varint_written(payload.len() as int);
    let w1 = crate::netty::varint_written(0);
    let tail = behind_number(protocol_version, host, port, is_serverlistping, rest);
    lemma_handshake_bytes(w0, protocol_version, host, port, is_serverlistping, rest);
    crate::netty::law_varint_round_trip(Seq::empty(), payload.len() as i32, w1 + tail);
    lemma_packet_read(w0, protocol_version, host, port, is_serverlistping, rest);
}

/// What stands behind the number of a handshake.
#[verifier::opaque]
spec fn behind_number(
    protocol_version: i32,
    host: Seq<char>,
    port: u16,
    is_serverlistping: bool,
    rest: Seq<u8>,
) -> Seq<u8> {
    crate::netty::varint_written(protocol_version as int) + (crate::netty::text_written(host) + (
    crate::netty::short_written(port) + (crate::netty::varint_written(if is_serverlistping {
        1
    } else {
        2
    }) + rest)))
}

/// The bytes around the length and the number of a handshake.
proof fn lemma_handshake_bytes(
    w0: Seq<u8>,
    protocol_version: i32,
    host: Seq<char>,
    port: u16,
    is_serverlistping: bool,
    rest: Seq<u8>,
)
    ensures
        ({
            let b = w0 + handshake(protocol_version, host, port, is_serverlistping) + rest;
            let w1 = crate::netty::varint_written(0);
            let tail = behind_number(protocol_version, host, port, is_serverlistping, rest);
            &&& b == Seq::<u8>::empty() + w0 + (w1 + tail)
            &&& b == w0 + w1 + tail
        }),
{
    reveal(behind_number);
    lemma_regroup(
        w0,
        crate::netty::varint_written(0),
        crate::netty::varint_written(protocol_version as int),
        crate::netty::text_written(host),
        crate::netty::short_written(port),
        crate::netty::varint_written(if is_serverlistping {
            1
        } else {
            2
        }),
        rest,
    );
}

/// The port and the state of a handshake are read as they were written.
proof fn lemma_port_read(
    pre: Seq<u8>,
    protocol_version: i32,
    host: Seq<char>,
    port: u16,
    is_serverlistping: bool,
    rest: Seq<u8>,
)
    ensures
        ({
            let w4 = crate::netty::short_written(port);
            let w5 = crate::netty::varint_written(if is_serverlistping {
                1
            } else {
                2
            });
            port_at(pre + w4 + (w5 + rest), pre.len(), protocol_version, host) == Parse::<
                _,
                MinecraftError,
            >::Done(
                GreetingView::Handshake { protocol_version, addr: host, is_serverlistping },
                pre.len() + w4.len() + w5.len(),
            )
        }),
{
    let state: i32 = if is_serverlistping {
        1
    } else {
        2
    };
    let w4 = crate::netty::short_written(port);
    let w5 = crate::netty::varint_written(state as int);
    crate::netty::law_short_round_trip(pre, port, w5 + rest);
    crate::netty::law_varint_round_trip(pre + w4, state, rest);
    assert(pre + w4 + w5 + rest =~= pre + w4 + (w5 + rest));
}

/// The host of a handshake and what follows it are read as they were written.
proof fn lemma_host_read(
    pre: Seq<u8>,
    protocol_version: i32,
    host: Seq<char>,
    port: u16,
    is_serverlistping: bool,
    rest: Seq<u8>,
)
    requires
        encode_utf8(host).len() <= i32::MAX,
    ensures
        ({
            let w3 = crate::netty::text_written(host);
            let w4 = crate::netty::short_written(port);
            let w5 = crate::netty::varint_written(if is_serverlistping {
                1
            } else {
                2
            });
            host_at(pre + w3 + (w4 + (w5 + rest)), pre.len(), protocol_version) == Parse::<
                _,
                MinecraftError,
            >::Done(
                GreetingView::Handshake { protocol_version, addr: host, is_serverlistping },
                pre.len() + w3.len() + w4.len() + w5.len(),
            )
        }),
{
    let w3 = crate::netty::text_written(host);
    let w4 = crate::netty::short_written(port);
    let w5 = crate::netty::varint_written(if is_serverlistping {
        1
    } else {
        2
    });
    crate::netty::law_string_round_trip(pre, host, w4 + (w5 + rest));
    lemma_port_read(pre + w3, protocol_version, host, port, is_serverlistping, rest);
    assert(pre + w3 + w4 + (w5 + rest) =~= pre + w3 + (w4 + (w5 + rest)));
}

/// The number of a handshake and what follows it are read as they were written.
proof fn lemma_packet_read(
    pre: Seq<u8>,
    protocol_version: i32,
    host: Seq<char>,
    port: u16,
    is_serverlistping: bool,
    rest: Seq<u8>,
)
    requires
        protocol_version >= 0,
        encode_utf8(host).len() <= i32::MAX,
    ensures
        packet_at(
            pre + crate::netty::varint_written(0) + behind_number(
                protocol_version,
                host,
                port,
                is_serverlistping,
                rest,
            ),
            pre.len(),
        ) == Parse::<_, MinecraftError>::Done(
            GreetingView::Handshake { protocol_version, addr: host, is_serverlistping },
            pre.len() + handshake(protocol_version, host, port, is_serverlistping).len(),
        ),
{
    reveal(behind_number);
    let w1 = crate::netty::varint_written(0);
    let w2 = crate::netty::varint_written(protocol_version as int);
    let w3 = crate::netty::text_written(host);
    let w4 = crate::netty::short_written(port);
    let w5 = crate::netty::varint_written(if is_serverlistping {
        1
    } else {
        2
    });
    let r3 = w4 + (w5 + rest);
    let r2 = w3 + r3;
    let r1 = w2 + r2;
    crate::netty::law_varint_round_trip(pre, 0, r1);
    crate::netty::law_varint_round_trip(pre + w1, protocol_version, r2);
    lemma_host_read(pre + w1 + w2, protocol_version, host, port, is_serverlistping, rest);
    assert(pre + w1 + w2 + r2 =~= pre + w1 + r1);
    assert(pre + w1 + w2 + w3 + r3 =~= pre + w1 + w2 + r2);
}

/// The handshake that is forwarded is a greeting with the player's protocol
/// version and wish, and nothing is left of it once it has been read.
pub proof fn law_forwarded_handshake(
    protocol_version: i32,
    is_serverlistping: bool,
    rest: Seq<u8>,
)
    requires
        protocol_version >= 0,
    ensures
        greeting_in(packet(forwarded(protocol_version, is_serverlistping)) + rest) == Parse::<
            _,
            MinecraftError,
        >::Done(
            GreetingView::Handshake {
                protocol_version,
                addr: FORWARDED_HOST@,
                is_serverlistping,
            },
            packet(forwarded(protocol_version, is_serverlistping)).len(),
        ),
{
    lemma_forwarded_len(protocol_version, is_serverlistping);
    lemma_host();
    law_handshake_round_trip(
        protocol_version,
        FORWARDED_HOST@,
        MINECRAFT_PORT,
        is_serverlistping,
        rest,
    );
}

/// The bytes around the first two of six fields in a row.
proof fn lemma_regroup(
    w0: Seq<u8>,
    w1: Seq<u8>,
    w2: Seq<u8>,
    w3: Seq<u8>,
    w4: Seq<u8>,
    w5: Seq<u8>,
    rest: Seq<u8>,
)
    ensures
        ({
            let b = w0 + (w1 + w2 + w3 + w4 + w5) + rest;
            let r1 = w2 + (w3 + (w4 + (w5 + rest)));
            &&& b == Seq::<u8>::empty() + w0 + (w1 + r1)
            &&& b == w0 + w1 + r1
        }),
{
    let b = w0 + (w1 + w2 + w3 + w4 + w5) + rest;
    let r4 = w5 + rest;
    let r3 = w4 + r4;
    let r2 = w3 + r3;
    let r1 = w2 + r2;
    assert(b =~= w0 + w1 + w2 + w3 + w4 + w5 + rest);
    assert(w0 + w1 + w2 + w3 + w4 + w5 + rest =~= w0 + w1 + w2 + w3 + w4 + r4);
    assert(w0 + w1 + w2 + w3 + w4 + r4 =~= w0 + w1 + w2 + w3 + r3);
    assert(w0 + w1 + w2 + w3 + r3 =~= w0 + w1 + w2 + r2);
    assert(w0 + w1 + w2 + r2 =~= w0 + w1 + r1);
    assert(w0 + w1 + r1 =~= Seq::<u8>::empty() + w0 + (w1 + r1));
}

/// A player who names a host below the address of this server reaches the route
/// of the name in front of it, with the protocol version and the wish that the
/// handshake gave.
pub proof fn law_routed_player(
    name: Seq<char>,
    listen_addr: Seq<char>,
    names: Set<Seq<char>>,
    protocol_version: i32,
    is_serverlistping: bool,
)
    requires
        names.contains(name),
    ensures
        welcome(
            GreetingView::Handshake {
                protocol_version,
                addr: name + seq!['.'] + listen_addr,
                is_serverlistping,
            },
            listen_addr,
            names,
        ) == Ok::<ActionView, MinecraftError>(
            ActionView::Route { name, protocol_version, is_serverlistping },
        ),
{
    let suffix = crate::domain::host_suffix(listen_addr);
    assert(name + seq!['.'] + listen_addr =~= name + suffix);
    crate::text::law_stem(name, name + suffix, suffix);
}

/// A player who names a host without a route is answered and never routed: a
/// request for the status is heard, a login is refused with a reason.
pub proof fn law_unrouted_player(
    name: Seq<char>,
    listen_addr: Seq<char>,
    names: Set<Seq<char>>,
    protocol_version: i32,
    is_serverlistping: bool,
)
    requires
        !names.contains(name),
    ensures
        welcome(
            GreetingView::Handshake {
                protocol_version,
                addr: name + seq!['.'] + listen_addr,
                is_serverlistping,
            },
            listen_addr,
            names,
        ) == Ok::<ActionView, MinecraftError>(
            if is_serverlistping {
                ActionView::Enter(Phase::StatusRequest)
            } else {
                ActionView::Send(text_packet(KICK_TEXT@), None)
            },
        ),
{
    let suffix = crate::domain::host_suffix(listen_addr);
    assert(name + seq!['.'] + listen_addr =~= name + suffix);
    crate::text::law_stem(name, name + suffix, suffix);
}

/// What a player says in a handshake decides what becomes of the connection: a
/// host below the address of this server whose name has a route leads to that
/// route, and one whose name has none leads to an answer.
pub proof fn law_player_is_heard(
    name: Seq<char>,
    listen_addr: Seq<char>,
    names: Set<Seq<char>>,
    protocol_version: i32,
    port: u16,
    is_serverlistping: bool,
    rest: Seq<u8>,
)
    requires
        ({
            let host = name + seq!['.'] + listen_addr;
            let payload = handshake(protocol_version, host, port, is_serverlistping);
            &&& protocol_version >= 0
            &&& encode_utf8(host).len() <= i32::MAX
            &&& payload.len() <= i32::MAX
            &&& payload.len() != LEGACY_PING_LENGTH
        }),
    ensures
        next_action(
            Phase::Greeting,
            packet(
                handshake(
                    protocol_version,
                    name + seq!['.'] + listen_addr,
                    port,
                    is_serverlistping,
                ),
            ) + rest,
            listen_addr,
            names,
        ) == Ok::<ActionView, MinecraftError>(
            if names.contains(name) {
                ActionView::Route { name, protocol_version, is_serverlistping }
            } else if is_serverlistping {
                ActionView::Enter(Phase::StatusRequest)
            } else {
                ActionView::Send(text_packet(KICK_TEXT@), None)
            },
        ),
{
    let host = name + seq!['.'] + listen_addr;
    law_handshake_round_trip(protocol_version, host, port, is_serverlistping, rest);
    if names.contains(name) {
        law_routed_player(name, listen_addr, names, protocol_version, is_serverlistping);
    } else {
        law_unrouted_player(name, listen_addr, names, protocol_version, is_serverlistping);
    }
}

proof fn lemma_state_shift(
    l: Seq<u8>,
    x: Seq<u8>,
    pos: nat,
    protocol_version: i32,
    addr: Seq<char>,
)
    ensures
        state_at(l + x, l.len() + pos, protocol_version, addr) == crate::parse::shifted(
            state_at(x, pos, protocol_version, addr),
            l.len(),
        ),
{
    crate::netty::lemma_varint_shift(l, x, pos);
}

proof fn lemma_host_shift(l: Seq<u8>, x: Seq<u8>, pos: nat, protocol_version: i32)
    ensures
        host_at(l + x, l.len() + pos, protocol_version) == crate::parse::shifted(
            host_at(x, pos, protocol_version),
            l.len(),
        ),
{
    crate::netty::lemma_string_shift(l, x, pos);
    if let Parse::Done(addr, pos) = crate::netty::text_at(x, pos) {
        crate::netty::lemma_short_shift(l, x, pos);
        if let Parse::Done(_, pos) = crate::netty::short_at(x, pos) {
            lemma_state_shift(l, x, pos, protocol_version, addr);
        }
    }
}

/// Bytes in front of a packet do not change it.
proof fn lemma_packet_shift(l: Seq<u8>, x: Seq<u8>)
    ensures
        packet_at(l + x, l.len()) == crate::parse::shifted(packet_at(x, 0), l.len()),
{
    crate::netty::lemma_varint_shift(l, x, 0);
    if let Parse::Done(_, pos) = crate::netty::varint_at(x, 0) {
        crate::netty::lemma_varint_shift(l, x, pos);
        if let Parse::Done(protocol_version, pos) = crate::netty::varint_at(x, pos) {
            lemma_host_shift(l, x, pos, protocol_version);
        }
    }
}

/// Whether bytes are the length in front of a packet, and not the one length
/// that stands for a ping of the old kind.
pub open spec fn is_packet_length(l: Seq<u8>) -> bool {
    crate::netty::varint_at(l, 0) matches Parse::Done(n, end) && n != LEGACY_PING_LENGTH && end
        == l.len()
}

proof fn lemma_after_length(l: Seq<u8>, x: Seq<u8>)
    requires
        is_packet_length(l),
    ensures
        greeting_in(l + x) == crate::parse::shifted(packet_at(x, 0), l.len()),
{
    crate::netty::law_varint_continues(l, x, 0);
    lemma_packet_shift(l, x);
}

/// The length in front of a handshake does not matter, unless it is the one that
/// stands for a ping of the old kind: whatever follows it, what is to be done is
/// the same.
pub proof fn law_length_does_not_matter(
    l1: Seq<u8>,
    l2: Seq<u8>,
    x: Seq<u8>,
    listen_addr: Seq<char>,
    names: Set<Seq<char>>,
)
    requires
        is_packet_length(l1),
        is_packet_length(l2),
    ensures
        next_action(Phase::Greeting, l1 + x, listen_addr, names) == next_action(
            Phase::Greeting,
            l2 + x,
            listen_addr,
            names,
        ),
{
    lemma_after_length(l1, x);
    lemma_after_length(l2, x);
}

/// Whether bytes are what stands between the length of a handshake and its port:
/// the number of the packet, a protocol version and a host.
pub open spec fn is_handshake_head(head: Seq<u8>) -> bool {
    &&& crate::netty::varint_at(head, 0) matches Parse::Done(id, p1)
    &&& id == 0
    &&& crate::netty::varint_at(head, p1) matches Parse::Done(_, p2)
    &&& crate::netty::text_at(head, p2) matches Parse::Done(_, p3)
    &&& p3 == head.len()
}

/// What follows a port is read in the same way whatever the port is.
proof fn lemma_after_port(head: Seq<u8>, port: Seq<u8>, x: Seq<u8>)
    requires
        is_handshake_head(head),
        port.len() == 2,
    ensures
        ({
            let p1 = crate::netty::varint_at(head, 0)->Done_1;
            let p2 = crate::netty::varint_at(head, p1)->Done_1;
            packet_at(head + port + x, 0) == crate::parse::shifted(
                state_at(
                    x,
                    0,
                    crate::netty::varint_at(head, p1)->Done_0,
                    crate::netty::text_at(head, p2)->Done_0,
                ),
                head.len() + 2,
            )
        }),
{
    let e = port + x;
    let b = head + port + x;
    assert(b =~= head + e);
    let p1 = crate::netty::varint_at(head, 0)->Done_1;
    let p2 = crate::netty::varint_at(head, p1)->Done_1;
    crate::netty::lemma_groups_end(head, 0, 5);
    crate::netty::lemma_groups_end(head, p1, 5);
    crate::netty::law_varint_continues(head, e, 0);
    crate::netty::law_varint_continues(head, e, p1);
    crate::netty::law_string_continues(head, e, p2);
    lemma_state_shift(
        head + port,
        x,
        0,
        crate::netty::varint_at(head, p1)->Done_0,
        crate::netty::text_at(head, p2)->Done_0,
    );
}

/// Neither the length in front of a handshake matters, unless it is the one that
/// stands for a ping of the old kind, nor the port in it: two greetings that
/// differ in these alone lead to the same, however much of them has arrived
/// behind the port.
pub proof fn law_length_and_port_do_not_matter(
    l1: Seq<u8>,
    l2: Seq<u8>,
    head: Seq<u8>,
    port1: Seq<u8>,
    port2: Seq<u8>,
    x: Seq<u8>,
    listen_addr: Seq<char>,
    names: Set<Seq<char>>,
)
    requires
        is_packet_length(l1),
        is_packet_length(l2),
        is_handshake_head(head),
        port1.len() == 2,
        port2.len() == 2,
    ensures
        next_action(Phase::Greeting, l1 + (head + port1 + x), listen_addr, names) == next_action(
            Phase::Greeting,
            l2 + (head + port2 + x),
            listen_addr,
            names,
        ),
{
    lemma_after_length(l1, head + port1 + x);
    lemma_after_length(l2, head + port2 + x);
    lemma_after_port(head, port1, x);
    lemma_after_port(head, port2, x);
}

} // verus!
