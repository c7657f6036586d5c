//! What the client program decides: its settings window, its control
//! connection, and the connections that it opens for players.

use crate::message::AuthKey;
use crate::message::Message;
use crate::message::MessageError;
use crate::message::MessageView;
use crate::parse::Parse;
use crate::text::decimal_text;
use crate::text::parse_port;
use vstd::prelude::*;

verus! {

/// The title of the window.
pub const TITLE: &'static str = "Minecraft Proxy Thingy";

/// What stands in the empty field for the address of the proxy server.
pub const SERVER_ADDR_HINT: &'static str = "Proxy server address";

/// What stands in the empty field for the wanted name.
pub const CLIENT_ADDR_HINT: &'static str = "Choose randomly";

/// What stands in an empty field for a port.
pub const PORT_HINT: &'static str = "Port";

/// The label of the button that starts the proxy.
pub const START_LABEL: &'static str = "Start Proxy";

/// The proxy server that the settings name at first.
pub const DEFAULT_SERVER: &'static str = "mc.bs2k.me";

/// The settings, and whether they are final.
#[derive(Clone, Debug)]
pub struct State {
    pub server_addr: String,
    pub server_port: u16,
    pub client_port: u16,
    pub client_addr: String,
    pub finalized: bool,
}

/// The settings as a mathematical value.
pub struct StateView {
    pub server_addr: Seq<char>,
    pub server_port: u16,
    pub client_port: u16,
    pub client_addr: Seq<char>,
    pub finalized: bool,
}

impl View for State {
    type V = StateView;

    open spec fn view(&self) -> StateView {
        StateView {
            server_addr: self.server_addr@,
            server_port: self.server_port,
            client_port: self.client_port,
            client_addr: self.client_addr@,
            finalized: self.finalized,
        }
    }
}

/// What can happen to the settings.
#[derive(Clone, Debug)]
pub enum AppMessage {
    ServerAddrChange(String),
    ServerPortChange(u16),
    ClientAddrChange(String),
    ClientPortChange(u16),
    /// The proxy server has given the client this name.
    DomainAssignment(String),
    /// The settings are final, and the proxy is to start.
    FinalizeConfig,
    /// Nothing.
    StubMessage,
}

/// What can happen to the settings, as a mathematical value.
pub enum AppMessageView {
    ServerAddrChange(Seq<char>),
    ServerPortChange(u16),
    ClientAddrChange(Seq<char>),
    ClientPortChange(u16),
    DomainAssignment(Seq<char>),
    FinalizeConfig,
    StubMessage,
}

impl View for AppMessage {
    type V = AppMessageView;

    open spec fn view(&self) -> AppMessageView {
        match *self {
            AppMessage::ServerAddrChange(addr) => AppMessageView::ServerAddrChange(addr@),
            AppMessage::ServerPortChange(port) => AppMessageView::ServerPortChange(port),
            AppMessage::ClientAddrChange(addr) => AppMessageView::ClientAddrChange(addr@),
            AppMessage::ClientPortChange(port) => AppMessageView::ClientPortChange(port),
            AppMessage::DomainAssignment(addr) => AppMessageView::DomainAssignment(addr@),
            AppMessage::FinalizeConfig => AppMessageView::FinalizeConfig,
            AppMessage::StubMessage => AppMessageView::StubMessage,
        }
    }
}

/// What the proxy is started with.
#[derive(Debug)]
pub struct Launch {
    /// The address of the proxy server.
    pub addr: String,
    /// The port of the proxy server.
    pub port: u16,
    /// The port of the server on this machine.
    pub local_port: u16,
    /// The name that is asked for, if one is.
    pub domain: Option<String>,
}

/// What the proxy is started with, as a mathematical value.
pub struct LaunchView {
    pub addr: Seq<char>,
    pub port: u16,
    pub local_port: u16,
    pub domain: Option<Seq<char>>,
}

impl View for Launch {
    type V = LaunchView;

    open spec fn view(&self) -> LaunchView {
        LaunchView {
            addr: self.addr@,
            port: self.port,
            local_port: self.local_port,
            domain: crate::wire::optional_view(self.domain),
        }
    }
}

/// What is to be done once something has happened to the settings.
#[derive(Debug)]
pub enum Effect {
    /// Nothing.
    Nothing,
    /// Take the focus from every field, for none may be edited any more.
    Unfocus,
    /// Start the proxy.
    Start(Launch),
}

/// What is to be done, as a mathematical value.
pub enum EffectView {
    Nothing,
    Unfocus,
    Start(LaunchView),
}

impl View for Effect {
    type V = EffectView;

    open spec fn view(&self) -> EffectView {
        match *self {
            Effect::Nothing => EffectView::Nothing,
            Effect::Unfocus => EffectView::Unfocus,
            Effect::Start(launch) => EffectView::Start(launch@),
        }
    }
}

/// The settings after something has happened to them. Final settings change only
/// by the name that the proxy server gives.
pub open spec fn updated(s: StateView, m: AppMessageView) -> StateView {
    match m {
        AppMessageView::DomainAssignment(addr) => StateView { client_addr: addr, ..s },
        _ => if s.finalized {
            s
        } else {
            match m {
                AppMessageView::ServerAddrChange(addr) => StateView { server_addr: addr, ..s },
                AppMessageView::ServerPortChange(port) => StateView { server_port: port, ..s },
                AppMessageView::ClientAddrChange(addr) => StateView { client_addr: addr, ..s },
                AppMessageView::ClientPortChange(port) => StateView { client_port: port, ..s },
                AppMessageView::FinalizeConfig => StateView { finalized: true, ..s },
                _ => s,
            }
        },
    }
}

/// What the proxy is started with under these settings. An empty name asks for
/// none.
pub open spec fn launch_of(s: StateView) -> LaunchView {
    LaunchView {
        addr: s.server_addr,
        port: s.server_port,
        local_port: s.client_port,
        domain: if s.client_addr.len() == 0 {
            None
        } else {
            Some(s.client_addr)
        },
    }
}

/// What is to be done once something has happened to settings.
pub open spec fn effect_of(s: StateView, m: AppMessageView) -> EffectView {
    if s.finalized {
        EffectView::Unfocus
    } else if m is FinalizeConfig {
        EffectView::Start(launch_of(s))
    } else {
        EffectView::Nothing
    }
}

/// What the window shows.
#[derive(Debug)]
pub struct Layout {
    pub server_addr: String,
    pub server_port: String,
    pub client_addr: String,
    /// The text between the wanted name and the port on this machine.
    pub target: String,
    pub client_port: String,
    /// Whether there is a button that starts the proxy.
    pub start_button: bool,
}

impl State {
    /// The settings at first.
    pub fn new() -> (r: State)
        ensures
            r@ == (StateView {
                server_addr: DEFAULT_SERVER@,
                server_port: 25566,
                client_port: 25565,
                client_addr: Seq::empty(),
                finalized: false,
            }),
    {
        State {
            server_addr: DEFAULT_SERVER.to_owned(),
            server_port: 25566,
            client_port: 25565,
            client_addr: String::new(),
            finalized: false,
        }
    }

    /// Takes in what has happened and says what is to be done.
    pub fn update(&mut self, message: AppMessage) -> (r: Effect)
        ensures
            final(self)@ == updated(old(self)@, message@),
            r@ == effect_of(old(self)@, message@),
            !old(self).finalized && message is FinalizeConfig ==> {
                &&& r matches Effect::Start(launch)
                &&& launch.addr@ == old(self).server_addr@
                &&& launch.port == old(self).server_port
                &&& launch.local_port == old(self).client_port
                &&& launch.domain is None <==> old(self).client_addr@.len() == 0
                &&& launch.domain matches Some(name) ==> name@ == old(self).client_addr@
            },
    {
        if self.finalized {
            if let AppMessage::DomainAssignment(addr) = message {
                self.client_addr = addr;
            }
            return Effect::Unfocus;
        }
        match message {
            AppMessage::ServerAddrChange(addr) => {
                self.server_addr = addr;
            },
            AppMessage::ServerPortChange(port) => {
                self.server_port = port;
            },
            AppMessage::ClientAddrChange(addr) => {
                self.client_addr = addr;
            },
            AppMessage::ClientPortChange(port) => {
                self.client_port = port;
            },
            AppMessage::DomainAssignment(addr) => {
                self.client_addr = addr;
            },
            AppMessage::FinalizeConfig => {
                self.finalized = true;
                let domain: Option<String> = if self.client_addr.as_str().is_empty() {
                    None
                } else {
                    Some(self.client_addr.clone())
                };
                return Effect::Start(
                    Launch {
                        addr: self.server_addr.clone(),
                        port: self.server_port,
                        local_port: self.client_port,
                        domain,
                    },
                );
            },
            AppMessage::StubMessage => {},
        }
        Effect::Nothing
    }

    /// What the window shows under these settings.
    pub fn layout(&self) -> (r: Layout)
        ensures
            r.server_addr@ == self@.server_addr,
            r.server_port@ == crate::text::decimal(self@.server_port as nat),
            r.client_addr@ == self@.client_addr,
            r.target@ == "."@ + self@.server_addr + " -> localhost:"@,
            r.client_port@ == crate::text::decimal(self@.client_port as nat),
            r.start_button == !self@.finalized,
    {
        Layout {
            server_addr: self.server_addr.clone(),
            server_port: decimal_text(self.server_port),
            client_addr: self.client_addr.clone(),
            target: ".".to_owned().concat(self.server_addr.as_str()).concat(" -> localhost:"),
            client_port: decimal_text(self.client_port),
            start_button: !self.finalized,
        }
    }
}

/// What an edit of the field for the port of the proxy server means. Text that
/// is no port means nothing.
pub fn server_port_edit(text: &str) -> (r: AppMessage)
    ensures
        r@ == match crate::text::port_in(text@) {
            Some(port) => AppMessageView::ServerPortChange(port),
            None => AppMessageView::StubMessage,
        },
{
    match parse_port(text) {
        Some(port) => AppMessage::ServerPortChange(port),
        None => AppMessage::StubMessage,
    }
}

/// What an edit of the field for the port on this machine means. Text that is no
/// port means nothing.
pub fn client_port_edit(text: &str) -> (r: AppMessage)
    ensures
        r@ == match crate::text::port_in(text@) {
            Some(port) => AppMessageView::ClientPortChange(port),
            None => AppMessageView::StubMessage,
        },
{
    match parse_port(text) {
        Some(port) => AppMessage::ClientPortChange(port),
        None => AppMessage::StubMessage,
    }
}

/// The settings after a sequence of messages.
pub open spec fn updated_by(s: StateView, messages: Seq<AppMessageView>) -> StateView
    decreases messages.len(),
{
    if messages.len() == 0 {
        s
    } else {
        updated(updated_by(s, messages.drop_last()), messages.last())
    }
}

/// How often a sequence of messages starts the proxy.
pub open spec fn starts(s: StateView, messages: Seq<AppMessageView>) -> nat
    decreases messages.len(),
{
    if messages.len() == 0 {
        0
    } else {
        let before = updated_by(s, messages.drop_last());
        starts(s, messages.drop_last()) + if effect_of(before, messages.last()) is Start {
            1nat
        } else {
            0nat
        }
    }
}

/// Final settings stay as they are but for the name that the proxy server gives.
pub proof fn law_final_settings_stay(s: StateView, messages: Seq<AppMessageView>)
    requires
        s.finalized,
    ensures
        updated_by(s, messages) == (StateView {
            client_addr: updated_by(s, messages).client_addr,
            ..s
        }),
        starts(s, messages) == 0,
    decreases messages.len(),
{
    if messages.len() > 0 {
        law_final_settings_stay(s, messages.drop_last());
    }
}

/// Whatever happens, the proxy is started at most once, and it has been started
/// exactly when settings that were open have become final.
pub proof fn law_started_once(s: StateView, messages: Seq<AppMessageView>)
    requires
        !s.finalized,
    ensures
        starts(s, messages) == if updated_by(s, messages).finalized {
            1nat
        } else {
            0nat
        },
    decreases messages.len(),
{
    if messages.len() > 0 {
        law_started_once(s, messages.drop_last());
    }
}

/// Why the client gives a connection up.
#[derive(Clone, Copy, Debug, PartialEq, Eq, Structural)]
pub enum ClientError {
    /// The message is not one that the server sends at this point.
    NotClientbound,
}

/// A connection to be opened for a player.
#[derive(Debug)]
pub struct PlayerTask {
    /// The address of the proxy server.
    pub addr: String,
    /// The port of the proxy server.
    pub port: u16,
    /// The port of the server on this machine.
    pub local_port: u16,
    /// The key under which the player was announced.
    pub key: AuthKey,
}

impl PlayerTask {
    /// The message with which the player's connection is claimed.
    pub fn claim(&self) -> (r: Message)
        ensures
            r@ == MessageView::Authenticate(self.key@),
            r == Message::Authenticate(self.key),
    {
        Message::Authenticate(self.key)
    }
}

/// Whether the answer to a claim lets the player's stream begin.
pub fn handle_claim_reply(msg: Message) -> (r: Result<(), ClientError>)
    ensures
        r is Ok <==> msg@ is SwitchToNetty,
        r is Ok <==> msg is SwitchToNetty,
        r matches Err(e) ==> e == ClientError::NotClientbound,
{
    match msg {
        Message::SwitchToNetty => Ok(()),
        _ => Err(ClientError::NotClientbound),
    }
}

/// What is to be done on a message of the control connection.
#[derive(Debug)]
pub enum ControlAction {
    /// The server has given the client this name.
    DomainAssigned(String),
    /// Open a connection for a player.
    Connect(PlayerTask),
}

/// The control connection of a client: where it leads, whether the client has a
/// name yet, and what has been started for players.
#[verifier::reject_recursive_types(H)]
pub struct ControlConnection<H> {
    pub addr: String,
    pub port: u16,
    pub local_port: u16,
    pub assigned: bool,
    pub children: Vec<H>,
}

/// Whether the client expects the message: first its name, then players.
pub open spec fn expected(assigned: bool, m: MessageView) -> bool {
    if assigned {
        m is IncomingConnection
    } else {
        m is AssignedDomain
    }
}

impl<H> ControlConnection<H> {
    /// A control connection that has just been opened.
    pub fn connect(addr: String, port: u16, local_port: u16) -> (r: Self)
        ensures
            r.addr@ == addr@,
            r.port == port,
            r.local_port == local_port,
            !r.assigned,
            r.children@ == Seq::<H>::empty(),
    {
        ControlConnection { addr, port, local_port, assigned: false, children: Vec::new() }
    }

    /// The message with which the client asks for a name.
    pub fn request(domain: Option<String>) -> (r: Message)
        ensures
            r@ == MessageView::RequestDomain(crate::wire::optional_view(domain)),
            r == Message::RequestDomain(domain),
    {
        Message::RequestDomain(domain)
    }

    /// Takes a message in and says what is to be done.
    pub fn handle(&mut self, msg: Message) -> (r: Result<ControlAction, ClientError>)
        ensures
            final(self).addr == old(self).addr,
            final(self).port == old(self).port,
            final(self).local_port == old(self).local_port,
            final(self).children == old(self).children,
            final(self).assigned == (old(self).assigned || r is Ok),
            r is Ok <==> expected(old(self).assigned, msg@),
            old(self).assigned ==> (r is Ok <==> msg is IncomingConnection),
            !old(self).assigned ==> (r is Ok <==> msg is AssignedDomain),
            msg matches Message::IncomingConnection(key) ==> r matches Ok(action) ==> (
            action matches ControlAction::Connect(task) && task.key == key),
            msg matches Message::AssignedDomain(name) ==> r matches Ok(action) ==> (
            action matches ControlAction::DomainAssigned(domain) && domain@ == name@),
            match r {
                Ok(ControlAction::DomainAssigned(domain)) => msg@ == MessageView::AssignedDomain(
                    domain@,
                ),
                Ok(ControlAction::Connect(task)) => {
                    &&& msg@ == MessageView::IncomingConnection(task.key@)
                    &&& task.addr@ == old(self).addr@
                    &&& task.port == old(self).port
                    &&& task.local_port == old(self).local_port
                },
                Err(e) => e == ClientError::NotClientbound,
            },
    {
        if self.assigned {
            match msg {
                Message::IncomingConnection(key) => Ok(
                    ControlAction::Connect(
                        PlayerTask {
                            addr: self.addr.clone(),
                            port: self.port,
                            local_port: self.local_port,
                            key,
                        },
                    ),
                ),
                _ => Err(ClientError::NotClientbound),
            }
        } else {
            match msg {
                Message::AssignedDomain(domain) => {
                    self.assigned = true;
                    Ok(ControlAction::DomainAssigned(domain))
                },
                _ => Err(ClientError::NotClientbound),
            }
        }
    }

    /// Keeps what has been started for a player.
    pub fn adopt(&mut self, child: H)
        ensures
            final(self).children@ == old(self).children@.push(child),
            final(self).addr == old(self).addr,
            final(self).port == old(self).port,
            final(self).local_port == old(self).local_port,
            final(self).assigned == old(self).assigned,
    {
        self.children.push(child);
    }

    /// Gives everything up that has been started for players, in that order, to
    /// be stopped. This is due when the connection goes away.
    pub fn abandon(&mut self) -> (r: Vec<H>)
        ensures
            r@ == old(self).children@,
            final(self).children@ == Seq::<H>::empty(),
            final(self).addr == old(self).addr,
            final(self).port == old(self).port,
            final(self).local_port == old(self).local_port,
            final(self).assigned == old(self).assigned,
    {
        let mut children: Vec<H> = Vec::new();
        std::mem::swap(&mut children, &mut self.children);
        children
    }
}

/// Whether the client takes a whole sequence of messages.
pub open spec fn takes_all(assigned: bool, messages: Seq<MessageView>) -> bool
    decreases messages.len(),
{
    messages.len() == 0 || (expected(assigned, messages[0]) && takes_all(
        true,
        messages.drop_first(),
    ))
}

/// What the server says to a client on its control connection: its name, and
/// then each player under a key.
pub open spec fn server_says(domain: Seq<char>, keys: Seq<Seq<u8>>) -> Seq<MessageView> {
    seq![MessageView::AssignedDomain(domain)] + keys.map_values(
        |key: Seq<u8>| MessageView::IncomingConnection(key),
    )
}

/// The client takes everything that the server says.
pub proof fn law_client_takes_all(domain: Seq<char>, keys: Seq<Seq<u8>>)
    ensures
        takes_all(false, server_says(domain, keys)),
{
    let players = keys.map_values(|key: Seq<u8>| MessageView::IncomingConnection(key));
    assert(server_says(domain, keys).drop_first() =~= players);
    lemma_takes_players(players);
}

proof fn lemma_takes_players(players: Seq<MessageView>)
    requires
        forall|i: int| 0 <= i < players.len() ==> (#[trigger] players[i]) is IncomingConnection,
    ensures
        takes_all(true, players),
    decreases players.len(),
{
    if players.len() > 0 {
        let rest = players.drop_first();
        assert forall|i: int| 0 <= i < rest.len() implies (
        #[trigger] rest[i]) is IncomingConnection by {
            assert(rest[i] == players[i + 1]);
        }
        lemma_takes_players(rest);
    }
}

/// Whether a message that one side writes is what the other side reads, with
/// nothing taken of what follows.
pub open spec fn comes_through(m: MessageView, rest: Seq<u8>) -> bool {
    crate::message::message_at(crate::message::frame(m) + rest, 0) == Parse::<
        _,
        MessageError,
    >::Done(m, crate::message::frame(m).len())
}

/// The two sides understand each other: each message of a conversation comes
/// through, and comes at a point at which the other side takes it. The client
/// asks for a name, the server gives one, the server announces a player, and the
/// client claims the player with the key of the announcement.
pub proof fn law_conversation(
    domain: Option<String>,
    assigned: String,
    key: AuthKey,
    rest: Seq<u8>,
)
    requires
        crate::message::body(Message::RequestDomain(domain)@).len() <= u32::MAX,
        crate::message::body(Message::RequestDomain(domain)@).len() <= isize::MAX,
        crate::message::body(Message::AssignedDomain(assigned)@).len() <= u32::MAX,
        crate::message::body(Message::AssignedDomain(assigned)@).len() <= isize::MAX,
    ensures
        comes_through(Message::RequestDomain(domain)@, rest),
        crate::proxy::opens_connection(Message::RequestDomain(domain)@),
        comes_through(Message::AssignedDomain(assigned)@, rest),
        expected(false, Message::AssignedDomain(assigned)@),
        comes_through(MessageView::IncomingConnection(key@), rest),
        expected(true, MessageView::IncomingConnection(key@)),
        comes_through(MessageView::Authenticate(key@), rest),
        crate::proxy::opens_connection(MessageView::Authenticate(key@)),
        comes_through(MessageView::SwitchToNetty, rest),
{
    crate::wire::lemma_le_len(0, 4);
    crate::wire::lemma_le_len(1, 4);
    crate::wire::lemma_le_len(2, 4);
    lemma_comes_through(Message::RequestDomain(domain), rest);
    lemma_comes_through(Message::AssignedDomain(assigned), rest);
    lemma_comes_through(Message::IncomingConnection(key), rest);
    lemma_comes_through(Message::Authenticate(key), rest);
    lemma_comes_through(Message::SwitchToNetty, rest);
}

proof fn lemma_comes_through(m: Message, rest: Seq<u8>)
    requires
        crate::message::body(m@).len() <= u32::MAX,
        crate::message::body(m@).len() <= isize::MAX,
    ensures
        comes_through(m@, rest),
{
    crate::message::law_frame_round_trip(Seq::empty(), m, rest);
    assert(Seq::<u8>::empty() + crate::message::frame(m@) =~= crate::message::frame(m@));
}

} // verus!
