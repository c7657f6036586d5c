//! What becomes of the client's settings, field by field.

use crate::client::AppMessage;
use crate::client::AppMessageView;
use crate::client::Effect;
use crate::client::EffectView;
use crate::client::Launch;
use crate::client::LaunchView;
use crate::client::State;
use crate::client::StateView;
use crate::message::MessageView;
use vstd::prelude::*;

verus! {

/// The views of the settings, of what happens to them and of what is to be done
/// keep every field.
pub proof fn law_client_views(s: State, text: String, port: u16, launch: Launch)
    ensures
        s@.server_addr == s.server_addr@,
        s@.server_port == s.server_port,
        s@.client_port == s.client_port,
        s@.client_addr == s.client_addr@,
        s@.finalized == s.finalized,
        AppMessage::ServerAddrChange(text)@ == AppMessageView::ServerAddrChange(text@),
        AppMessage::ServerPortChange(port)@ == AppMessageView::ServerPortChange(port),
        AppMessage::ClientAddrChange(text)@ == AppMessageView::ClientAddrChange(text@),
        AppMessage::ClientPortChange(port)@ == AppMessageView::ClientPortChange(port),
        AppMessage::DomainAssignment(text)@ == AppMessageView::DomainAssignment(text@),
        AppMessage::FinalizeConfig@ == AppMessageView::FinalizeConfig,
        AppMessage::StubMessage@ == AppMessageView::StubMessage,
        Effect::Nothing@ == EffectView::Nothing,
        Effect::Unfocus@ == EffectView::Unfocus,
        Effect::Start(launch)@ == EffectView::Start(launch@),
        launch@.addr == launch.addr@,
        launch@.port == launch.port,
        launch@.local_port == launch.local_port,
        launch.domain matches Some(name) ==> launch@.domain == Some(name@),
        launch.domain is None ==> launch@.domain is None,
{
}

/// An edit of open settings sets the field that it is of and leaves every other
/// field alone.
pub proof fn law_edits(s: StateView, text: Seq<char>, port: u16)
    requires
        !s.finalized,
    ensures
        ({
            let t = crate::client::updated(s, AppMessageView::ServerAddrChange(text));
            &&& t.server_addr == text
            &&& t.server_port == s.server_port
            &&& t.client_port == s.client_port
            &&& t.client_addr == s.client_addr
            &&& t.finalized == s.finalized
        }),
        ({
            let t = crate::client::updated(s, AppMessageView::ServerPortChange(port));
            &&& t.server_addr == s.server_addr
            &&& t.server_port == port
            &&& t.client_port == s.client_port
            &&& t.client_addr == s.client_addr
            &&& t.finalized == s.finalized
        }),
        ({
            let t = crate::client::updated(s, AppMessageView::ClientAddrChange(text));
            &&& t.server_addr == s.server_addr
            &&& t.server_port == s.server_port
            &&& t.client_port == s.client_port
            &&& t.client_addr == text
            &&& t.finalized == s.finalized
        }),
        ({
            let t = crate::client::updated(s, AppMessageView::ClientPortChange(port));
            &&& t.server_addr == s.server_addr
            &&& t.server_port == s.server_port
            &&& t.client_port == port
            &&& t.client_addr == s.client_addr
            &&& t.finalized == s.finalized
        }),
        ({
            let t = crate::client::updated(s, AppMessageView::DomainAssignment(text));
            &&& t.server_addr == s.server_addr
            &&& t.server_port == s.server_port
            &&& t.client_port == s.client_port
            &&& t.client_addr == text
            &&& t.finalized == s.finalized
        }),
        ({
            let t = crate::client::updated(s, AppMessageView::FinalizeConfig);
            &&& t.server_addr == s.server_addr
            &&& t.server_port == s.server_port
            &&& t.client_port == s.client_port
            &&& t.client_addr == s.client_addr
            &&& t.finalized == true
        }),
        ({
            let t = crate::client::updated(s, AppMessageView::StubMessage);
            &&& t.server_addr == s.server_addr
            &&& t.server_port == s.server_port
            &&& t.client_port == s.client_port
            &&& t.client_addr == s.client_addr
            &&& t.finalized == s.finalized
        }),
{
}

/// Final settings take the name that the proxy server gives, and nothing else
/// changes them.
pub proof fn law_final_edits(s: StateView, m: AppMessageView)
    requires
        s.finalized,
    ensures
        ({
            let t = crate::client::updated(s, m);
            &&& t.server_addr == s.server_addr
            &&& t.server_port == s.server_port
            &&& t.client_port == s.client_port
            &&& t.finalized
            &&& m matches AppMessageView::DomainAssignment(name) ==> t.client_addr == name
            &&& !(m is DomainAssignment) ==> t.client_addr == s.client_addr
        }),
{
}

/// Making open settings final starts the proxy, with the address and port of the
/// proxy server, the port on this machine and the name as they are set; an empty
/// name asks for none. Nothing else starts it, and once the settings are final
/// every message only takes the focus away.
pub proof fn law_start(s: StateView, m: AppMessageView)
    ensures
        !s.finalized && m is FinalizeConfig ==> {
            &&& crate::client::effect_of(s, m) matches EffectView::Start(launch)
            &&& launch.addr == s.server_addr
            &&& launch.port == s.server_port
            &&& launch.local_port == s.client_port
            &&& s.client_addr.len() == 0 ==> launch.domain is None
            &&& s.client_addr.len() > 0 ==> launch.domain == Some(s.client_addr)
        },
        !s.finalized && !(m is FinalizeConfig) ==> crate::client::effect_of(s, m)
            == EffectView::Nothing,
        s.finalized ==> crate::client::effect_of(s, m) == EffectView::Unfocus,
{
}

/// Whether messages leave open settings open.
pub open spec fn stay_open(messages: Seq<AppMessageView>) -> bool {
    forall|i: int| 0 <= i < messages.len() ==> !((#[trigger] messages[i]) is FinalizeConfig)
}

proof fn lemma_stays_open(s: StateView, messages: Seq<AppMessageView>)
    requires
        !s.finalized,
        stay_open(messages),
    ensures
        !crate::client::updated_by(s, messages).finalized,
    decreases messages.len(),
{
    if messages.len() > 0 {
        let before = messages.drop_last();
        assert forall|i: int| 0 <= i < before.len() implies !((
        #[trigger] before[i]) is FinalizeConfig) by {
            assert(before[i] == messages[i]);
        }
        lemma_stays_open(s, before);
        assert(!(messages[messages.len() - 1] is FinalizeConfig));
    }
}

/// Whether a message leaves this field of open settings alone.
pub open spec fn stays_client_port(m: AppMessageView) -> bool {
    !(m is ClientPortChange)
}

/// Whether a message leaves this field of open settings alone.
pub open spec fn stays_server_port(m: AppMessageView) -> bool {
    !(m is ServerPortChange)
}

/// Whether a message leaves this field of open settings alone.
pub open spec fn stays_server_addr(m: AppMessageView) -> bool {
    !(m is ServerAddrChange)
}

/// Whether a message leaves this field of open settings alone.
pub open spec fn stays_client_addr(m: AppMessageView) -> bool {
    !(m is ClientAddrChange) && !(m is DomainAssignment)
}

/// Players are led to the port on this machine that was set last before the start.
pub proof fn law_last_client_port_counts(
    s: StateView,
    before: Seq<AppMessageView>,
    port: u16,
    after: Seq<AppMessageView>,
)
    requires
        !s.finalized,
        stay_open(before),
        stay_open(after),
        forall|i: int|
            0 <= i < after.len() ==> stays_client_port(#[trigger] after[i]),
    ensures
        ({
            let messages = before.push(AppMessageView::ClientPortChange(port)) + after;
            let t = crate::client::updated_by(s, messages);
            &&& t.client_port == port
            &&& crate::client::effect_of(t, AppMessageView::FinalizeConfig) matches EffectView::Start(
                launch,
            )
            &&& launch.local_port == port
        }),
    decreases after.len(),
{
    let messages = before.push(AppMessageView::ClientPortChange(port)) + after;
    if after.len() == 0 {
        assert(messages.drop_last() =~= before);
        assert(messages.last() == AppMessageView::ClientPortChange(port));
        lemma_stays_open(s, before);
    } else {
        let less = after.drop_last();
        assert(messages.drop_last() =~= before.push(AppMessageView::ClientPortChange(port)) + less);
        assert(messages.last() == after.last());
        assert(!(after[after.len() - 1] is FinalizeConfig));
        assert forall|i: int| 0 <= i < less.len() implies stays_client_port(#[trigger] less[i]) by {
            assert(less[i] == after[i]);
        }
        assert forall|i: int| 0 <= i < less.len() implies !((
        #[trigger] less[i]) is FinalizeConfig) by {
            assert(less[i] == after[i]);
        }
        law_last_client_port_counts(s, before, port, less);
        assert(stays_client_port(after[after.len() - 1]));
    }
}

/// The port of the proxy server is the one that was set last before the start.
pub proof fn law_last_server_port_counts(
    s: StateView,
    before: Seq<AppMessageView>,
    port: u16,
    after: Seq<AppMessageView>,
)
    requires
        !s.finalized,
        stay_open(before),
        stay_open(after),
        forall|i: int|
            0 <= i < after.len() ==> stays_server_port(#[trigger] after[i]),
    ensures
        ({
            let messages = before.push(AppMessageView::ServerPortChange(port)) + after;
            let t = crate::client::updated_by(s, messages);
            &&& t.server_port == port
            &&& crate::client::effect_of(t, AppMessageView::FinalizeConfig) matches EffectView::Start(
                launch,
            )
            &&& launch.port == port
        }),
    decreases after.len(),
{
    let messages = before.push(AppMessageView::ServerPortChange(port)) + after;
    if after.len() == 0 {
        assert(messages.drop_last() =~= before);
        assert(messages.last() == AppMessageView::ServerPortChange(port));
        lemma_stays_open(s, before);
    } else {
        let less = after.drop_last();
        assert(messages.drop_last() =~= before.push(AppMessageView::ServerPortChange(port)) + less);
        assert(messages.last() == after.last());
        assert(!(after[after.len() - 1] is FinalizeConfig));
        assert forall|i: int| 0 <= i < less.len() implies stays_server_port(#[trigger] less[i]) by {
            assert(less[i] == after[i]);
        }
        assert forall|i: int| 0 <= i < less.len() implies !((
        #[trigger] less[i]) is FinalizeConfig) by {
            assert(less[i] == after[i]);
        }
        law_last_server_port_counts(s, before, port, less);
        assert(stays_server_port(after[after.len() - 1]));
    }
}

/// The address of the proxy server is the one that was set last before the start.
pub proof fn law_last_server_addr_counts(
    s: StateView,
    before: Seq<AppMessageView>,
    text: Seq<char>,
    after: Seq<AppMessageView>,
)
    requires
        !s.finalized,
        stay_open(before),
        stay_open(after),
        forall|i: int|
            0 <= i < after.len() ==> stays_server_addr(#[trigger] after[i]),
    ensures
        ({
            let messages = before.push(AppMessageView::ServerAddrChange(text)) + after;
            let t = crate::client::updated_by(s, messages);
            &&& t.server_addr == text
            &&& crate::client::effect_of(t, AppMessageView::FinalizeConfig) matches EffectView::Start(
                launch,
            )
            &&& launch.addr == text
        }),
    decreases after.len(),
{
    let messages = before.push(AppMessageView::ServerAddrChange(text)) + after;
    if after.len() == 0 {
        assert(messages.drop_last() =~= before);
        assert(messages.last() == AppMessageView::ServerAddrChange(text));
        lemma_stays_open(s, before);
    } else {
        let less = after.drop_last();
        assert(messages.drop_last() =~= before.push(AppMessageView::ServerAddrChange(text)) + less);
        assert(messages.last() == after.last());
        assert(!(after[after.len() - 1] is FinalizeConfig));
        assert forall|i: int| 0 <= i < less.len() implies stays_server_addr(#[trigger] less[i]) by {
            assert(less[i] == after[i]);
        }
        assert forall|i: int| 0 <= i < less.len() implies !((
        #[trigger] less[i]) is FinalizeConfig) by {
            assert(less[i] == after[i]);
        }
        law_last_server_addr_counts(s, before, text, less);
        assert(stays_server_addr(after[after.len() - 1]));
    }
}

/// The name that is asked for is the one that was set last before the start, and
/// an empty one asks for none.
pub proof fn law_last_wanted_name_counts(
    s: StateView,
    before: Seq<AppMessageView>,
    text: Seq<char>,
    after: Seq<AppMessageView>,
)
    requires
        !s.finalized,
        stay_open(before),
        stay_open(after),
        forall|i: int|
            0 <= i < after.len() ==> stays_client_addr(#[trigger] after[i]),
    ensures
        ({
            let messages = before.push(AppMessageView::ClientAddrChange(text)) + after;
            let t = crate::client::updated_by(s, messages);
            &&& t.client_addr == text
            &&& crate::client::effect_of(t, AppMessageView::FinalizeConfig) matches EffectView::Start(
                launch,
            )
            &&& launch.domain == if text.len() == 0 { None } else { Some(text) }
        }),
    decreases after.len(),
{
    let messages = before.push(AppMessageView::ClientAddrChange(text)) + after;
    if after.len() == 0 {
        assert(messages.drop_last() =~= before);
        assert(messages.last() == AppMessageView::ClientAddrChange(text));
        lemma_stays_open(s, before);
    } else {
        let less = after.drop_last();
        assert(messages.drop_last() =~= before.push(AppMessageView::ClientAddrChange(text)) + less);
        assert(messages.last() == after.last());
        assert(!(after[after.len() - 1] is FinalizeConfig));
        assert forall|i: int| 0 <= i < less.len() implies stays_client_addr(#[trigger] less[i]) by {
            assert(less[i] == after[i]);
        }
        assert forall|i: int| 0 <= i < less.len() implies !((
        #[trigger] less[i]) is FinalizeConfig) by {
            assert(less[i] == after[i]);
        }
        law_last_wanted_name_counts(s, before, text, less);
        assert(stays_client_addr(after[after.len() - 1]));
    }
}

/// On its control connection the client takes a name first and then players, and
/// nothing else.
pub proof fn law_expected(m: MessageView)
    ensures
        crate::client::expected(false, m) <==> m is AssignedDomain,
        crate::client::expected(true, m) <==> m is IncomingConnection,
{
}

/// What the server says to a client is its name and then the players, one
/// announcement for each key and in the order of the keys.
pub proof fn law_server_says(domain: Seq<char>, keys: Seq<Seq<u8>>)
    ensures
        ({
            let said = crate::client::server_says(domain, keys);
            &&& said.len() == keys.len() + 1
            &&& said[0] == MessageView::AssignedDomain(domain)
            &&& forall|i: int|
                0 <= i < keys.len() ==> said[i + 1] == MessageView::IncomingConnection(
                    #[trigger] keys[i],
                )
        }),
{
}

/// The texts of the window.
pub proof fn law_window_texts()
    ensures
        crate::client::TITLE@ == "Minecraft Proxy Thingy"@,
        crate::client::SERVER_ADDR_HINT@ == "Proxy server address"@,
        crate::client::CLIENT_ADDR_HINT@ == "Choose randomly"@,
        crate::client::PORT_HINT@ == "Port"@,
        crate::client::START_LABEL@ == "Start Proxy"@,
        crate::client::DEFAULT_SERVER@ == "mc.bs2k.me"@,
{
}

} // verus!
