use minerp::callback_future::{create, resolve, Poll, Shared};
use minerp::client::{
    client_port_edit, handle_claim_reply, server_port_edit, AppMessage, ClientError, ControlAction,
    ControlConnection, Effect, PlayerTask, State, TITLE,
};
use minerp::message::Message;
use minerp::proxy::{announcement, assignment, handle_proxy, ProxyAction};
use minerp::router::Router;

#[test]
fn first_settings() {
    let s = State::new();
    assert_eq!(s.server_addr, "mc.bs2k.me");
    assert_eq!(s.server_port, 25566);
    assert_eq!(s.client_port, 25565);
    assert_eq!(s.client_addr, "");
    assert!(!s.finalized);
    assert_eq!(TITLE, "Minecraft Proxy Thingy");
}

#[test]
fn edits_change_open_settings() {
    let mut s = State::new();
    assert!(matches!(s.update(AppMessage::ServerAddrChange("h".to_owned())), Effect::Nothing));
    assert!(matches!(s.update(AppMessage::ServerPortChange(1)), Effect::Nothing));
    assert!(matches!(s.update(AppMessage::ClientAddrChange("n".to_owned())), Effect::Nothing));
    assert!(matches!(s.update(AppMessage::ClientPortChange(2)), Effect::Nothing));
    assert!(matches!(s.update(AppMessage::StubMessage), Effect::Nothing));
    assert_eq!((s.server_addr.as_str(), s.server_port), ("h", 1));
    assert_eq!((s.client_addr.as_str(), s.client_port), ("n", 2));
    assert!(matches!(s.update(AppMessage::DomainAssignment("d".to_owned())), Effect::Nothing));
    assert_eq!(s.client_addr, "d");
}

#[test]
fn final_settings_start_the_proxy_once() {
    let mut s = State::new();
    s.update(AppMessage::ClientAddrChange("want".to_owned()));
    match s.update(AppMessage::FinalizeConfig) {
        Effect::Start(launch) => {
            assert_eq!(launch.addr, "mc.bs2k.me");
            assert_eq!(launch.port, 25566);
            assert_eq!(launch.local_port, 25565);
            assert_eq!(launch.domain, Some("want".to_owned()));
        }
        other => panic!("{:?}", other),
    }
    assert!(matches!(s.update(AppMessage::FinalizeConfig), Effect::Unfocus));
    assert!(s.finalized);
}

#[test]
fn empty_name_asks_for_none() {
    let mut s = State::new();
    match s.update(AppMessage::FinalizeConfig) {
        Effect::Start(launch) => assert_eq!(launch.domain, None),
        other => panic!("{:?}", other),
    }
}

#[test]
fn final_settings_take_only_the_assigned_name() {
    let mut s = State::new();
    s.update(AppMessage::FinalizeConfig);
    for m in [
        AppMessage::ServerAddrChange("x".to_owned()),
        AppMessage::ServerPortChange(9),
        AppMessage::ClientAddrChange("y".to_owned()),
        AppMessage::ClientPortChange(9),
        AppMessage::StubMessage,
    ] {
        assert!(matches!(s.update(m), Effect::Unfocus));
    }
    assert_eq!(s.server_addr, "mc.bs2k.me");
    assert_eq!((s.server_port, s.client_port), (25566, 25565));
    assert_eq!(s.client_addr, "");
    assert!(matches!(s.update(AppMessage::DomainAssignment("got".to_owned())), Effect::Unfocus));
    assert_eq!(s.client_addr, "got");
}

#[test]
fn window() {
    let mut s = State::new();
    s.update(AppMessage::ClientAddrChange("me".to_owned()));
    let l = s.layout();
    assert_eq!(l.server_addr, "mc.bs2k.me");
    assert_eq!(l.server_port, "25566");
    assert_eq!(l.client_addr, "me");
    assert_eq!(l.target, ".mc.bs2k.me -> localhost:");
    assert_eq!(l.client_port, "25565");
    assert!(l.start_button);
    s.update(AppMessage::FinalizeConfig);
    assert!(!s.layout().start_button);
}

#[test]
fn port_edits() {
    assert!(matches!(server_port_edit("80"), AppMessage::ServerPortChange(80)));
    assert!(matches!(server_port_edit("eighty"), AppMessage::StubMessage));
    assert!(matches!(client_port_edit("65535"), AppMessage::ClientPortChange(65535)));
    assert!(matches!(client_port_edit("65536"), AppMessage::StubMessage));
}

#[test]
fn control_conversation() {
    let mut c: ControlConnection<u8> = ControlConnection::connect("host".to_owned(), 5, 6);
    assert_eq!(
        ControlConnection::<u8>::request(Some("n".to_owned())),
        Message::RequestDomain(Some("n".to_owned()))
    );
    match c.handle(Message::AssignedDomain("d".to_owned())) {
        Ok(ControlAction::DomainAssigned(domain)) => assert_eq!(domain, "d"),
        other => panic!("{:?}", other),
    }
    for key in [[1u8; 32], [2u8; 32]] {
        match c.handle(Message::IncomingConnection(key)) {
            Ok(ControlAction::Connect(task)) => {
                assert_eq!(task.addr, "host");
                assert_eq!((task.port, task.local_port), (5, 6));
                assert_eq!(task.key, key);
                assert_eq!(task.claim(), Message::Authenticate(key));
                c.adopt(key[0]);
            }
            other => panic!("{:?}", other),
        }
    }
    assert_eq!(c.abandon(), vec![1, 2]);
    assert!(c.abandon().is_empty());
}

#[test]
fn control_messages_out_of_turn() {
    let mut c: ControlConnection<()> = ControlConnection::connect("h".to_owned(), 1, 2);
    assert_eq!(
        c.handle(Message::IncomingConnection([0; 32])).err(),
        Some(ClientError::NotClientbound)
    );
    assert_eq!(c.handle(Message::RequestDomain(None)).err(), Some(ClientError::NotClientbound));
    assert!(c.handle(Message::AssignedDomain("d".to_owned())).is_ok());
    assert_eq!(
        c.handle(Message::AssignedDomain("e".to_owned())).err(),
        Some(ClientError::NotClientbound)
    );
    assert_eq!(c.handle(Message::SwitchToNetty).err(), Some(ClientError::NotClientbound));
}

#[test]
fn claim_replies() {
    assert_eq!(handle_claim_reply(Message::SwitchToNetty), Ok(()));
    assert_eq!(
        handle_claim_reply(Message::AssignedDomain(String::new())),
        Err(ClientError::NotClientbound)
    );
    let task = PlayerTask { addr: "a".to_owned(), port: 1, local_port: 2, key: [8; 32] };
    assert_eq!(task.claim(), Message::Authenticate([8; 32]));
}

#[test]
fn value_is_delivered_once() {
    let mut s: Shared<u8, char> = create();
    assert_eq!(s.poll('a'), Poll::Pending);
    assert_eq!(s.poll('b'), Poll::Pending);
    assert_eq!(resolve(&mut s, 7), Some(&'b'));
    assert_eq!(s.poll('c'), Poll::Ready(7));
    assert_eq!(s.poll('d'), Poll::Pending);
}

#[test]
fn value_supplied_before_anyone_waits() {
    let mut s: Shared<u8, char> = create();
    assert_eq!(resolve(&mut s, 1), None);
    assert_eq!(s.poll('x'), Poll::Ready(1));
}

fn sent(msg: Message) -> Message {
    let mut wire = vec![];
    msg.write_to(&mut wire).unwrap();
    let (read, end) = Message::read_from(&wire, 0).unwrap();
    assert_eq!(end, wire.len());
    read
}

#[test]
fn both_sides_of_a_conversation() {
    let router: Router<String, ()> = Router::new();
    let mut client: ControlConnection<()> = ControlConnection::connect("s".to_owned(), 1, 2);
    let request = ControlConnection::<()>::request(Some("me".to_owned()));
    let domain = match handle_proxy(sent(request), &router, 1) {
        Ok(ProxyAction::Assign(domain)) => domain,
        other => panic!("{:?}", other),
    };
    match client.handle(sent(assignment(&domain))) {
        Ok(ControlAction::DomainAssigned(name)) => assert_eq!(name, "me"),
        other => panic!("{:?}", other),
    }
    let task = match client.handle(sent(announcement([5; 32]))) {
        Ok(ControlAction::Connect(task)) => task,
        other => panic!("{:?}", other),
    };
    match handle_proxy(sent(task.claim()), &router, 1) {
        Ok(ProxyAction::Claim(key)) => assert_eq!(key, [5; 32]),
        other => panic!("{:?}", other),
    }
    assert_eq!(handle_claim_reply(sent(Message::SwitchToNetty)), Ok(()));
}
