use minerp::minecraft::{
    forward_handshake, handle_minecraft, kick_reply, legacy_reply, read_greeting,
    read_status_request, status_reply, welcome_client, Action, Greeting, MinecraftError, Phase,
    FORWARDED_HOST, KICK_TEXT, STATUS_TEXT,
};
use minerp::netty::{read_string, read_varint, write_bigendian_u16, write_string, write_varint, NettyError};
use minerp::router::Router;

const LISTEN: &str = "mc.example";

fn router() -> Router<String, ()> {
    let mut r = Router::new();
    r.register("mine".to_owned(), ());
    r
}

fn handshake(id: i32, version: i32, host: &str, state: i32) -> Vec<u8> {
    let mut payload = vec![];
    write_varint(&mut payload, id).unwrap();
    write_varint(&mut payload, version).unwrap();
    write_string(&mut payload, host).unwrap();
    write_bigendian_u16(&mut payload, 25565);
    write_varint(&mut payload, state).unwrap();
    let mut out = vec![];
    write_varint(&mut out, payload.len() as i32).unwrap();
    out.extend_from_slice(&payload);
    out
}

fn greet(bytes: &[u8]) -> Result<Action, MinecraftError> {
    handle_minecraft(Phase::Greeting, bytes, LISTEN, &router())
}

#[test]
fn legacy_reply_bytes() {
    let expected: Vec<u8> = vec![
        0xff, 0x00, 0x3b, 0x00, 0xa7, 0x00, 0x31, 0x00, 0x00, 0x00, 0x31, 0x00, 0x32, 0x00, 0x37,
        0x00, 0x00, 0x00, 0x32, 0x00, 0x2e, 0x00, 0x30, 0x00, 0x2e, 0x00, 0x30, 0x00, 0x00, 0x00,
        0x4d, 0x00, 0x69, 0x00, 0x6e, 0x00, 0x65, 0x00, 0x63, 0x00, 0x72, 0x00, 0x61, 0x00, 0x66,
        0x00, 0x74, 0x00, 0x20, 0x00, 0x76, 0x00, 0x65, 0x00, 0x72, 0x00, 0x73, 0x00, 0x69, 0x00,
        0x6f, 0x00, 0x6e, 0x00, 0x73, 0x00, 0x20, 0x00, 0x62, 0x00, 0x65, 0x00, 0x6c, 0x00, 0x6f,
        0x00, 0x77, 0x00, 0x31, 0x00, 0x2e, 0x00, 0x36, 0x00, 0x69, 0x00, 0x73, 0x00, 0x6e, 0x00,
        0x27, 0x00, 0x74, 0x00, 0x20, 0x00, 0x73, 0x00, 0x75, 0x00, 0x70, 0x00, 0x70, 0x00, 0x6f,
        0x00, 0x72, 0x00, 0x74, 0x00, 0x65, 0x00, 0x64, 0x00, 0x00, 0x00, 0x30, 0x00, 0x00, 0x00,
        0x30,
    ];
    assert_eq!(legacy_reply(), expected);
}

#[test]
fn legacy_ping_is_answered_at_once() {
    match greet(&[0xfe, 0x01]) {
        Ok(Action::Send(bytes, None)) => assert_eq!(bytes, legacy_reply()),
        other => panic!("{:?}", other),
    }
    assert!(matches!(greet(&[0xfe]), Ok(Action::Read(1))));
}

#[test]
fn greeting_is_read() {
    let bytes = handshake(0, 758, "mine.mc.example", 2);
    match read_greeting(&bytes) {
        Ok((Greeting::Handshake { protocol_version, addr, is_serverlistping }, end)) => {
            assert_eq!(protocol_version, 758);
            assert_eq!(addr, "mine.mc.example");
            assert!(!is_serverlistping);
            assert_eq!(end, bytes.len());
        }
        other => panic!("{:?}", other),
    }
}

#[test]
fn routed_player_is_handed_over() {
    for state in [1, 2] {
        match greet(&handshake(0, 47, "mine.mc.example", state)) {
            Ok(Action::Route { name, protocol_version, is_serverlistping }) => {
                assert_eq!(name, "mine");
                assert_eq!(protocol_version, 47);
                assert_eq!(is_serverlistping, state == 1);
            }
            other => panic!("{:?}", other),
        }
    }
}

#[test]
fn unrouted_login_is_refused() {
    match greet(&handshake(0, 47, "other.mc.example", 2)) {
        Ok(Action::Send(bytes, None)) => assert_eq!(bytes, kick_reply()),
        other => panic!("{:?}", other),
    }
    assert!(matches!(
        greet(&handshake(0, 47, "MINE.mc.example", 2)),
        Ok(Action::Send(_, None))
    ));
}

#[test]
fn unrouted_status_conversation() {
    assert!(matches!(
        greet(&handshake(0, 47, "other.mc.example", 1)),
        Ok(Action::Enter(Phase::StatusRequest))
    ));
    let r = router();
    assert!(matches!(
        handle_minecraft(Phase::StatusRequest, &[], LISTEN, &r),
        Ok(Action::Read(1))
    ));
    match handle_minecraft(Phase::StatusRequest, &[1, 0], LISTEN, &r) {
        Ok(Action::Send(bytes, Some(Phase::Ping))) => assert_eq!(bytes, status_reply()),
        other => panic!("{:?}", other),
    }
    assert!(matches!(
        handle_minecraft(Phase::Ping, &[9, 1, 2], LISTEN, &r),
        Ok(Action::Read(7))
    ));
    let ping = [9, 1, 11, 12, 13, 14, 15, 16, 17, 18];
    match handle_minecraft(Phase::Ping, &ping, LISTEN, &r) {
        Ok(Action::Send(bytes, None)) => assert_eq!(bytes, ping.to_vec()),
        other => panic!("{:?}", other),
    }
}

#[test]
fn status_request_errors() {
    assert_eq!(read_status_request(&[1, 0]), Ok(2));
    assert_eq!(read_status_request(&[2]), Err(MinecraftError::InvalidStatusRequest));
    assert_eq!(read_status_request(&[1, 1]), Err(MinecraftError::InvalidStatusRequest));
    assert_eq!(read_status_request(&[1]), Err(MinecraftError::Incomplete(1)));
    assert_eq!(
        read_status_request(&[0x80, 0x80, 0x80, 0x80, 0x80]),
        Err(MinecraftError::Netty(NettyError::VarIntTooBig))
    );
}

#[test]
fn greeting_errors() {
    assert_eq!(
        greet(&handshake(1, 47, "mine.mc.example", 2)).err(),
        Some(MinecraftError::InvalidPacketId)
    );
    assert_eq!(
        greet(&handshake(0, 47, "mine.mc.example", 3)).err(),
        Some(MinecraftError::InvalidState)
    );
    assert_eq!(
        greet(&handshake(0, 47, "mine.elsewhere", 2)).err(),
        Some(MinecraftError::InvalidHostname)
    );
    assert_eq!(
        greet(&[5, 0, 47, 1, 0xff, 0, 0, 2]).err(),
        Some(MinecraftError::Netty(NettyError::InvalidUtf8))
    );
    assert_eq!(
        greet(&[5, 0, 47, 0xff, 0xff, 0xff, 0xff, 0x0f]).err(),
        Some(MinecraftError::Netty(NettyError::NegativeLength))
    );
    assert_eq!(
        greet(&[0xff, 0xff, 0xff, 0xff, 0xff]).err(),
        Some(MinecraftError::Netty(NettyError::VarIntTooBig))
    );
}

#[test]
fn wrong_packet_is_refused_before_the_rest_is_read() {
    assert_eq!(greet(&[5, 7]).err(), Some(MinecraftError::InvalidPacketId));
}

#[test]
fn length_of_the_handshake_does_not_matter() {
    let mut bytes = handshake(0, 47, "mine.mc.example", 2);
    bytes[0] = 3;
    assert!(matches!(greet(&bytes), Ok(Action::Route { .. })));
}

#[test]
fn greeting_is_read_asking_for_exactly_what_is_missing() {
    let whole = handshake(0, 300, "mine.mc.example", 2);
    let mut stream = whole.clone();
    stream.extend_from_slice(b"what the player says next");
    let mut read: Vec<u8> = vec![];
    loop {
        match greet(&read) {
            Ok(Action::Read(n)) => {
                let have = read.len();
                read.extend_from_slice(&stream[have..have + n]);
            }
            Ok(Action::Route { .. }) => break,
            other => panic!("{:?}", other),
        }
    }
    assert_eq!(read, whole);
}

#[test]
fn decisions_do_not_depend_on_what_follows() {
    let mut bytes = handshake(0, 47, "other.mc.example", 2);
    bytes.extend_from_slice(&[1, 2, 3]);
    match greet(&bytes) {
        Ok(Action::Send(bytes, None)) => assert_eq!(bytes, kick_reply()),
        other => panic!("{:?}", other),
    }
}

#[test]
fn text_packets() {
    for (bytes, text) in [(status_reply(), STATUS_TEXT), (kick_reply(), KICK_TEXT)] {
        let (len, pos) = read_varint(&bytes, 0).unwrap();
        assert_eq!(len as usize, bytes.len() - pos);
        let (id, pos) = read_varint(&bytes, pos).unwrap();
        assert_eq!(id, 0);
        let (read, end) = read_string(&bytes, pos).unwrap();
        assert_eq!(read, text);
        assert_eq!(end, bytes.len());
    }
    assert_eq!(
        STATUS_TEXT,
        "{\"version\":{\"name\":\"No Server Here\",\"protocol\":2147483647},\"players\":{\"max\":0,\"online\":0},\"description\":{\"text\":\"This address isn't proxied to any server. Check your address.\"},\"favicon\":\"data:image/png;base64,<data>\"}"
    );
    assert_eq!(
        KICK_TEXT,
        "{\"text\":\"This address isn't proxied to any server. Check your address.\"}"
    );
}

#[test]
fn forwarded_handshake_is_a_greeting() {
    for (version, ping) in [(0, true), (47, false), (758, true), (i32::MAX, false)] {
        let bytes = forward_handshake(version, ping).unwrap();
        match read_greeting(&bytes) {
            Ok((Greeting::Handshake { protocol_version, addr, is_serverlistping }, end)) => {
                assert_eq!(protocol_version, version);
                assert_eq!(addr, FORWARDED_HOST);
                assert_eq!(is_serverlistping, ping);
                assert_eq!(end, bytes.len());
            }
            other => panic!("{:?}", other),
        }
    }
}

#[test]
fn forwarded_handshake_bytes() {
    let mut expected = vec![31, 0, 47, 25];
    expected.extend_from_slice(b"minerp.proxied.connection");
    expected.extend_from_slice(&[0x63, 0xdd, 2]);
    assert_eq!(forward_handshake(47, false), Ok(expected));
}

#[test]
fn negative_version_is_not_forwarded() {
    assert_eq!(forward_handshake(-1, true), Err(NettyError::VarIntTooBig));
    let bytes = [5, 0, 0xff, 0xff, 0xff, 0xff, 0x0f, 0, 0, 0, 1];
    match read_greeting(&bytes) {
        Ok((Greeting::Handshake { protocol_version, .. }, 11)) => assert_eq!(protocol_version, -1),
        other => panic!("{:?}", other),
    }
}

#[test]
fn welcome_of_a_legacy_ping() {
    assert!(matches!(
        welcome_client(Greeting::LegacyPing, LISTEN, &router()),
        Ok(Action::Send(_, None))
    ));
}

#[test]
fn handshake_of_the_length_of_a_legacy_ping() {
    let suffix = ".mc.example";
    let len_of = |n: usize| handshake(0, 47, &("a".repeat(n) + suffix), 2).len() - 2;
    let n = (200..300).find(|n| len_of(*n) == 254).unwrap();
    for (n, legacy) in [(n - 1, false), (n, true), (n + 1, false)] {
        let bytes = handshake(0, 47, &("a".repeat(n) + suffix), 2);
        match greet(&bytes) {
            Ok(Action::Send(reply, None)) => {
                assert_eq!(reply == legacy_reply(), legacy);
                assert_eq!(reply == kick_reply(), !legacy);
            }
            other => panic!("{:?}", other),
        }
    }
}

#[test]
fn neither_length_nor_port_matters() {
    let bytes = handshake(0, 47, "mine.mc.example", 1);
    let n = bytes.len();
    for length in [vec![0], vec![1], vec![0xff, 0x01], vec![0xff, 0xff, 0xff, 0xff, 0x0f]] {
        for port in [[0, 0], [0xff, 0xff], [0x63, 0xdd]] {
            let mut other = length.clone();
            other.extend_from_slice(&bytes[1..]);
            let m = other.len();
            other[m - 3..m - 1].copy_from_slice(&port);
            match greet(&other) {
                Ok(Action::Route { name, protocol_version, is_serverlistping }) => {
                    assert_eq!(name, "mine");
                    assert_eq!(protocol_version, 47);
                    assert!(is_serverlistping);
                }
                other => panic!("{:?}", other),
            }
            assert!(matches!(greet(&other[..m - 1]), Ok(Action::Read(1))));
        }
    }
    assert!(matches!(greet(&bytes[..n - 1]), Ok(Action::Read(1))));
}
