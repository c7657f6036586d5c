use minerp::message::{Message, MessageError};

fn frame(m: &Message) -> Vec<u8> {
    let mut out = vec![];
    assert_eq!(m.write_to(&mut out), Ok(()));
    out
}

fn key() -> [u8; 32] {
    let mut key = [0u8; 32];
    for (i, b) in key.iter_mut().enumerate() {
        *b = i as u8 + 100;
    }
    key
}

fn all() -> Vec<Message> {
    vec![
        Message::SwitchToNetty,
        Message::Authenticate(key()),
        Message::IncomingConnection(key()),
        Message::AssignedDomain("ab\u{e9}".to_owned()),
        Message::AssignedDomain(String::new()),
        Message::RequestDomain(None),
        Message::RequestDomain(Some("mine".to_owned())),
    ]
}

#[test]
fn known_frames() {
    assert_eq!(frame(&Message::SwitchToNetty), vec![0, 0, 0, 4, 0, 0, 0, 0]);
    let mut expected = vec![0, 0, 0, 36, 1, 0, 0, 0];
    expected.extend_from_slice(&key());
    assert_eq!(frame(&Message::Authenticate(key())), expected);
    expected[4] = 2;
    assert_eq!(frame(&Message::IncomingConnection(key())), expected);
    assert_eq!(
        frame(&Message::AssignedDomain("ab\u{e9}".to_owned())),
        vec![0, 0, 0, 16, 3, 0, 0, 0, 4, 0, 0, 0, 0, 0, 0, 0, b'a', b'b', 0xc3, 0xa9]
    );
    assert_eq!(frame(&Message::RequestDomain(None)), vec![0, 0, 0, 5, 4, 0, 0, 0, 0]);
    assert_eq!(
        frame(&Message::RequestDomain(Some("x".to_owned()))),
        vec![0, 0, 0, 14, 4, 0, 0, 0, 1, 1, 0, 0, 0, 0, 0, 0, 0, b'x']
    );
}

#[test]
fn frame_round_trip() {
    for m in all() {
        let mut buf = vec![1, 2, 3];
        m.write_to(&mut buf).unwrap();
        let end = buf.len();
        buf.push(77);
        assert_eq!(Message::read_from(&buf, 3), Ok((m, end)));
    }
}

#[test]
fn body_round_trip() {
    for m in all() {
        let mut body = m.encode().unwrap();
        assert_eq!(Message::decode(&body), Ok(m.clone()));
        body.push(1);
        assert_eq!(Message::decode(&body), Ok(m));
    }
}

#[test]
fn frames_differ() {
    let messages = all();
    for i in 0..messages.len() {
        for j in 0..messages.len() {
            assert_eq!(frame(&messages[i]) == frame(&messages[j]), i == j);
        }
    }
}

#[test]
fn long_text_round_trip() {
    let m = Message::AssignedDomain("d".repeat(70000));
    let buf = frame(&m);
    assert_eq!(&buf[..4], &[0x00, 0x01, 0x11, 0x7c]);
    assert_eq!(Message::read_from(&buf, 0), Ok((m, 70016)));
}

#[test]
fn incomplete_frames() {
    assert_eq!(Message::read_from(&[], 0), Err(MessageError::Incomplete(4)));
    assert_eq!(Message::read_from(&[0, 0], 0), Err(MessageError::Incomplete(2)));
    assert_eq!(Message::read_from(&[0, 0, 0, 4], 0), Err(MessageError::Incomplete(4)));
    assert_eq!(Message::read_from(&[0, 0, 0, 4, 0, 0, 0], 0), Err(MessageError::Incomplete(1)));
    assert_eq!(Message::read_from(&[0], 5), Err(MessageError::Incomplete(4)));
}

#[test]
fn frames_are_read_asking_for_exactly_what_is_missing() {
    for m in all() {
        let whole = frame(&m);
        let mut read: Vec<u8> = vec![];
        let mut rounds = 0;
        let got = loop {
            match Message::read_from(&read, 0) {
                Err(MessageError::Incomplete(n)) => {
                    let have = read.len();
                    read.extend_from_slice(&whole[have..have + n]);
                    rounds += 1;
                }
                other => break other,
            }
        };
        assert_eq!(rounds, 2);
        assert_eq!(got, Ok((m, whole.len())));
        assert_eq!(read, whole);
    }
}

#[test]
fn malformed_bodies() {
    let malformed: Vec<Vec<u8>> = vec![
        vec![],
        vec![0, 0, 0],
        vec![5, 0, 0, 0],
        vec![0, 0, 0, 1],
        vec![1, 0, 0, 0, 1, 2, 3],
        vec![3, 0, 0, 0, 1, 0, 0, 0, 0, 0, 0],
        vec![3, 0, 0, 0, 9, 0, 0, 0, 0, 0, 0, 0, b'a'],
        vec![3, 0, 0, 0, 255, 255, 255, 255, 255, 255, 255, 255],
        vec![3, 0, 0, 0, 1, 0, 0, 0, 0, 0, 0, 0, 0xff],
        vec![4, 0, 0, 0],
        vec![4, 0, 0, 0, 2],
        vec![4, 0, 0, 0, 1],
    ];
    for body in malformed {
        assert_eq!(Message::decode(&body), Err(MessageError::Malformed));
        let mut buf = vec![0, 0, 0, body.len() as u8];
        buf.extend_from_slice(&body);
        assert_eq!(Message::read_from(&buf, 0), Err(MessageError::Malformed));
    }
}

#[test]
fn trailing_bytes_in_a_frame_are_ignored() {
    assert_eq!(
        Message::read_from(&[0, 0, 0, 6, 0, 0, 0, 0, 8, 9], 0),
        Ok((Message::SwitchToNetty, 10))
    );
}
