use minerp::netty::{
    read_bigendian_u16, read_string, read_varint, write_bigendian_u16, write_string, write_varint,
    NettyError,
};

fn varint(val: i32) -> Vec<u8> {
    let mut buf = vec![];
    assert_eq!(write_varint(&mut buf, val), Ok(()));
    buf
}

#[test]
fn varint_known_encodings() {
    assert_eq!(varint(0), vec![0x00]);
    assert_eq!(varint(1), vec![0x01]);
    assert_eq!(varint(127), vec![0x7f]);
    assert_eq!(varint(128), vec![0x80, 0x01]);
    assert_eq!(varint(255), vec![0xff, 0x01]);
    assert_eq!(varint(25565), vec![0xdd, 0xc7, 0x01]);
    assert_eq!(varint(2097151), vec![0xff, 0xff, 0x7f]);
    assert_eq!(varint(i32::MAX), vec![0xff, 0xff, 0xff, 0xff, 0x07]);
}

#[test]
fn varint_round_trip() {
    for val in [0, 1, 2, 127, 128, 254, 300, 16383, 16384, 2097152, 268435455, 268435456, i32::MAX] {
        let mut buf = vec![9, 9];
        write_varint(&mut buf, val).unwrap();
        let end = buf.len();
        buf.push(0xff);
        assert_eq!(read_varint(&buf, 2), Ok((val, end)));
    }
}

#[test]
fn varint_negative_is_read_and_not_written() {
    assert_eq!(read_varint(&[0xff, 0xff, 0xff, 0xff, 0x0f], 0), Ok((-1, 5)));
    assert_eq!(read_varint(&[0x80, 0x80, 0x80, 0x80, 0x08], 0), Ok((i32::MIN, 5)));
    let mut buf = vec![];
    assert_eq!(write_varint(&mut buf, -1), Err(NettyError::VarIntTooBig));
    assert_eq!(buf, vec![0xff, 0xff, 0xff, 0xff, 0xff]);
    let mut buf = vec![7];
    assert_eq!(write_varint(&mut buf, i32::MIN), Err(NettyError::VarIntTooBig));
    assert_eq!(buf, vec![7, 0x80, 0x80, 0x80, 0x80, 0xf8]);
}

#[test]
fn varint_drops_bits_beyond_the_lowest_32() {
    assert_eq!(read_varint(&[0x80, 0x80, 0x80, 0x80, 0x70], 0), Ok((0, 5)));
    assert_eq!(read_varint(&[0xff, 0xff, 0xff, 0xff, 0x7f], 0), Ok((-1, 5)));
}

#[test]
fn varint_too_big() {
    assert_eq!(
        read_varint(&[0x80, 0x80, 0x80, 0x80, 0x80, 0x01], 0),
        Err(NettyError::VarIntTooBig)
    );
}

#[test]
fn varint_incomplete() {
    assert_eq!(read_varint(&[], 0), Err(NettyError::Incomplete(1)));
    assert_eq!(read_varint(&[0x80], 0), Err(NettyError::Incomplete(1)));
    assert_eq!(read_varint(&[0x80, 0x80, 0x80, 0x80], 0), Err(NettyError::Incomplete(1)));
    assert_eq!(read_varint(&[0x05], 3), Err(NettyError::Incomplete(1)));
}

#[test]
fn varint_takes_the_fewest_groups() {
    assert_eq!(varint(16383).len(), 2);
    assert_eq!(varint(16384).len(), 3);
    assert_eq!(varint(268435455).len(), 4);
    assert_eq!(varint(268435456).len(), 5);
}

#[test]
fn short_round_trip() {
    let mut buf = vec![];
    write_bigendian_u16(&mut buf, 25565);
    assert_eq!(buf, vec![0x63, 0xdd]);
    assert_eq!(read_bigendian_u16(&buf, 0), Ok((25565, 2)));
    let mut buf = vec![1];
    write_bigendian_u16(&mut buf, u16::MAX);
    assert_eq!(read_bigendian_u16(&buf, 1), Ok((u16::MAX, 3)));
}

#[test]
fn short_incomplete() {
    assert_eq!(read_bigendian_u16(&[], 0), Err(NettyError::Incomplete(2)));
    assert_eq!(read_bigendian_u16(&[1], 0), Err(NettyError::Incomplete(1)));
    assert_eq!(read_bigendian_u16(&[1], 9), Err(NettyError::Incomplete(2)));
}

#[test]
fn string_round_trip() {
    for text in ["", "localhost", "h\u{e9}llo", "\u{1f600} \u{20ac}"] {
        let mut buf = vec![3];
        assert_eq!(write_string(&mut buf, text), Ok(()));
        let end = buf.len();
        buf.push(b'x');
        assert_eq!(read_string(&buf, 1), Ok((text.to_owned(), end)));
    }
}

#[test]
fn string_known_encoding() {
    let mut buf = vec![];
    write_string(&mut buf, "h\u{e9}").unwrap();
    assert_eq!(buf, vec![3, b'h', 0xc3, 0xa9]);
}

#[test]
fn string_longer_than_one_group() {
    let text = "a".repeat(300);
    let mut buf = vec![];
    write_string(&mut buf, &text).unwrap();
    assert_eq!(&buf[..3], &[0xac, 0x02, b'a']);
    assert_eq!(read_string(&buf, 0), Ok((text, 302)));
}

#[test]
fn string_incomplete() {
    assert_eq!(read_string(&[], 0), Err(NettyError::Incomplete(1)));
    assert_eq!(read_string(&[5, b'a', b'b'], 0), Err(NettyError::Incomplete(3)));
    assert_eq!(read_string(&[5], 0), Err(NettyError::Incomplete(5)));
}

#[test]
fn string_invalid_utf8() {
    assert_eq!(read_string(&[2, 0xc3, 0x28], 0), Err(NettyError::InvalidUtf8));
    assert_eq!(read_string(&[1, 0xff], 0), Err(NettyError::InvalidUtf8));
}

#[test]
fn string_negative_length() {
    assert_eq!(
        read_string(&[0xff, 0xff, 0xff, 0xff, 0x0f], 0),
        Err(NettyError::NegativeLength)
    );
}

#[test]
fn string_length_too_big() {
    assert_eq!(
        read_string(&[0x80, 0x80, 0x80, 0x80, 0x80], 0),
        Err(NettyError::VarIntTooBig)
    );
}

#[test]
fn missing_bytes_are_asked_for_exactly() {
    let mut whole = vec![];
    write_string(&mut whole, &"z".repeat(200)).unwrap();
    let mut read: Vec<u8> = vec![];
    loop {
        match read_string(&read, 0) {
            Err(NettyError::Incomplete(n)) => {
                let have = read.len();
                assert!(n > 0);
                read.extend_from_slice(&whole[have..have + n]);
            }
            other => {
                assert_eq!(other, Ok(("z".repeat(200), whole.len())));
                break;
            }
        }
    }
    assert_eq!(read, whole);
}
