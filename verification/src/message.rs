//! The messages of the control connection between the proxy server and its
//! clients, and the frames in which they travel.

use crate::parse::Parse;
use crate::wire::deserialize_key;
use crate::wire::deserialize_optional_text;
use crate::wire::deserialize_tag;
use crate::wire::deserialize_text;
use crate::wire::serialize_key;
use crate::wire::serialize_optional_text;
use crate::wire::serialize_tag;
use crate::wire::serialize_text;
use vstd::prelude::*;
use vstd::slice::*;

verus! {

/// The secret by which a proxied connection is claimed.
pub type AuthKey = [u8; 32];

/// A message of the control connection.
#[derive(Clone, Debug, PartialEq, Eq, Hash)]
pub enum Message {
    /// From here on the connection carries the proxied stream.
    SwitchToNetty,
    /// The sender claims the connection that was announced under this key.
    Authenticate(AuthKey),
    /// A player has connected; the connection can be claimed with this key.
    IncomingConnection(AuthKey),
    /// The name under which the receiver can now be reached.
    AssignedDomain(String),
    /// The sender asks to be reachable, under this name if it gives one.
    RequestDomain(Option<String>),
}

/// A message as a mathematical value.
pub enum MessageView {
    SwitchToNetty,
    Authenticate(Seq<u8>),
    IncomingConnection(Seq<u8>),
    AssignedDomain(Seq<char>),
    RequestDomain(Option<Seq<char>>),
}

impl View for Message {
    type V = MessageView;

    open spec fn view(&self) -> MessageView {
        match *self {
            Message::SwitchToNetty => MessageView::SwitchToNetty,
            Message::Authenticate(key) => MessageView::Authenticate(key@),
            Message::IncomingConnection(key) => MessageView::IncomingConnection(key@),
            Message::AssignedDomain(domain) => MessageView::AssignedDomain(domain@),
            Message::RequestDomain(domain) => MessageView::RequestDomain(
                crate::wire::optional_view(domain),
            ),
        }
    }
}

/// Why a message could not be read or written.
#[derive(Clone, Copy, Debug, PartialEq, Eq, Structural)]
pub enum MessageError {
    /// The bytes end before the frame does; at least this many are missing.
    Incomplete(usize),
    /// The bytes of the frame are no message.
    Malformed,
    /// The message is longer than any allocation can be.
    TooLong,
}

/// A message without its frame: the number of its kind in four bytes, then what
/// it carries.
pub open spec fn body(m: MessageView) -> Seq<u8> {
    match m {
        MessageView::SwitchToNetty => crate::wire::le(0, 4),
        MessageView::Authenticate(key) => crate::wire::le(1, 4) + key,
        MessageView::IncomingConnection(key) => crate::wire::le(2, 4) + key,
        MessageView::AssignedDomain(domain) => crate::wire::le(3, 4) + crate::wire::text_bytes(
            domain,
        ),
        MessageView::RequestDomain(domain) => crate::wire::le(4, 4)
            + crate::wire::optional_text_bytes(domain),
    }
}

/// The message that `b` starts with.
pub open spec fn message_in(b: Seq<u8>) -> Option<MessageView> {
    if b.len() < 4 {
        None
    } else {
        let kind = crate::wire::from_le(b.take(4));
        let rest = b.skip(4);
        if kind == 0 {
            Some(MessageView::SwitchToNetty)
        } else if kind == 1 && rest.len() >= 32 {
            Some(MessageView::Authenticate(rest.take(32)))
        } else if kind == 2 && rest.len() >= 32 {
            Some(MessageView::IncomingConnection(rest.take(32)))
        } else if kind == 3 && crate::wire::text_in(rest) is Some {
            Some(MessageView::AssignedDomain(crate::wire::text_in(rest).unwrap()))
        } else if kind == 4 && crate::wire::optional_text_in(rest) is Some {
            Some(MessageView::RequestDomain(crate::wire::optional_text_in(rest).unwrap()))
        } else {
            None
        }
    }
}

/// The low 32 bits of `n`, the highest byte first.
pub open spec fn be32(n: nat) -> Seq<u8> {
    crate::wire::le(n, 4).reverse()
}

/// A message as it travels: the low 32 bits of the length of its body, then the
/// body.
pub open spec fn frame(m: MessageView) -> Seq<u8> {
    be32(body(m).len()) + body(m)
}

/// The message whose frame stands at `pos`.
pub open spec fn message_at(b: Seq<u8>, pos: nat) -> Parse<MessageView, MessageError> {
    if pos + 4 > b.len() {
        Parse::Need(if pos < b.len() { (pos + 4 - b.len()) as nat } else { 4 })
    } else {
        let len = crate::wire::from_le(b.subrange(pos as int, pos as int + 4).reverse());
        let start = pos + 4;
        if start + len > b.len() {
            Parse::Need((start + len - b.len()) as nat)
        } else {
            match message_in(b.subrange(start as int, (start + len) as int)) {
                Some(m) => Parse::Done(m, start + len),
                None => Parse::Fail(MessageError::Malformed),
            }
        }
    }
}

/// The result of [`Message::read_from`] as a [`Parse`].
pub open spec fn message_outcome(r: Result<(Message, usize), MessageError>) -> Parse<
    MessageView,
    MessageError,
> {
    match r {
        Ok((m, end)) => Parse::Done(m@, end as nat),
        Err(MessageError::Incomplete(n)) => Parse::Need(n as nat),
        Err(e) => Parse::Fail(e),
    }
}

/// The bytes of `n`, the highest first.
fn push_be32(out: &mut Vec<u8>, n: u32)
    ensures
        final(out)@ == old(out)@ + be32(n as nat),
{
    let ghost start = out@;
    proof {
        assert((n >> 24u32) as u8 == n / 256 / 256 / 256 % 256) by (bit_vector);
        assert(((n >> 16u32) & 0xFF) as u8 == n / 256 / 256 % 256) by (bit_vector);
        assert(((n >> 8u32) & 0xFF) as u8 == n / 256 % 256) by (bit_vector);
        assert((n & 0xFF) as u8 == n % 256) by (bit_vector);
        reveal_with_fuel(crate::wire::le, 5);
    }
    out.push((n >> 24) as u8);
    out.push(((n >> 16) & 0xFF) as u8);
    out.push(((n >> 8) & 0xFF) as u8);
    out.push((n & 0xFF) as u8);
    assert(out@ =~= start + be32(n as nat));
}

/// The number that the four bytes at `pos` spell, the highest first.
fn be32_at(buf: &[u8], pos: usize) -> (n: u32)
    requires
        pos + 4 <= buf@.len(),
    ensures
        n == crate::wire::from_le(buf@.subrange(pos as int, pos + 4).reverse()),
{
    let b0: u8 = buf[pos];
    let b1: u8 = buf[pos + 1];
    let b2: u8 = buf[pos + 2];
    let b3: u8 = buf[pos + 3];
    proof {
        let s = buf@.subrange(pos as int, pos + 4).reverse();
        assert(s =~= seq![b3, b2, b1, b0]);
        let s1 = s.drop_first();
        let s2 = s1.drop_first();
        let s3 = s2.drop_first();
        assert(s3.drop_first().len() == 0);
        reveal_with_fuel(crate::wire::from_le, 5);
        assert(crate::wire::from_le(s) == b3 + 256 * (b2 + 256 * (b1 + 256 * b0)));
        assert(((b0 as u32) << 24u32 | (b1 as u32) << 16u32 | (b2 as u32) << 8u32 | b3 as u32)
            == b3 + 256 * (b2 + 256 * (b1 + 256 * b0))) by (bit_vector);
    }
    (b0 as u32) << 24 | (b1 as u32) << 16 | (b2 as u32) << 8 | b3 as u32
}

impl Message {
    /// The message without its frame.
    pub fn encode(&self) -> (r: Result<Vec<u8>, MessageError>)
        ensures
            r matches Ok(v) ==> v@ == body(self@),
            r is Ok <==> body(self@).len() <= isize::MAX,
            r is Err ==> r == Err::<Vec<u8>, MessageError>(MessageError::TooLong),
    {
        proof {
            assert forall|n: nat, k: nat| (#[trigger] crate::wire::le(n, k)).len() == k by {
                crate::wire::lemma_le_len(n, k);
            }
        }
        let r: Result<Vec<u8>, Box<bincode::ErrorKind>> = match self {
            Message::SwitchToNetty => serialize_tag(0),
            Message::Authenticate(key) => serialize_key(1, key),
            Message::IncomingConnection(key) => serialize_key(2, key),
            Message::AssignedDomain(domain) => {
                if domain.as_str().as_bytes().len() > isize::MAX as usize - 12 {
                    return Err(MessageError::TooLong);
                }
                serialize_text(3, domain.as_str())
            },
            Message::RequestDomain(domain) => {
                if let Some(name) = domain {
                    if name.as_str().as_bytes().len() > isize::MAX as usize - 13 {
                        return Err(MessageError::TooLong);
                    }
                }
                serialize_optional_text(4, domain)
            },
        };
        match r {
            Ok(v) => Ok(v),
            Err(_) => Err(MessageError::TooLong),
        }
    }

    /// The message that the bytes start with. Bytes behind it are ignored.
    pub fn decode(bytes: &[u8]) -> (r: Result<Message, MessageError>)
        ensures
            match r {
                Ok(m) => message_in(bytes@) == Some(m@),
                Err(e) => message_in(bytes@) is None && e == MessageError::Malformed,
            },
    {
        let kind: u32 = match deserialize_tag(bytes) {
            Ok(kind) => kind,
            Err(_) => return Err(MessageError::Malformed),
        };
        proof {
            if bytes@.len() >= 36 {
                assert(bytes@.skip(4).take(32) =~= bytes@.subrange(4, 36));
            }
        }
        if kind == 0 {
            Ok(Message::SwitchToNetty)
        } else if kind == 1 {
            match deserialize_key(bytes) {
                Ok((_, key)) => Ok(Message::Authenticate(key)),
                Err(_) => Err(MessageError::Malformed),
            }
        } else if kind == 2 {
            match deserialize_key(bytes) {
                Ok((_, key)) => Ok(Message::IncomingConnection(key)),
                Err(_) => Err(MessageError::Malformed),
            }
        } else if kind == 3 {
            match deserialize_text(bytes) {
                Ok((_, domain)) => Ok(Message::AssignedDomain(domain)),
                Err(_) => Err(MessageError::Malformed),
            }
        } else if kind == 4 {
            match deserialize_optional_text(bytes) {
                Ok((_, domain)) => Ok(Message::RequestDomain(domain)),
                Err(_) => Err(MessageError::Malformed),
            }
        } else {
            Err(MessageError::Malformed)
        }
    }

    /// Reads the framed message at `pos`.
    pub fn read_from(buf: &[u8], pos: usize) -> (r: Result<(Message, usize), MessageError>)
        ensures
            message_outcome(r) == message_at(buf@, pos as nat),
    {
        let total: usize = buf.len();
        if pos >= total {
            return Err(MessageError::Incomplete(4));
        }
        if total - pos < 4 {
            return Err(MessageError::Incomplete(4 - (total - pos)));
        }
        let len: usize = be32_at(buf, pos) as usize;
        let start: usize = pos + 4;
        let have: usize = total - start;
        if have < len {
            return Err(MessageError::Incomplete(len - have));
        }
        match Message::decode(slice_subrange(buf, start, start + len)) {
            Ok(m) => Ok((m, start + len)),
            Err(e) => Err(e),
        }
    }

    /// Appends the framed message. Where that is impossible nothing is appended.
    pub fn write_to(&self, out: &mut Vec<u8>) -> (r: Result<(), MessageError>)
        ensures
            r is Ok <==> body(self@).len() <= isize::MAX,
            r is Ok ==> final(out)@ == old(out)@ + frame(self@),
            r is Err ==> r == Err::<(), MessageError>(MessageError::TooLong) && final(out)@ == old(
                out,
            )@,
    {
        let ghost start = out@;
        match self.encode() {
            Err(e) => Err(e),
            Ok(body) => {
                let n: u64 = body.len() as u64;
                let low: u32 = #[verifier::truncate]
                (n as u32);
                push_be32(out, low);
                out.extend_from_slice(body.as_slice());
                proof {
                    assert(low == n % 0x1_0000_0000) by (bit_vector)
                        requires
                            low == n as u32,
                    ;
                    lemma_be32_low(n);
                    assert(out@ =~= start + frame(self@));
                }
                Ok(())
            },
        }
    }
}

pub(crate) proof fn lemma_le4(n: nat)
    ensures
        crate::wire::le(n, 4) == seq![
            (n % 256) as u8,
            (n / 0x100 % 256) as u8,
            (n / 0x1_0000 % 256) as u8,
            (n / 0x100_0000 % 256) as u8,
        ],
{
    reveal_with_fuel(crate::wire::le, 5);
    assert(n / 256 / 256 == n / 0x1_0000);
    assert(n / 256 / 256 / 256 == n / 0x100_0000);
    assert(crate::wire::le(n, 4) =~= seq![
        (n % 256) as u8,
        (n / 0x100 % 256) as u8,
        (n / 0x1_0000 % 256) as u8,
        (n / 0x100_0000 % 256) as u8,
    ]);
}

/// Four bytes hold the low 32 bits.
proof fn lemma_be32_low(n: u64)
    ensures
        be32((n % 0x1_0000_0000) as nat) == be32(n as nat),
{
    let m = n % 0x1_0000_0000;
    lemma_le4(n as nat);
    lemma_le4(m as nat);
    assert(m % 256 == n % 256 && m / 0x100 % 256 == n / 0x100 % 256 && m / 0x1_0000 % 256 == n
        / 0x1_0000 % 256 && m / 0x100_0000 % 256 == n / 0x100_0000 % 256) by (bit_vector)
        requires
            m == n % 0x1_0000_0000,
    ;
}

/// Every message is found again in its body, whatever follows it.
pub proof fn law_body_round_trip(m: Message, rest: Seq<u8>)
    requires
        body(m@).len() <= isize::MAX,
    ensures
        message_in(body(m@) + rest) == Some(m@),
{
    let b = body(m@) + rest;
    let kind: nat = match m {
        Message::SwitchToNetty => 0,
        Message::Authenticate(_) => 1,
        Message::IncomingConnection(_) => 2,
        Message::AssignedDomain(_) => 3,
        Message::RequestDomain(_) => 4,
    };
    reveal_with_fuel(crate::wire::bytes_limit, 9);
    crate::wire::lemma_le_len(kind, 4);
    crate::wire::lemma_le_back(kind, 4);
    assert(b.take(4) =~= crate::wire::le(kind, 4));
    match m {
        Message::SwitchToNetty => {},
        Message::Authenticate(key) => {
            assert(b.skip(4).take(32) =~= key@);
        },
        Message::IncomingConnection(key) => {
            assert(b.skip(4).take(32) =~= key@);
        },
        Message::AssignedDomain(domain) => {
            assert(b.skip(4) =~= crate::wire::text_bytes(domain@) + rest);
            crate::wire::lemma_text_back(domain@, rest);
        },
        Message::RequestDomain(domain) => {
            let d = crate::wire::optional_view(domain);
            assert(b.skip(4) =~= crate::wire::optional_text_bytes(d) + rest);
            crate::wire::lemma_optional_text_back(d, rest);
        },
    }
}

/// What is written is read back: the frame of a message whose length fits in
/// its four bytes gives the message, and reading stops just behind it.
pub proof fn law_frame_round_trip(pre: Seq<u8>, m: Message, rest: Seq<u8>)
    requires
        body(m@).len() <= isize::MAX,
        body(m@).len() <= u32::MAX,
    ensures
        message_at(pre + frame(m@) + rest, pre.len()) == Parse::<_, MessageError>::Done(
            m@,
            pre.len() + frame(m@).len(),
        ),
{
    let n = body(m@).len();
    let b = pre + frame(m@) + rest;
    let pos = pre.len() as int;
    reveal_with_fuel(crate::wire::bytes_limit, 5);
    crate::wire::lemma_le_len(n, 4);
    crate::wire::lemma_le_back(n, 4);
    assert(b.subrange(pos, pos + 4).reverse() =~= crate::wire::le(n, 4));
    assert(b.subrange(pos + 4, pos + 4 + n) =~= body(m@) + Seq::<u8>::empty());
    law_body_round_trip(m, Seq::empty());
}

/// A framed message can be read from a stream, asking for exactly the missing
/// bytes.
pub proof fn law_message_continues(b: Seq<u8>, e: Seq<u8>, pos: nat)
    requires
        pos <= b.len(),
    ensures
        crate::parse::continues(message_at(b, pos), message_at(b + e, pos), b.len(), e.len()),
{
    let p = pos as int;
    if pos + 4 <= b.len() {
        assert((b + e).subrange(p, p + 4) =~= b.subrange(p, p + 4));
        let len = crate::wire::from_le(b.subrange(p, p + 4).reverse());
        if pos + 4 + len <= b.len() {
            assert((b + e).subrange(p + 4, p + 4 + len) =~= b.subrange(p + 4, p + 4 + len));
        }
    }
}

/// Two messages with the same frame are the same message.
pub proof fn law_frame_injective(m1: Message, m2: Message)
    requires
        body(m1@).len() <= isize::MAX,
        body(m2@).len() <= isize::MAX,
        frame(m1@) == frame(m2@),
    ensures
        m1@ == m2@,
{
    crate::wire::lemma_le_len(body(m1@).len(), 4);
    crate::wire::lemma_le_len(body(m2@).len(), 4);
    assert(frame(m1@).skip(4) =~= body(m1@));
    assert(frame(m2@).skip(4) =~= body(m2@));
    law_body_round_trip(m1, Seq::empty());
    law_body_round_trip(m2, Seq::empty());
    assert(body(m1@) + Seq::<u8>::empty() =~= body(m2@) + Seq::<u8>::empty());
}

} // verus!
