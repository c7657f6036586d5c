//! What the messages of the control connection are on the wire, byte by byte.

use crate::message::Message;
use crate::message::MessageError;
use crate::message::MessageView;
use crate::parse::Parse;
use vstd::prelude::*;
use vstd::utf8::*;

verus! {

/// The view of a message keeps what it is and what it carries.
pub proof fn law_message_views(key: [u8; 32], domain: String)
    ensures
        Message::SwitchToNetty@ == MessageView::SwitchToNetty,
        Message::Authenticate(key)@ == MessageView::Authenticate(key@),
        Message::IncomingConnection(key)@ == MessageView::IncomingConnection(key@),
        Message::AssignedDomain(domain)@ == MessageView::AssignedDomain(domain@),
        Message::RequestDomain(Some(domain))@ == MessageView::RequestDomain(Some(domain@)),
        Message::RequestDomain(None)@ == MessageView::RequestDomain(None),
{
}

/// Reading a message says what was found: the message and the position behind it,
/// how many bytes are missing, or that there is no message.
pub proof fn law_message_outcomes(m: Message, end: usize, missing: usize)
    ensures
        crate::message::message_outcome(Ok((m, end))) == Parse::<MessageView, MessageError>::Done(
            m@,
            end as nat,
        ),
        crate::message::message_outcome(Err(MessageError::Incomplete(missing))) == Parse::<
            MessageView,
            MessageError,
        >::Need(missing as nat),
        crate::message::message_outcome(Err(MessageError::Malformed)) == Parse::<
            MessageView,
            MessageError,
        >::Fail(MessageError::Malformed),
{
}

/// Whether eight bytes are a number, the lowest first.
pub open spec fn spell_le(l: Seq<u8>, n: nat) -> bool {
    &&& l.len() == 8
    &&& n == l[0] + 0x100 * l[1] + 0x1_0000 * l[2] + 0x100_0000 * l[3] + 0x1_0000_0000 * l[4]
        + 0x100_0000_0000 * l[5] + 0x1_0000_0000_0000 * l[6] + 0x100_0000_0000_0000 * l[7]
}

/// The bytes of each message: a number of four bytes that tells it from the
/// others, and behind it the key, or the text behind the eight bytes of its
/// length, with a byte in front that says whether there is one where it may be
/// missing.
pub proof fn law_bodies(key: Seq<u8>, domain: Seq<char>, l: Seq<u8>)
    requires
        spell_le(l, encode_utf8(domain).len()),
    ensures
        crate::message::body(MessageView::SwitchToNetty) == seq![0u8, 0, 0, 0],
        crate::message::body(MessageView::Authenticate(key)) == seq![1u8, 0, 0, 0] + key,
        crate::message::body(MessageView::IncomingConnection(key)) == seq![2u8, 0, 0, 0] + key,
        crate::message::body(MessageView::AssignedDomain(domain)) == seq![3u8, 0, 0, 0] + l
            + encode_utf8(domain),
        crate::message::body(MessageView::RequestDomain(None)) == seq![4u8, 0, 0, 0, 0],
        crate::message::body(MessageView::RequestDomain(Some(domain))) == seq![4u8, 0, 0, 0, 1] + l
            + encode_utf8(domain),
{
    lemma_tags();
    lemma_spelled(l, encode_utf8(domain).len());
    let bytes = encode_utf8(domain);
    assert(seq![3u8, 0, 0, 0] + (l + bytes) =~= seq![3u8, 0, 0, 0] + l + bytes);
    assert(seq![4u8, 0, 0, 0] + seq![0u8] =~= seq![4u8, 0, 0, 0, 0]);
    assert(seq![4u8, 0, 0, 0] + (seq![1u8] + (l + bytes)) =~= seq![4u8, 0, 0, 0, 1] + l + bytes);
}

proof fn lemma_tags()
    ensures
        crate::wire::le(0, 4) == seq![0u8, 0, 0, 0],
        crate::wire::le(1, 4) == seq![1u8, 0, 0, 0],
        crate::wire::le(2, 4) == seq![2u8, 0, 0, 0],
        crate::wire::le(3, 4) == seq![3u8, 0, 0, 0],
        crate::wire::le(4, 4) == seq![4u8, 0, 0, 0],
{
    reveal_with_fuel(crate::wire::le, 5);
    assert(crate::wire::le(0, 4) =~= seq![0u8, 0, 0, 0]);
    assert(crate::wire::le(1, 4) =~= seq![1u8, 0, 0, 0]);
    assert(crate::wire::le(2, 4) =~= seq![2u8, 0, 0, 0]);
    assert(crate::wire::le(3, 4) =~= seq![3u8, 0, 0, 0]);
    assert(crate::wire::le(4, 4) =~= seq![4u8, 0, 0, 0]);
}

/// The bytes that spell a number are its bytes.
proof fn lemma_le_of(b: Seq<u8>)
    ensures
        crate::wire::le(crate::wire::from_le(b), b.len()) == b,
    decreases b.len(),
{
    if b.len() > 0 {
        let rest = b.drop_first();
        lemma_le_of(rest);
        let n = crate::wire::from_le(b);
        assert(n % 256 == b[0]);
        assert(n / 256 == crate::wire::from_le(rest));
        assert(seq![b[0]] + rest =~= b);
    } else {
        assert(crate::wire::le(crate::wire::from_le(b), 0) =~= b);
    }
}

proof fn lemma_spelled(l: Seq<u8>, n: nat)
    requires
        spell_le(l, n),
    ensures
        crate::wire::from_le(l) == n,
        crate::wire::le(n, 8) == l,
{
    let l1 = l.drop_first();
    let l2 = l1.drop_first();
    let l3 = l2.drop_first();
    let l4 = l3.drop_first();
    let l5 = l4.drop_first();
    let l6 = l5.drop_first();
    let l7 = l6.drop_first();
    let l8 = l7.drop_first();
    assert(l8.len() == 0);
    reveal_with_fuel(crate::wire::from_le, 2);
    assert(crate::wire::from_le(l8) == 0);
    assert(crate::wire::from_le(l7) == l[7]);
    assert(crate::wire::from_le(l6) == l[6] + 256 * crate::wire::from_le(l7));
    assert(crate::wire::from_le(l5) == l[5] + 256 * crate::wire::from_le(l6));
    assert(crate::wire::from_le(l4) == l[4] + 256 * crate::wire::from_le(l5));
    assert(crate::wire::from_le(l3) == l[3] + 256 * crate::wire::from_le(l4));
    assert(crate::wire::from_le(l2) == l[2] + 256 * crate::wire::from_le(l3));
    assert(crate::wire::from_le(l1) == l[1] + 256 * crate::wire::from_le(l2));
    lemma_le_of(l);
}

/// The frame of a message is its length in four bytes, the highest first and of
/// the lowest 32 bits, and then the message.
pub proof fn law_frame_bytes(m: MessageView)
    ensures
        ({
            let f = crate::message::frame(m);
            let b = crate::message::body(m);
            &&& f.len() == b.len() + 4
            &&& f.skip(4) == b
            &&& 0x100_0000 * f[0] + 0x1_0000 * f[1] + 0x100 * f[2] + f[3] == b.len()
                % 0x1_0000_0000
        }),
{
    let n = crate::message::body(m).len();
    let h = crate::message::be32(n);
    lemma_be32(n);
    assert((h + crate::message::body(m)).skip(4) =~= crate::message::body(m));
}

proof fn lemma_be32(n: nat)
    ensures
        ({
            let h = crate::message::be32(n);
            &&& h.len() == 4
            &&& 0x100_0000 * h[0] + 0x1_0000 * h[1] + 0x100 * h[2] + h[3] == n % 0x1_0000_0000
        }),
{
    crate::message::lemma_le4(n);
    lemma_four_places(n);
}

proof fn lemma_four_places(n: nat)
    ensures
        n % 256 + 0x100 * (n / 0x100 % 256) + 0x1_0000 * (n / 0x1_0000 % 256) + 0x100_0000 * (n
            / 0x100_0000 % 256) == n % 0x1_0000_0000,
{
    let a = n / 0x100;
    let b = n / 0x1_0000;
    let c = n / 0x100_0000;
    let d = n / 0x1_0000_0000;
    assert(b == a / 256);
    assert(c == b / 256);
    assert(d == c / 256);
}

/// A message as there can be: its key has 32 bytes, and its text is not longer
/// than eight bytes can say.
pub open spec fn is_message(m: MessageView) -> bool {
    match m {
        MessageView::SwitchToNetty => true,
        MessageView::Authenticate(key) => key.len() == 32,
        MessageView::IncomingConnection(key) => key.len() == 32,
        MessageView::AssignedDomain(domain) => encode_utf8(domain).len()
            < 0x1_0000_0000_0000_0000,
        MessageView::RequestDomain(Some(domain)) => encode_utf8(domain).len()
            < 0x1_0000_0000_0000_0000,
        MessageView::RequestDomain(None) => true,
    }
}

/// Bytes hold a message exactly where they start with the bytes of that message.
pub proof fn law_decoded(b: Seq<u8>, m: MessageView)
    requires
        is_message(m),
    ensures
        crate::message::message_in(b) == Some(m) <==> {
            let body = crate::message::body(m);
            body.len() <= b.len() && b.take(body.len() as int) == body
        },
{
    let body = crate::message::body(m);
    if crate::message::message_in(b) == Some(m) {
        lemma_starts_with(b, m);
    }
    if body.len() <= b.len() && b.take(body.len() as int) == body {
        let rest = b.skip(body.len() as int);
        assert(b =~= body + rest);
        lemma_found(m, rest);
    }
}

/// Bytes that hold a message at all hold one as there can be.
pub proof fn law_decoded_is_message(b: Seq<u8>)
    ensures
        crate::message::message_in(b) matches Some(m) ==> is_message(m),
{
    reveal_with_fuel(crate::wire::bytes_limit, 9);
    if let Some(m) = crate::message::message_in(b) {
        let rest = b.skip(4);
        if m is AssignedDomain {
            lemma_text_there(rest);
        } else if m is RequestDomain && rest[0] == 1 {
            lemma_text_there(rest.skip(1));
        }
    }
}

proof fn lemma_from_le_limit(b: Seq<u8>)
    ensures
        crate::wire::from_le(b) < crate::wire::bytes_limit(b.len()),
    decreases b.len(),
{
    if b.len() > 0 {
        lemma_from_le_limit(b.drop_first());
    }
}

/// A text that was found stands there behind its length.
proof fn lemma_text_there(b: Seq<u8>)
    ensures
        crate::wire::text_in(b) matches Some(s) ==> {
            let w = crate::wire::text_bytes(s);
            &&& encode_utf8(s).len() < crate::wire::bytes_limit(8)
            &&& w.len() <= b.len()
            &&& b.take(w.len() as int) == w
        },
{
    if let Some(s) = crate::wire::text_in(b) {
        let head = b.take(8);
        let len = crate::wire::from_le(head);
        let bytes = b.subrange(8, 8 + len as int);
        decode_utf8_encode_utf8(bytes);
        lemma_from_le_limit(head);
        lemma_le_of(head);
        assert(crate::wire::text_bytes(s) =~= head + bytes);
        assert(b.take(8 + len as int) =~= head + bytes);
    }
}

proof fn lemma_starts_with(b: Seq<u8>, m: MessageView)
    requires
        crate::message::message_in(b) == Some(m),
    ensures
        crate::message::body(m).len() <= b.len(),
        b.take(crate::message::body(m).len() as int) == crate::message::body(m),
{
    let tag = b.take(4);
    let rest = b.skip(4);
    lemma_le_of(tag);
    lemma_tags();
    let body = crate::message::body(m);
    match m {
        MessageView::SwitchToNetty => {},
        MessageView::Authenticate(key) => {
            assert(b.take(36) =~= tag + key);
        },
        MessageView::IncomingConnection(key) => {
            assert(b.take(36) =~= tag + key);
        },
        MessageView::AssignedDomain(domain) => {
            lemma_text_there(rest);
            assert(b.take(body.len() as int) =~= tag + rest.take(body.len() - 4));
        },
        MessageView::RequestDomain(domain) => {
            if domain is Some {
                lemma_text_there(rest.skip(1));
                assert(rest.take(body.len() - 4) =~= seq![1u8] + rest.skip(1).take(
                    body.len() - 5,
                ));
            } else {
                assert(rest.take(1) =~= seq![0u8]);
            }
            assert(b.take(body.len() as int) =~= tag + rest.take(body.len() - 4));
        },
    }
}

proof fn lemma_found(m: MessageView, rest: Seq<u8>)
    requires
        is_message(m),
    ensures
        crate::message::message_in(crate::message::body(m) + rest) == Some(m),
{
    let b = crate::message::body(m) + rest;
    let kind: nat = match m {
        MessageView::SwitchToNetty => 0,
        MessageView::Authenticate(_) => 1,
        MessageView::IncomingConnection(_) => 2,
        MessageView::AssignedDomain(_) => 3,
        MessageView::RequestDomain(_) => 4,
    };
    reveal_with_fuel(crate::wire::bytes_limit, 9);
    crate::wire::lemma_le_len(kind, 4);
    crate::wire::lemma_le_back(kind, 4);
    assert(b.take(4) =~= crate::wire::le(kind, 4));
    match m {
        MessageView::SwitchToNetty => {},
        MessageView::Authenticate(key) => {
            assert(b.skip(4).take(32) =~= key);
        },
        MessageView::IncomingConnection(key) => {
            assert(b.skip(4).take(32) =~= key);
        },
        MessageView::AssignedDomain(domain) => {
            assert(b.skip(4) =~= crate::wire::text_bytes(domain) + rest);
            crate::wire::lemma_text_back(domain, rest);
        },
        MessageView::RequestDomain(domain) => {
            assert(b.skip(4) =~= crate::wire::optional_text_bytes(domain) + rest);
            crate::wire::lemma_optional_text_back(domain, rest);
        },
    }
}

/// A frame that is all there gives the message in as many bytes as its first four
/// say; of one that is cut off, exactly what is missing is asked for.
pub proof fn law_frame_read(b: Seq<u8>, pos: nat)
    ensures
        pos >= b.len() ==> crate::message::message_at(b, pos) == Parse::<
            MessageView,
            MessageError,
        >::Need(4),
        pos < b.len() < pos + 4 ==> crate::message::message_at(b, pos) == Parse::<
            MessageView,
            MessageError,
        >::Need((pos + 4 - b.len()) as nat),
        pos + 4 <= b.len() ==> {
            let p = pos as int;
            let n = 0x100_0000 * b[p] + 0x1_0000 * b[p + 1] + 0x100 * b[p + 2] + b[p + 3];
            &&& p + 4 + n > b.len() ==> crate::message::message_at(b, pos) == Parse::<
                MessageView,
                MessageError,
            >::Need((p + 4 + n - b.len()) as nat)
            &&& p + 4 + n <= b.len() ==> match crate::message::message_in(
                b.subrange(p + 4, p + 4 + n),
            ) {
                Some(m) => crate::message::message_at(b, pos) == Parse::<
                    MessageView,
                    MessageError,
                >::Done(m, (p + 4 + n) as nat),
                None => crate::message::message_at(b, pos) == Parse::<
                    MessageView,
                    MessageError,
                >::Fail(MessageError::Malformed),
            }
        },
{
    if pos + 4 <= b.len() {
        let p = pos as int;
        let s = b.subrange(p, p + 4).reverse();
        assert(s =~= seq![b[p + 3], b[p + 2], b[p + 1], b[p]]);
        assert(s.drop_first().drop_first().drop_first().drop_first().len() == 0);
        reveal_with_fuel(crate::wire::from_le, 5);
    }
}

} // verus!
