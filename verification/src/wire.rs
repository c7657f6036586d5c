//! The pieces of a control message as `bincode` lays them out: little-endian
//! integers of fixed width, byte arrays as they are, and texts and optional
//! texts behind a length or a marker.
//!
//! The functions of this module hand plain values to `bincode`; what they say
//! of the result is believed, not proved.

use vstd::prelude::*;
use vstd::utf8::*;

verus! {

/// The error of `bincode`, which is carried and never looked into.
#[verifier::external_type_specification]
#[verifier::external_body]
pub struct ExErrorKind(bincode::ErrorKind);

/// The `k` low bytes of `n`, the lowest first.
pub open spec fn le(n: nat, k: nat) -> Seq<u8>
    decreases k,
{
    if k == 0 {
        Seq::empty()
    } else {
        seq![(n % 256) as u8] + le(n / 256, (k - 1) as nat)
    }
}

/// The number that bytes spell, the lowest first.
pub open spec fn from_le(b: Seq<u8>) -> nat
    decreases b.len(),
{
    if b.len() == 0 {
        0
    } else {
        b[0] as nat + 256 * from_le(b.drop_first())
    }
}

/// A text: the length of its UTF-8 form in eight bytes, then the form.
pub open spec fn text_bytes(s: Seq<char>) -> Seq<u8> {
    le(encode_utf8(s).len(), 8) + encode_utf8(s)
}

/// The text that `b` starts with.
pub open spec fn text_in(b: Seq<u8>) -> Option<Seq<char>> {
    if b.len() < 8 {
        None
    } else {
        let len = from_le(b.take(8));
        if 8 + len <= b.len() && valid_utf8(b.subrange(8, 8 + len as int)) {
            Some(decode_utf8(b.subrange(8, 8 + len as int)))
        } else {
            None
        }
    }
}

/// An optional text: the byte 0, or the byte 1 and the text.
pub open spec fn optional_text_bytes(s: Option<Seq<char>>) -> Seq<u8> {
    match s {
        None => seq![0u8],
        Some(s) => seq![1u8] + text_bytes(s),
    }
}

/// The optional text that `b` starts with.
pub open spec fn optional_text_in(b: Seq<u8>) -> Option<Option<Seq<char>>> {
    if b.len() == 0 {
        None
    } else if b[0] == 0 {
        Some(None)
    } else if b[0] == 1 {
        match text_in(b.skip(1)) {
            Some(s) => Some(Some(s)),
            None => None,
        }
    } else {
        None
    }
}

/// The view of an optional string.
pub open spec fn optional_view(s: Option<String>) -> Option<Seq<char>> {
    match s {
        Some(s) => Some(s@),
        None => None,
    }
}

/// `bincode::serialize` of a `u32`. It is claimed that the call succeeds and
/// gives the four bytes of the number, the lowest first.
#[verifier::external_body]
pub(crate) fn serialize_tag(tag: u32) -> (r: Result<Vec<u8>, Box<bincode::ErrorKind>>)
    ensures
        r is Ok,
        r matches Ok(v) ==> v@ == le(tag as nat, 4),
{
    bincode::serialize(&tag)
}

/// `bincode::serialize` of a `u32` and 32 bytes. It is claimed that the call
/// succeeds and gives the bytes of the number and then the 32 bytes.
#[verifier::external_body]
pub(crate) fn serialize_key(tag: u32, key: &[u8; 32]) -> (r: Result<
    Vec<u8>,
    Box<bincode::ErrorKind>,
>)
    ensures
        r is Ok,
        r matches Ok(v) ==> v@ == le(tag as nat, 4) + key@,
{
    bincode::serialize(&(tag, key))
}

/// `bincode::serialize` of a `u32` and a string. It is claimed that the call
/// succeeds and gives the bytes of the number and then those of the text. The
/// result has to fit in one allocation.
#[verifier::external_body]
pub(crate) fn serialize_text(tag: u32, text: &str) -> (r: Result<Vec<u8>, Box<bincode::ErrorKind>>)
    requires
        encode_utf8(text@).len() + 12 <= isize::MAX,
    ensures
        r is Ok,
        r matches Ok(v) ==> v@ == le(tag as nat, 4) + text_bytes(text@),
{
    bincode::serialize(&(tag, text))
}

/// `bincode::serialize` of a `u32` and an optional string. It is claimed that
/// the call succeeds and gives the bytes of the number and then those of the
/// optional text. The result has to fit in one allocation.
#[verifier::external_body]
pub(crate) fn serialize_optional_text(tag: u32, text: &Option<String>) -> (r: Result<
    Vec<u8>,
    Box<bincode::ErrorKind>,
>)
    requires
        *text matches Some(s) ==> encode_utf8(s@).len() + 13 <= isize::MAX,
    ensures
        r is Ok,
        r matches Ok(v) ==> v@ == le(tag as nat, 4) + optional_text_bytes(optional_view(*text)),
{
    bincode::serialize(&(tag, text))
}

/// `bincode::deserialize` as a `u32`. It is claimed that the call succeeds
/// exactly where there are four bytes, gives the number that the first four
/// spell, and looks at nothing behind them.
#[verifier::external_body]
pub(crate) fn deserialize_tag(bytes: &[u8]) -> (r: Result<u32, Box<bincode::ErrorKind>>)
    ensures
        r is Ok <==> bytes@.len() >= 4,
        r matches Ok(tag) ==> tag == from_le(bytes@.take(4)),
{
    bincode::deserialize(bytes)
}

/// `bincode::deserialize` as a `u32` and 32 bytes. It is claimed that the call
/// succeeds exactly where there are 36 bytes, takes both values from them in
/// this order, and looks at nothing behind them.
#[verifier::external_body]
pub(crate) fn deserialize_key(bytes: &[u8]) -> (r: Result<
    (u32, [u8; 32]),
    Box<bincode::ErrorKind>,
>)
    ensures
        r is Ok <==> bytes@.len() >= 36,
        r matches Ok((tag, key)) ==> tag == from_le(bytes@.take(4)) && key@ == bytes@.subrange(
            4,
            36,
        ),
{
    bincode::deserialize(bytes)
}

/// `bincode::deserialize` as a `u32` and a string. It is claimed that the call
/// succeeds exactly where four bytes are followed by a text, takes both values
/// from them, and looks at nothing behind them.
#[verifier::external_body]
pub(crate) fn deserialize_text(bytes: &[u8]) -> (r: Result<
    (u32, String),
    Box<bincode::ErrorKind>,
>)
    ensures
        r is Ok <==> (bytes@.len() >= 4 && text_in(bytes@.skip(4)) is Some),
        r matches Ok((tag, text)) ==> tag == from_le(bytes@.take(4)) && text_in(bytes@.skip(4))
            == Some(text@),
{
    bincode::deserialize(bytes)
}

/// `bincode::deserialize` as a `u32` and an optional string. It is claimed that
/// the call succeeds exactly where four bytes are followed by an optional text,
/// takes both values from them, and looks at nothing behind them.
#[verifier::external_body]
pub(crate) fn deserialize_optional_text(bytes: &[u8]) -> (r: Result<
    (u32, Option<String>),
    Box<bincode::ErrorKind>,
>)
    ensures
        r is Ok <==> (bytes@.len() >= 4 && optional_text_in(bytes@.skip(4)) is Some),
        r matches Ok((tag, text)) ==> tag == from_le(bytes@.take(4)) && optional_text_in(
            bytes@.skip(4),
        ) == Some(optional_view(text)),
{
    bincode::deserialize(bytes)
}

/// 256 to the power `k`.
pub open spec fn bytes_limit(k: nat) -> nat
    decreases k,
{
    if k == 0 {
        1
    } else {
        256 * bytes_limit((k - 1) as nat)
    }
}

pub(crate) proof fn lemma_le_len(n: nat, k: nat)
    ensures
        le(n, k).len() == k,
    decreases k,
{
    if k > 0 {
        lemma_le_len(n / 256, (k - 1) as nat);
    }
}

/// The bytes of a number spell it.
pub(crate) proof fn lemma_le_back(n: nat, k: nat)
    requires
        n < bytes_limit(k),
    ensures
        from_le(le(n, k)) == n,
    decreases k,
{
    if k > 0 {
        assert(n / 256 < bytes_limit((k - 1) as nat)) by (nonlinear_arith)
            requires
                n < 256 * bytes_limit((k - 1) as nat),
        ;
        lemma_le_back(n / 256, (k - 1) as nat);
        lemma_le_len(n, k);
        assert(le(n, k).drop_first() =~= le(n / 256, (k - 1) as nat));
    }
}

/// Text that was laid out is found again, whatever follows it.
pub(crate) proof fn lemma_text_back(s: Seq<char>, rest: Seq<u8>)
    requires
        encode_utf8(s).len() < bytes_limit(8),
    ensures
        text_in(text_bytes(s) + rest) == Some(s),
{
    let bytes = encode_utf8(s);
    let b = text_bytes(s) + rest;
    lemma_le_len(bytes.len(), 8);
    lemma_le_back(bytes.len(), 8);
    assert(b.take(8) =~= le(bytes.len(), 8));
    assert(b.subrange(8, 8 + bytes.len() as int) =~= bytes);
    encode_utf8_valid_utf8(s);
    encode_utf8_decode_utf8(s);
}

/// An optional text that was laid out is found again, whatever follows it.
pub(crate) proof fn lemma_optional_text_back(s: Option<Seq<char>>, rest: Seq<u8>)
    requires
        s matches Some(t) ==> encode_utf8(t).len() < bytes_limit(8),
    ensures
        optional_text_in(optional_text_bytes(s) + rest) == Some(s),
{
    let b = optional_text_bytes(s) + rest;
    if let Some(t) = s {
        lemma_text_back(t, rest);
        assert(b.skip(1) =~= text_bytes(t) + rest);
    }
}

} // verus!
