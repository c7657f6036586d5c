//! What the primitive encodings of the Minecraft protocol are, byte by byte.

use crate::netty::NettyError;
use crate::parse::Parse;
use vstd::prelude::*;
use vstd::utf8::*;

verus! {

/// The readers say what they found: a value and the position behind it, how many
/// bytes are missing, or why there is no value.
pub proof fn law_outcomes(n: i32, short: u16, s: String, end: usize, missing: usize)
    ensures
        crate::netty::outcome(Ok((n, end))) == Parse::<i32, NettyError>::Done(n, end as nat),
        crate::netty::outcome(Ok((short, end))) == Parse::<u16, NettyError>::Done(
            short,
            end as nat,
        ),
        crate::netty::outcome::<i32>(Err(NettyError::Incomplete(missing))) == Parse::<
            i32,
            NettyError,
        >::Need(missing as nat),
        crate::netty::outcome::<u16>(Err(NettyError::Incomplete(missing))) == Parse::<
            u16,
            NettyError,
        >::Need(missing as nat),
        crate::netty::outcome::<i32>(Err(NettyError::VarIntTooBig)) == Parse::<
            i32,
            NettyError,
        >::Fail(NettyError::VarIntTooBig),
        crate::netty::text_outcome(Ok((s, end))) == Parse::<Seq<char>, NettyError>::Done(
            s@,
            end as nat,
        ),
        crate::netty::text_outcome(Err(NettyError::Incomplete(missing))) == Parse::<
            Seq<char>,
            NettyError,
        >::Need(missing as nat),
        crate::netty::text_outcome(Err(NettyError::VarIntTooBig)) == Parse::<
            Seq<char>,
            NettyError,
        >::Fail(NettyError::VarIntTooBig),
        crate::netty::text_outcome(Err(NettyError::NegativeLength)) == Parse::<
            Seq<char>,
            NettyError,
        >::Fail(NettyError::NegativeLength),
        crate::netty::text_outcome(Err(NettyError::InvalidUtf8)) == Parse::<
            Seq<char>,
            NettyError,
        >::Fail(NettyError::InvalidUtf8),
{
}

/// One to five bytes, of which all but the last have the top bit set, are read as
/// the number whose groups of seven bits they are, the lowest first, of which the
/// lowest 32 bits count.
pub proof fn law_varint_value(b: Seq<u8>, pos: nat, k: nat, v: i32)
    requires
        1 <= k <= 5,
        pos + k <= b.len(),
        forall|i: int| pos <= i < pos + k - 1 ==> #[trigger] b[i] >= 128,
        b[pos + k - 1] < 128,
        ({
            let g0 = b[pos as int] % 128;
            let g1: int = if k > 1 { (b[pos as int + 1] % 128) as int } else { 0 };
            let g2: int = if k > 2 { (b[pos as int + 2] % 128) as int } else { 0 };
            let g3: int = if k > 3 { (b[pos as int + 3] % 128) as int } else { 0 };
            let g4: int = if k > 4 { (b[pos as int + 4] % 128) as int } else { 0 };
            (g0 + 0x80 * g1 + 0x4000 * g2 + 0x20_0000 * g3 + 0x1000_0000 * g4 - v) % 0x1_0000_0000
                == 0
        }),
    ensures
        crate::netty::varint_at(b, pos) == Parse::<i32, NettyError>::Done(v, pos + k),
{
    let g0 = (b[pos as int] % 128) as int;
    let g1: int = if k > 1 { (b[pos as int + 1] % 128) as int } else { 0 };
    let g2: int = if k > 2 { (b[pos as int + 2] % 128) as int } else { 0 };
    let g3: int = if k > 3 { (b[pos as int + 3] % 128) as int } else { 0 };
    let g4: int = if k > 4 { (b[pos as int + 4] % 128) as int } else { 0 };
    let n = (g0 + 0x80 * g1 + 0x4000 * g2 + 0x20_0000 * g3 + 0x1000_0000 * g4) as nat;
    lemma_groups_found(b, pos, k, 5);
    lemma_low_32(n, v);
}

/// The number that `k` groups spell.
spec fn groups_sum(b: Seq<u8>, pos: nat, k: nat) -> nat
    decreases k,
{
    if k == 0 {
        0
    } else {
        (b[pos as int] % 128) as nat + 128 * groups_sum(b, pos + 1, (k - 1) as nat)
    }
}

proof fn lemma_groups_at(b: Seq<u8>, pos: nat, k: nat, budget: nat)
    requires
        1 <= k <= budget,
        pos + k <= b.len(),
        forall|i: int| pos <= i < pos + k - 1 ==> #[trigger] b[i] >= 128,
        b[pos + k - 1] < 128,
    ensures
        crate::netty::groups_at(b, pos, budget) == Parse::<nat, NettyError>::Done(
            groups_sum(b, pos, k),
            pos + k,
        ),
    decreases k,
{
    reveal_with_fuel(groups_sum, 2);
    if k > 1 {
        assert(b[pos as int] >= 128);
        lemma_groups_at(b, pos + 1, (k - 1) as nat, (budget - 1) as nat);
    }
}

proof fn lemma_groups_found(b: Seq<u8>, pos: nat, k: nat, budget: nat)
    requires
        1 <= k <= 5,
        k <= budget,
        pos + k <= b.len(),
        forall|i: int| pos <= i < pos + k - 1 ==> #[trigger] b[i] >= 128,
        b[pos + k - 1] < 128,
    ensures
        ({
            let g0 = (b[pos as int] % 128) as int;
            let g1: int = if k > 1 { (b[pos as int + 1] % 128) as int } else { 0 };
            let g2: int = if k > 2 { (b[pos as int + 2] % 128) as int } else { 0 };
            let g3: int = if k > 3 { (b[pos as int + 3] % 128) as int } else { 0 };
            let g4: int = if k > 4 { (b[pos as int + 4] % 128) as int } else { 0 };
            crate::netty::groups_at(b, pos, budget) == Parse::<nat, NettyError>::Done(
                (g0 + 0x80 * g1 + 0x4000 * g2 + 0x20_0000 * g3 + 0x1000_0000 * g4) as nat,
                pos + k,
            )
        }),
{
    lemma_groups_at(b, pos, k, budget);
    reveal_with_fuel(groups_sum, 6);
}

proof fn lemma_low_32(n: nat, v: i32)
    requires
        (n - v) % 0x1_0000_0000 == 0,
    ensures
        crate::netty::low_32_signed(n) == v,
{
}

/// Where the bytes end before a byte without the top bit, another byte is asked
/// for.
pub proof fn law_varint_unfinished(b: Seq<u8>, pos: nat)
    requires
        b.len() < pos + 5,
        forall|i: int| pos <= i < b.len() ==> #[trigger] b[i] >= 128,
    ensures
        crate::netty::varint_at(b, pos) == Parse::<i32, NettyError>::Need(1),
{
    reveal_with_fuel(crate::netty::groups_at, 6);
    assert(pos < b.len() ==> b[pos as int] >= 128);
    assert(pos + 1 < b.len() ==> b[pos as int + 1] >= 128);
    assert(pos + 2 < b.len() ==> b[pos as int + 2] >= 128);
    assert(pos + 3 < b.len() ==> b[pos as int + 3] >= 128);
}

/// Five bytes with the top bit set are no number.
pub proof fn law_varint_endless(b: Seq<u8>, pos: nat)
    requires
        pos + 5 <= b.len(),
        forall|i: int| pos <= i < pos + 5 ==> #[trigger] b[i] >= 128,
    ensures
        crate::netty::varint_at(b, pos) == Parse::<i32, NettyError>::Fail(
            NettyError::VarIntTooBig,
        ),
{
    reveal_with_fuel(crate::netty::groups_at, 6);
    assert(b[pos as int] >= 128 && b[pos as int + 1] >= 128 && b[pos as int + 2] >= 128 && b[pos as int + 3] >= 128
        && b[pos as int + 4] >= 128);
}

/// A number that is not negative is written as groups of seven bits, the lowest
/// first, that add up to it. The top bit marks all but the last of them, and the
/// last is not zero unless it is the only one.
pub proof fn law_varint_written(val: i32)
    requires
        val >= 0,
    ensures
        ({
            let w = crate::netty::varint_written(val as int);
            let k = w.len();
            let g1: int = if k > 1 { (w[1] % 128) as int } else { 0 };
            let g2: int = if k > 2 { (w[2] % 128) as int } else { 0 };
            let g3: int = if k > 3 { (w[3] % 128) as int } else { 0 };
            let g4: int = if k > 4 { (w[4] % 128) as int } else { 0 };
            &&& 1 <= k <= 5
            &&& forall|i: int| 0 <= i < k ==> (#[trigger] w[i] >= 128 <==> i < k - 1)
            &&& k > 1 ==> w[k - 1] != 0
            &&& val == w[0] % 128 + 0x80 * g1 + 0x4000 * g2 + 0x20_0000 * g3 + 0x1000_0000 * g4
        }),
{
    reveal_with_fuel(crate::netty::groups, 6);
    let n = val as nat;
    let w = crate::netty::varint_written(val as int);
    assert(n / 128 / 128 == n / 0x4000);
    assert(n / 128 / 128 / 128 == n / 0x20_0000);
    assert(n / 128 / 128 / 128 / 128 == n / 0x1000_0000);
}

/// A negative number is cut off after five groups, all of them marked.
pub proof fn law_negative_varint_written(val: i32)
    requires
        val < 0,
    ensures
        ({
            let w = crate::netty::varint_written(val as int);
            let v = val as int;
            &&& w.len() == 5
            &&& w[0] == 128 + v % 128
            &&& w[1] == 128 + v / 0x80 % 128
            &&& w[2] == 128 + v / 0x4000 % 128
            &&& w[3] == 128 + v / 0x20_0000 % 128
            &&& w[4] == 128 + v / 0x1000_0000 % 128
        }),
{
    reveal_with_fuel(crate::netty::place, 6);
}

/// A short is two bytes, the high one first.
pub proof fn law_short_bytes(n: u16, b: Seq<u8>, pos: nat)
    ensures
        crate::netty::short_written(n).len() == 2,
        crate::netty::short_written(n)[0] * 256 + crate::netty::short_written(n)[1] == n,
        pos + 2 <= b.len() ==> (crate::netty::short_at(b, pos) matches Parse::Done(v, end) && v
            == b[pos as int] * 256 + b[pos as int + 1] && end == pos + 2),
        pos + 1 == b.len() ==> crate::netty::short_at(b, pos) == Parse::<u16, NettyError>::Need(1),
        pos >= b.len() ==> crate::netty::short_at(b, pos) == Parse::<u16, NettyError>::Need(2),
{
}

/// A text is written as its UTF-8 form behind its length. The length goes out as
/// the signed number with the same 32 bits, and behind a negative one nothing
/// does.
pub proof fn law_string_written(s: Seq<char>, len: i32)
    requires
        (encode_utf8(s).len() - len) % 0x1_0000_0000 == 0,
    ensures
        len >= 0 ==> crate::netty::text_written(s) == crate::netty::varint_written(len as int)
            + encode_utf8(s),
        len < 0 ==> crate::netty::text_written(s) == crate::netty::varint_written(len as int),
        len >= 0 <==> crate::netty::low_32_signed(encode_utf8(s).len()) >= 0,
{
}

/// Behind a length stand as many bytes, which are the UTF-8 form of the text that
/// is read. Bytes that are no UTF-8 are refused, and so is a negative length.
pub proof fn law_string_value(pre: Seq<u8>, l: Seq<u8>, len: i32, bytes: Seq<u8>, rest: Seq<u8>)
    requires
        crate::netty::varint_at(l, 0) == Parse::<i32, NettyError>::Done(len, l.len()),
    ensures
        ({
            let found = crate::netty::text_at(pre + l + bytes + rest, pre.len());
            &&& len < 0 ==> found == Parse::<Seq<char>, NettyError>::Fail(
                NettyError::NegativeLength,
            )
            &&& len == bytes.len() && valid_utf8(bytes) ==> (found matches Parse::Done(s, end)
                && encode_utf8(s) == bytes && end == pre.len() + l.len() + bytes.len())
            &&& len == bytes.len() && !valid_utf8(bytes) ==> found == Parse::<
                Seq<char>,
                NettyError,
            >::Fail(NettyError::InvalidUtf8)
            &&& len > bytes.len() + rest.len() ==> found == Parse::<Seq<char>, NettyError>::Need(
                (len - bytes.len() - rest.len()) as nat,
            )
        }),
{
    let b = pre + l + bytes + rest;
    assert(b =~= pre + (l + (bytes + rest)));
    crate::netty::law_varint_continues(l, bytes + rest, 0);
    crate::netty::lemma_varint_shift(pre, l + (bytes + rest), 0);
    let start = (pre.len() + l.len()) as int;
    assert(crate::netty::varint_at(b, pre.len()) == Parse::<i32, NettyError>::Done(
        len,
        start as nat,
    ));
    assert(b.subrange(start, start + bytes.len()) =~= bytes);
    if valid_utf8(bytes) {
        decode_utf8_encode_utf8(bytes);
    }
}

/// Where the length of a string cannot be read, neither can the string.
pub proof fn law_string_without_length(b: Seq<u8>, pos: nat, n: nat, e: NettyError)
    ensures
        crate::netty::varint_at(b, pos) == Parse::<i32, NettyError>::Need(n)
            ==> crate::netty::text_at(b, pos) == Parse::<Seq<char>, NettyError>::Need(n),
        crate::netty::varint_at(b, pos) == Parse::<i32, NettyError>::Fail(e)
            ==> crate::netty::text_at(b, pos) == Parse::<Seq<char>, NettyError>::Fail(e),
{
}

} // verus!
