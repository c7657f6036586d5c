//! The primitive encodings of the Minecraft protocol: variable-length
//! integers, length-prefixed UTF-8 strings and big-endian shorts.
//!
//! A reader takes the bytes received so far and the position at which the
//! value starts. Where bytes are still missing it says how many are missing for
//! certain, so that a caller who reads from a stream and asks for exactly that
//! many never takes a byte that belongs to whatever follows.

use crate::parse::Parse;
use vstd::prelude::*;
use vstd::slice::*;
use vstd::utf8::*;

verus! {

/// Why a value could not be read or written.
#[derive(Clone, Copy, Debug, PartialEq, Eq, Structural)]
pub enum NettyError {
    /// The bytes end before the value does; at least this many are missing.
    Incomplete(usize),
    /// A variable-length integer needs more than five bytes.
    VarIntTooBig,
    /// The length in front of a string is negative.
    NegativeLength,
    /// The bytes of a string are not UTF-8.
    InvalidUtf8,
}

/// The most bytes that a variable-length integer may take.
pub const VARINT_MAX_BYTES: usize = 5;

/// The result of a reader as a [`Parse`].
pub open spec fn outcome<A>(r: Result<(A, usize), NettyError>) -> Parse<A, NettyError> {
    match r {
        Ok((v, end)) => Parse::Done(v, end as nat),
        Err(NettyError::Incomplete(n)) => Parse::Need(n as nat),
        Err(e) => Parse::Fail(e),
    }
}

/// The result of a reader of strings as a [`Parse`].
pub open spec fn text_outcome(r: Result<(String, usize), NettyError>) -> Parse<Seq<char>, NettyError> {
    match r {
        Ok((v, end)) => Parse::Done(v@, end as nat),
        Err(NettyError::Incomplete(n)) => Parse::Need(n as nat),
        Err(e) => Parse::Fail(e),
    }
}

/// The number that the seven-bit groups at `pos` spell, the least significant
/// group first, where at most `budget` bytes may be used. The top bit of a byte
/// says that another group follows.
pub open spec fn groups_at(b: Seq<u8>, pos: nat, budget: nat) -> Parse<nat, NettyError>
    decreases budget,
{
    if budget == 0 {
        Parse::Fail(NettyError::VarIntTooBig)
    } else if pos >= b.len() {
        Parse::Need(1)
    } else if b[pos as int] < 128 {
        Parse::Done(b[pos as int] as nat, pos + 1)
    } else {
        match groups_at(b, pos + 1, (budget - 1) as nat) {
            Parse::Done(n, end) => Parse::Done((b[pos as int] % 128) as nat + 128 * n, end),
            other => other,
        }
    }
}

/// The signed 32-bit number with the same low 32 bits as `n`.
pub open spec fn low_32_signed(n: nat) -> int {
    let m = n % 0x1_0000_0000;
    if m < 0x8000_0000 {
        m as int
    } else {
        m - 0x1_0000_0000
    }
}

/// The variable-length integer at `pos`.
pub open spec fn varint_at(b: Seq<u8>, pos: nat) -> Parse<i32, NettyError> {
    match groups_at(b, pos, VARINT_MAX_BYTES as nat) {
        Parse::Done(n, end) => Parse::Done(low_32_signed(n) as i32, end),
        Parse::Need(n) => Parse::Need(n),
        Parse::Fail(e) => Parse::Fail(e),
    }
}

/// The shortest seven-bit groups that spell `n`.
pub open spec fn groups(n: nat) -> Seq<u8>
    decreases n,
{
    if n < 128 {
        seq![n as u8]
    } else {
        seq![(n % 128 + 128) as u8] + groups(n / 128)
    }
}

/// 128 to the power `i`, for the places of the groups.
pub open spec fn place(i: nat) -> nat
    decreases i,
{
    if i == 0 {
        1
    } else {
        128 * place((i - 1) as nat)
    }
}

proof fn lemma_places()
    ensures
        place(0) == 1,
        place(1) == 0x80,
        place(2) == 0x4000,
        place(3) == 0x20_0000,
        place(4) == 0x1000_0000,
        place(5) == 0x8_0000_0000,
{
    reveal_with_fuel(place, 6);
}

/// `n` with the groups already read below it.
spec fn above(low: nat, i: nat, high: Parse<nat, NettyError>) -> Parse<nat, NettyError> {
    match high {
        Parse::Done(n, end) => Parse::Done(low + place(i) * n, end),
        other => other,
    }
}

/// Or-ing a seven-bit group in above the groups already read adds it at its
/// place, within 32 bits.
proof fn lemma_or_group(res: u32, g: u32, i: nat)
    requires
        i < 5,
        g < 128,
        res < place(i),
    ensures
        res | (g << ((7 * i) as u32)) == (res + place(i) * g) % 0x1_0000_0000,
{
    lemma_places();
    if i == 0 {
        assert(res | (g << 0u32) == res + g) by (bit_vector)
            requires
                res < 1,
                g < 128,
        ;
    } else if i == 1 {
        assert(res | (g << 7u32) == res + 0x80 * g) by (bit_vector)
            requires
                res < 0x80,
                g < 128,
        ;
    } else if i == 2 {
        assert(res | (g << 14u32) == res + 0x4000 * g) by (bit_vector)
            requires
                res < 0x4000,
                g < 128,
        ;
    } else if i == 3 {
        assert(res | (g << 21u32) == res + 0x20_0000 * g) by (bit_vector)
            requires
                res < 0x20_0000,
                g < 128,
        ;
    } else {
        assert(res | (g << 28u32) == (res + 0x1000_0000 * g) % 0x1_0000_0000) by (bit_vector)
            requires
                res < 0x1000_0000,
                g < 128,
        ;
    }
}

/// Reading one more group below `high` moves it from `high` to `low`.
proof fn lemma_above_step(low: nat, i: nat, g: nat, high: Parse<nat, NettyError>)
    ensures
        above(low, i, match high {
            Parse::Done(n, end) => Parse::Done(g + 128 * n, end),
            other => other,
        }) == above(low + place(i) * g, i + 1, high),
{
    if let Parse::Done(n, end) = high {
        assert(place(i) * (g + 128 * n) == place(i) * g + (128 * place(i)) * n)
            by (nonlinear_arith);
    }
}

/// Reads the variable-length integer at `pos`. Bits beyond the lowest 32 are
/// dropped.
pub fn read_varint(buf: &[u8], pos: usize) -> (r: Result<(i32, usize), NettyError>)
    ensures
        outcome(r) == varint_at(buf@, pos as nat),
{
    let len: usize = buf.len();
    if pos >= len {
        return Err(NettyError::Incomplete(1));
    }
    let mut res: u32 = 0;
    let mut i: usize = 0;
    let ghost mut low: nat = 0;
    proof {
        lemma_places();
    }
    while i < VARINT_MAX_BYTES
        invariant
            i <= VARINT_MAX_BYTES,
            len == buf@.len(),
            pos + i <= len,
            low < place(i as nat),
            i < 5 ==> res == low,
            groups_at(buf@, pos as nat, 5) == above(
                low,
                i as nat,
                groups_at(buf@, (pos + i) as nat, (5 - i) as nat),
            ),
        decreases VARINT_MAX_BYTES - i,
    {
        proof {
            lemma_places();
        }
        if pos + i >= len {
            return Err(NettyError::Incomplete(1));
        }
        let part: u8 = buf[pos + i];
        let group: u32 = (part & 0x7F) as u32;
        let shift: u32 = 7 * i as u32;
        proof {
            assert(part & 0x7F == part % 128) by (bit_vector);
            assert((part & 0x80 == 0) == (part < 128)) by (bit_vector);
            lemma_or_group(res, group, i as nat);
            lemma_above_step(
                low,
                i as nat,
                group as nat,
                groups_at(buf@, (pos + i + 1) as nat, (4 - i) as nat),
            );
            assert(place((i + 1) as nat) == 128 * place(i as nat));
            assert(low + place(i as nat) * group < 128 * place(i as nat)) by (nonlinear_arith)
                requires
                    low < place(i as nat),
                    group <= 127,
            ;
        }
        res = res | (group << shift);
        if part & 0x80 == 0 {
            let ghost n = low + place(i as nat) * group as nat;
            proof {
                assert(res as nat == n % 0x1_0000_0000);
                assert(groups_at(buf@, pos as nat, 5) == Parse::<_, NettyError>::Done(n, (pos + i + 1) as nat));
                lemma_as_i32(res);
            }
            return Ok((res as i32, pos + i + 1));
        }
        proof {
            low = low + place(i as nat) * group as nat;
        }
        i = i + 1;
    }
    Err(NettyError::VarIntTooBig)
}

/// Reinterpreting 32 bits as signed keeps the low 32 bits.
proof fn lemma_as_i32(m: u32)
    ensures
        m as i32 == low_32_signed(m as nat),
{
    assert(m < 0x8000_0000 ==> m as i32 == m) by (bit_vector);
    assert(m >= 0x8000_0000 ==> m as i32 == m - 0x1_0000_0000) by (bit_vector);
}

/// The bits that the writer looks at, in terms of arithmetic.
proof fn lemma_low_group(v: i32)
    ensures
        (v & !0x7Fi32 == 0) == (0 <= v < 128),
        (v & 0x7Fi32 | 0x80i32) as u8 == v % 128 + 128,
        v >> 7i32 == v / 128,
{
    assert((v & !0x7Fi32 == 0) == (0 <= v && v < 128)) by (bit_vector);
    assert((v & 0x7Fi32 | 0x80i32) as u8 == v % 128 + 128) by (bit_vector);
    assert(v >> 7i32 == v / 128) by (bit_vector);
}

/// What the writer puts out for `val`: the shortest groups of a number that is
/// not negative; for a negative number, whose sign bit never runs out, five
/// groups that do not end.
pub open spec fn varint_written(val: int) -> Seq<u8> {
    if val >= 0 {
        groups(val as nat)
    } else {
        Seq::new(5, |i: int| (val / (place(i as nat) as int) % 128 + 128) as u8)
    }
}

/// Appends `val` as a variable-length integer. A negative number does not fit:
/// the groups that were put out stay behind, and the error says so.
pub fn write_varint(buf: &mut Vec<u8>, val: i32) -> (r: Result<(), NettyError>)
    ensures
        final(buf)@ == old(buf)@ + varint_written(val as int),
        val >= 0 ==> r is Ok,
        val < 0 ==> r == Err::<(), NettyError>(NettyError::VarIntTooBig),
{
    let ghost start = buf@;
    let mut rest: i32 = val;
    let mut i: usize = 0;
    proof {
        lemma_places();
    }
    while i < VARINT_MAX_BYTES
        invariant
            i <= VARINT_MAX_BYTES,
            start == old(buf)@,
            rest == val as int / place(i as nat) as int,
            val >= 0 ==> i < VARINT_MAX_BYTES && rest >= 0,
            val >= 0 ==> start + groups(val as nat) == buf@ + groups(rest as nat),
            val < 0 ==> rest < 0,
            val < 0 ==> buf@ == start + Seq::new(
                i as nat,
                |k: int| (val as int / (place(k as nat) as int) % 128 + 128) as u8,
            ),
        decreases VARINT_MAX_BYTES - i,
    {
        proof {
            lemma_low_group(rest);
            lemma_places();
            if i == 4 {
                assert(rest == val as int / 0x1000_0000);
            }
        }
        if rest & !0x7F == 0 {
            buf.push(rest as u8);
            assert(buf@ =~= start + varint_written(val as int));
            return Ok(());
        }
        let ghost before = buf@;
        let byte: u8 = (rest & 0x7F | 0x80) as u8;
        buf.push(byte);
        proof {
            assert(buf@ =~= before + seq![byte]);
            if val >= 0 {
                assert(before + (seq![byte] + groups(rest as nat / 128)) =~= buf@ + groups(
                    rest as nat / 128,
                ));
            } else {
                assert(buf@ =~= start + Seq::new(
                    (i + 1) as nat,
                    |k: int| (val as int / (place(k as nat) as int) % 128 + 128) as u8,
                ));
            }
            lemma_next_place(val as int, i as nat);
        }
        rest = rest >> 7;
        i = i + 1;
    }
    Err(NettyError::VarIntTooBig)
}

/// Dropping the lowest group of `v` moves the next one down.
proof fn lemma_next_place(v: int, i: nat)
    requires
        i < 5,
    ensures
        v / (place(i) as int) / 128 == v / (place(i + 1) as int),
{
    lemma_places();
    assert(v / 1 / 128 == v / 0x80);
    assert(v / 0x80 / 128 == v / 0x4000);
    assert(v / 0x4000 / 128 == v / 0x20_0000);
    assert(v / 0x20_0000 / 128 == v / 0x1000_0000);
    assert(v / 0x1000_0000 / 128 == v / 0x8_0000_0000);
}

/// `String::from_utf8` of std. It is claimed that the call succeeds on valid
/// UTF-8 and on nothing else, and that the string then holds the decoded text.
#[verifier::external_body]
fn string_from_utf8(bytes: Vec<u8>) -> (r: Option<String>)
    ensures
        r is Some <==> valid_utf8(bytes@),
        r matches Some(s) ==> s@ == decode_utf8(bytes@),
{
    String::from_utf8(bytes).ok()
}

/// The length-prefixed UTF-8 text at `pos`.
pub open spec fn text_at(b: Seq<u8>, pos: nat) -> Parse<Seq<char>, NettyError> {
    match varint_at(b, pos) {
        Parse::Need(n) => Parse::Need(n),
        Parse::Fail(e) => Parse::Fail(e),
        Parse::Done(len, start) => if len < 0 {
            Parse::Fail(NettyError::NegativeLength)
        } else if start + len > b.len() {
            Parse::Need((start + len - b.len()) as nat)
        } else {
            let bytes = b.subrange(start as int, start + len);
            if valid_utf8(bytes) {
                Parse::Done(decode_utf8(bytes), (start + len) as nat)
            } else {
                Parse::Fail(NettyError::InvalidUtf8)
            }
        },
    }
}

/// Where a variable-length integer was found it ends within the bytes.
pub(crate) proof fn lemma_groups_end(b: Seq<u8>, pos: nat, budget: nat)
    ensures
        groups_at(b, pos, budget) matches Parse::Done(_, end) ==> pos < end <= b.len(),
    decreases budget,
{
    if budget > 0 && pos < b.len() {
        lemma_groups_end(b, pos + 1, (budget - 1) as nat);
    }
}

/// Reads the string at `pos`: its length in bytes as a variable-length
/// integer, then its bytes.
pub fn read_string(buf: &[u8], pos: usize) -> (r: Result<(String, usize), NettyError>)
    ensures
        text_outcome(r) == text_at(buf@, pos as nat),
{
    proof {
        lemma_groups_end(buf@, pos as nat, 5);
    }
    match read_varint(buf, pos) {
        Err(e) => Err(e),
        Ok((len, start)) => {
            if len < 0 {
                return Err(NettyError::NegativeLength);
            }
            let len: usize = len as usize;
            let have: usize = buf.len() - start;
            if have < len {
                return Err(NettyError::Incomplete(len - have));
            }
            let bytes: Vec<u8> = slice_to_vec(slice_subrange(buf, start, start + len));
            match string_from_utf8(bytes) {
                Some(s) => Ok((s, start + len)),
                None => Err(NettyError::InvalidUtf8),
            }
        },
    }
}

/// What the writer puts out for a text: the length of its UTF-8 form as a
/// signed 32-bit number, then, unless that number is negative, the form itself.
pub open spec fn text_written(s: Seq<char>) -> Seq<u8> {
    let len = low_32_signed(encode_utf8(s).len());
    if len >= 0 {
        varint_written(len) + encode_utf8(s)
    } else {
        varint_written(len)
    }
}

/// Appends a string. The one way to fail is a length whose low 32 bits are a
/// negative number.
pub fn write_string(buf: &mut Vec<u8>, s: &str) -> (r: Result<(), NettyError>)
    ensures
        final(buf)@ == old(buf)@ + text_written(s@),
        low_32_signed(encode_utf8(s@).len()) >= 0 ==> r is Ok,
        low_32_signed(encode_utf8(s@).len()) < 0 ==> r == Err::<(), NettyError>(
            NettyError::VarIntTooBig,
        ),
{
    let ghost start = buf@;
    let bytes: &[u8] = s.as_bytes();
    let n: u64 = bytes.len() as u64;
    let low: u32 = #[verifier::truncate]
    (n as u32);
    proof {
        assert(low == n % 0x1_0000_0000) by (bit_vector)
            requires
                low == n as u32,
        ;
        lemma_as_i32(low);
    }
    match write_varint(buf, low as i32) {
        Err(e) => Err(e),
        Ok(()) => {
            buf.extend_from_slice(bytes);
            assert(buf@ =~= start + text_written(s@));
            Ok(())
        },
    }
}

/// The big-endian bytes of a short.
pub open spec fn short_written(n: u16) -> Seq<u8> {
    seq![(n / 256) as u8, (n % 256) as u8]
}

/// The big-endian short at `pos`.
pub open spec fn short_at(b: Seq<u8>, pos: nat) -> Parse<u16, NettyError> {
    if pos + 2 <= b.len() {
        Parse::Done((b[pos as int] * 256 + b[pos as int + 1]) as u16, pos + 2)
    } else if pos < b.len() {
        Parse::Need(1)
    } else {
        Parse::Need(2)
    }
}

/// Reads the big-endian short at `pos`.
pub fn read_bigendian_u16(buf: &[u8], pos: usize) -> (r: Result<(u16, usize), NettyError>)
    ensures
        outcome(r) == short_at(buf@, pos as nat),
{
    let len: usize = buf.len();
    if pos >= len {
        return Err(NettyError::Incomplete(2));
    }
    if len - pos < 2 {
        return Err(NettyError::Incomplete(1));
    }
    let high: u8 = buf[pos];
    let low: u8 = buf[pos + 1];
    assert((high as u16) << 8u16 == high * 256) by (bit_vector);
    Ok((((high as u16) << 8) + low as u16, pos + 2))
}

/// Appends a short, the high byte first.
pub fn write_bigendian_u16(buf: &mut Vec<u8>, n: u16)
    ensures
        final(buf)@ == old(buf)@ + short_written(n),
{
    let ghost start = buf@;
    proof {
        assert((n >> 8u16) as u8 == n / 256) by (bit_vector);
        assert((n & 0xFF) as u8 == n % 256) by (bit_vector);
    }
    buf.push((n >> 8) as u8);
    buf.push((n & 0xFF) as u8);
    assert(buf@ =~= start + short_written(n));
}

/// Groups that were written are read back, whatever follows them.
proof fn lemma_groups_back(pre: Seq<u8>, n: nat, rest: Seq<u8>, budget: nat)
    requires
        budget > 0,
        n < place(budget),
    ensures
        groups_at(pre + groups(n) + rest, pre.len(), budget) == Parse::<_, NettyError>::Done(
            n,
            pre.len() + groups(n).len(),
        ),
    decreases budget,
{
    reveal_with_fuel(place, 2);
    let b = pre + groups(n) + rest;
    assert(b[pre.len() as int] == groups(n)[0]);
    if n >= 128 {
        let first = seq![(n % 128 + 128) as u8];
        assert(b =~= (pre + first) + groups(n / 128) + rest);
        assert(n / 128 < place((budget - 1) as nat)) by (nonlinear_arith)
            requires
                n < 128 * place((budget - 1) as nat),
        ;
        lemma_groups_back(pre + first, n / 128, rest, (budget - 1) as nat);
    }
}

/// Whatever number that is not negative is written, reading gives it back and
/// stops just behind it.
pub proof fn law_varint_round_trip(pre: Seq<u8>, val: i32, rest: Seq<u8>)
    requires
        val >= 0,
    ensures
        varint_at(pre + varint_written(val as int) + rest, pre.len()) == Parse::<_, NettyError>::Done(
            val,
            pre.len() + varint_written(val as int).len(),
        ),
{
    lemma_places();
    lemma_groups_back(pre, val as nat, rest, 5);
}

/// A number that is not negative takes one to five bytes, and no shorter form
/// would do: the form has `k` groups or fewer exactly when the number is below
/// 128 to the power `k`.
pub proof fn law_varint_shortest(val: i32, k: nat)
    requires
        val >= 0,
    ensures
        1 <= varint_written(val as int).len() <= 5,
        k > 0 ==> (varint_written(val as int).len() <= k <==> val < place(k)),
{
    lemma_places();
    lemma_groups_len(val as nat, 5);
    lemma_groups_len(val as nat, k);
}

proof fn lemma_groups_len(n: nat, k: nat)
    ensures
        groups(n).len() >= 1,
        k > 0 ==> (groups(n).len() <= k <==> n < place(k)),
    decreases k,
{
    reveal_with_fuel(place, 2);
    if k > 0 {
        if n < 128 {
            lemma_place_positive((k - 1) as nat);
        } else {
            lemma_groups_len(n / 128, (k - 1) as nat);
            let p = place((k - 1) as nat);
            assert(n / 128 < p <==> n < 128 * p) by (nonlinear_arith);
        }
    }
}

proof fn lemma_place_positive(i: nat)
    ensures
        place(i) >= 1,
    decreases i,
{
    if i > 0 {
        lemma_place_positive((i - 1) as nat);
    }
}

/// Every short that is written is read back.
pub proof fn law_short_round_trip(pre: Seq<u8>, n: u16, rest: Seq<u8>)
    ensures
        short_at(pre + short_written(n) + rest, pre.len()) == Parse::<_, NettyError>::Done(n, pre.len() + 2),
{
    let b = pre + short_written(n) + rest;
    assert(b[pre.len() as int] == (n / 256) as u8);
    assert(b[pre.len() as int + 1] == (n % 256) as u8);
}

/// Every text whose UTF-8 form has a length that a signed 32-bit number can
/// hold is read back as it was written.
pub proof fn law_string_round_trip(pre: Seq<u8>, s: Seq<char>, rest: Seq<u8>)
    requires
        encode_utf8(s).len() <= i32::MAX,
    ensures
        text_at(pre + text_written(s) + rest, pre.len()) == Parse::<_, NettyError>::Done(
            s,
            pre.len() + text_written(s).len(),
        ),
{
    let bytes = encode_utf8(s);
    let len = bytes.len() as i32;
    let b = pre + text_written(s) + rest;
    assert(b =~= pre + varint_written(len as int) + (bytes + rest));
    law_varint_round_trip(pre, len, bytes + rest);
    let start = pre.len() + varint_written(len as int).len();
    assert(b.subrange(start as int, start + len) =~= bytes);
    encode_utf8_valid_utf8(s);
    encode_utf8_decode_utf8(s);
}

proof fn lemma_groups_continue(b: Seq<u8>, e: Seq<u8>, pos: nat, budget: nat)
    requires
        pos <= b.len(),
    ensures
        crate::parse::continues(
            groups_at(b, pos, budget),
            groups_at(b + e, pos, budget),
            b.len(),
            e.len(),
        ),
    decreases budget,
{
    if budget > 0 {
        if pos < b.len() {
            assert((b + e)[pos as int] == b[pos as int]);
            lemma_groups_continue(b, e, pos + 1, (budget - 1) as nat);
        } else {
            lemma_groups_end(b + e, pos, budget);
        }
    }
}

/// A variable-length integer can be read from a stream, asking for exactly the
/// missing bytes.
pub proof fn law_varint_continues(b: Seq<u8>, e: Seq<u8>, pos: nat)
    requires
        pos <= b.len(),
    ensures
        crate::parse::continues(varint_at(b, pos), varint_at(b + e, pos), b.len(), e.len()),
{
    lemma_groups_continue(b, e, pos, 5);
}

/// A short can be read from a stream, asking for exactly the missing bytes.
pub proof fn law_short_continues(b: Seq<u8>, e: Seq<u8>, pos: nat)
    requires
        pos <= b.len(),
    ensures
        crate::parse::continues(short_at(b, pos), short_at(b + e, pos), b.len(), e.len()),
{
}

/// A string can be read from a stream, asking for exactly the missing bytes.
pub proof fn law_string_continues(b: Seq<u8>, e: Seq<u8>, pos: nat)
    requires
        pos <= b.len(),
    ensures
        crate::parse::continues(text_at(b, pos), text_at(b + e, pos), b.len(), e.len()),
{
    law_varint_continues(b, e, pos);
    lemma_groups_end(b, pos, 5);
    lemma_groups_end(b + e, pos, 5);
    if let Parse::Done(len, start) = varint_at(b, pos) {
        if len >= 0 && start + len <= b.len() {
            assert((b + e).subrange(start as int, start + len) =~= b.subrange(
                start as int,
                start + len,
            ));
        }
    }
}

proof fn lemma_groups_shift(l: Seq<u8>, x: Seq<u8>, pos: nat, budget: nat)
    ensures
        groups_at(l + x, l.len() + pos, budget) == crate::parse::shifted(
            groups_at(x, pos, budget),
            l.len(),
        ),
    decreases budget,
{
    if budget > 0 && pos < x.len() {
        assert((l + x)[(l.len() + pos) as int] == x[pos as int]);
        lemma_groups_shift(l, x, pos + 1, (budget - 1) as nat);
    }
}

/// Bytes in front of a variable-length integer do not change it.
pub(crate) proof fn lemma_varint_shift(l: Seq<u8>, x: Seq<u8>, pos: nat)
    ensures
        varint_at(l + x, l.len() + pos) == crate::parse::shifted(varint_at(x, pos), l.len()),
{
    lemma_groups_shift(l, x, pos, 5);
}

/// Bytes in front of a short do not change it.
pub(crate) proof fn lemma_short_shift(l: Seq<u8>, x: Seq<u8>, pos: nat)
    ensures
        short_at(l + x, l.len() + pos) == crate::parse::shifted(short_at(x, pos), l.len()),
{
}

/// Bytes in front of a string do not change it.
pub(crate) proof fn lemma_string_shift(l: Seq<u8>, x: Seq<u8>, pos: nat)
    ensures
        text_at(l + x, l.len() + pos) == crate::parse::shifted(text_at(x, pos), l.len()),
{
    lemma_varint_shift(l, x, pos);
    lemma_groups_end(x, pos, 5);
    if let Parse::Done(len, start) = varint_at(x, pos) {
        if len >= 0 && start + len <= x.len() {
            assert((l + x).subrange((l.len() + start) as int, l.len() + start + len)
                =~= x.subrange(start as int, start + len));
        }
    }
}

} // verus!
