//! Numbers as text, text as numbers, and what a text ends in.

use vstd::prelude::*;

verus! {

/// The upper-case hexadecimal digit of `d`.
pub open spec fn hex_digit(d: nat) -> char {
    if d < 10 {
        (48 + d) as char
    } else {
        (55 + d) as char
    }
}

/// The `k` low hexadecimal digits of `n`, the highest first.
pub open spec fn hex(n: nat, k: nat) -> Seq<char>
    decreases k,
{
    if k == 0 {
        Seq::empty()
    } else {
        hex(n / 16, (k - 1) as nat).push(hex_digit(n % 16))
    }
}

/// Hexadecimal digits are what they should be, and as many.
pub(crate) proof fn lemma_hex_digits(n: nat, k: nat)
    ensures
        hex(n, k).len() == k,
        forall|i: int|
            0 <= i < k ==> '0' <= (#[trigger] hex(n, k)[i]) <= '9' || 'A' <= hex(n, k)[i] <= 'F',
    decreases k,
{
    if k > 0 {
        lemma_hex_digits(n / 16, (k - 1) as nat);
    }
}

/// The decimal digits of `n`, without leading zeros.
pub open spec fn decimal(n: nat) -> Seq<char>
    decreases n,
{
    if n < 10 {
        seq![hex_digit(n)]
    } else {
        decimal(n / 10).push(hex_digit(n % 10))
    }
}

/// The text of one digit.
fn digit_text(d: u32) -> (r: &'static str)
    requires
        d < 16,
    ensures
        r@ == seq![hex_digit(d as nat)],
{
    proof {
        reveal_strlit("0");
        reveal_strlit("1");
        reveal_strlit("2");
        reveal_strlit("3");
        reveal_strlit("4");
        reveal_strlit("5");
        reveal_strlit("6");
        reveal_strlit("7");
        reveal_strlit("8");
        reveal_strlit("9");
        reveal_strlit("A");
        reveal_strlit("B");
        reveal_strlit("C");
        reveal_strlit("D");
        reveal_strlit("E");
        reveal_strlit("F");
    }
    let r: &'static str = match d {
        0 => "0",
        1 => "1",
        2 => "2",
        3 => "3",
        4 => "4",
        5 => "5",
        6 => "6",
        7 => "7",
        8 => "8",
        9 => "9",
        10 => "A",
        11 => "B",
        12 => "C",
        13 => "D",
        14 => "E",
        _ => "F",
    };
    assert(r@ =~= seq![hex_digit(d as nat)]);
    r
}

/// The `k` low hexadecimal digits of `n`, the highest first.
pub fn hex_text(n: u32, k: usize) -> (r: String)
    ensures
        r@ == hex(n as nat, k as nat),
    decreases k,
{
    if k == 0 {
        String::new()
    } else {
        let r: String = hex_text(n / 16, k - 1).concat(digit_text(n % 16));
        assert(r@ =~= hex(n as nat, k as nat));
        r
    }
}

/// The decimal digits of `n`.
pub fn decimal_text(n: u16) -> (r: String)
    ensures
        r@ == decimal(n as nat),
    decreases n,
{
    if n < 10 {
        digit_text(n as u32).to_owned()
    } else {
        let r: String = decimal_text(n / 10).concat(digit_text((n % 10) as u32));
        assert(r@ =~= decimal(n as nat));
        r
    }
}

/// Whether every character is a decimal digit.
pub open spec fn all_digits(s: Seq<char>) -> bool {
    forall|i: int| 0 <= i < s.len() ==> '0' <= #[trigger] s[i] <= '9'
}

/// The number that decimal digits spell.
pub open spec fn digits_value(s: Seq<char>) -> nat
    decreases s.len(),
{
    if s.len() == 0 {
        0
    } else {
        10 * digits_value(s.drop_last()) + (s.last() as nat - 48) as nat
    }
}

/// The text behind a plus sign that it may start with.
pub open spec fn without_plus(s: Seq<char>) -> Seq<char> {
    if s.len() > 0 && s[0] == '+' {
        s.skip(1)
    } else {
        s
    }
}

/// The port that a text spells: one or more decimal digits, which a plus sign
/// may precede, with a value of 16 bits.
pub open spec fn port_in(s: Seq<char>) -> Option<u16> {
    let d = without_plus(s);
    if d.len() > 0 && all_digits(d) && digits_value(d) <= u16::MAX {
        Some(digits_value(d) as u16)
    } else {
        None
    }
}

/// The digits of a longer number spell more.
proof fn lemma_value_grows(s: Seq<char>, i: int)
    requires
        0 <= i <= s.len(),
    ensures
        digits_value(s.take(i)) <= digits_value(s),
    decreases s.len(),
{
    if i == s.len() {
        assert(s.take(i) =~= s);
    } else {
        assert(s.drop_last().take(i) =~= s.take(i));
        lemma_value_grows(s.drop_last(), i);
    }
}

/// The port that a text spells, if it spells one.
pub fn parse_port(s: &str) -> (r: Option<u16>)
    ensures
        r == port_in(s@),
{
    let n: usize = s.unicode_len();
    let start: usize = if n > 0 && s.get_char(0) == '+' {
        1
    } else {
        0
    };
    let ghost d = without_plus(s@);
    if start == n {
        return None;
    }
    let mut value: u32 = 0;
    let mut i: usize = start;
    proof {
        assert(d.take(0) =~= Seq::<char>::empty());
    }
    while i < n
        invariant
            n == s@.len(),
            start <= i <= n,
            start <= 1,
            d == s@.skip(start as int),
            d == without_plus(s@),
            value <= u16::MAX,
            value == digits_value(d.take(i - start)),
            forall|j: int| 0 <= j < i - start ==> '0' <= #[trigger] d[j] <= '9',
        decreases n - i,
    {
        let c: char = s.get_char(i);
        let ghost k = i - start;
        assert(c == d[k]);
        if c < '0' || c > '9' {
            return None;
        }
        proof {
            assert(d.take(k + 1).drop_last() =~= d.take(k));
            assert(d.take(k + 1).last() == c);
        }
        value = value * 10 + (c as u32 - 48);
        if value > u16::MAX as u32 {
            proof {
                lemma_value_grows(d, k + 1);
            }
            return None;
        }
        i = i + 1;
    }
    assert(d.take(n - start) =~= d);
    Some(value as u16)
}

/// The text of a port spells that port.
pub proof fn law_port_round_trip(n: u16)
    ensures
        port_in(decimal(n as nat)) == Some(n),
{
    lemma_decimal(n as nat);
}

proof fn lemma_decimal(n: nat)
    ensures
        decimal(n).len() > 0,
        all_digits(decimal(n)),
        digits_value(decimal(n)) == n,
    decreases n,
{
    if n < 10 {
        let s = decimal(n);
        assert(s.drop_last() =~= Seq::<char>::empty());
        assert(digits_value(s.drop_last()) == 0);
    } else {
        lemma_decimal(n / 10);
        let s = decimal(n);
        assert(s.drop_last() =~= decimal(n / 10));
    }
}

/// What stands in front of a suffix, if the text ends in it.
pub open spec fn stem_of(s: Seq<char>, suffix: Seq<char>) -> Option<Seq<char>> {
    if suffix.is_suffix_of(s) {
        Some(s.take(s.len() - suffix.len()))
    } else {
        None
    }
}

/// What stands in front of a suffix, if the text ends in it.
pub fn strip_suffix(s: &str, suffix: &str) -> (r: Option<String>)
    ensures
        crate::wire::optional_view(r) == stem_of(s@, suffix@),
{
    let n: usize = s.unicode_len();
    let m: usize = suffix.unicode_len();
    if m > n {
        return None;
    }
    let tail: String = s.substring_char(n - m, n).to_owned();
    if tail == suffix.to_owned() {
        Some(s.substring_char(0, n - m).to_owned())
    } else {
        None
    }
}

/// The stem of a text is what makes the text with the suffix behind it, and
/// there is one exactly where something does.
pub proof fn law_stem(stem: Seq<char>, s: Seq<char>, suffix: Seq<char>)
    ensures
        stem_of(s, suffix) == Some(stem) <==> s == stem + suffix,
{
    if s == stem + suffix {
        assert(s.subrange(s.len() - suffix.len(), s.len() as int) =~= suffix);
        assert(s.take(s.len() - suffix.len()) =~= stem);
    }
    if stem_of(s, suffix) == Some(stem) {
        assert(s =~= stem + suffix);
    }
}

} // verus!
