//! What numbers as text and text as numbers are, character by character.

use vstd::arithmetic::power::pow;
use vstd::prelude::*;

verus! {

/// Each hexadecimal digit stands at its place, the lowest last, in upper case.
pub proof fn law_hex_digit(n: nat, k: nat, i: nat)
    requires
        i < k,
    ensures
        crate::text::hex(n, k).len() == k,
        ({
            let d = n as int / pow(16, i) % 16;
            crate::text::hex(n, k)[k - 1 - i] as int == if d < 10 { 48 + d } else { 55 + d }
        }),
    decreases k,
{
    crate::text::lemma_hex_digits(n, k);
    crate::text::lemma_hex_digits(n / 16, (k - 1) as nat);
    reveal_with_fuel(pow, 2);
    if i == 0 {
        assert(n as int / 1 % 16 == n % 16);
    } else {
        law_hex_digit(n / 16, (k - 1) as nat, (i - 1) as nat);
        let p = pow(16, (i - 1) as nat);
        vstd::arithmetic::power::lemma_pow_positive(16, (i - 1) as nat);
        vstd::arithmetic::div_mod::lemma_div_denominator(n as int, 16, p);
        assert(pow(16, i) == 16 * p);
    }
}

/// The text of a port is one to five decimal digits that add up to it at their
/// places, and a zero does not come first unless it is alone.
pub proof fn law_decimal_digits(n: u16)
    ensures
        ({
            let w = crate::text::decimal(n as nat);
            let k = w.len() as int;
            let d1: int = if k > 1 { w[k - 2] as int - 48 } else { 0 };
            let d2: int = if k > 2 { w[k - 3] as int - 48 } else { 0 };
            let d3: int = if k > 3 { w[k - 4] as int - 48 } else { 0 };
            let d4: int = if k > 4 { w[k - 5] as int - 48 } else { 0 };
            &&& 1 <= k <= 5
            &&& forall|i: int| 0 <= i < k ==> '0' <= (#[trigger] w[i]) <= '9'
            &&& k > 1 ==> w[0] != '0'
            &&& n == w[k - 1] as int - 48 + 10 * d1 + 100 * d2 + 1000 * d3 + 10000 * d4
        }),
{
    reveal_with_fuel(crate::text::decimal, 6);
    let m = n as nat;
    assert(m / 10 / 10 == m / 100);
    assert(m / 10 / 10 / 10 == m / 1000);
    assert(m / 10 / 10 / 10 / 10 == m / 10000);
}

/// A text without characters, or of a plus sign alone, is no port.
pub proof fn law_no_port()
    ensures
        crate::text::port_in(Seq::empty()) is None,
        crate::text::port_in(seq!['+']) is None,
{
    assert(seq!['+'].skip(1).len() == 0);
}

/// A single digit is the port of its value, and any other character is none.
pub proof fn law_port_of_one_character(c: char)
    ensures
        '0' <= c <= '9' ==> (crate::text::port_in(seq![c]) matches Some(n) && n == c as int - 48),
        !('0' <= c <= '9') ==> crate::text::port_in(seq![c]) is None,
{
    let s = seq![c];
    if c == '+' {
        assert(s.skip(1).len() == 0);
    } else {
        let d = crate::text::without_plus(s);
        assert(d =~= s);
        assert(s.drop_last().len() == 0);
        assert(s[0] == c);
        reveal_with_fuel(crate::text::digits_value, 2);
        if '0' <= c <= '9' {
            assert(crate::text::all_digits(s));
        }
    }
}

/// A digit behind the text of a port gives the port ten times as high and as much
/// more as the digit, unless that is over 65535. Behind a text that is no port,
/// and for a character that is no digit, there is no port.
pub proof fn law_port_with_another_character(s: Seq<char>, c: char)
    requires
        s.len() > 0,
        s != seq!['+'],
    ensures
        match crate::text::port_in(s) {
            Some(n) => {
                &&& '0' <= c <= '9' && 10 * n + (c as int - 48) <= 65535 ==> (
                crate::text::port_in(s.push(c)) matches Some(m) && m == 10 * n + (c as int - 48))
                &&& '0' <= c <= '9' && 10 * n + (c as int - 48) > 65535 ==> crate::text::port_in(
                    s.push(c),
                ) is None
                &&& !('0' <= c <= '9') ==> crate::text::port_in(s.push(c)) is None
            },
            None => crate::text::port_in(s.push(c)) is None,
        },
{
    let d = crate::text::without_plus(s);
    let e = crate::text::without_plus(s.push(c));
    if s[0] == '+' {
        assert(s.push(c).skip(1) =~= s.skip(1).push(c));
        if s.len() == 1 {
            assert(s =~= seq!['+']);
        }
    }
    assert(e =~= d.push(c));
    assert(d.len() > 0);
    assert(e.drop_last() =~= d);
    assert(e.last() == c);
    assert(e[e.len() - 1] == c);
    assert(crate::text::all_digits(e) <==> crate::text::all_digits(d) && '0' <= c <= '9') by {
        if crate::text::all_digits(e) {
            assert forall|i: int| 0 <= i < d.len() implies '0' <= #[trigger] d[i] <= '9' by {
                assert(e[i] == d[i]);
            }
        }
        if crate::text::all_digits(d) && '0' <= c <= '9' {
            assert forall|i: int| 0 <= i < e.len() implies '0' <= #[trigger] e[i] <= '9' by {
                if i < d.len() {
                    assert(e[i] == d[i]);
                }
            }
        }
    }
}

/// A plus sign in front of digits does not matter, and only one may be there.
pub proof fn law_port_behind_plus(s: Seq<char>)
    ensures
        s.len() > 0 && s[0] != '+' ==> crate::text::port_in(seq!['+'] + s) == crate::text::port_in(
            s,
        ),
        s.len() > 0 && s[0] == '+' ==> crate::text::port_in(seq!['+'] + s) is None,
{
    assert((seq!['+'] + s).skip(1) =~= s);
}

} // verus!
