//! What the operator's requests are answered, and that the answers can be read.

use vstd::prelude::*;
use vstd::utf8::*;

verus! {

/// The views of strings are their texts, each at its place.
pub proof fn law_views(list: Seq<String>)
    ensures
        crate::api::views(list).len() == list.len(),
        forall|i: int|
            0 <= i < list.len() ==> #[trigger] crate::api::views(list)[i] == list[i]@,
{
}

/// A list that enumerates a set has as many items as the set, holds each of its
/// members, and holds nothing else.
pub proof fn law_enumerates(list: Seq<Seq<char>>, names: Set<Seq<char>>, name: Seq<char>)
    requires
        crate::api::enumerates(list, names),
    ensures
        list.len() == names.len(),
        names.contains(name) <==> list.contains(name),
        forall|i: int, j: int|
            0 <= i < j < list.len() ==> #[trigger] list[i] != #[trigger] list[j],
{
    list.unique_seq_to_set();
    assert(list.to_set().contains(name) <==> list.contains(name));
}

/// The items of a JSON array are the strings in their order, with a comma in
/// front of each but the first.
pub proof fn law_json_items(list: Seq<Seq<char>>, s: Seq<char>)
    ensures
        crate::api::json_items(Seq::empty()) == Seq::<char>::empty(),
        crate::api::json_items(seq![s]) == crate::api::json_string(s),
        list.len() > 0 ==> crate::api::json_items(list.push(s)) == crate::api::json_items(list)
            + seq![','] + crate::api::json_string(s),
{
    assert(list.push(s).drop_last() =~= list);
    assert(list.push(s).last() == s);
}

/// A JSON string is a text between quotes, with each character escaped in turn.
pub proof fn law_json_string(s: Seq<char>, c: char)
    ensures
        crate::api::json_string(Seq::empty()) == seq!['"', '"'],
        crate::api::json_string(s)[0] == '"',
        crate::api::json_string(s).last() == '"',
        crate::api::json_string(s.push(c)) == crate::api::json_string(s).drop_last()
            + crate::api::escaped(c) + seq!['"'],
{
    assert(crate::api::json_string(Seq::empty()) =~= seq!['"', '"']);
    assert(s.push(c).drop_last() =~= s);
    assert(s.push(c).last() == c);
    assert(crate::api::json_string(s.push(c)) =~= crate::api::json_string(s).drop_last()
        + crate::api::escaped(c) + seq!['"']);
}

/// A character that is neither a quote nor a backslash nor a control character
/// stands as it is. The others stand behind a backslash: quote and backslash
/// themselves, five control characters as a letter, and the rest as the letter u
/// and four hexadecimal digits.
pub proof fn law_escaped(c: char)
    ensures
        c >= ' ' && c != '"' && c != '\\' ==> crate::api::escaped(c) == seq![c],
        c == '"' || c == '\\' ==> crate::api::escaped(c) == seq!['\\', c],
        c as int == 8 ==> crate::api::escaped(c) == seq!['\\', 'b'],
        c as int == 9 ==> crate::api::escaped(c) == seq!['\\', 't'],
        c as int == 10 ==> crate::api::escaped(c) == seq!['\\', 'n'],
        c as int == 12 ==> crate::api::escaped(c) == seq!['\\', 'f'],
        c as int == 13 ==> crate::api::escaped(c) == seq!['\\', 'r'],
        (c as int) < 32 && c as int != 8 && c as int != 9 && c as int != 10 && c as int != 12
            && c as int != 13 ==> {
            let e = crate::api::escaped(c);
            let high = c as int / 16;
            let low = c as int % 16;
            &&& e.len() == 6
            &&& e.take(4) == seq!['\\', 'u', '0', '0']
            &&& e[4] as int == 48 + high
            &&& e[5] as int == if low < 10 { 48 + low } else { 87 + low }
        },
{
    if (c as int) < 32 && c as int != 8 && c as int != 9 && c as int != 10 && c as int != 12
        && c as int != 13 {
        let n = c as nat;
        let h = crate::text::hex(n, 2);
        reveal_with_fuel(crate::text::hex, 3);
        assert(n / 16 < 2);
        assert(h.len() == 2);
        assert(h[0] == crate::text::hex_digit(n / 16 % 16));
        assert(h[1] == crate::text::hex_digit(n % 16));
        assert(is_ascii_chars(h));
        assert(crate::api::escaped(c).take(4) =~= seq!['\\', 'u', '0', '0']);
    }
}

/// The answer that lists names holds all of them, in the order of the list.
pub proof fn law_list_text(names: Seq<Seq<char>>)
    ensures
        crate::api::list_text(names) == "{\"result\":["@ + crate::api::json_items(names)
            + "],\"success\":true}"@,
{
}

/// The names can be read from the answer: two lists with the same answer are the
/// same list.
pub proof fn law_list_is_readable(a: Seq<Seq<char>>, b: Seq<Seq<char>>)
    requires
        crate::api::list_text(a) == crate::api::list_text(b),
    ensures
        a == b,
{
    reveal_strlit("{\"result\":[");
    reveal_strlit("],\"success\":true}");
    let head = "{\"result\":["@;
    let tail = "],\"success\":true}"@;
    let n = head.len() as int;
    let rest = tail.drop_first();
    assert(tail =~= seq![']'] + rest);
    let ia = crate::api::json_items(a);
    let ib = crate::api::json_items(b);
    assert(crate::api::list_text(a).skip(n) =~= ia + (seq![']'] + rest));
    assert(crate::api::list_text(b).skip(n) =~= ib + (seq![']'] + rest));
    lemma_items_unique(a, b, rest, rest);
}

/// The escape of a character tells it from every other one.
proof fn lemma_escape_unique(c: char, d: char, p: Seq<char>, q: Seq<char>)
    requires
        crate::api::escaped(c) + p == crate::api::escaped(d) + q,
    ensures
        c == d,
        p == q,
{
    law_escaped(c);
    law_escaped(d);
    let e = crate::api::escaped(c);
    let f = crate::api::escaped(d);
    let both = e + p;
    assert(both == f + q);
    assert(both[0] == e[0] && both[0] == f[0]);
    if e.len() >= 2 && f.len() >= 2 {
        assert(both[1] == e[1] && both[1] == f[1]);
    }
    if e.len() == 6 {
        assert(e.take(4)[1] == 'u');
        assert(e.take(4)[0] == '\\');
    }
    if f.len() == 6 {
        assert(f.take(4)[1] == 'u');
        assert(f.take(4)[0] == '\\');
    }
    if e.len() == 6 && f.len() == 6 {
        assert(both[4] == e[4] && both[4] == f[4]);
        assert(both[5] == e[5] && both[5] == f[5]);
    }
    assert(c == d);
    assert(p =~= both.skip(e.len() as int));
    assert(q =~= both.skip(f.len() as int));
}

/// An escape is not empty and does not start with a quote.
proof fn lemma_escape_starts(c: char)
    ensures
        crate::api::escaped(c).len() > 0,
        crate::api::escaped(c)[0] != '"',
{
    law_escaped(c);
    if crate::api::escaped(c).len() == 6 {
        assert(crate::api::escaped(c).take(4)[0] == '\\');
    }
}

proof fn lemma_escaped_front(s: Seq<char>)
    requires
        s.len() > 0,
    ensures
        crate::api::all_escaped(s) == crate::api::escaped(s[0]) + crate::api::all_escaped(
            s.drop_first(),
        ),
    decreases s.len(),
{
    let t = s.drop_first();
    if s.len() == 1 {
        assert(s.drop_last().len() == 0);
        assert(crate::api::all_escaped(s.drop_last()) =~= Seq::<char>::empty());
        assert(crate::api::all_escaped(t) =~= Seq::<char>::empty());
        assert(crate::api::all_escaped(s) =~= crate::api::escaped(s[0])
            + crate::api::all_escaped(t));
    } else {
        lemma_escaped_front(s.drop_last());
        assert(s.drop_last().drop_first() =~= t.drop_last());
        assert(s.drop_last()[0] == s[0]);
        assert(t.last() == s.last());
        assert(crate::api::all_escaped(s) =~= crate::api::escaped(s[0])
            + crate::api::all_escaped(t));
    }
}

/// A text inside a JSON string ends at the first quote that is not escaped.
proof fn lemma_text_unique(a: Seq<char>, b: Seq<char>, x: Seq<char>, y: Seq<char>)
    requires
        crate::api::all_escaped(a) + (seq!['"'] + x) == crate::api::all_escaped(b) + (seq!['"']
            + y),
    ensures
        a == b,
        x == y,
    decreases a.len(),
{
    let ea = crate::api::all_escaped(a);
    let eb = crate::api::all_escaped(b);
    let both = ea + (seq!['"'] + x);
    assert(both == eb + (seq!['"'] + y));
    if a.len() > 0 {
        lemma_escaped_front(a);
        lemma_escape_starts(a[0]);
        assert(both[0] == crate::api::escaped(a[0])[0]);
    } else {
        assert(both[0] == '"');
    }
    if b.len() > 0 {
        lemma_escaped_front(b);
        lemma_escape_starts(b[0]);
        assert(both[0] == crate::api::escaped(b[0])[0]);
    } else {
        assert((eb + (seq!['"'] + y))[0] == '"');
    }
    if a.len() == 0 {
        assert(b.len() == 0);
        assert(a =~= b);
        assert(x =~= both.skip(1));
        assert(y =~= both.skip(1));
    } else {
        let ra = a.drop_first();
        let rb = b.drop_first();
        let pa = crate::api::all_escaped(ra) + (seq!['"'] + x);
        let pb = crate::api::all_escaped(rb) + (seq!['"'] + y);
        assert(both =~= crate::api::escaped(a[0]) + pa);
        assert(both =~= crate::api::escaped(b[0]) + pb);
        lemma_escape_unique(a[0], b[0], pa, pb);
        lemma_text_unique(ra, rb, x, y);
        assert(a =~= seq![a[0]] + ra);
        assert(b =~= seq![b[0]] + rb);
    }
}

proof fn lemma_string_unique(a: Seq<char>, b: Seq<char>, x: Seq<char>, y: Seq<char>)
    requires
        crate::api::json_string(a) + x == crate::api::json_string(b) + y,
    ensures
        a == b,
        x == y,
{
    let both = crate::api::json_string(a) + x;
    assert(both.skip(1) =~= crate::api::all_escaped(a) + (seq!['"'] + x));
    assert((crate::api::json_string(b) + y).skip(1) =~= crate::api::all_escaped(b) + (seq!['"']
        + y));
    lemma_text_unique(a, b, x, y);
}

proof fn lemma_items_front(l: Seq<Seq<char>>)
    requires
        l.len() >= 2,
    ensures
        crate::api::json_items(l) == crate::api::json_string(l[0]) + (seq![',']
            + crate::api::json_items(l.drop_first())),
    decreases l.len(),
{
    let t = l.drop_first();
    if l.len() == 2 {
        assert(l.drop_last().len() == 1);
        assert(l.drop_last()[0] == l[0]);
        assert(t[0] == l[1]);
        assert(crate::api::json_items(l.drop_last()) == crate::api::json_string(l[0]));
        assert(crate::api::json_items(t) == crate::api::json_string(l[1]));
        assert(l.last() == l[1]);
        assert(crate::api::json_items(l) =~= crate::api::json_string(l[0]) + (seq![',']
            + crate::api::json_items(t)));
    } else {
        lemma_items_front(l.drop_last());
        assert(l.drop_last().drop_first() =~= t.drop_last());
        assert(l.drop_last()[0] == l[0]);
        assert(t.last() == l.last());
        let last = crate::api::json_string(l.last());
        let first = crate::api::json_string(l[0]);
        let middle = crate::api::json_items(t.drop_last());
        assert(crate::api::json_items(t) == middle + seq![','] + last);
        assert(crate::api::json_items(l) == (first + (seq![','] + middle)) + seq![','] + last);
        assert((first + (seq![','] + middle)) + seq![','] + last =~= first + (seq![','] + (middle
            + seq![','] + last)));
    }
}

/// What stands behind the first of the items: the other items, or the end.
spec fn behind_first(l: Seq<Seq<char>>, x: Seq<char>) -> Seq<char> {
    if l.len() == 1 {
        seq![']'] + x
    } else {
        seq![','] + crate::api::json_items(l.drop_first()) + (seq![']'] + x)
    }
}

proof fn lemma_first_item(l: Seq<Seq<char>>, x: Seq<char>)
    requires
        l.len() > 0,
    ensures
        crate::api::json_items(l) + (seq![']'] + x) == crate::api::json_string(l[0])
            + behind_first(l, x),
        behind_first(l, x)[0] == if l.len() == 1 { ']' } else { ',' },
{
    if l.len() >= 2 {
        lemma_items_front(l);
        assert(crate::api::json_items(l) + (seq![']'] + x) =~= crate::api::json_string(l[0])
            + behind_first(l, x));
    }
}

proof fn lemma_items_unique(a: Seq<Seq<char>>, b: Seq<Seq<char>>, x: Seq<char>, y: Seq<char>)
    requires
        crate::api::json_items(a) + (seq![']'] + x) == crate::api::json_items(b) + (seq![']'] + y),
    ensures
        a == b,
    decreases a.len(),
{
    let both = crate::api::json_items(a) + (seq![']'] + x);
    if a.len() > 0 {
        lemma_first_item(a, x);
        assert(both[0] == '"');
    } else {
        assert(both[0] == ']');
    }
    if b.len() > 0 {
        lemma_first_item(b, y);
        assert((crate::api::json_items(b) + (seq![']'] + y))[0] == '"');
    } else {
        assert((crate::api::json_items(b) + (seq![']'] + y))[0] == ']');
    }
    if a.len() == 0 {
        assert(a =~= b);
    } else {
        lemma_string_unique(a[0], b[0], behind_first(a, x), behind_first(b, y));
        let ra = a.drop_first();
        let rb = b.drop_first();
        if a.len() == 1 {
            assert(b.len() == 1);
            assert(a =~= b);
        } else {
            assert(b.len() >= 2);
            assert(behind_first(a, x).skip(1) =~= crate::api::json_items(ra) + (seq![']'] + x));
            assert(behind_first(b, y).skip(1) =~= crate::api::json_items(rb) + (seq![']'] + y));
            lemma_items_unique(ra, rb, x, y);
            assert(a =~= seq![a[0]] + ra);
            assert(b =~= seq![b[0]] + rb);
        }
    }
}

} // verus!
