//! What names are given, and what name a host stands for.

use vstd::prelude::*;
use vstd::utf8::*;

verus! {

/// The name in a host is what stands in front of a dot and the whole address of
/// the server, and a host that does not end so has none.
pub proof fn law_subdomain(host: Seq<char>, name: Seq<char>, listen_addr: Seq<char>)
    ensures
        crate::text::stem_of(host, crate::domain::host_suffix(listen_addr)) == Some(name) <==> host
            == name + seq!['.'] + listen_addr,
{
    let suffix = crate::domain::host_suffix(listen_addr);
    crate::text::law_stem(name, host, suffix);
    assert(name + seq!['.'] + listen_addr =~= name + suffix);
}

/// The lower-case form of text that is not all ASCII is what `str::to_lowercase`
/// makes of it.
pub proof fn law_lowered_beyond_ascii(s: Seq<char>)
    requires
        !is_ascii_chars(s),
    ensures
        crate::domain::lowered(s) == crate::domain::lowercase_text(s),
{
}

/// The lower-case form of ASCII text has a to z in place of A to Z, and every
/// other character as it was, each at its place.
pub proof fn law_lowered(s: Seq<char>, i: int)
    requires
        is_ascii_chars(s),
        0 <= i < s.len(),
    ensures
        crate::domain::lowered(s).len() == s.len(),
        'A' <= s[i] <= 'Z' ==> crate::domain::lowered(s)[i] as int == s[i] as int + 32,
        !('A' <= s[i] <= 'Z') ==> crate::domain::lowered(s)[i] == s[i],
{
}

/// The view of an optional text is the text, where there is one.
pub proof fn law_optional_view(s: String)
    ensures
        crate::wire::optional_view(Some(s)) == Some(s@),
        crate::wire::optional_view(None) is None,
{
}

/// What choosing gives is told from what it hands back, and each is the text that
/// it is.
pub proof fn law_choice_view(s: String)
    ensures
        crate::domain::choice_view(Ok(s)) == Ok::<Seq<char>, Seq<char>>(s@),
        crate::domain::choice_view(Err(s)) == Err::<Seq<char>, Seq<char>>(s@),
{
}

/// The identifiers are the eight hexadecimal digits of the numbers of 32 bits.
pub proof fn law_identifiers(s: Seq<char>, n: u32)
    ensures
        crate::domain::is_id(crate::text::hex(n as nat, 8)),
        crate::domain::is_id(s) ==> exists|m: u32| s == #[trigger] crate::text::hex(m as nat, 8),
{
}

/// The first candidate stands in front of the identifiers of the drawn numbers,
/// which come in the order of the draws.
pub proof fn law_candidates(first: Seq<char>, draws: Seq<u32>)
    ensures
        ({
            let all = crate::domain::candidates(first, draws);
            &&& all.len() == draws.len() + 1
            &&& all[0] == first
            &&& forall|i: int|
                0 <= i < draws.len() ==> all[i + 1] == crate::text::hex(
                    #[trigger] draws[i] as nat,
                    8,
                )
        }),
{
}

/// The first candidate without a route is the one that counts, in its lower-case
/// form.
pub proof fn law_first_free_counts(names: Set<Seq<char>>, all: Seq<Seq<char>>, i: int)
    requires
        0 <= i < all.len(),
        forall|j: int| 0 <= j < i ==> names.contains(#[trigger] all[j]),
        !names.contains(all[i]),
    ensures
        crate::domain::first_free(names, all) == Ok::<Seq<char>, Seq<char>>(
            crate::domain::lowered(all[i]),
        ),
{
    crate::domain::lemma_first_free(names, all, i);
}

/// Where every candidate has a route, the last one is handed back.
pub proof fn law_none_free(names: Set<Seq<char>>, all: Seq<Seq<char>>)
    requires
        all.len() > 0,
        forall|j: int| 0 <= j < all.len() ==> names.contains(#[trigger] all[j]),
    ensures
        crate::domain::first_free(names, all) == Err::<Seq<char>, Seq<char>>(all.last()),
{
    crate::domain::lemma_first_free(names, all, all.len() - 1);
}

/// Choosing a name tries what was asked for, or else an identifier, and then one
/// identifier for each attempt, and stops at the first without a route.
pub proof fn law_chosen(
    names: Set<Seq<char>>,
    requested: Option<Seq<char>>,
    attempts: nat,
    choice: Result<Seq<char>, Seq<char>>,
)
    requires
        crate::domain::chosen(names, requested, attempts, choice),
    ensures
        exists|all: Seq<Seq<char>>, i: int|
            {
                &&& all.len() == attempts + 1
                &&& 0 <= i < all.len()
                &&& requested matches Some(name) ==> all[0] == name
                &&& requested is None ==> crate::domain::is_id(all[0])
                &&& forall|j: int| 1 <= j < all.len() ==> crate::domain::is_id(#[trigger] all[j])
                &&& forall|j: int| 0 <= j < i ==> names.contains(#[trigger] all[j])
                &&& !names.contains(#[trigger] all[i]) ==> choice == Ok::<Seq<char>, Seq<char>>(
                    crate::domain::lowered(all[i]),
                )
                &&& names.contains(all[i]) ==> i == attempts && choice == Err::<
                    Seq<char>,
                    Seq<char>,
                >(all[i])
            },
{
    let (first, draws) = choose|first: Seq<char>, draws: Seq<u32>|
        {
            &&& match requested {
                Some(name) => first == name,
                None => crate::domain::is_id(first),
            }
            &&& draws.len() == attempts
            &&& choice == crate::domain::first_free(
                names,
                #[trigger] crate::domain::candidates(first, draws),
            )
        };
    let all = crate::domain::candidates(first, draws);
    let i = lemma_place(names, all, 0);
    crate::domain::lemma_first_free(names, all, i);
    assert forall|j: int| 1 <= j < all.len() implies crate::domain::is_id(#[trigger] all[j]) by {
        assert(all[j] == crate::text::hex(draws[j - 1] as nat, 8));
    }
    assert(all[0] == first);
    assert(names.contains(all[i]) || !names.contains(all[i]));
}

/// The place of the first candidate without a route, or else of the last one.
proof fn lemma_place(names: Set<Seq<char>>, all: Seq<Seq<char>>, from: int) -> (i: int)
    requires
        0 <= from < all.len(),
        forall|j: int| 0 <= j < from ==> names.contains(#[trigger] all[j]),
    ensures
        0 <= i < all.len(),
        forall|j: int| 0 <= j < i ==> names.contains(#[trigger] all[j]),
        names.contains(all[i]) ==> i == all.len() - 1,
    decreases all.len() - from,
{
    if !names.contains(all[from]) || from == all.len() - 1 {
        from
    } else {
        lemma_place(names, all, from + 1)
    }
}

} // verus!
