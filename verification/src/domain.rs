//! The names under which proxied servers can be reached.

use crate::router::Router;
use crate::text::hex_text;
use crate::text::strip_suffix;
use vstd::prelude::*;
use vstd::utf8::*;

verus! {

/// `rand::random` of a `u32`, which may be any.
#[verifier::external_body]
fn random_u32() -> (r: u32) {
    rand::random()
}

/// The lower-case form of an ASCII character.
pub open spec fn ascii_lower(c: char) -> char {
    if 'A' <= c <= 'Z' {
        (c as u32 + 32) as char
    } else {
        c
    }
}

/// The result of `str::to_lowercase` of std on text that is not all ASCII.
pub uninterp spec fn lowercase_text(s: Seq<char>) -> Seq<char>;

/// The lower-case form of a text.
pub open spec fn lowered(s: Seq<char>) -> Seq<char> {
    if is_ascii_chars(s) {
        s.map_values(|c: char| ascii_lower(c))
    } else {
        lowercase_text(s)
    }
}

/// `str::to_lowercase` of std. It is claimed that on ASCII text it turns the
/// letters A to Z into a to z and keeps everything else, and that on other text
/// the result depends on the text alone.
#[verifier::external_body]
fn lowercase(s: &str) -> (r: String)
    ensures
        is_ascii_chars(s@) ==> r@ == s@.map_values(|c: char| ascii_lower(c)),
        !is_ascii_chars(s@) ==> r@ == lowercase_text(s@),
{
    s.to_lowercase()
}

/// Whether `s` is an identifier that can be drawn: eight hexadecimal digits.
pub open spec fn is_id(s: Seq<char>) -> bool {
    exists|n: u32| s == #[trigger] crate::text::hex(n as nat, 8)
}

/// The identifier that belongs to a number.
pub fn id_text(n: u32) -> (r: String)
    ensures
        r@ == crate::text::hex(n as nat, 8),
{
    hex_text(n, 8)
}

/// An identifier, drawn at random.
pub fn random_id() -> (r: String)
    ensures
        is_id(r@),
{
    id_text(random_u32())
}

/// The name that a candidate leads to, if the candidate has no route yet: its
/// lower-case form. Whether that form has a route is not looked at.
pub fn free_domain<S>(router: &Router<String, S>, candidate: &String) -> (r: Option<String>)
    ensures
        match r {
            Some(domain) => !router@.contains_key(candidate@) && domain@ == lowered(candidate@),
            None => router@.contains_key(candidate@),
        },
{
    if router.has_route(candidate) {
        None
    } else {
        Some(lowercase(candidate.as_str()))
    }
}

/// The candidates for a name: a first one, and the identifiers of drawn numbers.
pub open spec fn candidates(first: Seq<char>, draws: Seq<u32>) -> Seq<Seq<char>> {
    seq![first] + draws.map_values(|n: u32| crate::text::hex(n as nat, 8))
}

/// What one or more candidates lead to while `names` have routes: the lower-case
/// form of the first candidate without a route, or, where every one of them has
/// one, the last candidate as it is.
pub open spec fn first_free(names: Set<Seq<char>>, candidates: Seq<Seq<char>>) -> Result<
    Seq<char>,
    Seq<char>,
>
    decreases candidates.len(),
{
    if !names.contains(candidates[0]) {
        Ok(lowered(candidates[0]))
    } else if candidates.len() <= 1 {
        Err(candidates[0])
    } else {
        first_free(names, candidates.drop_first())
    }
}

pub(crate) proof fn lemma_first_free(names: Set<Seq<char>>, candidates: Seq<Seq<char>>, i: int)
    requires
        0 <= i < candidates.len(),
        forall|j: int| 0 <= j < i ==> names.contains(#[trigger] candidates[j]),
    ensures
        !names.contains(candidates[i]) ==> first_free(names, candidates) == Ok::<
            Seq<char>,
            Seq<char>,
        >(lowered(candidates[i])),
        names.contains(candidates[i]) && i == candidates.len() - 1 ==> first_free(names, candidates)
            == Err::<Seq<char>, Seq<char>>(candidates[i]),
    decreases i,
{
    if i > 0 {
        let rest = candidates.drop_first();
        assert(names.contains(candidates[0]));
        assert forall|j: int| 0 <= j < i - 1 implies names.contains(#[trigger] rest[j]) by {
            assert(rest[j] == candidates[j + 1]);
        }
        lemma_first_free(names, rest, i - 1);
    }
}

/// The view of the result of [`choose_domain`].
pub open spec fn choice_view(r: Result<String, String>) -> Result<Seq<char>, Seq<char>> {
    match r {
        Ok(domain) => Ok(domain@),
        Err(last) => Err(last@),
    }
}

/// The name that a first candidate and drawn numbers lead to. The candidates are
/// tried in turn; where every one of them has a route, the last is handed back.
pub fn choose_among<S>(router: &Router<String, S>, first: String, draws: &[u32]) -> (r: Result<
    String,
    String,
>)
    ensures
        choice_view(r) == first_free(router@.dom(), candidates(first@, draws@)),
        !router@.contains_key(first@) ==> (r matches Ok(domain) && domain@ == lowered(first@)),
        router@.contains_key(first@) && draws@.len() == 0 ==> (r matches Err(last) && last@
            == first@),
{
    let ghost all = candidates(first@, draws@);
    let mut candidate: String = first;
    let mut i: usize = 0;
    loop
        invariant
            i <= draws@.len(),
            all.len() == draws@.len() + 1,
            all == candidates(first@, draws@),
            candidate@ == all[i as int],
            forall|j: int| 0 <= j < i ==> router@.dom().contains(#[trigger] all[j]),
        decreases draws@.len() - i,
    {
        proof {
            lemma_first_free(router@.dom(), all, i as int);
        }
        match free_domain(router, &candidate) {
            Some(domain) => {
                return Ok(domain);
            },
            None => {
                if i == draws.len() {
                    return Err(candidate);
                }
                candidate = id_text(draws[i]);
                i = i + 1;
            },
        }
    }
}

/// What can come of choosing a name for a client that asked for `requested`, or
/// for none: what [`first_free`] says for some outcome of the draws. The first
/// candidate is what was asked for, or else a drawn identifier; the others are
/// `attempts` drawn numbers.
pub open spec fn chosen(
    names: Set<Seq<char>>,
    requested: Option<Seq<char>>,
    attempts: nat,
    choice: Result<Seq<char>, Seq<char>>,
) -> bool {
    exists|first: Seq<char>, draws: Seq<u32>|
        {
            &&& match requested {
                Some(name) => first == name,
                None => is_id(first),
            }
            &&& draws.len() == attempts
            &&& choice == first_free(names, #[trigger] candidates(first, draws))
        }
}

/// The name for a client that asked for `requested`, or for none. The first
/// candidate is what it asked for, or else an identifier drawn at random. As
/// long as the candidate has a route, another identifier is drawn, up to
/// `attempts` times. Where all of them had a route, the last one is handed back.
pub fn choose_domain<S>(
    router: &Router<String, S>,
    requested: Option<String>,
    attempts: usize,
) -> (r: Result<String, String>)
    ensures
        chosen(
            router@.dom(),
            crate::wire::optional_view(requested),
            attempts as nat,
            choice_view(r),
        ),
{
    let mut candidate: String = match requested {
        Some(name) => name,
        None => random_id(),
    };
    let ghost first = candidate@;
    let ghost mut drawn: Seq<u32> = Seq::empty();
    let mut left: usize = attempts;
    loop
        invariant
            match crate::wire::optional_view(requested) {
                Some(name) => first == name,
                None => is_id(first),
            },
            left + drawn.len() == attempts,
            candidate@ == candidates(first, drawn)[drawn.len() as int],
            forall|j: int|
                0 <= j < drawn.len() ==> router@.dom().contains(
                    #[trigger] candidates(first, drawn)[j],
                ),
        decreases left,
    {
        proof {
            let padding = Seq::new(left as nat, |i: int| 0u32);
            let all = candidates(first, drawn + padding);
            assert forall|j: int| 0 <= j <= drawn.len() implies #[trigger] all[j] == candidates(
                first,
                drawn,
            )[j] by {}
            lemma_first_free(router@.dom(), all, drawn.len() as int);
        }
        match free_domain(router, &candidate) {
            Some(domain) => {
                return Ok(domain);
            },
            None => {
                if left == 0 {
                    return Err(candidate);
                }
                left = left - 1;
                let n: u32 = random_u32();
                proof {
                    let before = candidates(first, drawn);
                    let after = candidates(first, drawn.push(n));
                    assert forall|j: int| 0 <= j <= drawn.len() implies #[trigger] after[j]
                        == before[j] by {}
                    drawn = drawn.push(n);
                }
                candidate = id_text(n);
            },
        }
    }
}

/// What a host name of this server ends in: a dot and the server's address.
pub open spec fn host_suffix(listen_addr: Seq<char>) -> Seq<char> {
    seq!['.'] + listen_addr
}

/// The name that a host name holds in front of a dot and the address of this
/// server, if that is how it ends.
pub fn subdomain(host: &str, listen_addr: &str) -> (r: Option<String>)
    ensures
        crate::wire::optional_view(r) == crate::text::stem_of(host@, host_suffix(listen_addr@)),
        match r {
            Some(name) => host@ == name@ + seq!['.'] + listen_addr@,
            None => forall|name: Seq<char>| host@ != #[trigger] (name + seq!['.']) + listen_addr@,
        },
{
    let dot: String = ".".to_owned();
    proof {
        reveal_strlit(".");
        assert(dot@ =~= seq!['.']);
    }
    let suffix: String = dot.concat(listen_addr);
    let r: Option<String> = strip_suffix(host, suffix.as_str());
    proof {
        assert forall|name: Seq<char>|
            host@ == #[trigger] (name + seq!['.']) + listen_addr@ implies r is Some && r->0@
            == name by {
            assert(name + seq!['.'] + listen_addr@ =~= name + suffix@);
            crate::text::law_stem(name, host@, suffix@);
        }
        if r is Some {
            crate::text::law_stem(r->0@, host@, suffix@);
            assert(r->0@ + seq!['.'] + listen_addr@ =~= r->0@ + suffix@);
        }
    }
    r
}

/// A free name that is asked for is given in its lower-case form, whatever is
/// drawn.
pub proof fn law_free_request_is_granted(
    names: Set<Seq<char>>,
    name: Seq<char>,
    attempts: nat,
    choice: Result<Seq<char>, Seq<char>>,
)
    requires
        chosen(names, Some(name), attempts, choice),
        !names.contains(name),
    ensures
        choice == Ok::<Seq<char>, Seq<char>>(lowered(name)),
{
    let (first, draws) = choose|first: Seq<char>, draws: Seq<u32>|
        first == name && draws.len() == attempts && choice == first_free(
            names,
            #[trigger] candidates(first, draws),
        );
    assert(candidates(first, draws)[0] == name);
}

/// A free name that is its own lower-case form is given as it was asked for, and
/// what is given has no route.
pub proof fn law_lowercase_request_is_free(
    names: Set<Seq<char>>,
    name: Seq<char>,
    attempts: nat,
    choice: Result<Seq<char>, Seq<char>>,
)
    requires
        chosen(names, Some(name), attempts, choice),
        !names.contains(name),
        lowered(name) == name,
    ensures
        choice matches Ok(domain) && domain == name && !names.contains(domain),
{
    law_free_request_is_granted(names, name, attempts, choice);
}

/// What choosing gives is the lower-case form of a candidate without a route:
/// of what was asked for, or of an identifier. Where nothing is given, what is
/// handed back is such a candidate with a route.
pub proof fn law_choice_is_a_candidate(
    names: Set<Seq<char>>,
    requested: Option<Seq<char>>,
    attempts: nat,
    choice: Result<Seq<char>, Seq<char>>,
)
    requires
        chosen(names, requested, attempts, choice),
    ensures
        match choice {
            Ok(domain) => exists|candidate: Seq<char>|
                {
                    &&& !#[trigger] names.contains(candidate)
                    &&& domain == lowered(candidate)
                    &&& is_id(candidate) || requested == Some(candidate)
                },
            Err(last) => {
                &&& names.contains(last)
                &&& is_id(last) || requested == Some(last)
                &&& attempts > 0 ==> is_id(last)
            },
        },
{
    let (first, draws) = choose|first: Seq<char>, draws: Seq<u32>|
        {
            &&& match requested {
                Some(name) => first == name,
                None => is_id(first),
            }
            &&& draws.len() == attempts
            &&& choice == first_free(names, #[trigger] candidates(first, draws))
        };
    let all = candidates(first, draws);
    let i = lemma_first_free_place(names, all);
    if i > 0 {
        assert(all[i] == crate::text::hex(draws[i - 1] as nat, 8));
        assert(is_id(all[i]));
    }
    assert(choice is Ok ==> !names.contains(all[i]));
}

/// The place of the candidate that decides.
proof fn lemma_first_free_place(names: Set<Seq<char>>, candidates: Seq<Seq<char>>) -> (i: int)
    requires
        candidates.len() > 0,
    ensures
        0 <= i < candidates.len(),
        match first_free(names, candidates) {
            Ok(domain) => !names.contains(candidates[i]) && domain == lowered(candidates[i]),
            Err(last) => i == candidates.len() - 1 && names.contains(candidates[i]) && last
                == candidates[i],
        },
    decreases candidates.len(),
{
    if !names.contains(candidates[0]) || candidates.len() == 1 {
        0
    } else {
        let rest = candidates.drop_first();
        let i = lemma_first_free_place(names, rest);
        assert(rest[i] == candidates[i + 1]);
        i + 1
    }
}

/// Whether a text is eight lower-case hexadecimal digits.
pub open spec fn is_drawn_name(s: Seq<char>) -> bool {
    &&& s.len() == 8
    &&& forall|i: int|
        0 <= i < s.len() ==> '0' <= (#[trigger] s[i]) <= '9' || 'a' <= s[i] <= 'f'
}

/// A client that asks for no name is given eight lower-case hexadecimal digits.
pub proof fn law_drawn_name(
    names: Set<Seq<char>>,
    attempts: nat,
    choice: Result<Seq<char>, Seq<char>>,
)
    requires
        chosen(names, None, attempts, choice),
    ensures
        choice matches Ok(domain) ==> is_drawn_name(domain),
{
    law_choice_is_a_candidate(names, None, attempts, choice);
    if let Ok(domain) = choice {
        let candidate = choose|candidate: Seq<char>|
            {
                &&& !#[trigger] names.contains(candidate)
                &&& domain == lowered(candidate)
                &&& is_id(candidate)
            };
        let n = choose|n: u32| candidate == #[trigger] crate::text::hex(n as nat, 8);
        crate::text::lemma_hex_digits(n as nat, 8);
    }
}

} // verus!
