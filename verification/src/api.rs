//! The requests by which an operator registers servers without a client.

use crate::router::Router;
use crate::table::Table;
use vstd::prelude::*;

verus! {

/// The answer to a request that was carried out.
pub const SUCCESS: &'static str = "{\"success\":true}";

/// The answer to any other request.
pub const FAILURE: &'static str = "{\"success\":false}";

/// A character inside a JSON string: quotes, backslashes and control characters
/// are written with a backslash, everything else as it is.
pub open spec fn escaped(c: char) -> Seq<char> {
    if c == '"' || c == '\\' {
        seq!['\\', c]
    } else if c >= ' ' {
        seq![c]
    } else if c == '\u{8}' {
        seq!['\\', 'b']
    } else if c == '\t' {
        seq!['\\', 't']
    } else if c == '\n' {
        seq!['\\', 'n']
    } else if c == '\u{c}' {
        seq!['\\', 'f']
    } else if c == '\r' {
        seq!['\\', 'r']
    } else {
        seq!['\\', 'u', '0', '0'] + crate::domain::lowered(crate::text::hex(c as nat, 2))
    }
}

/// The characters of a text inside a JSON string.
pub open spec fn all_escaped(s: Seq<char>) -> Seq<char>
    decreases s.len(),
{
    if s.len() == 0 {
        Seq::empty()
    } else {
        all_escaped(s.drop_last()) + escaped(s.last())
    }
}

/// A text as a JSON string.
pub open spec fn json_string(s: Seq<char>) -> Seq<char> {
    seq!['"'] + all_escaped(s) + seq!['"']
}

/// Texts as JSON strings, with commas between them.
pub open spec fn json_items(list: Seq<Seq<char>>) -> Seq<char>
    decreases list.len(),
{
    if list.len() == 0 {
        Seq::empty()
    } else if list.len() == 1 {
        json_string(list[0])
    } else {
        json_items(list.drop_last()) + seq![','] + json_string(list.last())
    }
}

/// A member of a JSON object whose value is a flag.
pub open spec fn flag_member(name: Seq<char>, flag: bool) -> Seq<char> {
    json_string(name) + seq![':'] + if flag {
        "true"@
    } else {
        "false"@
    }
}

/// A member of a JSON object whose value is a list of texts.
pub open spec fn list_member(name: Seq<char>, list: Seq<Seq<char>>) -> Seq<char> {
    json_string(name) + seq![':', '['] + json_items(list) + seq![']']
}

/// Whether one text comes before another in the order of their characters.
pub open spec fn precedes(a: Seq<char>, b: Seq<char>) -> bool
    decreases a.len(),
{
    b.len() > 0 && (a.len() == 0 || a[0] < b[0] || (a[0] == b[0] && precedes(
        a.drop_first(),
        b.drop_first(),
    )))
}

/// The text of a JSON object with a flag and a list of texts as its two members,
/// in the order of their names.
pub open spec fn json_object_text(
    flag_name: Seq<char>,
    flag: bool,
    list_name: Seq<char>,
    list: Seq<Seq<char>>,
) -> Seq<char> {
    if precedes(flag_name, list_name) {
        seq!['{'] + flag_member(flag_name, flag) + seq![','] + list_member(list_name, list)
            + seq!['}']
    } else {
        seq!['{'] + list_member(list_name, list) + seq![','] + flag_member(flag_name, flag)
            + seq!['}']
    }
}

/// The views of strings.
pub open spec fn views(list: Seq<String>) -> Seq<Seq<char>> {
    list.map_values(|s: String| s@)
}

/// `serde_json::Value::to_string` of an object that is built from its two
/// members with `serde_json::Map::insert`. It is claimed that the text is the
/// compact JSON form of the object, with the members in the order of their names
/// and no escapes but those that JSON asks for. Two members of one name would be
/// one.
#[verifier::external_body]
fn json_object(flag_name: &str, flag: bool, list_name: &str, list: Vec<String>) -> (r: String)
    requires
        flag_name@ != list_name@,
    ensures
        r@ == json_object_text(flag_name@, flag, list_name@, views(list@)),
{
    let mut members = serde_json::Map::new();
    members.insert(flag_name.to_owned(), serde_json::Value::from(flag));
    members.insert(list_name.to_owned(), serde_json::Value::from(list));
    serde_json::Value::Object(members).to_string()
}

/// Keeps the task that serves a domain. The task that served it before, if there
/// was one, is handed back; it is not to be stopped. The answer is the same
/// whether or not the domain had a route.
pub fn register<H>(tasks: &mut Table<String, H>, domain: String, task: H) -> (r: (
    Option<H>,
    &'static str,
))
    ensures
        final(tasks)@ == old(tasks)@.insert(domain@, task),
        match r.0 {
            Some(before) => old(tasks)@.contains_key(domain@) && before == old(tasks)@[domain@],
            None => !old(tasks)@.contains_key(domain@),
        },
        r.1@ == FAILURE@,
{
    (tasks.insert(domain, task), FAILURE)
}

/// Gives up the task that serves a domain. The task is handed back to be
/// stopped, and the answer says whether there was one.
pub fn unregister<H>(tasks: &mut Table<String, H>, domain: &String) -> (r: (
    Option<H>,
    &'static str,
))
    ensures
        final(tasks)@ == old(tasks)@.remove(domain@),
        match r.0 {
            Some(task) => old(tasks)@.contains_key(domain@) && task == old(tasks)@[domain@]
                && r.1@ == SUCCESS@,
            None => !old(tasks)@.contains_key(domain@) && r.1@ == FAILURE@,
        },
{
    match tasks.remove(domain) {
        Some(task) => (Some(task), SUCCESS),
        None => (None, FAILURE),
    }
}

/// The answer that lists names.
pub open spec fn list_text(names: Seq<Seq<char>>) -> Seq<char> {
    "{\"result\":["@ + json_items(names) + "],\"success\":true}"@
}

/// A text without quotes, backslashes and control characters stands in a JSON
/// string as it is.
proof fn lemma_plain(s: Seq<char>)
    requires
        forall|i: int|
            0 <= i < s.len() ==> (#[trigger] s[i]) >= ' ' && s[i] != '"' && s[i] != '\\',
    ensures
        all_escaped(s) == s,
    decreases s.len(),
{
    if s.len() > 0 {
        assert(s[s.len() - 1] >= ' ');
        lemma_plain(s.drop_last());
        assert(s.drop_last() + seq![s.last()] =~= s);
    } else {
        assert(all_escaped(s) =~= s);
    }
}

/// The answer that lists these names.
pub fn list_reply(names: Vec<String>) -> (r: String)
    ensures
        r@ == list_text(views(names@)),
        r@ == "{\"result\":["@ + json_items(views(names@)) + "],\"success\":true}"@,
{
    proof {
        reveal_strlit("success");
        reveal_strlit("result");
        reveal_strlit("true");
        reveal_strlit("{\"result\":[");
        reveal_strlit("],\"success\":true}");
        lemma_plain("success"@);
        lemma_plain("result"@);
        assert("success"@[0] == 's' && "result"@[0] == 'r');
        assert(!precedes("success"@, "result"@));
        assert(seq!['{'] + (json_string("result"@) + seq![':', '[']) =~= "{\"result\":["@);
        assert(seq![']'] + seq![','] + flag_member("success"@, true) + seq!['}']
            =~= "],\"success\":true}"@);
        assert(json_object_text("success"@, true, "result"@, views(names@)) =~= list_text(
            views(names@),
        ));
    }
    json_object("success", true, "result", names)
}

/// Whether a list holds every name of a set once and nothing else.
pub open spec fn enumerates(list: Seq<Seq<char>>, names: Set<Seq<char>>) -> bool {
    &&& list.no_duplicates()
    &&& list.to_set() == names
}

/// The answer that lists the names that have a route, in some order.
pub fn list<S>(router: &Router<String, S>) -> (r: String)
    ensures
        exists|names: Seq<Seq<char>>| #[trigger]
            enumerates(names, router@.dom()) && r@ == list_text(names),
        exists|names: Seq<Seq<char>>| #[trigger]
            enumerates(names, router@.dom()) && names.len() == router@.dom().len() && (forall|
                name: Seq<char>,
            | #[trigger] names.contains(name) <==> router@.contains_key(name)) && r@
                == "{\"result\":["@ + json_items(names) + "],\"success\":true}"@,
{
    let names: Vec<String> = router.names();
    let ghost list = views(names@);
    proof {
        assert forall|i: int, j: int| 0 <= i < list.len() && 0 <= j < list.len() && i
            != j implies list[i] != list[j] by {
            if i < j {
                assert(names@[i]@ != names@[j]@);
            } else {
                assert(names@[j]@ != names@[i]@);
            }
        }
        assert forall|name: Seq<char>| list.to_set().contains(name) <==> router@.dom().contains(
            name,
        ) by {
            if list.to_set().contains(name) {
                let i = choose|i: int| 0 <= i < list.len() && list[i] == name;
                assert(router@.contains_key(names@[i]@));
            }
            if router@.dom().contains(name) {
                assert(router@.contains_key(name));
                let i = choose|i: int| 0 <= i < names@.len() && (#[trigger] names@[i])@ == name;
                assert(list[i] == name);
            }
        }
        assert(list.to_set() =~= router@.dom());
        assert(enumerates(list, router@.dom()));
        list.unique_seq_to_set();
        assert forall|name: Seq<char>| #[trigger] list.contains(name) <==> router@.contains_key(
            name,
        ) by {
            assert(list.to_set().contains(name) <==> list.contains(name));
        }
    }
    list_reply(names)
}

/// A domain that is registered and then unregistered leaves no task behind, and
/// the second answer is a success.
pub proof fn law_unregister_after_register<H>(tasks: Map<Seq<char>, H>, domain: Seq<char>, task: H)
    ensures
        tasks.insert(domain, task).contains_key(domain),
        tasks.insert(domain, task)[domain] == task,
        tasks.insert(domain, task).remove(domain) == tasks.remove(domain),
        !tasks.remove(domain).contains_key(domain),
{
    assert(tasks.insert(domain, task).remove(domain) =~= tasks.remove(domain));
}

} // verus!
