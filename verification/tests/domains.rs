use minerp::domain::{choose_among, choose_domain, free_domain, id_text, random_id, subdomain};
use minerp::router::Router;
use minerp::text::{decimal_text, hex_text, parse_port, strip_suffix};

fn router(names: &[&str]) -> Router<String, ()> {
    let mut r = Router::new();
    for name in names {
        r.register(name.to_string(), ());
    }
    r
}

#[test]
fn id_texts() {
    assert_eq!(id_text(0), "00000000");
    assert_eq!(id_text(0xdeadbeef), "DEADBEEF");
    assert_eq!(id_text(0x1a), "0000001A");
    assert_eq!(id_text(u32::MAX), format!("{:08X}", u32::MAX));
    assert_eq!(hex_text(0x123, 2), "23");
}

#[test]
fn random_ids_are_ids() {
    let id = random_id();
    assert_eq!(id.len(), 8);
    let n = u32::from_str_radix(&id, 16).unwrap();
    assert_eq!(id_text(n), id);
    let ids: Vec<String> = (0..8).map(|_| random_id()).collect();
    assert!(ids.iter().any(|other| *other != ids[0]));
}

#[test]
fn free_request_is_granted_in_lower_case() {
    let r = router(&["taken"]);
    assert_eq!(choose_domain(&r, Some("MyServer".to_owned()), 0), Ok("myserver".to_owned()));
    assert_eq!(choose_domain(&r, Some("\u{c4}\u{d6}".to_owned()), 0), Ok("\u{e4}\u{f6}".to_owned()));
    assert_eq!(free_domain(&r, &"MyServer".to_owned()), Some("myserver".to_owned()));
    assert_eq!(free_domain(&r, &"taken".to_owned()), None);
}

#[test]
fn request_is_compared_before_it_is_lowered() {
    let r = router(&["taken"]);
    assert_eq!(choose_domain(&r, Some("TAKEN".to_owned()), 0), Ok("taken".to_owned()));
}

#[test]
fn taken_request_leads_to_an_identifier() {
    let r = router(&["taken"]);
    let domain = choose_domain(&r, Some("taken".to_owned()), 100).unwrap();
    assert_eq!(domain.len(), 8);
    assert!(domain.chars().all(|c| c.is_ascii_hexdigit() && !c.is_ascii_uppercase()));
    assert_eq!(choose_domain(&r, Some("taken".to_owned()), 0), Err("taken".to_owned()));
}

#[test]
fn no_request_leads_to_an_identifier() {
    let r = router(&[]);
    let domain = choose_domain(&r, None, 0).unwrap();
    assert_eq!(domain.len(), 8);
    assert!(u32::from_str_radix(&domain, 16).is_ok());
}

#[test]
fn lowercase_name_without_a_route_stays_free() {
    let r = router(&["abc"]);
    let domain = free_domain(&r, &"abd".to_owned()).unwrap();
    assert!(!r.has_route(&domain));
}

#[test]
fn subdomains() {
    assert_eq!(subdomain("abc.mc.example", "mc.example"), Some("abc".to_owned()));
    assert_eq!(subdomain("a.b.mc.example", "mc.example"), Some("a.b".to_owned()));
    assert_eq!(subdomain(".mc.example", "mc.example"), Some(String::new()));
    assert_eq!(subdomain("mc.example", "mc.example"), None);
    assert_eq!(subdomain("abc.other", "mc.example"), None);
    assert_eq!(subdomain("abcmc.example", "mc.example"), None);
    assert_eq!(subdomain("", "mc.example"), None);
}

#[test]
fn suffixes() {
    assert_eq!(strip_suffix("h\u{e9}\u{20ac}", "\u{20ac}"), Some("h\u{e9}".to_owned()));
    assert_eq!(strip_suffix("abc", ""), Some("abc".to_owned()));
    assert_eq!(strip_suffix("abc", "abc"), Some(String::new()));
    assert_eq!(strip_suffix("abc", "xabc"), None);
    assert_eq!(strip_suffix("abc", "ab"), None);
}

#[test]
fn ports_from_text() {
    assert_eq!(parse_port("25565"), Some(25565));
    assert_eq!(parse_port("65535"), Some(65535));
    assert_eq!(parse_port("65536"), None);
    assert_eq!(parse_port("99999999999999999999"), None);
    assert_eq!(parse_port("000000000080"), Some(80));
    assert_eq!(parse_port("+80"), Some(80));
    assert_eq!(parse_port("0"), Some(0));
    for text in ["", "+", "-1", "-0", "++1", "1+", " 1", "1 ", "a", "1a", "\u{0661}"] {
        assert_eq!(parse_port(text), None);
    }
}

#[test]
fn ports_agree_with_the_standard_library() {
    for text in ["25565", "65536", "+0", "00", "-5", "", "+", "1_0", "0x10", "655360", "12 "] {
        assert_eq!(parse_port(text), text.parse::<u16>().ok());
    }
}

#[test]
fn port_round_trip() {
    for port in [0, 9, 10, 99, 100, 25565, 65535] {
        assert_eq!(decimal_text(port), port.to_string());
        assert_eq!(parse_port(&decimal_text(port)), Some(port));
    }
}

#[test]
fn candidates_are_tried_in_turn() {
    let r = router(&["want", "0000000A", "0000000B"]);
    let want = || "want".to_owned();
    assert_eq!(choose_among(&r, "Free".to_owned(), &[10]), Ok("free".to_owned()));
    assert_eq!(choose_among(&r, want(), &[]), Err("want".to_owned()));
    assert_eq!(choose_among(&r, want(), &[10]), Err("0000000A".to_owned()));
    assert_eq!(choose_among(&r, want(), &[10, 11]), Err("0000000B".to_owned()));
    assert_eq!(choose_among(&r, want(), &[10, 0xABCDEF, 11]), Ok("00abcdef".to_owned()));
    assert_eq!(choose_among(&r, want(), &[12, 13]), Ok("0000000c".to_owned()));
}

#[test]
fn drawn_name_may_meet_a_lower_case_route() {
    let r = router(&["0000000a"]);
    assert_eq!(choose_among(&r, "0000000a".to_owned(), &[10]), Ok("0000000a".to_owned()));
}

#[test]
fn lower_case_forms() {
    let r = router(&[]);
    for (name, lower) in [("AZaz09-_@[", "azaz09-_@["), ("", ""), ("\u{130}", "i\u{307}")] {
        assert_eq!(free_domain(&r, &name.to_owned()), Some(lower.to_owned()));
    }
}
