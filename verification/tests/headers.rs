use base64ct::{Base64, Encoding};
use grimoire::headers::{
    anonymize_value, blank_cookie_value, is_set_cookie_name, json_list_text, quoted,
    AnonymizedHttpHeaders, HeaderEntry, WireHeader,
};
use itertools::Itertools;

fn wire(name: &str, value: &str) -> WireHeader {
    WireHeader { name: name.to_string(), value: value.as_bytes().to_vec() }
}

fn entries(headers: &AnonymizedHttpHeaders) -> Vec<(String, Vec<String>)> {
    headers.0.iter().map(|entry| (entry.name.clone(), entry.values.clone())).collect()
}

#[test]
fn session_cookie_value_is_blanked() {
    let headers =
        AnonymizedHttpHeaders::from_wire(&vec![wire("set-cookie", "session=abc123; Path=/")]);
    assert_eq!(
        entries(&headers),
        vec![("set-cookie".to_string(), vec!["session=; Path=/".to_string()])]
    );
}

#[test]
fn session_cookie_round_trip_through_the_printed_form() {
    let headers =
        AnonymizedHttpHeaders::from_wire(&vec![wire("Set-Cookie", "session=abc123; Path=/")]);
    let blob = headers.to_text();
    let json = Base64::decode_vec(&blob).unwrap();
    let decoded: serde_json::Value = serde_json::from_slice(&json).unwrap();
    let values = decoded.get("Set-Cookie").unwrap().as_array().unwrap();
    assert_eq!(values.len(), 1);
    let value = values[0].as_str().unwrap();
    assert_eq!(value, "session=; Path=/");
    assert!(value.starts_with("session=;"));
    assert!(value.contains("Path=/"));
    assert!(!value.contains("abc123"));
}

#[test]
fn cookie_attributes_are_kept() {
    let value =
        anonymize_value("set-cookie", b"id=42; Secure; HttpOnly; Domain=example.com; Max-Age=60");
    assert_eq!(value, "id=; HttpOnly; Secure; Domain=example.com; Max-Age=60");
}

#[test]
fn cookie_attributes_come_out_as_the_cookie_is_rendered() {
    let value = anonymize_value("set-cookie", b"  id = 42 ;path=/a;  SameSite=lax; unknown=1");
    assert_eq!(value, "id=; SameSite=Lax; Path=/a");
}

#[test]
fn a_cookie_without_a_value_is_kept_as_it_is_rendered() {
    assert_eq!(anonymize_value("set-cookie", b"flag="), "flag=");
    assert_eq!(anonymize_value("set-cookie", b"flag=; Secure"), "flag=; Secure");
}

#[test]
fn a_value_that_looks_like_the_name_is_cut_all_the_same() {
    assert_eq!(anonymize_value("set-cookie", b"a=a=a; Path=/"), "a=; Path=/");
    assert_eq!(
        anonymize_value("set-cookie", "k=\u{e9}t\u{e9}; HttpOnly".as_bytes()),
        "k=; HttpOnly"
    );
}

#[test]
fn cutting_the_value_out_of_a_cookie() {
    assert_eq!(blank_cookie_value("session", "abc123", "session=abc123; Path=/"), "session=; Path=/");
    assert_eq!(blank_cookie_value("a", "", "a="), "a=");
    assert_eq!(blank_cookie_value("a", "b", "a=b"), "a=");
    assert_eq!(blank_cookie_value("né", "vé", "né=vé; Secure"), "né=; Secure");
    // A text too short to hold name and value gives the name alone.
    assert_eq!(blank_cookie_value("name", "value", "short"), "name=");
    assert_eq!(blank_cookie_value("name", "value", ""), "name=");
    assert_eq!(blank_cookie_value("", "", ""), "=");
}

#[test]
fn cookie_name_is_found_in_any_case() {
    assert!(is_set_cookie_name("set-cookie"));
    assert!(is_set_cookie_name("Set-Cookie"));
    assert!(is_set_cookie_name("SET-COOKIE"));
    assert!(!is_set_cookie_name("cookie"));
    assert!(!is_set_cookie_name("set-cookies"));
    assert!(!is_set_cookie_name("set_cookie"));
    assert!(!is_set_cookie_name("set-cookiE2"));
    assert!(!is_set_cookie_name("sét-cookie"));
    assert!(!is_set_cookie_name(""));
    assert!(!is_set_cookie_name("SET-COOKI\u{45}\u{301}"));
    assert!(!is_set_cookie_name("3ET-COOKIE"));
}

#[test]
fn other_headers_are_kept_as_they_are() {
    assert_eq!(anonymize_value("server", b"nginx/1.25"), "nginx/1.25");
    assert_eq!(anonymize_value("cookie", b"session=abc123"), "session=abc123");
}

#[test]
fn bytes_that_are_not_utf8_are_replaced() {
    assert_eq!(anonymize_value("server", &[0x61, 0xff, 0x62]), "a\u{fffd}b");
}

#[test]
fn a_cookie_that_cannot_be_read_is_blanked_whole() {
    let headers = AnonymizedHttpHeaders::from_wire(&vec![
        wire("server", "nginx"),
        wire("set-cookie", "a=b"),
        wire("set-cookie", "no pair here"),
        wire("set-cookie", "=nameless"),
    ]);
    assert_eq!(
        entries(&headers),
        vec![
            ("server".to_string(), vec!["nginx".to_string()]),
            ("set-cookie".to_string(), vec!["a=".to_string(), "".to_string(), "".to_string()]),
        ]
    );
    assert_eq!(anonymize_value("set-cookie", b"no pair here"), "");
    assert_eq!(anonymize_value("set-cookie", b"=nameless"), "");
    assert_eq!(anonymize_value("Set-Cookie", b"secret"), "");
    assert_eq!(headers.to_json(), r#"{"server":["nginx"],"set-cookie":["a=","",""]}"#);
}

#[test]
fn values_are_grouped_by_name_in_wire_order() {
    let headers = AnonymizedHttpHeaders::from_wire(&vec![
        wire("server", "nginx"),
        wire("set-cookie", "a=1"),
        wire("vary", "accept"),
        wire("set-cookie", "b=2; Path=/x"),
        wire("vary", "origin"),
    ]);
    assert_eq!(
        entries(&headers),
        vec![
            ("server".to_string(), vec!["nginx".to_string()]),
            ("set-cookie".to_string(), vec!["a=".to_string(), "b=; Path=/x".to_string()]),
            ("vary".to_string(), vec!["accept".to_string(), "origin".to_string()]),
        ]
    );
}

#[test]
fn grouping_agrees_with_chunks_of_neighbours() {
    let pairs = [
        ("date", "today"),
        ("set-cookie", "a=1"),
        ("set-cookie", "b=2"),
        ("set-cookie", "c=3; Secure"),
        ("vary", "accept"),
        ("vary", "origin"),
        ("server", "nginx"),
    ];
    let headers =
        AnonymizedHttpHeaders::from_wire(&pairs.iter().map(|(n, v)| wire(n, v)).collect());
    let chunks = pairs.iter().chunk_by(|(name, _)| *name);
    let expected: Vec<(String, Vec<String>)> = chunks
        .into_iter()
        .map(|(name, group)| {
            let values = group
                .map(|(_, value)| anonymize_value(name, value.as_bytes()))
                .collect();
            (name.to_string(), values)
        })
        .collect();
    assert_eq!(entries(&headers), expected);
}

#[test]
fn no_headers_give_an_empty_set() {
    let headers = AnonymizedHttpHeaders::from_wire(&vec![]);
    assert!(headers.0.is_empty());
    assert_eq!(headers.to_json(), "{}");
    assert_eq!(headers.to_text(), "e30=");
}

#[test]
fn position_finds_the_entry_of_a_name() {
    let headers =
        AnonymizedHttpHeaders::from_wire(&vec![wire("a", "1"), wire("b", "2"), wire("a", "3")]);
    assert_eq!(headers.position("a"), Some(0));
    assert_eq!(headers.position("b"), Some(1));
    assert_eq!(headers.position("c"), None);
}

#[test]
fn json_is_compact_and_escaped() {
    let headers = AnonymizedHttpHeaders(vec![
        HeaderEntry { name: "etag".to_string(), values: vec!["\"abc\"".to_string()] },
        HeaderEntry { name: "vary".to_string(), values: vec!["a".to_string(), "b\\c".to_string()] },
        HeaderEntry { name: "x-empty".to_string(), values: vec![] },
    ]);
    assert_eq!(
        headers.to_json(),
        r#"{"etag":["\"abc\""],"vary":["a","b\\c"],"x-empty":[]}"#
    );
}

#[test]
fn json_agrees_with_the_serializer() {
    let headers = AnonymizedHttpHeaders::from_wire(&vec![
        wire("content-type", "text/html; charset=\"utf-8\""),
        wire("set-cookie", "sid=1; Path=/"),
        wire("set-cookie", "lang=en"),
        wire("x-odd", "tab\there \u{1f600} \u{7f}"),
    ]);
    let mut map = serde_json::Map::new();
    for (name, values) in entries(&headers) {
        let list = values.into_iter().map(serde_json::Value::String).collect();
        map.insert(name, serde_json::Value::Array(list));
    }
    let expected = serde_json::to_string(&serde_json::Value::Object(map)).unwrap();
    assert_eq!(headers.to_json(), expected);
}

#[test]
fn quoting_and_lists() {
    assert_eq!(quoted("plain"), "\"plain\"");
    assert_eq!(quoted("a\"b"), "\"a\\\"b\"");
    assert_eq!(quoted("line\nbreak"), "\"line\\nbreak\"");
    assert_eq!(json_list_text(&vec![]), "[]");
    assert_eq!(json_list_text(&vec!["x".to_string()]), "[\"x\"]");
    assert_eq!(json_list_text(&vec!["x".to_string(), "y".to_string()]), "[\"x\",\"y\"]");
}

#[test]
fn printed_form_is_base64_of_the_json() {
    let headers = AnonymizedHttpHeaders(vec![HeaderEntry {
        name: "a".to_string(),
        values: vec!["b".to_string()],
    }]);
    assert_eq!(headers.to_json(), r#"{"a":["b"]}"#);
    assert_eq!(headers.to_text(), "eyJhIjpbImIiXX0=");
}

#[test]
fn printed_form_is_three_dots_when_the_buffer_is_too_small() {
    // {"a":["xxx"]} holds 10 bytes around the value.
    let fits = AnonymizedHttpHeaders(vec![HeaderEntry {
        name: "a".to_string(),
        values: vec!["x".repeat(49152 - 10)],
    }]);
    assert_eq!(fits.to_json().len(), 49152);
    let text = fits.to_text();
    assert_eq!(text.len(), 65536);
    assert_ne!(text, "...");

    let too_large = AnonymizedHttpHeaders(vec![HeaderEntry {
        name: "a".to_string(),
        values: vec!["x".repeat(49152 - 9)],
    }]);
    assert_eq!(too_large.to_json().len(), 49153);
    assert_eq!(too_large.to_text(), "...");
}
