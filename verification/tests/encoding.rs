use rchtmltopdf::encoding::{encode_body, js_string, percent_decode, push_url_text};
use rchtmltopdf::intercept::{asked, Asked};
use rchtmltopdf::message::Event;
use rchtmltopdf::settings::Pair;

#[test]
fn a_script_string_escapes_what_json_cannot_hold() {
    assert_eq!(js_string("plain é"), "\"plain é\"");
    assert_eq!(
        js_string("\"\\\u{8}\t\n\u{c}\r\u{0}\u{1f}/"),
        "\"\\\"\\\\\\b\\t\\n\\f\\r\\u0000\\u001f/\""
    );
    assert_eq!(js_string(""), "\"\"");
    assert_eq!(js_string("\u{7f}"), "\"\u{7f}\"");
}

#[test]
fn a_body_is_written_in_the_standard_alphabet() {
    assert_eq!(encode_body(&b"hello".to_vec()), "aGVsbG8=");
    assert_eq!(encode_body(&vec![0xfb, 0xff]), "+/8=");
    assert_eq!(encode_body(&vec![]), "");
}

#[test]
fn percent_signs_that_spell_no_byte_stay() {
    assert_eq!(percent_decode("a%20b"), "a b");
    assert_eq!(percent_decode("100%"), "100%");
    assert_eq!(percent_decode("%2"), "%2");
    assert_eq!(percent_decode("%C3%A9"), "é");
    assert_eq!(percent_decode("%zz"), "%zz");
    let mut url = String::new();
    push_url_text(&mut url, "/a b", true);
    assert_eq!(url, "/a%20b");
    let mut query = String::new();
    push_url_text(&mut query, "/a b", false);
    assert_eq!(query, "%2Fa%20b");
}

#[test]
fn a_held_request_is_read_with_its_headers() {
    let event = |method: &str, params: &str| Event {
        method: method.into(),
        params: params.into(),
        session_id: None,
    };
    let request = event(
        "Fetch.requestPaused",
        r#"{"requestId":"r1","request":{"url":"http://x/","headers":{"A":"1","B":2}}}"#,
    );
    let pair = |name: &str, value: &str| Pair {
        name: name.into(),
        value: value.into(),
    };
    assert_eq!(
        asked(&request),
        Asked::Request {
            id: "r1".into(),
            url: "http://x/".into(),
            headers: vec![pair("A", "1"), pair("B", "")],
        }
    );
    let bare = event("Fetch.requestPaused", r#"{"requestId":"r2"}"#);
    assert_eq!(
        asked(&bare),
        Asked::Request {
            id: "r2".into(),
            url: String::new(),
            headers: vec![],
        }
    );
    assert_eq!(
        asked(&event("Fetch.authRequired", r#"{"requestId":"r3"}"#)),
        Asked::Challenge { id: "r3".into() }
    );
    assert_eq!(asked(&event("Fetch.requestPaused", "{}")), Asked::Nothing);
    assert_eq!(asked(&event("Fetch.requestPaused", "not json")), Asked::Nothing);
}

#[test]
fn what_a_query_carries_is_read_back() {
    for text in ["", "a b&c=d#e?f", "100%", "%41", "é/ü 😀", "+x~._-"] {
        let mut query = String::new();
        push_url_text(&mut query, text, false);
        assert!(query
            .chars()
            .all(|c| c.is_ascii_alphanumeric() || "-._~%".contains(c)));
        assert_eq!(percent_decode(&query), text);
    }
    let mut query = String::new();
    push_url_text(&mut query, "a/\u{ff}", false);
    assert_eq!(query, "a%2F%C3%BF");
}
