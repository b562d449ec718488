use rchtmltopdf::file_access::{Policy, NOT_ENABLED, REMOTE};
use rchtmltopdf::intercept::{
    asked, challenge_command, hold, merged_headers, remember, request_command, served_body, Answer,
    Asked, ChallengeAnswer, Charset, Credentials, Held, Interception, Refusal, Rules,
};
use rchtmltopdf::message::Event;
use rchtmltopdf::network::NetworkError;
use rchtmltopdf::plan::Command;
use rchtmltopdf::settings::Pair;
use serde_json::Value;

fn pair(name: &str, value: &str) -> Pair {
    Pair {
        name: name.into(),
        value: value.into(),
    }
}

#[test]
fn the_same_refusal_is_only_worth_saying_once() {
    let mut record = Vec::new();
    remember(&mut record, "file:///a.css", "no");
    remember(&mut record, "file:///a.css", "no");
    remember(&mut record, "file:///b.css", "no");
    let held = record;
    assert_eq!(held.len(), 2);
    assert_eq!(held[0].url, "file:///a.css");
}

#[test]
fn a_refusal_reads_as_a_sentence() {
    let refusal = Refusal {
        url: "file:///etc/hostname".into(),
        reason: "local file access is off by default",
    };
    assert_eq!(
        refusal.message(),
        "file:///etc/hostname was not loaded: local file access is off by default"
    );
    assert_eq!(refusal.error(), NetworkError::ContentAccessDenied);
}

fn paused(params: &str) -> Event {
    Event {
        method: "Fetch.requestPaused".into(),
        params: params.into(),
        session_id: None,
    }
}

fn headers_of(params: &str) -> Vec<Pair> {
    match asked(&paused(params)) {
        Asked::Request { headers, .. } => headers,
        other => panic!("expected a request, got {other:?}"),
    }
}

#[test]
fn the_browsers_own_headers_survive_a_header_being_added() {
    let existing = headers_of(
        r#"{"requestId":"R","request":{"headers":{"Accept":"text/html","User-Agent":"Chrome"}}}"#,
    );
    let merged = merged_headers(&existing, &vec![pair("X-Tenant", "42")]);
    let names: Vec<&str> = merged.iter().map(|header| header.name.as_str()).collect();
    assert!(names.contains(&"Accept"), "{names:?}");
    assert!(names.contains(&"User-Agent"), "{names:?}");
    assert!(names.contains(&"X-Tenant"), "{names:?}");
}

#[test]
fn a_named_header_replaces_the_browsers_own() {
    let existing =
        headers_of(r#"{"requestId":"R","request":{"headers":{"accept":"text/html"}}}"#);
    let merged = merged_headers(&existing, &vec![pair("Accept", "application/pdf")]);
    assert_eq!(merged.len(), 1, "{merged:?}");
    assert_eq!(merged[0].value, "application/pdf");
}

fn open() -> Rules {
    Rules {
        files: Policy {
            enabled: true,
            allowed: Vec::new(),
        }
        .about("file:///nowhere.html", Vec::new(), None),
        ..Rules::default()
    }
}

#[test]
fn nothing_is_intercepted_when_nothing_needs_a_say() {
    assert!(!open().needed());
    assert!(Rules {
        document_headers: vec![pair("X-A", "1")],
        ..open()
    }
    .needed());
    assert!(Rules {
        credentials: Some(Credentials::default()),
        ..open()
    }
    .needed());
    assert!(Rules {
        serve_as: Some(Charset {
            url: "file:///nowhere.html".into(),
            path: "/nowhere.html".into(),
            name: "UTF-8".into(),
        }),
        ..open()
    }
    .needed());
    assert!(Rules::default().needed());
}

fn credentials() -> Option<Credentials> {
    Some(Credentials {
        username: "bob".into(),
        password: "hunter2".into(),
    })
}

#[test]
fn credentials_are_offered_once_per_request() {
    let mut seen = Interception::new();
    let offered = ChallengeAnswer::Provide {
        username: "bob".into(),
        password: "hunter2".into(),
    };
    assert_eq!(seen.answer_challenge(&credentials(), "R1"), offered, "first ask");
    assert!(!seen.credentials_rejected());
    assert_eq!(
        seen.answer_challenge(&credentials(), "R1"),
        ChallengeAnswer::Cancel,
        "second ask"
    );
    assert!(seen.credentials_rejected());
    assert_eq!(seen.answer_challenge(&credentials(), "R2"), offered, "another request");
}

#[test]
fn a_challenge_without_credentials_is_cancelled_and_rejects_nothing() {
    let mut seen = Interception::new();
    assert_eq!(seen.answer_challenge(&None, "R1"), ChallengeAnswer::Cancel);
    assert!(!seen.credentials_rejected());
}

fn held(url: &str, resolved: Option<&str>) -> Held {
    Held {
        url: url.into(),
        headers: vec![pair("Accept", "text/html")],
        resolved: resolved.map(str::to_string),
    }
}

#[test]
fn a_refused_file_is_denied_and_put_on_record() {
    let rules = Rules::default();
    let mut seen = Interception::new();
    let request = held("file:///etc/hostname", Some("/etc/hostname"));
    assert_eq!(seen.answer_request(&rules, &None, &request), Answer::Deny);
    assert_eq!(seen.answer_request(&rules, &None, &request), Answer::Deny);
    assert_eq!(seen.refused().len(), 1);
    assert_eq!(seen.refused()[0].reason, REMOTE);
    let local = Rules {
        files: Policy::default().about("file:///a.html", Vec::new(), Some("/a.html".into())),
        ..Rules::default()
    };
    let mut seen = Interception::new();
    assert_eq!(seen.answer_request(&local, &None, &request), Answer::Deny);
    assert_eq!(seen.refused()[0].reason, NOT_ENABLED);
}

#[test]
fn only_the_document_carries_the_headers_of_the_command_line() {
    let rules = Rules {
        document: "https://example.com/".into(),
        document_headers: vec![pair("X-Tenant", "42")],
        ..Rules::default()
    };
    let mut seen = Interception::new();
    match seen.answer_request(&rules, &None, &held("https://example.com/", None)) {
        Answer::Continue { headers: Some(headers) } => {
            assert_eq!(headers, vec![pair("Accept", "text/html"), pair("X-Tenant", "42")]);
        }
        other => panic!("{other:?}"),
    }
    assert_eq!(
        seen.answer_request(&rules, &None, &held("https://example.com/a.css", None)),
        Answer::Continue { headers: None }
    );
}

#[test]
fn a_document_in_a_character_set_of_its_own_is_served() {
    let rules = Rules {
        document: "file:///a.html".into(),
        serve_as: Some(Charset {
            url: "file:///a.html".into(),
            path: "/a.html".into(),
            name: "windows-1252".into(),
        }),
        ..open()
    };
    let served = served_body(&rules, &Some(b"hello".to_vec()));
    assert_eq!(served.as_deref(), Some("aGVsbG8="));
    let mut seen = Interception::new();
    assert_eq!(
        seen.answer_request(&rules, &served, &held("file:///a.html", None)),
        Answer::Serve {
            content_type: "text/html; charset=windows-1252".into(),
            body: "aGVsbG8=".into(),
        }
    );
    assert_eq!(served_body(&open(), &Some(b"hello".to_vec())), None);
    assert_eq!(served_body(&rules, &None), None);
}

#[test]
fn an_event_is_read_for_what_it_asks() {
    let event = paused(r#"{"requestId":"R7","request":{"url":"https://x/","headers":{"A":"1"}}}"#);
    assert_eq!(
        asked(&event),
        Asked::Request {
            id: "R7".into(),
            url: "https://x/".into(),
            headers: vec![pair("A", "1")],
        }
    );
    assert_eq!(asked(&paused("{}")), Asked::Nothing);
    let challenge = Event {
        method: "Fetch.authRequired".into(),
        params: r#"{"requestId":"R8"}"#.into(),
        session_id: None,
    };
    assert_eq!(asked(&challenge), Asked::Challenge { id: "R8".into() });
}

fn params(command: &Command) -> Value {
    serde_json::from_str(&command.params).unwrap()
}

#[test]
fn challenges_are_held_only_where_there_are_credentials() {
    assert_eq!(hold(&open()).method, "Fetch.enable");
    assert_eq!(hold(&open()).params, r#"{"handleAuthRequests":false}"#);
    let rules = Rules {
        credentials: credentials(),
        ..open()
    };
    assert_eq!(hold(&rules).params, r#"{"handleAuthRequests":true}"#);
}

#[test]
fn an_answer_is_sent_as_the_command_for_it() {
    let served = request_command(
        "r\"1",
        &Answer::Serve {
            content_type: "text/html; charset=x".into(),
            body: "PGI+".into(),
        },
    );
    assert_eq!(served.method, "Fetch.fulfillRequest");
    let value = params(&served);
    assert_eq!(value["requestId"], "r\"1");
    assert_eq!(value["responseCode"], 200);
    assert_eq!(value["responseHeaders"][0]["name"], "Content-Type");
    assert_eq!(value["responseHeaders"][0]["value"], "text/html; charset=x");
    assert_eq!(value["body"], "PGI+");

    let plain = request_command("2", &Answer::Continue { headers: None });
    assert_eq!(plain.method, "Fetch.continueRequest");
    assert_eq!(plain.params, r#"{"requestId":"2"}"#);

    let changed = request_command(
        "3",
        &Answer::Continue {
            headers: Some(vec![pair("X-A", "1"), pair("X-B", "\n")]),
        },
    );
    assert_eq!(changed.method, "Fetch.continueRequest");
    let value = params(&changed);
    assert_eq!(value["requestId"], "3");
    assert_eq!(value["headers"].as_array().unwrap().len(), 2);
    assert_eq!(value["headers"][0]["name"], "X-A");
    assert_eq!(value["headers"][1]["value"], "\n");

    let denied = request_command("4", &Answer::Deny);
    assert_eq!(denied.method, "Fetch.failRequest");
    assert_eq!(
        denied.params,
        r#"{"requestId":"4","errorReason":"AccessDenied"}"#
    );
}

#[test]
fn a_challenge_is_answered_with_the_credentials_or_not_at_all() {
    let given = challenge_command(
        "7",
        &ChallengeAnswer::Provide {
            username: "me".into(),
            password: "\"x\"".into(),
        },
    );
    assert_eq!(given.method, "Fetch.continueWithAuth");
    let value = params(&given);
    assert_eq!(value["requestId"], "7");
    assert_eq!(value["authChallengeResponse"]["response"], "ProvideCredentials");
    assert_eq!(value["authChallengeResponse"]["username"], "me");
    assert_eq!(value["authChallengeResponse"]["password"], "\"x\"");
    let none = challenge_command("8", &ChallengeAnswer::Cancel);
    assert_eq!(
        none.params,
        r#"{"requestId":"8","authChallengeResponse":{"response":"CancelAuth"}}"#
    );
}
