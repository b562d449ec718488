use rchtmltopdf::client::{attached_session, Connection, Dispatch, Ended, Reply, Subscriber};
use rchtmltopdf::error::Error;
use rchtmltopdf::framing::{frame, Framed};
use rchtmltopdf::message::{Command, Event, Incoming, ProtocolError, SessionId, WireError};
use serde_json::Value;

fn collect(input: &[u8]) -> Vec<String> {
    let mut framed = Framed::new();
    framed.feed(input);
    let mut out = Vec::new();
    while let Some(message) = framed.next_message().unwrap() {
        out.push(String::from_utf8(message).unwrap());
    }
    out
}

#[test]
fn splits_on_nul_not_newline() {
    let out = collect(b"{\"a\":1}\0{\"b\":\n2}\0");
    assert_eq!(out, vec!["{\"a\":1}", "{\"b\":\n2}"]);
}

#[test]
fn a_message_split_across_reads_is_reassembled() {
    let mut framed = Framed::new();
    for chunk in b"{\"method\":\"Page.loadEventFired\"}\0".chunks(8) {
        assert!(framed.next_message().unwrap().is_none());
        framed.feed(chunk);
    }
    let message = framed.next_message().unwrap().unwrap();
    assert_eq!(
        String::from_utf8(message).unwrap(),
        "{\"method\":\"Page.loadEventFired\"}"
    );
}

#[test]
fn end_of_stream_returns_none() {
    assert!(collect(b"").is_empty());
}

#[test]
fn a_half_written_message_at_end_of_stream_is_dropped() {
    let out = collect(b"{\"a\":1}\0{\"incomp");
    assert_eq!(out, vec!["{\"a\":1}"]);
}

#[test]
fn empty_messages_are_skipped() {
    let out = collect(b"\0\0{\"a\":1}\0\0");
    assert_eq!(out, vec!["{\"a\":1}"]);
}

#[test]
fn an_endless_message_hits_the_limit_instead_of_eating_memory() {
    let flood = vec![b'x'; 4096];
    let mut framed = Framed::with_limit(1024);
    framed.feed(&flood);
    match framed.next_message() {
        Err(error) => assert_eq!(error.limit, 1024),
        other => panic!("expected too large a message, got {other:?}"),
    }
}

#[test]
fn framing_appends_the_terminator() {
    assert_eq!(frame(b"{}"), b"{}\0");
}

#[test]
fn framing_round_trips() {
    let mut stream = Vec::new();
    stream.extend_from_slice(&frame(br#"{"id":1}"#));
    stream.extend_from_slice(&frame(br#"{"id":2}"#));
    let out = collect(&stream);
    assert_eq!(out, vec![r#"{"id":1}"#, r#"{"id":2}"#]);
}

#[test]
fn a_command_without_params_or_session_stays_minimal() {
    let command = Command {
        id: 1,
        method: "Page.enable".into(),
        params: None,
        session_id: None,
    };
    assert_eq!(command.encode(), r#"{"id":1,"method":"Page.enable"}"#);
    assert_eq!(
        Command::new(1, "Page.enable", "null", None).encode(),
        r#"{"id":1,"method":"Page.enable"}"#
    );
}

#[test]
fn a_session_id_is_a_top_level_field_not_an_envelope() {
    let command = Command {
        id: 7,
        method: "Page.navigate".into(),
        params: Some(r#"{ "url": "https://example.com" }"#.into()),
        session_id: Some(SessionId::new("ABC123")),
    };
    let encoded: Value = serde_json::from_str(&command.encode()).unwrap();
    assert_eq!(encoded["sessionId"], "ABC123");
    assert_eq!(encoded["method"], "Page.navigate");
    assert_eq!(encoded["params"]["url"], "https://example.com");
}

#[test]
fn event_domain_is_the_half_before_the_dot() {
    let event = Event {
        method: "Network.requestWillBeSent".into(),
        params: "{}".into(),
        session_id: None,
    };
    assert_eq!(event.domain(), "Network");
    let bare = Event {
        method: "Bare".into(),
        params: "{}".into(),
        session_id: None,
    };
    assert_eq!(bare.domain(), "Bare");
}

fn reply(id: u64, result: &str) -> Incoming {
    Incoming {
        id: Some(id),
        method: None,
        params: None,
        result: Some(result.into()),
        error: None,
        session_id: None,
    }
}

fn reported(method: &str, session: Option<&str>) -> Incoming {
    Incoming {
        id: None,
        method: Some(method.into()),
        params: Some("{}".into()),
        result: None,
        error: None,
        session_id: session.map(SessionId::new),
    }
}

#[test]
fn replies_are_matched_by_id_not_by_order() {
    let mut connection = Connection::new();
    let first = connection.begin().unwrap();
    let second = connection.begin().unwrap();
    assert_ne!(first, second);
    match connection.dispatch(reply(second, "{\"b\":2}")) {
        Dispatch::Answer { id, reply: Reply::Result(result) } => {
            assert_eq!((id, result.as_str()), (second, "{\"b\":2}"));
        }
        other => panic!("{other:?}"),
    }
    assert!(matches!(
        connection.dispatch(reply(second, "{}")),
        Dispatch::Nothing
    ));
    assert!(matches!(
        connection.dispatch(reply(first, "{}")),
        Dispatch::Answer { .. }
    ));
}

#[test]
fn an_error_reply_becomes_a_typed_error_never_a_panic() {
    let mut connection = Connection::new();
    let id = connection.begin().unwrap();
    let refused = Incoming {
        error: Some(WireError {
            code: -32000,
            message: "Cannot navigate to invalid URL".into(),
            data: None,
        }),
        ..reply(id, "{}")
    };
    match connection.dispatch(refused) {
        Dispatch::Answer { reply: Reply::Refused(error), .. } => {
            assert_eq!(error.code, -32000);
            assert_eq!(error.message, "Cannot navigate to invalid URL");
        }
        other => panic!("{other:?}"),
    }
}

#[test]
fn what_an_error_reply_adds_is_kept() {
    let mut connection = Connection::new();
    let id = connection.begin().unwrap();
    let refused = Incoming {
        error: Some(WireError {
            code: -32000,
            message: "Cannot navigate".into(),
            data: Some("bad url".into()),
        }),
        ..reply(id, "{}")
    };
    match connection.dispatch(refused) {
        Dispatch::Answer { reply: Reply::Refused(error), .. } => {
            assert_eq!(
                error,
                ProtocolError {
                    code: -32000,
                    message: "Cannot navigate".into(),
                    data: Some("bad url".into()),
                }
            );
        }
        other => panic!("{other:?}"),
    }
}

#[test]
fn a_reply_without_a_result_is_an_empty_one() {
    let mut connection = Connection::new();
    let id = connection.begin().unwrap();
    let bare = Incoming {
        result: None,
        ..reply(id, "")
    };
    match connection.dispatch(bare) {
        Dispatch::Answer { reply: Reply::Result(result), .. } => assert_eq!(result, "null"),
        other => panic!("{other:?}"),
    }
}

#[test]
fn events_reach_a_subscriber_and_are_filtered_by_method() {
    let mut connection = Connection::new();
    let wanted = connection.subscribe(None, Some(vec!["Page.loadEventFired".into()]));
    let all = connection.subscribe(None, None);
    let mine = connection.subscribe(Some(SessionId::new("S1")), None);
    let to = |dispatch: Dispatch| match dispatch {
        Dispatch::Deliver { to, .. } => to,
        other => panic!("{other:?}"),
    };
    assert_eq!(
        to(connection.dispatch(reported("Page.loadEventFired", None))),
        [wanted, all]
    );
    assert_eq!(
        to(connection.dispatch(reported("Page.frameNavigated", Some("S1")))),
        [all, mine]
    );
    connection.unsubscribe(all);
    assert_eq!(
        to(connection.dispatch(reported("Page.frameNavigated", Some("S2")))),
        Vec::<u64>::new()
    );
}

#[test]
fn a_subscriber_of_one_session_ignores_the_browser_itself() {
    let subscriber = Subscriber {
        id: 1,
        methods: None,
        session: Some(SessionId::new("S1")),
    };
    let event = |session: Option<&str>| Event {
        method: "Page.x".into(),
        params: "{}".into(),
        session_id: session.map(SessionId::new),
    };
    assert!(subscriber.matches(&event(Some("S1"))));
    assert!(!subscriber.matches(&event(Some("S2"))));
    assert!(!subscriber.matches(&event(None)));
}

#[test]
fn attaching_without_a_session_id_is_reported_not_panicked() {
    assert_eq!(
        attached_session(r#"{"sessionId":"S1"}"#),
        Ok(SessionId::new("S1"))
    );
    match attached_session("{}") {
        Err(Error::Malformed { detail }) => assert!(detail.contains("sessionId"), "{detail}"),
        other => panic!("{other:?}"),
    }
}

#[test]
fn a_pending_command_fails_when_the_browser_goes_away() {
    let mut connection = Connection::new();
    let id = connection.begin().unwrap();
    assert!(!connection.is_closed());
    assert_eq!(connection.close(Ended::EndOfStream), [id]);
    assert!(connection.is_closed());
    assert_eq!(connection.begin(), Err(Ended::EndOfStream));
}

#[test]
fn the_reason_survives_for_callers_that_arrive_later() {
    let mut connection = Connection::new();
    connection.close(Ended::MessageTooLarge { limit: 9 });
    connection.close(Ended::EndOfStream);
    assert_eq!(connection.reason(), Ended::MessageTooLarge { limit: 9 });
    assert_eq!(
        connection.reason().as_error(),
        Error::MessageTooLarge { limit: 9 }
    );
    assert_eq!(Ended::EndOfStream.as_error(), Error::ConnectionClosed);
    assert_eq!(Ended::Io("pipe".into()).as_error(), Error::Io("pipe".into()));
}

#[test]
fn an_abandoned_command_is_not_answered() {
    let mut connection = Connection::new();
    let id = connection.begin().unwrap();
    connection.abandon(id);
    assert!(matches!(
        connection.dispatch(reply(id, "{}")),
        Dispatch::Nothing
    ));
    let taken = connection.take_id();
    assert!(taken > id);
}

#[test]
fn a_stream_is_read_alike_however_it_is_cut() {
    let mut stream = Vec::new();
    for message in ["one", "", "two", "three"] {
        stream.extend(frame(message.as_bytes()));
    }
    stream.extend(b"tail");
    for size in 1..=stream.len() {
        let mut framed = Framed::with_limit(5);
        let mut out = Vec::new();
        for chunk in stream.chunks(size) {
            framed.feed(chunk);
            while let Some(message) = framed.next_message().unwrap() {
                out.push(String::from_utf8(message).unwrap());
            }
        }
        assert_eq!(out, ["one", "two", "three"]);
        assert_eq!(framed.next_message().unwrap(), None);
    }
}

#[test]
fn a_caller_is_told_what_comes_first() {
    let mut connection = Connection::new();
    let (first, second, third) = (
        connection.begin().unwrap(),
        connection.begin().unwrap(),
        connection.begin().unwrap(),
    );
    assert!(matches!(
        connection.dispatch(reply(third, "{}")),
        Dispatch::Answer { id, .. } if id == third
    ));
    assert!(matches!(
        connection.dispatch(reply(first, "{}")),
        Dispatch::Answer { id, .. } if id == first
    ));
    assert_eq!(connection.close(Ended::Io("gone".into())), [second]);
    assert!(connection.close(Ended::EndOfStream).is_empty());
    assert!(matches!(
        connection.dispatch(reply(second, "{}")),
        Dispatch::Nothing
    ));
    match connection.begin() {
        Err(Ended::Io(words)) => assert_eq!(words, "gone"),
        other => panic!("{other:?}"),
    }
}
