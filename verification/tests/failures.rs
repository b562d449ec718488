use rchtmltopdf::error::{Error, SearchAttempt};
use rchtmltopdf::message::ProtocolError;
use rchtmltopdf::network::{is_media_file, NetworkError};

#[test]
fn a_protocol_error_reads_like_a_sentence() {
    let error = Error::Protocol(ProtocolError {
        code: -32000,
        message: "Cannot navigate to invalid URL".into(),
        data: None,
    });
    assert_eq!(
        error.message(),
        "the browser rejected the command: Cannot navigate to invalid URL (code -32000)"
    );
}

#[test]
fn protocol_error_data_is_appended_when_present() {
    let error = ProtocolError {
        code: -32602,
        message: "Invalid parameters".into(),
        data: Some("url: string value expected".into()),
    };
    assert_eq!(
        error.to_text(),
        "Invalid parameters (code -32602): url: string value expected"
    );
}

#[test]
fn every_failure_is_a_sentence() {
    let text = |error: Error| error.message();
    assert_eq!(
        text(Error::Navigation {
            url: "http://x/".into(),
            reason: "no".into()
        }),
        "could not load http://x/: no"
    );
    assert_eq!(text(Error::Launch { detail: "no".into() }), "no");
    assert_eq!(
        text(Error::StyleSheet {
            path: "a.css".into(),
            reason: "no".into()
        }),
        "could not read the user stylesheet a.css: no"
    );
    assert_eq!(
        text(Error::Credentials { url: "http://x/".into() }),
        "http://x/ refused the credentials given with --username and --password"
    );
    assert_eq!(
        text(Error::Script {
            source: "go()".into(),
            message: "no".into()
        }),
        "--run-script go() failed: no"
    );
    assert_eq!(text(Error::ConnectionClosed), "the connection to the browser closed");
    assert_eq!(
        text(Error::MessageTooLarge { limit: 7 }),
        "a protocol message exceeded 7 bytes without ending; the stream is probably out of sync"
    );
    assert_eq!(
        text(Error::Malformed { detail: "no".into() }),
        "the browser sent a message we could not read: no"
    );
    assert_eq!(text(Error::Io("no".into())), "talking to the browser failed: no");
    assert_eq!(
        text(Error::Json("no".into())),
        "could not encode or decode a protocol message: no"
    );
    assert_eq!(
        text(Error::Timeout { after: 2500, stage: "waiting" }),
        "timed out after 2s while waiting"
    );
    let wrapped: Error = ProtocolError {
        code: 1,
        message: "m".into(),
        data: None,
    }
    .into();
    assert!(matches!(wrapped, Error::Protocol(_)));
}

#[test]
fn a_search_lists_its_attempts_in_columns() {
    let error = Error::BrowserNotFound {
        attempts: vec![SearchAttempt {
            source: "PATH".into(),
            path: "/usr/bin/chromium".into(),
        }],
    };
    assert!(error
        .message()
        .starts_with("could not find Chromium. Tried, in order:\n  PATH                     /usr/bin/chromium\n"));
}

#[test]
fn network_errors_have_the_names_and_numbers_of_qt() {
    assert_eq!(NetworkError::ContentNotFound.name(), "ContentNotFoundError");
    assert_eq!(NetworkError::ContentNotFound.code(), 203);
    assert_eq!(NetworkError::from_status(404), Some(NetworkError::ContentNotFound));
    assert_eq!(NetworkError::from_status(200), None);
    assert_eq!(
        NetworkError::from_chromium("net::ERR_NAME_NOT_RESOLVED"),
        NetworkError::HostNotFound
    );
    assert!(is_media_file("https://x/a.png?v=1"));
    assert!(!is_media_file("https://x/page.html"));
}
