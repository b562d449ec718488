use rchtmltopdf::error::Error;
use rchtmltopdf::print::{
    margin_script, read_chunk, starts_as_pdf, stream_handle, take_chunk, Chunk, STREAM_CHUNK,
};

fn print(chunks: Vec<(&str, bool)>) -> Result<Vec<u8>, Error> {
    let mut collected = Vec::new();
    for (data, eof) in chunks {
        let answer = format!(r#"{{"data":"{data}","base64Encoded":true,"eof":{eof}}}"#);
        if take_chunk(&mut collected, &read_chunk(&answer))? {
            return Ok(collected);
        }
    }
    panic!("the stream went on");
}

#[test]
fn a_pdf_arriving_in_several_chunks_is_reassembled() {
    let document = b"%PDF-1.4\nthis document arrived in three pieces\n%%EOF";
    let pdf = print(vec![
        ("JVBERi0xLjQKdA==", false),
        ("aGlzIGRvY3VtZW50IGFycml2", false),
        ("ZWQgaW4gdGhyZWUgcGllY2VzCiUlRU9G", true),
    ])
    .unwrap();
    assert_eq!(pdf, document);
}

#[test]
fn a_single_chunk_still_works() {
    let pdf = print(vec![("JVBERi0xLjQKc21hbGwKJSVFT0Y=", true)]).unwrap();
    assert_eq!(pdf, b"%PDF-1.4\nsmall\n%%EOF");
}

#[test]
fn invalid_base64_is_reported_rather_than_panicking() {
    match print(vec![("not base64 at all !!!", true)]) {
        Err(Error::Malformed { detail }) => assert!(detail.contains("base64"), "{detail}"),
        other => panic!("expected a malformed-stream error, got {other:?}"),
    }
}

#[test]
fn a_stream_that_stops_without_ending_does_not_spin() {
    match print(vec![("JVBERi0xLjQ=", false), ("", false)]) {
        Err(Error::Malformed { detail }) => assert!(detail.contains("without ending"), "{detail}"),
        other => panic!("expected a malformed-stream error, got {other:?}"),
    }
}

#[test]
fn something_that_is_not_a_pdf_is_refused() {
    match print(vec![("PGh0bWw+dGhpcyBpcyBub3QgYSBwZGY8L2h0bWw+", true)]) {
        Err(Error::Malformed { detail }) => assert!(detail.contains("not a PDF"), "{detail}"),
        other => panic!("expected a malformed-stream error, got {other:?}"),
    }
}

#[test]
fn a_print_that_returns_no_stream_handle_is_reported() {
    match stream_handle("{}") {
        Err(Error::Malformed { detail }) => assert!(detail.contains("stream handle"), "{detail}"),
        other => panic!("expected a malformed-reply error, got {other:?}"),
    }
    assert_eq!(stream_handle(r#"{"stream":"h"}"#), Ok("h".to_string()));
}

#[test]
fn text_that_is_not_encoded_is_taken_as_it_is() {
    let mut collected = Vec::new();
    let chunk = read_chunk(r#"{"data":"%PDF-é","eof":true}"#);
    assert_eq!(
        chunk,
        Chunk {
            data: "%PDF-é".into(),
            encoded: false,
            eof: true,
        }
    );
    assert_eq!(take_chunk(&mut collected, &chunk), Ok(true));
    assert_eq!(collected, "%PDF-é".as_bytes());
    assert!(!starts_as_pdf(&b"%PD".to_vec()));
    assert_eq!(STREAM_CHUNK, 512 * 1024);
}

#[test]
fn the_margins_are_held_by_the_last_rule_of_the_document() {
    assert_eq!(
        margin_script("@page { margin: 0 }"),
        "(() => { const sheet = document.createElement('style'); sheet.textContent = \
         \"@page { margin: 0 }\"; document.documentElement.appendChild(sheet); })()"
    );
}
