use rchtmltopdf::error::Error;
use rchtmltopdf::launch::{
    arguments, created_target, explain, keep_tail, lines, profile_name, unanswered, unstartable,
    LaunchOptions, Page,
};
use rchtmltopdf::locate::{Executable, Origin};
use rchtmltopdf::message::SessionId;

fn full() -> Executable {
    Executable::at("/usr/bin/chromium".into(), Origin::SystemLocation)
}

#[test]
fn a_full_browser_is_told_to_be_headless_and_the_shell_is_not() {
    let options = LaunchOptions::default();
    let list = arguments(&full(), "/tmp/p", &options);
    assert_eq!(list[0], "--user-data-dir=/tmp/p");
    assert_eq!(list[1], "--remote-debugging-pipe");
    assert_eq!(list.len(), 12);
    assert_eq!(list[11], "--headless=new");
    let shell = Executable::at("/x/chrome-headless-shell".into(), Origin::Flag);
    let list = arguments(&shell, "/tmp/p", &options);
    assert_eq!(list.len(), 11);
    assert!(!list.contains(&"--headless=new".to_string()));
    assert!(!list.contains(&"--no-sandbox".to_string()));
}

#[test]
fn flags_of_the_command_line_come_last() {
    let options = LaunchOptions {
        no_sandbox: true,
        extra_args: vec!["--a".into(), "--b".into()],
        ..LaunchOptions::default()
    };
    let list = arguments(&full(), "/tmp/p", &options);
    assert_eq!(list[12..], ["--no-sandbox", "--a", "--b"]);
    assert_eq!(options.patience(), 20000);
}

#[test]
fn launching_something_that_is_not_a_browser_fails_with_its_output() {
    let error = explain(&full(), &Error::ConnectionClosed, "line one\r\nline two\n");
    assert_eq!(
        error.message(),
        "/usr/bin/chromium failed to start: the connection to the browser closed\n\
         the browser said:\n  line one\n  line two\n"
    );
    let silent = explain(&full(), &Error::ConnectionClosed, " \n\t");
    assert_eq!(
        silent.message(),
        "/usr/bin/chromium failed to start: the connection to the browser closed"
    );
}

#[test]
fn a_refused_sandbox_is_explained() {
    let message = explain(&full(), &Error::ConnectionClosed, "No usable SANDBOX!").message();
    assert!(message.contains("Retry with --no-sandbox"), "{message}");
    let other = explain(&full(), &Error::ConnectionClosed, "no display").message();
    assert!(!other.contains("--no-sandbox"), "{other}");
}

#[test]
fn only_the_first_lines_are_shown() {
    let output: String = (0..30).map(|line| format!("l{line}\n")).collect();
    let message = explain(&full(), &Error::ConnectionClosed, &output).message();
    assert!(message.contains("  l19\n"), "{message}");
    assert!(!message.contains("  l20\n"), "{message}");
}

#[test]
fn lines_end_where_they_end() {
    assert_eq!(lines("a\r\nb\n\nc\r"), ["a", "b", "", "c\r"]);
    assert!(lines("").is_empty());
    assert_eq!(lines("\n"), [""]);
}

#[test]
fn only_the_end_of_what_a_browser_says_is_kept() {
    let mut held = String::new();
    keep_tail(&mut held, "hello");
    assert_eq!(held, "hello");
    keep_tail(&mut held, &"x".repeat(16384));
    assert_eq!(held.len(), 16384);
    assert!(held.starts_with('x'));
    let mut wide = String::from("a");
    keep_tail(&mut wide, &"é".repeat(8192));
    assert_eq!(wide, "é".repeat(8192));
    keep_tail(&mut wide, "a");
    assert_eq!(wide.len(), 16383, "a character is never cut in half");
}

#[test]
fn a_browser_that_does_not_answer_is_named() {
    assert_eq!(
        unanswered(&full(), 20000).message(),
        "talking to the browser failed: /usr/bin/chromium did not answer within 20s"
    );
    assert_eq!(
        unstartable(&full(), "no such file").message(),
        "talking to the browser failed: could not start /usr/bin/chromium: no such file"
    );
    assert_eq!(profile_name(7, 1, 9), "rchtmltopdf-7-1-9");
}

#[test]
fn a_page_knows_its_session_and_its_target() {
    let page = Page::over_session(SessionId::new("S"), "T".into());
    assert_eq!(page.session().as_str(), "S");
    assert_eq!(page.target_id(), "T");
    assert_eq!(created_target(r#"{"targetId":"T"}"#), Ok("T".to_string()));
    assert!(created_target("{}").is_err());
}
