//! What can go wrong while a browser is driven.

use crate::message::{protocol_message, ProtocolError};
use crate::text::{decimal, maybe, padded, push_number, push_padded};
use vstd::prelude::*;
use vstd::std_specs::convert::FromSpecImpl;

verus! {

/// The build of the browser that the program is measured against.
pub const PINNED_VERSION: &'static str = "138.0.7204.49";

/// How a browser is installed.
pub const INSTALLING: &'static str = "Nothing is ever fetched for you. Install Chromium with your package manager:\n  apt install chromium                 # Debian, Ubuntu\n  dnf install chromium                 # Fedora\n  pacman -S chromium                   # Arch\n  brew install --cask chromium         # macOS\nor take the pinned build:\n  npx @puppeteer/browsers install chrome-headless-shell@";

/// How the program is pointed at a browser.
pub const POINTING: &'static str = "\nThen pass --chromium-path, or set CHROME_PATH.";

/// One place where the search for a browser looked, and did not find one.
#[derive(Debug, PartialEq, Eq)]
pub struct SearchAttempt {
    /// Where the candidate came from, such as `--chromium-path` or `PATH`.
    pub source: String,
    pub path: String,
}

/// A [`SearchAttempt`] by the characters it holds.
pub struct SearchAttemptView {
    pub source: Seq<char>,
    pub path: Seq<char>,
}

impl View for SearchAttempt {
    type V = SearchAttemptView;

    open spec fn view(&self) -> SearchAttemptView {
        SearchAttemptView { source: self.source@, path: self.path@ }
    }
}

/// The attempts of a list, by the characters they hold.
pub open spec fn attempts_of(list: Seq<SearchAttempt>) -> Seq<SearchAttemptView> {
    list.map_values(|attempt: SearchAttempt| attempt@)
}

/// What can go wrong while a browser is driven.
#[derive(Debug, PartialEq, Eq)]
pub enum Error {
    /// No browser anywhere that the search looks.
    BrowserNotFound { attempts: Vec<SearchAttempt> },
    /// The conversion ran out of time, after this many milliseconds.
    Timeout { after: u64, stage: &'static str },
    /// The document could not be loaded.
    Navigation { url: String, reason: String },
    /// The browser would not start, or started and never answered.
    Launch { detail: String },
    /// A user stylesheet could not be read.
    StyleSheet { path: String, reason: String },
    /// The server would not accept the credentials it was given.
    Credentials { url: String },
    /// A script of the command line threw.
    Script { source: String, message: String },
    /// The browser answered a command with an error.
    Protocol(ProtocolError),
    /// The connection went away before the reply arrived.
    ConnectionClosed,
    /// A message went past the size that a stream allows.
    MessageTooLarge { limit: usize },
    /// The browser sent something of another shape than expected.
    Malformed { detail: String },
    /// Talking to the browser failed, in the system's own words.
    Io(String),
    /// A message could not be written as JSON or read from it.
    Json(String),
}

impl From<ProtocolError> for Error {
    fn from(error: ProtocolError) -> (wrapped: Error) {
        Error::Protocol(error)
    }
}

impl FromSpecImpl<ProtocolError> for Error {
    open spec fn obeys_from_spec() -> bool {
        true
    }

    open spec fn from_spec(error: ProtocolError) -> Error {
        Error::Protocol(error)
    }
}

/// A line for each attempt, in order.
pub open spec fn attempt_lines(attempts: Seq<SearchAttemptView>) -> Seq<char>
    decreases attempts.len(),
{
    if attempts.len() == 0 {
        Seq::empty()
    } else {
        attempt_lines(attempts.drop_last()) + "  "@ + padded(attempts.last().source, 24) + " "@
            + attempts.last().path + "\n"@
    }
}

/// The whole report of a search that found nothing.
pub open spec fn not_found_message(attempts: Seq<SearchAttemptView>) -> Seq<char> {
    "could not find Chromium. Tried, in order:\n"@ + (if attempts.len() == 0 {
        "  (nothing: no candidate locations for this platform)\n"@
    } else {
        attempt_lines(attempts)
    }) + INSTALLING@ + PINNED_VERSION@ + POINTING@
}

/// The sentence of a failure.
pub open spec fn error_message(error: Error) -> Seq<char> {
    match error {
        Error::BrowserNotFound { attempts } => not_found_message(attempts_of(attempts@)),
        Error::Timeout { after, stage } => "timed out after "@ + decimal(after as int / 1000)
            + "s while "@ + stage@,
        Error::Navigation { url, reason } => "could not load "@ + url@ + ": "@ + reason@,
        Error::Launch { detail } => detail@,
        Error::StyleSheet { path, reason } => "could not read the user stylesheet "@ + path@
            + ": "@ + reason@,
        Error::Credentials { url } => url@
            + " refused the credentials given with --username and --password"@,
        Error::Script { source, message } => "--run-script "@ + source@ + " failed: "@ + message@,
        Error::Protocol(error) => "the browser rejected the command: "@ + protocol_message(
            error.code as int,
            error.message@,
            maybe(error.data),
        ),
        Error::ConnectionClosed => "the connection to the browser closed"@,
        Error::MessageTooLarge { limit } => "a protocol message exceeded "@ + decimal(limit as int)
            + " bytes without ending; the stream is probably out of sync"@,
        Error::Malformed { detail } => "the browser sent a message we could not read: "@ + detail@,
        Error::Io(words) => "talking to the browser failed: "@ + words@,
        Error::Json(words) => "could not encode or decode a protocol message: "@ + words@,
    }
}

/// Write a line for each attempt.
fn push_attempts(out: &mut String, attempts: &Vec<SearchAttempt>)
    ensures
        final(out)@ == old(out)@ + attempt_lines(attempts_of(attempts@)),
{
    let ghost start = out@;
    let ghost all = attempts_of(attempts@);
    let mut at: usize = 0;
    assert(all.take(0) =~= Seq::empty());
    assert(out@ =~= start + attempt_lines(all.take(0)));
    while at < attempts.len()
        invariant
            at <= attempts@.len(),
            all == attempts_of(attempts@),
            out@ == start + attempt_lines(all.take(at as int)),
        decreases attempts@.len() - at,
    {
        let ghost before = attempt_lines(all.take(at as int));
        assert(all.take(at + 1).drop_last() =~= all.take(at as int));
        let attempt = &attempts[at];
        out.push_str("  ");
        push_padded(out, &attempt.source, 24);
        out.push_str(" ");
        out.push_str(&attempt.path);
        out.push_str("\n");
        assert(all[at as int] == attempt@);
        assert(out@ =~= start + (before + "  "@ + padded(attempt.source@, 24) + " "@
            + attempt.path@ + "\n"@));
        at = at + 1;
    }
    assert(all.take(at as int) =~= all);
}

/// Two texts, one behind the other.
fn behind(first: &str, second: &str) -> (text: String)
    ensures
        text@ == first@ + second@,
{
    let mut text = first.to_owned();
    text.push_str(second);
    text
}

impl Error {
    /// The failure as a sentence.
    pub fn message(&self) -> (text: String)
        ensures
            text@ == error_message(*self),
    {
        match self {
            Error::BrowserNotFound { attempts } => {
                let mut text = "could not find Chromium. Tried, in order:\n".to_owned();
                if attempts.len() == 0 {
                    text.push_str("  (nothing: no candidate locations for this platform)\n");
                } else {
                    push_attempts(&mut text, attempts);
                }
                text.push_str(INSTALLING);
                text.push_str(PINNED_VERSION);
                text.push_str(POINTING);
                text
            },
            Error::Timeout { after, stage } => {
                let mut text = "timed out after ".to_owned();
                push_number(&mut text, *after / 1000);
                text.push_str("s while ");
                text.push_str(stage);
                text
            },
            Error::Navigation { url, reason } => {
                let mut text = behind("could not load ", url);
                text.push_str(": ");
                text.push_str(reason);
                text
            },
            Error::Launch { detail } => detail.clone(),
            Error::StyleSheet { path, reason } => {
                let mut text = behind("could not read the user stylesheet ", path);
                text.push_str(": ");
                text.push_str(reason);
                text
            },
            Error::Credentials { url } => behind(
                url,
                " refused the credentials given with --username and --password",
            ),
            Error::Script { source, message } => {
                let mut text = behind("--run-script ", source);
                text.push_str(" failed: ");
                text.push_str(message);
                text
            },
            Error::Protocol(error) => behind(
                "the browser rejected the command: ",
                &error.to_text(),
            ),
            Error::ConnectionClosed => "the connection to the browser closed".to_owned(),
            Error::MessageTooLarge { limit } => {
                let mut text = "a protocol message exceeded ".to_owned();
                push_number(&mut text, *limit as u64);
                text.push_str(" bytes without ending; the stream is probably out of sync");
                text
            },
            Error::Malformed { detail } => behind(
                "the browser sent a message we could not read: ",
                detail,
            ),
            Error::Io(words) => behind("talking to the browser failed: ", words),
            Error::Json(words) => behind("could not encode or decode a protocol message: ", words),
        }
    }
}

/// Every place that the search looked has a line of its own, in the order of the search.
pub proof fn law_every_attempt_has_its_line(
    first: Seq<SearchAttemptView>,
    second: Seq<SearchAttemptView>,
    attempt: SearchAttemptView,
)
    ensures
        attempt_lines(first + second) == attempt_lines(first) + attempt_lines(second),
        attempt_lines(seq![attempt]) == "  "@ + padded(attempt.source, 24) + " "@ + attempt.path
            + "\n"@,
        attempt_lines(Seq::empty()).len() == 0,
    decreases second.len(),
{
    reveal_with_fuel(attempt_lines, 2);
    assert(seq![attempt].drop_last() =~= Seq::empty());
    assert(attempt_lines(seq![attempt]) =~= "  "@ + padded(attempt.source, 24) + " "@ + attempt.path
        + "\n"@);
    if second.len() == 0 {
        assert(first + second =~= first);
        assert(attempt_lines(first) + attempt_lines(second) =~= attempt_lines(first));
    } else {
        assert((first + second).drop_last() =~= first + second.drop_last());
        assert((first + second).last() == second.last());
        law_every_attempt_has_its_line(first, second.drop_last(), attempt);
        assert(attempt_lines(first + second) =~= attempt_lines(first) + attempt_lines(second));
    }
}

/// A failure is told with what it is about.
pub proof fn law_a_failure_says_what_it_is_about(error: Error)
    ensures
        error matches Error::Timeout { after, stage } ==> error_message(error)
            == "timed out after "@ + decimal(after as int / 1000) + "s while "@ + stage@,
        error matches Error::Navigation { url, reason } ==> error_message(error)
            == "could not load "@ + url@ + ": "@ + reason@,
        error matches Error::Launch { detail } ==> error_message(error) == detail@,
        error matches Error::StyleSheet { path, reason } ==> error_message(error)
            == "could not read the user stylesheet "@ + path@ + ": "@ + reason@,
        error matches Error::Credentials { url } ==> error_message(error) == url@
            + " refused the credentials given with --username and --password"@,
        error matches Error::Script { source, message } ==> error_message(error)
            == "--run-script "@ + source@ + " failed: "@ + message@,
        error matches Error::MessageTooLarge { limit } ==> error_message(error)
            == "a protocol message exceeded "@ + decimal(limit as int)
            + " bytes without ending; the stream is probably out of sync"@,
        error matches Error::Malformed { detail } ==> error_message(error)
            == "the browser sent a message we could not read: "@ + detail@,
        error matches Error::Io(words) ==> error_message(error) == "talking to the browser failed: "@
            + words@,
        error matches Error::Json(words) ==> error_message(error)
            == "could not encode or decode a protocol message: "@ + words@,
        error is ConnectionClosed ==> error_message(error)
            == "the connection to the browser closed"@,
{
}

/// A search that found nothing says so first, then where it looked, and then how a browser
/// is had.
pub proof fn law_what_is_said_where_nothing_was_found(attempts: Seq<SearchAttemptView>)
    ensures
        attempts.len() > 0 ==> not_found_message(attempts)
            == "could not find Chromium. Tried, in order:\n"@ + attempt_lines(attempts)
            + INSTALLING@ + "138.0.7204.49"@ + POINTING@,
        attempts.len() == 0 ==> not_found_message(attempts)
            == "could not find Chromium. Tried, in order:\n"@
            + "  (nothing: no candidate locations for this platform)\n"@ + INSTALLING@
            + "138.0.7204.49"@ + POINTING@,
{
}

} // verus!
