//! What went wrong with a request, by the names that applications look for.

use crate::numbers::{lower, lowered};
use crate::text::{
    chars_of, find_either, first_of, holds, lemma_find, lemma_find_none, occurs, position_of, same,
    stands_at, text_of,
};
use vstd::prelude::*;

verus! {

/// A request that failed.
#[derive(Clone, Copy, Debug, PartialEq, Eq)]
pub enum NetworkError {
    ConnectionRefused,
    RemoteHostClosed,
    HostNotFound,
    Timeout,
    SslHandshakeFailed,
    ContentAccessDenied,
    ContentNotFound,
    AuthenticationRequired,
    UnknownContent,
    InternalServer,
    UnknownServer,
}

/// The name of a failure.
pub open spec fn error_name(error: NetworkError) -> &'static str {
    match error {
        NetworkError::ConnectionRefused => "ConnectionRefusedError",
        NetworkError::RemoteHostClosed => "RemoteHostClosedError",
        NetworkError::HostNotFound => "HostNotFoundError",
        NetworkError::Timeout => "TimeoutError",
        NetworkError::SslHandshakeFailed => "SslHandshakeFailedError",
        NetworkError::ContentAccessDenied => "ContentAccessDenied",
        NetworkError::ContentNotFound => "ContentNotFoundError",
        NetworkError::AuthenticationRequired => "AuthenticationRequiredError",
        NetworkError::UnknownContent => "UnknownContentError",
        NetworkError::InternalServer => "InternalServerError",
        NetworkError::UnknownServer => "UnknownServerError",
    }
}

/// The number of a failure.
pub open spec fn error_code(error: NetworkError) -> u16 {
    match error {
        NetworkError::ConnectionRefused => 1,
        NetworkError::RemoteHostClosed => 2,
        NetworkError::HostNotFound => 3,
        NetworkError::Timeout => 4,
        NetworkError::SslHandshakeFailed => 6,
        NetworkError::ContentAccessDenied => 201,
        NetworkError::ContentNotFound => 203,
        NetworkError::AuthenticationRequired => 204,
        NetworkError::UnknownContent => 299,
        NetworkError::InternalServer => 401,
        NetworkError::UnknownServer => 499,
    }
}

/// The failure that a status of the server stands for. Below 400 it is none.
pub open spec fn status_error(status: u16) -> Option<NetworkError> {
    if status < 400 {
        None
    } else if status == 401 {
        Some(NetworkError::AuthenticationRequired)
    } else if status == 403 {
        Some(NetworkError::ContentAccessDenied)
    } else if status == 404 {
        Some(NetworkError::ContentNotFound)
    } else if status == 500 {
        Some(NetworkError::InternalServer)
    } else if status > 500 {
        Some(NetworkError::UnknownServer)
    } else {
        Some(NetworkError::UnknownContent)
    }
}

/// The failure that the browser's own words stand for.
pub open spec fn chromium_error(text: Seq<char>) -> NetworkError {
    if text == "net::ERR_CONNECTION_REFUSED"@ || text == "net::ERR_PROXY_CONNECTION_FAILED"@ {
        NetworkError::ConnectionRefused
    } else if text == "net::ERR_NAME_NOT_RESOLVED"@ {
        NetworkError::HostNotFound
    } else if text == "net::ERR_CONNECTION_CLOSED"@ || text == "net::ERR_CONNECTION_RESET"@
        || text == "net::ERR_EMPTY_RESPONSE"@ {
        NetworkError::RemoteHostClosed
    } else if text == "net::ERR_TIMED_OUT"@ || text == "net::ERR_CONNECTION_TIMED_OUT"@ {
        NetworkError::Timeout
    } else if occurs(text, "ERR_SSL_"@) || occurs(text, "ERR_CERT_"@) {
        NetworkError::SslHandshakeFailed
    } else if text == "net::ERR_ACCESS_DENIED"@ {
        NetworkError::ContentAccessDenied
    } else if text == "net::ERR_FILE_NOT_FOUND"@ {
        NetworkError::ContentNotFound
    } else {
        NetworkError::UnknownContent
    }
}

impl NetworkError {
    /// The name that applications look for.
    pub fn name(self) -> (name: &'static str)
        ensures
            name == error_name(self),
    {
        match self {
            NetworkError::ConnectionRefused => "ConnectionRefusedError",
            NetworkError::RemoteHostClosed => "RemoteHostClosedError",
            NetworkError::HostNotFound => "HostNotFoundError",
            NetworkError::Timeout => "TimeoutError",
            NetworkError::SslHandshakeFailed => "SslHandshakeFailedError",
            NetworkError::ContentAccessDenied => "ContentAccessDenied",
            NetworkError::ContentNotFound => "ContentNotFoundError",
            NetworkError::AuthenticationRequired => "AuthenticationRequiredError",
            NetworkError::UnknownContent => "UnknownContentError",
            NetworkError::InternalServer => "InternalServerError",
            NetworkError::UnknownServer => "UnknownServerError",
        }
    }

    /// The number of the failure.
    pub fn code(self) -> (code: u16)
        ensures
            code == error_code(self),
    {
        match self {
            NetworkError::ConnectionRefused => 1,
            NetworkError::RemoteHostClosed => 2,
            NetworkError::HostNotFound => 3,
            NetworkError::Timeout => 4,
            NetworkError::SslHandshakeFailed => 6,
            NetworkError::ContentAccessDenied => 201,
            NetworkError::ContentNotFound => 203,
            NetworkError::AuthenticationRequired => 204,
            NetworkError::UnknownContent => 299,
            NetworkError::InternalServer => 401,
            NetworkError::UnknownServer => 499,
        }
    }

    /// What a status of the server stands for.
    pub fn from_status(status: u16) -> (error: Option<NetworkError>)
        ensures
            error == status_error(status),
    {
        if status < 400 {
            None
        } else if status == 401 {
            Some(NetworkError::AuthenticationRequired)
        } else if status == 403 {
            Some(NetworkError::ContentAccessDenied)
        } else if status == 404 {
            Some(NetworkError::ContentNotFound)
        } else if status == 500 {
            Some(NetworkError::InternalServer)
        } else if status > 500 {
            Some(NetworkError::UnknownServer)
        } else {
            Some(NetworkError::UnknownContent)
        }
    }

    /// What the browser's own words stand for.
    pub fn from_chromium(text: &str) -> (error: NetworkError)
        ensures
            error == chromium_error(text@),
    {
        if same(text, "net::ERR_CONNECTION_REFUSED") || same(
            text,
            "net::ERR_PROXY_CONNECTION_FAILED",
        ) {
            NetworkError::ConnectionRefused
        } else if same(text, "net::ERR_NAME_NOT_RESOLVED") {
            NetworkError::HostNotFound
        } else if same(text, "net::ERR_CONNECTION_CLOSED") || same(text, "net::ERR_CONNECTION_RESET")
            || same(text, "net::ERR_EMPTY_RESPONSE") {
            NetworkError::RemoteHostClosed
        } else if same(text, "net::ERR_TIMED_OUT") || same(text, "net::ERR_CONNECTION_TIMED_OUT") {
            NetworkError::Timeout
        } else if holds(text, "ERR_SSL_") || holds(text, "ERR_CERT_") {
            NetworkError::SslHandshakeFailed
        } else if same(text, "net::ERR_ACCESS_DENIED") {
            NetworkError::ContentAccessDenied
        } else if same(text, "net::ERR_FILE_NOT_FOUND") {
            NetworkError::ContentNotFound
        } else {
            NetworkError::UnknownContent
        }
    }
}

/// The path of a URL: what stands before its query and its fragment.
pub open spec fn before_query(url: Seq<char>) -> Seq<char> {
    match find_either(url, '?', '#') {
        Some(at) => url.take(at),
        None => url,
    }
}

/// Whether a URL names a media file: a stylesheet, a script or a picture, by its
/// extension.
pub open spec fn names_media(url: Seq<char>) -> bool {
    let path = lowered(before_query(url));
    ||| ".css"@.is_suffix_of(path)
    ||| ".js"@.is_suffix_of(path)
    ||| ".png"@.is_suffix_of(path)
    ||| ".jpg"@.is_suffix_of(path)
    ||| ".jpeg"@.is_suffix_of(path)
    ||| ".gif"@.is_suffix_of(path)
}

/// The part of a URL before its query and its fragment.
pub fn without_query(url: &str) -> (path: String)
    ensures
        path@ == before_query(url@),
{
    let chars = chars_of(url);
    match position_of(&chars, '?', '#') {
        Some(at) => {
            let path = text_of(&chars, 0, at);
            assert(path@ =~= url@.take(at as int));
            path
        },
        None => url.to_owned(),
    }
}

/// Whether a URL names a media file.
pub fn is_media_file(url: &str) -> (yes: bool)
    ensures
        yes == names_media(url@),
{
    let path = lower(&without_query(url));
    crate::text::finishes(&path, ".css") || crate::text::finishes(&path, ".js")
        || crate::text::finishes(&path, ".png") || crate::text::finishes(&path, ".jpg")
        || crate::text::finishes(&path, ".jpeg") || crate::text::finishes(&path, ".gif")
}

/// A status below four hundred is no failure, and every other is one, by the number that
/// it is reported with.
pub proof fn law_statuses_by_their_numbers(status: u16)
    ensures
        status < 400 <==> status_error(status) is None,
        status_error(status) matches Some(error) ==> {
            &&& status == 401 ==> error_code(error) == 204
            &&& status == 403 ==> error_code(error) == 201
            &&& status == 404 ==> error_code(error) == 203
            &&& status < 500 && status != 401 && status != 403 && status != 404 ==> error_code(error)
                == 299
            &&& status == 500 ==> error_code(error) == 401
            &&& status > 500 ==> error_code(error) == 499
        },
{
}

/// Two failures have two numbers.
pub proof fn law_failures_have_their_own_numbers(one: NetworkError, other: NetworkError)
    ensures
        error_code(one) == error_code(other) ==> one == other,
        error_name(one)@ == error_name(other)@ ==> one == other,
{
    reveal_strlit("ConnectionRefusedError");
    reveal_strlit("RemoteHostClosedError");
    reveal_strlit("HostNotFoundError");
    reveal_strlit("TimeoutError");
    reveal_strlit("SslHandshakeFailedError");
    reveal_strlit("ContentAccessDenied");
    reveal_strlit("ContentNotFoundError");
    reveal_strlit("AuthenticationRequiredError");
    reveal_strlit("UnknownContentError");
    reveal_strlit("InternalServerError");
    reveal_strlit("UnknownServerError");
    assert("ConnectionRefusedError"@.len() == 22 && "RemoteHostClosedError"@.len() == 21);
    assert("HostNotFoundError"@.len() == 17 && "TimeoutError"@.len() == 12);
    assert("SslHandshakeFailedError"@.len() == 23 && "ContentNotFoundError"@.len() == 20);
    assert("AuthenticationRequiredError"@.len() == 27 && "UnknownServerError"@.len() == 18);
    assert("ContentAccessDenied"@.len() == 19 && "UnknownContentError"@.len() == 19
        && "InternalServerError"@.len() == 19);
    assert("ContentAccessDenied"@[0] == 'C' && "UnknownContentError"@[0] == 'U'
        && "InternalServerError"@[0] == 'I');
}

/// The name and the number of each failure.
pub proof fn law_names_and_numbers_of_failures(error: NetworkError)
    ensures
        error_name(error)@ == "ConnectionRefusedError"@ ==> error_code(error) == 1,
        error_name(error)@ == "RemoteHostClosedError"@ ==> error_code(error) == 2,
        error_name(error)@ == "HostNotFoundError"@ ==> error_code(error) == 3,
        error_name(error)@ == "TimeoutError"@ ==> error_code(error) == 4,
        error_name(error)@ == "SslHandshakeFailedError"@ ==> error_code(error) == 6,
        error_name(error)@ == "ContentAccessDenied"@ ==> error_code(error) == 201,
        error_name(error)@ == "ContentNotFoundError"@ ==> error_code(error) == 203,
        error_name(error)@ == "AuthenticationRequiredError"@ ==> error_code(error) == 204,
        error_name(error)@ == "UnknownContentError"@ ==> error_code(error) == 299,
        error_name(error)@ == "InternalServerError"@ ==> error_code(error) == 401,
        error_name(error)@ == "UnknownServerError"@ ==> error_code(error) == 499,
{
    law_failures_have_their_own_numbers(error, NetworkError::ConnectionRefused);
    law_failures_have_their_own_numbers(error, NetworkError::RemoteHostClosed);
    law_failures_have_their_own_numbers(error, NetworkError::HostNotFound);
    law_failures_have_their_own_numbers(error, NetworkError::Timeout);
    law_failures_have_their_own_numbers(error, NetworkError::SslHandshakeFailed);
    law_failures_have_their_own_numbers(error, NetworkError::ContentAccessDenied);
    law_failures_have_their_own_numbers(error, NetworkError::ContentNotFound);
    law_failures_have_their_own_numbers(error, NetworkError::AuthenticationRequired);
    law_failures_have_their_own_numbers(error, NetworkError::UnknownContent);
    law_failures_have_their_own_numbers(error, NetworkError::InternalServer);
    law_failures_have_their_own_numbers(error, NetworkError::UnknownServer);
}

/// What the browser says of a failure, by the number that it is reported with; whatever
/// says nothing known is a failure of its own.
#[verifier::spinoff_prover]
#[verifier::rlimit(60)]
pub proof fn law_what_the_browser_says_of_a_failure(text: Seq<char>)
    ensures
        text == "net::ERR_CONNECTION_REFUSED"@ ==> error_code(chromium_error(text)) == 1,
        text == "net::ERR_PROXY_CONNECTION_FAILED"@ ==> error_code(chromium_error(text)) == 1,
        text == "net::ERR_CONNECTION_CLOSED"@ ==> error_code(chromium_error(text)) == 2,
        text == "net::ERR_CONNECTION_RESET"@ ==> error_code(chromium_error(text)) == 2,
        text == "net::ERR_EMPTY_RESPONSE"@ ==> error_code(chromium_error(text)) == 2,
        text == "net::ERR_NAME_NOT_RESOLVED"@ ==> error_code(chromium_error(text)) == 3,
        text == "net::ERR_TIMED_OUT"@ ==> error_code(chromium_error(text)) == 4,
        text == "net::ERR_CONNECTION_TIMED_OUT"@ ==> error_code(chromium_error(text)) == 4,
        text == "net::ERR_ACCESS_DENIED"@ ==> error_code(chromium_error(text)) == 201,
        text == "net::ERR_FILE_NOT_FOUND"@ ==> error_code(chromium_error(text)) == 203,
        text.len() < 12 ==> error_code(chromium_error(text)) == 299 || occurs(text, "ERR_SSL_"@)
            || occurs(text, "ERR_CERT_"@),
{
    lemma_no_certificate();
    reveal_strlit("net::ERR_CONNECTION_REFUSED");
    reveal_strlit("net::ERR_PROXY_CONNECTION_FAILED");
    reveal_strlit("net::ERR_NAME_NOT_RESOLVED");
    reveal_strlit("net::ERR_CONNECTION_CLOSED");
    reveal_strlit("net::ERR_CONNECTION_RESET");
    reveal_strlit("net::ERR_EMPTY_RESPONSE");
    reveal_strlit("net::ERR_TIMED_OUT");
    reveal_strlit("net::ERR_CONNECTION_TIMED_OUT");
    reveal_strlit("net::ERR_ACCESS_DENIED");
    reveal_strlit("net::ERR_FILE_NOT_FOUND");
    assert("net::ERR_CONNECTION_REFUSED"@.len() == 27 && "net::ERR_PROXY_CONNECTION_FAILED"@.len()
        == 32 && "net::ERR_NAME_NOT_RESOLVED"@.len() == 26);
    assert("net::ERR_CONNECTION_CLOSED"@.len() == 26 && "net::ERR_CONNECTION_RESET"@.len() == 25
        && "net::ERR_EMPTY_RESPONSE"@.len() == 23);
    assert("net::ERR_TIMED_OUT"@.len() == 18 && "net::ERR_CONNECTION_TIMED_OUT"@.len() == 29);
    assert("net::ERR_CONNECTION_CLOSED"@[9] == 'C');
    assert("net::ERR_CONNECTION_REFUSED"@[9] == 'C' && "net::ERR_CONNECTION_REFUSED"@[20] == 'R'
        && "net::ERR_CONNECTION_REFUSED"@[22] == 'F');
    assert("net::ERR_CONNECTION_CLOSED"@[20] == 'C' && "net::ERR_CONNECTION_RESET"@[22] == 'S');
    assert("net::ERR_NAME_NOT_RESOLVED"@[9] == 'N' && "net::ERR_EMPTY_RESPONSE"@[9] == 'E');
    assert("net::ERR_TIMED_OUT"@[9] == 'T' && "net::ERR_FILE_NOT_FOUND"@[9] == 'F');
}

#[verifier::spinoff_prover]
proof fn lemma_no_certificate()
    ensures
        !occurs("net::ERR_ACCESS_DENIED"@, "ERR_SSL_"@),
        !occurs("net::ERR_ACCESS_DENIED"@, "ERR_CERT_"@),
        !occurs("net::ERR_FILE_NOT_FOUND"@, "ERR_SSL_"@),
        !occurs("net::ERR_FILE_NOT_FOUND"@, "ERR_CERT_"@),
{
    reveal_strlit("ERR_SSL_");
    reveal_strlit("ERR_CERT_");
    let one = "net::ERR_ACCESS_DENIED"@;
    let other = "net::ERR_FILE_NOT_FOUND"@;
    assert forall|at: int| !stands_at(one, "ERR_SSL_"@, at) && !stands_at(one, "ERR_CERT_"@, at) by {
        reveal_strlit("net::ERR_ACCESS_DENIED");
        lemma_part(one, "ERR_SSL_"@, at, 1);
        lemma_part(one, "ERR_SSL_"@, at, 2);
        lemma_part(one, "ERR_SSL_"@, at, 4);
        lemma_part(one, "ERR_CERT_"@, at, 1);
        lemma_part(one, "ERR_CERT_"@, at, 2);
        lemma_part(one, "ERR_CERT_"@, at, 5);
        assert(at < 0 || at == 0 || at == 1 || at == 2 || at == 3 || at == 4 || at == 5 || at == 6
            || at == 7 || at == 8 || at == 9 || at == 10 || at == 11 || at == 12 || at == 13 || at
            == 14 || at > 14);
    }
    assert forall|at: int| !stands_at(other, "ERR_SSL_"@, at) && !stands_at(
        other,
        "ERR_CERT_"@,
        at,
    ) by {
        reveal_strlit("net::ERR_FILE_NOT_FOUND");
        lemma_part(other, "ERR_SSL_"@, at, 1);
        lemma_part(other, "ERR_SSL_"@, at, 2);
        lemma_part(other, "ERR_SSL_"@, at, 4);
        lemma_part(other, "ERR_CERT_"@, at, 1);
        lemma_part(other, "ERR_CERT_"@, at, 2);
        lemma_part(other, "ERR_CERT_"@, at, 5);
        assert(at < 0 || at == 0 || at == 1 || at == 2 || at == 3 || at == 4 || at == 5 || at == 6
            || at == 7 || at == 8 || at == 9 || at == 10 || at == 11 || at == 12 || at == 13 || at
            == 14 || at == 15 || at > 15);
    }
}

proof fn lemma_part(text: Seq<char>, part: Seq<char>, at: int, i: int)
    requires
        0 <= i < part.len(),
    ensures
        stands_at(text, part, at) ==> 0 <= at && at + part.len() <= text.len() && text[at + i]
            == part[i],
{
    if stands_at(text, part, at) {
        assert(text.subrange(at, at + part.len())[i] == part[i]);
    }
}

/// Where the words of a failure are about a certificate or about the handshake, and are
/// no others, it is one of the handshake.
pub proof fn law_certificates_fail_the_handshake(before: Seq<char>, after: Seq<char>)
    requires
        before.len() != 5,
    ensures
        ({
            let ssl = before + "ERR_SSL_"@ + after;
            let cert = before + "ERR_CERT_"@ + after;
            &&& error_code(chromium_error(ssl)) == 6 || is_known_failure(ssl)
            &&& error_code(chromium_error(cert)) == 6 || is_known_failure(cert)
        }),
{
    let ssl = before + "ERR_SSL_"@ + after;
    let cert = before + "ERR_CERT_"@ + after;
    let at = before.len() as int;
    assert(ssl.subrange(at, at + "ERR_SSL_"@.len()) =~= "ERR_SSL_"@);
    assert(cert.subrange(at, at + "ERR_CERT_"@.len()) =~= "ERR_CERT_"@);
    assert(stands_at(ssl, "ERR_SSL_"@, at));
    assert(stands_at(cert, "ERR_CERT_"@, at));
}

/// The failures that the browser names in full.
pub open spec fn is_known_failure(text: Seq<char>) -> bool {
    ||| text == "net::ERR_CONNECTION_REFUSED"@
    ||| text == "net::ERR_PROXY_CONNECTION_FAILED"@
    ||| text == "net::ERR_NAME_NOT_RESOLVED"@
    ||| text == "net::ERR_CONNECTION_CLOSED"@
    ||| text == "net::ERR_CONNECTION_RESET"@
    ||| text == "net::ERR_EMPTY_RESPONSE"@
    ||| text == "net::ERR_TIMED_OUT"@
    ||| text == "net::ERR_CONNECTION_TIMED_OUT"@
}

/// The path of a URL ends where its query or its fragment begins.
pub proof fn law_a_path_ends_at_its_query(path: Seq<char>, mark: char, rest: Seq<char>)
    requires
        !path.contains('?'),
        !path.contains('#'),
        mark == '?' || mark == '#',
    ensures
        before_query(path) == path,
        before_query(path + seq![mark] + rest) == path,
{
    let url = path + seq![mark] + rest;
    let at = path.len() as int;
    assert forall|i: int| 0 <= i < at implies path[i] != '?' && path[i] != '#' by {
        assert(path.contains(path[i]));
    }
    lemma_find_none(path, '?', '#');
    assert forall|i: int| 0 <= i < at implies url[i] != '?' && url[i] != '#' by {
        assert(url[i] == path[i]);
    }
    assert(first_of(url, '?', '#', at));
    lemma_find(url, '?', '#', at);
    assert(url.take(at) =~= path);
}

/// A stylesheet, a script and a picture are media by their extension, whatever its case
/// and whatever query stands behind it; what has no extension is none.
pub proof fn law_media_by_their_extension(url: Seq<char>, name: Seq<char>, extension: Seq<char>)
    requires
        before_query(url) == name + extension,
    ensures
        lowered(extension) == ".css"@ || lowered(extension) == ".js"@ || lowered(extension)
            == ".png"@ || lowered(extension) == ".jpg"@ || lowered(extension) == ".jpeg"@
            || lowered(extension) == ".gif"@ ==> names_media(url),
        !(name + extension).contains('.') ==> !names_media(url),
        lowered(extension) == ".html"@ ==> !names_media(url),
{
    reveal_strlit(".css");
    reveal_strlit(".js");
    reveal_strlit(".png");
    reveal_strlit(".jpg");
    reveal_strlit(".jpeg");
    reveal_strlit(".gif");
    reveal_strlit(".html");
    let path = lowered(before_query(url));
    assert(path =~= lowered(name) + lowered(extension));
    let size = path.len() as int;
    if lowered(extension) == ".css"@ || lowered(extension) == ".js"@ || lowered(extension)
        == ".png"@ || lowered(extension) == ".jpg"@ || lowered(extension) == ".jpeg"@ || lowered(
        extension,
    ) == ".gif"@ {
        assert(path.skip(size - extension.len()) =~= lowered(extension));
        assert(lowered(extension).is_suffix_of(path));
    }
    if !(name + extension).contains('.') {
        assert forall|i: int| 0 <= i < size implies path[i] != '.' by {
            assert((name + extension).contains((name + extension)[i]));
        }
        assert(".css"@[0] == '.' && ".js"@[0] == '.' && ".png"@[0] == '.' && ".jpg"@[0] == '.'
            && ".jpeg"@[0] == '.' && ".gif"@[0] == '.');
        lemma_suffix_begins(".css"@, path);
        lemma_suffix_begins(".js"@, path);
        lemma_suffix_begins(".png"@, path);
        lemma_suffix_begins(".jpg"@, path);
        lemma_suffix_begins(".jpeg"@, path);
        lemma_suffix_begins(".gif"@, path);
    }
    if lowered(extension) == ".html"@ {
        assert(path.last() == lowered(extension)[4]);
        assert(".html"@[4] == 'l' && ".css"@[3] == 's' && ".js"@[2] == 's' && ".png"@[3] == 'g'
            && ".jpg"@[3] == 'g' && ".jpeg"@[4] == 'g' && ".gif"@[3] == 'f');
        lemma_suffix_ends(".css"@, path);
        lemma_suffix_ends(".js"@, path);
        lemma_suffix_ends(".png"@, path);
        lemma_suffix_ends(".jpg"@, path);
        lemma_suffix_ends(".jpeg"@, path);
        lemma_suffix_ends(".gif"@, path);
    }
}

proof fn lemma_suffix_begins(suffix: Seq<char>, text: Seq<char>)
    requires
        suffix.len() > 0,
    ensures
        suffix.is_suffix_of(text) ==> suffix.len() <= text.len() && text[text.len() - suffix.len()]
            == suffix[0],
{
}

proof fn lemma_suffix_ends(suffix: Seq<char>, text: Seq<char>)
    requires
        suffix.len() > 0,
    ensures
        suffix.is_suffix_of(text) ==> suffix.len() <= text.len() && text.last() == suffix.last(),
{
    if suffix.is_suffix_of(text) {
        assert(text.subrange(text.len() - suffix.len(), text.len() as int).last() == text.last());
    }
}

/// Nothing else is a medium.
pub proof fn law_nothing_else_is_a_medium(url: Seq<char>)
    ensures
        names_media(url) ==> exists|extension: Seq<char>| #[trigger]
            extension.is_suffix_of(lowered(before_query(url))) && (extension == ".css"@ || extension
                == ".js"@ || extension == ".png"@ || extension == ".jpg"@ || extension == ".jpeg"@
                || extension == ".gif"@),
{
    let path = lowered(before_query(url));
    if names_media(url) {
        assert(".css"@.is_suffix_of(path) || ".js"@.is_suffix_of(path) || ".png"@.is_suffix_of(path)
            || ".jpg"@.is_suffix_of(path) || ".jpeg"@.is_suffix_of(path) || ".gif"@.is_suffix_of(
            path,
        ));
    }
}

} // verus!
