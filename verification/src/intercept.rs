//! Answering the requests that a document makes.
//!
//! Requests are held while the rules have a say. Each is then served, let
//! through with other headers, let through as it is, or refused; and each
//! challenge for credentials is answered.

use crate::encoding::{base64_text, encode_body, js_string, script_string};
use crate::file_access::{verdict_of, FileAccess, Verdict};
use crate::json::{json_members_at, json_string_at, members_at, members_of, text_at, Member};
use crate::message::{Event, EventView};
use crate::network::NetworkError;
use crate::numbers::{lower, lowered};
use crate::plan::{Command, CommandView};
use crate::settings::{copy_pairs, pairs_of, Pair, PairView};
use crate::text::{contains_text, maybe, same, texts};
use vstd::prelude::*;

verus! {

/// A local document that is served in a character set of its own.
#[derive(Debug, PartialEq, Eq)]
pub struct Charset {
    pub url: String,
    pub path: String,
    pub name: String,
}

/// What a server is answered when it asks who is there.
#[derive(Debug, PartialEq, Eq)]
pub struct Credentials {
    pub username: String,
    pub password: String,
}

impl Default for Credentials {
    fn default() -> (credentials: Credentials)
        ensures
            credentials.username@ == Seq::<char>::empty(),
            credentials.password@ == Seq::<char>::empty(),
    {
        Credentials { username: String::new(), password: String::new() }
    }
}

/// What has a say in the requests of one document.
#[derive(Debug, PartialEq, Eq)]
pub struct Rules {
    pub files: FileAccess,
    /// The URL of the document itself.
    pub document: String,
    pub serve_as: Option<Charset>,
    /// Headers that only the request for the document carries.
    pub document_headers: Vec<Pair>,
    pub credentials: Option<Credentials>,
}

impl Default for Rules {
    fn default() -> (rules: Rules)
        ensures
            !rules.files@.enabled,
            !rules.files@.document_is_local,
            rules.files@.allowed.len() == 0,
            rules.files@.documents.len() == 0,
            rules.document@ == Seq::<char>::empty(),
            rules.serve_as is None,
            rules.document_headers@.len() == 0,
            rules.credentials is None,
    {
        Rules {
            files: FileAccess::default(),
            document: String::new(),
            serve_as: None,
            document_headers: Vec::new(),
            credentials: None,
        }
    }
}

impl Rules {
    /// Whether requests have to be held at all.
    pub fn needed(&self) -> (yes: bool)
        ensures
            yes == (!(self.files@.document_is_local && self.files@.enabled) || self.serve_as is Some
                || self.document_headers@.len() > 0 || self.credentials is Some),
    {
        self.files.polices_anything() || self.serve_as.is_some() || self.document_headers.len() > 0
            || self.credentials.is_some()
    }
}

/// A request that was refused.
#[derive(Debug, PartialEq, Eq)]
pub struct Refusal {
    pub url: String,
    pub reason: &'static str,
}

/// A [`Refusal`] by the characters it holds.
pub struct RefusalView {
    pub url: Seq<char>,
    pub reason: Seq<char>,
}

impl View for Refusal {
    type V = RefusalView;

    open spec fn view(&self) -> RefusalView {
        RefusalView { url: self.url@, reason: self.reason@ }
    }
}

/// The refusals of a list, by the characters they hold.
pub open spec fn refusals_of(list: Seq<Refusal>) -> Seq<RefusalView> {
    list.map_values(|refusal: Refusal| refusal@)
}

impl Refusal {
    /// The refusal as a sentence.
    pub fn message(&self) -> (text: String)
        ensures
            text@ == self.url@ + " was not loaded: "@ + self.reason@,
    {
        let mut text = self.url.clone();
        text.push_str(" was not loaded: ");
        text.push_str(self.reason);
        text
    }

    /// The network error that a refusal counts as.
    pub fn error(&self) -> (error: NetworkError)
        ensures
            error == NetworkError::ContentAccessDenied,
    {
        NetworkError::ContentAccessDenied
    }
}

/// Whether a URL was refused before.
pub open spec fn was_refused(record: Seq<RefusalView>, url: Seq<char>) -> bool {
    exists|i: int| 0 <= i < record.len() && (#[trigger] record[i]).url == url
}

/// A record with one refusal more, where its URL is a new one.
pub open spec fn remembered(
    record: Seq<RefusalView>,
    url: Seq<char>,
    reason: Seq<char>,
) -> Seq<RefusalView> {
    if was_refused(record, url) {
        record
    } else {
        record.push(RefusalView { url, reason })
    }
}

/// Note a refusal, once for each URL.
pub fn remember(record: &mut Vec<Refusal>, url: &str, reason: &'static str)
    ensures
        refusals_of(final(record)@) == remembered(refusals_of(old(record)@), url@, reason@),
{
    let ghost all = refusals_of(record@);
    let size: usize = record.len();
    let mut at: usize = 0;
    while at < size
        invariant
            at <= size == record@.len(),
            all == refusals_of(record@),
            record@ == old(record)@,
            forall|i: int| 0 <= i < at ==> (#[trigger] all[i]).url != url@,
        decreases size - at,
    {
        assert(all[at as int] == record@[at as int]@);
        if same(&record[at].url, url) {
            assert(was_refused(all, url@));
            return ;
        }
        at = at + 1;
    }
    record.push(Refusal { url: url.to_owned(), reason });
    assert(refusals_of(record@) =~= all.push(RefusalView { url: url@, reason: reason@ }));
}

/// Whether a list of headers holds one of a name, in any letter case.
pub open spec fn names_header(headers: Seq<PairView>, name: Seq<char>) -> bool {
    exists|i: int| 0 <= i < headers.len() && lowered((#[trigger] headers[i]).name) == lowered(name)
}

/// The headers of a list that another list does not name.
pub open spec fn kept_headers(existing: Seq<PairView>, extra: Seq<PairView>) -> Seq<PairView>
    decreases existing.len(),
{
    if existing.len() == 0 {
        Seq::empty()
    } else {
        let earlier = kept_headers(existing.drop_last(), extra);
        if names_header(extra, existing.last().name) {
            earlier
        } else {
            earlier.push(existing.last())
        }
    }
}

/// Headers with others added. One that is added takes the place of one of the
/// same name.
pub open spec fn merged(existing: Seq<PairView>, extra: Seq<PairView>) -> Seq<PairView> {
    kept_headers(existing, extra) + extra
}

/// Whether a list of headers holds one of a name, in any letter case.
fn has_header(headers: &Vec<Pair>, name: &str) -> (yes: bool)
    ensures
        yes == names_header(pairs_of(headers@), name@),
{
    let wanted = lower(name);
    let ghost all = pairs_of(headers@);
    let mut at: usize = 0;
    while at < headers.len()
        invariant
            at <= headers@.len(),
            all == pairs_of(headers@),
            wanted@ == lowered(name@),
            forall|i: int| 0 <= i < at ==> lowered((#[trigger] all[i]).name) != lowered(name@),
        decreases headers@.len() - at,
    {
        assert(all[at as int] == headers@[at as int]@);
        if same(&lower(&headers[at].name), &wanted) {
            assert(names_header(all, name@));
            return true;
        }
        at = at + 1;
    }
    false
}

/// Add headers to those that a request has.
pub fn merged_headers(existing: &Vec<Pair>, extra: &Vec<Pair>) -> (headers: Vec<Pair>)
    ensures
        pairs_of(headers@) == merged(pairs_of(existing@), pairs_of(extra@)),
{
    let mut headers: Vec<Pair> = Vec::new();
    let ghost all = pairs_of(existing@);
    let ghost added = pairs_of(extra@);
    let size: usize = existing.len();
    let mut at: usize = 0;
    assert(all.take(0) =~= Seq::empty());
    assert(pairs_of(headers@) =~= Seq::empty());
    while at < size
        invariant
            at <= size == existing@.len(),
            all == pairs_of(existing@),
            added == pairs_of(extra@),
            pairs_of(headers@) == kept_headers(all.take(at as int), added),
        decreases size - at,
    {
        assert(all.take(at + 1).drop_last() =~= all.take(at as int));
        assert(all.take(at + 1).last() == existing@[at as int]@);
        if !has_header(extra, &existing[at].name) {
            let ghost before = pairs_of(headers@);
            headers.push(existing[at].clone());
            assert(pairs_of(headers@) =~= before.push(existing@[at as int]@));
        }
        at = at + 1;
    }
    assert(all.take(at as int) =~= all);
    let ghost kept = pairs_of(headers@);
    let copies = copy_pairs(extra);
    let mut copies = copies;
    let ghost both = headers@ + copies@;
    headers.append(&mut copies);
    assert(pairs_of(both) =~= kept + added);
    headers
}

/// How a held request is answered.
#[derive(Debug, PartialEq, Eq)]
pub enum Answer {
    /// With a document of the library's own.
    Serve { content_type: String, body: String },
    /// By letting it through, with other headers where some are given.
    Continue { headers: Option<Vec<Pair>> },
    /// By denying it.
    Deny,
}

/// An [`Answer`] by the characters it holds.
pub enum AnswerView {
    Serve { content_type: Seq<char>, body: Seq<char> },
    Continue { headers: Option<Seq<PairView>> },
    Deny,
}

impl View for Answer {
    type V = AnswerView;

    open spec fn view(&self) -> AnswerView {
        match *self {
            Answer::Serve { content_type, body } => AnswerView::Serve {
                content_type: content_type@,
                body: body@,
            },
            Answer::Continue { headers } => AnswerView::Continue {
                headers: match headers {
                    Some(headers) => Some(pairs_of(headers@)),
                    None => None,
                },
            },
            Answer::Deny => AnswerView::Deny,
        }
    }
}

/// A request that is held: its URL, its headers, and the file that the file
/// system finds at its path.
#[derive(Debug, PartialEq, Eq)]
pub struct Held {
    pub url: String,
    pub headers: Vec<Pair>,
    pub resolved: Option<String>,
}

/// What an event asks of an interception.
#[derive(Debug, PartialEq, Eq)]
pub enum Asked {
    /// Nothing: it names no request.
    Nothing,
    /// Credentials for a request.
    Challenge { id: String },
    /// Whether a request may go ahead.
    Request { id: String, url: String, headers: Vec<Pair> },
}

/// An [`Asked`] by the characters it holds.
pub enum AskedView {
    Nothing,
    Challenge { id: Seq<char> },
    Request { id: Seq<char>, url: Seq<char>, headers: Seq<PairView> },
}

impl View for Asked {
    type V = AskedView;

    open spec fn view(&self) -> AskedView {
        match *self {
            Asked::Nothing => AskedView::Nothing,
            Asked::Challenge { id } => AskedView::Challenge { id: id@ },
            Asked::Request { id, url, headers } => AskedView::Request {
                id: id@,
                url: url@,
                headers: pairs_of(headers@),
            },
        }
    }
}

/// What an event asks of an interception.
pub open spec fn asked_by(event: EventView) -> AskedView {
    match json_string_at(event.params, "/requestId"@) {
        None => AskedView::Nothing,
        Some(id) => if event.method == "Fetch.authRequired"@ {
            AskedView::Challenge { id }
        } else {
            AskedView::Request {
                id,
                url: match json_string_at(event.params, "/request/url"@) {
                    Some(url) => url,
                    None => Seq::empty(),
                },
                headers: match json_members_at(event.params, "/request/headers"@) {
                    Some(members) => headers_of(members),
                    None => Seq::empty(),
                },
            }
        },
    }
}

/// The headers that members of an object stand for. A value that is no text
/// counts as an empty one.
pub open spec fn headers_of(members: Seq<(Seq<char>, Option<Seq<char>>)>) -> Seq<PairView> {
    members.map_values(
        |member: (Seq<char>, Option<Seq<char>>)|
            PairView {
                name: member.0,
                value: match member.1 {
                    Some(text) => text,
                    None => Seq::empty(),
                },
            },
    )
}

fn read_headers(members: &Vec<Member>) -> (headers: Vec<Pair>)
    ensures
        pairs_of(headers@) == headers_of(members_of(members@)),
{
    let mut headers: Vec<Pair> = Vec::new();
    let ghost all = headers_of(members_of(members@));
    let size: usize = members.len();
    let mut at: usize = 0;
    assert(pairs_of(headers@) =~= all.take(0));
    while at < size
        invariant
            at <= size == members@.len() == all.len(),
            all == headers_of(members_of(members@)),
            pairs_of(headers@) == all.take(at as int),
        decreases size - at,
    {
        let ghost before = pairs_of(headers@);
        let value = match &members[at].text {
            Some(text) => text.clone(),
            None => String::new(),
        };
        let pair = Pair { name: members[at].name.clone(), value };
        let ghost added = pair@;
        assert(added == all[at as int]);
        headers.push(pair);
        at = at + 1;
        assert(pairs_of(headers@) =~= before.push(added));
        assert(all.take(at as int) =~= before.push(added));
    }
    assert(all.take(at as int) =~= all);
    headers
}

/// Read what an event asks of an interception.
pub fn asked(event: &Event) -> (asked: Asked)
    ensures
        asked@ == asked_by(event@),
{
    match text_at(&event.params, "/requestId") {
        None => Asked::Nothing,
        Some(id) => {
            if same(&event.method, "Fetch.authRequired") {
                return Asked::Challenge { id };
            }
            let url = match text_at(&event.params, "/request/url") {
                Some(url) => url,
                None => String::new(),
            };
            let headers = match members_at(&event.params, "/request/headers") {
                Some(members) => read_headers(&members),
                None => Vec::new(),
            };
            assert(pairs_of(Seq::<Pair>::empty()) =~= Seq::empty());
            Asked::Request { id, url, headers }
        },
    }
}

/// How a held request is answered. `served` is the document as the protocol
/// carries it, where it could be read.
pub open spec fn answered(rules: Rules, served: Option<Seq<char>>, held: Held) -> AnswerView {
    let is_document = held.url@ == rules.document@;
    if is_document && rules.serve_as is Some && served is Some {
        AnswerView::Serve {
            content_type: "text/html; charset="@ + rules.serve_as->0.name@,
            body: served->0,
        }
    } else {
        match verdict_of(rules.files@, held.url@, maybe(held.resolved)) {
            Verdict::Allow => AnswerView::Continue {
                headers: if is_document && rules.document_headers@.len() > 0 {
                    Some(merged(pairs_of(held.headers@), pairs_of(rules.document_headers@)))
                } else {
                    None
                },
            },
            Verdict::Block(_) => AnswerView::Deny,
        }
    }
}

/// What is on record once a held request is answered.
pub open spec fn recorded(
    record: Seq<RefusalView>,
    rules: Rules,
    served: Option<Seq<char>>,
    held: Held,
) -> Seq<RefusalView> {
    match (
        answered(rules, served, held),
        verdict_of(rules.files@, held.url@, maybe(held.resolved)),
    ) {
        (AnswerView::Deny, Verdict::Block(reason)) => remembered(record, held.url@, reason@),
        _ => record,
    }
}

/// How a challenge for credentials is answered.
#[derive(Debug, PartialEq, Eq)]
pub enum ChallengeAnswer {
    Provide { username: String, password: String },
    Cancel,
}

/// What an interception has seen so far.
#[derive(Debug, PartialEq, Eq)]
pub struct Interception {
    refused: Vec<Refusal>,
    /// The requests that were given the credentials.
    offered: Vec<String>,
    rejected: bool,
}

/// An [`Interception`] by what it holds.
pub struct InterceptionView {
    pub refused: Seq<RefusalView>,
    pub offered: Seq<Seq<char>>,
    pub rejected: bool,
}

impl View for Interception {
    type V = InterceptionView;

    closed spec fn view(&self) -> InterceptionView {
        InterceptionView {
            refused: refusals_of(self.refused@),
            offered: texts(self.offered@),
            rejected: self.rejected,
        }
    }
}

/// Whether a challenge is met with the credentials: once for each request.
pub open spec fn provides(
    seen: InterceptionView,
    credentials: Option<Credentials>,
    id: Seq<char>,
) -> bool {
    credentials is Some && !seen.offered.contains(id)
}

/// What has been seen once a challenge is answered.
pub open spec fn challenged(
    seen: InterceptionView,
    credentials: Option<Credentials>,
    id: Seq<char>,
) -> InterceptionView {
    if provides(seen, credentials, id) {
        InterceptionView { offered: seen.offered.push(id), ..seen }
    } else {
        InterceptionView { rejected: seen.rejected || credentials is Some, ..seen }
    }
}

impl Interception {
    /// Nothing seen.
    pub fn new() -> (seen: Interception)
        ensures
            seen@ == (InterceptionView {
                refused: Seq::empty(),
                offered: Seq::empty(),
                rejected: false,
            }),
    {
        let seen = Interception { refused: Vec::new(), offered: Vec::new(), rejected: false };
        assert(refusals_of(seen.refused@) =~= Seq::empty());
        assert(texts(seen.offered@) =~= Seq::empty());
        seen
    }

    /// What was refused, in order, once for each URL.
    pub fn refused(&self) -> (refused: &Vec<Refusal>)
        ensures
            refusals_of(refused@) == self@.refused,
    {
        &self.refused
    }

    /// Whether a server turned the credentials down.
    pub fn credentials_rejected(&self) -> (yes: bool)
        ensures
            yes == self@.rejected,
    {
        self.rejected
    }

    /// Answer a held request.
    pub fn answer_request(&mut self, rules: &Rules, served: &Option<String>, held: &Held) -> (answer:
        Answer)
        ensures
            answer@ == answered(*rules, maybe(*served), *held),
            final(self)@ == (InterceptionView {
                refused: recorded(old(self)@.refused, *rules, maybe(*served), *held),
                ..old(self)@
            }),
    {
        let is_document = same(&held.url, &rules.document);
        if is_document {
            if let (Some(charset), Some(body)) = (&rules.serve_as, served) {
                let mut content_type = "text/html; charset=".to_owned();
                content_type.push_str(&charset.name);
                return Answer::Serve { content_type, body: body.clone() };
            }
        }
        match rules.files.verdict(&held.url, &held.resolved) {
            Verdict::Allow => {
                if is_document && rules.document_headers.len() > 0 {
                    let headers = merged_headers(&held.headers, &rules.document_headers);
                    Answer::Continue { headers: Some(headers) }
                } else {
                    Answer::Continue { headers: None }
                }
            },
            Verdict::Block(reason) => {
                remember(&mut self.refused, &held.url, reason);
                Answer::Deny
            },
        }
    }

    /// Answer a challenge that a request met.
    pub fn answer_challenge(&mut self, credentials: &Option<Credentials>, id: &str) -> (answer:
        ChallengeAnswer)
        ensures
            final(self)@ == challenged(old(self)@, *credentials, id@),
            match answer {
                ChallengeAnswer::Provide { username, password } => provides(
                    old(self)@,
                    *credentials,
                    id@,
                ) && username@ == credentials->0.username@ && password@
                    == credentials->0.password@,
                ChallengeAnswer::Cancel => !provides(old(self)@, *credentials, id@),
            },
    {
        match credentials {
            Some(credentials) => {
                if contains_text(&self.offered, id) {
                    self.rejected = true;
                    return ChallengeAnswer::Cancel;
                }
                let ghost before = texts(self.offered@);
                self.offered.push(id.to_owned());
                assert(texts(self.offered@) =~= before.push(id@));
                ChallengeAnswer::Provide {
                    username: credentials.username.clone(),
                    password: credentials.password.clone(),
                }
            },
            None => ChallengeAnswer::Cancel,
        }
    }
}

/// The document that is served, as the protocol carries it: nothing where none
/// is to be served or its file could not be read.
pub fn served_body(rules: &Rules, contents: &Option<Vec<u8>>) -> (served: Option<String>)
    requires
        contents is Some ==> contents->0@.len() <= usize::MAX / 4,
    ensures
        maybe(served) == match (rules.serve_as, *contents) {
            (Some(_), Some(bytes)) => Some(base64_text(bytes@)),
            _ => None,
        },
{
    match (&rules.serve_as, contents) {
        (Some(_), Some(bytes)) => Some(encode_body(bytes)),
        _ => None,
    }
}

/// The command that has requests held, and challenges for credentials too where
/// there are some.
pub open spec fn hold_command(credentials: bool) -> CommandView {
    CommandView {
        method: "Fetch.enable"@,
        params: "{\"handleAuthRequests\":"@ + (if credentials {
            "true"@
        } else {
            "false"@
        }) + "}"@,
    }
}

/// The command that has requests held.
pub fn hold(rules: &Rules) -> (command: Command)
    ensures
        command@ == hold_command(rules.credentials is Some),
{
    let mut params = "{\"handleAuthRequests\":".to_owned();
    if rules.credentials.is_some() {
        params.push_str("true");
    } else {
        params.push_str("false");
    }
    params.push_str("}");
    Command { method: "Fetch.enable", params }
}

/// Headers as the browser takes them for one request, with commas between.
pub open spec fn header_items(headers: Seq<PairView>) -> Seq<char>
    decreases headers.len(),
{
    if headers.len() == 0 {
        Seq::empty()
    } else {
        header_items(headers.drop_last()) + (if headers.len() == 1 {
            Seq::empty()
        } else {
            ","@
        }) + ("{\"name\":"@ + script_string(headers.last().name) + ",\"value\":"@
            + script_string(headers.last().value) + "}"@)
    }
}

/// The command that answers a held request.
pub open spec fn answer_command(id: Seq<char>, answer: AnswerView) -> CommandView {
    let request = "{\"requestId\":"@ + script_string(id);
    match answer {
        AnswerView::Serve { content_type, body } => CommandView {
            method: "Fetch.fulfillRequest"@,
            params: request
                + ",\"responseCode\":200,\"responseHeaders\":[{\"name\":\"Content-Type\",\"value\":"@
                + script_string(content_type) + "}],\"body\":"@ + script_string(body) + "}"@,
        },
        AnswerView::Continue { headers: None } => CommandView {
            method: "Fetch.continueRequest"@,
            params: request + "}"@,
        },
        AnswerView::Continue { headers: Some(headers) } => CommandView {
            method: "Fetch.continueRequest"@,
            params: request + ",\"headers\":["@ + header_items(headers) + "]}"@,
        },
        AnswerView::Deny => CommandView {
            method: "Fetch.failRequest"@,
            params: request + ",\"errorReason\":\"AccessDenied\"}"@,
        },
    }
}

fn push_items(params: &mut String, headers: &Vec<Pair>)
    ensures
        final(params)@ == old(params)@ + header_items(pairs_of(headers@)),
{
    let ghost start = params@;
    let ghost all = pairs_of(headers@);
    let size: usize = headers.len();
    let mut at: usize = 0;
    assert(all.take(0) =~= Seq::empty());
    assert(params@ =~= start + header_items(all.take(0)));
    while at < size
        invariant
            at <= size == headers@.len(),
            all == pairs_of(headers@),
            params@ == start + header_items(all.take(at as int)),
        decreases size - at,
    {
        let ghost before = header_items(all.take(at as int));
        assert(all.take(at + 1).drop_last() =~= all.take(at as int));
        let header = &headers[at];
        assert(all.take(at + 1).last() == header@);
        let ghost comma: Seq<char> = if at == 0 {
            Seq::empty()
        } else {
            ","@
        };
        if at > 0 {
            params.push_str(",");
        }
        assert(params@ =~= start + (before + comma));
        let ghost so_far = params@;
        params.push_str("{\"name\":");
        params.push_str(&js_string(&header.name));
        params.push_str(",\"value\":");
        params.push_str(&js_string(&header.value));
        params.push_str("}");
        let ghost own = "{\"name\":"@ + script_string(header.name@) + ",\"value\":"@
            + script_string(header.value@) + "}"@;
        assert(params@ =~= so_far + own);
        assert(params@ =~= start + (before + comma + own));
        at = at + 1;
    }
    assert(all.take(at as int) =~= all);
}

/// The command that answers a held request.
pub fn request_command(id: &str, answer: &Answer) -> (command: Command)
    ensures
        command@ == answer_command(id@, answer@),
{
    let mut params = "{\"requestId\":".to_owned();
    params.push_str(&js_string(id));
    let ghost request = params@;
    match answer {
        Answer::Serve { content_type, body } => {
            params.push_str(
                ",\"responseCode\":200,\"responseHeaders\":[{\"name\":\"Content-Type\",\"value\":",
            );
            params.push_str(&js_string(content_type));
            params.push_str("}],\"body\":");
            params.push_str(&js_string(body));
            params.push_str("}");
            Command { method: "Fetch.fulfillRequest", params }
        },
        Answer::Continue { headers } => {
            if let Some(headers) = headers {
                params.push_str(",\"headers\":[");
                push_items(&mut params, headers);
                params.push_str("]}");
            } else {
                params.push_str("}");
            }
            Command { method: "Fetch.continueRequest", params }
        },
        Answer::Deny => {
            params.push_str(",\"errorReason\":\"AccessDenied\"}");
            Command { method: "Fetch.failRequest", params }
        },
    }
}

/// The command that answers a challenge for credentials.
pub open spec fn credentials_command(id: Seq<char>, answer: ChallengeAnswer) -> CommandView {
    CommandView {
        method: "Fetch.continueWithAuth"@,
        params: "{\"requestId\":"@ + script_string(id) + ",\"authChallengeResponse\":{"@ + (
        match answer {
            ChallengeAnswer::Provide { username, password } => {
                "\"response\":\"ProvideCredentials\",\"username\":"@ + script_string(username@)
                    + ",\"password\":"@ + script_string(password@)
            },
            ChallengeAnswer::Cancel => "\"response\":\"CancelAuth\""@,
        }) + "}}"@,
    }
}

/// The command that answers a challenge for credentials.
pub fn challenge_command(id: &str, answer: &ChallengeAnswer) -> (command: Command)
    ensures
        command@ == credentials_command(id@, *answer),
{
    let mut params = "{\"requestId\":".to_owned();
    params.push_str(&js_string(id));
    params.push_str(",\"authChallengeResponse\":{");
    let ghost start = params@;
    match answer {
        ChallengeAnswer::Provide { username, password } => {
            params.push_str("\"response\":\"ProvideCredentials\",\"username\":");
            params.push_str(&js_string(username));
            params.push_str(",\"password\":");
            params.push_str(&js_string(password));
            assert(params@ =~= start + ("\"response\":\"ProvideCredentials\",\"username\":"@
                + script_string(username@) + ",\"password\":"@ + script_string(password@)));
        },
        ChallengeAnswer::Cancel => {
            params.push_str("\"response\":\"CancelAuth\"");
        },
    }
    params.push_str("}}");
    Command { method: "Fetch.continueWithAuth", params }
}

/// Whether no URL is on record twice.
pub open spec fn no_url_twice(record: Seq<RefusalView>) -> bool {
    forall|i: int, j: int|
        0 <= i < j < record.len() ==> (#[trigger] record[i]).url != (#[trigger] record[j]).url
}

/// No URL is ever put on record twice, and nothing on record is lost.
pub proof fn law_refusals_are_said_once(record: Seq<RefusalView>, url: Seq<char>, reason: Seq<char>)
    requires
        no_url_twice(record),
    ensures
        no_url_twice(remembered(record, url, reason)),
        was_refused(remembered(record, url, reason), url),
        record.is_prefix_of(remembered(record, url, reason)),
        remembered(remembered(record, url, reason), url, reason) == remembered(
            record,
            url,
            reason,
        ),
{
    let after = remembered(record, url, reason);
    if !was_refused(record, url) {
        assert(after[record.len() as int].url == url);
        assert(record =~= after.subrange(0, record.len() as int));
    } else {
        assert(record =~= after.subrange(0, record.len() as int));
    }
}

/// A request is given the credentials once. When it is challenged again, they
/// count as turned down.
pub proof fn law_credentials_are_offered_once(
    seen: InterceptionView,
    credentials: Option<Credentials>,
    id: Seq<char>,
)
    requires
        credentials is Some,
    ensures
        !provides(challenged(seen, credentials, id), credentials, id),
        challenged(challenged(seen, credentials, id), credentials, id).rejected,
{
    if provides(seen, credentials, id) {
        assert(seen.offered.push(id)[seen.offered.len() as int] == id);
    }
}

proof fn lemma_kept(existing: Seq<PairView>, extra: Seq<PairView>, i: int)
    requires
        0 <= i < kept_headers(existing, extra).len(),
    ensures
        !names_header(extra, kept_headers(existing, extra)[i].name),
        existing.contains(kept_headers(existing, extra)[i]),
    decreases existing.len(),
{
    if existing.len() > 0 {
        let earlier = kept_headers(existing.drop_last(), extra);
        if i < earlier.len() {
            lemma_kept(existing.drop_last(), extra, i);
            let j = choose|j: int|
                0 <= j < existing.drop_last().len() && existing.drop_last()[j] == earlier[i];
            assert(existing[j] == earlier[i]);
        } else {
            assert(existing[existing.len() - 1] == existing.last());
        }
    }
}

/// A header that is added replaces every header of its name, and all others of
/// the request stay.
pub proof fn law_added_headers_win(existing: Seq<PairView>, extra: Seq<PairView>, i: int)
    requires
        0 <= i < merged(existing, extra).len(),
    ensures
        names_header(extra, merged(existing, extra)[i].name) ==> extra.contains(
            merged(existing, extra)[i],
        ),
        !names_header(extra, merged(existing, extra)[i].name) ==> existing.contains(
            merged(existing, extra)[i],
        ),
{
    let kept = kept_headers(existing, extra);
    if i < kept.len() {
        lemma_kept(existing, extra, i);
    } else {
        assert(merged(existing, extra)[i] == extra[i - kept.len()]);
        assert(lowered(extra[i - kept.len()].name) == lowered(merged(existing, extra)[i].name));
    }
}

/// The headers that stay are those that are not added anew, in the order in which they
/// were; whatever is added stands behind them, whatever the case of its name.
pub proof fn law_which_headers_stay(
    first: Seq<PairView>,
    second: Seq<PairView>,
    header: PairView,
    extra: Seq<PairView>,
)
    ensures
        kept_headers(first + second, extra) == kept_headers(first, extra) + kept_headers(
            second,
            extra,
        ),
        (forall|i: int|
            0 <= i < extra.len() ==> lowered((#[trigger] extra[i]).name) != lowered(header.name))
            ==> kept_headers(seq![header], extra) == seq![header],
        (exists|i: int|
            0 <= i < extra.len() && lowered((#[trigger] extra[i]).name) == lowered(header.name))
            ==> kept_headers(seq![header], extra).len() == 0,
        merged(first, extra) == kept_headers(first, extra) + extra,
    decreases second.len(),
{
    reveal_with_fuel(kept_headers, 2);
    assert(seq![header].drop_last() =~= Seq::empty());
    assert(Seq::empty().push(header) =~= seq![header]);
    if second.len() == 0 {
        assert(first + second =~= first);
        assert(kept_headers(first, extra) + kept_headers(second, extra) =~= kept_headers(
            first,
            extra,
        ));
    } else {
        assert((first + second).drop_last() =~= first + second.drop_last());
        assert((first + second).last() == second.last());
        law_which_headers_stay(first, second.drop_last(), header, extra);
        assert(kept_headers(first + second, extra) =~= kept_headers(first, extra) + kept_headers(
            second,
            extra,
        ));
    }
}

/// The document is served where it was read for that; what may not be read is denied and
/// put on record with its reason; and everything else goes on, the document with its own
/// headers and the others as they are.
pub proof fn law_how_a_held_request_is_answered(
    record: Seq<RefusalView>,
    rules: Rules,
    served: Option<Seq<char>>,
    held: Held,
)
    ensures
        ({
            let document = held.url@ == rules.document@;
            let serve = document && rules.serve_as is Some && served is Some;
            let verdict = verdict_of(rules.files@, held.url@, maybe(held.resolved));
            let answer = answered(rules, served, held);
            let after = recorded(record, rules, served, held);
            &&& serve ==> answer == (AnswerView::Serve {
                content_type: "text/html; charset="@ + rules.serve_as->0.name@,
                body: served->0,
            })
            &&& !serve && verdict is Block ==> answer is Deny
            &&& !serve && verdict is Allow && document && rules.document_headers@.len() > 0
                ==> answer == (AnswerView::Continue {
                headers: Some(merged(pairs_of(held.headers@), pairs_of(rules.document_headers@))),
            })
            &&& !serve && verdict is Allow && (!document || rules.document_headers@.len() == 0)
                ==> answer == (AnswerView::Continue { headers: None })
            &&& serve || verdict is Allow ==> after == record
            &&& !serve && verdict is Block && (forall|i: int|
                0 <= i < record.len() ==> (#[trigger] record[i]).url != held.url@) ==> after
                == record.push(RefusalView { url: held.url@, reason: verdict->Block_0@ })
            &&& (exists|i: int| 0 <= i < record.len() && (#[trigger] record[i]).url == held.url@)
                ==> after == record
        }),
{
}

/// A challenge is met with the credentials the first time, and never without any; once
/// they were offered and it comes again, they are rejected.
pub proof fn law_how_a_challenge_is_met(
    seen: InterceptionView,
    credentials: Option<Credentials>,
    id: Seq<char>,
)
    ensures
        credentials is None ==> !provides(seen, credentials, id) && challenged(
            seen,
            credentials,
            id,
        ) == seen,
        credentials is Some && !seen.offered.contains(id) ==> provides(seen, credentials, id)
            && challenged(seen, credentials, id) == (InterceptionView {
            offered: seen.offered.push(id),
            ..seen
        }),
        credentials is Some && seen.offered.contains(id) ==> !provides(seen, credentials, id)
            && challenged(seen, credentials, id) == (InterceptionView { rejected: true, ..seen }),
{
}

/// An event that names no request asks nothing; a challenge asks for credentials; every
/// other one is a request that is held, with its URL and its headers.
pub proof fn law_what_an_event_asks(event: EventView)
    ensures
        json_string_at(event.params, "/requestId"@) is None ==> asked_by(event) is Nothing,
        json_string_at(event.params, "/requestId"@) matches Some(id) ==> {
            &&& event.method == "Fetch.authRequired"@ ==> asked_by(event) == (
            AskedView::Challenge { id })
            &&& event.method != "Fetch.authRequired"@ ==> {
                &&& asked_by(event) is Request
                &&& asked_by(event)->Request_id == id
                &&& json_string_at(event.params, "/request/url"@) matches Some(url) ==> asked_by(
                    event,
                )->Request_url == url
                &&& json_members_at(event.params, "/request/headers"@) matches Some(members)
                    ==> asked_by(event)->Request_headers.len() == members.len() && forall|i: int|
                    0 <= i < members.len() ==> (#[trigger] asked_by(event)->Request_headers[i]).name
                        == members[i].0 && (members[i].1 is Some ==> asked_by(
                        event,
                    )->Request_headers[i].value == members[i].1->0)
            }
        },
{
}

/// Headers are written one after the other, with commas between them, each with its name
/// and its value.
pub proof fn law_headers_are_written_in_turn(headers: Seq<PairView>, header: PairView)
    ensures
        header_items(seq![header]) == "{\"name\":"@ + script_string(header.name) + ",\"value\":"@
            + script_string(header.value) + "}"@,
        headers.len() > 0 ==> header_items(headers.push(header)) == header_items(headers) + ","@
            + header_items(seq![header]),
{
    reveal_with_fuel(header_items, 2);
    assert(seq![header].drop_last() =~= Seq::empty());
    let own = "{\"name\":"@ + script_string(header.name) + ",\"value\":"@ + script_string(
        header.value,
    ) + "}"@;
    assert(header_items(seq![header]) =~= own);
    assert(headers.push(header).drop_last() =~= headers);
    assert(headers.push(header).last() == header);
    if headers.len() > 0 {
        assert(header_items(headers.push(header)) =~= header_items(headers) + ","@ + own);
    }
}

/// Every answer names the request that it answers, and says in the browser's own words
/// what becomes of it.
pub proof fn law_answers_in_the_words_of_the_browser(
    id: Seq<char>,
    content_type: Seq<char>,
    body: Seq<char>,
    headers: Seq<PairView>,
    answer: ChallengeAnswer,
)
    ensures
        answer_command(id, AnswerView::Serve { content_type, body }) == (CommandView {
            method: "Fetch.fulfillRequest"@,
            params: "{\"requestId\":"@ + script_string(id)
                + ",\"responseCode\":200,\"responseHeaders\":[{\"name\":\"Content-Type\",\"value\":"@
                + script_string(content_type) + "}],\"body\":"@ + script_string(body) + "}"@,
        }),
        answer_command(id, AnswerView::Continue { headers: None }) == (CommandView {
            method: "Fetch.continueRequest"@,
            params: "{\"requestId\":"@ + script_string(id) + "}"@,
        }),
        answer_command(id, AnswerView::Continue { headers: Some(headers) }) == (CommandView {
            method: "Fetch.continueRequest"@,
            params: "{\"requestId\":"@ + script_string(id) + ",\"headers\":["@ + header_items(
                headers,
            ) + "]}"@,
        }),
        answer_command(id, AnswerView::Deny) == (CommandView {
            method: "Fetch.failRequest"@,
            params: "{\"requestId\":"@ + script_string(id)
                + ",\"errorReason\":\"AccessDenied\"}"@,
        }),
        answer matches ChallengeAnswer::Provide { username, password } ==> credentials_command(
            id,
            answer,
        ) == (CommandView {
            method: "Fetch.continueWithAuth"@,
            params: "{\"requestId\":"@ + script_string(id) + ",\"authChallengeResponse\":{"@ + (
            "\"response\":\"ProvideCredentials\",\"username\":"@ + script_string(username@)
                + ",\"password\":"@ + script_string(password@)) + "}}"@,
        }),
        answer is Cancel ==> credentials_command(id, answer) == (CommandView {
            method: "Fetch.continueWithAuth"@,
            params: "{\"requestId\":"@ + script_string(id) + ",\"authChallengeResponse\":{"@
                + "\"response\":\"CancelAuth\""@ + "}}"@,
        }),
        hold_command(true) == (CommandView {
            method: "Fetch.enable"@,
            params: "{\"handleAuthRequests\":"@ + "true"@ + "}"@,
        }),
        hold_command(false) == (CommandView {
            method: "Fetch.enable"@,
            params: "{\"handleAuthRequests\":"@ + "false"@ + "}"@,
        }),
{
}

} // verus!
