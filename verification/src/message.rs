//! The messages of the debugging protocol.

use crate::encoding::{js_string, script_string};
use crate::text::{
    chars_of, decimal, find, maybe, position_of, push_number, push_signed, same, text_of,
};
use vstd::prelude::*;
use vstd::std_specs::convert::FromSpecImpl;

verus! {

/// An attached session, by the name that the browser gave it.
#[derive(Debug, PartialEq, Eq)]
pub struct SessionId {
    id: String,
}

impl View for SessionId {
    type V = Seq<char>;

    closed spec fn view(&self) -> Seq<char> {
        self.id@
    }
}

/// The name of a session that may be absent.
pub open spec fn maybe_session(session: Option<SessionId>) -> Option<Seq<char>> {
    match session {
        Some(session) => Some(session@),
        None => None,
    }
}

impl SessionId {
    pub fn new(id: &str) -> (session: SessionId)
        ensures
            session@ == id@,
    {
        SessionId { id: id.to_owned() }
    }

    pub fn as_str(&self) -> (id: &str)
        ensures
            id@ == self@,
    {
        self.id.as_str()
    }
}

impl Clone for SessionId {
    fn clone(&self) -> (copy: SessionId)
        ensures
            copy@ == self@,
    {
        SessionId { id: self.id.clone() }
    }
}

/// A command as it goes over the wire. The parameters are JSON text.
#[derive(Debug, PartialEq, Eq)]
pub struct Command {
    pub id: u64,
    pub method: String,
    pub params: Option<String>,
    /// The session that it is for, or nothing for the browser itself.
    pub session_id: Option<SessionId>,
}

/// A command as it goes over the wire. What is absent is left out, and a session
/// is a field beside the others.
pub open spec fn command_text(
    id: int,
    method: Seq<char>,
    params: Option<Seq<char>>,
    session: Option<Seq<char>>,
) -> Seq<char> {
    "{\"id\":"@ + decimal(id) + ",\"method\":"@ + script_string(method) + (match params {
        Some(params) => ",\"params\":"@ + params,
        None => ""@,
    }) + (match session {
        Some(session) => ",\"sessionId\":"@ + script_string(session),
        None => ""@,
    }) + "}"@
}

/// Parameters that say nothing.
pub open spec fn meaningful(params: Seq<char>) -> Option<Seq<char>> {
    if params == "null"@ {
        None
    } else {
        Some(params)
    }
}

impl Command {
    /// A command. Parameters that say nothing are left out.
    pub fn new(id: u64, method: &str, params: &str, session_id: Option<SessionId>) -> (command:
        Command)
        ensures
            command.id == id,
            command.method@ == method@,
            maybe(command.params) == meaningful(params@),
            maybe_session(command.session_id) == maybe_session(session_id),
    {
        let params = if same(params, "null") {
            None
        } else {
            Some(params.to_owned())
        };
        Command { id, method: method.to_owned(), params, session_id }
    }

    /// The command as it goes over the wire.
    pub fn encode(&self) -> (text: String)
        ensures
            text@ == command_text(
                self.id as int,
                self.method@,
                maybe(self.params),
                maybe_session(self.session_id),
            ),
    {
        let mut text = "{\"id\":".to_owned();
        push_number(&mut text, self.id);
        text.push_str(",\"method\":");
        text.push_str(&js_string(&self.method));
        let ghost before = text@;
        match &self.params {
            Some(params) => {
                text.push_str(",\"params\":");
                text.push_str(params);
                assert(text@ =~= before + (",\"params\":"@ + params@));
            },
            None => {
                text.push_str("");
            },
        }
        let ghost before = text@;
        match &self.session_id {
            Some(session) => {
                text.push_str(",\"sessionId\":");
                text.push_str(&js_string(session.as_str()));
                assert(text@ =~= before + (",\"sessionId\":"@ + script_string(session@)));
            },
            None => {
                text.push_str("");
            },
        }
        text.push_str("}");
        text
    }
}

/// The error of a failed reply, as it appears on the wire.
#[derive(Debug, PartialEq, Eq)]
pub struct WireError {
    pub code: i64,
    pub message: String,
    pub data: Option<String>,
}

/// The browser refusing or failing a command.
#[derive(Debug, PartialEq, Eq)]
pub struct ProtocolError {
    pub code: i64,
    pub message: String,
    /// Some failures carry a longer explanation.
    pub data: Option<String>,
}

impl From<WireError> for ProtocolError {
    fn from(wire: WireError) -> (error: ProtocolError) {
        ProtocolError { code: wire.code, message: wire.message, data: wire.data }
    }
}

impl FromSpecImpl<WireError> for ProtocolError {
    open spec fn obeys_from_spec() -> bool {
        true
    }

    open spec fn from_spec(wire: WireError) -> ProtocolError {
        ProtocolError { code: wire.code, message: wire.message, data: wire.data }
    }
}

/// The sentence of a refused command.
pub open spec fn protocol_message(
    code: int,
    message: Seq<char>,
    data: Option<Seq<char>>,
) -> Seq<char> {
    let sentence = message + " (code "@ + decimal(code) + ")"@;
    match data {
        Some(data) => sentence + ": "@ + data,
        None => sentence,
    }
}

impl ProtocolError {
    /// The refusal as a sentence.
    pub fn to_text(&self) -> (text: String)
        ensures
            text@ == protocol_message(self.code as int, self.message@, maybe(self.data)),
    {
        let mut text = self.message.clone();
        text.push_str(" (code ");
        push_signed(&mut text, self.code);
        text.push_str(")");
        if let Some(data) = &self.data {
            text.push_str(": ");
            text.push_str(data);
        }
        text
    }
}

/// Something the browser reported without being asked. The parameters are kept
/// as the JSON text that they came in.
#[derive(Debug, PartialEq, Eq)]
pub struct Event {
    /// Fully qualified, such as `Page.loadEventFired`.
    pub method: String,
    pub params: String,
    /// Set when the event belongs to an attached session.
    pub session_id: Option<SessionId>,
}

/// An [`Event`] by the characters it holds.
pub struct EventView {
    pub method: Seq<char>,
    pub params: Seq<char>,
    pub session_id: Option<Seq<char>>,
}

impl View for Event {
    type V = EventView;

    open spec fn view(&self) -> EventView {
        EventView {
            method: self.method@,
            params: self.params@,
            session_id: maybe_session(self.session_id),
        }
    }
}

/// The half of a method name before its dot. All of it where it has none.
pub open spec fn domain_of(method: Seq<char>) -> Seq<char> {
    match find(method, '.') {
        Some(at) => method.take(at),
        None => method,
    }
}

impl Event {
    /// The domain half of the method name, such as `Page`.
    pub fn domain(&self) -> (domain: String)
        ensures
            domain@ == domain_of(self@.method),
    {
        let chars = chars_of(&self.method);
        match position_of(&chars, '.', '.') {
            Some(at) => {
                let domain = text_of(&chars, 0, at);
                assert(domain@ =~= self.method@.take(at as int));
                domain
            },
            None => self.method.clone(),
        }
    }
}

/// Anything arriving from the browser, before it is sorted into a reply or an
/// event.
#[derive(Debug)]
pub struct Incoming {
    /// Present on a reply, absent on an event.
    pub id: Option<u64>,
    pub method: Option<String>,
    pub params: Option<String>,
    pub result: Option<String>,
    pub error: Option<WireError>,
    pub session_id: Option<SessionId>,
}

/// A command goes out with its number and its name, with its parameters where there are
/// some, and with its session where it has one.
pub proof fn law_how_a_command_goes_out(
    id: int,
    method: Seq<char>,
    params: Seq<char>,
    session: Seq<char>,
)
    ensures
        ({
            let start = "{\"id\":"@ + decimal(id) + ",\"method\":"@ + script_string(method);
            let with_params = ",\"params\":"@ + params;
            let with_session = ",\"sessionId\":"@ + script_string(session);
            &&& command_text(id, method, None, None) == start + "}"@
            &&& command_text(id, method, Some(params), None) == start + with_params + "}"@
            &&& command_text(id, method, None, Some(session)) == start + with_session + "}"@
            &&& command_text(id, method, Some(params), Some(session)) == start + with_params
                + with_session + "}"@
        }),
        params != "null"@ ==> meaningful(params) == Some(params),
        meaningful("null"@) is None,
{
    reveal_strlit("");
    let start = "{\"id\":"@ + decimal(id) + ",\"method\":"@ + script_string(method);
    let with_params = ",\"params\":"@ + params;
    assert(start + ""@ =~= start);
    assert(start + with_params + ""@ =~= start + with_params);
}

/// A refused command is told with its message and its code, and with more where there is
/// more.
pub proof fn law_what_is_said_of_a_refused_command(
    code: int,
    message: Seq<char>,
    data: Seq<char>,
)
    ensures
        protocol_message(code, message, None) == message + " (code "@ + decimal(code) + ")"@,
        protocol_message(code, message, Some(data)) == message + " (code "@ + decimal(code) + ")"@
            + ": "@ + data,
{
}

/// The domain of a method is what stands before its dot.
pub proof fn law_the_domain_of_a_method(domain: Seq<char>, rest: Seq<char>)
    requires
        !domain.contains('.'),
    ensures
        domain_of(domain + seq!['.'] + rest) == domain,
        domain_of(domain) == domain,
{
    let method = domain + seq!['.'] + rest;
    let at = domain.len() as int;
    assert forall|i: int| 0 <= i < at implies method[i] != '.' by {
        assert(method[i] == domain[i]);
        assert(domain.contains(domain[i]));
    }
    assert forall|i: int| 0 <= i < at implies domain[i] != '.' by {
        assert(domain.contains(domain[i]));
    }
    assert(crate::text::first_of(method, '.', '.', at));
    crate::text::lemma_find(method, '.', '.', at);
    crate::text::lemma_find_none(domain, '.', '.');
    assert(method.take(at) =~= domain);
}

} // verus!
