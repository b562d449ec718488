//! Who is waiting for what on the connection to the browser.
//!
//! Commands are numbered, and a reply carries the number of the command that it
//! answers. What carries no number is an event, and goes to those who asked for
//! it. Once the connection has ended, everyone is told the same reason.

use crate::error::Error;
use crate::json::{json_string_at, text_at};
use crate::message::{maybe_session, Event, EventView, Incoming, ProtocolError, SessionId};
use crate::text::{contains_text, same, texts};
use vstd::prelude::*;

verus! {

/// Why the connection ended.
#[derive(Debug, PartialEq, Eq)]
pub enum Ended {
    EndOfStream,
    MessageTooLarge { limit: usize },
    Io(String),
}

/// An [`Ended`] by the characters it holds.
pub enum EndedView {
    EndOfStream,
    MessageTooLarge { limit: usize },
    Io(Seq<char>),
}

impl View for Ended {
    type V = EndedView;

    open spec fn view(&self) -> EndedView {
        match self {
            Ended::EndOfStream => EndedView::EndOfStream,
            Ended::MessageTooLarge { limit } => EndedView::MessageTooLarge { limit: *limit },
            Ended::Io(detail) => EndedView::Io(detail@),
        }
    }
}

impl Clone for Ended {
    fn clone(&self) -> (copy: Ended)
        ensures
            copy@ == self@,
    {
        match self {
            Ended::EndOfStream => Ended::EndOfStream,
            Ended::MessageTooLarge { limit } => Ended::MessageTooLarge { limit: *limit },
            Ended::Io(detail) => Ended::Io(detail.clone()),
        }
    }
}

/// What a caller is told about the end of the connection.
pub open spec fn is_error_of(error: Error, ended: EndedView) -> bool {
    match ended {
        EndedView::EndOfStream => error is ConnectionClosed,
        EndedView::MessageTooLarge { limit } => error == (Error::MessageTooLarge { limit }),
        EndedView::Io(detail) => error matches Error::Io(words) && words@ == detail,
    }
}

impl Ended {
    /// What a caller is told.
    pub fn as_error(&self) -> (error: Error)
        ensures
            is_error_of(error, self@),
    {
        match self {
            Ended::EndOfStream => Error::ConnectionClosed,
            Ended::MessageTooLarge { limit } => Error::MessageTooLarge { limit: *limit },
            Ended::Io(detail) => Error::Io(detail.clone()),
        }
    }
}

/// The session that the browser says it attached.
pub fn attached_session(answer: &str) -> (outcome: Result<SessionId, Error>)
    ensures
        match json_string_at(answer@, "/sessionId"@) {
            Some(id) => outcome matches Ok(session) && session@ == id,
            None => outcome matches Err(Error::Malformed { detail }) && detail@
                == "Target.attachToTarget replied without a sessionId"@,
        },
{
    match text_at(answer, "/sessionId") {
        Some(id) => Ok(SessionId::new(&id)),
        None => Err(
            Error::Malformed {
                detail: "Target.attachToTarget replied without a sessionId".to_owned(),
            },
        ),
    }
}

/// Someone who asked for events.
#[derive(Debug)]
pub struct Subscriber {
    pub id: u64,
    /// The methods asked for. Nothing means all of them.
    pub methods: Option<Vec<String>>,
    /// The session asked for. Nothing means every one, and the browser itself.
    pub session: Option<SessionId>,
}

/// A [`Subscriber`] by the characters it holds.
pub struct SubscriberView {
    pub id: u64,
    pub methods: Option<Seq<Seq<char>>>,
    pub session: Option<Seq<char>>,
}

impl View for Subscriber {
    type V = SubscriberView;

    open spec fn view(&self) -> SubscriberView {
        SubscriberView {
            id: self.id,
            methods: match self.methods {
                Some(methods) => Some(texts(methods@)),
                None => None,
            },
            session: maybe_session(self.session),
        }
    }
}

/// Whether a subscriber asked for an event.
pub open spec fn wants(subscriber: SubscriberView, event: EventView) -> bool {
    &&& match subscriber.methods {
        Some(methods) => methods.contains(event.method),
        None => true,
    }
    &&& match subscriber.session {
        Some(wanted) => event.session_id == Some(wanted),
        None => true,
    }
}

impl Subscriber {
    /// Whether this subscriber asked for an event.
    pub fn matches(&self, event: &Event) -> (yes: bool)
        ensures
            yes == wants(self@, event@),
    {
        let method_matches = match &self.methods {
            Some(methods) => contains_text(methods, &event.method),
            None => true,
        };
        let session_matches = match &self.session {
            None => true,
            Some(wanted) => match &event.session_id {
                Some(own) => same(own.as_str(), wanted.as_str()),
                None => false,
            },
        };
        method_matches && session_matches
    }
}

/// The reply to a command: its result as JSON text, or the refusal.
#[derive(Debug)]
pub enum Reply {
    Result(String),
    Refused(ProtocolError),
}

/// What a message from the browser leads to.
#[derive(Debug)]
pub enum Dispatch {
    /// Nobody is waiting for it.
    Nothing,
    /// The command with this number is answered.
    Answer { id: u64, reply: Reply },
    /// These subscribers get the event.
    Deliver { to: Vec<u64>, event: Event },
}

/// The state of the connection.
#[derive(Debug)]
pub struct Connection {
    next_id: u64,
    /// The commands that wait for a reply. Nothing once the connection is gone.
    pending: Option<Vec<u64>>,
    ended: Option<Ended>,
    subscribers: Vec<Subscriber>,
    next_subscriber: u64,
    closed: bool,
}

/// A [`Connection`] by what it holds.
pub struct ConnectionView {
    pub next_id: u64,
    pub pending: Option<Seq<u64>>,
    pub ended: Option<EndedView>,
    pub subscribers: Seq<SubscriberView>,
    pub next_subscriber: u64,
    pub closed: bool,
}

/// The subscribers of a list.
pub open spec fn subscribers_of(list: Seq<Subscriber>) -> Seq<SubscriberView> {
    list.map_values(|subscriber: Subscriber| subscriber@)
}

/// A counter moved on by one, from the top back to the bottom.
pub open spec fn next_of(counter: u64) -> u64 {
    if counter == u64::MAX {
        0
    } else {
        (counter + 1) as u64
    }
}

fn count_on(counter: u64) -> (next: u64)
    ensures
        next == next_of(counter),
{
    if counter == u64::MAX {
        0
    } else {
        counter + 1
    }
}

/// The reason that a connection ended for. Where none was kept, the stream
/// ended.
pub open spec fn reason_of(connection: ConnectionView) -> EndedView {
    match connection.ended {
        Some(reason) => reason,
        None => EndedView::EndOfStream,
    }
}

/// A connection after it was ended: nobody waits, nobody listens, and the first
/// reason is kept.
pub open spec fn closed_with(connection: ConnectionView, reason: EndedView) -> ConnectionView {
    ConnectionView {
        pending: None,
        ended: Some(
            match connection.ended {
                Some(kept) => kept,
                None => reason,
            },
        ),
        subscribers: Seq::empty(),
        closed: true,
        ..connection
    }
}

/// Whoever arrives after a connection has ended is told the reason that those
/// who were present were told, however often it is ended again.
pub proof fn law_the_first_reason_is_kept(
    connection: ConnectionView,
    first: EndedView,
    second: EndedView,
)
    requires
        connection.ended is None,
    ensures
        reason_of(closed_with(connection, first)) == first,
        closed_with(closed_with(connection, first), second) == closed_with(connection, first),
        closed_with(connection, first).pending is None,
{
}

/// A list of numbers without one of them.
pub open spec fn without(list: Seq<u64>, id: u64) -> Seq<u64>
    decreases list.len(),
{
    if list.len() == 0 {
        Seq::empty()
    } else if list.last() == id {
        without(list.drop_last(), id)
    } else {
        without(list.drop_last(), id).push(list.last())
    }
}

/// A list of numbers with one of them, once.
pub open spec fn with(list: Seq<u64>, id: u64) -> Seq<u64> {
    without(list, id).push(id)
}

/// The subscribers that asked for an event, in the order they asked.
pub open spec fn interested(subscribers: Seq<SubscriberView>, event: EventView) -> Seq<u64>
    decreases subscribers.len(),
{
    if subscribers.len() == 0 {
        Seq::empty()
    } else if wants(subscribers.last(), event) {
        interested(subscribers.drop_last(), event).push(subscribers.last().id)
    } else {
        interested(subscribers.drop_last(), event)
    }
}

/// The subscribers without one of them.
pub open spec fn unsubscribed(subscribers: Seq<SubscriberView>, id: u64) -> Seq<SubscriberView>
    decreases subscribers.len(),
{
    if subscribers.len() == 0 {
        Seq::empty()
    } else if subscribers.last().id == id {
        unsubscribed(subscribers.drop_last(), id)
    } else {
        unsubscribed(subscribers.drop_last(), id).push(subscribers.last())
    }
}

/// The numbers of a list but for one.
fn remove_id(list: &Vec<u64>, id: u64) -> (outcome: (Vec<u64>, bool))
    ensures
        outcome.0@ == without(list@, id),
        outcome.1 == list@.contains(id),
{
    let mut out: Vec<u64> = Vec::new();
    let mut found: bool = false;
    let mut at: usize = 0;
    assert(list@.take(0) =~= Seq::empty());
    while at < list.len()
        invariant
            at <= list@.len(),
            out@ == without(list@.take(at as int), id),
            found == list@.take(at as int).contains(id),
        decreases list@.len() - at,
    {
        let ghost seen = list@.take(at as int);
        assert(list@.take(at + 1).drop_last() =~= seen);
        assert(list@.take(at + 1) =~= seen.push(list@[at as int]));
        if list[at] == id {
            found = true;
            assert(list@.take(at + 1)[at as int] == id);
        } else {
            out.push(list[at]);
            let ghost more = list@.take(at + 1);
            assert(more.contains(id) == seen.contains(id)) by {
                if seen.contains(id) {
                    let i = choose|i: int| 0 <= i < seen.len() && seen[i] == id;
                    assert(more[i] == id);
                }
                if more.contains(id) {
                    let i = choose|i: int| 0 <= i < more.len() && more[i] == id;
                    assert(seen[i] == id);
                }
            }
        }
        at = at + 1;
    }
    assert(list@.take(list@.len() as int) =~= list@);
    (out, found)
}

impl View for Connection {
    type V = ConnectionView;

    closed spec fn view(&self) -> ConnectionView {
        ConnectionView {
            next_id: self.next_id,
            pending: match self.pending {
                Some(pending) => Some(pending@),
                None => None,
            },
            ended: match self.ended {
                Some(ended) => Some(ended@),
                None => None,
            },
            subscribers: subscribers_of(self.subscribers@),
            next_subscriber: self.next_subscriber,
            closed: self.closed,
        }
    }
}

impl Connection {
    /// A connection on which nothing has been said.
    pub fn new() -> (connection: Connection)
        ensures
            connection@ == (ConnectionView {
                next_id: 1,
                pending: Some(Seq::empty()),
                ended: None,
                subscribers: Seq::empty(),
                next_subscriber: 1,
                closed: false,
            }),
    {
        let connection = Connection {
            next_id: 1,
            pending: Some(Vec::new()),
            ended: None,
            subscribers: Vec::new(),
            next_subscriber: 1,
            closed: false,
        };
        assert(connection@.subscribers =~= Seq::empty());
        connection
    }

    /// Whether the connection has ended.
    pub fn is_closed(&self) -> (yes: bool)
        ensures
            yes == self@.closed,
    {
        self.closed
    }

    /// A number for a message that nobody waits for an answer to.
    pub fn take_id(&mut self) -> (id: u64)
        ensures
            id == old(self)@.next_id,
            final(self)@ == (ConnectionView {
                next_id: next_of(old(self)@.next_id),
                ..old(self)@
            }),
    {
        let id: u64 = self.next_id;
        self.next_id = count_on(id);
        id
    }

    /// Begin a command: give it a number and wait for its reply. Once the
    /// connection has gone, the reason is given instead.
    pub fn begin(&mut self) -> (outcome: Result<u64, Ended>)
        ensures
            match old(self)@.pending {
                Some(pending) => {
                    &&& outcome == Ok::<u64, Ended>(old(self)@.next_id)
                    &&& final(self)@ == (ConnectionView {
                        next_id: next_of(old(self)@.next_id),
                        pending: Some(with(pending, old(self)@.next_id)),
                        ..old(self)@
                    })
                },
                None => {
                    &&& outcome matches Err(reason) && reason@ == reason_of(old(self)@)
                    &&& final(self)@ == (ConnectionView {
                        next_id: next_of(old(self)@.next_id),
                        ..old(self)@
                    })
                },
            },
    {
        let id: u64 = self.take_id();
        match &self.pending {
            Some(pending) => {
                let (mut waiting, _) = remove_id(pending, id);
                waiting.push(id);
                self.pending = Some(waiting);
                Ok(id)
            },
            None => Err(self.reason()),
        }
    }

    /// The reason that the connection ended for.
    pub fn reason(&self) -> (reason: Ended)
        ensures
            reason@ == reason_of(self@),
    {
        match &self.ended {
            Some(reason) => reason.clone(),
            None => Ended::EndOfStream,
        }
    }

    /// Stop waiting for a reply that can no longer come.
    pub fn abandon(&mut self, id: u64)
        ensures
            final(self)@ == (ConnectionView {
                pending: match old(self)@.pending {
                    Some(pending) => Some(without(pending, id)),
                    None => None,
                },
                ..old(self)@
            }),
    {
        if let Some(pending) = &self.pending {
            let (waiting, _) = remove_id(pending, id);
            self.pending = Some(waiting);
        }
    }

    /// Ask for events.
    pub fn subscribe(&mut self, session: Option<SessionId>, methods: Option<Vec<String>>) -> (id: u64)
        ensures
            id == old(self)@.next_subscriber,
            final(self)@ == (ConnectionView {
                subscribers: old(self)@.subscribers.push(
                    SubscriberView {
                        id,
                        methods: match methods {
                            Some(methods) => Some(texts(methods@)),
                            None => None,
                        },
                        session: maybe_session(session),
                    },
                ),
                next_subscriber: next_of(id),
                ..old(self)@
            }),
    {
        let ghost before = subscribers_of(self.subscribers@);
        let id: u64 = self.next_subscriber;
        self.next_subscriber = count_on(id);
        let subscriber = Subscriber { id, methods, session };
        let ghost added = subscriber@;
        self.subscribers.push(subscriber);
        assert(subscribers_of(self.subscribers@) =~= before.push(added));
        id
    }

    /// Forget a subscriber that listens no more.
    pub fn unsubscribe(&mut self, id: u64)
        ensures
            final(self)@ == (ConnectionView {
                subscribers: unsubscribed(old(self)@.subscribers, id),
                ..old(self)@
            }),
    {
        let ghost all = subscribers_of(self.subscribers@);
        let mut kept: Vec<Subscriber> = Vec::new();
        let mut left: Vec<Subscriber> = Vec::new();
        left.append(&mut self.subscribers);
        let size: usize = left.len();
        let ghost start = left@;
        let mut at: usize = 0;
        proof {
            assert(all.take(0) =~= Seq::empty());
            assert(subscribers_of(kept@) =~= Seq::empty());
            assert(start.skip(0) =~= start);
            assert(all =~= subscribers_of(start));
        }
        while left.len() > 0
            invariant
                at + left@.len() == start.len() == size,
                left@ == start.skip(at as int),
                all == subscribers_of(start),
                subscribers_of(kept@) == unsubscribed(all.take(at as int), id),
            decreases left@.len(),
        {
            let subscriber = left.remove(0);
            proof {
                assert(left@ =~= start.skip(at + 1));
                assert(all.take(at + 1).drop_last() =~= all.take(at as int));
                assert(all.take(at + 1).last() == subscriber@);
            }
            if subscriber.id != id {
                let ghost before = subscribers_of(kept@);
                let ghost added = subscriber@;
                kept.push(subscriber);
                assert(subscribers_of(kept@) =~= before.push(added));
            }
            at = at + 1;
        }
        assert(all.take(all.len() as int) =~= all);
        self.subscribers = kept;
    }

    /// Sort a message from the browser: a reply to the command that it answers,
    /// an event to those who asked for it.
    pub fn dispatch(&mut self, incoming: Incoming) -> (outcome: Dispatch)
        ensures
            incoming.id matches Some(id) ==> final(self)@ == once(old(self)@, Happening::Reply(id)),
            match incoming.id {
                Some(id) => {
                    let waited = old(self)@.pending is Some && old(self)@.pending->0.contains(id);
                    if waited {
                        &&& outcome matches Dispatch::Answer { id: answered, reply } && answered
                            == id && match incoming.error {
                            Some(wire) => reply matches Reply::Refused(error) && error
                                == ProtocolError {
                                code: wire.code,
                                message: wire.message,
                                data: wire.data,
                            },
                            None => reply matches Reply::Result(result) && result@
                                == match incoming.result {
                                Some(result) => result@,
                                None => "null"@,
                            },
                        }
                        &&& final(self)@ == (ConnectionView {
                            pending: Some(without(old(self)@.pending->0, id)),
                            ..old(self)@
                        })
                    } else {
                        outcome is Nothing && final(self)@ == old(self)@
                    }
                },
                None => {
                    &&& final(self)@ == old(self)@
                    &&& match incoming.method {
                        Some(method) => {
                            &&& outcome matches Dispatch::Deliver { to, event } && event@
                                == (EventView {
                                method: method@,
                                params: match incoming.params {
                                    Some(params) => params@,
                                    None => "null"@,
                                },
                                session_id: maybe_session(incoming.session_id),
                            }) && to@ == interested(old(self)@.subscribers, event@)
                        },
                        None => outcome is Nothing,
                    }
                },
            },
    {
        match incoming.id {
            Some(id) => {
                let waiting = match &self.pending {
                    Some(pending) => {
                        let (waiting, found) = remove_id(pending, id);
                        if !found {
                            return Dispatch::Nothing;
                        }
                        waiting
                    },
                    None => {
                        return Dispatch::Nothing;
                    },
                };
                self.pending = Some(waiting);
                let reply = match incoming.error {
                    Some(wire) => Reply::Refused(ProtocolError::from(wire)),
                    None => Reply::Result(
                        match incoming.result {
                            Some(result) => result,
                            None => "null".to_owned(),
                        },
                    ),
                };
                Dispatch::Answer { id, reply }
            },
            None => {
                let method = match incoming.method {
                    Some(method) => method,
                    None => {
                        return Dispatch::Nothing;
                    },
                };
                let params = match incoming.params {
                    Some(params) => params,
                    None => "null".to_owned(),
                };
                let event = Event { method, params, session_id: incoming.session_id };
                let to = self.publish(&event);
                Dispatch::Deliver { to, event }
            },
        }
    }

    /// Those who asked for an event.
    pub fn publish(&self, event: &Event) -> (to: Vec<u64>)
        ensures
            to@ == interested(self@.subscribers, event@),
    {
        let ghost all = subscribers_of(self.subscribers@);
        let mut to: Vec<u64> = Vec::new();
        let mut at: usize = 0;
        assert(all.take(0) =~= Seq::empty());
        while at < self.subscribers.len()
            invariant
                at <= self.subscribers@.len(),
                all == subscribers_of(self.subscribers@),
                to@ == interested(all.take(at as int), event@),
            decreases self.subscribers@.len() - at,
        {
            assert(all.take(at + 1).drop_last() =~= all.take(at as int));
            assert(all.take(at + 1).last() == self.subscribers@[at as int]@);
            if self.subscribers[at].matches(event) {
                to.push(self.subscribers[at].id);
            }
            at = at + 1;
        }
        assert(all.take(all.len() as int) =~= all);
        to
    }

    /// End the connection. The first reason is the one that is kept; everyone
    /// still waiting is returned, to be told this one.
    pub fn close(&mut self, reason: Ended) -> (waiting: Vec<u64>)
        ensures
            waiting@ == match old(self)@.pending {
                Some(pending) => pending,
                None => Seq::empty(),
            },
            final(self)@ == closed_with(old(self)@, reason@),
            final(self)@ == once(old(self)@, Happening::End(reason@)),
    {
        self.closed = true;
        if self.ended.is_none() {
            self.ended = Some(reason);
        }
        let waiting = match self.pending.take() {
            Some(pending) => pending,
            None => Vec::new(),
        };
        self.subscribers = Vec::new();
        assert(subscribers_of(self.subscribers@) =~= Seq::empty());
        waiting
    }
}

/// What is left of a list does not hold what was taken out, and holds
/// everything else that it held.
pub proof fn law_answered_once(list: Seq<u64>, id: u64, other: u64)
    ensures
        !without(list, id).contains(id),
        other != id ==> without(list, id).contains(other) == list.contains(other),
    decreases list.len(),
{
    if list.len() > 0 {
        let rest = list.drop_last();
        law_answered_once(rest, id, other);
        let kept = without(list, id);
        assert(list =~= rest.push(list.last()));
        if list.last() == id {
            assert(list.contains(other) ==> other == id || rest.contains(other)) by {
                if list.contains(other) {
                    let i = choose|i: int| 0 <= i < list.len() && list[i] == other;
                    if i < rest.len() {
                        assert(rest[i] == other);
                    }
                }
            }
            assert(rest.contains(other) ==> list.contains(other)) by {
                if rest.contains(other) {
                    let i = choose|i: int| 0 <= i < rest.len() && rest[i] == other;
                    assert(list[i] == other);
                }
            }
        } else {
            let inner = without(rest, id);
            assert(kept =~= inner.push(list.last()));
            assert(!kept.contains(id)) by {
                if kept.contains(id) {
                    let i = choose|i: int| 0 <= i < kept.len() && kept[i] == id;
                    if i < inner.len() {
                        assert(inner[i] == id);
                    }
                }
            }
            if other != id {
                assert(kept.contains(other) <==> inner.contains(other) || other == list.last()) by {
                    if kept.contains(other) {
                        let i = choose|i: int| 0 <= i < kept.len() && kept[i] == other;
                        if i < inner.len() {
                            assert(inner[i] == other);
                        }
                    }
                    if inner.contains(other) {
                        let i = choose|i: int| 0 <= i < inner.len() && inner[i] == other;
                        assert(kept[i] == other);
                    }
                    if other == list.last() {
                        assert(kept[inner.len() as int] == other);
                    }
                }
                assert(list.contains(other) <==> rest.contains(other) || other == list.last()) by {
                    if list.contains(other) {
                        let i = choose|i: int| 0 <= i < list.len() && list[i] == other;
                        if i < rest.len() {
                            assert(rest[i] == other);
                        }
                    }
                    if rest.contains(other) {
                        let i = choose|i: int| 0 <= i < rest.len() && rest[i] == other;
                        assert(list[i] == other);
                    }
                    if other == list.last() {
                        assert(list[rest.len() as int] == other);
                    }
                }
            }
        }
    }
}

/// What happens to a connection that commands wait on.
pub enum Happening {
    /// A reply to the command with this number comes in.
    Reply(u64),
    /// The connection ends, for this reason.
    End(EndedView),
}

/// Whether a command waits for its reply.
pub open spec fn is_waiting(connection: ConnectionView, id: u64) -> bool {
    connection.pending is Some && connection.pending->0.contains(id)
}

/// A connection once something has happened to it.
pub open spec fn once(connection: ConnectionView, happening: Happening) -> ConnectionView {
    match happening {
        Happening::Reply(id) => if is_waiting(connection, id) {
            ConnectionView { pending: Some(without(connection.pending->0, id)), ..connection }
        } else {
            connection
        },
        Happening::End(reason) => closed_with(connection, reason),
    }
}

/// A connection once all of this has happened to it.
pub open spec fn once_all(
    connection: ConnectionView,
    happenings: Seq<Happening>,
) -> ConnectionView
    decreases happenings.len(),
{
    if happenings.len() == 0 {
        connection
    } else {
        once_all(once(connection, happenings[0]), happenings.skip(1))
    }
}

/// Whether something settles a command: its own reply, or the end.
pub open spec fn settles(happening: Happening, id: u64) -> bool {
    happening == Happening::Reply(id) || happening is End
}

/// What the caller of a command is told: what settles it while it waits.
pub open spec fn told(
    connection: ConnectionView,
    happenings: Seq<Happening>,
    id: u64,
) -> Option<Happening>
    decreases happenings.len(),
{
    if happenings.len() == 0 {
        None
    } else if is_waiting(connection, id) && settles(happenings[0], id) {
        Some(happenings[0])
    } else {
        told(once(connection, happenings[0]), happenings.skip(1), id)
    }
}

/// A caller gets the reply that carries the number of its command, in whatever
/// order replies come in, or the reason that the connection ended for where that
/// comes first.
pub proof fn law_every_caller_is_told(
    connection: ConnectionView,
    happenings: Seq<Happening>,
    id: u64,
    at: int,
)
    requires
        is_waiting(connection, id),
        0 <= at < happenings.len(),
        settles(happenings[at], id),
        forall|i: int| 0 <= i < at ==> !settles(#[trigger] happenings[i], id),
    ensures
        told(connection, happenings, id) == Some(happenings[at]),
    decreases happenings.len(),
{
    if at > 0 {
        let first = happenings[0];
        let rest = happenings.skip(1);
        assert(!settles(first, id));
        if let Happening::Reply(other) = first {
            if is_waiting(connection, other) {
                law_answered_once(connection.pending->0, other, id);
            }
        }
        assert forall|i: int| 0 <= i < at - 1 implies !settles(#[trigger] rest[i], id) by {
            assert(rest[i] == happenings[i + 1]);
        }
        law_every_caller_is_told(once(connection, first), rest, id, at - 1);
    }
}

/// Once a connection has ended nobody waits on it any more, and whoever arrives
/// later is told the reason that it first ended for, whatever else happens.
pub proof fn law_later_callers_are_told_the_first_reason(
    connection: ConnectionView,
    happenings: Seq<Happening>,
    at: int,
)
    requires
        connection.ended is None,
        0 <= at < happenings.len(),
        happenings[at] is End,
        forall|i: int| 0 <= i < at ==> !(#[trigger] happenings[i] is End),
    ensures
        once_all(connection, happenings).pending is None,
        Happening::End(reason_of(once_all(connection, happenings))) == happenings[at],
    decreases happenings.len(),
{
    let rest = happenings.skip(1);
    if at > 0 {
        assert(!(happenings[0] is End));
        assert forall|i: int| 0 <= i < at - 1 implies !(#[trigger] rest[i] is End) by {
            assert(rest[i] == happenings[i + 1]);
        }
        law_later_callers_are_told_the_first_reason(once(connection, happenings[0]), rest, at - 1);
    } else {
        lemma_stays_ended(once(connection, happenings[0]), rest);
    }
}

proof fn lemma_stays_ended(connection: ConnectionView, happenings: Seq<Happening>)
    requires
        connection.ended is Some,
        connection.pending is None,
    ensures
        once_all(connection, happenings).pending is None,
        once_all(connection, happenings).ended == connection.ended,
    decreases happenings.len(),
{
    if happenings.len() > 0 {
        lemma_stays_ended(once(connection, happenings[0]), happenings.skip(1));
    }
}

/// A subscriber gets the events that it named, or all where it named none, of its own
/// session, or of all where it has none.
pub proof fn law_who_gets_an_event(subscriber: SubscriberView, event: EventView)
    ensures
        subscriber.methods is None && subscriber.session is None ==> wants(subscriber, event),
        subscriber.methods matches Some(methods) ==> (!methods.contains(event.method) ==> !wants(
            subscriber,
            event,
        )),
        subscriber.session matches Some(session) ==> (event.session_id != Some(session) ==> !wants(
            subscriber,
            event,
        )),
        (subscriber.methods is None || subscriber.methods->0.contains(event.method)) && (
        subscriber.session is None || event.session_id == subscriber.session) ==> wants(
            subscriber,
            event,
        ),
{
}

/// An event goes to every subscriber that gets it, in the order in which they asked; one
/// that unsubscribes leaves the others as they are.
pub proof fn law_every_subscriber_gets_its_events(
    first: Seq<SubscriberView>,
    second: Seq<SubscriberView>,
    subscriber: SubscriberView,
    event: EventView,
    id: u64,
)
    ensures
        interested(first + second, event) == interested(first, event) + interested(second, event),
        wants(subscriber, event) ==> interested(seq![subscriber], event) == seq![subscriber.id],
        !wants(subscriber, event) ==> interested(seq![subscriber], event).len() == 0,
        unsubscribed(first + second, id) == unsubscribed(first, id) + unsubscribed(second, id),
        subscriber.id == id ==> unsubscribed(seq![subscriber], id).len() == 0,
        subscriber.id != id ==> unsubscribed(seq![subscriber], id) == seq![subscriber],
    decreases second.len(),
{
    reveal_with_fuel(interested, 2);
    reveal_with_fuel(unsubscribed, 2);
    assert(seq![subscriber].drop_last() =~= Seq::empty());
    assert(Seq::empty().push(subscriber) =~= seq![subscriber]);
    assert(Seq::empty().push(subscriber.id) =~= seq![subscriber.id]);
    if second.len() == 0 {
        assert(first + second =~= first);
        assert(interested(first, event) + interested(second, event) =~= interested(first, event));
        assert(unsubscribed(first, id) + unsubscribed(second, id) =~= unsubscribed(first, id));
    } else {
        assert((first + second).drop_last() =~= first + second.drop_last());
        assert((first + second).last() == second.last());
        law_every_subscriber_gets_its_events(first, second.drop_last(), subscriber, event, id);
        assert(interested(first + second, event) =~= interested(first, event) + interested(
            second,
            event,
        ));
        assert(unsubscribed(first + second, id) =~= unsubscribed(first, id) + unsubscribed(
            second,
            id,
        ));
    }
}

/// A number that waits stands once, behind the others, which stay; and the counter goes up
/// by one until it begins again.
pub proof fn law_numbers_that_wait(list: Seq<u64>, id: u64, other: u64)
    ensures
        with(list, id).last() == id,
        with(list, id).len() > 0,
        !with(list, id).drop_last().contains(id),
        other != id ==> (with(list, id).contains(other) <==> list.contains(other)),
        id < u64::MAX ==> next_of(id) == id + 1,
        next_of(u64::MAX) == 0,
{
    law_answered_once(list, id, other);
    let rest = without(list, id);
    let all = with(list, id);
    assert(all.drop_last() =~= rest);
    if other != id {
        if rest.contains(other) {
            let k = choose|k: int| 0 <= k < rest.len() && rest[k] == other;
            assert(all[k] == other);
        }
        if all.contains(other) {
            let k = choose|k: int| 0 <= k < all.len() && all[k] == other;
            assert(rest[k] == other);
        }
    }
}

/// What a caller is told of the end is the reason that it ended for.
pub proof fn law_callers_are_told_why_it_ended(error: Error, ended: EndedView)
    requires
        is_error_of(error, ended),
    ensures
        ended is EndOfStream ==> error is ConnectionClosed,
        ended matches EndedView::MessageTooLarge { limit } ==> error == (Error::MessageTooLarge {
            limit,
        }),
        ended matches EndedView::Io(detail) ==> (error matches Error::Io(words) && words@ == detail),
{
}

} // verus!
