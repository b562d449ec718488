//! Messages separated by a zero byte.
//!
//! Over the debugging pipe, messages are separated by a zero byte, not by a
//! newline. JSON never holds a bare zero byte, so splitting on it is
//! unambiguous and needs no escaping.

use vstd::prelude::*;

verus! {

/// Refuse to buffer a single message larger than this. A guard against a stream
/// that is out of step, not an expectation about the size of messages.
pub const MAX_MESSAGE_BYTES: usize = 67108864;

/// Bytes behind the zeros that they begin with.
pub open spec fn past_zeros(bytes: Seq<u8>) -> Seq<u8>
    decreases bytes.len(),
{
    if bytes.len() > 0 && bytes[0] == 0 {
        past_zeros(bytes.skip(1))
    } else {
        bytes
    }
}

/// `at` is where the first zero stands.
pub open spec fn first_zero(bytes: Seq<u8>, at: int) -> bool {
    &&& 0 <= at < bytes.len()
    &&& bytes[at] == 0
    &&& forall|i: int| 0 <= i < at ==> bytes[i] != 0
}

/// The first message of a stream that is not empty, and what follows it. None
/// where the stream holds no whole message.
pub open spec fn first_message(bytes: Seq<u8>) -> Option<(Seq<u8>, Seq<u8>)> {
    let begun = past_zeros(bytes);
    if exists|at: int| first_zero(begun, at) {
        let at = choose|at: int| first_zero(begun, at);
        Some((begun.take(at), begun.skip(at + 1)))
    } else {
        None
    }
}

/// A payload with its terminator.
pub open spec fn framed(payload: Seq<u8>) -> Seq<u8> {
    payload.push(0)
}

/// A payload that can be framed: it holds no zero, and it is not empty.
pub open spec fn frameable(payload: Seq<u8>) -> bool {
    &&& payload.len() > 0
    &&& forall|i: int| 0 <= i < payload.len() ==> payload[i] != 0
}

/// The first zero is where it is.
pub proof fn lemma_first_zero(bytes: Seq<u8>, at: int)
    requires
        first_zero(bytes, at),
    ensures
        (choose|i: int| first_zero(bytes, i)) == at,
{
    let chosen = choose|i: int| first_zero(bytes, i);
    assert(first_zero(bytes, chosen));
    assert(chosen == at);
}

/// A message that never ends.
#[derive(Clone, Copy, Debug, PartialEq, Eq)]
pub struct TooLarge {
    pub limit: usize,
}

/// Splits a stream of bytes into messages.
#[derive(Debug)]
pub struct Framed {
    /// Bytes read but not yet handed out.
    buffer: Vec<u8>,
    /// How far into the buffer a terminator has been looked for, so that a
    /// further chunk does not have the whole message searched again.
    scanned: usize,
    limit: usize,
}

impl Framed {
    /// The bytes that have been read and not yet handed out.
    pub closed spec fn pending(&self) -> Seq<u8> {
        self.buffer@
    }

    /// How many bytes a message may have before it is given up.
    pub closed spec fn bound(&self) -> usize {
        self.limit
    }

    /// What has been searched holds no terminator.
    #[verifier::type_invariant]
    spec fn searched(self) -> bool {
        &&& self.scanned <= self.buffer@.len()
        &&& forall|i: int| 0 <= i < self.scanned ==> self.buffer@[i] != 0
    }

    /// A stream with nothing read yet.
    pub fn new() -> (stream: Framed)
        ensures
            stream.pending() == Seq::<u8>::empty(),
            stream.bound() == MAX_MESSAGE_BYTES,
    {
        Framed::with_limit(MAX_MESSAGE_BYTES)
    }

    /// A stream with nothing read yet, and its own limit.
    pub fn with_limit(limit: usize) -> (stream: Framed)
        ensures
            stream.pending() == Seq::<u8>::empty(),
            stream.bound() == limit,
    {
        Framed { buffer: Vec::new(), scanned: 0, limit }
    }

    /// Take in a chunk as it was read.
    pub fn feed(&mut self, chunk: &[u8])
        ensures
            final(self).pending() == old(self).pending() + chunk@,
            final(self).bound() == old(self).bound(),
    {
        proof {
            use_type_invariant(&*self);
        }
        let ghost start = self.buffer@;
        let mut buffer: Vec<u8> = Vec::new();
        let scanned: usize = self.scanned;
        let mut at: usize = 0;
        while at < self.buffer.len()
            invariant
                at <= self.buffer@.len(),
                self.buffer@ == start,
                buffer@ == start.take(at as int),
            decreases self.buffer@.len() - at,
        {
            buffer.push(self.buffer[at]);
            assert(start.take(at + 1) =~= start.take(at as int).push(start[at as int]));
            at = at + 1;
        }
        assert(buffer@ =~= start);
        let mut at: usize = 0;
        while at < chunk.len()
            invariant
                at <= chunk@.len(),
                buffer@ == start + chunk@.take(at as int),
            decreases chunk@.len() - at,
        {
            buffer.push(chunk[at]);
            assert(chunk@.take(at + 1) =~= chunk@.take(at as int).push(chunk@[at as int]));
            at = at + 1;
        }
        assert(chunk@.take(at as int) =~= chunk@);
        *self = Framed { buffer, scanned, limit: self.limit };
    }

    /// The next whole message, if one has been read.
    ///
    /// Empty messages are skipped. Where there is none and what has been read
    /// exceeds the limit, the stream is given up.
    pub fn next_message(&mut self) -> (outcome: Result<Option<Vec<u8>>, TooLarge>)
        ensures
            final(self).bound() == old(self).bound(),
            match first_message(old(self).pending()) {
                Some((message, rest)) => {
                    &&& outcome matches Ok(Some(found)) && found@ == message
                    &&& final(self).pending() == rest
                },
                None => {
                    &&& final(self).pending() == past_zeros(old(self).pending())
                    &&& outcome == if final(self).pending().len() > old(self).bound() {
                        Err::<Option<Vec<u8>>, TooLarge>(TooLarge { limit: old(self).bound() })
                    } else {
                        Ok(None)
                    }
                },
            },
    {
        proof {
            use_type_invariant(&*self);
        }
        let ghost start = self.buffer@;
        let size: usize = self.buffer.len();
        let limit: usize = self.limit;
        let mut from: usize = 0;
        assert(start.skip(0) =~= start);
        while from < size && self.buffer[from] == 0
            invariant
                from <= size == self.buffer@.len(),
                self.buffer@ == start,
                past_zeros(start) == past_zeros(start.skip(from as int)),
            decreases size - from,
        {
            assert(start.skip(from as int).skip(1) =~= start.skip(from + 1));
            from = from + 1;
        }
        let ghost begun = start.skip(from as int);
        assert(past_zeros(start) == begun);
        let mut at: usize = if from < self.scanned {
            self.scanned
        } else {
            from
        };
        while at < size && self.buffer[at] != 0
            invariant
                from <= at <= size == self.buffer@.len(),
                self.buffer@ == start,
                forall|i: int| from <= i < at ==> start[i] != 0,
            decreases size - at,
        {
            at = at + 1;
        }
        let mut message: Vec<u8> = Vec::new();
        let mut i: usize = from;
        while i < at
            invariant
                from <= i <= at <= size == self.buffer@.len(),
                self.buffer@ == start,
                message@ == start.subrange(from as int, i as int),
            decreases at - i,
        {
            message.push(self.buffer[i]);
            i = i + 1;
        }
        if at < size {
            proof {
                assert(first_zero(begun, at - from)) by {
                    assert forall|i: int| 0 <= i < at - from implies begun[i] != 0 by {
                        assert(begun[i] == start[from + i]);
                    }
                }
                lemma_first_zero(begun, at - from);
                assert(message@ =~= begun.take(at - from));
            }
            let mut rest: Vec<u8> = Vec::new();
            let mut i: usize = at + 1;
            while i < size
                invariant
                    at + 1 <= i <= size == self.buffer@.len(),
                    self.buffer@ == start,
                    rest@ == start.subrange(at + 1, i as int),
                decreases size - i,
            {
                rest.push(self.buffer[i]);
                i = i + 1;
            }
            assert(rest@ =~= begun.skip(at - from + 1));
            *self = Framed { buffer: rest, scanned: 0, limit };
            Ok(Some(message))
        } else {
            proof {
                assert(message@ =~= begun);
                assert forall|i: int| !first_zero(begun, i) by {
                    if 0 <= i < begun.len() {
                        assert(begun[i] == start[from + i]);
                    }
                }
            }
            let left: usize = message.len();
            *self = Framed { buffer: message, scanned: left, limit };
            if left > limit {
                Err(TooLarge { limit })
            } else {
                Ok(None)
            }
        }
    }
}

/// Frame one message for sending: the payload, then the terminator.
pub fn frame(payload: &[u8]) -> (bytes: Vec<u8>)
    ensures
        bytes@ == framed(payload@),
{
    let mut bytes: Vec<u8> = Vec::new();
    let mut at: usize = 0;
    while at < payload.len()
        invariant
            at <= payload@.len(),
            bytes@ == payload@.take(at as int),
        decreases payload@.len() - at,
    {
        bytes.push(payload[at]);
        assert(payload@.take(at + 1) =~= payload@.take(at as int).push(payload@[at as int]));
        at = at + 1;
    }
    assert(payload@.take(at as int) =~= payload@);
    bytes.push(0);
    bytes
}

/// What is framed is read back, whole, and what follows it is left in place.
pub proof fn law_framing_round_trips(payload: Seq<u8>, rest: Seq<u8>)
    requires
        frameable(payload),
    ensures
        first_message(framed(payload) + rest) == Some((payload, rest)),
{
    let bytes = framed(payload) + rest;
    assert(bytes[0] == payload[0]);
    assert(past_zeros(bytes) == bytes);
    assert(first_zero(bytes, payload.len() as int));
    lemma_first_zero(bytes, payload.len() as int);
    assert(bytes.take(payload.len() as int) =~= payload);
    assert(bytes.skip((payload.len() + 1) as int) =~= rest);
}

/// Zeros in front of a message are skipped.
pub proof fn law_empty_messages_are_skipped(bytes: Seq<u8>)
    ensures
        first_message(seq![0u8] + bytes) == first_message(bytes),
{
    let all = seq![0u8] + bytes;
    assert(all[0] == 0);
    assert(all.skip(1) =~= bytes);
    assert(past_zeros(all) == past_zeros(bytes));
}

/// Reading further changes nothing about a message that is whole already: it is
/// the same message, and what was read is behind it.
pub proof fn law_messages_survive_chunking(bytes: Seq<u8>, more: Seq<u8>)
    requires
        first_message(bytes) is Some,
    ensures
        match first_message(bytes) {
            Some((message, rest)) => first_message(bytes + more) == Some((message, rest + more)),
            None => false,
        },
{
    let begun = past_zeros(bytes);
    let at = choose|at: int| first_zero(begun, at);
    assert(first_zero(begun, at));
    lemma_past_zeros(bytes, more);
    let all = begun + more;
    assert(first_zero(all, at));
    lemma_first_zero(all, at);
    assert(all.take(at) =~= begun.take(at));
    assert(all.skip(at + 1) =~= begun.skip(at + 1) + more);
}

proof fn lemma_past_zeros(bytes: Seq<u8>, more: Seq<u8>)
    requires
        past_zeros(bytes).len() > 0,
    ensures
        past_zeros(bytes + more) == past_zeros(bytes) + more,
    decreases bytes.len(),
{
    if bytes.len() > 0 && bytes[0] == 0 {
        assert((bytes + more).skip(1) =~= bytes.skip(1) + more);
        lemma_past_zeros(bytes.skip(1), more);
    }
}

proof fn lemma_behind_zeros(bytes: Seq<u8>)
    ensures
        past_zeros(bytes).len() <= bytes.len(),
        past_zeros(bytes).len() > 0 ==> past_zeros(bytes)[0] != 0,
        past_zeros(past_zeros(bytes)) == past_zeros(bytes),
    decreases bytes.len(),
{
    if bytes.len() > 0 && bytes[0] == 0 {
        lemma_behind_zeros(bytes.skip(1));
    }
}

/// The messages of a stream that are not empty, in order, and what is left behind
/// the last one.
pub open spec fn messages_in(bytes: Seq<u8>) -> (Seq<Seq<u8>>, Seq<u8>)
    decreases bytes.len(),
    via messages_end
{
    match first_message(bytes) {
        Some((message, rest)) => {
            let (more, left) = messages_in(rest);
            (seq![message] + more, left)
        },
        None => (Seq::empty(), past_zeros(bytes)),
    }
}

#[via_fn]
proof fn messages_end(bytes: Seq<u8>) {
    lemma_behind_zeros(bytes);
    let begun = past_zeros(bytes);
    if exists|at: int| first_zero(begun, at) {
        let at = choose|at: int| first_zero(begun, at);
        assert(first_zero(begun, at));
        assert(begun.skip(at + 1).len() < bytes.len());
    }
}

proof fn lemma_first_is_shorter(bytes: Seq<u8>)
    requires
        first_message(bytes) is Some,
    ensures
        first_message(bytes) matches Some((_, rest)) && rest.len() < bytes.len(),
{
    lemma_behind_zeros(bytes);
    let begun = past_zeros(bytes);
    let at = choose|at: int| first_zero(begun, at);
    assert(first_zero(begun, at));
}

proof fn lemma_zeros_ahead(bytes: Seq<u8>, more: Seq<u8>)
    ensures
        past_zeros(past_zeros(bytes) + more) == past_zeros(bytes + more),
    decreases bytes.len(),
{
    if past_zeros(bytes).len() > 0 {
        lemma_behind_zeros(bytes);
        lemma_past_zeros(bytes, more);
        lemma_past_zeros(past_zeros(bytes), more);
    } else if bytes.len() > 0 {
        assert(bytes[0] == 0);
        assert((bytes + more)[0] == 0);
        assert((bytes + more).skip(1) =~= bytes.skip(1) + more);
        lemma_zeros_ahead(bytes.skip(1), more);
    } else {
        assert(past_zeros(bytes) + more =~= bytes + more);
    }
}

/// Reading a stream to its end, and then what comes behind it, is reading both.
proof fn lemma_read_on(bytes: Seq<u8>, more: Seq<u8>)
    ensures
        ({
            let (first, left) = messages_in(bytes);
            let (second, end) = messages_in(left + more);
            messages_in(bytes + more) == (first + second, end)
        }),
    decreases bytes.len(),
{
    let (first, left) = messages_in(bytes);
    let (second, end) = messages_in(left + more);
    match first_message(bytes) {
        Some((message, rest)) => {
            law_messages_survive_chunking(bytes, more);
            lemma_first_is_shorter(bytes);
            lemma_read_on(rest, more);
            let (others, _) = messages_in(rest);
            assert(seq![message] + (others + second) =~= first + second);
        },
        None => {
            lemma_zeros_ahead(bytes, more);
            assert(first_message(left + more) == first_message(bytes + more));
            assert(first + second =~= second);
        },
    }
}

/// The bytes of chunks, one after the other.
pub open spec fn joined(chunks: Seq<Seq<u8>>) -> Seq<u8>
    decreases chunks.len(),
{
    if chunks.len() == 0 {
        Seq::empty()
    } else {
        joined(chunks.drop_last()) + chunks.last()
    }
}

/// What is handed out where every message is taken after each chunk, and what is
/// left over.
pub open spec fn read_in_chunks(chunks: Seq<Seq<u8>>) -> (Seq<Seq<u8>>, Seq<u8>)
    decreases chunks.len(),
{
    if chunks.len() == 0 {
        (Seq::empty(), Seq::empty())
    } else {
        let (before, left) = read_in_chunks(chunks.drop_last());
        let (own, end) = messages_in(left + chunks.last());
        (before + own, end)
    }
}

/// However a stream is cut into chunks, the same messages come out of it, in the
/// same order, and the same is left over.
pub proof fn law_chunks_do_not_matter(chunks: Seq<Seq<u8>>)
    ensures
        read_in_chunks(chunks) == messages_in(joined(chunks)),
    decreases chunks.len(),
{
    if chunks.len() == 0 {
        assert(first_message(Seq::<u8>::empty()) is None);
    } else {
        law_chunks_do_not_matter(chunks.drop_last());
        lemma_read_on(joined(chunks.drop_last()), chunks.last());
    }
}

/// Payloads with their terminators, one after the other.
pub open spec fn stream_of(payloads: Seq<Seq<u8>>) -> Seq<u8>
    decreases payloads.len(),
{
    if payloads.len() == 0 {
        Seq::empty()
    } else {
        framed(payloads[0]) + stream_of(payloads.skip(1))
    }
}

/// Those of the payloads that are not empty.
pub open spec fn nonempty(payloads: Seq<Seq<u8>>) -> Seq<Seq<u8>>
    decreases payloads.len(),
{
    if payloads.len() == 0 {
        Seq::empty()
    } else if payloads[0].len() == 0 {
        nonempty(payloads.skip(1))
    } else {
        seq![payloads[0]] + nonempty(payloads.skip(1))
    }
}

/// A whole stream gives back every message that was framed into it and was not
/// empty, in order. What follows the last terminator is left over, and never
/// handed out.
pub proof fn law_a_stream_gives_back_its_messages(payloads: Seq<Seq<u8>>, tail: Seq<u8>)
    requires
        forall|i: int| 0 <= i < payloads.len() ==> !(#[trigger] payloads[i]).contains(0),
        !tail.contains(0),
    ensures
        messages_in(stream_of(payloads) + tail) == (nonempty(payloads), tail),
        first_message(tail) is None,
        past_zeros(tail) == tail,
    decreases payloads.len(),
{
    let bytes = stream_of(payloads) + tail;
    if payloads.len() == 0 {
        assert(bytes =~= tail);
        if tail.len() > 0 {
            assert(tail.contains(tail[0]));
        }
        assert(past_zeros(tail) == tail);
        assert forall|i: int| !first_zero(tail, i) by {
            if 0 <= i < tail.len() {
                assert(tail.contains(tail[i]));
            }
        }
    } else {
        let rest = stream_of(payloads.skip(1)) + tail;
        assert(bytes =~= framed(payloads[0]) + rest);
        assert forall|i: int| 0 <= i < payloads.skip(1).len() implies !(
        #[trigger] payloads.skip(1)[i]).contains(0) by {
            assert(payloads.skip(1)[i] == payloads[i + 1]);
        }
        law_a_stream_gives_back_its_messages(payloads.skip(1), tail);
        if payloads[0].len() == 0 {
            assert(bytes =~= seq![0u8] + rest);
            law_empty_messages_are_skipped(rest);
            assert(bytes[0] == 0);
            assert(bytes.skip(1) =~= rest);
        } else {
            assert forall|i: int| 0 <= i < payloads[0].len() implies payloads[0][i] != 0 by {
                assert(payloads[0].contains(payloads[0][i]));
            }
            law_framing_round_trips(payloads[0], rest);
        }
    }
}

/// A stream whose messages are within a limit is never given up, wherever a chunk
/// ends: what is left over is within the limit too.
pub proof fn law_a_stream_within_the_limit_is_read(
    payloads: Seq<Seq<u8>>,
    tail: Seq<u8>,
    limit: nat,
    upto: int,
)
    requires
        forall|i: int|
            0 <= i < payloads.len() ==> !(#[trigger] payloads[i]).contains(0) && payloads[i].len()
                <= limit,
        !tail.contains(0),
        tail.len() <= limit,
        0 <= upto <= (stream_of(payloads) + tail).len(),
    ensures
        messages_in((stream_of(payloads) + tail).take(upto)).1.len() <= limit,
    decreases payloads.len(),
{
    let bytes = stream_of(payloads) + tail;
    let seen = bytes.take(upto);
    if payloads.len() == 0 {
        assert(bytes =~= tail);
        assert forall|i: int| 0 <= i < seen.len() implies seen[i] != 0 by {
            assert(tail.contains(tail[i]));
        }
        lemma_no_message(seen);
    } else {
        let first = payloads[0];
        let size = first.len() as int;
        let rest = stream_of(payloads.skip(1)) + tail;
        assert(bytes =~= framed(first) + rest);
        if upto <= size {
            assert forall|i: int| 0 <= i < seen.len() implies seen[i] != 0 by {
                assert(seen[i] == first[i]);
                assert(first.contains(first[i]));
            }
            lemma_no_message(seen);
        } else {
            let more = rest.take(upto - size - 1);
            assert(seen =~= framed(first) + more);
            assert forall|i: int| 0 <= i < payloads.skip(1).len() implies !(
            #[trigger] payloads.skip(1)[i]).contains(0) && payloads.skip(1)[i].len() <= limit by {
                assert(payloads.skip(1)[i] == payloads[i + 1]);
            }
            law_a_stream_within_the_limit_is_read(payloads.skip(1), tail, limit, upto - size - 1);
            if size == 0 {
                assert(seen =~= seq![0u8] + more);
                law_empty_messages_are_skipped(more);
                assert(seen[0] == 0);
                assert(seen.skip(1) =~= more);
            } else {
                assert forall|i: int| 0 <= i < first.len() implies first[i] != 0 by {
                    assert(first.contains(first[i]));
                }
                law_framing_round_trips(first, more);
            }
        }
    }
}

proof fn lemma_no_message(bytes: Seq<u8>)
    requires
        forall|i: int| 0 <= i < bytes.len() ==> bytes[i] != 0,
    ensures
        messages_in(bytes) == (Seq::<Seq<u8>>::empty(), bytes),
{
    assert(past_zeros(bytes) == bytes);
    assert forall|i: int| !first_zero(bytes, i) by {
        if 0 <= i < bytes.len() {
            assert(bytes[i] != 0);
        }
    }
}

} // verus!
