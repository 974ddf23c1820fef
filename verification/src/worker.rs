//! The connection worker: what is done with one accepted connection, as a
//! state machine.
//!
//! The worker does no input or output. It says which action it is waiting
//! for; whoever owns the socket performs that action and hands the outcome
//! back as an event. Waiting for readiness and the single attempts to read
//! and to write are such actions; decoding is the worker's own.
use crate::buffer::{
    bounded_length, clear_beyond, content, is_zero_padded, lemma_zero_padded, zero_padded,
    MessageBuffer, BUFFER_CAPACITY,
};
use crate::decode::DecodeError;
use crate::request::{
    decode_request_spec, is_decoding_of, HTTPParser, HTTPRequest, HTTPRequestParser,
};
use vstd::prelude::*;
use vstd::utf8::encode_utf8;

verus! {

/// Where a worker stands.
#[derive(Debug, Clone, Copy, PartialEq, Eq, Structural)]
pub enum WorkerState {
    /// Waiting until the socket can be read.
    AwaitReadable,
    /// About to make one attempt to read.
    Reading,
    /// Holding a buffer that was read and is to be decoded.
    Decoding,
    /// Waiting until the socket can be written.
    AwaitWritable,
    /// About to make one attempt to write the reply.
    Writing,
    /// Done with the connection. Nothing follows.
    Closed,
}

/// What the owner of the socket is to do next.
#[derive(Debug, Clone, Copy, PartialEq, Eq, Structural)]
pub enum Action {
    /// Wait until the socket reports that it can be read.
    WaitReadable,
    /// Try once to read into a fresh buffer, without blocking.
    TryRead,
    /// Call [`ConnectionWorker::decode`].
    Decode,
    /// Wait until the socket reports that it can be written.
    WaitWritable,
    /// Try once to write the reply, without blocking.
    TryWrite,
    /// Release the socket.
    Close,
}

/// The outcome of an action.
#[derive(Debug, Clone, Copy)]
pub enum Event {
    /// The wait is over: the socket is ready.
    Ready,
    /// The attempt found the socket not ready.
    WouldBlock,
    /// The attempt read `count` bytes into `buffer`.
    Read { count: usize, buffer: MessageBuffer },
    /// The attempt wrote `count` bytes.
    Written { count: usize },
    /// The wait or the attempt ended in any other error.
    Failed,
}

/// Why a connection was given up.
#[derive(Debug, Clone, Copy, PartialEq, Eq, Structural)]
pub enum ConnectionError {
    /// Waiting to read, or reading, failed.
    Read,
    /// Waiting to write, or writing, failed.
    Write,
}

/// What became of the buffer that was read.
#[derive(Debug, Clone, Copy, PartialEq, Eq, Structural)]
pub enum DecodeStatus {
    /// The decoder was not called.
    NotAttempted,
    /// The buffer was decoded to a message.
    Decoded,
    /// The buffer is not well-formed UTF-8. The connection goes on all the
    /// same: the reply is still sent.
    Rejected,
}

/// The action that a state waits for.
pub open spec fn action_for(state: WorkerState) -> Action {
    match state {
        WorkerState::AwaitReadable => Action::WaitReadable,
        WorkerState::Reading => Action::TryRead,
        WorkerState::Decoding => Action::Decode,
        WorkerState::AwaitWritable => Action::WaitWritable,
        WorkerState::Writing => Action::TryWrite,
        WorkerState::Closed => Action::Close,
    }
}

/// The text of the reply. It is the same for every request.
pub open spec fn reply_text() -> Seq<char> {
    "HTTP/1.1 200 OK\n\n<h1>Hello traveller</h1>"@
}

/// What a worker is.
pub struct WorkerView {
    pub state: WorkerState,
    /// How many bytes the read gave; 0 until there was one.
    pub bytes_read: nat,
    /// The buffer that was read, with zeros after the bytes that were read.
    pub buffer: Seq<u8>,
    pub decode: DecodeStatus,
    pub error: Option<ConnectionError>,
}

impl WorkerView {
    /// A worker for a connection that was just accepted.
    pub open spec fn initial() -> WorkerView {
        WorkerView {
            state: WorkerState::AwaitReadable,
            bytes_read: 0,
            buffer: zero_padded(Seq::empty(), 0),
            decode: DecodeStatus::NotAttempted,
            error: None,
        }
    }

    /// The worker after it gave the connection up for `error`.
    pub open spec fn failed(self, error: ConnectionError) -> WorkerView {
        WorkerView { state: WorkerState::Closed, error: Some(error), ..self }
    }

    /// The worker in another state, all else unchanged.
    pub open spec fn moved_to(self, state: WorkerState) -> WorkerView {
        WorkerView { state, ..self }
    }

    /// `event` is an outcome of the action that the worker waits for.
    pub open spec fn expects(self, event: Event) -> bool {
        match self.state {
            WorkerState::AwaitReadable | WorkerState::AwaitWritable => event is Ready
                || event is Failed,
            WorkerState::Reading => event is Read || event is WouldBlock || event is Failed,
            WorkerState::Writing => event is Written || event is WouldBlock || event is Failed,
            WorkerState::Decoding | WorkerState::Closed => false,
        }
    }

    /// The worker after `event`.
    ///
    /// - Waiting for readiness ends in the attempt, or in failure.
    /// - A read of no bytes means that the peer has closed: the worker is
    ///   done, and nothing is decoded. A read of some bytes is taken for the
    ///   whole message, whatever their number: the buffer is kept, cleared
    ///   after those bytes, to be decoded. No second read is made.
    /// - A write of any number of bytes ends the connection, even where it
    ///   is fewer than the reply has. No second write is made.
    /// - An attempt that would block goes back to waiting.
    /// - Any other error ends the connection.
    /// - An event that is no outcome of the awaited action changes nothing.
    pub open spec fn step(self, event: Event) -> WorkerView {
        match (self.state, event) {
            (WorkerState::AwaitReadable, Event::Ready) => self.moved_to(WorkerState::Reading),
            (WorkerState::AwaitReadable, Event::Failed) => self.failed(ConnectionError::Read),
            (WorkerState::Reading, Event::Read { count, buffer }) => if count == 0 {
                self.moved_to(WorkerState::Closed)
            } else {
                WorkerView {
                    state: WorkerState::Decoding,
                    bytes_read: bounded_length(count as nat),
                    buffer: zero_padded(buffer@, count as nat),
                    ..self
                }
            },
            (WorkerState::Reading, Event::WouldBlock) => self.moved_to(WorkerState::AwaitReadable),
            (WorkerState::Reading, Event::Failed) => self.failed(ConnectionError::Read),
            (WorkerState::AwaitWritable, Event::Ready) => self.moved_to(WorkerState::Writing),
            (WorkerState::AwaitWritable, Event::Failed) => self.failed(ConnectionError::Write),
            (WorkerState::Writing, Event::Written { count }) => self.moved_to(WorkerState::Closed),
            (WorkerState::Writing, Event::WouldBlock) => self.moved_to(WorkerState::AwaitWritable),
            (WorkerState::Writing, Event::Failed) => self.failed(ConnectionError::Write),
            _ => self,
        }
    }

    /// The worker after decoding. A worker that holds a buffer to decode goes
    /// on to the reply whether or not the buffer could be decoded; the status
    /// records which. Any other worker is left as it is.
    pub open spec fn decoded(self) -> WorkerView {
        if self.state == WorkerState::Decoding {
            WorkerView {
                state: WorkerState::AwaitWritable,
                decode: if decode_request_spec(self.buffer, self.bytes_read) is Ok {
                    DecodeStatus::Decoded
                } else {
                    DecodeStatus::Rejected
                },
                ..self
            }
        } else {
            self
        }
    }

    /// The worker after a sequence of events, taken in order.
    pub open spec fn run(self, events: Seq<Event>) -> WorkerView
        decreases events.len(),
    {
        if events.len() == 0 {
            self
        } else {
            self.step(events.first()).run(events.drop_first())
        }
    }

    /// What holds of a worker at all times.
    ///
    /// - The buffer has its full length, and only zeros after the bytes
    ///   that were read.
    /// - Before the read there is nothing read, decoded or failed.
    /// - The decoder is called on a buffer that was read with at least one
    ///   byte, and nowhere else; the reply is prepared only after it was.
    /// - A failure closes the connection.
    pub open spec fn consistent(self) -> bool {
        &&& self.bytes_read <= BUFFER_CAPACITY
        &&& is_zero_padded(self.buffer, self.bytes_read)
        &&& match self.state {
            WorkerState::AwaitReadable | WorkerState::Reading => {
                &&& self.bytes_read == 0
                &&& self.decode == DecodeStatus::NotAttempted
                &&& self.error is None
            },
            WorkerState::Decoding => {
                &&& self.bytes_read > 0
                &&& self.decode == DecodeStatus::NotAttempted
                &&& self.error is None
            },
            WorkerState::AwaitWritable | WorkerState::Writing => {
                &&& self.bytes_read > 0
                &&& self.decode != DecodeStatus::NotAttempted
                &&& self.error is None
            },
            WorkerState::Closed => {
                &&& self.error == Some(ConnectionError::Write) ==> self.decode
                    != DecodeStatus::NotAttempted
                &&& self.error == Some(ConnectionError::Read) ==> self.decode
                    == DecodeStatus::NotAttempted
            },
        }
        &&& self.bytes_read == 0 ==> self.decode == DecodeStatus::NotAttempted
        &&& self.decode == DecodeStatus::Decoded ==> decode_request_spec(
            self.buffer,
            self.bytes_read,
        ) is Ok
        &&& self.decode == DecodeStatus::Rejected ==> decode_request_spec(
            self.buffer,
            self.bytes_read,
        ) is Err
    }
}

/// The two events of one fruitless round: readiness, then an attempt that
/// would block.
pub open spec fn blocked_round() -> Seq<Event> {
    seq![Event::Ready, Event::WouldBlock]
}

/// `rounds` fruitless rounds, one after the other.
pub open spec fn blocked_rounds(rounds: nat) -> Seq<Event>
    decreases rounds,
{
    if rounds == 0 {
        Seq::empty()
    } else {
        blocked_round() + blocked_rounds((rounds - 1) as nat)
    }
}

/// The worker for one connection.
#[derive(Debug, Clone, Copy)]
pub struct ConnectionWorker {
    state: WorkerState,
    bytes_read: usize,
    buffer: MessageBuffer,
    decode: DecodeStatus,
    error: Option<ConnectionError>,
}

impl View for ConnectionWorker {
    type V = WorkerView;

    closed spec fn view(&self) -> WorkerView {
        WorkerView {
            state: self.state,
            bytes_read: self.bytes_read as nat,
            buffer: self.buffer@,
            decode: self.decode,
            error: self.error,
        }
    }
}

impl ConnectionWorker {
    #[verifier::type_invariant]
    spec fn well_formed(&self) -> bool {
        self@.consistent()
    }

    /// A worker for a connection that was just accepted.
    pub fn new() -> (worker: Self)
        ensures
            worker@ == WorkerView::initial(),
            worker@.consistent(),
    {
        let worker = ConnectionWorker {
            state: WorkerState::AwaitReadable,
            bytes_read: 0,
            buffer: [0u8; 4096],
            decode: DecodeStatus::NotAttempted,
            error: None,
        };
        proof {
            assert(worker.buffer@ =~= zero_padded(Seq::empty(), 0));
        }
        worker
    }

    /// Where the worker stands.
    pub fn state(&self) -> (state: WorkerState)
        ensures
            state == self@.state,
            self@.consistent(),
    {
        proof {
            use_type_invariant(self);
        }
        self.state
    }

    /// What is to be done next for this worker.
    pub fn action(&self) -> (action: Action)
        ensures
            action == action_for(self@.state),
    {
        match self.state {
            WorkerState::AwaitReadable => Action::WaitReadable,
            WorkerState::Reading => Action::TryRead,
            WorkerState::Decoding => Action::Decode,
            WorkerState::AwaitWritable => Action::WaitWritable,
            WorkerState::Writing => Action::TryWrite,
            WorkerState::Closed => Action::Close,
        }
    }

    /// The number of bytes that the read gave, 0 before there was one.
    pub fn bytes_read(&self) -> (count: usize)
        ensures
            count == self@.bytes_read,
            count <= BUFFER_CAPACITY,
    {
        proof {
            use_type_invariant(self);
        }
        self.bytes_read
    }

    /// The buffer that was read.
    pub fn buffer(&self) -> (buffer: &MessageBuffer)
        ensures
            buffer@ == self@.buffer,
            is_zero_padded(buffer@, self@.bytes_read),
    {
        proof {
            use_type_invariant(self);
        }
        &self.buffer
    }

    /// What became of the buffer that was read.
    pub fn decode_status(&self) -> (status: DecodeStatus)
        ensures
            status == self@.decode,
    {
        self.decode
    }

    /// Why the connection was given up, if it was.
    pub fn error(&self) -> (error: Option<ConnectionError>)
        ensures
            error == self@.error,
            error is Some ==> self@.state == WorkerState::Closed,
    {
        proof {
            use_type_invariant(self);
        }
        self.error
    }

    /// The reply, which is the same whatever was read.
    pub fn reply() -> (payload: &'static [u8])
        ensures
            payload@ == encode_utf8(reply_text()),
    {
        "HTTP/1.1 200 OK\n\n<h1>Hello traveller</h1>".as_bytes()
    }

    /// Takes the outcome of the action that was performed for the worker.
    pub fn step(&mut self, event: Event)
        ensures
            final(self)@ == old(self)@.step(event),
            final(self)@.consistent(),
    {
        proof {
            use_type_invariant(&*self);
            lemma_step_keeps_consistent(self@, event);
        }
        let ghost before = self@;
        match (self.state, event) {
            (WorkerState::AwaitReadable, Event::Ready) => {
                *self = ConnectionWorker { state: WorkerState::Reading, ..*self };
            },
            (WorkerState::AwaitReadable, Event::Failed) => {
                *self = ConnectionWorker {
                    state: WorkerState::Closed,
                    error: Some(ConnectionError::Read),
                    ..*self
                };
            },
            (WorkerState::Reading, Event::Read { count, buffer }) => {
                if count == 0 {
                    *self = ConnectionWorker { state: WorkerState::Closed, ..*self };
                } else {
                    let mut kept = buffer;
                    clear_beyond(&mut kept, count);
                    *self = ConnectionWorker {
                        state: WorkerState::Decoding,
                        bytes_read: if count <= BUFFER_CAPACITY {
                            count
                        } else {
                            BUFFER_CAPACITY
                        },
                        buffer: kept,
                        ..*self
                    };
                }
            },
            (WorkerState::Reading, Event::WouldBlock) => {
                *self = ConnectionWorker { state: WorkerState::AwaitReadable, ..*self };
            },
            (WorkerState::Reading, Event::Failed) => {
                *self = ConnectionWorker {
                    state: WorkerState::Closed,
                    error: Some(ConnectionError::Read),
                    ..*self
                };
            },
            (WorkerState::AwaitWritable, Event::Ready) => {
                *self = ConnectionWorker { state: WorkerState::Writing, ..*self };
            },
            (WorkerState::AwaitWritable, Event::Failed) => {
                *self = ConnectionWorker {
                    state: WorkerState::Closed,
                    error: Some(ConnectionError::Write),
                    ..*self
                };
            },
            (WorkerState::Writing, Event::Written { count }) => {
                *self = ConnectionWorker { state: WorkerState::Closed, ..*self };
            },
            (WorkerState::Writing, Event::WouldBlock) => {
                *self = ConnectionWorker { state: WorkerState::AwaitWritable, ..*self };
            },
            (WorkerState::Writing, Event::Failed) => {
                *self = ConnectionWorker {
                    state: WorkerState::Closed,
                    error: Some(ConnectionError::Write),
                    ..*self
                };
            },
            _ => {},
        }
    }

    /// Decodes the buffer that was read, if the worker holds one to decode,
    /// and goes on to the reply. The headers are those of the bytes that
    /// were read; the padding after them is looked at for none. Returns the
    /// message, or why there is none;
    /// `None` where the worker had nothing to decode, in which case the
    /// decoder was not called and the worker is unchanged.
    ///
    /// A buffer that cannot be decoded does not end the connection. The error
    /// is returned and recorded, and the reply is sent as for any request.
    pub fn decode(&mut self) -> (r: Option<Result<HTTPRequest, DecodeError>>)
        ensures
            final(self)@ == old(self)@.decoded(),
            final(self)@.consistent(),
            old(self)@.state != WorkerState::Decoding ==> r is None,
            old(self)@.state == WorkerState::Decoding ==> r is Some && is_decoding_of(
                old(self)@.buffer,
                old(self)@.bytes_read,
                r->Some_0,
            ),
    {
        proof {
            use_type_invariant(&*self);
            lemma_decoded_keeps_consistent(self@);
        }
        match self.state {
            WorkerState::Decoding => {
                let result = HTTPRequestParser::with_length(&self.buffer, self.bytes_read).parse();
                let status = match &result {
                    Ok(_) => DecodeStatus::Decoded,
                    Err(_) => DecodeStatus::Rejected,
                };
                *self = ConnectionWorker {
                    state: WorkerState::AwaitWritable,
                    decode: status,
                    ..*self
                };
                Some(result)
            },
            _ => None,
        }
    }
}

/// A new worker is as it should be.
pub proof fn lemma_initial_consistent()
    ensures
        WorkerView::initial().consistent(),
{
}

/// No event leads a worker out of what holds at all times.
pub proof fn lemma_step_keeps_consistent(worker: WorkerView, event: Event)
    requires
        worker.consistent(),
    ensures
        worker.step(event).consistent(),
{
    if let Event::Read { count, buffer } = event {
        lemma_zero_padded(buffer@, count as nat);
    }
}

/// Decoding does not lead a worker out of what holds at all times.
pub proof fn lemma_decoded_keeps_consistent(worker: WorkerView)
    requires
        worker.consistent(),
    ensures
        worker.decoded().consistent(),
{
}

/// No sequence of events leads a worker out of what holds at all times.
pub proof fn lemma_run_keeps_consistent(worker: WorkerView, events: Seq<Event>)
    requires
        worker.consistent(),
    ensures
        worker.run(events).consistent(),
    decreases events.len(),
{
    if events.len() > 0 {
        lemma_step_keeps_consistent(worker, events.first());
        lemma_run_keeps_consistent(worker.step(events.first()), events.drop_first());
    }
}

/// Taking two sequences of events one after the other is taking their
/// concatenation.
pub proof fn lemma_run_concat(worker: WorkerView, first: Seq<Event>, second: Seq<Event>)
    ensures
        worker.run(first + second) == worker.run(first).run(second),
    decreases first.len(),
{
    if first.len() == 0 {
        assert(first + second =~= second);
    } else {
        let all = first + second;
        assert(all.first() == first.first());
        assert(all.drop_first() =~= first.drop_first() + second);
        lemma_run_concat(worker.step(first.first()), first.drop_first(), second);
    }
}

/// An event that is no outcome of the action that the worker waits for
/// changes nothing. While the worker has a buffer to decode, and once it is
/// closed, that is every event.
pub proof fn lemma_unexpected_event_is_ignored(worker: WorkerView, event: Event)
    requires
        !worker.expects(event),
    ensures
        worker.step(event) == worker,
{
}

/// A closed worker stays as it is: no event and no call of the decoder
/// changes anything in it.
pub proof fn lemma_closed_is_final(worker: WorkerView, events: Seq<Event>)
    requires
        worker.state == WorkerState::Closed,
    ensures
        worker.run(events) == worker,
        worker.decoded() == worker,
    decreases events.len(),
{
    if events.len() > 0 {
        lemma_closed_is_final(worker, events.drop_first());
    }
}

/// A read of no bytes closes the connection without an error, and the
/// decoder is not called for it, then or later.
pub proof fn lemma_zero_length_read_closes(
    worker: WorkerView,
    buffer: MessageBuffer,
    later: Seq<Event>,
)
    requires
        worker.consistent(),
        worker.state == WorkerState::Reading,
    ensures
        ({
            let closed = worker.step(Event::Read { count: 0, buffer });
            &&& closed.state == WorkerState::Closed
            &&& closed.error is None
            &&& closed.decode == DecodeStatus::NotAttempted
            &&& closed.decoded() == closed
            &&& closed.run(later) == closed
            &&& closed.run(later).decoded() == closed
        }),
{
    lemma_closed_is_final(worker.step(Event::Read { count: 0, buffer }), later);
}

/// Rounds in which the socket is reported ready and the attempt then finds
/// that it would block leave a waiting worker exactly as it was, however
/// many there are: none of them fails the connection or counts as the read
/// or the write.
pub proof fn lemma_blocked_rounds_change_nothing(worker: WorkerView, rounds: nat)
    requires
        worker.state == WorkerState::AwaitReadable || worker.state == WorkerState::AwaitWritable,
    ensures
        worker.run(blocked_rounds(rounds)) == worker,
    decreases rounds,
{
    if rounds > 0 {
        let round = blocked_round();
        assert(round.drop_first() =~= seq![Event::WouldBlock]);
        assert(round.drop_first().drop_first() =~= Seq::<Event>::empty());
        assert(worker.run(round) == worker) by {
            reveal_with_fuel(WorkerView::run, 3);
        }
        lemma_run_concat(worker, round, blocked_rounds((rounds - 1) as nat));
        lemma_blocked_rounds_change_nothing(worker, (rounds - 1) as nat);
    }
}

/// A read that succeeds after any number of blocked rounds gives what it
/// would have given at once: the worker holds the buffer that was read, no
/// error, and decoding it yields the message of that buffer and goes on to
/// the reply.
pub proof fn lemma_read_after_blocked_rounds(rounds: nat, count: usize, buffer: MessageBuffer)
    requires
        count > 0,
    ensures
        ({
            let events = blocked_rounds(rounds) + seq![Event::Ready, Event::Read { count, buffer }];
            let worker = WorkerView::initial().run(events);
            &&& worker == WorkerView::initial().run(
                seq![Event::Ready, Event::Read { count, buffer }],
            )
            &&& worker.state == WorkerState::Decoding
            &&& worker.error is None
            &&& worker.buffer == zero_padded(buffer@, count as nat)
            &&& worker.bytes_read == bounded_length(count as nat)
            &&& content(worker.buffer, worker.bytes_read) == content(
                buffer@,
                bounded_length(count as nat),
            )
            &&& worker.decoded().state == WorkerState::AwaitWritable
            &&& worker.decoded().decode == DecodeStatus::Decoded <==> decode_request_spec(
                zero_padded(buffer@, count as nat),
                bounded_length(count as nat),
            ) is Ok
        }),
{
    let start = WorkerView::initial();
    let read = seq![Event::Ready, Event::Read { count, buffer }];
    lemma_blocked_rounds_change_nothing(start, rounds);
    lemma_run_concat(start, blocked_rounds(rounds), read);
    assert(read.drop_first() =~= seq![Event::Read { count, buffer }]);
    assert(read.drop_first().drop_first() =~= Seq::<Event>::empty());
    assert(start.run(read) == start.step(Event::Ready).step(Event::Read { count, buffer })) by {
        reveal_with_fuel(WorkerView::run, 3);
    }
    assert(content(zero_padded(buffer@, count as nat), bounded_length(count as nat)) =~= content(
        buffer@,
        bounded_length(count as nat),
    ));
}

/// Whatever was read, once it has been through the decoder the worker asks
/// for the reply to be written as soon as the socket is ready, and the
/// reply does not depend on what was read.
pub proof fn lemma_reply_follows_decoding(worker: WorkerView)
    requires
        worker.state == WorkerState::Decoding,
    ensures
        action_for(worker.decoded().state) == Action::WaitWritable,
        action_for(worker.decoded().step(Event::Ready).state) == Action::TryWrite,
        forall|count: usize|
            worker.decoded().step(Event::Ready).step(Event::Written { count }).state
                == WorkerState::Closed,
{
}

} // verus!
