//! One connection: from the first byte of a request to the last byte of its answer.
//!
//! A [`Connection`] says which operation comes next, and is told of its outcome by
//! [`Connection::advance`]. `F` is an open file.

use vstd::prelude::*;
use vstd::utf8::encode_utf8;

use crate::bytes::{decimal_spec, lemma_find, push_bytes, text};
use crate::handshake::{
    law_handshake_fails_for_a_reason, Handshake, HandshakeStep, TlsEvent,
};
use crate::io::ErrorKind;
use crate::request::{
    all_fit_in_target, encodes, head_end, headers_end, known_version,
    law_every_path_can_be_asked_for, law_head_end_is_stable, law_parse_of_complete_head,
    lemma_head_terminator, lemma_line_terminator, line_of, parsed, Method, Request,
};
use crate::response::{error_lines, head, law_error_header_bytes, Response};

verus! {

/// How many bytes of a file are sent at a time.
pub const CHUNK_SIZE: usize = 8 * 1024;

/// How many bytes of request headers are received at most.
pub const MAX_RECEIVED_HEADERS_SIZE: usize = 4 * 1024;

/// Nanoseconds for receiving complete request headers after a connection is accepted,
/// and for each later phase of it. Guards against Slowloris-style attacks that hold
/// connections open with partial headers.
pub const HEADER_TIMEOUT: u64 = 5_000_000_000;

/// Nanoseconds that an idle keep-alive connection may wait for the next request.
pub const IDLE_TIMEOUT: u64 = 30_000_000_000;

/// What the bytes received so far call for.
#[derive(Debug)]
pub enum Answer {
    /// The headers are not complete yet.
    Wait,
    /// The buffer is full and the headers are not complete.
    TooLarge,
    BadRequest,
    MethodNotAllowed,
    /// The file at this path.
    Serve(String),
}

/// The value of an [`Answer`].
pub ghost enum AnswerSpec {
    Wait,
    TooLarge,
    BadRequest,
    MethodNotAllowed,
    Serve(Seq<char>),
}

impl View for Answer {
    type V = AnswerSpec;

    open spec fn view(&self) -> AnswerSpec {
        match self {
            Answer::Wait => AnswerSpec::Wait,
            Answer::TooLarge => AnswerSpec::TooLarge,
            Answer::BadRequest => AnswerSpec::BadRequest,
            Answer::MethodNotAllowed => AnswerSpec::MethodNotAllowed,
            Answer::Serve(path) => AnswerSpec::Serve(path@),
        }
    }
}

/// What `received` calls for: once the headers are complete, the file that a `GET`
/// asks for, a refusal of any other method, or a refusal of what is no request.
pub open spec fn answer_to(received: Seq<u8>) -> AnswerSpec {
    match head_end(received) {
        Some(end) => match parsed(received.take(end)) {
            Some((method, path)) => if method == "GET"@ {
                AnswerSpec::Serve(path)
            } else {
                AnswerSpec::MethodNotAllowed
            },
            None => AnswerSpec::BadRequest,
        },
        None => if received.len() == MAX_RECEIVED_HEADERS_SIZE {
            AnswerSpec::TooLarge
        } else {
            AnswerSpec::Wait
        },
    }
}

/// Decides what the bytes received so far call for.
pub fn answer(received: &[u8]) -> (r: Answer)
    ensures
        r@ == answer_to(received@),
{
    match headers_end(received) {
        Some(end) => {
            let complete = &received[0..end];
            assert(complete@ =~= received@.take(end as int));
            match Request::parse(complete) {
                Ok(request) => match request.method {
                    Method::Get => Answer::Serve(request.path),
                    Method::Other(_) => Answer::MethodNotAllowed,
                },
                Err(_) => Answer::BadRequest,
            }
        },
        None => {
            if received.len() == MAX_RECEIVED_HEADERS_SIZE {
                Answer::TooLarge
            } else {
                Answer::Wait
            }
        },
    }
}

/// A file that is streamed to the client.
pub struct Sending<F> {
    pub file: F,
    pub keepalive: bool,
    pub offset: i64,
}

impl<F> Sending<F> {
    /// Whether data remains, after one chunk was sent with this outcome; `None` if the
    /// connection is lost.
    pub open spec fn sent(result: Result<usize, ErrorKind>) -> Option<bool> {
        match result {
            Ok(n) => Some(n > 0),
            Err(kind) => if kind.transient() {
                Some(true)
            } else {
                None
            },
        }
    }

    /// Whether data remains, after one chunk was read with this outcome and then
    /// written or not; `None` if the connection is lost.
    pub open spec fn copied(read: Result<usize, ErrorKind>, written: bool) -> Option<bool> {
        match read {
            Ok(n) => if n == 0 {
                Some(false)
            } else if written {
                Some(true)
            } else {
                None
            },
            Err(kind) => if kind == ErrorKind::WouldBlock {
                Some(true)
            } else {
                None
            },
        }
    }

    /// Takes note that the system sent one chunk and left the file at `offset`.
    /// Returns `Some(true)` while more data remains, `Some(false)` on clean EOF,
    /// `None` on an unrecoverable I/O error.
    pub fn step(&mut self, offset: i64, result: Result<usize, ErrorKind>) -> (r: Option<bool>)
        ensures
            *final(self) == (Sending { offset, ..*old(self) }),
            r == Self::sent(result),
    {
        self.offset = offset;
        match result {
            Ok(n) => Some(n > 0),
            Err(kind) => if kind.is_transient() {
                Some(true)
            } else {
                None
            },
        }
    }

    /// Takes note that one chunk was read from the file and then, if it held anything,
    /// written to the socket, where the system cannot do both at once.
    pub fn copy_step(read: Result<usize, ErrorKind>, written: bool) -> (r: Option<bool>)
        ensures
            r == Self::copied(read, written),
    {
        match read {
            Ok(n) => if n == 0 {
                Some(false)
            } else if written {
                Some(true)
            } else {
                None
            },
            Err(kind) => if kind == ErrorKind::WouldBlock {
                Some(true)
            } else {
                None
            },
        }
    }
}

pub enum AfterWrite<F> {
    /// After flushing the header, start streaming this file.
    File(Sending<F>),
    /// After flushing, close the connection.
    Close,
}

pub enum State<F> {
    /// Performing the TLS handshake before any HTTP traffic.
    TlsHandshaking(Handshake),
    /// Accumulating incoming bytes until the full HTTP headers have arrived.
    Connecting { buf: Vec<u8> },
    /// The file that the request asks for is being looked up.
    Answering { keepalive: bool },
    /// Draining `buf[written..]` to the socket; transitions via `after` when the buffer
    /// is fully flushed.
    Writing { buf: Vec<u8>, written: usize, after: AfterWrite<F> },
    /// Headers sent; streaming the file response.
    Sending(Sending<F>),
    /// The connection is over.
    Done,
}

impl<F> State<F> {
    pub open spec fn wf(self) -> bool {
        match self {
            State::TlsHandshaking(handshake) => handshake.wf(),
            State::Connecting { buf } => buf@.len() <= MAX_RECEIVED_HEADERS_SIZE,
            State::Writing { buf, written, .. } => written <= buf@.len(),
            _ => true,
        }
    }

    pub open spec fn is_connecting(self, received: Seq<u8>) -> bool {
        self matches State::Connecting { buf } && buf@ == received
    }

    pub open spec fn is_writing(self, message: Seq<u8>, sent: int, next: AfterWrite<F>) -> bool {
        self matches State::Writing { buf, written, after } && buf@ == message && written == sent
            && after == next
    }

    /// What is still to be written to the socket.
    pub open spec fn pending(self) -> Seq<u8> {
        match self {
            State::Writing { buf, written, .. } => buf@.skip(written as int),
            _ => Seq::empty(),
        }
    }
}

/// The outcome of an operation.
pub enum Event<F> {
    /// It is this connection's turn.
    Turn,
    Tls(TlsEvent),
    /// Bytes were read; none at the end of the stream, or if there was room for none.
    Received(Result<Vec<u8>, ErrorKind>),
    /// The request's file was looked up.
    Respond(Response<F>),
    /// So many of the pending bytes were written.
    Written(Result<usize, ErrorKind>),
    /// The system sent so many bytes of the file, and left it at `offset`.
    Sent { offset: i64, result: Result<usize, ErrorKind> },
    /// So many bytes were read from the file, and written or not.
    Copied { read: Result<usize, ErrorKind>, written: bool },
}

/// What is to be done with a connection.
pub enum Action {
    /// Nothing before its next turn.
    Keep,
    /// Drop it.
    Drop,
    /// Perform the operation of its handshake.
    Handshake,
    /// Read as many bytes as there is room for.
    Receive { room: usize },
    /// Look up the file at this path of the site.
    Serve { path: String },
    /// Write the pending bytes.
    Transmit,
    /// Send the next chunk of its file.
    SendFile,
}

/// An action, and how the socket is to be corked before it, if at all. A corked socket
/// holds back packets that are not full.
pub struct Step {
    pub cork: Option<bool>,
    pub action: Action,
}

impl Step {
    pub open spec fn keeps(self) -> bool {
        self.cork is None && self.action is Keep
    }

    pub open spec fn drops(self) -> bool {
        self.cork is None && self.action is Drop
    }
}

pub struct Connection<F> {
    pub state: State<F>,
    /// The time after which this connection is forcibly dropped.
    /// Reset on each state transition so the timeout tracks the *current* phase.
    pub deadline: u128,
}

/// The time `timeout` after `now`. No sum of the two is too large for a deadline.
fn deadline_after(now: u64, timeout: u64) -> (r: u128)
    ensures
        r == now + timeout,
{
    now as u128 + timeout as u128
}

/// The bytes of an error response.
pub open spec fn error_message(status: u16, reason: &str, body: &str) -> Seq<u8> {
    head(error_lines(status, reason, text(body).len())) + text(body)
}

/// The operation that a state calls for when it is the connection's turn.
pub open spec fn calls_for<F>(state: State<F>, step: Step) -> bool {
    &&& step.cork is None
    &&& match state {
        State::TlsHandshaking(_) => step.action is Handshake,
        State::Connecting { buf } => step.action == (Action::Receive {
            room: (MAX_RECEIVED_HEADERS_SIZE - buf@.len()) as usize,
        }),
        State::Writing { .. } => step.action is Transmit,
        State::Sending(_) => step.action is SendFile,
        State::Answering { .. } => step.action is Drop,
        State::Done => step.action is Drop,
    }
}

impl<F> Connection<F> {
    pub open spec fn wf(self) -> bool {
        self.state.wf()
    }

    /// An event that this connection can have: no more is read than there is room for,
    /// and no more is written than is pending.
    pub open spec fn admits(self, event: Event<F>) -> bool {
        match (self.state, event) {
            (State::TlsHandshaking(handshake), Event::Tls(e)) => handshake.admits(e),
            (State::Connecting { buf }, Event::Received(Ok(bytes))) => buf@.len() + bytes@.len()
                <= MAX_RECEIVED_HEADERS_SIZE,
            (State::Writing { buf, written, .. }, Event::Written(Ok(n))) => written + n
                <= buf@.len(),
            _ => true,
        }
    }

    /// The connection is over.
    pub open spec fn over(self, step: Step) -> bool {
        self.state is Done && step.drops()
    }

    /// The connection has taken up `response` at `now`, and will afterwards wait for
    /// another request if `keepalive` holds and it sends a file.
    pub open spec fn queued(
        self,
        now: u64,
        response: Response<F>,
        keepalive: bool,
        cork: Option<bool>,
    ) -> bool {
        &&& self.deadline == now + HEADER_TIMEOUT
        &&& match response {
            Response::File { header, file } => {
                &&& cork == Some(true)
                &&& self.state.is_writing(
                    header@,
                    0,
                    AfterWrite::File(Sending { file, keepalive, offset: 0 }),
                )
            },
            Response::Bytes { header, body } => {
                &&& cork is None
                &&& self.state.is_writing(header@ + body@, 0, AfterWrite::Close)
            },
        }
    }

    /// The connection has taken up the error response with the bytes `message`.
    pub open spec fn refuses(self, now: u64, message: Seq<u8>, step: Step) -> bool {
        &&& step.keeps()
        &&& self.deadline == now + HEADER_TIMEOUT
        &&& self.state.is_writing(message, 0, AfterWrite::Close)
    }

    /// The connection does at `now` what the bytes `received` call for.
    pub open spec fn answers(self, was: Self, now: u64, received: Seq<u8>, step: Step) -> bool {
        match answer_to(received) {
            AnswerSpec::Wait => {
                &&& step.keeps()
                &&& self.deadline == was.deadline
                &&& self.state.is_connecting(received)
            },
            AnswerSpec::TooLarge => self.refuses(
                now,
                error_message(
                    431,
                    "Request Header Fields Too Large",
                    "431 Request Header Fields Too Large",
                ),
                step,
            ),
            AnswerSpec::BadRequest => self.refuses(
                now,
                error_message(400, "Bad Request", "400 Bad Request"),
                step,
            ),
            AnswerSpec::MethodNotAllowed => self.refuses(
                now,
                error_message(405, "Method Not Allowed", "405 Method Not Allowed"),
                step,
            ),
            AnswerSpec::Serve(asked) => {
                &&& step.cork is None
                &&& step.action matches Action::Serve { path } && path@ == asked
                &&& self.deadline == was.deadline
                &&& self.state == (State::<F>::Answering { keepalive: false })
            },
        }
    }

    /// The connection goes on at `now`, after a chunk of its file was sent and `more` of
    /// it remains or not.
    pub open spec fn streams(
        self,
        was: Self,
        now: u64,
        sending: Sending<F>,
        more: Option<bool>,
        action: Action,
    ) -> bool {
        match more {
            Some(true) => {
                &&& action is Keep
                &&& self.deadline == was.deadline
                &&& self.state == State::Sending(sending)
            },
            Some(false) => if sending.keepalive {
                &&& action is Keep
                &&& self.deadline == now + IDLE_TIMEOUT
                &&& self.state.is_connecting(Seq::empty())
            } else {
                self.state is Done && action is Drop
            },
            None => self.state is Done && action is Drop,
        }
    }

    /// The connection `was` becomes `self` by `event` at `now`, and calls for `step`.
    /// An event that is no outcome of what the connection called for ends it.
    pub open spec fn follows(self, was: Self, now: u64, event: Event<F>, step: Step) -> bool {
        match (was.state, event) {
            (_, Event::Turn) => {
                &&& self == was
                &&& if now >= was.deadline {
                    step.drops()
                } else {
                    calls_for(was.state, step)
                }
            },
            (State::TlsHandshaking(handshake), Event::Tls(e)) => exists|next: HandshakeStep|
                #[trigger] handshake.leads_to(e, next) && match next {
                    HandshakeStep::Continue(operation) => {
                        &&& step.cork is None
                        &&& step.action is Handshake
                        &&& self.deadline == was.deadline
                        &&& self.state == State::<F>::TlsHandshaking(operation)
                    },
                    HandshakeStep::Pause => {
                        &&& step.keeps()
                        &&& self.deadline == was.deadline
                        &&& self.state == State::<F>::TlsHandshaking(Handshake::Receive)
                    },
                    HandshakeStep::Fail => self.over(step),
                    HandshakeStep::Ready(plain) => {
                        &&& step.keeps()
                        &&& self.deadline == now + HEADER_TIMEOUT
                        &&& self.state.is_connecting(plain@)
                    },
                },
            (State::Connecting { buf }, Event::Received(Ok(bytes))) => if bytes@.len() == 0
                && buf@.len() < MAX_RECEIVED_HEADERS_SIZE {
                self.over(step)
            } else {
                self.answers(was, now, buf@ + bytes@, step)
            },
            (State::Connecting { buf }, Event::Received(Err(kind))) => if kind.transient() {
                self.answers(was, now, buf@, step)
            } else {
                self.over(step)
            },
            (State::Answering { keepalive }, Event::Respond(response)) => {
                &&& step.action is Keep
                &&& self.queued(now, response, keepalive, step.cork)
            },
            (State::Writing { buf, written, after }, Event::Written(Ok(n))) => if n == 0 {
                self.over(step)
            } else if written + n < buf@.len() {
                &&& step.keeps()
                &&& self.deadline == was.deadline
                &&& self.state.is_writing(buf@, written + n, after)
            } else {
                match after {
                    AfterWrite::File(sending) => {
                        &&& step.keeps()
                        &&& self.deadline == now + HEADER_TIMEOUT
                        &&& self.state == State::Sending(sending)
                    },
                    AfterWrite::Close => self.over(step),
                }
            },
            (State::Writing { .. }, Event::Written(Err(kind))) => if kind.transient() {
                self == was && step.keeps()
            } else {
                self.over(step)
            },
            (State::Sending(sending), Event::Sent { offset, result }) => {
                let more = Sending::<F>::sent(result);
                &&& step.cork == (if more == Some(false) {
                    Some(false)
                } else {
                    None
                })
                &&& self.streams(was, now, Sending { offset, ..sending }, more, step.action)
            },
            (State::Sending(sending), Event::Copied { read, written }) => {
                &&& step.cork is None
                &&& self.streams(
                    was,
                    now,
                    sending,
                    Sending::<F>::copied(read, written),
                    step.action,
                )
            },
            _ => self.over(step),
        }
    }

    /// A connection that was accepted at `now`.
    pub fn new(now: u64) -> (r: Self)
        ensures
            r.wf(),
            r.state.is_connecting(Seq::empty()),
            r.deadline == now + HEADER_TIMEOUT,
    {
        Connection {
            state: State::Connecting { buf: Vec::new() },
            deadline: deadline_after(now, HEADER_TIMEOUT),
        }
    }

    /// A connection that was accepted at `now` and starts with a TLS handshake.
    pub fn new_tls(now: u64) -> (r: Self)
        ensures
            r.wf(),
            r.state == State::<F>::TlsHandshaking(Handshake::Receive),
            r.deadline == now + HEADER_TIMEOUT,
    {
        Connection {
            state: State::TlsHandshaking(Handshake::Receive),
            deadline: deadline_after(now, HEADER_TIMEOUT),
        }
    }

    /// Queue a response for writing. For file responses, the socket is corked so that
    /// the header and the first file chunk coalesce into fewer packets.
    pub fn queue_response(&mut self, now: u64, response: Response<F>, keepalive: bool) -> (cork:
        Option<bool>)
        ensures
            final(self).wf(),
            final(self).queued(now, response, keepalive, cork),
    {
        self.deadline = deadline_after(now, HEADER_TIMEOUT);
        match response {
            Response::File { header, file } => {
                self.state = State::Writing {
                    buf: header,
                    written: 0,
                    after: AfterWrite::File(Sending { file, keepalive, offset: 0 }),
                };
                Some(true)
            },
            Response::Bytes { header, body } => {
                let mut buf = header;
                push_bytes(&mut buf, body);
                self.state = State::Writing { buf, written: 0, after: AfterWrite::Close };
                None
            },
        }
    }

    /// Does what the bytes received so far call for.
    fn settle(&mut self, now: u64, buf: Vec<u8>) -> (step: Step)
        requires
            buf@.len() <= MAX_RECEIVED_HEADERS_SIZE,
        ensures
            final(self).wf(),
            final(self).answers(*old(self), now, buf@, step),
    {
        match answer(buf.as_slice()) {
            Answer::Wait => {
                self.state = State::Connecting { buf };
                Step { cork: None, action: Action::Keep }
            },
            Answer::TooLarge => {
                let cork = self.queue_response(now, Response::header_fields_too_large(), false);
                Step { cork, action: Action::Keep }
            },
            Answer::BadRequest => {
                let cork = self.queue_response(now, Response::bad_request(), false);
                Step { cork, action: Action::Keep }
            },
            Answer::MethodNotAllowed => {
                let cork = self.queue_response(now, Response::method_not_allowed(), false);
                Step { cork, action: Action::Keep }
            },
            Answer::Serve(path) => {
                // Every response announces that the connection closes after it.
                self.state = State::Answering { keepalive: false };
                Step { cork: None, action: Action::Serve { path } }
            },
        }
    }

    /// Goes on after a chunk of the file was sent.
    fn stream(&mut self, now: u64, sending: Sending<F>, more: Option<bool>) -> (action: Action)
        ensures
            final(self).wf(),
            final(self).streams(*old(self), now, sending, more, action),
    {
        match more {
            Some(true) => {
                self.state = State::Sending(sending);
                Action::Keep
            },
            Some(false) if sending.keepalive => {
                self.state = State::Connecting { buf: Vec::new() };
                self.deadline = deadline_after(now, IDLE_TIMEOUT);
                Action::Keep
            },
            _ => {
                self.state = State::Done;
                Action::Drop
            },
        }
    }

    /// Ends the connection.
    fn end(&mut self) -> (step: Step)
        ensures
            final(self).wf(),
            final(self).over(step),
    {
        self.state = State::Done;
        Step { cork: None, action: Action::Drop }
    }

    /// The operation that is due when it is this connection's turn. A connection that is
    /// past its deadline is dropped as it stands.
    fn turn(&self, now: u64) -> (step: Step)
        requires
            self.wf(),
        ensures
            self.follows(*self, now, Event::Turn, step),
    {
        if now as u128 >= self.deadline {
            return Step { cork: None, action: Action::Drop };
        }
        let action = match &self.state {
            State::TlsHandshaking(_) => Action::Handshake,
            State::Connecting { buf } => Action::Receive {
                room: MAX_RECEIVED_HEADERS_SIZE - buf.len(),
            },
            State::Writing { .. } => Action::Transmit,
            State::Sending(_) => Action::SendFile,
            State::Answering { .. } => Action::Drop,
            State::Done => Action::Drop,
        };
        Step { cork: None, action }
    }

    /// Advance this connection by one step: `event` has happened at `now`, and the
    /// result says what is to be done next.
    pub fn advance(&mut self, now: u64, event: Event<F>) -> (step: Step)
        requires
            old(self).wf(),
            old(self).admits(event),
        ensures
            final(self).wf(),
            final(self).follows(*old(self), now, event, step),
    {
        if let Event::Turn = event {
            return self.turn(now);
        }
        let mut state = State::Done;
        std::mem::swap(&mut state, &mut self.state);
        match (state, event) {
            (State::TlsHandshaking(handshake), Event::Tls(e)) => {
                match handshake.step(e) {
                    HandshakeStep::Continue(operation) => {
                        self.state = State::TlsHandshaking(operation);
                        Step { cork: None, action: Action::Handshake }
                    },
                    HandshakeStep::Pause => {
                        self.state = State::TlsHandshaking(Handshake::Receive);
                        Step { cork: None, action: Action::Keep }
                    },
                    HandshakeStep::Fail => self.end(),
                    HandshakeStep::Ready(plain) => {
                        self.state = State::Connecting { buf: plain };
                        self.deadline = deadline_after(now, HEADER_TIMEOUT);
                        Step { cork: None, action: Action::Keep }
                    },
                }
            },
            (State::Connecting { buf }, Event::Received(Ok(bytes))) => {
                // With a full buffer nothing can be read, and the stream need not be at
                // its end.
                if bytes.len() == 0 && buf.len() < MAX_RECEIVED_HEADERS_SIZE {
                    return self.end();
                }
                let mut buf = buf;
                let mut bytes = bytes;
                buf.append(&mut bytes);
                self.settle(now, buf)
            },
            (State::Connecting { buf }, Event::Received(Err(kind))) => {
                if kind.is_transient() {
                    // The buffer may already hold complete headers, when they arrived
                    // together with the end of a TLS handshake.
                    self.settle(now, buf)
                } else {
                    self.end()
                }
            },
            (State::Answering { keepalive }, Event::Respond(response)) => {
                let cork = self.queue_response(now, response, keepalive);
                Step { cork, action: Action::Keep }
            },
            (State::Writing { buf, written, after }, Event::Written(Ok(n))) => {
                if n == 0 {
                    return self.end();
                }
                if n < buf.len() - written {
                    self.state = State::Writing { buf, written: written + n, after };
                    return Step { cork: None, action: Action::Keep };
                }
                match after {
                    AfterWrite::File(sending) => {
                        self.state = State::Sending(sending);
                        self.deadline = deadline_after(now, HEADER_TIMEOUT);
                        Step { cork: None, action: Action::Keep }
                    },
                    AfterWrite::Close => self.end(),
                }
            },
            (State::Writing { buf, written, after }, Event::Written(Err(kind))) => {
                if kind.is_transient() {
                    self.state = State::Writing { buf, written, after };
                    Step { cork: None, action: Action::Keep }
                } else {
                    self.end()
                }
            },
            (State::Sending(sending), Event::Sent { offset, result }) => {
                let mut sending = sending;
                let more = sending.step(offset, result);
                let cork = match more {
                    Some(false) => Some(false),
                    _ => None,
                };
                let action = self.stream(now, sending, more);
                Step { cork, action }
            },
            (State::Sending(sending), Event::Copied { read, written }) => {
                let more = Sending::<F>::copy_step(read, written);
                let action = self.stream(now, sending, more);
                Step { cork: None, action }
            },
            _ => self.end(),
        }
    }
}

/// Bytes that arrive later never change an answer.
pub proof fn law_answer_is_stable(received: Seq<u8>, more: Seq<u8>)
    requires
        !(answer_to(received) is Wait),
        received.len() + more.len() <= MAX_RECEIVED_HEADERS_SIZE,
    ensures
        answer_to(received + more) == answer_to(received),
{
    if head_end(received) is Some {
        law_head_end_is_stable(received, more);
        law_parse_of_complete_head(received);
        let end = head_end(received)->0;
        assert((received + more).take(end) =~= received.take(end));
    } else {
        assert(received + more =~= received);
    }
}

/// A complete head is always settled: by a file for a `GET`, by 405 for any other
/// method, by 400 for what is no request. An incomplete one waits, until it fills the
/// buffer and is too large.
pub proof fn law_every_head_is_settled(received: Seq<u8>)
    ensures
        head_end(received) is Some ==> answer_to(received) == (match parsed(received) {
            Some((method, path)) => if method == "GET"@ {
                AnswerSpec::Serve(path)
            } else {
                AnswerSpec::MethodNotAllowed
            },
            None => AnswerSpec::BadRequest,
        }),
        head_end(received) is None ==> answer_to(received) == (if received.len()
            == MAX_RECEIVED_HEADERS_SIZE {
            AnswerSpec::TooLarge
        } else {
            AnswerSpec::Wait
        }),
{
    if head_end(received) is Some {
        law_parse_of_complete_head(received);
    }
}

/// A complete `GET` for a path calls for the file at that path, whichever of its bytes
/// are escaped, as long as what is left fits into a target.
pub proof fn law_get_is_served(
    path: Seq<char>,
    target: Seq<u8>,
    version: Seq<u8>,
    rest: Seq<u8>,
)
    requires
        encodes(target, encode_utf8(path)),
        all_fit_in_target(target),
        known_version(version),
        head_end(line_of(text("GET"), target, version) + text("\r\n") + rest) is Some,
    ensures
        answer_to(line_of(text("GET"), target, version) + text("\r\n") + rest)
            == AnswerSpec::Serve(path),
{
    law_every_path_can_be_asked_for(path, target, version, rest);
    law_every_head_is_settled(line_of(text("GET"), target, version) + text("\r\n") + rest);
}

/// A refused request is answered with the bytes of its error response, the whole of
/// them pending, and with nothing after them; one that asks for a file is answered by
/// what the lookup of that file comes to.
pub proof fn law_request_is_answered<F>(
    was: Connection<F>,
    now: u64,
    bytes: Vec<u8>,
    is: Connection<F>,
    step: Step,
)
    requires
        was.state is Connecting,
        bytes@.len() > 0 || was.state->Connecting_buf@.len() >= MAX_RECEIVED_HEADERS_SIZE,
        is.follows(was, now, Event::Received(Ok(bytes)), step),
    ensures
        match answer_to(was.state->Connecting_buf@ + bytes@) {
            AnswerSpec::Wait => is.state.is_connecting(was.state->Connecting_buf@ + bytes@),
            AnswerSpec::TooLarge => is.state.pending() == error_message(
                431,
                "Request Header Fields Too Large",
                "431 Request Header Fields Too Large",
            ) && is.state->after is Close,
            AnswerSpec::BadRequest => is.state.pending() == error_message(
                400,
                "Bad Request",
                "400 Bad Request",
            ) && is.state->after is Close,
            AnswerSpec::MethodNotAllowed => is.state.pending() == error_message(
                405,
                "Method Not Allowed",
                "405 Method Not Allowed",
            ) && is.state->after is Close,
            AnswerSpec::Serve(path) => {
                &&& is.state is Answering
                &&& step.action matches Action::Serve { path: asked } && asked@ == path
            },
        },
{
    if let State::Writing { buf, written, .. } = is.state {
        assert(buf@.skip(0) =~= buf@);
    }
}

/// A response that was looked up is pending as a whole: its header, and after it its
/// body, or its file from the start.
pub proof fn law_response_is_pending<F>(
    was: Connection<F>,
    now: u64,
    response: Response<F>,
    is: Connection<F>,
    step: Step,
)
    requires
        was.state is Answering,
        is.follows(was, now, Event::Respond(response), step),
    ensures
        match response {
            Response::File { header, file } => {
                &&& is.state.pending() == header@
                &&& is.state->after matches AfterWrite::File(sending) && sending.file == file
                    && sending.offset == 0
            },
            Response::Bytes { header, body } => {
                &&& is.state.pending() == header@ + body@
                &&& is.state->after is Close
            },
        },
{
    if let State::Writing { buf, written, .. } = is.state {
        assert(buf@.skip(0) =~= buf@);
    }
}

/// A buffer that is full is answered without anything more being read: with what its
/// head calls for, or with 431 if it holds none.
pub proof fn law_full_buffer_is_answered<F>(
    was: Connection<F>,
    now: u64,
    bytes: Vec<u8>,
    is: Connection<F>,
    step: Step,
)
    requires
        was.state is Connecting,
        was.state->Connecting_buf@.len() == MAX_RECEIVED_HEADERS_SIZE,
        bytes@.len() == 0,
        is.follows(was, now, Event::Received(Ok(bytes)), step),
    ensures
        is.answers(was, now, was.state->Connecting_buf@, step),
        !(is.state is Done),
        head_end(was.state->Connecting_buf@) is None ==> step.action is Keep
            && is.state.pending() == error_message(
            431,
            "Request Header Fields Too Large",
            "431 Request Header Fields Too Large",
        ),
{
    let received = was.state->Connecting_buf@;
    assert(received + bytes@ =~= received);
    if let State::Writing { buf, written, .. } = is.state {
        assert(buf@.skip(0) =~= buf@);
    }
}

/// The bytes that one write with this outcome puts on the socket.
pub open spec fn written_by<F>(was: Connection<F>, result: Result<usize, ErrorKind>) -> Seq<u8> {
    match result {
        Ok(n) => was.state.pending().take(n as int),
        Err(_) => Seq::empty(),
    }
}

/// A write that gets on, or may when it is tried again.
pub open spec fn gets_on(result: Result<usize, ErrorKind>) -> bool {
    match result {
        Ok(n) => n > 0,
        Err(kind) => kind.transient(),
    }
}

/// The step from `was` to `is` is a write with the outcome `result`.
pub open spec fn is_write_step<F>(
    was: Connection<F>,
    result: Result<usize, ErrorKind>,
    now: u64,
    is: Connection<F>,
    step: Step,
) -> bool {
    &&& was.state is Writing
    &&& was.wf()
    &&& was.admits(Event::Written(result))
    &&& gets_on(result)
    &&& is.follows(was, now, Event::Written(result), step)
}

/// A run of a connection in which only writes happen, none of which is lost: the one
/// with the outcome `results[i]` leads from `run[i]` to `run[i + 1]`.
pub open spec fn is_write_run<F>(
    run: Seq<Connection<F>>,
    results: Seq<Result<usize, ErrorKind>>,
    times: Seq<u64>,
    steps: Seq<Step>,
) -> bool {
    &&& run.len() == results.len() + 1
    &&& times.len() == results.len()
    &&& steps.len() == results.len()
    &&& forall|i: int|
        0 <= i < results.len() ==> #[trigger] is_write_step(
            run[i],
            results[i],
            times[i],
            run[i + 1],
            steps[i],
        )
}

/// The bytes that a run of writes puts on the socket.
pub open spec fn transmitted<F>(
    run: Seq<Connection<F>>,
    results: Seq<Result<usize, ErrorKind>>,
) -> Seq<u8>
    decreases results.len(),
{
    if results.len() == 0 {
        Seq::empty()
    } else {
        let last = results.len() - 1;
        transmitted(run.drop_last(), results.drop_last()) + written_by(run[last], results[last])
    }
}

/// What one write puts on the socket and what is pending after it make up what was
/// pending before it. A write that is to be tried again changes nothing, and the last
/// one is followed by the file or by the end of the connection.
pub proof fn law_write_loses_nothing<F>(
    was: Connection<F>,
    result: Result<usize, ErrorKind>,
    now: u64,
    is: Connection<F>,
    step: Step,
)
    requires
        is_write_step(was, result, now, is, step),
    ensures
        written_by(was, result) + is.state.pending() == was.state.pending(),
        result is Err ==> is == was && step.keeps(),
        is.state is Writing ==> is.state->after == was.state->after && step.keeps(),
        !(is.state is Writing) ==> is.state.pending().len() == 0 && match was.state->after {
            AfterWrite::File(sending) => is.state == State::Sending(sending) && step.keeps(),
            AfterWrite::Close => is.over(step),
        },
{
    let before = was.state.pending();
    match result {
        Ok(n) => {
            assert(before.take(n as int) + is.state.pending() =~= before);
        },
        Err(_) => {
            assert(Seq::<u8>::empty() + before =~= before);
        },
    }
}

proof fn lemma_write_run_prefix<F>(
    run: Seq<Connection<F>>,
    results: Seq<Result<usize, ErrorKind>>,
    times: Seq<u64>,
    steps: Seq<Step>,
)
    requires
        is_write_run(run, results, times, steps),
        results.len() > 0,
    ensures
        is_write_run(run.drop_last(), results.drop_last(), times.drop_last(), steps.drop_last()),
        ({
            let k = results.len() - 1;
            is_write_step(run[k], results[k], times[k], run[k + 1], steps[k])
        }),
{
    let k = results.len() - 1;
    assert forall|i: int| 0 <= i < k implies #[trigger] is_write_step(
        run.drop_last()[i],
        results.drop_last()[i],
        times.drop_last()[i],
        run.drop_last()[i + 1],
        steps.drop_last()[i],
    ) by {
        assert(is_write_step(run[i], results[i], times[i], run[i + 1], steps[i]));
    }
    assert(is_write_step(run[k], results[k], times[k], run[k + 1], steps[k]));
}

/// However a response is cut into writes, and however often one has to be tried again,
/// what was written and what is pending make up what was pending at first: no byte is
/// lost, repeated or reordered. When the run has left the writing state, all of it was
/// written, and the file or the end of the connection follows.
pub proof fn law_writes_lose_nothing<F>(
    run: Seq<Connection<F>>,
    results: Seq<Result<usize, ErrorKind>>,
    times: Seq<u64>,
    steps: Seq<Step>,
)
    requires
        is_write_run(run, results, times, steps),
        run[0].state is Writing,
    ensures
        transmitted(run, results) + run.last().state.pending() == run[0].state.pending(),
        run.last().state is Writing ==> run.last().state->after == run[0].state->after,
        !(run.last().state is Writing) ==> {
            &&& transmitted(run, results) == run[0].state.pending()
            &&& steps.len() > 0
            &&& match run[0].state->after {
                AfterWrite::File(sending) => {
                    &&& run.last().state == State::Sending(sending)
                    &&& steps.last().keeps()
                },
                AfterWrite::Close => run.last().over(steps.last()),
            }
        },
    decreases results.len(),
{
    let first = run[0].state.pending();
    if results.len() == 0 {
        assert(run.last() == run[0]);
        assert(transmitted(run, results) + first =~= first);
    } else {
        let k = results.len() - 1;
        lemma_write_run_prefix(run, results, times, steps);
        let before = run.drop_last();
        assert(before[0] == run[0]);
        assert(before.last() == run[k]);
        assert(run.last() == run[k + 1]);
        law_writes_lose_nothing(
            before,
            results.drop_last(),
            times.drop_last(),
            steps.drop_last(),
        );
        law_write_loses_nothing(run[k], results[k], times[k], run[k + 1], steps[k]);
        let done = transmitted(before, results.drop_last());
        let now = written_by(run[k], results[k]);
        let rest = run.last().state.pending();
        assert(done + now + rest =~= done + (now + rest));
        if !(run.last().state is Writing) {
            assert(done + now + rest =~= done + now);
        }
    }
}

/// What the system does when it is to send a chunk of `file` from the offset `from` on:
/// it sends at most one chunk and moves the offset past it, nothing only at the end of
/// the file, and nothing if it fails.
pub open spec fn sends_from(
    file: Seq<u8>,
    from: int,
    offset: i64,
    result: Result<usize, ErrorKind>,
) -> bool {
    match result {
        Ok(n) => {
            &&& n <= CHUNK_SIZE
            &&& from + n <= file.len()
            &&& offset == from + n
            &&& n == 0 <==> from == file.len()
        },
        Err(_) => offset == from,
    }
}

/// The bytes of `file` that are sent from the offset `from` on with this outcome.
pub open spec fn sent_by(file: Seq<u8>, from: int, result: Result<usize, ErrorKind>) -> Seq<u8> {
    match result {
        Ok(n) => file.subrange(from, from + n),
        Err(_) => Seq::empty(),
    }
}

/// The offset up to which a connection has sent its file.
pub open spec fn sent_up_to<F>(connection: Connection<F>) -> int {
    connection.state->Sending_0.offset as int
}

/// The step from `was` to `is` sends a chunk of `file` with the outcome `result`.
pub open spec fn is_send_step<F>(
    file: Seq<u8>,
    was: Connection<F>,
    offset: i64,
    result: Result<usize, ErrorKind>,
    now: u64,
    is: Connection<F>,
    step: Step,
) -> bool {
    &&& was.state is Sending
    &&& sends_from(file, sent_up_to(was), offset, result)
    &&& is.follows(was, now, Event::Sent { offset, result }, step)
}

/// A run of a connection in which it sends its file, whose bytes are `file` throughout.
pub open spec fn is_send_run<F>(
    file: Seq<u8>,
    run: Seq<Connection<F>>,
    offsets: Seq<i64>,
    results: Seq<Result<usize, ErrorKind>>,
    times: Seq<u64>,
    steps: Seq<Step>,
) -> bool {
    &&& run.len() == results.len() + 1
    &&& offsets.len() == results.len()
    &&& times.len() == results.len()
    &&& steps.len() == results.len()
    &&& run[0].state is Sending
    &&& 0 <= sent_up_to(run[0]) <= file.len()
    &&& forall|i: int|
        0 <= i < results.len() ==> #[trigger] is_send_step(
            file,
            run[i],
            offsets[i],
            results[i],
            times[i],
            run[i + 1],
            steps[i],
        )
}

/// The bytes of `file` that a run puts on the socket.
pub open spec fn streamed<F>(
    file: Seq<u8>,
    run: Seq<Connection<F>>,
    results: Seq<Result<usize, ErrorKind>>,
) -> Seq<u8>
    decreases results.len(),
{
    if results.len() == 0 {
        Seq::empty()
    } else {
        let last = results.len() - 1;
        streamed(file, run.drop_last(), results.drop_last()) + sent_by(
            file,
            sent_up_to(run[last]),
            results[last],
        )
    }
}

proof fn lemma_send_run_prefix<F>(
    file: Seq<u8>,
    run: Seq<Connection<F>>,
    offsets: Seq<i64>,
    results: Seq<Result<usize, ErrorKind>>,
    times: Seq<u64>,
    steps: Seq<Step>,
)
    requires
        is_send_run(file, run, offsets, results, times, steps),
        results.len() > 0,
    ensures
        is_send_run(
            file,
            run.drop_last(),
            offsets.drop_last(),
            results.drop_last(),
            times.drop_last(),
            steps.drop_last(),
        ),
        ({
            let k = results.len() - 1;
            is_send_step(file, run[k], offsets[k], results[k], times[k], run[k + 1], steps[k])
        }),
{
    let k = results.len() - 1;
    assert forall|i: int| 0 <= i < k implies #[trigger] is_send_step(
        file,
        run.drop_last()[i],
        offsets.drop_last()[i],
        results.drop_last()[i],
        times.drop_last()[i],
        run.drop_last()[i + 1],
        steps.drop_last()[i],
    ) by {
        assert(is_send_step(file, run[i], offsets[i], results[i], times[i], run[i + 1], steps[i]));
    }
    assert(is_send_step(file, run[k], offsets[k], results[k], times[k], run[k + 1], steps[k]));
}

/// The chunks that are sent make up the file, in order, none skipped or repeated: up to
/// the offset that a connection is at, and to its end once the end was met. A chunk
/// that has to be tried again loses nothing.
pub proof fn law_chunks_make_up_the_file<F>(
    file: Seq<u8>,
    run: Seq<Connection<F>>,
    offsets: Seq<i64>,
    results: Seq<Result<usize, ErrorKind>>,
    times: Seq<u64>,
    steps: Seq<Step>,
)
    requires
        is_send_run(file, run, offsets, results, times, steps),
    ensures
        run.last().state is Sending ==> {
            &&& sent_up_to(run[0]) <= sent_up_to(run.last()) <= file.len()
            &&& streamed(file, run, results) == file.subrange(
                sent_up_to(run[0]),
                sent_up_to(run.last()),
            )
        },
        results.len() > 0 && results.last() == Ok::<usize, ErrorKind>(0) ==> streamed(
            file,
            run,
            results,
        ) == file.skip(sent_up_to(run[0])),
    decreases results.len(),
{
    let start = sent_up_to(run[0]);
    if results.len() == 0 {
        assert(run.last() == run[0]);
        assert(streamed(file, run, results) =~= file.subrange(start, start));
    } else {
        let k = results.len() - 1;
        lemma_send_run_prefix(file, run, offsets, results, times, steps);
        let before = run.drop_last();
        assert(before[0] == run[0]);
        assert(before.last() == run[k]);
        assert(run.last() == run[k + 1]);
        law_chunks_make_up_the_file(
            file,
            before,
            offsets.drop_last(),
            results.drop_last(),
            times.drop_last(),
            steps.drop_last(),
        );
        let from = sent_up_to(run[k]);
        let part = sent_by(file, from, results[k]);
        assert(streamed(file, run, results) == file.subrange(start, from) + part);
        match results[k] {
            Ok(n) => {
                assert(file.subrange(start, from) + part =~= file.subrange(start, from + n));
            },
            Err(_) => {
                assert(file.subrange(start, from) + part =~= file.subrange(start, from));
            },
        }
        if results[k] == Ok::<usize, ErrorKind>(0) {
            assert(file.subrange(start, from) =~= file.skip(start));
        }
    }
}

/// A state that a connection can wait in: it is not over, it sits on no complete head
/// and no full buffer, and it has something to write while it writes.
pub open spec fn can_wait<F>(state: State<F>) -> bool {
    match state {
        State::Connecting { buf } => buf@.len() < MAX_RECEIVED_HEADERS_SIZE && head_end(buf@)
            is None,
        State::Writing { buf, written, .. } => written < buf@.len(),
        State::Answering { .. } => false,
        State::Done => false,
        _ => true,
    }
}

/// A connection that is kept is never stuck: whatever happens to it, it is in a state
/// that it can wait in. The one exception is the end of a handshake, which may have
/// left a whole request in the buffer for the next turn. A connection that is over is
/// never kept.
pub proof fn law_kept_connection_is_not_stuck<F>(
    was: Connection<F>,
    now: u64,
    event: Event<F>,
    is: Connection<F>,
    step: Step,
)
    requires
        was.wf(),
        was.admits(event),
        was.state is Writing ==> can_wait(was.state),
        event matches Event::Respond(response) ==> response.has_head(),
        is.follows(was, now, event, step),
        step.action is Keep,
    ensures
        !(was.state is Done),
        can_wait(is.state) || (was.state is TlsHandshaking && is.state is Connecting),
{
    lemma_refusals_have_heads();
    lemma_head_terminator();
    lemma_find(Seq::empty(), text("\r\n\r\n"));
}

proof fn lemma_refusals_have_heads()
    ensures
        error_message(
            431,
            "Request Header Fields Too Large",
            "431 Request Header Fields Too Large",
        ).len() > 0,
        error_message(400, "Bad Request", "400 Bad Request").len() > 0,
        error_message(405, "Method Not Allowed", "405 Method Not Allowed").len() > 0,
{
    lemma_line_terminator();
}

/// The connection will not be kept for another request.
pub open spec fn closes_after_response<F>(state: State<F>) -> bool {
    match state {
        State::Answering { keepalive } => !keepalive,
        State::Writing { after: AfterWrite::File(sending), .. } => !sending.keepalive,
        State::Sending(sending) => !sending.keepalive,
        _ => true,
    }
}

/// A connection that starts out waiting for a request is closed after the response:
/// nothing that happens makes it one that is kept.
pub proof fn law_connection_closes_after_response<F>(
    was: Connection<F>,
    now: u64,
    event: Event<F>,
    is: Connection<F>,
    step: Step,
)
    requires
        is.follows(was, now, event, step),
        closes_after_response(was.state),
    ensures
        closes_after_response(is.state),
        was.state is Sending ==> !(is.state is Connecting),
{
}

/// At the end of its file a connection that is to be kept waits for another request
/// with an empty buffer, and any other one is dropped; a response that is no file is
/// followed by the end of the connection in either case.
pub proof fn law_end_of_response<F>(
    was: Connection<F>,
    now: u64,
    event: Event<F>,
    is: Connection<F>,
    step: Step,
)
    requires
        is.follows(was, now, event, step),
    ensures
        match (was.state, event) {
            (State::Sending(sending), Event::Sent { result: Ok(n), .. }) => n == 0 ==> {
                &&& step.cork == Some(false)
                &&& sending.keepalive ==> step.action is Keep && is.state.is_connecting(
                    Seq::empty(),
                )
                &&& !sending.keepalive ==> step.action is Drop && is.state is Done
            },
            (
                State::Writing { buf, written, after: AfterWrite::Close },
                Event::Written(Ok(n)),
            ) => written + n >= buf@.len() ==> step.action is Drop && is.state is Done,
            _ => true,
        },
{
}

/// The phase that a state belongs to. A lookup belongs to the phase that it ends.
pub open spec fn phase<F>(state: State<F>) -> int {
    match state {
        State::TlsHandshaking(_) => 0,
        State::Connecting { .. } => 1,
        State::Answering { .. } => 1,
        State::Writing { .. } => 2,
        State::Sending(_) => 3,
        State::Done => 4,
    }
}

/// The deadline tracks the current phase: it stands still within a phase, and every
/// phase that is entered starts with a new one.
pub proof fn law_deadline_tracks_phase<F>(
    was: Connection<F>,
    now: u64,
    event: Event<F>,
    is: Connection<F>,
    step: Step,
)
    requires
        is.follows(was, now, event, step),
        !(is.state is Done),
    ensures
        phase(is.state) == phase(was.state) ==> is.deadline == was.deadline,
        phase(is.state) != phase(was.state) ==> is.deadline == now + (if was.state is Sending {
            IDLE_TIMEOUT
        } else {
            HEADER_TIMEOUT
        }),
{
}

/// A turn before the deadline changes nothing and calls for the one operation that gets
/// the connection on: whatever it has received, written or sent so far, it goes on from
/// there.
pub proof fn law_turn_gets_on<F>(was: Connection<F>, now: u64, is: Connection<F>, step: Step)
    requires
        is.follows(was, now, Event::Turn, step),
        now < was.deadline,
    ensures
        is == was,
        step.cork is None,
        was.state is TlsHandshaking <==> step.action is Handshake,
        was.state is Connecting <==> step.action is Receive,
        was.state is Writing <==> step.action is Transmit,
        was.state is Sending <==> step.action is SendFile,
        step.action matches Action::Receive { room } ==> was.wf() ==> room
            + was.state->Connecting_buf@.len() == 4096,
{
}

/// A connection is dropped for a reason, and only then: its deadline has passed, the
/// peer is gone, an operation failed for good, its response is complete, or the event is
/// the outcome of another operation.
pub proof fn law_connection_is_dropped_for_a_reason<F>(
    was: Connection<F>,
    now: u64,
    event: Event<F>,
    is: Connection<F>,
    step: Step,
)
    requires
        was.wf(),
        was.admits(event),
        is.follows(was, now, event, step),
    ensures
        step.action is Drop <==> match (was.state, event) {
            (State::Done, _) => true,
            (State::Answering { .. }, Event::Turn) => true,
            (_, Event::Turn) => now >= was.deadline,
            (State::TlsHandshaking(handshake), Event::Tls(e)) => handshake.leads_to(
                e,
                HandshakeStep::Fail,
            ),
            (State::Connecting { buf }, Event::Received(Ok(bytes))) => bytes@.len() == 0 && buf@.len()
                < 4096,
            (State::Connecting { .. }, Event::Received(Err(kind))) => kind != ErrorKind::WouldBlock
                && kind != ErrorKind::Interrupted,
            (State::Answering { .. }, Event::Respond(_)) => false,
            (State::Writing { buf, written, after }, Event::Written(Ok(n))) => n == 0 || (written + n
                == buf@.len() && after is Close),
            (State::Writing { .. }, Event::Written(Err(kind))) => kind != ErrorKind::WouldBlock && kind
                != ErrorKind::Interrupted,
            (State::Sending(sending), Event::Sent { result: Ok(n), .. }) => n == 0
                && !sending.keepalive,
            (State::Sending(_), Event::Sent { result: Err(kind), .. }) => kind
                != ErrorKind::WouldBlock && kind != ErrorKind::Interrupted,
            (State::Sending(sending), Event::Copied { read: Ok(n), written }) => if n == 0 {
                !sending.keepalive
            } else {
                !written
            },
            (State::Sending(_), Event::Copied { read: Err(kind), .. }) => kind
                != ErrorKind::WouldBlock,
            _ => true,
        },
{
    if let (State::TlsHandshaking(handshake), Event::Tls(e)) = (was.state, event) {
        let next = choose|next: HandshakeStep| #[trigger] handshake.leads_to(e, next);
        law_handshake_fails_for_a_reason(handshake, e, next);
        assert forall|other: HandshakeStep| #[trigger] handshake.leads_to(e, other) implies (other
            is Fail <==> next is Fail) by {
            law_handshake_fails_for_a_reason(handshake, e, other);
        }
    }
}

/// The handshake of a connection goes on where its own steps lead, and its end opens the
/// way for a request that starts with the plaintext that was rescued.
pub proof fn law_connection_follows_its_handshake<F>(
    was: Connection<F>,
    now: u64,
    event: TlsEvent,
    is: Connection<F>,
    step: Step,
)
    requires
        was.state is TlsHandshaking,
        is.follows(was, now, Event::Tls(event), step),
    ensures
        ({
            let handshake = was.state->TlsHandshaking_0;
            match is.state {
                State::TlsHandshaking(next) => {
                    ||| step.action is Handshake && handshake.leads_to(
                        event,
                        HandshakeStep::Continue(next),
                    )
                    ||| step.action is Keep && next is Receive && handshake.leads_to(
                        event,
                        HandshakeStep::Pause,
                    )
                },
                State::Connecting { buf } => step.action is Keep && exists|plain: Vec<u8>|
                    plain@ == buf@ && #[trigger] handshake.leads_to(
                        event,
                        HandshakeStep::Ready(plain),
                    ),
                State::Done => step.action is Drop && handshake.leads_to(event, HandshakeStep::Fail),
                _ => false,
            }
        }),
{
    let handshake = was.state->TlsHandshaking_0;
    let next = choose|next: HandshakeStep|
        #[trigger] handshake.leads_to(event, next) && match next {
            HandshakeStep::Continue(operation) => {
                &&& step.cork is None
                &&& step.action is Handshake
                &&& is.deadline == was.deadline
                &&& is.state == State::<F>::TlsHandshaking(operation)
            },
            HandshakeStep::Pause => {
                &&& step.keeps()
                &&& is.deadline == was.deadline
                &&& is.state == State::<F>::TlsHandshaking(Handshake::Receive)
            },
            HandshakeStep::Fail => is.over(step),
            HandshakeStep::Ready(plain) => {
                &&& step.keeps()
                &&& is.deadline == now + HEADER_TIMEOUT
                &&& is.state.is_connecting(plain@)
            },
        };
    match next {
        HandshakeStep::Ready(plain) => {
            assert(handshake.leads_to(event, HandshakeStep::Ready(plain)));
        },
        _ => {},
    }
}

/// The socket is corked exactly when a file response is taken up, and uncorked exactly
/// when the system has sent the file to its end.
pub proof fn law_cork_encloses_the_file<F>(
    was: Connection<F>,
    now: u64,
    event: Event<F>,
    is: Connection<F>,
    step: Step,
)
    requires
        is.follows(was, now, event, step),
    ensures
        step.cork == Some(true) <==> was.state is Answering && event is Respond
            && event->Respond_0 is File,
        step.cork == Some(false) <==> was.state is Sending && event is Sent && event->result == Ok::<
            usize,
            ErrorKind,
        >(0),
{
    if let (State::TlsHandshaking(handshake), Event::Tls(e)) = (was.state, event) {
        law_connection_follows_its_handshake(was, now, e, is, step);
    }
}

/// While a file is streamed it stays the same file, at the offset that the system left
/// it at; where chunks are copied, the offset stays too.
pub proof fn law_streaming_keeps_the_file<F>(
    was: Connection<F>,
    now: u64,
    event: Event<F>,
    is: Connection<F>,
    step: Step,
)
    requires
        was.state is Sending,
        is.follows(was, now, event, step),
        is.state is Sending,
    ensures
        is.state->Sending_0.file == was.state->Sending_0.file,
        is.state->Sending_0.keepalive == was.state->Sending_0.keepalive,
        is.state->Sending_0.offset == (match event {
            Event::Sent { offset, .. } => offset,
            _ => was.state->Sending_0.offset,
        }),
{
}

/// A response keeps to what was decided when its request was read: whether the
/// connection is kept after it.
pub proof fn law_response_keeps_keepalive<F>(
    was: Connection<F>,
    now: u64,
    response: Response<F>,
    is: Connection<F>,
    step: Step,
)
    requires
        was.state is Answering,
        is.follows(was, now, Event::Respond(response), step),
        response is File,
    ensures
        is.state->after is File,
        is.state->after->File_0.keepalive == was.state->Answering_keepalive,
        is.state->written == 0,
{
}

/// A request that is being answered closes its connection.
pub proof fn law_answered_request_closes<F>(
    was: Connection<F>,
    now: u64,
    event: Event<F>,
    is: Connection<F>,
    step: Step,
)
    requires
        is.follows(was, now, event, step),
        was.state is Connecting,
    ensures
        is.state is Answering ==> is.state->Answering_keepalive == false,
        !(is.state is Sending),
        is.state is Writing ==> is.state->after is Close,
{
}

/// The step from `was` to `is` is a turn in time, or a chunk that the system sends of
/// `file` or asks to be tried again.
pub open spec fn is_stream_step<F>(
    file: Seq<u8>,
    was: Connection<F>,
    now: u64,
    event: Event<F>,
    is: Connection<F>,
    step: Step,
) -> bool {
    &&& is.follows(was, now, event, step)
    &&& match event {
        Event::Turn => now < was.deadline,
        Event::Sent { offset, result } => {
            let from = was.state->Sending_0.offset;
            match result {
                Ok(n) => {
                    &&& from + n <= file.len()
                    &&& offset == from + n
                    &&& n == 0 <==> from == file.len()
                },
                Err(kind) => {
                    &&& offset == from
                    &&& kind == ErrorKind::WouldBlock || kind == ErrorKind::Interrupted
                },
            }
        },
        _ => false,
    }
}

/// The bytes of `file` that are on the socket after the first `n` events of a run.
pub open spec fn delivered<F>(
    file: Seq<u8>,
    run: Seq<Connection<F>>,
    events: Seq<Event<F>>,
    n: int,
) -> Seq<u8>
    decreases n,
{
    if n <= 0 {
        Seq::empty()
    } else {
        delivered(file, run, events, n - 1) + match events[n - 1] {
            Event::Sent { result: Ok(count), .. } => file.subrange(
                run[n - 1].state->Sending_0.offset as int,
                run[n - 1].state->Sending_0.offset + count,
            ),
            _ => Seq::empty(),
        }
    }
}

/// A file is streamed to its end, however long it is: in a run of turns in time and of
/// chunks that are sent or tried again, the connection is neither dropped nor does it
/// leave the file before its end, each turn calls for the next chunk, and at the end all
/// bytes of the file are on the socket, once and in order.
pub proof fn law_whole_file_is_delivered<F>(
    file: Seq<u8>,
    run: Seq<Connection<F>>,
    times: Seq<u64>,
    events: Seq<Event<F>>,
    steps: Seq<Step>,
    n: int,
)
    requires
        run.len() == events.len() + 1,
        times.len() == events.len(),
        steps.len() == events.len(),
        run[0].state is Sending,
        run[0].state->Sending_0.offset == 0,
        forall|i: int|
            0 <= i < events.len() ==> is_stream_step(
                file,
                run[i],
                times[i],
                #[trigger] events[i],
                run[i + 1],
                steps[i],
            ),
        forall|i: int|
            0 <= i < events.len() - 1 ==> !(#[trigger] events[i] is Sent && events[i]->result == Ok::<
                usize,
                ErrorKind,
            >(0)),
        0 <= n <= events.len(),
    ensures
        n > 0 && events[n - 1] is Turn ==> steps[n - 1].action is SendFile,
        n > 0 && events[n - 1] is Sent && events[n - 1]->result == Ok::<usize, ErrorKind>(0)
            ==> delivered(file, run, events, n) == file && (steps[n - 1].action is Drop
            || run[n].state is Connecting),
        n > 0 && events[n - 1] is Sent && events[n - 1]->result != Ok::<usize, ErrorKind>(0)
            ==> steps[n - 1].action is Keep,
        n == 0 || !(events[n - 1] is Sent && events[n - 1]->result == Ok::<usize, ErrorKind>(0)) ==> {
            &&& run[n].state is Sending
            &&& run[n].state->Sending_0.file == run[0].state->Sending_0.file
            &&& 0 <= run[n].state->Sending_0.offset <= file.len()
            &&& delivered(file, run, events, n) == file.take(
                run[n].state->Sending_0.offset as int,
            )
        },
    decreases n,
{
    if n == 0 {
        assert(file.take(0) =~= Seq::empty());
    } else {
        law_whole_file_is_delivered(file, run, times, events, steps, n - 1);
        if n >= 2 {
            assert(!(events[n - 2] is Sent && events[n - 2]->result == Ok::<usize, ErrorKind>(0)));
        }
        let was = run[n - 1];
        let is = run[n];
        let event = events[n - 1];
        assert(is_stream_step(file, was, times[n - 1], event, is, steps[n - 1]));
        let from = was.state->Sending_0.offset as int;
        let before = delivered(file, run, events, n - 1);
        match event {
            Event::Turn => {
                assert(delivered(file, run, events, n) =~= before);
            },
            Event::Sent { offset, result: Ok(count) } => {
                assert(before + file.subrange(from, from + count) =~= file.take(from + count));
                if count == 0 {
                    assert(file.take(from) =~= file);
                }
            },
            _ => {
                assert(delivered(file, run, events, n) =~= before);
            },
        }
    }
}

/// A read that is to be tried again loses nothing, and is answered as if nothing more
/// had arrived: a request that is complete is not left waiting.
pub proof fn law_retried_read_loses_nothing<F>(
    was: Connection<F>,
    now: u64,
    kind: ErrorKind,
    is: Connection<F>,
    step: Step,
)
    requires
        was.state is Connecting,
        kind == ErrorKind::WouldBlock || kind == ErrorKind::Interrupted,
        is.follows(was, now, Event::Received(Err(kind)), step),
    ensures
        match answer_to(was.state->Connecting_buf@) {
            AnswerSpec::Wait => step.keeps() && is.state.is_connecting(was.state->Connecting_buf@)
                && is.deadline == was.deadline,
            AnswerSpec::TooLarge => is.state.pending() == error_message(
                431,
                "Request Header Fields Too Large",
                "431 Request Header Fields Too Large",
            ),
            AnswerSpec::BadRequest => is.state.pending() == error_message(
                400,
                "Bad Request",
                "400 Bad Request",
            ),
            AnswerSpec::MethodNotAllowed => is.state.pending() == error_message(
                405,
                "Method Not Allowed",
                "405 Method Not Allowed",
            ),
            AnswerSpec::Serve(path) => {
                &&& is.state is Answering
                &&& step.action matches Action::Serve { path: asked } && asked@ == path
            },
        },
{
    if let State::Writing { buf, written, .. } = is.state {
        assert(buf@.skip(0) =~= buf@);
    }
}

/// The bytes of a refusal, from its status line to its body.
pub proof fn law_refusal_on_the_wire(status: u16, reason: &str, body: &str)
    ensures
        error_message(status, reason, body) == text("HTTP/1.1 ") + decimal_spec(status as nat) + text(
            " ",
        ) + text(reason) + text("\r\nContent-Type: text/plain; charset=utf-8\r\nContent-Length: ")
            + decimal_spec(text(body).len()) + text("\r\nConnection: close\r\n\r\n") + text(body),
{
    law_error_header_bytes(status, reason, text(body).len());
    assert(error_message(status, reason, body) =~= text("HTTP/1.1 ") + decimal_spec(status as nat)
        + text(" ") + text(reason) + text(
        "\r\nContent-Type: text/plain; charset=utf-8\r\nContent-Length: ",
    ) + decimal_spec(text(body).len()) + text("\r\nConnection: close\r\n\r\n") + text(body));
}

/// [`answer`] calls for the file that a complete `GET` asks for, refuses what else is
/// complete, and waits for the rest while there is room for it.
pub proof fn law_answer_returns_what_is_called_for(received: &[u8], r: Answer)
    requires
        call_ensures(answer, (received,), r),
    ensures
        r is Wait <==> head_end(received@) is None && received@.len() != 4096,
        r is TooLarge <==> head_end(received@) is None && received@.len() == 4096,
        r is BadRequest <==> head_end(received@) is Some && parsed(received@) is None,
        match r {
            Answer::Serve(path) => parsed(received@) == Some(("GET"@, path@)),
            Answer::MethodNotAllowed => parsed(received@) matches Some((name, _)) && name != "GET"@,
            _ => true,
        },
{
    law_every_head_is_settled(received@);
}

/// A chunk was sent while bytes of it were, or while it can be tried again; where chunks
/// are copied, it has to have been written too.
pub proof fn law_chunk_outcomes<F>(
    result: Result<usize, ErrorKind>,
    written: bool,
    copied: Option<bool>,
)
    requires
        call_ensures(Sending::<F>::copy_step, (result, written), copied),
    ensures
        Sending::<F>::sent(result) == (match result {
            Ok(n) => Some(n > 0),
            Err(ErrorKind::WouldBlock) => Some(true),
            Err(ErrorKind::Interrupted) => Some(true),
            Err(_) => None,
        }),
        copied == (match result {
            Ok(n) => if n > 0 && !written {
                None
            } else {
                Some(n > 0)
            },
            Err(ErrorKind::WouldBlock) => Some(true),
            Err(_) => None,
        }),
{
}

/// A new connection waits for a request, or for a handshake, for as long as a phase may
/// take.
pub proof fn law_new_connection_waits<F>(now: u64, plain: Connection<F>, tls: Connection<F>)
    requires
        call_ensures(Connection::<F>::new, (now,), plain),
        call_ensures(Connection::<F>::new_tls, (now,), tls),
    ensures
        plain.state is Connecting && plain.state->Connecting_buf@.len() == 0,
        tls.state == State::<F>::TlsHandshaking(Handshake::Receive),
        plain.deadline == now + 5_000_000_000,
        tls.deadline == now + 5_000_000_000,
{
}

/// What the words for the states and steps of a connection say of its fields.
pub proof fn law_words_say_what_is_there<F>(
    connection: Connection<F>,
    bytes: Seq<u8>,
    sent: int,
    next: AfterWrite<F>,
    step: Step,
)
    ensures
        connection.state.is_connecting(bytes) <==> connection.state is Connecting
            && connection.state->Connecting_buf@ == bytes,
        connection.state.is_writing(bytes, sent, next) <==> connection.state is Writing
            && connection.state->Writing_buf@ == bytes && connection.state->written == sent
            && connection.state->after == next,
        connection.state is Writing ==> connection.state.pending()
            == connection.state->Writing_buf@.skip(connection.state->written as int),
        !(connection.state is Writing) ==> connection.state.pending().len() == 0,
        step.keeps() <==> step.cork is None && step.action is Keep,
        step.drops() <==> step.cork is None && step.action is Drop,
        connection.over(step) <==> connection.state is Done && step.cork is None
            && step.action is Drop,
        ErrorKind::WouldBlock.transient() && ErrorKind::Interrupted.transient(),
        !ErrorKind::NotFound.transient() && !ErrorKind::NotADirectory.transient()
            && !ErrorKind::PermissionDenied.transient() && !ErrorKind::Other.transient(),
{
}

/// However a request arrives in pieces, the connection holds what has arrived, byte for
/// byte and in order, until it is complete.
pub proof fn law_pieces_are_put_together<F>(
    run: Seq<Connection<F>>,
    pieces: Seq<Vec<u8>>,
    times: Seq<u64>,
    steps: Seq<Step>,
    n: int,
)
    requires
        run.len() == pieces.len() + 1,
        times.len() == pieces.len(),
        steps.len() == pieces.len(),
        run[0].state is Connecting,
        run[0].state->Connecting_buf@.len() == 0,
        forall|i: int|
            0 <= i < pieces.len() ==> (#[trigger] pieces[i])@.len() > 0 && run[i].state is Connecting
                && run[i + 1].follows(run[i], times[i], Event::Received(Ok(pieces[i])), steps[i]),
        0 <= n <= pieces.len(),
        run[n].state is Connecting,
    ensures
        run[n].state->Connecting_buf@ == arrived(pieces, n),
        n > 0 ==> steps[n - 1].action is Keep,
    decreases n,
{
    if n > 0 {
        assert(pieces[n - 1]@.len() > 0);
        law_pieces_are_put_together(run, pieces, times, steps, n - 1);
    } else {
        assert(run[0].state->Connecting_buf@ =~= arrived(pieces, 0));
    }
}

/// The first `n` of `pieces`, one after the other.
pub open spec fn arrived(pieces: Seq<Vec<u8>>, n: int) -> Seq<u8>
    decreases n,
{
    if n <= 0 {
        Seq::empty()
    } else {
        arrived(pieces, n - 1) + pieces[n - 1]@
    }
}

} // verus!
