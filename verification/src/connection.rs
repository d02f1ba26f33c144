//! One connection, from the first byte to the last: reading requests, having
//! them answered, and deciding when to close.
//!
//! [`Connection`] does no input or output of its own. Each of its methods takes
//! in what has happened and returns the [`Action`] to perform next; the program
//! around it performs that action and reports back. [`ConnectionView`] holds
//! the state as plain values, and its functions say what each step does.

use vstd::prelude::*;
use vstd::utf8::*;
use crate::counter;
use crate::counter::ConnectionCounter;
use crate::handler;
use crate::handler::{Handler, HandlerResponse, ParsedRequest, ResponseBody};
use crate::head;
use crate::head::LengthError;
use crate::response;
use crate::response::Transmission;
use crate::text;

verus! {

/// The read buffer of a fresh connection. It doubles where a head does not fit.
pub const INITIAL_BUF_CAPACITY: usize = 8192;

/// A head that takes more than this is refused.
pub const MAX_BUF_CAPACITY: usize = 65536;

/// A request that declares a longer body is refused.
pub const MAX_BODY_CAPACITY: usize = 10485760;

/// Written, before the connection closes, for a head that is too long.
pub const REQUEST_HEADER_FIELDS_TOO_LARGE: &'static str =
    "HTTP/1.1 431 Request Header Fields Too Large\r\nConnection: close\r\n\r\n";

/// Written, before the connection closes, for a body that is too long.
pub const PAYLOAD_TOO_LARGE_RESPONSE: &'static str =
    "HTTP/1.1 413 Payload Too Large\r\nConnection: close\r\n\r\n";

/// Written, before the connection closes, for a header value that is not UTF-8.
pub const BAD_REQUEST_RESPONSE: &'static str =
    "HTTP/1.1 400 Bad Request\r\nConnection: close\r\n\r\n";

/// Why a connection is dropped without an answer.
#[derive(Debug, PartialEq, Eq)]
pub enum ConnectionError {
    /// The head is malformed.
    Malformed(httparse::Error),
    /// The length of the body cannot be told.
    Length(LengthError),
}

/// Where a connection stands.
#[derive(Debug)]
enum Phase<F> {
    /// Between two requests, or in the middle of a head.
    Reading,
    /// The head takes the first `head_end` bytes, and the request the first
    /// `body_end`. Once those are there, the request can be answered.
    Body { head_end: usize, body_end: usize },
    /// There is an answer, but the length of its spooled body is not known yet.
    Measuring { head_only: bool, body_end: usize, response: HandlerResponse<F> },
    /// The answer is being written.
    Writing { body_end: usize, last: bool },
    /// A refusal is being written; `counted` tells whether the request was
    /// counted as in flight.
    Rejecting { counted: bool },
    /// Nothing more happens.
    Closed,
}

/// Where a connection stands, as plain values.
#[verifier::ext_equal]
pub enum PhaseView<F> {
    Reading,
    Body { head_end: nat, body_end: nat },
    Measuring { head_only: bool, body_end: nat, response: handler::ResponseView<F> },
    Writing { body_end: nat, last: bool },
    Rejecting { counted: bool },
    Closed,
}

impl<F> View for Phase<F> {
    type V = PhaseView<F>;

    closed spec fn view(&self) -> PhaseView<F> {
        match self {
            Phase::Reading => PhaseView::Reading,
            Phase::Body { head_end, body_end } => PhaseView::Body {
                head_end: *head_end as nat,
                body_end: *body_end as nat,
            },
            Phase::Measuring { head_only, body_end, response } => PhaseView::Measuring {
                head_only: *head_only,
                body_end: *body_end as nat,
                response: response@,
            },
            Phase::Writing { body_end, last } => PhaseView::Writing {
                body_end: *body_end as nat,
                last: *last,
            },
            Phase::Rejecting { counted } => PhaseView::Rejecting { counted: *counted },
            Phase::Closed => PhaseView::Closed,
        }
    }
}

/// What to do next for a connection.
#[derive(Debug)]
pub enum Action<F> {
    /// Read at least one and at most `limit` bytes. Where `idle` is set, no part
    /// of a request has arrived, and the read is subject to the idle timeout.
    Read { limit: usize, idle: bool },
    /// Have the request answered.
    Call,
    /// Find out how long the spooled body is.
    Measure,
    /// Write.
    Write(Transmission<F>),
    /// Close the connection.
    Close,
    /// Drop the connection.
    Fail(ConnectionError),
}

/// What to do next, as plain values.
#[verifier::ext_equal]
pub enum ActionView<F> {
    Read { limit: nat, idle: bool },
    Call,
    Measure,
    Write(response::TransmissionView<F>),
    Close,
    Fail(ConnectionError),
}

impl<F> View for Action<F> {
    type V = ActionView<F>;

    open spec fn view(&self) -> ActionView<F> {
        match self {
            Action::Read { limit, idle } => ActionView::Read { limit: *limit as nat, idle: *idle },
            Action::Call => ActionView::Call,
            Action::Measure => ActionView::Measure,
            Action::Write(transmission) => ActionView::Write(transmission@),
            Action::Close => ActionView::Close,
            Action::Fail(error) => ActionView::Fail(*error),
        }
    }
}

impl<F> Action<F> {
    /// How long to wait for the action to succeed, where the connection may idle
    /// for `keep_alive_timeout`: so long for a read on an idle connection, and
    /// without limit for everything else.
    pub fn patience(&self, keep_alive_timeout: u64) -> (limit: Option<u64>)
        ensures
            limit == (if self@ is Read && self@->idle {
                Some(keep_alive_timeout)
            } else {
                None
            }),
    {
        match self {
            Action::Read { idle, .. } => if *idle {
                Some(keep_alive_timeout)
            } else {
                None
            },
            _ => None,
        }
    }
}

/// A connection as plain values.
#[verifier::ext_equal]
pub struct ConnectionView<F> {
    /// The bytes that have arrived and belong to no answered request.
    pub buffered: Seq<u8>,
    /// The size of the read buffer.
    pub capacity: nat,
    /// The requests answered so far.
    pub served: nat,
    /// The requests that are answered before the connection closes.
    pub max_keepalive: nat,
    /// Whether head and body go out in one segment.
    pub combine: bool,
    pub phase: PhaseView<F>,
}

/// The request's method is `HEAD`, in whatever letter case: its answer has no
/// body.
pub open spec fn wants_head_only(request: handler::RequestView) -> bool {
    text::same_ignoring_case(request.method, "HEAD"@)
}

impl<F> ConnectionView<F> {
    /// A fresh connection.
    pub open spec fn opened(max_keepalive: nat, combine: bool) -> Self {
        ConnectionView {
            buffered: Seq::empty(),
            capacity: INITIAL_BUF_CAPACITY as nat,
            served: 0,
            max_keepalive,
            combine,
            phase: PhaseView::Reading,
        }
    }

    /// What the bytes that have arrived begin with.
    pub open spec fn head(self) -> Result<head::HeadView, httparse::Error> {
        head::request_head(self.buffered, head::MAX_HEADERS)
    }

    /// A request of this connection counts as in flight: its head has arrived
    /// and its answer is not written yet.
    pub open spec fn in_flight(self) -> bool {
        match self.phase {
            PhaseView::Reading => false,
            PhaseView::Body { .. } => true,
            PhaseView::Measuring { .. } => true,
            PhaseView::Writing { .. } => true,
            PhaseView::Rejecting { counted } => counted,
            PhaseView::Closed => false,
        }
    }

    /// One more request may be answered.
    pub open spec fn may_answer(self) -> bool {
        self.served == 0 || self.served < self.max_keepalive
    }

    /// The most requests that the connection ever answers.
    pub open spec fn most_answers(self) -> nat {
        if self.max_keepalive > 1 {
            self.max_keepalive
        } else {
            1
        }
    }

    /// The buffer holds what has arrived, and never takes more room than a head and
    /// a body at their limits.
    pub open spec fn sized(self) -> bool {
        &&& INITIAL_BUF_CAPACITY <= self.capacity <= MAX_BUF_CAPACITY + MAX_BODY_CAPACITY
        &&& self.buffered.len() <= self.capacity
    }

    /// What holds of every connection between two steps.
    pub open spec fn valid(self) -> bool {
        &&& self.served <= self.most_answers()
        &&& self.sized()
        &&& match self.phase {
            PhaseView::Reading => self.may_answer() && self.buffered.len() < self.capacity,
            PhaseView::Body { head_end, body_end } => {
                &&& self.may_answer()
                &&& 0 < head_end <= self.buffered.len()
                &&& head_end <= MAX_BUF_CAPACITY
                &&& head_end <= body_end <= self.capacity
                &&& body_end - head_end <= MAX_BODY_CAPACITY
                &&& head::settled(self.buffered)
                &&& self.head() matches Ok(read) && {
                    &&& read.consumed matches Some(length) && length == head_end
                    &&& head::body_length(read.headers) == Ok::<usize, LengthError>(
                        (body_end - head_end) as usize,
                    )
                }
            },
            PhaseView::Measuring { body_end, response, .. } => {
                &&& self.may_answer()
                &&& body_end <= self.buffered.len()
                &&& response.body is Spooled
                &&& !response::has_framing(response.headers)
            },
            PhaseView::Writing { body_end, last } => {
                &&& 0 < self.served
                &&& body_end <= self.buffered.len()
                &&& last == (self.served >= self.max_keepalive)
            },
            PhaseView::Rejecting { .. } => true,
            PhaseView::Closed => true,
        }
    }

    /// The connection waits for bytes.
    pub open spec fn awaits_bytes(self) -> bool {
        match self.phase {
            PhaseView::Reading => true,
            PhaseView::Body { body_end, .. } => self.buffered.len() < body_end,
            _ => false,
        }
    }

    /// How many bytes may arrive at a time: as many as the head's buffer still
    /// holds, or as the body still lacks.
    pub open spec fn limit(self) -> nat {
        match self.phase {
            PhaseView::Body { body_end, .. } => (body_end - self.buffered.len()) as nat,
            _ => (self.capacity - self.buffered.len()) as nat,
        }
    }

    /// The request has arrived whole.
    pub open spec fn is_ready(self) -> bool {
        self.phase matches PhaseView::Body { body_end, .. } && body_end <= self.buffered.len()
    }

    /// `action` is what a connection in this state waits for. A read always has
    /// room for a byte, and is subject to the idle timeout exactly where nothing
    /// of a request has arrived.
    pub open spec fn expects(self, action: ActionView<F>) -> bool {
        match action {
            ActionView::Read { limit, idle } => {
                &&& self.awaits_bytes()
                &&& limit == self.limit()
                &&& 0 < limit
                &&& idle == (self.phase is Reading && self.buffered.len() == 0)
            },
            ActionView::Call => self.is_ready(),
            ActionView::Measure => self.phase is Measuring,
            ActionView::Write(_) => self.phase is Writing || self.phase is Rejecting,
            ActionView::Close => self.phase is Closed,
            ActionView::Fail(_) => self.phase is Closed,
        }
    }

    /// The step that closes the connection.
    pub open spec fn closing(self) -> (Self, ActionView<F>) {
        (ConnectionView { phase: PhaseView::Closed, ..self }, ActionView::Close)
    }

    /// The step that drops the connection.
    pub open spec fn failing(self, error: ConnectionError) -> (Self, ActionView<F>) {
        (ConnectionView { phase: PhaseView::Closed, ..self }, ActionView::Fail(error))
    }

    /// The step that refuses a request.
    pub open spec fn rejecting(self, answer: Seq<char>, counted: bool) -> (Self, ActionView<F>) {
        (
            ConnectionView { phase: PhaseView::Rejecting { counted }, ..self },
            ActionView::Write(response::transmission(encode_utf8(answer), None, false)),
        )
    }

    /// The size of the read buffer once there is room in it for more of a head.
    pub open spec fn grown(self) -> nat {
        if self.buffered.len() == self.capacity {
            if 2 * self.capacity <= MAX_BUF_CAPACITY {
                2 * self.capacity
            } else {
                MAX_BUF_CAPACITY as nat
            }
        } else {
            self.capacity
        }
    }

    /// The head is incomplete: refuse it if it has grown too large, or wait for
    /// the rest.
    pub open spec fn awaiting_head(self) -> (Self, ActionView<F>) {
        if self.buffered.len() >= MAX_BUF_CAPACITY {
            self.rejecting(REQUEST_HEADER_FIELDS_TOO_LARGE@, false)
        } else {
            (
                ConnectionView { capacity: self.grown(), phase: PhaseView::Reading, ..self },
                ActionView::Read {
                    limit: (self.grown() - self.buffered.len()) as nat,
                    idle: self.buffered.len() == 0,
                },
            )
        }
    }

    /// A head of an acceptable length is complete: refuse a body that is too long,
    /// or wait for what is missing of it.
    pub open spec fn awaiting_body(self, head_end: nat, length: nat) -> (Self, ActionView<F>) {
        if length > MAX_BODY_CAPACITY {
            self.rejecting(PAYLOAD_TOO_LARGE_RESPONSE@, true)
        } else {
            let body_end = head_end + length;
            ConnectionView {
                capacity: if self.capacity < body_end {
                    body_end
                } else {
                    self.capacity
                },
                phase: PhaseView::Body { head_end, body_end },
                ..self
            }.filling(body_end)
        }
    }

    /// Wait for what is missing of the body, or have the request answered.
    pub open spec fn filling(self, body_end: nat) -> (Self, ActionView<F>) {
        if self.buffered.len() < body_end {
            (
                self,
                ActionView::Read { limit: (body_end - self.buffered.len()) as nat, idle: false },
            )
        } else {
            (self, ActionView::Call)
        }
    }

    /// What comes next where the bytes that have arrived begin a request.
    pub open spec fn advancing(self) -> (Self, ActionView<F>) {
        match self.head() {
            Err(error) => self.failing(ConnectionError::Malformed(error)),
            Ok(read) => match read.consumed {
                None => self.awaiting_head(),
                Some(head_end) => if head_end > MAX_BUF_CAPACITY {
                    self.rejecting(REQUEST_HEADER_FIELDS_TOO_LARGE@, false)
                } else {
                    match head::body_length(read.headers) {
                        Err(error) => self.failing(ConnectionError::Length(error)),
                        Ok(length) => self.awaiting_body(head_end as nat, length as nat),
                    }
                },
            },
        }
    }

    /// Bytes have arrived.
    pub open spec fn receiving(self, data: Seq<u8>) -> (Self, ActionView<F>) {
        let longer = ConnectionView { buffered: self.buffered + data, ..self };
        match self.phase {
            PhaseView::Body { body_end, .. } => longer.filling(body_end),
            _ => longer.advancing(),
        }
    }

    /// The request that has arrived, if it can be handed to a handler.
    pub open spec fn request(self) -> Option<handler::RequestView>
        recommends
            self.is_ready(),
    {
        match (self.phase, self.head()) {
            (PhaseView::Body { head_end, body_end }, Ok(read)) => head::request_of(
                read,
                self.buffered.subrange(head_end as int, body_end as int),
            ),
            _ => None,
        }
    }

    /// The handler has answered.
    pub open spec fn answering(self, head_only: bool, answer: handler::ResponseView<F>) -> (
        Self,
        ActionView<F>,
    ) {
        let kept = handler::ResponseView {
            headers: response::without_connection(answer.headers),
            ..answer
        };
        let body_end = self.phase->Body_body_end;
        match kept.body {
            handler::BodyView::InMemory(bytes) => self.sending(
                head_only,
                body_end,
                kept,
                bytes.len(),
            ),
            handler::BodyView::Spooled(_) => if response::has_framing(kept.headers) {
                self.sending(head_only, body_end, kept, 0)
            } else {
                (
                    ConnectionView {
                        phase: PhaseView::Measuring { head_only, body_end, response: kept },
                        ..self
                    },
                    ActionView::Measure,
                )
            },
        }
    }

    /// The spooled body is `length` bytes long.
    pub open spec fn measuring(self, length: nat) -> (Self, ActionView<F>) {
        self.sending(
            self.phase->Measuring_head_only,
            self.phase->Measuring_body_end,
            self.phase->Measuring_response,
            length,
        )
    }

    /// The answer goes out. `length` is that of its body.
    pub open spec fn sending(
        self,
        head_only: bool,
        body_end: nat,
        answer: handler::ResponseView<F>,
        length: nat,
    ) -> (Self, ActionView<F>) {
        let last = self.served + 1 >= self.max_keepalive;
        let headers = response::announced(response::framed(answer.headers, length), last);
        let head = encode_utf8(response::head_text(answer.status, headers));
        let body = if head_only {
            None
        } else {
            Some(answer.body)
        };
        (
            ConnectionView {
                served: self.served + 1,
                phase: PhaseView::Writing { body_end, last },
                ..self
            },
            ActionView::Write(response::transmission(head, body, self.combine)),
        )
    }

    /// Everything has been written.
    pub open spec fn finishing(self) -> (Self, ActionView<F>) {
        match self.phase {
            PhaseView::Writing { body_end, last: false } => ConnectionView {
                buffered: self.buffered.skip(body_end as int),
                phase: PhaseView::Reading,
                ..self
            }.advancing(),
            _ => self.closing(),
        }
    }
}

/// One connection.
#[derive(Debug)]
pub struct Connection<F> {
    buffered: Vec<u8>,
    capacity: usize,
    served: usize,
    max_keepalive: usize,
    combine: bool,
    phase: Phase<F>,
}

impl<F> View for Connection<F> {
    type V = ConnectionView<F>;

    closed spec fn view(&self) -> ConnectionView<F> {
        ConnectionView {
            buffered: self.buffered@,
            capacity: self.capacity as nat,
            served: self.served as nat,
            max_keepalive: self.max_keepalive as nat,
            combine: self.combine,
            phase: self.phase@,
        }
    }
}

impl<F> Connection<F> {
    /// Opens a connection that answers `max_keepalive` requests, and one in any
    /// case, before it closes. `combine` has head and body go out in one
    /// segment.
    pub fn open(max_keepalive: usize, combine: bool) -> (opened: (Self, Action<F>))
        ensures
            opened.0@.valid(),
            opened.0@.expects(opened.1@),
            (opened.0@, opened.1@) == ConnectionView::<F>::opened(
                max_keepalive as nat,
                combine,
            ).advancing(),
            opened.0@ == ConnectionView::<F>::opened(max_keepalive as nat, combine),
            opened.1@ == (ActionView::<F>::Read {
                limit: INITIAL_BUF_CAPACITY as nat,
                idle: true,
            }),
    {
        let mut connection = Connection {
            buffered: Vec::new(),
            capacity: INITIAL_BUF_CAPACITY,
            served: 0,
            max_keepalive,
            combine,
            phase: Phase::Reading,
        };
        assert(connection@ == ConnectionView::<F>::opened(max_keepalive as nat, combine));
        let action = connection.advance();
        (connection, action)
    }

    /// Whether a request of this connection counts as in flight.
    pub fn in_flight(&self) -> (yes: bool)
        ensures
            yes == self@.in_flight(),
    {
        match &self.phase {
            Phase::Reading => false,
            Phase::Body { .. } => true,
            Phase::Measuring { .. } => true,
            Phase::Writing { .. } => true,
            Phase::Rejecting { counted } => *counted,
            Phase::Closed => false,
        }
    }

    fn reject(&mut self, answer: &str, counted: bool) -> (action: Action<F>)
        ensures
            (final(self)@, action@) == old(self)@.rejecting(answer@, counted),
    {
        self.phase = Phase::Rejecting { counted };
        let bytes = vstd::slice::slice_to_vec(answer.as_bytes());
        Action::Write(response::write_response(bytes, None, false))
    }

    fn await_head(&mut self) -> (action: Action<F>)
        requires
            old(self)@.sized(),
            old(self)@.may_answer(),
        ensures
            (final(self)@, action@) == old(self)@.awaiting_head(),
            final(self)@.valid(),
            final(self)@.expects(action@),
    {
        let filled: usize = self.buffered.len();
        if filled >= MAX_BUF_CAPACITY {
            return self.reject(REQUEST_HEADER_FIELDS_TOO_LARGE, false);
        }
        if filled == self.capacity {
            let doubled: usize = self.capacity * 2;
            self.capacity = if doubled <= MAX_BUF_CAPACITY {
                doubled
            } else {
                MAX_BUF_CAPACITY
            };
        }
        self.phase = Phase::Reading;
        Action::Read { limit: self.capacity - filled, idle: filled == 0 }
    }

    fn fill(&self, body_end: usize) -> (action: Action<F>)
        ensures
            (self@, action@) == self@.filling(body_end as nat),
    {
        let filled: usize = self.buffered.len();
        if filled < body_end {
            Action::Read { limit: body_end - filled, idle: false }
        } else {
            Action::Call
        }
    }

    fn advance(&mut self) -> (action: Action<F>)
        requires
            old(self)@.sized(),
            old(self)@.may_answer(),
        ensures
            (final(self)@, action@) == old(self)@.advancing(),
            final(self)@.valid(),
            final(self)@.expects(action@),
            old(self)@.buffered.len() == 0 ==> old(self)@.advancing()
                == old(self)@.awaiting_head(),
    {
        let (head_end, length) = match head::read_head(self.buffered.as_slice()) {
            Err(error) => {
                self.phase = Phase::Closed;
                return Action::Fail(ConnectionError::Malformed(error));
            },
            Ok(read) => match read.consumed {
                None => {
                    return self.await_head();
                },
                Some(head_end) => {
                    if head_end > MAX_BUF_CAPACITY {
                        return self.reject(REQUEST_HEADER_FIELDS_TOO_LARGE, false);
                    }
                    match head::content_length(read.headers.as_slice()) {
                        Err(error) => {
                            self.phase = Phase::Closed;
                            return Action::Fail(ConnectionError::Length(error));
                        },
                        Ok(length) => (head_end, length),
                    }
                },
            },
        };
        if length > MAX_BODY_CAPACITY {
            return self.reject(PAYLOAD_TOO_LARGE_RESPONSE, true);
        }
        let body_end: usize = head_end + length;
        if self.capacity < body_end {
            self.capacity = body_end;
        }
        self.phase = Phase::Body { head_end, body_end };
        self.fill(body_end)
    }

    /// Takes in bytes that have arrived.
    pub fn received(&mut self, data: &[u8], connections: &mut ConnectionCounter) -> (action: Action<
        F,
    >)
        requires
            old(self)@.valid(),
            old(self)@.awaits_bytes(),
            0 < data@.len() <= old(self)@.limit(),
        ensures
            (final(self)@, action@) == old(self)@.receiving(data@),
            final(self)@.valid(),
            final(self)@.expects(action@),
            final(connections)@ == (counter::CounterView {
                in_flight: counter::adjusted(
                    old(connections)@.in_flight,
                    old(self)@.in_flight(),
                    final(self)@.in_flight(),
                ),
                ..old(connections)@
            }),
    {
        let before = self.in_flight();
        self.buffered.extend_from_slice(data);
        assert(self.buffered@ =~= old(self).buffered@ + data@);
        proof {
            if head::settled(old(self)@.buffered) {
                head::settled_for_good(old(self)@.buffered, data@);
            }
        }
        let action = match &self.phase {
            Phase::Body { body_end, .. } => {
                let body_end: usize = *body_end;
                self.fill(body_end)
            },
            _ => self.advance(),
        };
        connections.adjust(before, self.in_flight());
        action
    }

    /// Closes the connection. This is what becomes of it when the peer has
    /// closed it, when it has idled for too long, and when reading or writing
    /// has failed.
    pub fn close(&mut self, connections: &mut ConnectionCounter) -> (action: Action<F>)
        requires
            old(self)@.valid(),
        ensures
            (final(self)@, action@) == old(self)@.closing(),
            final(self)@.valid(),
            final(self)@.expects(action@),
            final(connections)@ == (counter::CounterView {
                in_flight: counter::adjusted(
                    old(connections)@.in_flight,
                    old(self)@.in_flight(),
                    false,
                ),
                ..old(connections)@
            }),
    {
        connections.adjust(self.in_flight(), false);
        self.phase = Phase::Closed;
        Action::Close
    }

    /// The request that has arrived, if it can be handed to a handler: not
    /// where a header value is not UTF-8.
    pub fn request(&self) -> (request: Option<ParsedRequest<'_>>)
        requires
            self@.valid(),
            self@.is_ready(),
        ensures
            match request {
                Some(built) => self@.request() == Some(built@),
                None => self@.request() is None,
            },
    {
        match &self.phase {
            Phase::Body { head_end, body_end } => {
                match head::read_head(self.buffered.as_slice()) {
                    Ok(read) => {
                        let body = vstd::slice::slice_subrange(
                            self.buffered.as_slice(),
                            *head_end,
                            *body_end,
                        );
                        head::build_request(read, body)
                    },
                    Err(_) => {
                        assert(false);
                        None
                    },
                }
            },
            _ => {
                assert(false);
                None
            },
        }
    }

    fn send(
        &mut self,
        head_only: bool,
        body_end: usize,
        answer: HandlerResponse<F>,
        length: u64,
    ) -> (action: Action<F>)
        requires
            old(self)@.sized(),
            old(self)@.may_answer(),
            body_end <= old(self)@.buffered.len(),
        ensures
            (final(self)@, action@) == old(self)@.sending(
                head_only,
                body_end as nat,
                answer@,
                length as nat,
            ),
            final(self)@.valid(),
            final(self)@.expects(action@),
    {
        let HandlerResponse { status, headers, body } = answer;
        let mut headers = headers;
        response::ensure_framing(&mut headers, length);
        self.served = self.served + 1;
        let last = self.served >= self.max_keepalive;
        response::announce_close(&mut headers, last);
        let head = response::serialize_head(status, &headers);
        let body = if head_only {
            None
        } else {
            Some(body)
        };
        self.phase = Phase::Writing { body_end, last };
        Action::Write(response::write_response(head, body, self.combine))
    }

    /// Takes in the handler's answer to the request, which stays in flight.
    /// `head_only` keeps the body back.
    pub fn answer(&mut self, head_only: bool, answer: HandlerResponse<F>) -> (action: Action<F>)
        requires
            old(self)@.valid(),
            old(self)@.is_ready(),
        ensures
            (final(self)@, action@) == old(self)@.answering(head_only, answer@),
            final(self)@.valid(),
            final(self)@.expects(action@),
            final(self)@.in_flight(),
    {
        let body_end: usize = match &self.phase {
            Phase::Body { body_end, .. } => *body_end,
            _ => 0,
        };
        let HandlerResponse { status, headers, body } = answer;
        let mut headers = headers;
        response::strip_connection(&mut headers);
        match body {
            ResponseBody::InMemory(bytes) => {
                let length: u64 = bytes.len() as u64;
                let kept = HandlerResponse { status, headers, body: ResponseBody::InMemory(bytes) };
                self.send(head_only, body_end, kept, length)
            },
            ResponseBody::Spooled(file) => {
                let told = response::tells_length(&headers);
                let kept = HandlerResponse { status, headers, body: ResponseBody::Spooled(file) };
                if told {
                    self.send(head_only, body_end, kept, 0)
                } else {
                    self.phase = Phase::Measuring { head_only, body_end, response: kept };
                    Action::Measure
                }
            },
        }
    }

    /// The spooled body whose length is to be found out.
    pub fn spooled(&self) -> (file: Option<&F>)
        requires
            self@.valid(),
        ensures
            match self@.phase {
                PhaseView::Measuring { response, .. } => file matches Some(found)
                    && response.body == handler::BodyView::Spooled(*found),
                _ => file is None,
            },
    {
        match &self.phase {
            Phase::Measuring { response, .. } => match &response.body {
                ResponseBody::Spooled(file) => Some(file),
                ResponseBody::InMemory(_) => {
                    assert(false);
                    None
                },
            },
            _ => None,
        }
    }

    /// Takes in the length of the spooled body.
    pub fn measured(&mut self, length: u64) -> (action: Action<F>)
        requires
            old(self)@.valid(),
            old(self)@.phase is Measuring,
        ensures
            (final(self)@, action@) == old(self)@.measuring(length as nat),
            final(self)@.valid(),
            final(self)@.expects(action@),
            final(self)@.in_flight(),
    {
        let mut phase = Phase::Closed;
        core::mem::swap(&mut phase, &mut self.phase);
        match phase {
            Phase::Measuring { head_only, body_end, response } => {
                self.send(head_only, body_end, response, length)
            },
            _ => {
                assert(false);
                Action::Close
            },
        }
    }

    /// Takes in that everything has been written.
    pub fn written(&mut self, connections: &mut ConnectionCounter) -> (action: Action<F>)
        requires
            old(self)@.valid(),
            old(self)@.phase is Writing || old(self)@.phase is Rejecting,
        ensures
            (final(self)@, action@) == old(self)@.finishing(),
            final(self)@.valid(),
            final(self)@.expects(action@),
            final(connections)@ == (counter::CounterView {
                in_flight: counter::adjusted(
                    old(connections)@.in_flight,
                    old(self)@.in_flight(),
                    final(self)@.in_flight(),
                ),
                ..old(connections)@
            }),
    {
        let before = self.in_flight();
        let action = match &self.phase {
            Phase::Writing { body_end, last } if !*last => {
                let body_end: usize = *body_end;
                let rest = self.buffered.split_off(body_end);
                self.buffered = rest;
                self.phase = Phase::Reading;
                assert(self.buffered@ =~= old(self)@.buffered.skip(body_end as int));
                self.advance()
            },
            _ => {
                self.phase = Phase::Closed;
                Action::Close
            },
        };
        connections.adjust(before, self.in_flight());
        action
    }

    /// Has the request answered by `handler`, or refuses it.
    pub fn serve_request<H: Handler<F>>(&mut self, handler: &H) -> (action: Action<F>)
        requires
            old(self)@.valid(),
            old(self)@.is_ready(),
        ensures
            match old(self)@.request() {
                None => (final(self)@, action@) == old(self)@.rejecting(BAD_REQUEST_RESPONSE@, true),
                Some(request) => exists|built: ParsedRequest<'_>, answer: HandlerResponse<F>|
                    {
                        &&& built@ == request
                        &&& #[trigger] call_ensures(H::call, (handler, &built), answer)
                        &&& (final(self)@, action@) == old(self)@.answering(
                            wants_head_only(request),
                            answer@,
                        )
                    },
            },
            final(self)@.valid(),
            final(self)@.expects(action@),
            final(self)@.in_flight(),
    {
        let (head_only, answer) = match self.request() {
            Some(request) => {
                let head_only = text::eq_ignore_ascii_case(request.method, "HEAD");
                let answer = handler.call(&request);
                assert(call_ensures(H::call, (handler, &request), answer));
                (head_only, answer)
            },
            None => {
                return self.reject(BAD_REQUEST_RESPONSE, true);
            },
        };
        self.answer(head_only, answer)
    }
}

} // verus!
