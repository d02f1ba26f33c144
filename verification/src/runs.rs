//! What whole runs of a connection come to: which requests the application is called
//! for and what is written, from the first byte to the end of the input.

use vstd::prelude::*;
use vstd::utf8::*;
use crate::connection;
use crate::connection::{ActionView, ConnectionView, PhaseView};
use crate::handler;
use crate::head;
use crate::laws;
use crate::response;

verus! {

/// The first request among `bytes`, as a handler gets it: `None` where a header
/// value is not text.
pub open spec fn first_request(bytes: Seq<u8>) -> Option<handler::RequestView>
    recommends
        laws::first_request_end(bytes) is Some,
{
    let read = head::request_head(bytes, head::MAX_HEADERS)->Ok_0;
    let head_end = read.consumed->0 as int;
    let body_end = laws::first_request_end(bytes)->0 as int;
    head::request_of(read, bytes.subrange(head_end, body_end))
}

/// The whole requests that `bytes` begin with, one behind the other, up to `most` of
/// them and up to the first that cannot be handed to a handler, which appears as
/// `None`.
pub open spec fn requests_among(bytes: Seq<u8>, most: nat) -> Seq<Option<handler::RequestView>>
    decreases most,
{
    match laws::first_request_end(bytes) {
        Some(end) => if most == 0 {
            Seq::empty()
        } else if first_request(bytes) is None {
            seq![None]
        } else {
            seq![first_request(bytes)] + requests_among(bytes.skip(end as int), (most - 1) as nat)
        },
        None => Seq::empty(),
    }
}

/// What goes out as the answer to `request`. `length` is that of the answer's body
/// where it is spooled.
pub open spec fn answer_to<F>(
    request: handler::RequestView,
    answer: handler::ResponseView<F>,
    length: nat,
    last: bool,
    combine: bool,
) -> response::TransmissionView<F> {
    let size = match answer.body {
        handler::BodyView::InMemory(bytes) => bytes.len(),
        handler::BodyView::Spooled(_) => length,
    };
    let head = encode_utf8(
        response::head_text(answer.status, laws::sent_fields(answer.headers, size, last)),
    );
    let body = if connection::wants_head_only(request) {
        None
    } else {
        Some(answer.body)
    };
    response::transmission(head, body, combine)
}

/// What goes out as a refusal.
pub open spec fn refusal<F>(answer: Seq<char>) -> response::TransmissionView<F> {
    response::transmission(encode_utf8(answer), None, false)
}

/// The refusal that `bytes` meet with where they begin with no whole request, if they
/// do: their head, or the body that it declares, is too long.
pub open spec fn refused(bytes: Seq<u8>) -> Option<Seq<char>> {
    match head::request_head(bytes, head::MAX_HEADERS) {
        Err(_) => None,
        Ok(read) => match read.consumed {
            None => if bytes.len() >= connection::MAX_BUF_CAPACITY {
                Some(connection::REQUEST_HEADER_FIELDS_TOO_LARGE@)
            } else {
                None
            },
            Some(head_end) => if head_end > connection::MAX_BUF_CAPACITY {
                Some(connection::REQUEST_HEADER_FIELDS_TOO_LARGE@)
            } else {
                match head::body_length(read.headers) {
                    Ok(length) if length > connection::MAX_BODY_CAPACITY => Some(
                        connection::PAYLOAD_TOO_LARGE_RESPONSE@,
                    ),
                    _ => None,
                }
            },
        },
    }
}

/// What goes out for `bytes`: one answer for each whole request that they begin with,
/// up to `most` of them and up to the first that is refused, and where no whole
/// request follows, the refusal that what follows meets with.
pub open spec fn answers_among<F>(
    bytes: Seq<u8>,
    answers: spec_fn(handler::RequestView) -> handler::ResponseView<F>,
    lengths: spec_fn(handler::RequestView) -> nat,
    combine: bool,
    most: nat,
) -> Seq<response::TransmissionView<F>>
    decreases most,
{
    if most == 0 {
        Seq::empty()
    } else {
        match laws::first_request_end(bytes) {
            None => match refused(bytes) {
                Some(answer) => seq![refusal(answer)],
                None => Seq::empty(),
            },
            Some(end) => match first_request(bytes) {
                None => seq![refusal(connection::BAD_REQUEST_RESPONSE@)],
                Some(request) => seq![
                    answer_to(request, answers(request), lengths(request), most == 1, combine),
                ] + answers_among(
                    bytes.skip(end as int),
                    answers,
                    lengths,
                    combine,
                    (most - 1) as nat,
                ),
            },
        }
    }
}

/// No head among `bytes` is malformed, up to the end of the `most`th request: what
/// they begin with is a head, or the front of one, and so is what follows each whole
/// request. That nothing but the bytes of a head decides what is read of it holds of
/// every head that [`head::read_head`] reads.
pub open spec fn well_formed(bytes: Seq<u8>, most: nat) -> bool
    decreases most,
{
    most > 0 ==> match head::request_head(bytes, head::MAX_HEADERS) {
        Err(_) => false,
        Ok(read) => {
            &&& head::decided_by(bytes, head::decisive(read, bytes), head::MAX_HEADERS)
            &&& read.consumed matches Some(head_end) ==> head_end <= bytes.len()
            &&& laws::first_request_end(bytes) matches Some(end) ==> well_formed(
                bytes.skip(end as int),
                (most - 1) as nat,
            )
        },
    }
}

/// Whether no head among `bytes` is malformed, up to the end of the `most`th request.
pub fn is_well_formed(bytes: &[u8], most: usize) -> (yes: bool)
    ensures
        yes == well_formed(bytes@, most as nat),
    decreases most,
{
    if most == 0 {
        return true;
    }
    match head::read_head(bytes) {
        Err(_) => false,
        Ok(read) => match (read.consumed, head::content_length(read.headers.as_slice())) {
            (Some(head_end), Ok(length)) => {
                if head_end <= connection::MAX_BUF_CAPACITY && length
                    <= connection::MAX_BODY_CAPACITY && length <= bytes.len() - head_end {
                    let rest = vstd::slice::slice_subrange(bytes, head_end + length, bytes.len());
                    assert(rest@ =~= bytes@.skip(head_end + length));
                    is_well_formed(rest, most - 1)
                } else {
                    true
                }
            },
            _ => true,
        },
    }
}

/// What a run of a connection comes to: the requests that the application was
/// called for, one that was refused instead appearing as `None`, and what was
/// written.
#[verifier::ext_equal]
pub struct RunView<F> {
    pub requests: Seq<Option<handler::RequestView>>,
    pub written: Seq<response::TransmissionView<F>>,
}

impl<F> RunView<F> {
    /// Nothing.
    pub open spec fn nothing() -> Self {
        RunView { requests: Seq::empty(), written: Seq::empty() }
    }

    /// One write, and then this.
    pub open spec fn after_writing(self, action: ActionView<F>) -> Self {
        RunView { written: seq![action->Write_0] + self.written, ..self }
    }

    /// One request, and then this.
    pub open spec fn after_request(self, request: Option<handler::RequestView>) -> Self {
        RunView { requests: seq![request] + self.requests, ..self }
    }
}

/// The run of a connection from `step` on. Its reads give `pieces`, one after the
/// other, and then the end of the input. The application answers a request with
/// `answers`, and the spooled body of that answer is as long as `lengths` says.
/// `most` bounds the answers still to be given.
pub open spec fn run<F>(
    step: (ConnectionView<F>, ActionView<F>),
    pieces: Seq<Seq<u8>>,
    answers: spec_fn(handler::RequestView) -> handler::ResponseView<F>,
    lengths: spec_fn(handler::RequestView) -> nat,
    most: nat,
) -> RunView<F>
    decreases pieces.len(), most,
{
    match step.1 {
        ActionView::Read { .. } => if pieces.len() == 0 {
            RunView::nothing()
        } else {
            run(step.0.receiving(pieces.first()), pieces.drop_first(), answers, lengths, most)
        },
        ActionView::Call => if most == 0 {
            RunView::nothing()
        } else {
            match step.0.request() {
                None => RunView::nothing().after_writing(
                    step.0.rejecting(connection::BAD_REQUEST_RESPONSE@, true).1,
                ).after_request(None),
                Some(request) => {
                    let sent = laws::outgoing(
                        step.0,
                        connection::wants_head_only(request),
                        answers(request),
                        lengths(request),
                    );
                    run(
                        sent.0.finishing(),
                        pieces,
                        answers,
                        lengths,
                        (most - 1) as nat,
                    ).after_writing(sent.1).after_request(Some(request))
                },
            }
        },
        ActionView::Write(_) => RunView::nothing().after_writing(step.1),
        _ => RunView::nothing(),
    }
}

/// `step` is where a connection is brought by the bytes that it has buffered.
spec fn follows_from_buffered<F>(step: (ConnectionView<F>, ActionView<F>)) -> bool {
    let afresh = ConnectionView { phase: PhaseView::Reading, ..step.0 }.advancing();
    &&& step.0.phase == afresh.0.phase
    &&& laws::alike(step.1, afresh.1)
}

/// A state that bytes have just brought a connection to follows from them.
proof fn lemma_advancing_follows<F>(state: ConnectionView<F>)
    requires
        state.phase is Reading,
    ensures
        follows_from_buffered(state.advancing()),
        state.advancing().0.buffered == state.buffered,
        state.advancing().0.served == state.served,
        state.advancing().0.max_keepalive == state.max_keepalive,
        state.advancing().0.combine == state.combine,
{
    laws::only_the_bytes_matter(
        ConnectionView { phase: PhaseView::Reading, ..state.advancing().0 },
        state,
    );
}

/// What is read from the front of well-formed bytes.
proof fn lemma_head_of_front(front: Seq<u8>, rest: Seq<u8>, most: nat)
    requires
        most > 0,
        well_formed(front + rest, most),
    ensures
        ({
            let bytes = front + rest;
            let read = head::request_head(bytes, head::MAX_HEADERS)->Ok_0;
            if front.len() < head::decisive(read, bytes) {
                head::is_incomplete(head::request_head(front, head::MAX_HEADERS))
            } else {
                head::request_head(front, head::MAX_HEADERS) == head::request_head(
                    bytes,
                    head::MAX_HEADERS,
                )
            }
        }),
{
    let bytes = front + rest;
    assert(bytes.take(front.len() as int) =~= front);
}

/// Where the front of well-formed bytes brings a connection, it brings it to no more
/// than all of them do: it waits, or it does what the first request, or the lack of
/// one, among all of them asks for.
proof fn lemma_front<F>(step: (ConnectionView<F>, ActionView<F>), rest: Seq<u8>, most: nat)
    requires
        follows_from_buffered(step),
        most > 0,
        well_formed(step.0.buffered + rest, most),
    ensures
        ({
            let bytes = step.0.buffered + rest;
            match step.1 {
                ActionView::Read { .. } => rest.len() == 0 ==> laws::first_request_end(bytes)
                    is None && refused(bytes) is None,
                ActionView::Call => {
                    &&& laws::first_request_end(bytes) is Some
                    &&& step.0.phase is Body
                    &&& laws::first_request_end(bytes) == Some(step.0.phase->Body_body_end)
                    &&& laws::first_request_end(bytes)->0 <= step.0.buffered.len()
                    &&& step.0.request() == first_request(bytes)
                },
                ActionView::Write(sent) => {
                    &&& laws::first_request_end(bytes) is None
                    &&& refused(bytes) is Some
                    &&& sent == refusal::<F>(refused(bytes)->0)
                },
                ActionView::Fail(_) => laws::first_request_end(bytes) is None && refused(
                    bytes,
                ) is None,
                _ => false,
            }
        }),
{
    let buffered = step.0.buffered;
    let bytes = buffered + rest;
    let read = head::request_head(bytes, head::MAX_HEADERS)->Ok_0;
    lemma_head_of_front(buffered, rest, most);
    if rest.len() == 0 {
        assert(bytes =~= buffered);
    }
    if step.1 is Call {
        let head_end = read.consumed->0 as int;
        let end = laws::first_request_end(bytes)->0 as int;
        assert(bytes.subrange(head_end, end) =~= buffered.subrange(head_end, end));
    }
}

/// More of well-formed bytes brings a waiting connection to where all that is
/// buffered then does.
proof fn lemma_receiving<F>(
    state: ConnectionView<F>,
    action: ActionView<F>,
    piece: Seq<u8>,
    rest: Seq<u8>,
    most: nat,
)
    requires
        follows_from_buffered((state, action)),
        action is Read,
        most > 0,
        well_formed(state.buffered + piece + rest, most),
    ensures
        follows_from_buffered(state.receiving(piece)),
        state.receiving(piece).0.buffered == state.buffered + piece,
        state.receiving(piece).0.served == state.served,
        state.receiving(piece).0.max_keepalive == state.max_keepalive,
        state.receiving(piece).0.combine == state.combine,
{
    let longer = ConnectionView { buffered: state.buffered + piece, ..state };
    if state.phase is Body {
        assert(state.buffered + piece + rest =~= state.buffered + (piece + rest));
        lemma_head_of_front(state.buffered, piece + rest, most);
        lemma_head_of_front(state.buffered + piece, rest, most);
    } else {
        lemma_advancing_follows(longer);
    }
}

/// The answer to the first request goes out, and the connection goes on with the
/// bytes behind that request, or closes.
proof fn lemma_answered<F>(
    state: ConnectionView<F>,
    request: handler::RequestView,
    answer: handler::ResponseView<F>,
    length: nat,
    most: nat,
)
    requires
        state.phase is Body,
        state.may_answer(),
        most == state.most_answers() - state.served,
    ensures
        ({
            let sent = laws::outgoing(
                state,
                connection::wants_head_only(request),
                answer,
                length,
            );
            let end = state.phase->Body_body_end;
            let next = ConnectionView {
                buffered: state.buffered.skip(end as int),
                served: state.served + 1,
                phase: PhaseView::Reading,
                ..state
            };
            &&& most > 0
            &&& sent.1 == ActionView::Write(
                answer_to(request, answer, length, most == 1, state.combine),
            )
            &&& most == 1 ==> sent.0.finishing().1 is Close
            &&& most > 1 ==> {
                &&& sent.0.finishing() == next.advancing()
                &&& next.may_answer()
                &&& next.most_answers() - next.served == most - 1
            }
        }),
{
    assert((state.served + 1 >= state.max_keepalive) == (most == 1));
}

proof fn lemma_run<F>(
    step: (ConnectionView<F>, ActionView<F>),
    pieces: Seq<Seq<u8>>,
    answers: spec_fn(handler::RequestView) -> handler::ResponseView<F>,
    lengths: spec_fn(handler::RequestView) -> nat,
    most: nat,
)
    requires
        follows_from_buffered(step),
        step.0.may_answer(),
        most == step.0.most_answers() - step.0.served,
        well_formed(step.0.buffered + pieces.flatten(), most),
    ensures
        ({
            let bytes = step.0.buffered + pieces.flatten();
            let run = run(step, pieces, answers, lengths, most);
            &&& run.requests == requests_among(bytes, most)
            &&& run.written == answers_among(bytes, answers, lengths, step.0.combine, most)
        }),
    decreases pieces.len(), most, 1nat,
{
    let bytes = step.0.buffered + pieces.flatten();
    lemma_front(step, pieces.flatten(), most);
    if step.1 is Read {
        if pieces.len() == 0 {
            assert(pieces.flatten() =~= Seq::<u8>::empty());
        } else {
            let piece = pieces.first();
            let rest = pieces.drop_first();
            assert(step.0.buffered + piece + rest.flatten() =~= bytes);
            lemma_receiving(step.0, step.1, piece, rest.flatten(), most);
            lemma_run(step.0.receiving(piece), rest, answers, lengths, most);
        }
    } else if step.1 is Call {
        if let Some(request) = step.0.request() {
            lemma_run_on(step.0, request, pieces, answers, lengths, most);
        }
    }
}

/// The part of a run that begins with the answer to a request.
proof fn lemma_run_on<F>(
    state: ConnectionView<F>,
    request: handler::RequestView,
    pieces: Seq<Seq<u8>>,
    answers: spec_fn(handler::RequestView) -> handler::ResponseView<F>,
    lengths: spec_fn(handler::RequestView) -> nat,
    most: nat,
)
    requires
        state.phase is Body,
        state.may_answer(),
        most == state.most_answers() - state.served,
        state.phase->Body_body_end <= state.buffered.len(),
        laws::first_request_end(state.buffered + pieces.flatten()) == Some(
            state.phase->Body_body_end,
        ),
        first_request(state.buffered + pieces.flatten()) == Some(request),
        state.request() == Some(request),
        well_formed(state.buffered + pieces.flatten(), most),
    ensures
        ({
            let bytes = state.buffered + pieces.flatten();
            let run = run((state, ActionView::Call), pieces, answers, lengths, most);
            &&& run.requests == requests_among(bytes, most)
            &&& run.written == answers_among(bytes, answers, lengths, state.combine, most)
        }),
    decreases pieces.len(), most, 0nat,
{
    let bytes = state.buffered + pieces.flatten();
    let end = state.phase->Body_body_end;
    let rest = bytes.skip(end as int);
    lemma_answered(state, request, answers(request), lengths(request), most);
    assert(rest =~= state.buffered.skip(end as int) + pieces.flatten());
    if most > 1 {
        let next = ConnectionView {
            buffered: state.buffered.skip(end as int),
            served: state.served + 1,
            phase: PhaseView::Reading,
            ..state
        };
        lemma_advancing_follows(next);
        lemma_run(next.advancing(), pieces, answers, lengths, (most - 1) as nat);
    } else {
        let sent = laws::outgoing(
            state,
            connection::wants_head_only(request),
            answers(request),
            lengths(request),
        );
        assert(run(sent.0.finishing(), pieces, answers, lengths, 0) == RunView::<F>::nothing());
        assert(requests_among(rest, 0) =~= Seq::empty());
        assert(answers_among(rest, answers, lengths, state.combine, 0) =~= Seq::empty());
    }
}

/// Requests that have arrived together are answered one after the other, each
/// once and in the order in which they came, whatever comes behind them and whatever
/// the answers are: all that are whole, or as many as the connection may still answer.
pub proof fn buffered_requests_are_answered_in_order<F>(
    state: ConnectionView<F>,
    answers: spec_fn(handler::RequestView) -> handler::ResponseView<F>,
    lengths: spec_fn(handler::RequestView) -> nat,
    most: nat,
)
    requires
        state.phase is Reading,
        state.may_answer(),
        most == state.most_answers() - state.served,
    ensures
        run(state.advancing(), Seq::empty(), answers, lengths, most).requests == requests_among(
            state.buffered,
            most,
        ),
    decreases most,
{
    let none = Seq::<Seq<u8>>::empty();
    let step = state.advancing();
    assert(step.1 is Call <==> laws::first_request_end(state.buffered) is Some);
    if step.1 is Call {
        assert(step.0.request() == first_request(state.buffered));
        if let Some(request) = step.0.request() {
            lemma_answered(step.0, request, answers(request), lengths(request), most);
            let sent = laws::outgoing(
                step.0,
                connection::wants_head_only(request),
                answers(request),
                lengths(request),
            );
            let end = step.0.phase->Body_body_end;
            if most > 1 {
                let next = ConnectionView {
                    buffered: state.buffered.skip(end as int),
                    served: state.served + 1,
                    phase: PhaseView::Reading,
                    ..step.0
                };
                buffered_requests_are_answered_in_order(
                    next,
                    answers,
                    lengths,
                    (most - 1) as nat,
                );
            } else {
                assert(run(sent.0.finishing(), none, answers, lengths, 0)
                    == RunView::<F>::nothing());
                assert(requests_among(state.buffered.skip(end as int), 0) =~= Seq::empty());
            }
        }
    }
}

/// Whatever arrives, as long as no head is malformed, and however its bytes are cut
/// into reads, inside a head, inside a body or between two requests: the whole
/// requests are answered one after the other, each once and in order, until the
/// connection has given its last answer or has refused one; and what is too long is
/// refused. The front of a request at the end of the input calls for nothing.
pub proof fn a_run_answers_the_requests_in_order<F>(
    pieces: Seq<Seq<u8>>,
    answers: spec_fn(handler::RequestView) -> handler::ResponseView<F>,
    lengths: spec_fn(handler::RequestView) -> nat,
    max_keepalive: nat,
    combine: bool,
)
    requires
        well_formed(
            pieces.flatten(),
            ConnectionView::<F>::opened(max_keepalive, combine).most_answers(),
        ),
    ensures
        ({
            let fresh = ConnectionView::<F>::opened(max_keepalive, combine);
            let most = fresh.most_answers();
            let run = run(fresh.advancing(), pieces, answers, lengths, most);
            &&& run.requests == requests_among(pieces.flatten(), most)
            &&& run.written == answers_among(pieces.flatten(), answers, lengths, combine, most)
            &&& run.requests.len() <= run.written.len() <= run.requests.len() + 1
            &&& run.requests.len() <= most
        }),
{
    let fresh = ConnectionView::<F>::opened(max_keepalive, combine);
    let most = fresh.most_answers();
    assert(Seq::<u8>::empty() + pieces.flatten() =~= pieces.flatten());
    lemma_advancing_follows(fresh);
    lemma_run(fresh.advancing(), pieces, answers, lengths, most);
    lemma_an_answer_each::<F>(pieces.flatten(), answers, lengths, combine, most);
}

proof fn lemma_an_answer_each<F>(
    bytes: Seq<u8>,
    answers: spec_fn(handler::RequestView) -> handler::ResponseView<F>,
    lengths: spec_fn(handler::RequestView) -> nat,
    combine: bool,
    most: nat,
)
    ensures
        ({
            let requests = requests_among(bytes, most).len();
            let written = answers_among(bytes, answers, lengths, combine, most).len();
            &&& requests <= written <= requests + 1
            &&& requests <= most
        }),
    decreases most,
{
    if laws::first_request_end(bytes) is Some && most > 0 {
        let end = laws::first_request_end(bytes)->0;
        lemma_an_answer_each(
            bytes.skip(end as int),
            answers,
            lengths,
            combine,
            (most - 1) as nat,
        );
    }
}

/// Two runs on the same input make the same calls and write the same answers, however
/// differently its bytes are cut into reads.
pub proof fn runs_do_not_depend_on_the_cuts<F>(
    pieces: Seq<Seq<u8>>,
    others: Seq<Seq<u8>>,
    answers: spec_fn(handler::RequestView) -> handler::ResponseView<F>,
    lengths: spec_fn(handler::RequestView) -> nat,
    max_keepalive: nat,
    combine: bool,
)
    requires
        pieces.flatten() == others.flatten(),
        well_formed(
            pieces.flatten(),
            ConnectionView::<F>::opened(max_keepalive, combine).most_answers(),
        ),
    ensures
        ({
            let fresh = ConnectionView::<F>::opened(max_keepalive, combine);
            let most = fresh.most_answers();
            run(fresh.advancing(), pieces, answers, lengths, most) == run(
                fresh.advancing(),
                others,
                answers,
                lengths,
                most,
            )
        }),
{
    a_run_answers_the_requests_in_order(pieces, answers, lengths, max_keepalive, combine);
    a_run_answers_the_requests_in_order(others, answers, lengths, max_keepalive, combine);
}

} // verus!
