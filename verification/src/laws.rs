//! What holds of connections as a whole, over the steps that
//! [`ConnectionView`] defines.

use vstd::prelude::*;
use vstd::utf8::*;
use crate::connection;
use crate::connection::{ActionView, ConnectionView, PhaseView};
use crate::handler;
use crate::head;
use crate::response;
use crate::text;

verus! {

/// Two actions are the same, or are reads that differ only in how much may
/// arrive at a time.
pub open spec fn alike<F>(one: ActionView<F>, other: ActionView<F>) -> bool {
    match (one, other) {
        (ActionView::Read { idle: a, .. }, ActionView::Read { idle: b, .. }) => a == b,
        _ => one == other,
    }
}

/// What a connection does with the bytes that have arrived depends on those
/// bytes: not on the size of its buffer, and not on what it answered before.
pub proof fn only_the_bytes_matter<F>(one: ConnectionView<F>, other: ConnectionView<F>)
    requires
        one.buffered == other.buffered,
    ensures
        one.advancing().0.phase == other.advancing().0.phase,
        one.advancing().0.buffered == other.advancing().0.buffered,
        alike(one.advancing().1, other.advancing().1),
{
}

/// A request may arrive in pieces, cut anywhere. Where the first piece leaves
/// the connection waiting for more, the second brings it to where both at once
/// would have.
pub proof fn requests_may_arrive_in_pieces<F>(
    start: ConnectionView<F>,
    first: Seq<u8>,
    second: Seq<u8>,
)
    requires
        start.valid(),
        start.awaits_bytes(),
        start.receiving(first).0.valid(),
        start.receiving(first).0.awaits_bytes(),
    ensures
        ({
            let pieces = start.receiving(first).0.receiving(second);
            let whole = start.receiving(first + second);
            &&& pieces.0.phase == whole.0.phase
            &&& pieces.0.buffered == whole.0.buffered
            &&& pieces.0.served == whole.0.served
            &&& alike(pieces.1, whole.1)
        }),
{
    let middle = start.receiving(first).0;
    let whole = ConnectionView { buffered: start.buffered + (first + second), ..start };
    let pieces = ConnectionView { buffered: middle.buffered + second, ..middle };
    assert(start.buffered + first + second =~= start.buffered + (first + second));
    assert(middle.buffered == start.buffered + first);
    if middle.phase is Reading {
        only_the_bytes_matter(pieces, whole);
    } else {
        head::settled_for_good(middle.buffered, second);
        assert(whole.head() == middle.head());
    }
}

/// Once a response is written and the connection goes on, the bytes behind the
/// request that was answered are all there, in order, and the connection treats
/// them as a fresh one would.
pub proof fn the_next_request_starts_afresh<F>(
    done: ConnectionView<F>,
    body_end: nat,
    fresh: ConnectionView<F>,
)
    requires
        done.valid(),
        done.phase == (PhaseView::<F>::Writing { body_end, last: false }),
        fresh == ConnectionView::<F>::opened(done.max_keepalive, done.combine),
    ensures
        ({
            let rest = done.buffered.skip(body_end as int);
            &&& done.buffered == done.buffered.take(body_end as int) + rest
            &&& done.finishing().0.buffered == rest
            &&& done.finishing().0.phase == fresh.receiving(rest).0.phase
            &&& alike(done.finishing().1, fresh.receiving(rest).1)
        }),
{
    let rest = done.buffered.skip(body_end as int);
    assert(done.buffered =~= done.buffered.take(body_end as int) + rest);
    assert(Seq::<u8>::empty() + rest =~= rest);
    only_the_bytes_matter(
        ConnectionView { buffered: rest, phase: PhaseView::Reading, ..done },
        ConnectionView { buffered: rest, ..fresh },
    );
}

/// Where the first request among `bytes` ends, once all of it is there: its head
/// is complete and not too long, tells the length of the body, and the body is
/// neither too long nor cut short.
pub open spec fn first_request_end(bytes: Seq<u8>) -> Option<nat> {
    match head::request_head(bytes, head::MAX_HEADERS) {
        Ok(read) => match (read.consumed, head::body_length(read.headers)) {
            (Some(head_end), Ok(length)) => if head_end <= connection::MAX_BUF_CAPACITY && length
                <= connection::MAX_BODY_CAPACITY && head_end + length <= bytes.len() {
                Some((head_end + length) as nat)
            } else {
                None
            },
            _ => None,
        },
        Err(_) => None,
    }
}

/// A request is answered as soon as all of it has arrived, and not before. The
/// connection then knows where it ends.
pub proof fn requests_are_answered_once_they_are_whole<F>(state: ConnectionView<F>, data: Seq<u8>)
    requires
        state.valid(),
        state.awaits_bytes(),
    ensures
        state.receiving(data).1 is Call <==> first_request_end(state.buffered + data) is Some,
        state.receiving(data).1 is Call ==> state.receiving(data).0.phase is Body
            && first_request_end(state.buffered + data) == Some(
            state.receiving(data).0.phase->Body_body_end,
        ),
{
    if head::settled(state.buffered) {
        head::settled_for_good(state.buffered, data);
    }
}

/// A request is in flight from the moment its head is complete, unless that is too
/// long: while its body arrives, while it is answered, and while the answer or a refusal is written.
/// A connection that waits for a request, or for the rest of a head, has none.
pub proof fn in_flight_begins_with_a_complete_head<F>(
    state: ConnectionView<F>,
    data: Seq<u8>,
    read: head::HeadView,
    length: usize,
)
    requires
        state.valid(),
        state.phase is Reading,
        head::request_head(state.buffered + data, head::MAX_HEADERS) == Ok::<
            head::HeadView,
            httparse::Error,
        >(read),
        head::body_length(read.headers) == Ok::<usize, head::LengthError>(length),
    ensures
        !state.in_flight(),
        state.receiving(data).0.in_flight() <==> read.consumed is Some && read.consumed->0
            <= connection::MAX_BUF_CAPACITY,
{
}

/// A request stays in flight until its answer is written, and no longer where the
/// connection then waits or closes.
pub proof fn in_flight_ends_with_a_written_answer<F>(
    state: ConnectionView<F>,
    head_only: bool,
    answer: handler::ResponseView<F>,
    length: nat,
)
    requires
        state.valid(),
        state.is_ready(),
    ensures
        state.in_flight(),
        state.answering(head_only, answer).0.in_flight(),
        outgoing(state, head_only, answer, length).0.in_flight(),
        ({
            let (after, action) = outgoing(state, head_only, answer, length).0.finishing();
            &&& action is Close ==> !after.in_flight()
            &&& action is Fail ==> !after.in_flight()
            &&& action is Read && action->idle ==> !after.in_flight()
        }),
        !state.closing().0.in_flight(),
{
}

/// A head of more than 65536 bytes is refused with status 431, whether it has
/// arrived whole or 65536 bytes of it are there and it is not complete; no other is.
/// The size of the buffer, which an earlier body may have made larger, has no say in
/// it.
pub proof fn oversized_heads_are_refused<F>(state: ConnectionView<F>, read: head::HeadView)
    requires
        state.head() == Ok::<head::HeadView, httparse::Error>(read),
    ensures
        ({
            let oversized = match read.consumed {
                Some(length) => length > connection::MAX_BUF_CAPACITY,
                None => state.buffered.len() >= connection::MAX_BUF_CAPACITY,
            };
            &&& oversized ==> state.advancing() == state.rejecting(
                connection::REQUEST_HEADER_FIELDS_TOO_LARGE@,
                false,
            )
            &&& !oversized && read.consumed is None ==> state.advancing().1 is Read
            &&& !oversized && read.consumed is Some ==> match head::body_length(read.headers) {
                Ok(length) => state.advancing() == state.awaiting_body(
                    read.consumed->0 as nat,
                    length as nat,
                ),
                Err(error) => state.advancing() == state.failing(
                    connection::ConnectionError::Length(error),
                ),
            }
        }),
{
}

/// A body that is declared longer than 10485760 bytes is refused with status
/// 413 before any of it is read or room is made for it; any other is waited for,
/// with room for all of it.
pub proof fn oversized_bodies_are_refused<F>(
    state: ConnectionView<F>,
    read: head::HeadView,
    head_end: usize,
    length: usize,
)
    requires
        state.head() == Ok::<head::HeadView, httparse::Error>(read),
        read.consumed == Some(head_end),
        head_end <= connection::MAX_BUF_CAPACITY,
        head::body_length(read.headers) == Ok::<usize, head::LengthError>(length),
    ensures
        length > connection::MAX_BODY_CAPACITY ==> {
            &&& state.advancing() == state.rejecting(
                connection::PAYLOAD_TOO_LARGE_RESPONSE@,
                true,
            )
            &&& state.advancing().0.capacity == state.capacity
        },
        length <= connection::MAX_BODY_CAPACITY ==> {
            &&& state.advancing().1 is Read || state.advancing().1 is Call
            &&& state.advancing().0.capacity >= head_end + length
        },
{
}

/// After a refusal the connection closes, whatever else has arrived.
pub proof fn refusals_close_the_connection<F>(
    state: ConnectionView<F>,
    answer: Seq<char>,
    counted: bool,
)
    ensures
        state.rejecting(answer, counted).0.finishing().1 == ActionView::<F>::Close,
        state.rejecting(answer, counted).0.finishing().0.phase == PhaseView::<F>::Closed,
{
}

/// A connection never takes more memory for its buffer than a head and a body at
/// their limits, whatever arrives: every step keeps [`ConnectionView::valid`].
pub proof fn memory_is_bounded<F>(state: ConnectionView<F>)
    requires
        state.valid(),
    ensures
        state.buffered.len() <= state.capacity <= 65536 + 10485760,
{
}

/// The handler gets the request that the bytes declare: its body is what follows
/// the head, as long as the header fields say, and nothing of what comes behind.
pub proof fn the_handler_gets_the_declared_body<F>(
    state: ConnectionView<F>,
    read: head::HeadView,
    head_end: nat,
    body_end: nat,
)
    requires
        state.valid(),
        state.is_ready(),
        state.phase == (PhaseView::<F>::Body { head_end, body_end }),
        state.head() == Ok::<head::HeadView, httparse::Error>(read),
    ensures
        head::body_length(read.headers) == Ok::<usize, head::LengthError>(
            (body_end - head_end) as usize,
        ),
        match state.request() {
            Some(request) => {
                &&& head::values_are_text(read.headers)
                &&& request.body.len() == body_end - head_end
                &&& state.buffered == state.buffered.take(head_end as int) + request.body
                    + state.buffered.skip(body_end as int)
                &&& request.headers == head::text_fields(read.headers)
            },
            None => !head::values_are_text(read.headers),
        },
{
    assert(state.buffered =~= state.buffered.take(head_end as int) + state.buffered.subrange(
        head_end as int,
        body_end as int,
    ) + state.buffered.skip(body_end as int));
}

/// The bytes that arrive behind a request do not change what the handler gets.
pub proof fn later_bytes_do_not_change_a_request<F>(state: ConnectionView<F>, more: Seq<u8>)
    requires
        state.valid(),
        state.is_ready(),
    ensures
        (ConnectionView { buffered: state.buffered + more, ..state }).request() == state.request(),
{
    head::settled_for_good(state.buffered, more);
    let later = ConnectionView { buffered: state.buffered + more, ..state };
    let head_end = state.phase->Body_head_end as int;
    let body_end = state.phase->Body_body_end as int;
    assert(later.buffered.subrange(head_end, body_end) =~= state.buffered.subrange(
        head_end,
        body_end,
    ));
}

/// A connection answers no more requests than it may. It closes after the
/// answer that reaches the limit, and goes on after every other.
pub proof fn answers_are_limited<F>(
    state: ConnectionView<F>,
    head_only: bool,
    body_end: nat,
    answer: handler::ResponseView<F>,
    length: nat,
)
    requires
        state.valid(),
        state.may_answer(),
    ensures
        ({
            let sent = state.sending(head_only, body_end, answer, length).0;
            &&& sent.served == state.served + 1
            &&& sent.served <= state.most_answers()
            &&& sent.served >= state.max_keepalive ==> sent.finishing() == sent.closing()
            &&& sent.served < state.max_keepalive ==> sent.finishing() == (ConnectionView {
                buffered: state.buffered.skip(body_end as int),
                phase: PhaseView::Reading,
                ..sent
            }).advancing()
        }),
{
}

proof fn lemma_names_of_added_fields(value: Seq<char>)
    ensures
        response::is_connection(("Connection"@, value)),
        !response::is_framing(("Connection"@, value)),
        response::is_framing(("Content-Length"@, value)),
        !response::is_connection(("Content-Length"@, value)),
{
    reveal_strlit("Connection");
    reveal_strlit("connection");
    reveal_strlit("Content-Length");
    reveal_strlit("content-length");
    reveal_strlit("transfer-encoding");
    assert(text::trimmed("Connection"@) == "Connection"@);
    assert(text::trimmed("Content-Length"@) == "Content-Length"@);
}

proof fn lemma_without_connection(headers: response::Fields)
    ensures
        forall|i: int|
            0 <= i < response::without_connection(headers).len() ==> !response::is_connection(
                #[trigger] response::without_connection(headers)[i],
            ),
    decreases headers.len(),
{
    reveal(Seq::filter);
    if headers.len() > 0 {
        lemma_without_connection(headers.drop_last());
    }
}

/// The header fields that go out with an answer.
pub open spec fn sent_fields(
    headers: response::Fields,
    length: nat,
    last: bool,
) -> response::Fields {
    response::announced(response::framed(response::without_connection(headers), length), last)
}

/// The step in which an answer goes out: the handler's answer, followed, where
/// its spooled body has to be measured first, by its `length`.
pub open spec fn outgoing<F>(
    state: ConnectionView<F>,
    head_only: bool,
    answer: handler::ResponseView<F>,
    length: nat,
) -> (ConnectionView<F>, ActionView<F>) {
    let step = state.answering(head_only, answer);
    if step.1 is Measure {
        step.0.measuring(length)
    } else {
        step
    }
}

/// `length` is that of the answer's body. Only a body in memory shows its own.
pub open spec fn is_length_of<F>(length: nat, answer: handler::ResponseView<F>) -> bool {
    answer.body matches handler::BodyView::InMemory(bytes) ==> length == bytes.len()
}

/// Every answer goes out: its status and [`sent_fields`] as the head, and behind
/// it the body, unless only the head is wanted.
pub proof fn every_answer_goes_out<F>(
    state: ConnectionView<F>,
    head_only: bool,
    answer: handler::ResponseView<F>,
    length: nat,
)
    requires
        state.valid(),
        state.is_ready(),
        is_length_of(length, answer),
    ensures
        ({
            let step = outgoing(state, head_only, answer, length);
            let last = state.served + 1 >= state.max_keepalive;
            let head = encode_utf8(
                response::head_text(answer.status, sent_fields(answer.headers, length, last)),
            );
            let body = if head_only {
                None
            } else {
                Some(answer.body)
            };
            &&& step.1 == ActionView::Write(response::transmission(head, body, state.combine))
            &&& step.0.served == state.served + 1
            &&& step.0.phase == (PhaseView::<F>::Writing {
                body_end: state.phase->Body_body_end,
                last,
            })
        }),
{
}

/// The engine alone decides on the `Connection` field: it goes out once, at the
/// end and with the value `close`, on the last answer, and not at all on any
/// other, whatever the handler asked for.
pub proof fn only_the_engine_sends_connection_fields(
    headers: response::Fields,
    length: nat,
    last: bool,
)
    ensures
        ({
            let sent = sent_fields(headers, length, last);
            &&& forall|i: int|
                0 <= i < sent.len() ==> (response::is_connection(#[trigger] sent[i]) <==> last && i
                    == sent.len() - 1)
            &&& last ==> sent.len() > 0 && sent.last() == ("Connection"@, "close"@)
        }),
{
    lemma_names_of_added_fields("close"@);
    lemma_names_of_added_fields(text::decimal(length));
    lemma_without_connection(headers);
}

/// Every answer tells the client where its body ends. Where the handler left
/// that open, the answer carries the length of its body, in a form that reads
/// back as that length; where the handler did not, nothing is added or changed.
/// The handler's fields, but for `Connection` fields, come first and in order.
pub proof fn every_answer_is_framed(headers: response::Fields, length: nat, last: bool)
    ensures
        ({
            let sent = sent_fields(headers, length, last);
            let kept = response::without_connection(headers);
            &&& response::has_framing(sent)
            &&& sent.take(kept.len() as int) == kept
            &&& sent.len() == kept.len() + (if response::has_framing(kept) {
                0int
            } else {
                1
            }) + (if last {
                1int
            } else {
                0
            })
            &&& !response::has_framing(kept) ==> sent[kept.len() as int] == (
                "Content-Length"@,
                text::decimal(length),
            )
            &&& text::unsigned_value(text::decimal(length)) == Some(length)
        }),
{
    let kept = response::without_connection(headers);
    let sent = sent_fields(headers, length, last);
    lemma_names_of_added_fields(text::decimal(length));
    text::decimal_reads_back(length);
    assert(sent.take(kept.len() as int) =~= kept);
    if response::has_framing(kept) {
        let i = choose|i: int| 0 <= i < kept.len() && response::is_framing(#[trigger] kept[i]);
        assert(response::is_framing(sent[i]));
    } else {
        assert(response::is_framing(sent[kept.len() as int]));
    }
}

/// The answer to a `HEAD` request is the head that the same answer to a `GET`
/// request has, and nothing after it: the connection is left in the same state,
/// and on the wire the body is all that is missing.
pub proof fn head_answers_are_get_answers_without_the_body<F>(
    state: ConnectionView<F>,
    answer: handler::ResponseView<F>,
    length: nat,
)
    requires
        state.valid(),
        state.is_ready(),
        is_length_of(length, answer),
    ensures
        ({
            let to_head = outgoing(state, true, answer, length);
            let to_get = outgoing(state, false, answer, length);
            &&& to_head.0 == to_get.0
            &&& to_head.1 is Write
            &&& to_get.1 is Write
            &&& to_head.1->Write_0.spooled is None
            &&& match answer.body {
                handler::BodyView::InMemory(bytes) => {
                    &&& to_get.1->Write_0.bytes() == to_head.1->Write_0.bytes() + bytes
                    &&& to_get.1->Write_0.spooled is None
                },
                handler::BodyView::Spooled(file) => {
                    &&& to_get.1->Write_0.bytes() == to_head.1->Write_0.bytes()
                    &&& to_get.1->Write_0.spooled == Some(file)
                },
            }
        }),
{
    let to_head = outgoing(state, true, answer, length).1->Write_0;
    let to_get = outgoing(state, false, answer, length).1->Write_0;
    let last = state.served + 1 >= state.max_keepalive;
    let head = encode_utf8(
        response::head_text(answer.status, sent_fields(answer.headers, length, last)),
    );
    every_answer_goes_out(state, true, answer, length);
    every_answer_goes_out(state, false, answer, length);
    if let handler::BodyView::InMemory(bytes) = answer.body {
        response::combining_keeps_the_bytes::<F>(head, bytes, state.combine);
    } else {
        assert(to_get.segments =~= to_head.segments);
    }
    reveal_with_fuel(Seq::flatten, 2);
    assert(to_head.segments.drop_first() =~= Seq::<Seq<u8>>::empty());
    assert(to_head.bytes() =~= head);
}

} // verus!
