//! What holds of the operations on a connection, of each and of several in turn.

use vstd::prelude::*;
use vstd::utf8::*;
use crate::connection;
use crate::connection::{Action, Connection, ConnectionError, PhaseView};
use crate::counter;
use crate::counter::ConnectionCounter;
use crate::handler::{Handler, HandlerResponse, ParsedRequest, ResponseBody};
use crate::head;
use crate::laws;
use crate::promises::answers;
use crate::promises::requests;
use crate::response;

verus! {

/// The engine is at work on a request where the connection stands so: the head of one
/// has arrived, and its answer or refusal is not written yet. A refusal counts where
/// the request did.
pub open spec fn at_work<F>(phase: PhaseView<F>) -> bool {
    &&& phase !is Reading
    &&& phase !is Closed
    &&& phase is Rejecting ==> phase->counted
}

/// The count of requests in flight goes up by one where a connection takes up a
/// request, down by one where it is done with one, and stays as it is otherwise. The
/// count of accepted connections stays as it is.
pub open spec fn counted<F>(
    before: PhaseView<F>,
    after: PhaseView<F>,
    old_counts: counter::CounterView,
    new_counts: counter::CounterView,
) -> bool {
    &&& new_counts.accepted == old_counts.accepted
    &&& at_work(before) == at_work(after) ==> new_counts.in_flight == old_counts.in_flight
    &&& !at_work(before) && at_work(after) && old_counts.in_flight < usize::MAX
        ==> new_counts.in_flight == old_counts.in_flight + 1
    &&& at_work(before) && !at_work(after) && old_counts.in_flight > 0 ==> new_counts.in_flight
        == old_counts.in_flight - 1
}

/// `action` is to write the characters of `text`, and nothing else.
pub open spec fn writes_text<F>(action: Action<F>, text: Seq<char>) -> bool {
    &&& action is Write
    &&& answers::wire(action->Write_0.segments@) == encode_utf8(text)
    &&& action->Write_0.spooled is None
}

/// A connection opens with nothing buffered and nothing answered, ready for as many
/// requests as it is opened for, and with a read of at most 8192 bytes that is subject
/// to the idle timeout.
pub proof fn connections_open_empty<F>(
    max_keepalive: usize,
    combine: bool,
    opened: (Connection<F>, Action<F>),
)
    requires
        call_ensures(Connection::<F>::open, (max_keepalive, combine), opened),
    ensures
        opened.0@.buffered.len() == 0,
        opened.0@.served == 0,
        opened.0@.max_keepalive == max_keepalive,
        opened.0@.combine == combine,
        opened.0@.phase is Reading,
        opened.1 matches Action::Read { limit, idle } && limit == 8192 && idle,
{
}

/// The wait for a read on an idle connection ends after the time it may idle; nothing
/// else is waited for with a limit.
pub proof fn only_idle_reads_time_out<F>(action: &Action<F>, timeout: u64, limit: Option<u64>)
    requires
        call_ensures(Action::<F>::patience, (action, timeout), limit),
    ensures
        *action matches Action::Read { idle: true, .. } ==> limit == Some(timeout),
        *action matches Action::Read { idle: false, .. } ==> limit is None,
        *action !is Read ==> limit is None,
{
}

/// A connection tells that it has a request in flight exactly where the engine is at
/// work on one.
pub proof fn requests_in_flight_are_told<F>(connection: &Connection<F>, yes: bool)
    requires
        call_ensures(Connection::<F>::in_flight, (connection,), yes),
    ensures
        yes == at_work(connection@.phase),
{
}

/// Bytes that arrive are put behind those that are there, and change neither how many
/// requests were answered nor how many may be. Counts are kept.
pub proof fn received_bytes_are_kept<F>(
    connection: &mut Connection<F>,
    data: &[u8],
    counts: &mut ConnectionCounter,
    action: Action<F>,
)
    requires
        call_ensures(Connection::<F>::received, (connection, data, counts), action),
        old(connection)@.valid(),
        old(connection)@.awaits_bytes(),
    ensures
        final(connection)@.buffered == old(connection)@.buffered + data@,
        final(connection)@.served == old(connection)@.served,
        final(connection)@.max_keepalive == old(connection)@.max_keepalive,
        final(connection)@.combine == old(connection)@.combine,
        counted(
            old(connection)@.phase,
            final(connection)@.phase,
            old(counts)@,
            final(counts)@,
        ),
        old(connection)@.phase matches PhaseView::Body { body_end, .. } ==> {
            let there = old(connection)@.buffered.len() + data@.len();
            &&& final(connection)@.phase == old(connection)@.phase
            &&& there >= body_end ==> action is Call
            &&& there < body_end ==> {
                &&& action is Read
                &&& there + action->limit == body_end
                &&& !action->idle
            }
        },
{
    requests::arriving_bytes_are_added_at_the_end(old(connection)@, data@);
}

/// Once a head has arrived, the connection waits for as many bytes more as all its
/// `Content-Length` fields tell of, wherever they stand among its fields, and then has
/// the request answered. Without such a field it has it answered at once.
pub proof fn requests_end_where_their_fields_say<F>(
    connection: &mut Connection<F>,
    data: &[u8],
    counts: &mut ConnectionCounter,
    action: Action<F>,
    read: head::HeadView,
    head_end: usize,
    n: usize,
)
    requires
        call_ensures(Connection::<F>::received, (connection, data, counts), action),
        old(connection)@.valid(),
        old(connection)@.phase is Reading,
        head::request_head(old(connection)@.buffered + data@, 64) == Ok::<
            head::HeadView,
            httparse::Error,
        >(read),
        read.consumed == Some(head_end),
        head_end <= 65536,
        head_end <= old(connection)@.buffered.len() + data@.len(),
        n <= 10485760,
        ({
            ||| n == 0 && forall|i: int|
                0 <= i < read.headers.len() ==> !requests::is_length_field(
                    #[trigger] read.headers[i],
                )
            ||| {
                &&& exists|i: int|
                    0 <= i < read.headers.len() && requests::is_length_field(
                        #[trigger] read.headers[i],
                    )
                &&& forall|i: int|
                    0 <= i < read.headers.len() && requests::is_length_field(
                        #[trigger] read.headers[i],
                    ) ==> valid_utf8(read.headers[i].1) && requests::tells(
                        decode_utf8(read.headers[i].1),
                        n as nat,
                    )
            }
        }),
    ensures
        ({
            let there = old(connection)@.buffered.len() + data@.len();
            &&& final(connection)@.phase == (PhaseView::<F>::Body {
                head_end: head_end as nat,
                body_end: (head_end + n) as nat,
            })
            &&& there >= head_end + n ==> action is Call
            &&& there < head_end + n ==> {
                &&& action is Read
                &&& there + action->limit == head_end + n
                &&& !action->idle
            }
        }),
{
    let longer = connection::ConnectionView {
        buffered: old(connection)@.buffered + data@,
        ..old(connection)@
    };
    requests::a_request_ends_where_its_fields_say(longer, read, head_end, n);
}

/// A head of more than 65536 bytes, and one of which 65536 are there and more are to
/// come, is refused with status 431; a body that all its length fields tell to be longer
/// than 10485760 bytes is refused with status 413.
pub proof fn what_is_too_long_is_refused<F>(
    connection: &mut Connection<F>,
    data: &[u8],
    counts: &mut ConnectionCounter,
    action: Action<F>,
    read: head::HeadView,
)
    requires
        call_ensures(Connection::<F>::received, (connection, data, counts), action),
        old(connection)@.valid(),
        old(connection)@.phase is Reading,
        head::request_head(old(connection)@.buffered + data@, 64) == Ok::<
            head::HeadView,
            httparse::Error,
        >(read),
    ensures
        ({
            let too_long = "HTTP/1.1 431 Request Header Fields Too Large\r\nConnection: close\r\n\r\n"@;
            let too_large = "HTTP/1.1 413 Payload Too Large\r\nConnection: close\r\n\r\n"@;
            let there = old(connection)@.buffered.len() + data@.len();
            match read.consumed {
                None => {
                    &&& there >= 65536 ==> writes_text(action, too_long)
                    &&& there < 65536 ==> action is Read
                },
                Some(head_end) => {
                    &&& head_end > 65536 ==> writes_text(action, too_long)
                    &&& head_end <= 65536 && (head::body_length(read.headers) matches Ok(length)
                        && length > 10485760) ==> writes_text(action, too_large)
                    &&& action is Write ==> head_end > 65536 || (head::body_length(
                        read.headers,
                    ) matches Ok(length) && length > 10485760)
                },
            }
        }),
{
    if action is Write {
        answers::lemma_wire(action->Write_0);
    }
    answers::refusals_are_written_as_they_stand(
        old(connection)@,
        connection::REQUEST_HEADER_FIELDS_TOO_LARGE@,
        false,
    );
    answers::refusals_are_written_as_they_stand(
        old(connection)@,
        connection::PAYLOAD_TOO_LARGE_RESPONSE@,
        true,
    );
}

/// A head that is malformed drops the connection with what is wrong with it, and so do
/// header fields from which the length of the body cannot be told.
pub proof fn what_cannot_be_read_drops_the_connection<F>(
    connection: &mut Connection<F>,
    data: &[u8],
    counts: &mut ConnectionCounter,
    action: Action<F>,
)
    requires
        call_ensures(Connection::<F>::received, (connection, data, counts), action),
        old(connection)@.valid(),
        old(connection)@.phase is Reading,
    ensures
        match head::request_head(old(connection)@.buffered + data@, 64) {
            Err(error) => {
                &&& action == Action::<F>::Fail(ConnectionError::Malformed(error))
                &&& final(connection)@.phase is Closed
            },
            Ok(read) => (read.consumed matches Some(head_end) && head_end <= 65536)
                && head::body_length(read.headers) is Err ==> {
                &&& action == Action::<F>::Fail(
                    ConnectionError::Length(head::body_length(read.headers)->Err_0),
                )
                &&& final(connection)@.phase is Closed
            },
        },
{
}

/// The request that is handed over has the bytes between the end of its head and its
/// own end as its body.
pub proof fn requests_are_handed_over_whole<F>(
    connection: &Connection<F>,
    request: Option<ParsedRequest<'_>>,
    read: head::HeadView,
)
    requires
        call_ensures(Connection::<F>::request, (connection,), request),
        connection@.valid(),
        connection@.is_ready(),
        head::request_head(connection@.buffered, 64) == Ok::<head::HeadView, httparse::Error>(
            read,
        ),
    ensures
        match request {
            None => exists|i: int|
                0 <= i < read.headers.len() && !valid_utf8(#[trigger] read.headers[i].1),
            Some(built) => {
                &&& built.body@ == connection@.buffered.subrange(
                    connection@.phase->Body_head_end as int,
                    connection@.phase->Body_body_end as int,
                )
                &&& read.method matches Some(method) ==> built.method@ == method
                &&& read.path matches Some(target) ==> {
                    &&& !built.path@.contains('?')
                    &&& target.contains('?') ==> target == built.path@ + seq!['?'] + built.query@
                    &&& !target.contains('?') ==> target == built.path@ && built.query@.len() == 0
                }
                &&& built.headers@.len() == read.headers.len()
                &&& forall|i: int|
                    0 <= i < read.headers.len() ==> (#[trigger] built.headers@[i]).0@
                        == read.headers[i].0 && encode_utf8(built.headers@[i].1@)
                        == read.headers[i].1
            },
        },
{
    let body = connection@.buffered.subrange(
        connection@.phase->Body_head_end as int,
        connection@.phase->Body_body_end as int,
    );
    requests::the_application_gets_the_request_as_it_came(read, body);
    if let Some(built) = request {
        assert forall|i: int| 0 <= i < read.headers.len() implies (
        #[trigger] built.headers@[i]).0@ == read.headers[i].0 && encode_utf8(
            built.headers@[i].1@,
        ) == read.headers[i].1 by {
            assert(built@.headers[i] == (built.headers@[i].0@, built.headers@[i].1@));
        }
    }
}

/// `action` is to write `answer` on a connection that stands at `state`: the status,
/// the fields and the length as a head, and behind it, unless `head_only`, the whole
/// body, from memory or from its file.
pub open spec fn goes_out<F>(
    state: connection::ConnectionView<F>,
    head_only: bool,
    answer: HandlerResponse<F>,
    length: nat,
    action: Action<F>,
) -> bool {
    let last = state.served + 1 >= state.max_keepalive;
    let head = encode_utf8(
        response::head_text(
            answer.status,
            laws::sent_fields(answers::plain(answer.headers@), length, last),
        ),
    );
    &&& action is Write
    &&& head_only ==> {
        &&& answers::wire(action->Write_0.segments@) == head
        &&& action->Write_0.spooled is None
    }
    &&& !head_only ==> match answer.body {
        ResponseBody::InMemory(bytes) => {
            &&& answers::wire(action->Write_0.segments@) == head + bytes@
            &&& action->Write_0.spooled is None
        },
        ResponseBody::Spooled(file) => {
            &&& answers::wire(action->Write_0.segments@) == head
            &&& action->Write_0.spooled == Some(file)
        },
    }
}

/// `action` is what follows from `answer` on a connection that stands at `state`: it
/// goes out at once with the length of its body, but for a spooled one whose fields
/// tell no length, which is measured first.
pub open spec fn is_dealt_with<F>(
    state: connection::ConnectionView<F>,
    head_only: bool,
    answer: HandlerResponse<F>,
    action: Action<F>,
) -> bool {
    match answer.body {
        ResponseBody::InMemory(bytes) => goes_out(state, head_only, answer, bytes@.len(), action),
        ResponseBody::Spooled(_) => if answers::tells_where_it_ends(
            answers::plain(answer.headers@),
        ) {
            goes_out(state, head_only, answer, 0, action)
        } else {
            action is Measure
        },
    }
}

proof fn lemma_dealt_with<F>(
    state: connection::ConnectionView<F>,
    head_only: bool,
    answer: HandlerResponse<F>,
    action: Action<F>,
)
    requires
        state.valid(),
        state.is_ready(),
        action@ == state.answering(head_only, answer@).1,
    ensures
        is_dealt_with(state, head_only, answer, action),
{
    let headers = answers::plain(answer.headers@);
    let length: nat = match answer.body {
        ResponseBody::InMemory(bytes) => bytes@.len(),
        ResponseBody::Spooled(_) => 0,
    };
    let last = state.served + 1 >= state.max_keepalive;
    let head = encode_utf8(
        response::head_text(answer.status, laws::sent_fields(headers, length, last)),
    );
    answers::lemma_plain(answer.headers@);
    answers::lemma_kept_tells(headers);
    answers::everything_is_laid_out_in_order::<F>(head, None, state.combine);
    answers::everything_is_laid_out_in_order(head, Some(answer@.body), state.combine);
    if action is Write {
        answers::lemma_wire(action->Write_0);
    }
}

/// An answer is dealt with as [`is_dealt_with`] says. Once its spooled body is measured,
/// it goes out with that length. Either way the request counts as answered, and the
/// rest of the input stays as it is.
pub proof fn answers_go_out_in_full<F>(
    connection: &mut Connection<F>,
    head_only: bool,
    answer: HandlerResponse<F>,
    action: Action<F>,
    later: &mut Connection<F>,
    length: u64,
    next: Action<F>,
)
    requires
        call_ensures(Connection::<F>::answer, (connection, head_only, answer), action),
        old(connection)@.valid(),
        old(connection)@.is_ready(),
        call_ensures(Connection::<F>::measured, (later, length), next),
        old(later)@ == final(connection)@,
    ensures
        is_dealt_with(old(connection)@, head_only, answer, action),
        final(connection)@.buffered == old(connection)@.buffered,
        final(connection)@.max_keepalive == old(connection)@.max_keepalive,
        final(connection)@.combine == old(connection)@.combine,
        action is Write ==> final(connection)@.served == old(connection)@.served + 1,
        action is Measure ==> {
            &&& final(connection)@.served == old(connection)@.served
            &&& goes_out(old(connection)@, head_only, answer, length as nat, next)
            &&& final(later)@.buffered == old(connection)@.buffered
            &&& final(later)@.max_keepalive == old(connection)@.max_keepalive
            &&& final(later)@.combine == old(connection)@.combine
            &&& final(later)@.served == old(connection)@.served + 1
        },
{
    let state = old(connection)@;
    lemma_dealt_with(state, head_only, answer, action);
    if action is Measure {
        let headers = answers::plain(answer.headers@);
        let last = state.served + 1 >= state.max_keepalive;
        let head = encode_utf8(
            response::head_text(answer.status, laws::sent_fields(headers, length as nat, last)),
        );
        answers::lemma_plain(answer.headers@);
        answers::everything_is_laid_out_in_order::<F>(head, None, state.combine);
        answers::everything_is_laid_out_in_order(head, Some(answer@.body), state.combine);
        answers::lemma_wire(next->Write_0);
    }
}

/// The file that is to be measured is that of the answer that waits for it, and there
/// is one at no other time.
pub proof fn the_file_to_measure_is_that_of_the_answer<F>(
    connection: &mut Connection<F>,
    head_only: bool,
    answer: HandlerResponse<F>,
    action: Action<F>,
    later: &Connection<F>,
    file: Option<&F>,
)
    requires
        call_ensures(Connection::<F>::answer, (connection, head_only, answer), action),
        old(connection)@.valid(),
        old(connection)@.is_ready(),
        call_ensures(Connection::<F>::spooled, (later,), file),
        later@ == final(connection)@,
    ensures
        action is Measure ==> (answer.body matches ResponseBody::Spooled(held) && file == Some(
            &held,
        )),
        action !is Measure ==> file is None,
{
}

/// A request is answered with what the application gives for it. The body of the answer
/// is kept back exactly where the four letters of the method are those of `HEAD`, in
/// whatever case; a request with any other method, `DELETE` and whatever else there is,
/// gets all of it. One that cannot be handed over is refused with status 400.
pub proof fn only_head_requests_get_no_body<F, H: Handler<F>>(
    connection: &mut Connection<F>,
    handler: &H,
    action: Action<F>,
)
    requires
        call_ensures(Connection::<F>::serve_request::<H>, (connection, handler), action),
        old(connection)@.valid(),
        old(connection)@.is_ready(),
    ensures
        match old(connection)@.request() {
            None => writes_text(action, "HTTP/1.1 400 Bad Request\r\nConnection: close\r\n\r\n"@),
            Some(request) => exists|built: ParsedRequest<'_>, answer: HandlerResponse<F>|
                {
                    &&& built@ == request
                    &&& #[trigger] call_ensures(H::call, (handler, &built), answer)
                    &&& is_dealt_with(
                        old(connection)@,
                        answers::is_head(request.method),
                        answer,
                        action,
                    )
                },
        },
{
    let state = old(connection)@;
    match state.request() {
        None => {
            answers::lemma_wire(action->Write_0);
            answers::refusals_are_written_as_they_stand(
                state,
                connection::BAD_REQUEST_RESPONSE@,
                true,
            );
        },
        Some(request) => {
            let (built, answer) = choose|built: ParsedRequest<'_>, answer: HandlerResponse<F>|
                {
                    &&& built@ == request
                    &&& #[trigger] call_ensures(H::call, (handler, &built), answer)
                    &&& (final(connection)@, action@) == state.answering(
                        connection::wants_head_only(request),
                        answer@,
                    )
                };
            answers::lemma_is_head(request);
            lemma_dealt_with(state, answers::is_head(request.method), answer, action);
            assert(call_ensures(H::call, (handler, &built), answer));
        },
    }
}

/// Once an answer is written, the connection closes where it was the last that it was
/// opened for, and goes on with the bytes behind the request otherwise. After a refusal
/// it closes. Counts are kept.
pub proof fn connections_go_on_behind_the_request<F>(
    connection: &mut Connection<F>,
    counts: &mut ConnectionCounter,
    action: Action<F>,
)
    requires
        call_ensures(Connection::<F>::written, (connection, counts), action),
        old(connection)@.valid(),
        old(connection)@.phase is Writing || old(connection)@.phase is Rejecting,
    ensures
        counted(
            old(connection)@.phase,
            final(connection)@.phase,
            old(counts)@,
            final(counts)@,
        ),
        final(connection)@.served == old(connection)@.served,
        final(connection)@.max_keepalive == old(connection)@.max_keepalive,
        final(connection)@.combine == old(connection)@.combine,
        old(connection)@.phase is Rejecting ==> action is Close && final(connection)@.phase
            is Closed,
        old(connection)@.phase matches PhaseView::Writing { body_end, .. } ==> {
            &&& old(connection)@.served >= old(connection)@.max_keepalive ==> action is Close
                && final(connection)@.phase is Closed
            &&& old(connection)@.served < old(connection)@.max_keepalive ==> {
                &&& action !is Close
                &&& final(connection)@.buffered == old(connection)@.buffered.subrange(
                    body_end as int,
                    old(connection)@.buffered.len() as int,
                )
            }
        },
{
}

/// A connection that is closed has nothing more to do, and its request, if it had one,
/// is no longer in flight.
pub proof fn closed_connections_are_done<F>(
    connection: &mut Connection<F>,
    counts: &mut ConnectionCounter,
    action: Action<F>,
)
    requires
        call_ensures(Connection::<F>::close, (connection, counts), action),
        old(connection)@.valid(),
    ensures
        action is Close,
        final(connection)@.phase is Closed,
        counted(
            old(connection)@.phase,
            final(connection)@.phase,
            old(counts)@,
            final(counts)@,
        ),
{
}

} // verus!
