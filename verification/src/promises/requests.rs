//! What holds of requests, from the bytes that arrive to what the application gets.

use vstd::prelude::*;
use vstd::utf8::*;
use crate::connection::{ActionView, ConnectionError, ConnectionView, PhaseView};
use crate::handler::ParsedRequest;
use crate::head;
use crate::head::LengthError;
use crate::promises;
use crate::runs;
use crate::text;

verus! {

/// The characters of `s` from `from` up to `to` are the number `n`, and those around
/// them are white space.
pub open spec fn tells_between(s: Seq<char>, n: nat, from: int, to: int) -> bool {
    &&& 0 <= from <= to <= s.len()
    &&& promises::blank_between(s, 0, from)
    &&& promises::blank_between(s, to, s.len() as int)
    &&& text::unsigned_value(s.subrange(from, to)) == Some(n)
}

/// `s` is the number `n` with white space around it.
pub open spec fn tells(s: Seq<char>, n: nat) -> bool {
    exists|from: int, to: int| tells_between(s, n, from, to)
}

proof fn lemma_numbers_have_no_blank_ends(s: Seq<char>)
    requires
        text::unsigned_value(s) is Some,
    ensures
        s.len() > 0,
        !promises::blank(s[0]),
        !promises::blank(s[s.len() - 1]),
{
    let digits = text::unsigned_digits(s);
    assert(text::is_digit(digits[0]));
    assert(text::is_digit(digits[digits.len() - 1]));
    promises::white_space_is_told_by_its_characters(s[0]);
    promises::white_space_is_told_by_its_characters(s[s.len() - 1]);
}

/// A value tells the length `n` exactly where it is UTF-8 and its text is that number
/// with white space around it, and the number fits. A value that is not UTF-8 is one
/// fault, and any other that tells no length is the other.
pub proof fn a_value_tells_the_number_that_it_is(value: Seq<u8>, n: usize)
    ensures
        head::length_value(value) == Ok::<usize, LengthError>(n) <==> valid_utf8(value) && tells(
            decode_utf8(value),
            n as nat,
        ),
        !valid_utf8(value) ==> head::length_value(value) == Err::<usize, LengthError>(
            LengthError::NotUtf8,
        ),
        valid_utf8(value) && head::length_value(value) is Err ==> head::length_value(value)
            == Err::<usize, LengthError>(LengthError::Malformed),
{
    let s = decode_utf8(value);
    let ends = promises::trimming_takes_off_white_space_only(s);
    if valid_utf8(value) && head::length_value(value) == Ok::<usize, LengthError>(n) {
        assert(tells_between(s, n as nat, ends.0, ends.1));
    }
    if valid_utf8(value) && tells(s, n as nat) {
        let (from, to) = choose|from: int, to: int| tells_between(s, n as nat, from, to);
        let part = s.subrange(from, to);
        lemma_numbers_have_no_blank_ends(part);
        assert(part[0] == s[from]);
        assert(part[part.len() - 1] == s[to - 1]);
        promises::lemma_ends_are_unique(s, from, to, ends.0, ends.1);
    }
}

/// The field's name is `Content-Length`, in whatever letter case.
pub open spec fn is_length_field(field: (Seq<char>, Seq<u8>)) -> bool {
    promises::spells(
        field.0,
        seq!['c', 'o', 'n', 't', 'e', 'n', 't', '-', 'l', 'e', 'n', 'g', 't', 'h'],
    )
}

proof fn lemma_length_field(field: (Seq<char>, Seq<u8>))
    ensures
        head::names_length(field) <==> is_length_field(field),
{
    let word = seq!['c', 'o', 'n', 't', 'e', 'n', 't', '-', 'l', 'e', 'n', 'g', 't', 'h'];
    reveal_strlit("content-length");
    assert("content-length"@ =~= word);
    promises::names_are_told_by_their_letters(field.0, word);
}

/// The length of a body rests on every header field, wherever it stands. It is `n`
/// where there is a `Content-Length` field and all of them, the first and the last
/// and any between, tell `n`; it is nothing where there is none; and it is told in no
/// other way.
pub proof fn the_body_is_as_long_as_all_length_fields_say(
    headers: Seq<(Seq<char>, Seq<u8>)>,
    n: usize,
)
    ensures
        head::body_length(headers) == Ok::<usize, LengthError>(n) <==> {
            ||| n == 0 && forall|i: int|
                0 <= i < headers.len() ==> !is_length_field(#[trigger] headers[i])
            ||| {
                &&& exists|i: int| 0 <= i < headers.len() && is_length_field(#[trigger] headers[i])
                &&& forall|i: int|
                    0 <= i < headers.len() && is_length_field(#[trigger] headers[i])
                        ==> valid_utf8(headers[i].1) && tells(
                        decode_utf8(headers[i].1),
                        n as nat,
                    )
            }
        },
{
    assert forall|i: int| 0 <= i < headers.len() implies (is_length_field(#[trigger] headers[i])
        <==> head::names_length(headers[i])) by {
        lemma_length_field(headers[i]);
    }
    assert forall|i: int| 0 <= i < headers.len() implies ((head::length_value(
        #[trigger] headers[i].1,
    ) == Ok::<usize, LengthError>(n)) <==> (valid_utf8(headers[i].1) && tells(
        decode_utf8(headers[i].1),
        n as nat,
    ))) by {
        a_value_tells_the_number_that_it_is(headers[i].1, n);
    }
    head::declared_lengths_agree(headers, n);
}

/// Among the `Content-Length` fields the first that is at fault decides the error:
/// one that tells no length by what is wrong with it, and one that tells another
/// length than those before it by that.
pub proof fn the_first_fault_among_length_fields_decides(
    headers: Seq<(Seq<char>, Seq<u8>)>,
    at: int,
    n: usize,
)
    requires
        0 <= at < headers.len(),
        is_length_field(headers[at]),
        forall|i: int|
            0 <= i < at && is_length_field(#[trigger] headers[i]) ==> head::length_value(
                headers[i].1,
            ) == Ok::<usize, LengthError>(n),
    ensures
        match head::length_value(headers[at].1) {
            Err(error) => head::body_length(headers) == Err::<usize, LengthError>(error),
            Ok(other) => other != n && (exists|i: int|
                0 <= i < at && is_length_field(#[trigger] headers[i])) ==> head::body_length(
                headers,
            ) == Err::<usize, LengthError>(LengthError::Conflicting),
        },
{
    let front = headers.take(at);
    let upto = headers.take(at + 1);
    assert(upto.drop_last() =~= front);
    assert forall|i: int| 0 <= i < headers.len() implies (is_length_field(#[trigger] headers[i])
        <==> head::names_length(headers[i])) by {
        lemma_length_field(headers[i]);
    }
    assert forall|i: int| 0 <= i < front.len() && head::names_length(#[trigger] front[i]) implies
        head::length_value(front[i].1) == Ok::<usize, LengthError>(n) by {
        assert(is_length_field(headers[i]));
    }
    head::declared_lengths_agree(front, n);
    if exists|i: int| 0 <= i < at && is_length_field(#[trigger] headers[i]) {
        let i = choose|i: int| 0 <= i < at && is_length_field(#[trigger] headers[i]);
        assert(head::names_length(front[i]));
        assert(head::declared_length(front) == Ok::<Option<usize>, LengthError>(Some(n)));
    } else {
        assert forall|i: int| 0 <= i < front.len() implies !head::names_length(
            #[trigger] front[i],
        ) by {
            assert(!is_length_field(headers[i]));
        }
        assert(head::declared_length(front) == Ok::<Option<usize>, LengthError>(None));
    }
    if head::declared_length(upto) is Err {
        head::error_stays(headers, at + 1);
    }
}

/// The application gets the request as it came: the method, the target as path and
/// query, which with the first question mark between them are the target, every
/// header field in its order with its name and all the bytes of its value, and the
/// body. It gets none exactly where some value is not UTF-8.
pub proof fn the_application_gets_the_request_as_it_came(read: head::HeadView, body: Seq<u8>)
    ensures
        match head::request_of(read, body) {
            None => exists|i: int|
                0 <= i < read.headers.len() && !valid_utf8(#[trigger] read.headers[i].1),
            Some(request) => {
                &&& forall|i: int|
                    0 <= i < read.headers.len() ==> valid_utf8(#[trigger] read.headers[i].1)
                &&& read.method matches Some(method) ==> request.method == method
                &&& read.path matches Some(target) ==> {
                    &&& !request.path.contains('?')
                    &&& target.contains('?') ==> target == request.path + seq!['?']
                        + request.query
                    &&& !target.contains('?') ==> target == request.path && request.query.len()
                        == 0
                }
                &&& request.headers.len() == read.headers.len()
                &&& forall|i: int|
                    0 <= i < read.headers.len() ==> (#[trigger] request.headers[i]).0
                        == read.headers[i].0 && encode_utf8(request.headers[i].1)
                        == read.headers[i].1
                &&& request.body == body
            },
        },
{
    if let Some(request) = head::request_of(read, body) {
        assert forall|i: int| 0 <= i < read.headers.len() implies (#[trigger] request.headers[i]).0
            == read.headers[i].0 && encode_utf8(request.headers[i].1) == read.headers[i].1 by {
            assert(valid_utf8(read.headers[i].1));
            decode_utf8_encode_utf8(read.headers[i].1);
        }
        if let Some(target) = read.path {
            promises::parting_loses_nothing(target, '?');
        }
    }
}

/// A request whose head takes the first `head_end` bytes is answered once the bytes
/// that its `Content-Length` fields tell of have followed, wherever among the header
/// fields those stand, and its body is those bytes; without such a field it is
/// answered at once and has no body. The buffer is made as large as the request, and
/// no larger, where it is not that large already.
pub proof fn a_request_ends_where_its_fields_say<F>(
    state: ConnectionView<F>,
    read: head::HeadView,
    head_end: usize,
    n: usize,
)
    requires
        state.head() == Ok::<head::HeadView, httparse::Error>(read),
        read.consumed == Some(head_end),
        head_end <= 65536,
        n <= 10485760,
        head_end <= state.buffered.len(),
        ({
            ||| n == 0 && forall|i: int|
                0 <= i < read.headers.len() ==> !is_length_field(#[trigger] read.headers[i])
            ||| {
                &&& exists|i: int|
                    0 <= i < read.headers.len() && is_length_field(#[trigger] read.headers[i])
                &&& forall|i: int|
                    0 <= i < read.headers.len() && is_length_field(#[trigger] read.headers[i])
                        ==> valid_utf8(read.headers[i].1) && tells(
                        decode_utf8(read.headers[i].1),
                        n as nat,
                    )
            }
        }),
    ensures
        ({
            let end = head_end + n;
            let (after, action) = state.advancing();
            &&& after.buffered == state.buffered
            &&& state.capacity >= end ==> after.capacity == state.capacity
            &&& state.capacity < end ==> after.capacity == end
            &&& after.phase == (PhaseView::<F>::Body {
                head_end: head_end as nat,
                body_end: end as nat,
            })
            &&& state.buffered.len() < end ==> action == (ActionView::<F>::Read {
                limit: (end - state.buffered.len()) as nat,
                idle: false,
            })
            &&& state.buffered.len() >= end ==> action is Call && match after.request() {
                Some(request) => request.body == state.buffered.subrange(head_end as int, end),
                None => exists|i: int|
                    0 <= i < read.headers.len() && !valid_utf8(#[trigger] read.headers[i].1),
            }
        }),
{
    the_body_is_as_long_as_all_length_fields_say(read.headers, n);
    the_application_gets_the_request_as_it_came(
        read,
        state.buffered.subrange(head_end as int, head_end + n),
    );
}

/// A head that is malformed drops the connection with what is wrong with it, and so
/// does a body whose length cannot be told; nothing is written.
pub proof fn faulty_requests_drop_the_connection<F>(state: ConnectionView<F>)
    ensures
        state.head() matches Err(error) ==> {
            &&& state.advancing().1 == ActionView::<F>::Fail(ConnectionError::Malformed(error))
            &&& state.advancing().0.phase is Closed
        },
        state.head() matches Ok(read) ==> read.consumed matches Some(head_end) ==> (head_end
            <= 65536 && head::body_length(read.headers) is Err) ==> {
            &&& state.advancing().1 == ActionView::<F>::Fail(
                ConnectionError::Length(head::body_length(read.headers)->Err_0),
            )
            &&& state.advancing().0.phase is Closed
        },
{
}

/// A fresh connection has nothing buffered and has answered nothing, and may answer
/// as many requests as it was opened for.
pub proof fn a_fresh_connection_owes_nothing<F>(max_keepalive: nat, combine: bool)
    ensures
        ({
            let fresh = ConnectionView::<F>::opened(max_keepalive, combine);
            &&& fresh.buffered.len() == 0
            &&& fresh.capacity == 8192
            &&& fresh.served == 0
            &&& fresh.max_keepalive == max_keepalive
            &&& fresh.combine == combine
            &&& fresh.phase is Reading
            &&& fresh.valid()
        }),
{
}

/// While a head is incomplete the connection reads on: into what the buffer has left,
/// which doubles when it is full, up to 65536 bytes. The idle timeout is for a
/// connection on which nothing of a request has arrived, and for no other. With
/// 65536 bytes there the head is refused instead.
pub proof fn heads_are_read_into_a_growing_buffer<F>(
    state: ConnectionView<F>,
    read: head::HeadView,
)
    requires
        state.head() == Ok::<head::HeadView, httparse::Error>(read),
        read.consumed is None,
        state.sized(),
    ensures
        ({
            let filled = state.buffered.len();
            let (after, action) = state.advancing();
            &&& after.buffered == state.buffered
            &&& filled >= 65536 ==> action is Write && after.phase is Rejecting
            &&& filled < 65536 ==> {
                &&& action is Read
                &&& after.phase is Reading
                &&& filled + action->limit == after.capacity
                &&& action->idle == (filled == 0)
                &&& filled < state.capacity ==> after.capacity == state.capacity
                &&& filled == state.capacity && 2 * filled <= 65536 ==> after.capacity == 2
                    * filled
                &&& filled == state.capacity && 2 * filled > 65536 ==> after.capacity == 65536
            }
        }),
{
}

/// Bytes that arrive are added behind those that are there, and once they have been
/// taken in the connection wants no more of a body than is missing.
pub proof fn arriving_bytes_are_added_at_the_end<F>(state: ConnectionView<F>, data: Seq<u8>)
    requires
        state.valid(),
        state.awaits_bytes(),
    ensures
        ({
            let (after, action) = state.receiving(data);
            &&& after.buffered == state.buffered + data
            &&& after.served == state.served
            &&& after.max_keepalive == state.max_keepalive
            &&& state.phase is Body ==> after == (ConnectionView {
                buffered: state.buffered + data,
                ..state
            })
            &&& action is Read && after.phase is Body ==> {
                &&& after.buffered.len() + action->limit == after.phase->Body_body_end
                &&& !action->idle
            }
            &&& state.phase is Body ==> (action is Call <==> state.buffered.len() + data.len()
                >= state.phase->Body_body_end) && (action is Call || action is Read)
        }),
{
}

// ---- The operations on requests ----

/// The header field is named `Content-Length`, in whatever letter case.
pub open spec fn names_the_length(field: (&str, &[u8])) -> bool {
    is_length_field((field.0@, field.1@))
}

/// Asked for the length of a body, the library answers `n` exactly where some header
/// field, the first, the last or any between, is named `Content-Length` and every one
/// that is so named tells `n`, or where none at all is and `n` is zero.
pub proof fn told_lengths_are_right(
    headers: &[(&str, &[u8])],
    length: Result<usize, LengthError>,
    n: usize,
)
    requires
        call_ensures(head::content_length, (headers,), length),
    ensures
        length == Ok::<usize, LengthError>(n) <==> {
            ||| n == 0 && forall|i: int|
                0 <= i < headers@.len() ==> !names_the_length(#[trigger] headers@[i])
            ||| {
                &&& exists|i: int|
                    0 <= i < headers@.len() && names_the_length(#[trigger] headers@[i])
                &&& forall|i: int|
                    0 <= i < headers@.len() && names_the_length(#[trigger] headers@[i])
                        ==> valid_utf8(headers@[i].1@) && tells(
                        decode_utf8(headers@[i].1@),
                        n as nat,
                    )
            }
        },
{
    let all = head::raw_fields(headers@);
    the_body_is_as_long_as_all_length_fields_say(all, n);
    assert(all.len() == headers@.len());
    assert forall|i: int| 0 <= i < headers@.len() implies #[trigger] all[i] == (
        headers@[i].0@,
        headers@[i].1@,
    ) by {}
    if exists|i: int| 0 <= i < headers@.len() && names_the_length(#[trigger] headers@[i]) {
        let i = choose|i: int| 0 <= i < headers@.len() && names_the_length(#[trigger] headers@[i]);
        assert(is_length_field(all[i]));
    }
    if exists|i: int| 0 <= i < all.len() && is_length_field(#[trigger] all[i]) {
        let i = choose|i: int| 0 <= i < all.len() && is_length_field(#[trigger] all[i]);
        assert(names_the_length(headers@[i]));
    }
    if forall|i: int| 0 <= i < headers@.len() ==> !names_the_length(#[trigger] headers@[i]) {
        assert forall|i: int| 0 <= i < all.len() implies !is_length_field(#[trigger] all[i]) by {
            assert(!names_the_length(headers@[i]));
        }
    }
    if forall|i: int| 0 <= i < all.len() ==> !is_length_field(#[trigger] all[i]) {
        assert forall|i: int| 0 <= i < headers@.len() implies !names_the_length(
            #[trigger] headers@[i],
        ) by {
            assert(!is_length_field(all[i]));
        }
    }
    if forall|i: int|
        0 <= i < headers@.len() && names_the_length(#[trigger] headers@[i]) ==> valid_utf8(
            headers@[i].1@,
        ) && tells(decode_utf8(headers@[i].1@), n as nat) {
        assert forall|i: int| 0 <= i < all.len() && is_length_field(#[trigger] all[i]) implies
            valid_utf8(all[i].1) && tells(decode_utf8(all[i].1), n as nat) by {
            assert(names_the_length(headers@[i]));
        }
    }
    if forall|i: int|
        0 <= i < all.len() && is_length_field(#[trigger] all[i]) ==> valid_utf8(all[i].1)
            && tells(decode_utf8(all[i].1), n as nat) {
        assert forall|i: int|
            0 <= i < headers@.len() && names_the_length(#[trigger] headers@[i]) implies valid_utf8(
            headers@[i].1@,
        ) && tells(decode_utf8(headers@[i].1@), n as nat) by {
            assert(is_length_field(all[i]));
        }
    }
}

/// Where the `Content-Length` fields ahead of one all tell `n`, that one decides: a
/// value that is not UTF-8 is one error, a text that tells no length another, and a
/// length other than that of the fields ahead a third.
pub proof fn told_faults_are_right(
    headers: &[(&str, &[u8])],
    length: Result<usize, LengthError>,
    at: int,
    n: usize,
)
    requires
        call_ensures(head::content_length, (headers,), length),
        0 <= at < headers@.len(),
        names_the_length(headers@[at]),
        forall|i: int|
            0 <= i < at && names_the_length(#[trigger] headers@[i]) ==> valid_utf8(
                headers@[i].1@,
            ) && tells(decode_utf8(headers@[i].1@), n as nat),
    ensures
        !valid_utf8(headers@[at].1@) ==> length == Err::<usize, LengthError>(LengthError::NotUtf8),
        valid_utf8(headers@[at].1@) && (forall|m: usize|
            !#[trigger] tells(decode_utf8(headers@[at].1@), m as nat)) ==> length == Err::<
            usize,
            LengthError,
        >(LengthError::Malformed),
        forall|m: usize|
            valid_utf8(headers@[at].1@) && #[trigger] tells(decode_utf8(headers@[at].1@), m as nat)
                && m != n && (exists|i: int|
                0 <= i < at && names_the_length(#[trigger] headers@[i])) ==> length == Err::<
                usize,
                LengthError,
            >(LengthError::Conflicting),
{
    let all = head::raw_fields(headers@);
    let value = headers@[at].1@;
    assert forall|i: int| 0 <= i < headers@.len() implies #[trigger] all[i] == (
        headers@[i].0@,
        headers@[i].1@,
    ) by {}
    assert forall|i: int| 0 <= i < at && is_length_field(#[trigger] all[i]) implies
        head::length_value(all[i].1) == Ok::<usize, LengthError>(n) by {
        assert(names_the_length(headers@[i]));
        a_value_tells_the_number_that_it_is(all[i].1, n);
    }
    the_first_fault_among_length_fields_decides(all, at, n);
    a_value_tells_the_number_that_it_is(value, n);
    if head::length_value(value) is Ok {
        a_value_tells_the_number_that_it_is(value, head::length_value(value)->Ok_0);
    }
    if exists|i: int| 0 <= i < at && names_the_length(#[trigger] headers@[i]) {
        let i = choose|i: int| 0 <= i < at && names_the_length(#[trigger] headers@[i]);
        assert(is_length_field(all[i]));
    }
    assert forall|m: usize|
        valid_utf8(value) && #[trigger] tells(decode_utf8(value), m as nat) implies
        head::length_value(value) == Ok::<usize, LengthError>(m) by {
        a_value_tells_the_number_that_it_is(value, m);
    }
}

/// The request that is built for a handler has everything that was read of it: the
/// method, the target cut at its first question mark, each header field at its place
/// with its name and the bytes of its value, and the body. None is built exactly where
/// some value is not UTF-8.
pub proof fn built_requests_are_right<'buf>(
    read: head::RawHead<'buf>,
    body: &'buf [u8],
    request: Option<ParsedRequest<'buf>>,
)
    requires
        call_ensures(head::build_request, (read, body), request),
    ensures
        match request {
            None => exists|i: int|
                0 <= i < read.headers@.len() && !valid_utf8((#[trigger] read.headers@[i]).1@),
            Some(built) => {
                &&& forall|i: int|
                    0 <= i < read.headers@.len() ==> valid_utf8((#[trigger] read.headers@[i]).1@)
                &&& read.method matches Some(method) ==> built.method@ == method@
                &&& read.path matches Some(target) ==> {
                    &&& !built.path@.contains('?')
                    &&& target@.contains('?') ==> target@ == built.path@ + seq!['?']
                        + built.query@
                    &&& !target@.contains('?') ==> target@ == built.path@ && built.query@.len()
                        == 0
                }
                &&& built.headers@.len() == read.headers@.len()
                &&& forall|i: int|
                    0 <= i < read.headers@.len() ==> (#[trigger] built.headers@[i]).0@
                        == read.headers@[i].0@ && encode_utf8(built.headers@[i].1@)
                        == read.headers@[i].1@
                &&& built.body@ == body@
            },
        },
{
    let all = read@.headers;
    the_application_gets_the_request_as_it_came(read@, body@);
    assert forall|i: int| 0 <= i < read.headers@.len() implies #[trigger] all[i] == (
        read.headers@[i].0@,
        read.headers@[i].1@,
    ) by {}
    match request {
        None => {
            let i = choose|i: int| 0 <= i < all.len() && !valid_utf8(#[trigger] all[i].1);
            assert(!valid_utf8(read.headers@[i].1@));
        },
        Some(built) => {
            assert forall|i: int| 0 <= i < read.headers@.len() implies valid_utf8(
                (#[trigger] read.headers@[i]).1@,
            ) by {
                assert(valid_utf8(all[i].1));
            }
            assert forall|i: int| 0 <= i < read.headers@.len() implies (
            #[trigger] built.headers@[i]).0@ == read.headers@[i].0@ && encode_utf8(
                built.headers@[i].1@,
            ) == read.headers@[i].1@ by {
                assert(built@.headers[i] == (built.headers@[i].0@, built.headers@[i].1@));
            }
        },
    }
}

/// A head is read with room for 64 header fields. One that is complete is not empty
/// and lies within the bytes, has its method and its target, and no more than 64
/// fields; and no bytes are the front of a head.
pub proof fn heads_are_read_with_room_for_all_fields<'buf>(
    bytes: &'buf [u8],
    outcome: Result<head::RawHead<'buf>, httparse::Error>,
)
    requires
        call_ensures(head::read_head, (bytes,), outcome),
    ensures
        outcome matches Err(error) ==> head::request_head(bytes@, 64) == Err::<
            head::HeadView,
            httparse::Error,
        >(error),
        outcome matches Ok(read) ==> head::request_head(bytes@, 64) == Ok::<
            head::HeadView,
            httparse::Error,
        >(read@),
        bytes@.len() == 0 ==> outcome is Ok && outcome->Ok_0.consumed is None,
        outcome matches Ok(read) ==> read.consumed matches Some(head_end) ==> {
            &&& 0 < head_end <= bytes@.len()
            &&& read.method is Some && read.path is Some
            &&& read.headers@.len() <= 64
        },
{
}

/// Bytes are found well formed unless a head among the first `most` requests is
/// malformed: none is looked at where `most` is zero; a malformed one in front decides;
/// and behind a whole request the question is the same for the bytes that follow it and
/// one request less.
pub proof fn malformed_heads_are_found<'buf>(
    bytes: &'buf [u8],
    most: usize,
    yes: bool,
    outcome: Result<head::RawHead<'buf>, httparse::Error>,
    fields: &[(&'buf str, &'buf [u8])],
    length: Result<usize, LengthError>,
    rest: &'buf [u8],
    rest_yes: bool,
)
    requires
        call_ensures(runs::is_well_formed, (bytes, most), yes),
        call_ensures(head::read_head, (bytes,), outcome),
        outcome is Ok ==> fields@ == outcome->Ok_0.headers@,
        call_ensures(head::content_length, (fields,), length),
        most > 0 ==> call_ensures(
            runs::is_well_formed,
            (rest, (most - 1) as usize),
            rest_yes,
        ),
    ensures
        most == 0 ==> yes,
        most > 0 && outcome is Err ==> !yes,
        most > 0 && outcome is Ok && outcome->Ok_0.consumed is None ==> yes,
        most > 0 && outcome is Ok && outcome->Ok_0.consumed is Some ==> {
            let head_end = outcome->Ok_0.consumed->0;
            let whole = head_end <= 65536 && length is Ok && length->Ok_0 <= 10485760 && head_end
                + length->Ok_0 <= bytes@.len();
            &&& !whole ==> yes
            &&& whole && rest@ == bytes@.subrange(
                head_end + length->Ok_0,
                bytes@.len() as int,
            ) ==> yes == rest_yes
        },
{
}

} // verus!
