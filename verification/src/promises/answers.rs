//! What holds of answers, from what the application gives to the bytes on the wire.

use vstd::prelude::*;
use vstd::utf8::*;
use crate::connection;
use crate::connection::ConnectionView;
use crate::handler;
use crate::handler::ResponseBody;
use crate::laws;
use crate::promises;
use crate::response;
use crate::response::{BodySender, SendAction};
use crate::text;

verus! {

// ---- The text of a head, read back ----

/// Where `a` is first followed by `b` in `s`: the place of `a`, or the length of `s`
/// where it never is.
pub open spec fn first_pair(s: Seq<char>, a: char, b: char) -> int
    decreases s.len(),
{
    if s.len() < 2 {
        s.len() as int
    } else if s[0] == a && s[1] == b {
        0
    } else {
        1 + first_pair(s.drop_first(), a, b)
    }
}

/// What stands ahead of the first `a` and `b` in `s`, and what stands behind them.
pub open spec fn around(s: Seq<char>, a: char, b: char) -> (Seq<char>, Seq<char>) {
    let at = first_pair(s, a, b);
    if at + 2 <= s.len() {
        (s.take(at), s.skip(at + 2))
    } else {
        (s, Seq::empty())
    }
}

/// The lines of `s`, each of which a carriage return and a line feed end.
pub open spec fn lines(s: Seq<char>) -> Seq<Seq<char>>
    decreases s.len(),
{
    if s.len() == 0 {
        Seq::empty()
    } else {
        let (line, rest) = around(s, '\r', '\n');
        if rest.len() < s.len() {
            seq![line] + lines(rest)
        } else {
            seq![line]
        }
    }
}

proof fn lemma_first_pair(front: Seq<char>, rest: Seq<char>, a: char, b: char)
    requires
        !front.contains(a),
    ensures
        first_pair(front + seq![a, b] + rest, a, b) == front.len(),
        around(front + seq![a, b] + rest, a, b) == (front, rest),
    decreases front.len(),
{
    let s = front + seq![a, b] + rest;
    if front.len() == 0 {
        assert(s[0] == a && s[1] == b);
    } else {
        let shorter = front.drop_first();
        assert forall|i: int| 0 <= i < shorter.len() implies shorter[i] != a by {
            assert(front.contains(front[i + 1]));
        }
        assert(front.contains(front[0]));
        lemma_first_pair(shorter, rest, a, b);
        assert(s.drop_first() =~= shorter + seq![a, b] + rest);
        assert(s[0] == front[0]);
    }
    assert(s.take(front.len() as int) =~= front);
    assert(s.skip(front.len() as int + 2) =~= rest);
}

proof fn lemma_line(line: Seq<char>, rest: Seq<char>)
    requires
        !line.contains('\r'),
    ensures
        lines(line + seq!['\r', '\n'] + rest) == seq![line] + lines(rest),
{
    lemma_first_pair(line, rest, '\r', '\n');
}

/// The field's name holds no colon, and neither its name nor its value a carriage
/// return.
pub open spec fn fits_a_line(field: (Seq<char>, Seq<char>)) -> bool {
    &&& !field.0.contains(':')
    &&& !field.0.contains('\r')
    &&& !field.1.contains('\r')
}

/// All fields fit a line each.
pub open spec fn fit_lines(headers: response::Fields) -> bool {
    forall|i: int| 0 <= i < headers.len() ==> fits_a_line(#[trigger] headers[i])
}

/// The line that a field is written as.
spec fn line_of(field: (Seq<char>, Seq<char>)) -> Seq<char> {
    field.0 + seq![':', ' '] + field.1
}

proof fn lemma_line_of(field: (Seq<char>, Seq<char>))
    requires
        fits_a_line(field),
    ensures
        !line_of(field).contains('\r'),
        around(line_of(field), ':', ' ') == field,
{
    lemma_first_pair(field.0, field.1, ':', ' ');
    let line = line_of(field);
    assert forall|i: int| 0 <= i < line.len() implies line[i] != '\r' by {
        if i < field.0.len() {
            assert(field.0.contains(field.0[i]));
        } else if i >= field.0.len() + 2 {
            assert(field.1.contains(field.1[i - field.0.len() - 2]));
        }
    }
}

proof fn lemma_field_lines(headers: response::Fields, tail: Seq<char>)
    requires
        fit_lines(headers),
    ensures
        lines(response::field_lines(headers) + tail) == headers.map_values(
            |field: (Seq<char>, Seq<char>)| line_of(field),
        ) + lines(tail),
    decreases headers.len(),
{
    let written = headers.map_values(|field: (Seq<char>, Seq<char>)| line_of(field));
    if headers.len() == 0 {
        assert(response::field_lines(headers) + tail =~= tail);
        assert(written + lines(tail) =~= lines(tail));
    } else {
        let front = headers.drop_last();
        let field = headers.last();
        let rest = line_of(field) + seq!['\r', '\n'] + tail;
        reveal_strlit(": ");
        reveal_strlit("\r\n");
        assert(": "@ =~= seq![':', ' ']);
        assert("\r\n"@ =~= seq!['\r', '\n']);
        assert(response::field_lines(headers) + tail =~= response::field_lines(front) + rest);
        assert forall|i: int| 0 <= i < front.len() implies fits_a_line(#[trigger] front[i]) by {
            assert(fits_a_line(headers[i]));
        }
        lemma_field_lines(front, rest);
        assert(fits_a_line(headers[headers.len() - 1]));
        lemma_line_of(field);
        lemma_line(line_of(field), tail);
        assert(written =~= front.map_values(|field: (Seq<char>, Seq<char>)| line_of(field)).push(
            line_of(field),
        ));
        assert(written + lines(tail) =~= front.map_values(
            |field: (Seq<char>, Seq<char>)| line_of(field),
        ) + (seq![line_of(field)] + lines(tail)));
    }
}

/// The statuses that have a phrase of their own.
pub open spec fn is_known(status: u16) -> bool {
    seq![
        200u16,
        201,
        202,
        204,
        301,
        302,
        304,
        400,
        401,
        403,
        404,
        405,
        413,
        414,
        431,
        500,
        501,
        502,
        503,
    ].contains(status)
}

/// Every status has its phrase: those that are listed the one that they are known by,
/// and all others the same placeholder.
pub proof fn statuses_have_the_phrases_they_are_known_by(status: u16)
    ensures
        status == 200 ==> response::phrase(status) == "OK"@,
        status == 201 ==> response::phrase(status) == "Created"@,
        status == 202 ==> response::phrase(status) == "Accepted"@,
        status == 204 ==> response::phrase(status) == "No Content"@,
        status == 301 ==> response::phrase(status) == "Moved Permanently"@,
        status == 302 ==> response::phrase(status) == "Found"@,
        status == 304 ==> response::phrase(status) == "Not Modified"@,
        status == 400 ==> response::phrase(status) == "Bad Request"@,
        status == 401 ==> response::phrase(status) == "Unauthorized"@,
        status == 403 ==> response::phrase(status) == "Forbidden"@,
        status == 404 ==> response::phrase(status) == "Not Found"@,
        status == 405 ==> response::phrase(status) == "Method Not Allowed"@,
        status == 413 ==> response::phrase(status) == "Payload Too Large"@,
        status == 414 ==> response::phrase(status) == "URI Too Long"@,
        status == 431 ==> response::phrase(status) == "Request Header Fields Too Large"@,
        status == 500 ==> response::phrase(status) == "Internal Server Error"@,
        status == 501 ==> response::phrase(status) == "Not Implemented"@,
        status == 502 ==> response::phrase(status) == "Bad Gateway"@,
        status == 503 ==> response::phrase(status) == "Service Unavailable"@,
        !is_known(status) ==> response::phrase(status) == "Unknown Status"@,
{
    let listed = seq![
        200u16,
        201,
        202,
        204,
        301,
        302,
        304,
        400,
        401,
        403,
        404,
        405,
        413,
        414,
        431,
        500,
        501,
        502,
        503,
    ];
    assert forall|i: int| 0 <= i < listed.len() implies listed.contains(#[trigger] listed[i]) by {}
    assert(listed[0] == 200 && listed[1] == 201 && listed[2] == 202 && listed[3] == 204);
    assert(listed[4] == 301 && listed[5] == 302 && listed[6] == 304 && listed[7] == 400);
    assert(listed[8] == 401 && listed[9] == 403 && listed[10] == 404 && listed[11] == 405);
    assert(listed[12] == 413 && listed[13] == 414 && listed[14] == 431 && listed[15] == 500);
    assert(listed[16] == 501 && listed[17] == 502 && listed[18] == 503);
}

proof fn lemma_phrase_is_one_line(status: u16)
    ensures
        !response::phrase(status).contains('\r'),
{
    reveal_strlit("OK");
    reveal_strlit("Created");
    reveal_strlit("Accepted");
    reveal_strlit("No Content");
    reveal_strlit("Moved Permanently");
    reveal_strlit("Found");
    reveal_strlit("Not Modified");
    reveal_strlit("Bad Request");
    reveal_strlit("Unauthorized");
    reveal_strlit("Forbidden");
    reveal_strlit("Not Found");
    reveal_strlit("Method Not Allowed");
    reveal_strlit("Payload Too Large");
    reveal_strlit("URI Too Long");
    reveal_strlit("Request Header Fields Too Large");
    reveal_strlit("Internal Server Error");
    reveal_strlit("Not Implemented");
    reveal_strlit("Bad Gateway");
    reveal_strlit("Service Unavailable");
    reveal_strlit("Unknown Status");
}

/// The status line: the version, the status in decimal and its phrase.
spec fn first_line(status: u16) -> Seq<char> {
    "HTTP/1.1 "@ + text::decimal(status as nat) + " "@ + response::phrase(status)
}

proof fn lemma_first_line(status: u16)
    ensures
        !first_line(status).contains('\r'),
{
    let (version, number, gap, phrase) = (
        "HTTP/1.1 "@,
        text::decimal(status as nat),
        " "@,
        response::phrase(status),
    );
    lemma_phrase_is_one_line(status);
    text::decimal_reads_back(status as nat);
    reveal_strlit("HTTP/1.1 ");
    reveal_strlit(" ");
    let line = first_line(status);
    assert forall|i: int| 0 <= i < line.len() implies line[i] != '\r' by {
        if i < version.len() {
            assert(line[i] == version[i]);
        } else if i < version.len() + number.len() {
            assert(line[i] == number[i - version.len()]);
            assert(text::is_digit(number[i - version.len()]));
        } else if i < version.len() + number.len() + gap.len() {
            assert(line[i] == gap[i - version.len() - number.len()]);
        } else {
            let k = i - version.len() - number.len() - gap.len();
            assert(line[i] == phrase[k]);
            assert(phrase.contains(phrase[k]));
        }
    }
}

/// A head reads back as what it was written from. Its lines are the status line, with
/// the version, the status in decimal and the phrase; one line for each field, in
/// order, whose text ahead of the first colon and space is the field's name and behind
/// it the field's value, all of it; and an empty line. So it is wherever names and
/// values keep to their line.
pub proof fn a_head_reads_back_as_it_was_written(status: u16, headers: response::Fields)
    requires
        fit_lines(headers),
    ensures
        ({
            let read = lines(response::head_text(status, headers));
            &&& read.len() == headers.len() + 2
            &&& read[0] == "HTTP/1.1 "@ + text::decimal(status as nat) + " "@ + response::phrase(
                status,
            )
            &&& forall|i: int|
                0 <= i < headers.len() ==> around(#[trigger] read[i + 1], ':', ' ') == headers[i]
            &&& read[headers.len() as int + 1] == Seq::<char>::empty()
        }),
{
    let text = response::head_text(status, headers);
    let none = Seq::<char>::empty();
    let end = seq!['\r', '\n'];
    reveal_strlit("\r\n");
    assert("\r\n"@ =~= end);
    lemma_first_line(status);
    assert(text =~= first_line(status) + end + (response::field_lines(headers) + end));
    lemma_line(first_line(status), response::field_lines(headers) + end);
    lemma_field_lines(headers, end);
    assert(none + end + none =~= end);
    lemma_line(none, none);
    let written = headers.map_values(|field: (Seq<char>, Seq<char>)| line_of(field));
    let read = lines(text);
    assert(lines(none) =~= Seq::<Seq<char>>::empty());
    assert(read =~= seq![first_line(status)] + (written + seq![none]));
    assert forall|i: int| 0 <= i < headers.len() implies around(#[trigger] read[i + 1], ':', ' ')
        == headers[i] by {
        assert(read[i + 1] == line_of(headers[i]));
        assert(fits_a_line(headers[i]));
        lemma_line_of(headers[i]);
    }
}

/// Whatever the fields hold, a head with one field more is the head without it, with
/// the name, a colon and a space, the value and a line end put ahead of the empty
/// line; and a head without fields is the status line and the empty line.
pub proof fn every_field_adds_its_line(
    status: u16,
    headers: response::Fields,
    field: (Seq<char>, Seq<char>),
)
    ensures
        ({
            let end = seq!['\r', '\n'];
            let shorter = response::head_text(status, headers);
            let longer = response::head_text(status, headers.push(field));
            let none = Seq::<(Seq<char>, Seq<char>)>::empty();
            &&& shorter == shorter.take(shorter.len() - 2) + end
            &&& longer == shorter.take(shorter.len() - 2) + field.0 + seq![':', ' '] + field.1 + end
                + end
            &&& response::head_text(status, none) == "HTTP/1.1 "@ + text::decimal(status as nat)
                + " "@ + response::phrase(status) + end + end
        }),
{
    let end = seq!['\r', '\n'];
    reveal_strlit("\r\n");
    reveal_strlit(": ");
    assert("\r\n"@ =~= end);
    assert(": "@ =~= seq![':', ' ']);
    let shorter = response::head_text(status, headers);
    let longer = response::head_text(status, headers.push(field));
    let none = Seq::<(Seq<char>, Seq<char>)>::empty();
    let body = response::status_line(status) + response::field_lines(headers);
    assert(headers.push(field).drop_last() =~= headers);
    assert(shorter =~= body + end);
    assert(shorter.take(shorter.len() - 2) =~= body);
    assert(longer =~= body + field.0 + seq![':', ' '] + field.1 + end + end);
    assert(response::head_text(status, none) =~= "HTTP/1.1 "@ + text::decimal(status as nat) + " "@
        + response::phrase(status) + end + end);
}

// ---- The fields that go out ----

/// `Connection`, in small letters.
pub open spec fn connection_word() -> Seq<char> {
    seq!['c', 'o', 'n', 'n', 'e', 'c', 't', 'i', 'o', 'n']
}

/// `Content-Length`, in small letters.
pub open spec fn length_word() -> Seq<char> {
    seq!['c', 'o', 'n', 't', 'e', 'n', 't', '-', 'l', 'e', 'n', 'g', 't', 'h']
}

/// `Transfer-Encoding`, in small letters.
pub open spec fn encoding_word() -> Seq<char> {
    seq![
        't',
        'r',
        'a',
        'n',
        's',
        'f',
        'e',
        'r',
        '-',
        'e',
        'n',
        'c',
        'o',
        'd',
        'i',
        'n',
        'g',
    ]
}

/// Some field goes by `Content-Length` or by `Transfer-Encoding`.
pub open spec fn tells_where_it_ends(headers: response::Fields) -> bool {
    exists|i: int|
        0 <= i < headers.len() && (promises::goes_by((#[trigger] headers[i]).0, length_word())
            || promises::goes_by(headers[i].0, encoding_word()))
}

/// The fields that do not go by `Connection`, in their order.
pub open spec fn but_connection(headers: response::Fields) -> response::Fields
    decreases headers.len(),
{
    if headers.len() == 0 {
        headers
    } else if promises::goes_by(headers.last().0, connection_word()) {
        but_connection(headers.drop_last())
    } else {
        but_connection(headers.drop_last()).push(headers.last())
    }
}

proof fn lemma_words(field: (Seq<char>, Seq<char>))
    ensures
        response::is_connection(field) <==> promises::goes_by(field.0, connection_word()),
        response::is_framing(field) <==> promises::goes_by(field.0, length_word())
            || promises::goes_by(field.0, encoding_word()),
{
    reveal_strlit("connection");
    reveal_strlit("content-length");
    reveal_strlit("transfer-encoding");
    assert("connection"@ =~= connection_word());
    assert("content-length"@ =~= length_word());
    assert("transfer-encoding"@ =~= encoding_word());
    promises::names_are_told_by_their_letters(field.0, connection_word());
    promises::names_are_told_by_their_letters(field.0, length_word());
    promises::names_are_told_by_their_letters(field.0, encoding_word());
}

proof fn lemma_but_connection(headers: response::Fields)
    ensures
        response::without_connection(headers) == but_connection(headers),
    decreases headers.len(),
{
    reveal(Seq::filter);
    if headers.len() > 0 {
        lemma_but_connection(headers.drop_last());
        lemma_words(headers.last());
    }
}

pub(crate) proof fn lemma_tells_where_it_ends(headers: response::Fields)
    ensures
        response::has_framing(headers) <==> tells_where_it_ends(headers),
{
    if response::has_framing(headers) {
        let i = choose|i: int| 0 <= i < headers.len() && response::is_framing(#[trigger] headers[i]);
        lemma_words(headers[i]);
    }
    if tells_where_it_ends(headers) {
        let i = choose|i: int|
            0 <= i < headers.len() && (promises::goes_by((#[trigger] headers[i]).0, length_word())
                || promises::goes_by(headers[i].0, encoding_word()));
        lemma_words(headers[i]);
    }
}

proof fn lemma_length_is_not_connection(name: Seq<char>)
    requires
        promises::goes_by(name, length_word()) || promises::goes_by(name, encoding_word()),
    ensures
        !promises::goes_by(name, connection_word()),
{
    promises::names_are_told_by_their_letters(name, length_word());
    promises::names_are_told_by_their_letters(name, encoding_word());
    promises::names_are_told_by_their_letters(name, connection_word());
    assert(length_word().len() == 14 && encoding_word().len() == 17 && connection_word().len() == 10);
}

proof fn lemma_kept_framing(headers: response::Fields)
    ensures
        tells_where_it_ends(but_connection(headers)) <==> tells_where_it_ends(headers),
    decreases headers.len(),
{
    if headers.len() > 0 {
        let front = headers.drop_last();
        let field = headers.last();
        lemma_kept_framing(front);
        let kept = but_connection(headers);
        let kept_front = but_connection(front);
        let ends = promises::goes_by(field.0, length_word()) || promises::goes_by(
            field.0,
            encoding_word(),
        );
        if ends {
            lemma_length_is_not_connection(field.0);
            assert(kept[kept.len() - 1] == field);
            assert(headers[headers.len() - 1] == field);
            assert(tells_where_it_ends(kept));
            assert(tells_where_it_ends(headers));
        } else {
            if tells_where_it_ends(front) {
                let i = choose|i: int|
                    0 <= i < front.len() && (promises::goes_by(
                        (#[trigger] front[i]).0,
                        length_word(),
                    ) || promises::goes_by(front[i].0, encoding_word()));
                assert(headers[i] == front[i]);
                let j = choose|j: int|
                    0 <= j < kept_front.len() && (promises::goes_by(
                        (#[trigger] kept_front[j]).0,
                        length_word(),
                    ) || promises::goes_by(kept_front[j].0, encoding_word()));
                assert(kept[j] == kept_front[j]);
            }
            if tells_where_it_ends(headers) {
                let i = choose|i: int|
                    0 <= i < headers.len() && (promises::goes_by(
                        (#[trigger] headers[i]).0,
                        length_word(),
                    ) || promises::goes_by(headers[i].0, encoding_word()));
                assert(i < front.len());
                assert(front[i] == headers[i]);
            }
            if tells_where_it_ends(kept) {
                let j = choose|j: int|
                    0 <= j < kept.len() && (promises::goes_by(
                        (#[trigger] kept[j]).0,
                        length_word(),
                    ) || promises::goes_by(kept[j].0, encoding_word()));
                assert(j < kept_front.len());
                assert(kept_front[j] == kept[j]);
            }
        }
    }
}

pub(crate) proof fn lemma_kept_tells(headers: response::Fields)
    ensures
        response::has_framing(response::without_connection(headers)) <==> tells_where_it_ends(
            headers,
        ),
{
    lemma_but_connection(headers);
    lemma_kept_framing(headers);
    lemma_tells_where_it_ends(but_connection(headers));
}

/// The fields of an answer go out as the application gave them, name and value, in
/// order and without those that go by `Connection`, in whatever letters and with
/// whatever white space around. Where none of them goes by `Content-Length` or
/// `Transfer-Encoding`, and only there, a `Content-Length` field with the length of the
/// body follows. And on the last answer, and only there, `Connection: close` comes
/// last. Nothing else is added.
pub proof fn fields_go_out_as_they_were_given(headers: response::Fields, length: nat, last: bool)
    ensures
        ({
            let added: response::Fields = if tells_where_it_ends(headers) {
                Seq::empty()
            } else {
                seq![("Content-Length"@, text::decimal(length))]
            };
            let closing: response::Fields = if last {
                seq![("Connection"@, "close"@)]
            } else {
                Seq::empty()
            };
            laws::sent_fields(headers, length, last) == but_connection(headers) + added + closing
        }),
{
    lemma_but_connection(headers);
    lemma_kept_tells(headers);
    let kept = but_connection(headers);
    let sent = laws::sent_fields(headers, length, last);
    let added: response::Fields = if tells_where_it_ends(headers) {
        Seq::empty()
    } else {
        seq![("Content-Length"@, text::decimal(length))]
    };
    let closing: response::Fields = if last {
        seq![("Connection"@, "close"@)]
    } else {
        Seq::empty()
    };
    assert(sent =~= kept + added + closing);
}

/// An answer in which no field goes by `Content-Length` or `Transfer-Encoding` goes out
/// with a field that gives the length of its body, whatever other fields it has.
pub proof fn an_answer_without_a_length_gets_one(
    headers: response::Fields,
    length: nat,
    last: bool,
)
    requires
        forall|i: int|
            0 <= i < headers.len() ==> !promises::goes_by(
                (#[trigger] headers[i]).0,
                length_word(),
            ) && !promises::goes_by(headers[i].0, encoding_word()),
    ensures
        laws::sent_fields(headers, length, last).contains(
            ("Content-Length"@, text::decimal(length)),
        ),
{
    fields_go_out_as_they_were_given(headers, length, last);
    let kept = but_connection(headers);
    assert(laws::sent_fields(headers, length, last)[kept.len() as int] == (
        "Content-Length"@,
        text::decimal(length),
    ));
}

// ---- What is written ----

/// The method is the four letters of `HEAD`, each in either case.
pub open spec fn is_head(method: Seq<char>) -> bool {
    &&& method.len() == 4
    &&& method[0] == 'H' || method[0] == 'h'
    &&& method[1] == 'E' || method[1] == 'e'
    &&& method[2] == 'A' || method[2] == 'a'
    &&& method[3] == 'D' || method[3] == 'd'
}

proof fn lemma_letter(c: char, capital: char, small: char)
    requires
        'A' <= capital && capital <= 'Z',
        capital as u32 + 32 == small as u32,
    ensures
        text::folded(c) == text::folded(capital) <==> c == capital || c == small,
{
}

pub(crate) proof fn lemma_is_head(request: handler::RequestView)
    ensures
        connection::wants_head_only(request) <==> is_head(request.method),
{
    let method = request.method;
    reveal_strlit("HEAD");
    if method.len() == 4 {
        lemma_letter(method[0], 'H', 'h');
        lemma_letter(method[1], 'E', 'e');
        lemma_letter(method[2], 'A', 'a');
        lemma_letter(method[3], 'D', 'd');
    }
    if is_head(method) {
        assert forall|i: int| 0 <= i < method.len() implies text::folded(#[trigger] method[i])
            == text::folded("HEAD"@[i]) by {
            assert(i == 0 || i == 1 || i == 2 || i == 3);
        }
    }
}

/// What is laid out to be written is, in order, the head and the body: of a body in
/// memory all bytes, in one segment with the head or in a second; of a spooled one the
/// file as it is; and without a body nothing but the head.
pub proof fn everything_is_laid_out_in_order<F>(
    head: Seq<u8>,
    body: Option<handler::BodyView<F>>,
    combine: bool,
)
    ensures
        ({
            let laid_out = response::transmission(head, body, combine);
            match body {
                None => laid_out.bytes() == head && laid_out.spooled is None
                    && laid_out.segments.len() == 1,
                Some(handler::BodyView::InMemory(bytes)) => {
                    &&& laid_out.bytes() == head + bytes
                    &&& laid_out.spooled is None
                    &&& laid_out.segments.len() == (if combine {
                        1int
                    } else {
                        2
                    })
                },
                Some(handler::BodyView::Spooled(file)) => {
                    &&& laid_out.bytes() == head
                    &&& laid_out.spooled == Some(file)
                    &&& laid_out.segments.len() == 1
                },
            }
        }),
{
    let laid_out = response::transmission(head, body, combine);
    reveal_with_fuel(Seq::flatten, 3);
    if let Some(handler::BodyView::InMemory(bytes)) = body {
        response::combining_keeps_the_bytes::<F>(head, bytes, combine);
    } else {
        assert(laid_out.segments =~= seq![head]);
        assert(laid_out.segments.drop_first() =~= Seq::<Seq<u8>>::empty());
        assert(laid_out.bytes() =~= head);
    }
}

/// What goes out for a request is the head of its answer, with the answer's status and
/// the fields of [`fields_go_out_as_they_were_given`], and behind it the whole body.
/// The body is kept back exactly where the method is `HEAD`, letter case aside: for a
/// method of other letters or of another length, `GET`, `POST`, `DELETE` or whatever
/// else, all of it goes out. `length` is that of the body.
pub proof fn the_body_is_kept_back_for_head_only<F>(
    state: ConnectionView<F>,
    request: handler::RequestView,
    answer: handler::ResponseView<F>,
    length: nat,
)
    requires
        state.valid(),
        state.is_ready(),
        laws::is_length_of(length, answer),
    ensures
        ({
            let step = laws::outgoing(state, connection::wants_head_only(request), answer, length);
            let last = state.served + 1 >= state.max_keepalive;
            let head = encode_utf8(
                response::head_text(
                    answer.status,
                    laws::sent_fields(answer.headers, length, last),
                ),
            );
            let written = step.1->Write_0;
            &&& step.1 is Write
            &&& is_head(request.method) ==> written.bytes() == head && written.spooled is None
            &&& !is_head(request.method) ==> match answer.body {
                handler::BodyView::InMemory(bytes) => written.bytes() == head + bytes
                    && written.spooled is None,
                handler::BodyView::Spooled(file) => written.bytes() == head && written.spooled
                    == Some(file),
            }
        }),
{
    let head_only = connection::wants_head_only(request);
    let last = state.served + 1 >= state.max_keepalive;
    let head = encode_utf8(
        response::head_text(answer.status, laws::sent_fields(answer.headers, length, last)),
    );
    lemma_is_head(request);
    laws::every_answer_goes_out(state, head_only, answer, length);
    everything_is_laid_out_in_order::<F>(head, None, state.combine);
    everything_is_laid_out_in_order(head, Some(answer.body), state.combine);
}

/// A client reads what the application answered. The text ahead of the body is the
/// status line, one line for each field and an empty line; the fields are the
/// application's, name and value, but for those that go by `Connection`, and behind
/// them the length of the body where the application told none, and the announcement
/// of the close on the last answer. So it is wherever the application's fields keep to
/// their lines.
pub proof fn a_client_reads_what_was_answered<F>(
    state: ConnectionView<F>,
    request: handler::RequestView,
    answer: handler::ResponseView<F>,
    length: nat,
) -> (head: Seq<char>)
    requires
        state.valid(),
        state.is_ready(),
        laws::is_length_of(length, answer),
        fit_lines(answer.headers),
    ensures
        ({
            let step = laws::outgoing(state, connection::wants_head_only(request), answer, length);
            let written = step.1->Write_0;
            let body = match answer.body {
                handler::BodyView::InMemory(bytes) => if is_head(request.method) {
                    Seq::empty()
                } else {
                    bytes
                },
                handler::BodyView::Spooled(_) => Seq::empty(),
            };
            &&& step.1 is Write
            &&& written.bytes() == encode_utf8(head) + body
        }),
        ({
            let kept = but_connection(answer.headers);
            let told = tells_where_it_ends(answer.headers);
            let last = state.served + 1 >= state.max_keepalive;
            let read = lines(head);
            let behind: int = if told {
                kept.len() as int
            } else {
                kept.len() as int + 1
            };
            &&& read.len() == behind + (if last {
                1int
            } else {
                0
            }) + 2
            &&& read[0] == "HTTP/1.1 "@ + text::decimal(answer.status as nat) + " "@
                + response::phrase(answer.status)
            &&& forall|i: int|
                0 <= i < kept.len() ==> around(#[trigger] read[i + 1], ':', ' ') == kept[i]
            &&& !told ==> around(read[kept.len() as int + 1], ':', ' ') == (
                "Content-Length"@,
                text::decimal(length),
            )
            &&& last ==> around(read[behind + 1], ':', ' ') == ("Connection"@, "close"@)
            &&& read.last() == Seq::<char>::empty()
        }),
{
    let last = state.served + 1 >= state.max_keepalive;
    let sent = laws::sent_fields(answer.headers, length, last);
    let head = response::head_text(answer.status, sent);
    let kept = but_connection(answer.headers);
    the_body_is_kept_back_for_head_only(state, request, answer, length);
    fields_go_out_as_they_were_given(answer.headers, length, last);
    lemma_kept_fit_lines(answer.headers);
    lemma_added_fields_fit(length);
    assert forall|i: int| 0 <= i < sent.len() implies fits_a_line(#[trigger] sent[i]) by {
        if i < kept.len() {
            assert(sent[i] == kept[i]);
        }
    }
    a_head_reads_back_as_it_was_written(answer.status, sent);
    let read = lines(head);
    assert forall|i: int| 0 <= i < kept.len() implies around(#[trigger] read[i + 1], ':', ' ')
        == kept[i] by {
        assert(around(read[i + 1], ':', ' ') == sent[i]);
    }
    if !tells_where_it_ends(answer.headers) {
        assert(around(read[kept.len() as int + 1], ':', ' ') == sent[kept.len() as int]);
    }
    if last {
        assert(around(read[sent.len() - 1 + 1], ':', ' ') == sent[sent.len() - 1]);
    }
    let bytes = encode_utf8(head);
    assert(bytes + Seq::<u8>::empty() =~= bytes);
    head
}

proof fn lemma_kept_fit_lines(headers: response::Fields)
    requires
        fit_lines(headers),
    ensures
        fit_lines(but_connection(headers)),
    decreases headers.len(),
{
    if headers.len() > 0 {
        let front = headers.drop_last();
        assert forall|i: int| 0 <= i < front.len() implies fits_a_line(#[trigger] front[i]) by {
            assert(fits_a_line(headers[i]));
        }
        lemma_kept_fit_lines(front);
        assert(fits_a_line(headers[headers.len() - 1]));
    }
}

proof fn lemma_added_fields_fit(length: nat)
    ensures
        fits_a_line(("Content-Length"@, text::decimal(length))),
        fits_a_line(("Connection"@, "close"@)),
{
    reveal_strlit("Content-Length");
    reveal_strlit("Connection");
    reveal_strlit("close");
    text::decimal_reads_back(length);
    let digits = text::decimal(length);
    assert forall|i: int| 0 <= i < digits.len() implies digits[i] != '\r' by {
        assert(text::is_digit(digits[i]));
    }
}

/// A refusal is written as it stands, and behind it the connection closes.
pub proof fn refusals_are_written_as_they_stand<F>(
    state: ConnectionView<F>,
    answer: Seq<char>,
    counted: bool,
)
    ensures
        ({
            let (after, action) = state.rejecting(answer, counted);
            &&& action is Write
            &&& action->Write_0.bytes() == encode_utf8(answer)
            &&& action->Write_0.spooled is None
            &&& after.finishing().1 is Close
            &&& after.in_flight() == counted
        }),
        connection::REQUEST_HEADER_FIELDS_TOO_LARGE@
            == "HTTP/1.1 431 Request Header Fields Too Large\r\nConnection: close\r\n\r\n"@,
        connection::PAYLOAD_TOO_LARGE_RESPONSE@
            == "HTTP/1.1 413 Payload Too Large\r\nConnection: close\r\n\r\n"@,
        connection::BAD_REQUEST_RESPONSE@
            == "HTTP/1.1 400 Bad Request\r\nConnection: close\r\n\r\n"@,
{
    everything_is_laid_out_in_order::<F>(encode_utf8(answer), None, false);
}

/// Every answer counts as one; a connection that was opened for `max_keepalive` of
/// them closes behind that answer, or behind its first, and behind no earlier one,
/// and then goes on with the bytes that follow the request.
pub proof fn the_last_answer_is_the_one_it_was_opened_for<F>(
    state: ConnectionView<F>,
    head_only: bool,
    answer: handler::ResponseView<F>,
    length: nat,
)
    requires
        state.valid(),
        state.is_ready(),
        laws::is_length_of(length, answer),
    ensures
        ({
            let sent = laws::outgoing(state, head_only, answer, length).0;
            let rest = state.buffered.skip(state.phase->Body_body_end as int);
            &&& sent.served == state.served + 1
            &&& sent.served == 1 || sent.served <= state.max_keepalive
            &&& sent.served >= state.max_keepalive ==> sent.finishing().1 is Close
                && sent.finishing().0.phase is Closed
            &&& sent.served < state.max_keepalive ==> {
                &&& sent.finishing().0.buffered == rest
                &&& sent.finishing().0.served == sent.served
                &&& sent.finishing().1 !is Close
            }
        }),
{
    laws::every_answer_goes_out(state, head_only, answer, length);
}

// ---- The operations on answers ----

/// The reason phrase for a status is the one that it is known by, and for a status
/// that has none the placeholder.
pub proof fn reason_phrases_are_right(status: u16, reason: &str)
    requires
        call_ensures(response::reason_phrase, (status,), reason),
    ensures
        status == 200 ==> reason@ == "OK"@,
        status == 201 ==> reason@ == "Created"@,
        status == 202 ==> reason@ == "Accepted"@,
        status == 204 ==> reason@ == "No Content"@,
        status == 301 ==> reason@ == "Moved Permanently"@,
        status == 302 ==> reason@ == "Found"@,
        status == 304 ==> reason@ == "Not Modified"@,
        status == 400 ==> reason@ == "Bad Request"@,
        status == 401 ==> reason@ == "Unauthorized"@,
        status == 403 ==> reason@ == "Forbidden"@,
        status == 404 ==> reason@ == "Not Found"@,
        status == 405 ==> reason@ == "Method Not Allowed"@,
        status == 413 ==> reason@ == "Payload Too Large"@,
        status == 414 ==> reason@ == "URI Too Long"@,
        status == 431 ==> reason@ == "Request Header Fields Too Large"@,
        status == 500 ==> reason@ == "Internal Server Error"@,
        status == 501 ==> reason@ == "Not Implemented"@,
        status == 502 ==> reason@ == "Bad Gateway"@,
        status == 503 ==> reason@ == "Service Unavailable"@,
        !is_known(status) ==> reason@ == "Unknown Status"@,
{
    statuses_have_the_phrases_they_are_known_by(status);
}

/// Header fields, each as its name and its value.
pub open spec fn plain(headers: Seq<(String, String)>) -> response::Fields {
    Seq::new(headers.len(), |i: int| (headers[i].0@, headers[i].1@))
}

pub(crate) proof fn lemma_plain(headers: Seq<(String, String)>)
    ensures
        handler::fields(headers) == plain(headers),
{
    assert(handler::fields(headers) =~= plain(headers));
}

/// Taking out the `Connection` fields takes out those that go by that name, and
/// leaves the others as they are and in order.
pub proof fn strips_are_right(headers: &mut Vec<(String, String)>)
    requires
        call_ensures(response::strip_connection, (headers,), ()),
    ensures
        plain(final(headers)@) == but_connection(plain(old(headers)@)),
{
    lemma_plain(old(headers)@);
    lemma_plain(final(headers)@);
    lemma_but_connection(plain(old(headers)@));
}

/// Fields tell where a body ends where one of them goes by `Content-Length` or by
/// `Transfer-Encoding`, and in no other way: `Content-Type`, for one, does not.
pub proof fn lengths_are_told_by_two_names_only(headers: &Vec<(String, String)>, yes: bool)
    requires
        call_ensures(response::tells_length, (headers,), yes),
    ensures
        yes <==> exists|i: int|
            0 <= i < headers@.len() && (promises::goes_by(
                (#[trigger] headers@[i]).0@,
                length_word(),
            ) || promises::goes_by(headers@[i].0@, encoding_word())),
{
    let all = plain(headers@);
    lemma_plain(headers@);
    lemma_tells_where_it_ends(all);
    if tells_where_it_ends(all) {
        let i = choose|i: int|
            0 <= i < all.len() && (promises::goes_by((#[trigger] all[i]).0, length_word())
                || promises::goes_by(all[i].0, encoding_word()));
        assert(all[i].0 == headers@[i].0@);
    }
    if exists|i: int|
        0 <= i < headers@.len() && (promises::goes_by((#[trigger] headers@[i]).0@, length_word())
            || promises::goes_by(headers@[i].0@, encoding_word())) {
        let i = choose|i: int|
            0 <= i < headers@.len() && (promises::goes_by(
                (#[trigger] headers@[i]).0@,
                length_word(),
            ) || promises::goes_by(headers@[i].0@, encoding_word()));
        assert(all[i].0 == headers@[i].0@);
    }
}

/// Fields that tell where the body ends are left alone, and any others get one more,
/// with the length of the body.
pub proof fn framings_are_right(headers: &mut Vec<(String, String)>, length: u64)
    requires
        call_ensures(response::ensure_framing, (headers, length), ()),
    ensures
        tells_where_it_ends(plain(old(headers)@)) ==> plain(final(headers)@) == plain(
            old(headers)@,
        ),
        !tells_where_it_ends(plain(old(headers)@)) ==> plain(final(headers)@) == plain(
            old(headers)@,
        ).push(("Content-Length"@, text::decimal(length as nat))),
{
    lemma_plain(old(headers)@);
    lemma_plain(final(headers)@);
    lemma_tells_where_it_ends(plain(old(headers)@));
}

/// On the last answer the close is announced behind the other fields, and on any other
/// nothing is.
pub proof fn announcements_are_right(headers: &mut Vec<(String, String)>, last: bool)
    requires
        call_ensures(response::announce_close, (headers, last), ()),
    ensures
        last ==> plain(final(headers)@) == plain(old(headers)@).push(("Connection"@, "close"@)),
        !last ==> plain(final(headers)@) == plain(old(headers)@),
{
    lemma_plain(old(headers)@);
    lemma_plain(final(headers)@);
}

/// The head that is written for a status and header fields reads back as that status
/// and those fields: name for name and value for value, whatever a value holds but a
/// carriage return.
pub proof fn written_heads_read_back(
    status: u16,
    headers: &Vec<(String, String)>,
    head: Vec<u8>,
    reason: &str,
) -> (text: Seq<char>)
    requires
        call_ensures(response::serialize_head, (status, headers), head),
        call_ensures(response::reason_phrase, (status,), reason),
    ensures
        head@ == encode_utf8(text),
        fit_lines(plain(headers@)) ==> {
            let read = lines(text);
            &&& read.len() == headers@.len() + 2
            &&& read[0] == "HTTP/1.1 "@ + text::decimal(status as nat) + " "@ + reason@
            &&& forall|i: int|
                0 <= i < headers@.len() ==> around(#[trigger] read[i + 1], ':', ' ') == (
                    headers@[i].0@,
                    headers@[i].1@,
                )
            &&& read[headers@.len() as int + 1] == Seq::<char>::empty()
        },
{
    let all = plain(headers@);
    lemma_plain(headers@);
    if fit_lines(all) {
        a_head_reads_back_as_it_was_written(status, all);
        let read = lines(response::head_text(status, all));
        assert forall|i: int| 0 <= i < headers@.len() implies around(
            #[trigger] read[i + 1],
            ':',
            ' ',
        ) == (headers@[i].0@, headers@[i].1@) by {
            assert(around(read[i + 1], ':', ' ') == all[i]);
        }
    }
    response::head_text(status, all)
}

/// Two heads that are the same were written from the same fields: nothing of a name or
/// of a value is lost on the way.
pub proof fn different_fields_give_different_heads(
    status: u16,
    headers: &Vec<(String, String)>,
    head: Vec<u8>,
    other_headers: &Vec<(String, String)>,
    other_head: Vec<u8>,
)
    requires
        call_ensures(response::serialize_head, (status, headers), head),
        call_ensures(response::serialize_head, (status, other_headers), other_head),
        fit_lines(plain(headers@)),
        fit_lines(plain(other_headers@)),
        head@ == other_head@,
    ensures
        plain(headers@) == plain(other_headers@),
{
    let (all, others) = (plain(headers@), plain(other_headers@));
    lemma_plain(headers@);
    lemma_plain(other_headers@);
    let text = response::head_text(status, all);
    let other_text = response::head_text(status, others);
    encode_utf8_decode_utf8(text);
    encode_utf8_decode_utf8(other_text);
    assert(text == other_text);
    a_head_reads_back_as_it_was_written(status, all);
    a_head_reads_back_as_it_was_written(status, others);
    let read = lines(text);
    assert(all.len() == others.len());
    assert forall|i: int| 0 <= i < all.len() implies #[trigger] all[i] == others[i] by {
        assert(around(read[i + 1], ':', ' ') == all[i]);
        assert(around(read[i + 1], ':', ' ') == others[i]);
    }
    assert(all =~= others);
}

/// The segments one after the other.
pub open spec fn wire(segments: Seq<Vec<u8>>) -> Seq<u8>
    decreases segments.len(),
{
    if segments.len() == 0 {
        Seq::empty()
    } else {
        segments[0]@ + wire(segments.drop_first())
    }
}

pub(crate) proof fn lemma_wire<F>(written: response::Transmission<F>)
    ensures
        wire(written.segments@) == written@.bytes(),
        written@.segments.len() == written.segments@.len(),
        written@.spooled == written.spooled,
{
    lemma_wire_segments(written.segments@, written@.segments);
}

proof fn lemma_wire_segments(segments: Seq<Vec<u8>>, plain: Seq<Seq<u8>>)
    requires
        segments.len() == plain.len(),
        forall|i: int| 0 <= i < segments.len() ==> #[trigger] plain[i] == segments[i]@,
    ensures
        wire(segments) == plain.flatten(),
    decreases segments.len(),
{
    if segments.len() > 0 {
        let rest = segments.drop_first();
        let plain_rest = plain.drop_first();
        assert forall|i: int| 0 <= i < rest.len() implies #[trigger] plain_rest[i] == rest[i]@ by {
            assert(plain[i + 1] == segments[i + 1]@);
        }
        lemma_wire_segments(rest, plain_rest);
    }
}

/// What is laid out for a response is its head and all of its body, a spooled one as
/// its file; without a body it is the head alone. A body in memory shares the segment
/// of the head exactly where that is asked for.
pub proof fn layouts_are_right<F>(
    head: Vec<u8>,
    body: Option<ResponseBody<F>>,
    combine: bool,
    written: response::Transmission<F>,
)
    requires
        call_ensures(response::write_response, (head, body, combine), written),
    ensures
        match body {
            None => wire(written.segments@) == head@ && written.spooled is None
                && written.segments@.len() == 1,
            Some(ResponseBody::InMemory(bytes)) => {
                &&& wire(written.segments@) == head@ + bytes@
                &&& written.spooled is None
                &&& combine ==> written.segments@.len() == 1
                &&& !combine ==> written.segments@.len() == 2 && written.segments@[0]@ == head@
            },
            Some(ResponseBody::Spooled(file)) => {
                &&& wire(written.segments@) == head@
                &&& written.spooled == Some(file)
                &&& written.segments@.len() == 1
            },
        },
{
    lemma_wire(written);
    everything_is_laid_out_in_order(head@, response::optional_body(body), combine);
    if written.segments@.len() > 0 {
        assert(written@.segments[0] == written.segments@[0]@);
    }
}

/// A chunk of a spooled body is written as it was read, and an empty one ends it. The
/// file is first taken back to its start, and then read in chunks of at most 131072
/// bytes.
pub proof fn chunks_go_out_as_they_were_read<'buf>(
    begun: (BodySender, SendAction<'buf>),
    asking: &mut BodySender,
    asked: SendAction<'buf>,
    passing: &mut BodySender,
    passed: SendAction<'buf>,
    buffer: &'buf [u8],
    read: usize,
    chunk: Option<&'buf [u8]>,
)
    requires
        call_ensures(BodySender::begin, (), begun),
        call_ensures(BodySender::proceed, (asking,), asked),
        call_ensures(BodySender::chunk_read, (passing, buffer, read), passed),
        call_ensures(response::write_body, (buffer, read), chunk),
        read <= buffer@.len() <= 131072,
    ensures
        begun.0 == BodySender::Opening && begun.1 is Rewind,
        *final(asking) == BodySender::Reading && asked is Read && asked->Read_0 == 131072,
        read == 0 ==> *final(passing) == BodySender::Sent && passed is Done && chunk is None,
        read > 0 ==> {
            &&& *final(passing) == BodySender::Writing
            &&& passed is Write
            &&& passed->Write_0@ == buffer@.subrange(0, read as int)
            &&& chunk is Some
            &&& chunk->0@ == buffer@.subrange(0, read as int)
        },
{
    let front = buffer@.take(read as int);
    assert(front.len() == read);
}

} // verus!
