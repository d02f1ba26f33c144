//! The head of a request: the request line and the header fields.
//!
//! `httparse` reads the bytes. Everything that the engine concludes from what it
//! read, the extent of the request above all, is computed and proved here.

use vstd::prelude::*;
use vstd::utf8::*;
use crate::handler;
use crate::handler::ParsedRequest;
use crate::text;

verus! {

/// Header fields that a request may have; with more of them it is malformed.
pub const MAX_HEADERS: usize = 64;

/// `httparse::Error`, the reason why a request is malformed. The library only
/// carries it.
#[verifier::external_type_specification]
#[verifier::external_body]
pub struct ExHttparseError(httparse::Error);

/// What reading the bytes of a request gave. `consumed` is the length of the
/// head, or `None` while the head is not complete. Of a complete head `headers`
/// holds its fields. Of an incomplete one method and path are there once they have
/// been read, and `headers` has an entry for every field that there was room for:
/// those that have been read, and behind them empty ones.
#[derive(Debug)]
pub struct RawHead<'buf> {
    pub consumed: Option<usize>,
    pub method: Option<&'buf str>,
    pub path: Option<&'buf str>,
    pub headers: Vec<(&'buf str, &'buf [u8])>,
}

/// A head as plain values.
#[verifier::ext_equal]
pub struct HeadView {
    pub consumed: Option<usize>,
    pub method: Option<Seq<char>>,
    pub path: Option<Seq<char>>,
    pub headers: Seq<(Seq<char>, Seq<u8>)>,
}

/// An optional string as a plain value.
pub open spec fn optional_text(text: Option<&str>) -> Option<Seq<char>> {
    match text {
        Some(s) => Some(s@),
        None => None,
    }
}

/// Raw header fields as plain values.
pub open spec fn raw_fields(headers: Seq<(&str, &[u8])>) -> Seq<(Seq<char>, Seq<u8>)> {
    headers.map_values(|h: (&str, &[u8])| (h.0@, h.1@))
}

impl<'buf> View for RawHead<'buf> {
    type V = HeadView;

    open spec fn view(&self) -> HeadView {
        HeadView {
            consumed: self.consumed,
            method: optional_text(self.method),
            path: optional_text(self.path),
            headers: raw_fields(self.headers@),
        }
    }
}

/// What `httparse::Request::parse` makes of `bytes` with room for `max_headers`
/// header fields.
pub uninterp spec fn request_head(bytes: Seq<u8>, max_headers: usize) -> Result<
    HeadView,
    httparse::Error,
>;

/// The outcome is that of a head that is not malformed and not complete.
pub open spec fn is_incomplete(outcome: Result<HeadView, httparse::Error>) -> bool {
    outcome is Ok && outcome->Ok_0.consumed is None
}

/// The first `length` bytes decide: what is read from the front of `bytes` is an
/// incomplete head as long as some of them are missing, and the same as from all
/// of `bytes` once they are there.
pub open spec fn decided_by(bytes: Seq<u8>, length: nat, max_headers: usize) -> bool {
    forall|cut: int|
        0 <= cut <= bytes.len() ==> if cut < length {
            is_incomplete(#[trigger] request_head(bytes.take(cut), max_headers))
        } else {
            request_head(bytes.take(cut), max_headers) == request_head(bytes, max_headers)
        }
}

/// How many bytes decide what is read from `bytes`, where that is `head`: those of
/// the head, or more than there are while it is incomplete.
pub open spec fn decisive(head: HeadView, bytes: Seq<u8>) -> nat {
    match head.consumed {
        Some(length) => length as nat,
        None => bytes.len() + 1,
    }
}

/// `httparse::Request::parse` on a request with room for `max_headers` header
/// fields. The outcome depends on the bytes and on that room alone, and goes by
/// the name [`request_head`].
///
/// Claimed besides: no bytes at all are an incomplete head. Since the parser goes
/// from front to back and asks for more where the bytes run out, a head that is not
/// malformed is incomplete with any of its bytes cut off; and since it stops behind
/// the empty line, bytes that follow a complete head do not matter. A complete head
/// is not empty and lies within `bytes`, its method and path have been read, and its
/// header fields number at most `max_headers`.
#[verifier::external_body]
fn parse_request<'buf>(bytes: &'buf [u8], max_headers: usize) -> (outcome: Result<
    RawHead<'buf>,
    httparse::Error,
>)
    requires
        max_headers <= MAX_HEADERS,
    ensures
        match outcome {
            Ok(head) => request_head(bytes@, max_headers) == Ok::<HeadView, httparse::Error>(head@),
            Err(error) => request_head(bytes@, max_headers) == Err::<HeadView, httparse::Error>(
                error,
            ),
        },
        bytes@.len() == 0 ==> outcome is Ok && outcome->Ok_0.consumed is None,
        outcome matches Ok(head) ==> decided_by(bytes@, decisive(head@, bytes@), max_headers),
        outcome matches Ok(head) ==> head.consumed matches Some(length) ==> {
            &&& 0 < length <= bytes@.len()
            &&& head.method is Some
            &&& head.path is Some
            &&& head.headers@.len() <= max_headers
            &&& forall|more: Seq<u8>| #[trigger]
                request_head(bytes@ + more, max_headers) == request_head(bytes@, max_headers)
        },
{
    let mut slots = vec![httparse::EMPTY_HEADER; max_headers];
    let mut request = httparse::Request::new(&mut slots);
    let status = request.parse(bytes)?;
    Ok(RawHead {
        consumed: match status {
            httparse::Status::Complete(length) => Some(length),
            httparse::Status::Partial => None,
        },
        method: request.method,
        path: request.path,
        headers: request.headers.iter().map(|field| (field.name, field.value)).collect(),
    })
}

/// No bytes that follow `bytes` change what is read from them.
pub open spec fn settled(bytes: Seq<u8>) -> bool {
    forall|more: Seq<u8>| #[trigger]
        request_head(bytes + more, MAX_HEADERS) == request_head(bytes, MAX_HEADERS)
}

/// Once a head is settled, it stays so whatever arrives behind it.
pub proof fn settled_for_good(bytes: Seq<u8>, more: Seq<u8>)
    requires
        settled(bytes),
    ensures
        settled(bytes + more),
        request_head(bytes + more, MAX_HEADERS) == request_head(bytes, MAX_HEADERS),
{
    assert forall|rest: Seq<u8>| #[trigger]
        request_head(bytes + more + rest, MAX_HEADERS) == request_head(
            bytes + more,
            MAX_HEADERS,
        ) by {
        assert(bytes + more + rest =~= bytes + (more + rest));
        assert(request_head(bytes + (more + rest), MAX_HEADERS) == request_head(
            bytes,
            MAX_HEADERS,
        ));
    }
}

/// Reads the head of the request that `bytes` begin with.
pub fn read_head<'buf>(bytes: &'buf [u8]) -> (outcome: Result<RawHead<'buf>, httparse::Error>)
    ensures
        match outcome {
            Ok(head) => request_head(bytes@, MAX_HEADERS) == Ok::<HeadView, httparse::Error>(head@),
            Err(error) => request_head(bytes@, MAX_HEADERS) == Err::<HeadView, httparse::Error>(
                error,
            ),
        },
        bytes@.len() == 0 ==> outcome is Ok && outcome->Ok_0.consumed is None,
        outcome matches Ok(head) ==> decided_by(bytes@, decisive(head@, bytes@), MAX_HEADERS),
        outcome matches Ok(head) ==> head.consumed matches Some(length) ==> {
            &&& 0 < length <= bytes@.len()
            &&& head.method is Some
            &&& head.path is Some
            &&& head.headers@.len() <= MAX_HEADERS
            &&& settled(bytes@)
        },
{
    parse_request(bytes, MAX_HEADERS)
}

/// Why the length of a request body cannot be told.
#[derive(Debug, Clone, Copy, PartialEq, Eq, Structural)]
pub enum LengthError {
    /// A `Content-Length` value is not UTF-8.
    NotUtf8,
    /// A `Content-Length` value is not a number, or none that fits a `usize`.
    Malformed,
    /// Two `Content-Length` fields name different lengths.
    Conflicting,
}

/// What one `Content-Length` value says.
pub open spec fn length_value(value: Seq<u8>) -> Result<usize, LengthError> {
    if !valid_utf8(value) {
        Err(LengthError::NotUtf8)
    } else {
        match text::unsigned_value(text::trimmed(decode_utf8(value))) {
            Some(n) if n <= usize::MAX => Ok(n as usize),
            _ => Err(LengthError::Malformed),
        }
    }
}

/// The field's name is `Content-Length`, in whatever letter case.
pub open spec fn names_length(field: (Seq<char>, Seq<u8>)) -> bool {
    text::same_ignoring_case(field.0, "content-length"@)
}

/// The length that the header fields declare between them, if any does. The
/// first field that cannot be read, or that disagrees with those before it,
/// decides the error.
pub open spec fn declared_length(headers: Seq<(Seq<char>, Seq<u8>)>) -> Result<
    Option<usize>,
    LengthError,
>
    decreases headers.len(),
{
    if headers.len() == 0 {
        Ok(None)
    } else {
        let before = declared_length(headers.drop_last());
        if before is Err || !names_length(headers.last()) {
            before
        } else {
            match (before->Ok_0, length_value(headers.last().1)) {
                (_, Err(error)) => Err(error),
                (None, Ok(length)) => Ok(Some(length)),
                (Some(known), Ok(length)) => if known == length {
                    before
                } else {
                    Err(LengthError::Conflicting)
                },
            }
        }
    }
}

/// The length of the body that follows a head with these header fields: what
/// they declare, or nothing.
pub open spec fn body_length(headers: Seq<(Seq<char>, Seq<u8>)>) -> Result<usize, LengthError> {
    match declared_length(headers) {
        Ok(Some(length)) => Ok(length),
        Ok(None) => Ok(0),
        Err(error) => Err(error),
    }
}

/// Reads one `Content-Length` value.
fn read_length(value: &[u8]) -> (length: Result<usize, LengthError>)
    ensures
        length == length_value(value@),
{
    match core::str::from_utf8(value) {
        Err(_) => Err(LengthError::NotUtf8),
        Ok(s) => match text::parse_usize(text::trim(s)) {
            Some(n) => Ok(n),
            None => Err(LengthError::Malformed),
        },
    }
}

/// The length of the request body, from the header fields.
pub fn content_length(headers: &[(&str, &[u8])]) -> (length: Result<usize, LengthError>)
    ensures
        length == body_length(raw_fields(headers@)),
{
    let ghost all = raw_fields(headers@);
    let mut found: Option<usize> = None;
    let mut index: usize = 0;
    assert(all.take(0) =~= Seq::<(Seq<char>, Seq<u8>)>::empty());
    while index < headers.len()
        invariant
            index <= headers@.len(),
            all == raw_fields(headers@),
            declared_length(all.take(index as int)) == Ok::<Option<usize>, LengthError>(found),
        decreases headers@.len() - index,
    {
        let ghost seen = all.take(index + 1);
        assert(seen.drop_last() =~= all.take(index as int));
        assert(seen.last() == (headers@[index as int].0@, headers@[index as int].1@));
        if text::eq_ignore_ascii_case(headers[index].0, "content-length") {
            let read = read_length(headers[index].1);
            match read {
                Err(error) => {
                    proof {
                        error_stays(all, index + 1);
                    }
                    return Err(error);
                },
                Ok(length) => match found {
                    None => {
                        found = Some(length);
                    },
                    Some(known) => {
                        if known != length {
                            proof {
                                error_stays(all, index + 1);
                            }
                            return Err(LengthError::Conflicting);
                        }
                    },
                },
            }
        }
        index = index + 1;
    }
    assert(all.take(index as int) =~= all);
    match found {
        Some(length) => Ok(length),
        None => Ok(0),
    }
}

pub(crate) proof fn error_stays(headers: Seq<(Seq<char>, Seq<u8>)>, k: int)
    requires
        0 <= k <= headers.len(),
        declared_length(headers.take(k)) is Err,
    ensures
        declared_length(headers) == declared_length(headers.take(k)),
    decreases headers.len() - k,
{
    if k < headers.len() {
        assert(headers.drop_last().take(k) =~= headers.take(k));
        error_stays(headers.drop_last(), k);
    } else {
        assert(headers.take(k) =~= headers);
    }
}

/// A length is declared exactly where some field is named `Content-Length`, all
/// such fields can be read, and all of them name that one length.
pub proof fn declared_lengths_agree(headers: Seq<(Seq<char>, Seq<u8>)>, length: usize)
    ensures
        declared_length(headers) == Ok::<Option<usize>, LengthError>(None) <==> (forall|i: int|
            0 <= i < headers.len() ==> !names_length(#[trigger] headers[i])),
        declared_length(headers) == Ok::<Option<usize>, LengthError>(Some(length)) <==> {
            &&& exists|i: int| 0 <= i < headers.len() && names_length(#[trigger] headers[i])
            &&& forall|i: int|
                0 <= i < headers.len() && names_length(#[trigger] headers[i]) ==> length_value(
                    headers[i].1,
                ) == Ok::<usize, LengthError>(length)
        },
    decreases headers.len(),
{
    if headers.len() > 0 {
        let front = headers.drop_last();
        let end = headers.len() - 1;
        declared_lengths_agree(front, length);
        assert forall|i: int| 0 <= i < front.len() implies front[i] == headers[i] by {}
        if let Ok(Some(known)) = declared_length(front) {
            declared_lengths_agree(front, known);
        }
        if !names_length(headers[end]) {
            if exists|i: int| 0 <= i < headers.len() && names_length(#[trigger] headers[i]) {
                let i = choose|i: int| 0 <= i < headers.len() && names_length(#[trigger] headers[i]);
                assert(names_length(front[i]));
            }
        }
    }
}

/// The string, or the empty one.
pub open spec fn text_or_empty(text: Option<Seq<char>>) -> Seq<char> {
    match text {
        Some(s) => s,
        None => Seq::empty(),
    }
}

/// Every header value is UTF-8.
pub open spec fn values_are_text(headers: Seq<(Seq<char>, Seq<u8>)>) -> bool {
    forall|i: int| 0 <= i < headers.len() ==> valid_utf8(#[trigger] headers[i].1)
}

/// Header fields with their values as text.
pub open spec fn text_fields(headers: Seq<(Seq<char>, Seq<u8>)>) -> Seq<(Seq<char>, Seq<char>)> {
    headers.map_values(|h: (Seq<char>, Seq<u8>)| (h.0, decode_utf8(h.1)))
}

/// The request that a handler gets for a head and a body. The target is parted
/// at its first question mark into path and query. There is no such request
/// where a header value is not UTF-8.
pub open spec fn request_of(head: HeadView, body: Seq<u8>) -> Option<handler::RequestView> {
    if values_are_text(head.headers) {
        let (path, query) = text::parted(text_or_empty(head.path), '?');
        Some(
            handler::RequestView {
                method: text_or_empty(head.method),
                path,
                query,
                headers: text_fields(head.headers),
                body,
            },
        )
    } else {
        None
    }
}

/// Builds the request that a handler gets.
pub fn build_request<'buf>(head: RawHead<'buf>, body: &'buf [u8]) -> (request: Option<
    ParsedRequest<'buf>,
>)
    ensures
        match request {
            Some(built) => request_of(head@, body@) == Some(built@),
            None => request_of(head@, body@) is None,
        },
{
    let target = match head.path {
        Some(path) => path,
        None => "",
    };
    let method = match head.method {
        Some(method) => method,
        None => "",
    };
    proof {
        reveal_strlit("");
        assert(""@ =~= Seq::<char>::empty());
    }
    let (path, query) = text::split_once(target, '?');
    let ghost all = head@.headers;
    let mut headers: Vec<(&'buf str, &'buf str)> = Vec::with_capacity(head.headers.len());
    let mut index: usize = 0;
    while index < head.headers.len()
        invariant
            index <= head.headers@.len(),
            all == raw_fields(head.headers@),
            headers@.len() == index,
            forall|i: int| 0 <= i < index ==> valid_utf8(#[trigger] all[i].1),
            forall|i: int|
                0 <= i < index ==> (#[trigger] headers@[i]).0@ == all[i].0 && headers@[i].1@
                    == decode_utf8(all[i].1),
        decreases head.headers@.len() - index,
    {
        let (name, value) = head.headers[index];
        assert(all[index as int] == (name@, value@));
        match core::str::from_utf8(value) {
            Ok(s) => {
                headers.push((name, s));
            },
            Err(_) => {
                assert(!valid_utf8(head@.headers[index as int].1));
                return None;
            },
        }
        index = index + 1;
    }
    let request = ParsedRequest { method, path, query, headers, body };
    assert(request@.headers =~= text_fields(all));
    Some(request)
}

} // verus!
