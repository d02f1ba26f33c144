//! Responses on their way out: which header fields go with them, and the bytes
//! that go on the wire.

use vstd::prelude::*;
use vstd::string::*;
use vstd::utf8::*;
use crate::handler;
use crate::handler::ResponseBody;
use crate::text;

verus! {

/// How much of a spooled body is in memory at a time while it is sent.
pub const SPOOLED_BODY_CHUNK_SIZE: usize = 131072;

/// Header fields as plain values.
pub type Fields = Seq<(Seq<char>, Seq<char>)>;

/// The reason phrase of a status line.
pub open spec fn phrase(status: u16) -> Seq<char> {
    match status {
        200 => "OK"@,
        201 => "Created"@,
        202 => "Accepted"@,
        204 => "No Content"@,
        301 => "Moved Permanently"@,
        302 => "Found"@,
        304 => "Not Modified"@,
        400 => "Bad Request"@,
        401 => "Unauthorized"@,
        403 => "Forbidden"@,
        404 => "Not Found"@,
        405 => "Method Not Allowed"@,
        413 => "Payload Too Large"@,
        414 => "URI Too Long"@,
        431 => "Request Header Fields Too Large"@,
        500 => "Internal Server Error"@,
        501 => "Not Implemented"@,
        502 => "Bad Gateway"@,
        503 => "Service Unavailable"@,
        _ => "Unknown Status"@,
    }
}

/// The reason phrase for a status: its usual one, or a placeholder.
pub fn reason_phrase(status: u16) -> (reason: &'static str)
    ensures
        reason@ == phrase(status),
{
    match status {
        200 => "OK",
        201 => "Created",
        202 => "Accepted",
        204 => "No Content",
        301 => "Moved Permanently",
        302 => "Found",
        304 => "Not Modified",
        400 => "Bad Request",
        401 => "Unauthorized",
        403 => "Forbidden",
        404 => "Not Found",
        405 => "Method Not Allowed",
        413 => "Payload Too Large",
        414 => "URI Too Long",
        431 => "Request Header Fields Too Large",
        500 => "Internal Server Error",
        501 => "Not Implemented",
        502 => "Bad Gateway",
        503 => "Service Unavailable",
        _ => "Unknown Status",
    }
}

/// The field's name, white space around it and letter case aside, is `name`.
pub open spec fn is_named(field: (Seq<char>, Seq<char>), name: Seq<char>) -> bool {
    text::same_ignoring_case(text::trimmed(field.0), name)
}

/// The field is a `Connection` field. Only the engine sends those.
pub open spec fn is_connection(field: (Seq<char>, Seq<char>)) -> bool {
    is_named(field, "connection"@)
}

/// The field tells the client where the body ends.
pub open spec fn is_framing(field: (Seq<char>, Seq<char>)) -> bool {
    is_named(field, "content-length"@) || is_named(field, "transfer-encoding"@)
}

/// Some field tells the client where the body ends.
pub open spec fn has_framing(headers: Fields) -> bool {
    exists|i: int| 0 <= i < headers.len() && is_framing(#[trigger] headers[i])
}

/// The fields that are not `Connection` fields, in their order.
pub open spec fn without_connection(headers: Fields) -> Fields {
    headers.filter(|field: (Seq<char>, Seq<char>)| !is_connection(field))
}

/// The fields, and a `Content-Length` field for a body of `length` bytes where
/// none of them tells where the body ends.
pub open spec fn framed(headers: Fields, length: nat) -> Fields {
    if has_framing(headers) {
        headers
    } else {
        headers.push(("Content-Length"@, text::decimal(length)))
    }
}

/// The fields, and the announcement that the connection closes where this is
/// the last response on it.
pub open spec fn announced(headers: Fields, last: bool) -> Fields {
    if last {
        headers.push(("Connection"@, "close"@))
    } else {
        headers
    }
}

fn named(field: &(String, String), name: &str) -> (yes: bool)
    ensures
        yes == is_named((field.0@, field.1@), name@),
{
    text::eq_ignore_ascii_case(text::trim(field.0.as_str()), name)
}

/// Takes out the `Connection` fields.
pub fn strip_connection(headers: &mut Vec<(String, String)>)
    ensures
        handler::fields(final(headers)@) == without_connection(handler::fields(old(headers)@)),
{
    let ghost all = handler::fields(headers@);
    let ghost mut seen: int = 0;
    let mut index: usize = 0;
    proof {
        reveal(Seq::filter);
        assert(all.take(0) =~= Seq::empty());
        assert(all.skip(0) =~= all);
        assert(without_connection(all.take(0)) =~= Seq::empty());
    }
    while index < headers.len()
        invariant
            all == handler::fields(old(headers)@),
            0 <= seen <= all.len(),
            index <= headers@.len(),
            headers@.len() - index == all.len() - seen,
            handler::fields(headers@).take(index as int) == without_connection(all.take(seen)),
            handler::fields(headers@).skip(index as int) == all.skip(seen),
        decreases headers@.len() - index,
    {
        let ghost before = handler::fields(headers@);
        proof {
            reveal(Seq::filter);
            assert(before[index as int] == before.skip(index as int)[0]);
            assert(before[index as int] == all[seen]);
            assert(all.take(seen + 1).drop_last() =~= all.take(seen));
            assert(all.skip(seen + 1) =~= all.skip(seen).skip(1));
        }
        if named(&headers[index], "connection") {
            headers.remove(index);
            assert(handler::fields(headers@) =~= before.remove(index as int));
            assert(before.remove(index as int).take(index as int) =~= before.take(index as int));
            assert(before.remove(index as int).skip(index as int) =~= before.skip(index as int).skip(
                1,
            ));
        } else {
            assert(before.take(index + 1) =~= before.take(index as int).push(all[seen]));
            assert(before.skip(index + 1) =~= before.skip(index as int).skip(1));
            index = index + 1;
        }
        proof {
            seen = seen + 1;
        }
    }
    assert(handler::fields(headers@).take(index as int) =~= handler::fields(headers@));
    assert(all.take(seen) =~= all);
}

/// Whether some field tells the client where the body ends.
pub fn tells_length(headers: &Vec<(String, String)>) -> (yes: bool)
    ensures
        yes == has_framing(handler::fields(headers@)),
{
    let ghost all = handler::fields(headers@);
    let mut index: usize = 0;
    while index < headers.len()
        invariant
            all == handler::fields(headers@),
            index <= headers@.len(),
            forall|i: int| 0 <= i < index ==> !is_framing(#[trigger] all[i]),
        decreases headers@.len() - index,
    {
        assert(all[index as int] == (headers@[index as int].0@, headers@[index as int].1@));
        if named(&headers[index], "content-length") || named(&headers[index], "transfer-encoding") {
            assert(is_framing(all[index as int]));
            return true;
        }
        index = index + 1;
    }
    false
}

/// Makes sure that the client can tell where a body of `length` bytes ends.
pub fn ensure_framing(headers: &mut Vec<(String, String)>, length: u64)
    ensures
        handler::fields(final(headers)@) == framed(handler::fields(old(headers)@), length as nat),
{
    if !tells_length(headers) {
        let ghost before = handler::fields(headers@);
        headers.push(("Content-Length".to_owned(), text::decimal_text(length)));
        assert(handler::fields(headers@) =~= before.push(
            ("Content-Length"@, text::decimal(length as nat)),
        ));
    }
}

/// Announces, on the last response, that the connection closes.
pub fn announce_close(headers: &mut Vec<(String, String)>, last: bool)
    ensures
        handler::fields(final(headers)@) == announced(handler::fields(old(headers)@), last),
{
    if last {
        let ghost before = handler::fields(headers@);
        headers.push(("Connection".to_owned(), "close".to_owned()));
        assert(handler::fields(headers@) =~= before.push(("Connection"@, "close"@)));
    }
}

/// The status line of a response.
pub open spec fn status_line(status: u16) -> Seq<char> {
    "HTTP/1.1 "@ + text::decimal(status as nat) + " "@ + phrase(status) + "\r\n"@
}

/// One line for each header field.
pub open spec fn field_lines(headers: Fields) -> Seq<char>
    decreases headers.len(),
{
    if headers.len() == 0 {
        Seq::empty()
    } else {
        field_lines(headers.drop_last()) + headers.last().0 + ": "@ + headers.last().1 + "\r\n"@
    }
}

/// The head of a response: status line, header fields, empty line.
pub open spec fn head_text(status: u16, headers: Fields) -> Seq<char> {
    status_line(status) + field_lines(headers) + "\r\n"@
}

/// The head of a response as it goes on the wire.
pub fn serialize_head(status: u16, headers: &Vec<(String, String)>) -> (head: Vec<u8>)
    ensures
        head@ == encode_utf8(head_text(status, handler::fields(headers@))),
{
    let ghost all = handler::fields(headers@);
    let mut line = "HTTP/1.1 ".to_owned();
    line.append(text::decimal_text(status as u64).as_str());
    line.append(" ");
    line.append(reason_phrase(status));
    line.append("\r\n");
    let mut index: usize = 0;
    assert(all.take(0) =~= Seq::empty());
    assert(line@ =~= status_line(status) + field_lines(all.take(0)));
    while index < headers.len()
        invariant
            all == handler::fields(headers@),
            index <= headers@.len(),
            line@ == status_line(status) + field_lines(all.take(index as int)),
        decreases headers@.len() - index,
    {
        let ghost before = line@;
        line.append(headers[index].0.as_str());
        line.append(": ");
        line.append(headers[index].1.as_str());
        line.append("\r\n");
        assert(all.take(index + 1).drop_last() =~= all.take(index as int));
        assert(all[index as int] == (headers@[index as int].0@, headers@[index as int].1@));
        assert(line@ =~= status_line(status) + field_lines(all.take(index + 1)));
        index = index + 1;
    }
    assert(all.take(index as int) =~= all);
    line.append("\r\n");
    line.as_str().as_bytes_vec()
}

/// What is to be written for one response: the segments one after the other,
/// each in one write, and then the contents of the spooled file, if there is
/// one, from its start.
#[derive(Debug)]
pub struct Transmission<F> {
    pub segments: Vec<Vec<u8>>,
    pub spooled: Option<F>,
}

/// A transmission as plain values.
#[verifier::ext_equal]
pub struct TransmissionView<F> {
    pub segments: Seq<Seq<u8>>,
    pub spooled: Option<F>,
}

impl<F> View for Transmission<F> {
    type V = TransmissionView<F>;

    open spec fn view(&self) -> TransmissionView<F> {
        TransmissionView {
            segments: self.segments@.map_values(|segment: Vec<u8>| segment@),
            spooled: self.spooled,
        }
    }
}

impl<F> TransmissionView<F> {
    /// Everything that goes on the wire ahead of a spooled file.
    pub open spec fn bytes(self) -> Seq<u8> {
        self.segments.flatten()
    }
}

/// How a response goes out. Without a body only the head is written. A body in
/// memory follows as a second segment, or is joined to the head where `combine`
/// is set. A spooled body is never brought into memory.
pub open spec fn transmission<F>(
    head: Seq<u8>,
    body: Option<handler::BodyView<F>>,
    combine: bool,
) -> TransmissionView<F> {
    match body {
        None => TransmissionView { segments: seq![head], spooled: None },
        Some(handler::BodyView::InMemory(bytes)) => if combine {
            TransmissionView { segments: seq![head + bytes], spooled: None }
        } else {
            TransmissionView { segments: seq![head, bytes], spooled: None }
        },
        Some(handler::BodyView::Spooled(file)) => TransmissionView {
            segments: seq![head],
            spooled: Some(file),
        },
    }
}

/// An optional body as a plain value.
pub open spec fn optional_body<F>(body: Option<ResponseBody<F>>) -> Option<handler::BodyView<F>> {
    match body {
        Some(present) => Some(present@),
        None => None,
    }
}

/// Lays out how a response goes out.
pub fn write_response<F>(head: Vec<u8>, body: Option<ResponseBody<F>>, combine: bool) -> (written:
    Transmission<F>)
    ensures
        written@ == transmission(head@, optional_body(body), combine),
{
    let mut segments: Vec<Vec<u8>> = Vec::new();
    match body {
        None => {
            segments.push(head);
            Transmission { segments, spooled: None }
        },
        Some(ResponseBody::InMemory(bytes)) => {
            let mut bytes = bytes;
            if combine {
                let mut joined = head;
                joined.append(&mut bytes);
                segments.push(joined);
            } else {
                segments.push(head);
                segments.push(bytes);
            }
            Transmission { segments, spooled: None }
        },
        Some(ResponseBody::Spooled(file)) => {
            segments.push(head);
            Transmission { segments, spooled: Some(file) }
        },
    }
}

/// Joining head and body into one segment changes nothing on the wire: the
/// bytes are the head and then the body.
pub proof fn combining_keeps_the_bytes<F>(head: Seq<u8>, bytes: Seq<u8>, combine: bool)
    ensures
        transmission::<F>(head, Some(handler::BodyView::InMemory(bytes)), combine).bytes() == head
            + bytes,
{
    reveal_with_fuel(Seq::flatten, 3);
    let sent = transmission::<F>(head, Some(handler::BodyView::InMemory(bytes)), combine);
    if combine {
        assert(sent.segments.drop_first() =~= Seq::<Seq<u8>>::empty());
        assert(sent.bytes() =~= head + bytes);
    } else {
        assert(sent.segments.drop_first() =~= seq![bytes]);
        assert(seq![bytes].drop_first() =~= Seq::<Seq<u8>>::empty());
        assert(sent.bytes() =~= head + bytes);
    }
}

/// What a read from a spooled body has to have written: the bytes that it put at
/// the front of `buffer`, or nothing more where there were none.
pub fn write_body(buffer: &[u8], read: usize) -> (chunk: Option<&[u8]>)
    requires
        read <= buffer@.len() <= SPOOLED_BODY_CHUNK_SIZE,
    ensures
        match chunk {
            Some(bytes) => {
                &&& 0 < read
                &&& bytes@ == buffer@.take(read as int)
                &&& bytes@.len() <= SPOOLED_BODY_CHUNK_SIZE
            },
            None => read == 0,
        },
{
    if read == 0 {
        None
    } else {
        let chunk = vstd::slice::slice_subrange(buffer, 0, read);
        assert(chunk@ =~= buffer@.take(read as int));
        Some(chunk)
    }
}

/// How far a spooled body has been sent.
#[derive(Debug, Clone, Copy, PartialEq, Eq, Structural)]
pub enum BodySender {
    /// The file may stand anywhere: it is to be taken back to its start.
    Opening,
    /// A chunk is to be read.
    Reading,
    /// A chunk is to be written.
    Writing,
    /// All of it has been sent.
    Sent,
}

/// What to do next to send a spooled body.
#[derive(Debug)]
pub enum SendAction<'buf> {
    /// Take the file back to its start.
    Rewind,
    /// Read at most so many bytes from the file.
    Read(usize),
    /// Write these bytes.
    Write(&'buf [u8]),
    /// Nothing more.
    Done,
}

/// What to do next to send a spooled body, as plain values.
#[verifier::ext_equal]
pub enum SendActionView {
    Rewind,
    Read(nat),
    Write(Seq<u8>),
    Done,
}

impl<'buf> View for SendAction<'buf> {
    type V = SendActionView;

    open spec fn view(&self) -> SendActionView {
        match self {
            SendAction::Rewind => SendActionView::Rewind,
            SendAction::Read(limit) => SendActionView::Read(*limit as nat),
            SendAction::Write(bytes) => SendActionView::Write(bytes@),
            SendAction::Done => SendActionView::Done,
        }
    }
}

impl BodySender {
    /// The step that begins to send a body.
    pub open spec fn beginning() -> (BodySender, SendActionView) {
        (BodySender::Opening, SendActionView::Rewind)
    }

    /// The step that asks for the next chunk.
    pub open spec fn asking() -> (BodySender, SendActionView) {
        (BodySender::Reading, SendActionView::Read(SPOOLED_BODY_CHUNK_SIZE as nat))
    }

    /// The step that a chunk leads to: it is written, and nothing follows an
    /// empty one.
    pub open spec fn passing_on(chunk: Seq<u8>) -> (BodySender, SendActionView) {
        if chunk.len() == 0 {
            (BodySender::Sent, SendActionView::Done)
        } else {
            (BodySender::Writing, SendActionView::Write(chunk))
        }
    }

    /// Begins to send a spooled body, wherever its file stands.
    pub fn begin<'buf>() -> (begun: (BodySender, SendAction<'buf>))
        ensures
            (begun.0, begun.1@) == BodySender::beginning(),
    {
        (BodySender::Opening, SendAction::Rewind)
    }

    /// Takes in that the file is back at its start, or that the chunk has been
    /// written.
    pub fn proceed<'buf>(&mut self) -> (action: SendAction<'buf>)
        requires
            *old(self) == BodySender::Opening || *old(self) == BodySender::Writing,
        ensures
            (*final(self), action@) == BodySender::asking(),
    {
        *self = BodySender::Reading;
        SendAction::Read(SPOOLED_BODY_CHUNK_SIZE)
    }

    /// Takes in that a read has put `read` bytes at the front of `buffer`.
    pub fn chunk_read<'buf>(&mut self, buffer: &'buf [u8], read: usize) -> (action: SendAction<
        'buf,
    >)
        requires
            *old(self) == BodySender::Reading,
            read <= buffer@.len() <= SPOOLED_BODY_CHUNK_SIZE,
        ensures
            (*final(self), action@) == BodySender::passing_on(buffer@.take(read as int)),
    {
        match write_body(buffer, read) {
            Some(bytes) => {
                *self = BodySender::Writing;
                SendAction::Write(bytes)
            },
            None => {
                *self = BodySender::Sent;
                SendAction::Done
            },
        }
    }
}

/// A file: what it holds, and where the next read starts.
#[verifier::ext_equal]
pub struct FileView {
    pub contents: Seq<u8>,
    pub position: nat,
}

impl FileView {
    /// The file back at its start.
    pub open spec fn rewound(self) -> FileView {
        FileView { position: 0, ..self }
    }

    /// How many bytes a read of at most `limit` bytes gives, where it would like to
    /// give `wish`: at least one and no more than are left, or none at the end.
    pub open spec fn readable(self, limit: nat, wish: nat) -> nat {
        let left = (self.contents.len() - self.position) as nat;
        if self.position >= self.contents.len() || limit == 0 {
            0
        } else if wish == 0 {
            1
        } else if wish <= limit && wish <= left {
            wish
        } else if limit <= left {
            limit
        } else {
            left
        }
    }

    /// The bytes that such a read gives.
    pub open spec fn chunk(self, limit: nat, wish: nat) -> Seq<u8> {
        let end = self.position + self.readable(limit, wish);
        if self.readable(limit, wish) == 0 {
            Seq::empty()
        } else {
            self.contents.subrange(self.position as int, end as int)
        }
    }

    /// The file after such a read.
    pub open spec fn advanced(self, limit: nat, wish: nat) -> FileView {
        FileView { position: self.position + self.readable(limit, wish), ..self }
    }
}

/// What is written, write by write, when the actions that begin with `step` are
/// performed on `file`, and where that leaves the file. A read at a position gives
/// as many bytes as `wishes` has for it, as far as it may.
pub open spec fn performed(
    step: (BodySender, SendActionView),
    file: FileView,
    wishes: spec_fn(nat) -> nat,
) -> (Seq<Seq<u8>>, FileView)
    decreases
            file.contents.len() - (if step.1 is Rewind {
                0
            } else {
                file.position as int
            }),
            (match step.1 {
                SendActionView::Rewind => 3nat,
                SendActionView::Write(_) => 2nat,
                SendActionView::Read(_) => 1nat,
                SendActionView::Done => 0nat,
            }),
{
    match step.1 {
        SendActionView::Rewind => performed(BodySender::asking(), file.rewound(), wishes),
        SendActionView::Read(limit) => {
            let wish = wishes(file.position);
            performed(
                BodySender::passing_on(file.chunk(limit, wish)),
                file.advanced(limit, wish),
                wishes,
            )
        },
        SendActionView::Write(bytes) => {
            let (writes, end) = performed(BodySender::asking(), file, wishes);
            (seq![bytes] + writes, end)
        },
        SendActionView::Done => (Seq::empty(), file),
    }
}

proof fn lemma_performed_from(file: FileView, wishes: spec_fn(nat) -> nat)
    requires
        file.position <= file.contents.len(),
    ensures
        ({
            let (writes, end) = performed(BodySender::asking(), file, wishes);
            &&& writes.flatten() == file.contents.skip(file.position as int)
            &&& forall|i: int|
                0 <= i < writes.len() ==> 0 < (#[trigger] writes[i]).len()
                    <= SPOOLED_BODY_CHUNK_SIZE
            &&& end.contents == file.contents
        }),
    decreases file.contents.len() - file.position,
{
    let limit = SPOOLED_BODY_CHUNK_SIZE as nat;
    let wish = wishes(file.position);
    let (writes, end) = performed(BodySender::asking(), file, wishes);
    reveal_with_fuel(performed, 3);
    if file.position < file.contents.len() {
        let chunk = file.chunk(limit, wish);
        let next = file.advanced(limit, wish);
        assert(0 < chunk.len() <= limit);
        lemma_performed_from(next, wishes);
        let (later, _) = performed(BodySender::asking(), next, wishes);
        assert(writes =~= seq![chunk] + later);
        assert(writes.drop_first() =~= later);
        assert(writes.flatten() =~= chunk + later.flatten());
        assert(file.contents.skip(file.position as int) =~= chunk + file.contents.skip(
            next.position as int,
        ));
    } else {
        assert(writes =~= Seq::empty());
        assert(writes.flatten() =~= Seq::empty());
        assert(file.contents.skip(file.position as int) =~= Seq::empty());
    }
}

/// Sending a spooled body writes all of its file, in order and in writes of at
/// most 131072 bytes, wherever the file stood before and however its reads cut it
/// up. So does sending it once more.
pub proof fn spooled_bodies_go_out_whole(
    file: FileView,
    wishes: spec_fn(nat) -> nat,
    other_wishes: spec_fn(nat) -> nat,
)
    ensures
        ({
            let (writes, left) = performed(BodySender::beginning(), file, wishes);
            let (again, _) = performed(BodySender::beginning(), left, other_wishes);
            &&& writes.flatten() == file.contents
            &&& again.flatten() == file.contents
            &&& forall|i: int|
                0 <= i < writes.len() ==> (#[trigger] writes[i]).len() <= SPOOLED_BODY_CHUNK_SIZE
            &&& forall|i: int|
                0 <= i < again.len() ==> (#[trigger] again[i]).len() <= SPOOLED_BODY_CHUNK_SIZE
        }),
{
    reveal_with_fuel(performed, 2);
    let (_, left) = performed(BodySender::beginning(), file, wishes);
    lemma_performed_from(file.rewound(), wishes);
    lemma_performed_from(left.rewound(), other_wishes);
    assert(file.contents.skip(0) =~= file.contents);
}

} // verus!
