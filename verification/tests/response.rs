use helixrack::handler::ResponseBody;
use helixrack::response::{
    announce_close, ensure_framing, reason_phrase, serialize_head, strip_connection, tells_length,
    write_body, write_response, BodySender, SendAction, SPOOLED_BODY_CHUNK_SIZE,
};

fn header(name: &str, value: &str) -> (String, String) {
    (name.to_string(), value.to_string())
}

#[test]
fn statuses_have_their_phrases() {
    let phrases = [
        (200, "OK"),
        (201, "Created"),
        (202, "Accepted"),
        (204, "No Content"),
        (301, "Moved Permanently"),
        (302, "Found"),
        (304, "Not Modified"),
        (400, "Bad Request"),
        (401, "Unauthorized"),
        (403, "Forbidden"),
        (404, "Not Found"),
        (405, "Method Not Allowed"),
        (413, "Payload Too Large"),
        (414, "URI Too Long"),
        (431, "Request Header Fields Too Large"),
        (500, "Internal Server Error"),
        (501, "Not Implemented"),
        (502, "Bad Gateway"),
        (503, "Service Unavailable"),
        (418, "Unknown Status"),
        (0, "Unknown Status"),
    ];
    for (status, phrase) in phrases {
        assert_eq!(reason_phrase(status), phrase);
    }
}

#[test]
fn heads_are_written_out() {
    assert_eq!(
        serialize_head(204, &vec![header("A", "1"), header("B-C", "caf\u{e9}")]),
        "HTTP/1.1 204 No Content\r\nA: 1\r\nB-C: caf\u{e9}\r\n\r\n".as_bytes()
    );
    assert_eq!(serialize_head(65535, &Vec::new()), b"HTTP/1.1 65535 Unknown Status\r\n\r\n");
}

#[test]
fn connection_fields_are_taken_out() {
    let mut headers = vec![
        header("connection", "a"),
        header("X", "1"),
        header("Connection", "b"),
        header("\tCONNECTION ", "c"),
        header("Proxy-Connection", "d"),
    ];
    strip_connection(&mut headers);
    assert_eq!(headers, [header("X", "1"), header("Proxy-Connection", "d")]);
    let mut none = Vec::new();
    strip_connection(&mut none);
    assert!(none.is_empty());
}

#[test]
fn framing_is_added_where_it_is_missing() {
    let mut headers = vec![header("X", "1")];
    assert!(!tells_length(&headers));
    ensure_framing(&mut headers, 1234);
    assert_eq!(headers, [header("X", "1"), header("Content-Length", "1234")]);
    assert!(tells_length(&headers));
    ensure_framing(&mut headers, 5);
    assert_eq!(headers.len(), 2);
    let mut chunked = vec![header(" transfer-encoding", "chunked")];
    ensure_framing(&mut chunked, 5);
    assert_eq!(chunked.len(), 1);
}

#[test]
fn the_last_answer_announces_the_close() {
    let mut headers = Vec::new();
    announce_close(&mut headers, false);
    assert!(headers.is_empty());
    announce_close(&mut headers, true);
    assert_eq!(headers, [header("Connection", "close")]);
}

#[test]
fn bodies_follow_their_head() {
    let head = b"head".to_vec();
    let alone = write_response::<u8>(head.clone(), None, true);
    assert_eq!((alone.segments, alone.spooled), (vec![head.clone()], None));

    let body = || Some(ResponseBody::<u8>::InMemory(b"body".to_vec()));
    let apart = write_response(head.clone(), body(), false);
    assert_eq!(apart.segments, [b"head".to_vec(), b"body".to_vec()]);
    let joined = write_response(head.clone(), body(), true);
    assert_eq!(joined.segments, [b"headbody".to_vec()]);

    let spooled = write_response(head.clone(), Some(ResponseBody::Spooled(7u8)), true);
    assert_eq!((spooled.segments, spooled.spooled), (vec![head], Some(7)));
}

#[test]
fn spooled_bodies_go_out_in_chunks_of_128_kib() {
    assert_eq!(SPOOLED_BODY_CHUNK_SIZE, 128 * 1024);
}

/// Sends a file that stands at `position`, with reads of at most `piece` bytes.
fn send(contents: &[u8], position: &mut usize, piece: usize) -> Vec<Vec<u8>> {
    let mut buffer = vec![0u8; SPOOLED_BODY_CHUNK_SIZE];
    let mut writes = Vec::new();
    let (mut sender, first) = BodySender::begin();
    assert!(matches!(first, SendAction::Rewind));
    *position = 0;
    let mut action = sender.proceed();
    loop {
        let limit = match action {
            SendAction::Read(limit) => limit,
            other => panic!("expected a read, got {other:?}"),
        };
        let read = limit.min(piece).min(contents.len() - *position);
        buffer[..read].copy_from_slice(&contents[*position..*position + read]);
        *position += read;
        match sender.chunk_read(&buffer, read) {
            SendAction::Write(bytes) => writes.push(bytes.to_vec()),
            SendAction::Done => return writes,
            other => panic!("expected a write or the end, got {other:?}"),
        }
        action = sender.proceed();
    }
}

#[test]
fn spooled_bodies_go_out_whole_however_they_are_read() {
    let contents = b"a body that is read in pieces";
    for piece in 1..contents.len() + 1 {
        let mut position = 17;
        let writes = send(contents, &mut position, piece);
        assert_eq!(writes.concat(), contents);
    }
    assert!(send(b"", &mut 0, 5).is_empty());
}

#[test]
fn a_spooled_body_can_be_sent_twice_in_bounded_writes() {
    let contents = vec![b'q'; 3 * SPOOLED_BODY_CHUNK_SIZE + 5];
    let mut position = contents.len();
    for _ in 0..2 {
        let writes = send(&contents, &mut position, usize::MAX);
        let sizes: Vec<usize> = writes.iter().map(Vec::len).collect();
        assert_eq!(sizes, [131072, 131072, 131072, 5]);
        assert_eq!(writes.concat(), contents);
        assert_eq!(position, contents.len());
    }
}

#[test]
fn a_read_of_nothing_writes_nothing() {
    assert_eq!(write_body(b"stale", 0), None);
    assert_eq!(write_body(b"fresh!", 5), Some(&b"fresh"[..]));
}
