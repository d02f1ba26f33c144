use helixrack::connection::{Action, Connection, ConnectionError};
use helixrack::counter::Drain;
use helixrack::head::LengthError;
use helixrack::runs::is_well_formed;
use helixrack::server::{accept, AcceptStep, Terms};
use helixrack::{ConnectionCounter, Handler, HandlerResponse, ParsedRequest, ResponseBody};

const EXPECTED_RESPONSE: &[u8] = b"HTTP/1.1 200 OK\r\nContent-Length: 2\r\n\r\nOK";
const DEFAULT_MAX_KEEPALIVE: usize = 1_000_000;
const REQUEST: &[u8] = b"GET / HTTP/1.1\r\nHost: localhost\r\n\r\n";

const TOO_LARGE_RESPONSE: &[u8] =
    b"HTTP/1.1 431 Request Header Fields Too Large\r\nConnection: close\r\n\r\n";
const PAYLOAD_TOO_LARGE_RESPONSE: &[u8] =
    b"HTTP/1.1 413 Payload Too Large\r\nConnection: close\r\n\r\n";
const BAD_REQUEST_RESPONSE: &[u8] = b"HTTP/1.1 400 Bad Request\r\nConnection: close\r\n\r\n";

/// A file that is spooled is its contents.
type File = Vec<u8>;

struct FixedResponseHandler;

impl Handler<File> for FixedResponseHandler {
    fn call(&self, _req: &ParsedRequest<'_>) -> HandlerResponse<File> {
        HandlerResponse {
            status: 200,
            headers: vec![("Content-Length".to_string(), "2".to_string())],
            body: ResponseBody::InMemory(b"OK".to_vec()),
        }
    }
}

/// Answers without saying how long the body is.
struct NoFramingHandler;

impl Handler<File> for NoFramingHandler {
    fn call(&self, _req: &ParsedRequest<'_>) -> HandlerResponse<File> {
        HandlerResponse {
            status: 200,
            headers: Vec::new(),
            body: ResponseBody::InMemory(b"hello".to_vec()),
        }
    }
}

/// Answers with what it was asked.
struct EchoHandler;

impl Handler<File> for EchoHandler {
    fn call(&self, req: &ParsedRequest<'_>) -> HandlerResponse<File> {
        let mut body = format!("{} {} {} ", req.method, req.path, req.query).into_bytes();
        for (name, value) in &req.headers {
            body.extend_from_slice(format!("[{name}={value}]").as_bytes());
        }
        body.extend_from_slice(req.body);
        HandlerResponse { status: 200, headers: Vec::new(), body: ResponseBody::InMemory(body) }
    }
}

struct SpoolingHandler {
    headers: Vec<(String, String)>,
}

impl Handler<File> for SpoolingHandler {
    fn call(&self, _req: &ParsedRequest<'_>) -> HandlerResponse<File> {
        HandlerResponse {
            status: 200,
            headers: self.headers.clone(),
            body: ResponseBody::Spooled(b"from a file".to_vec()),
        }
    }
}

struct HeadersHandler {
    headers: Vec<(String, String)>,
}

impl Handler<File> for HeadersHandler {
    fn call(&self, _req: &ParsedRequest<'_>) -> HandlerResponse<File> {
        HandlerResponse {
            status: 404,
            headers: self.headers.clone(),
            body: ResponseBody::InMemory(b"gone".to_vec()),
        }
    }
}

/// A client and the server side of its connection, without a network between.
struct Client<H: Handler<File>> {
    connection: Connection<File>,
    action: Action<File>,
    connections: ConnectionCounter,
    handler: H,
    received: Vec<u8>,
    reads: Vec<usize>,
}

fn connect<H: Handler<File>>(handler: H, max_keepalive: usize, combine: bool) -> Client<H> {
    let mut connections = ConnectionCounter::new();
    let terms = Terms { max_keepalive, keep_alive_timeout_ms: 3_600_000 };
    assert_eq!(accept(Some(()), terms, &mut connections), AcceptStep::Serve((), terms));
    let (connection, action) = Connection::open(max_keepalive, combine);
    Client { connection, action, connections, handler, received: Vec::new(), reads: Vec::new() }
}

impl<H: Handler<File>> Client<H> {
    /// Performs actions until the server waits for bytes or is done.
    fn settle(&mut self) {
        loop {
            let next = match &self.action {
                Action::Read { .. } | Action::Close | Action::Fail(_) => return,
                Action::Call => {
                    assert_eq!(self.connections.in_flight(), 1);
                    self.connection.serve_request(&self.handler)
                }
                Action::Measure => {
                    let length = self.connection.spooled().expect("a spooled body").len() as u64;
                    self.connection.measured(length)
                }
                Action::Write(transmission) => {
                    for segment in &transmission.segments {
                        self.received.extend_from_slice(segment);
                    }
                    if let Some(file) = &transmission.spooled {
                        self.received.extend_from_slice(file);
                    }
                    self.connection.written(&mut self.connections)
                }
            };
            self.action = next;
        }
    }

    /// Sends bytes in pieces of at most `piece` bytes.
    fn send_in_pieces(&mut self, bytes: &[u8], piece: usize) {
        let mut rest = bytes;
        self.settle();
        while !rest.is_empty() {
            let limit = match &self.action {
                Action::Read { limit, .. } => *limit,
                _ => return,
            };
            assert!(limit > 0);
            self.reads.push(limit);
            let (now, later) = rest.split_at(limit.min(piece).min(rest.len()));
            self.action = self.connection.received(now, &mut self.connections);
            rest = later;
            self.settle();
        }
    }

    fn send(&mut self, bytes: &[u8]) {
        self.send_in_pieces(bytes, usize::MAX);
    }

    /// Takes what has been received so far.
    fn receive(&mut self) -> Vec<u8> {
        std::mem::take(&mut self.received)
    }

    fn is_closed(&self) -> bool {
        matches!(self.action, Action::Close)
    }

    fn is_idle(&self) -> bool {
        matches!(self.action, Action::Read { idle: true, .. })
    }
}

fn header(name: &str, value: &str) -> (String, String) {
    (name.to_string(), value.to_string())
}

#[test]
fn fixture_corpus_maps_byte_exact_to_expected_response() {
    let fixtures: [(&str, &[u8]); 5] = [
        ("basic_get_root", b"GET / HTTP/1.1\r\nHost: localhost\r\n\r\n"),
        ("empty_query_string", b"GET /? HTTP/1.1\r\nHost: localhost\r\n\r\n"),
        (
            "repeated_headers",
            b"GET / HTTP/1.1\r\nHost: localhost\r\nX-Custom: a\r\nX-Custom: b\r\n\r\n",
        ),
        ("host_header_casing", b"GET / HTTP/1.1\r\nhOsT: LocalHost\r\n\r\n"),
        ("trailing_slash_path", b"GET /foo/ HTTP/1.1\r\nHost: localhost\r\n\r\n"),
    ];
    for (label, raw_request) in fixtures {
        let mut client = connect(FixedResponseHandler, DEFAULT_MAX_KEEPALIVE, false);
        client.send(raw_request);
        assert_eq!(client.receive(), EXPECTED_RESPONSE, "fixture `{label}`");
        assert!(client.is_idle());
    }
}

#[test]
fn a_head_response_carries_no_body_and_the_next_request_on_the_connection_stays_in_sync() {
    let mut client = connect(NoFramingHandler, 1_000_000, false);
    client.send(b"HEAD / HTTP/1.1\r\nHost: localhost\r\n\r\n");
    assert_eq!(
        client.receive(),
        b"HTTP/1.1 200 OK\r\nContent-Length: 5\r\n\r\n",
        "HEAD response must carry Content-Length but no body bytes"
    );
    client.send(b"GET / HTTP/1.1\r\nHost: localhost\r\n\r\n");
    assert_eq!(
        client.receive(),
        b"HTTP/1.1 200 OK\r\nContent-Length: 5\r\n\r\nhello",
        "GET response after a HEAD response on the same connection must be byte-exact"
    );
}

#[test]
fn header_cap_is_not_widened_by_a_prior_large_body_on_the_same_connection() {
    let mut client = connect(FixedResponseHandler, DEFAULT_MAX_KEEPALIVE, false);
    let body = vec![b'a'; 1024 * 1024];
    let mut first_request = format!(
        "POST /upload HTTP/1.1\r\nHost: localhost\r\nContent-Length: {}\r\n\r\n",
        body.len()
    )
    .into_bytes();
    first_request.extend_from_slice(&body);
    client.send(&first_request);
    assert_eq!(
        client.receive(),
        EXPECTED_RESPONSE,
        "the 1 MB-body request should succeed normally"
    );

    let mut oversized_headers = b"GET / HTTP/1.1\r\nX-Filler: ".to_vec();
    oversized_headers.extend(vec![b'a'; 200 * 1024]);
    client.send_in_pieces(&oversized_headers, 4096);
    assert_eq!(
        client.receive(),
        TOO_LARGE_RESPONSE,
        "the header cap must still trigger at 64 KiB, not at the buffer's grown capacity"
    );
    assert!(client.is_closed());
}

#[test]
fn keep_alive_serves_sequential_requests_on_one_accepted_connection() {
    let mut client = connect(FixedResponseHandler, DEFAULT_MAX_KEEPALIVE, false);
    for request_index in 0..5 {
        client.send(REQUEST);
        assert_eq!(
            client.receive(),
            EXPECTED_RESPONSE,
            "request {request_index} on the shared connection did not get the expected response"
        );
    }
    assert_eq!(client.connections.accepted(), 1);
}

#[test]
fn idle_connection_is_closed_within_the_configured_timeout() {
    let idle_timeout: u64 = 300;
    let mut client = connect(FixedResponseHandler, 1_000_000, false);
    assert_eq!(client.action.patience(idle_timeout), Some(300));
    client.action = client.connection.close(&mut client.connections);
    assert!(client.is_closed());
    assert!(client.receive().is_empty());
}

#[test]
fn only_an_idle_read_is_subject_to_the_timeout() {
    let mut client = connect(FixedResponseHandler, 1_000_000, false);
    client.send(b"GET / HT");
    assert_eq!(client.action.patience(300), None);
    client.send(b"TP/1.1\r\nContent-Length: 2\r\n\r\n1");
    assert_eq!(client.action.patience(300), None);
    client.send(b"2");
    assert_eq!(client.action.patience(300), Some(300));
    assert_eq!(Action::<File>::Close.patience(300), None);
}

#[test]
fn connection_closes_after_max_keepalive_requests_with_connection_close_on_the_last_one() {
    let max_keepalive = 3;
    let mut client = connect(FixedResponseHandler, max_keepalive, false);
    for request_index in 0..max_keepalive - 1 {
        client.send(REQUEST);
        assert_eq!(
            client.receive(),
            EXPECTED_RESPONSE,
            "request {request_index} must not carry Connection: close"
        );
    }
    client.send(REQUEST);
    assert_eq!(
        client.receive(),
        b"HTTP/1.1 200 OK\r\nContent-Length: 2\r\nConnection: close\r\n\r\nOK",
        "the max-keepalive-th response must carry Connection: close"
    );
    assert!(client.is_closed());
    client.send(REQUEST);
    assert!(client.receive().is_empty());
}

#[test]
fn oversized_content_length_gets_413_without_allocating_the_body() {
    let mut client = connect(FixedResponseHandler, DEFAULT_MAX_KEEPALIVE, false);
    client.send(b"POST /upload HTTP/1.1\r\nHost: localhost\r\nContent-Length: 200000000\r\n\r\n");
    assert_eq!(
        client.receive(),
        PAYLOAD_TOO_LARGE_RESPONSE,
        "expected a byte-exact 413 Payload Too Large response"
    );
    assert!(client.is_closed());
    assert_eq!(client.reads, [8192]);
}

#[test]
fn oversized_request_gets_431_and_connection_close() {
    let mut client = connect(FixedResponseHandler, DEFAULT_MAX_KEEPALIVE, false);
    let mut oversized = b"GET / HTTP/1.1\r\nX-Filler: ".to_vec();
    oversized.extend(vec![b'a'; 200 * 1024]);
    client.send(&oversized);
    assert_eq!(
        client.receive(),
        TOO_LARGE_RESPONSE,
        "expected a byte-exact 431 Request Header Fields Too Large response"
    );
    assert!(client.is_closed());
    assert_eq!(client.reads, [8192, 8192, 16384, 32768]);
}

#[test]
fn a_response_missing_framing_gets_content_length_injected_so_keep_alive_still_works() {
    let mut client = connect(NoFramingHandler, 1_000_000, false);
    for request_index in 0..2 {
        client.send(REQUEST);
        assert_eq!(
            client.receive(),
            b"HTTP/1.1 200 OK\r\nContent-Length: 5\r\n\r\nhello",
            "request {request_index}: expected Content-Length to have been injected"
        );
    }
}

#[test]
fn a_head_just_under_the_cap_is_served() {
    let mut client = connect(FixedResponseHandler, DEFAULT_MAX_KEEPALIVE, false);
    let mut request = b"GET / HTTP/1.1\r\nX-Filler: ".to_vec();
    request.extend(vec![b'a'; 65536 - 4 - request.len()]);
    request.extend_from_slice(b"\r\n\r\n");
    assert_eq!(request.len(), 65536);
    client.send(&request);
    assert_eq!(client.receive(), EXPECTED_RESPONSE);
}

#[test]
fn a_body_at_the_cap_is_read_and_one_byte_more_is_refused() {
    let mut client = connect(FixedResponseHandler, DEFAULT_MAX_KEEPALIVE, false);
    client.send(b"POST / HTTP/1.1\r\nContent-Length: 10485760\r\n\r\n");
    assert!(matches!(client.action, Action::Read { limit: 10485760, idle: false }));
    assert_eq!(client.connections.in_flight(), 1);

    let mut other = connect(FixedResponseHandler, DEFAULT_MAX_KEEPALIVE, false);
    other.send(b"POST / HTTP/1.1\r\nContent-Length: 10485761\r\n\r\n");
    assert_eq!(other.receive(), PAYLOAD_TOO_LARGE_RESPONSE);
}

#[test]
fn the_buffer_stays_bounded_over_many_large_bodies() {
    let mut client = connect(FixedResponseHandler, DEFAULT_MAX_KEEPALIVE, false);
    let mut request = b"POST / HTTP/1.1\r\nContent-Length: 10485760\r\n\r\n".to_vec();
    request.extend(vec![b'z'; 10485760]);
    for _ in 0..3 {
        client.send_in_pieces(&request, 65536);
        assert_eq!(client.receive(), EXPECTED_RESPONSE);
    }
    let largest = client.reads.iter().max().copied();
    assert!(largest <= Some(65536 + 10485760), "{largest:?}");
}

#[test]
fn pipelined_requests_are_answered_in_order() {
    let mut client = connect(EchoHandler, DEFAULT_MAX_KEEPALIVE, false);
    client.send(
        b"POST /a?x=1 HTTP/1.1\r\nContent-Length: 3\r\n\r\nabcGET /b HTTP/1.1\r\n\r\nGET /c",
    );
    assert_eq!(
        String::from_utf8(client.receive()).unwrap(),
        "HTTP/1.1 200 OK\r\nContent-Length: 33\r\n\r\nPOST /a x=1 [Content-Length=3]abc\
         HTTP/1.1 200 OK\r\nContent-Length: 8\r\n\r\nGET /b  "
    );
    client.send(b" HTTP/1.1\r\n\r\n");
    assert_eq!(client.receive(), b"HTTP/1.1 200 OK\r\nContent-Length: 8\r\n\r\nGET /c  ");
}

#[test]
fn a_request_may_arrive_byte_by_byte() {
    let request: &[u8] =
        b"POST /up?q=a?b HTTP/1.1\r\nHost: h\r\nContent-Length: 4\r\n\r\nbodyGET / HTTP/1.1\r\n\r\n";
    let mut whole = connect(EchoHandler, DEFAULT_MAX_KEEPALIVE, false);
    whole.send(request);
    let expected = whole.receive();
    for piece in 1..request.len() {
        let mut client = connect(EchoHandler, DEFAULT_MAX_KEEPALIVE, false);
        client.send_in_pieces(request, piece);
        assert_eq!(client.receive(), expected, "pieces of {piece}");
    }
}

#[test]
fn runs_do_not_depend_on_how_the_input_is_cut() {
    let requests: [&[u8]; 4] = [
        b"POST /one?a HTTP/1.1\r\nContent-Length: 5\r\n\r\nfirst",
        b"HEAD /two HTTP/1.1\r\nHost: h\r\n\r\n",
        b"\r\nPUT /three HTTP/1.1\r\ncontent-length: 0\r\n\r\n",
        b"GET /four HTTP/1.1\r\n\r\n",
    ];
    let input = requests.concat();
    assert!(is_well_formed(&input, 100));
    for max_keepalive in [1, 2, 3, 4, 100] {
        let mut whole = connect(EchoHandler, max_keepalive, false);
        whole.send(&input);
        let expected = whole.receive();
        let answers = expected.windows(8).filter(|part| part == b"HTTP/1.1").count();
        assert_eq!(answers, max_keepalive.min(4));
        for first in 0..input.len() {
            for second in [1, 2, 7, 31] {
                let mut client = connect(EchoHandler, max_keepalive, false);
                client.send(&input[..first]);
                client.send_in_pieces(&input[first..], second);
                assert_eq!(client.receive(), expected, "cut at {first}, then every {second}");
            }
        }
    }
}

#[test]
fn runs_that_end_in_the_front_of_a_request_do_not_depend_on_the_cuts() {
    let mut input = [REQUEST, REQUEST].concat();
    input.extend_from_slice(b"POST /unfinished HTTP/1.1\r\nContent-Length: 4\r\n\r\nabc");
    for end in 2 * REQUEST.len()..input.len() + 1 {
        let input = &input[..end];
        assert!(is_well_formed(input, 100));
        for piece in [1, 3, 64, input.len()] {
            let mut client = connect(FixedResponseHandler, 100, false);
            client.send_in_pieces(input, piece);
            assert_eq!(client.receive(), [EXPECTED_RESPONSE, EXPECTED_RESPONSE].concat());
            assert!(matches!(client.action, Action::Read { .. }));
        }
    }
}

#[test]
fn what_is_too_long_is_refused_however_it_is_cut() {
    let mut long_head = REQUEST.to_vec();
    long_head.extend_from_slice(b"GET / HTTP/1.1\r\nX-Filler: ");
    long_head.extend(vec![b'a'; 65536]);
    let unfinished = long_head.clone();
    long_head.extend_from_slice(b"\r\n\r\n");
    let mut long_body = REQUEST.to_vec();
    long_body.extend_from_slice(b"PUT / HTTP/1.1\r\nContent-Length: 10485761\r\n\r\nstart");
    for (input, refusal) in [
        (&unfinished, TOO_LARGE_RESPONSE),
        (&long_head, TOO_LARGE_RESPONSE),
        (&long_body, PAYLOAD_TOO_LARGE_RESPONSE),
    ] {
        assert!(is_well_formed(input, 100));
        for piece in [100, 4096, usize::MAX] {
            let mut client = connect(FixedResponseHandler, 100, false);
            client.send_in_pieces(input, piece);
            assert_eq!(client.receive(), [EXPECTED_RESPONSE, refusal].concat());
            assert!(client.is_closed());
        }
    }
}

#[test]
fn a_complete_head_over_the_cap_is_refused_in_a_buffer_that_would_hold_it() {
    for (length, served) in [(65536, true), (65537, false), (100000, false)] {
        let mut client = connect(FixedResponseHandler, DEFAULT_MAX_KEEPALIVE, false);
        let mut first = b"POST / HTTP/1.1\r\nContent-Length: 1048576\r\n\r\n".to_vec();
        first.extend(vec![b'b'; 1048576]);
        client.send(&first);
        assert_eq!(client.receive(), EXPECTED_RESPONSE);
        assert!(matches!(client.action, Action::Read { limit, .. } if limit > 100000));

        let mut request = b"GET / HTTP/1.1\r\nX-Filler: ".to_vec();
        request.extend(vec![b'a'; length - 4 - request.len()]);
        request.extend_from_slice(b"\r\n\r\n");
        assert_eq!(request.len(), length);
        client.send(&request);
        if served {
            assert_eq!(client.receive(), EXPECTED_RESPONSE);
        } else {
            assert_eq!(client.receive(), TOO_LARGE_RESPONSE);
            assert!(client.is_closed());
            assert_eq!(client.connections.in_flight(), 0);
        }
    }
}

#[test]
fn malformed_input_is_told_from_other_input() {
    assert!(is_well_formed(b"", 1));
    assert!(is_well_formed(REQUEST, 5));
    assert!(is_well_formed(b"GET / HTTP/1.1\r\n", 1));
    assert!(!is_well_formed(b"no request\r\n\r\n", 1));
    assert!(is_well_formed(b"no request\r\n\r\n", 0));
    assert!(is_well_formed(b"GET / HTTP/1.1\r\nContent-Length: 2\r\n\r\n1", 1));
    assert!(is_well_formed(b"GET / HTTP/1.1\r\nContent-Length: x\r\n\r\n", 1));
    assert!(is_well_formed(b"GET / HTTP/1.1\r\n\r\nGET", 2));
    assert!(!is_well_formed(b"GET / HTTP/1.1\r\n\r\n\0", 2));
    assert!(is_well_formed(b"GET / HTTP/1.1\r\n\r\n\0", 1));
}

#[test]
fn the_query_is_what_follows_the_first_question_mark() {
    let mut client = connect(EchoHandler, DEFAULT_MAX_KEEPALIVE, false);
    client.send(b"GET /p?a=1?b HTTP/1.1\r\n\r\n");
    let answer = String::from_utf8(client.receive()).unwrap();
    assert!(answer.ends_with("\r\n\r\nGET /p a=1?b "), "{answer}");
}

#[test]
fn a_header_value_that_is_not_utf8_is_answered_with_400() {
    let mut client = connect(FixedResponseHandler, DEFAULT_MAX_KEEPALIVE, false);
    client.send(b"GET / HTTP/1.1\r\nX-Bytes: \xff\xfe\r\n\r\n");
    assert_eq!(client.receive(), BAD_REQUEST_RESPONSE);
    assert!(client.is_closed());
    assert_eq!(client.connections.in_flight(), 0);
}

#[test]
fn malformed_requests_are_dropped_without_an_answer() {
    let mut client = connect(FixedResponseHandler, DEFAULT_MAX_KEEPALIVE, false);
    client.send(b"GET / HTTP/1.1\r\nbad header line\r\n\r\n");
    assert!(client.receive().is_empty());
    assert!(matches!(
        client.action,
        Action::Fail(ConnectionError::Malformed(httparse::Error::HeaderName))
    ));
    assert_eq!(client.connections.in_flight(), 0);
}

#[test]
fn more_than_64_header_fields_are_malformed() {
    for (count, served) in [(64, true), (65, false)] {
        let mut client = connect(FixedResponseHandler, DEFAULT_MAX_KEEPALIVE, false);
        let mut request = b"GET / HTTP/1.1\r\n".to_vec();
        for index in 0..count {
            request.extend_from_slice(format!("X-{index}: v\r\n").as_bytes());
        }
        request.extend_from_slice(b"\r\n");
        client.send(&request);
        if served {
            assert_eq!(client.receive(), EXPECTED_RESPONSE);
        } else {
            assert!(matches!(
                client.action,
                Action::Fail(ConnectionError::Malformed(httparse::Error::TooManyHeaders))
            ));
        }
    }
}

#[test]
fn lengths_that_cannot_be_told_drop_the_connection() {
    let cases: [(&[u8], LengthError); 4] = [
        (b"Content-Length: \xff", LengthError::NotUtf8),
        (b"Content-Length: ten", LengthError::Malformed),
        (b"Content-Length: 99999999999999999999999999", LengthError::Malformed),
        (b"Content-Length: 1\r\ncontent-length: 2", LengthError::Conflicting),
    ];
    for (fields, error) in cases {
        let mut client = connect(FixedResponseHandler, DEFAULT_MAX_KEEPALIVE, false);
        let mut request = b"POST / HTTP/1.1\r\n".to_vec();
        request.extend_from_slice(fields);
        request.extend_from_slice(b"\r\n\r\n");
        client.send(&request);
        assert!(client.receive().is_empty());
        match &client.action {
            Action::Fail(ConnectionError::Length(found)) => assert_eq!(*found, error),
            other => panic!("expected a refusal, got {other:?}"),
        }
        assert_eq!(client.connections.in_flight(), 0);
    }
}

#[test]
fn the_handler_cannot_set_a_connection_field() {
    let headers = vec![
        header("Connection", "keep-alive"),
        header("X-One", "1"),
        header(" CONNECTION\t", "upgrade"),
        header("Connection-Id", "7"),
    ];
    let mut client = connect(HeadersHandler { headers: headers.clone() }, 2, false);
    client.send(REQUEST);
    assert_eq!(
        String::from_utf8(client.receive()).unwrap(),
        "HTTP/1.1 404 Not Found\r\nX-One: 1\r\nConnection-Id: 7\r\nContent-Length: 4\r\n\r\ngone"
    );
    client.send(REQUEST);
    assert_eq!(
        String::from_utf8(client.receive()).unwrap(),
        "HTTP/1.1 404 Not Found\r\nX-One: 1\r\nConnection-Id: 7\r\nContent-Length: 4\r\n\
         Connection: close\r\n\r\ngone"
    );
    assert!(client.is_closed());
}

#[test]
fn framing_that_the_handler_set_is_left_alone() {
    for (name, value) in [("content-LENGTH ", "9"), ("Transfer-Encoding", "chunked")] {
        let mut client =
            connect(HeadersHandler { headers: vec![header(name, value)] }, 100, false);
        client.send(REQUEST);
        assert_eq!(
            String::from_utf8(client.receive()).unwrap(),
            format!("HTTP/1.1 404 Not Found\r\n{name}: {value}\r\n\r\ngone")
        );
    }
}

#[test]
fn a_spooled_body_is_measured_and_sent_behind_the_head() {
    let mut client = connect(SpoolingHandler { headers: Vec::new() }, 100, true);
    client.send(REQUEST);
    assert_eq!(
        client.receive(),
        b"HTTP/1.1 200 OK\r\nContent-Length: 11\r\n\r\nfrom a file"
    );
    client.send(b"head / HTTP/1.1\r\n\r\n");
    assert_eq!(client.receive(), b"HTTP/1.1 200 OK\r\nContent-Length: 11\r\n\r\n");
}

#[test]
fn a_spooled_body_with_framing_is_not_measured() {
    let headers = vec![header("Content-Length", "11")];
    let (mut connection, _) = Connection::open(5, false);
    let mut connections = ConnectionCounter::new();
    let action = connection.received(REQUEST, &mut connections);
    assert!(matches!(action, Action::Call));
    assert!(connection.spooled().is_none());
    let action = connection.serve_request(&SpoolingHandler { headers });
    match action {
        Action::Write(transmission) => {
            assert_eq!(
                transmission.segments,
                [b"HTTP/1.1 200 OK\r\nContent-Length: 11\r\n\r\n".to_vec()]
            );
            assert_eq!(transmission.spooled, Some(b"from a file".to_vec()));
        }
        other => panic!("expected a write, got {other:?}"),
    }
}

#[test]
fn combining_puts_head_and_body_into_one_segment() {
    for combine in [false, true] {
        let (mut connection, _) = Connection::<File>::open(5, combine);
        let mut connections = ConnectionCounter::new();
        connection.received(REQUEST, &mut connections);
        match connection.serve_request(&FixedResponseHandler) {
            Action::Write(transmission) => {
                assert_eq!(transmission.segments.len(), if combine { 1 } else { 2 });
                assert_eq!(transmission.segments.concat(), EXPECTED_RESPONSE);
                assert!(transmission.spooled.is_none());
            }
            other => panic!("expected a write, got {other:?}"),
        }
    }
}

#[test]
fn a_limit_of_zero_answers_one_request() {
    let mut client = connect(FixedResponseHandler, 0, false);
    client.send(REQUEST);
    assert_eq!(
        client.receive(),
        b"HTTP/1.1 200 OK\r\nContent-Length: 2\r\nConnection: close\r\n\r\nOK"
    );
    assert!(client.is_closed());
}

#[test]
fn pipelined_requests_behind_the_last_answer_are_dropped() {
    let mut client = connect(FixedResponseHandler, 1, false);
    let twice = [REQUEST, REQUEST].concat();
    client.send(&twice);
    assert_eq!(
        client.receive(),
        b"HTTP/1.1 200 OK\r\nContent-Length: 2\r\nConnection: close\r\n\r\nOK"
    );
    assert!(client.is_closed());
}

#[test]
fn requests_count_as_in_flight_from_their_head_to_their_answer() {
    let mut client = connect(FixedResponseHandler, DEFAULT_MAX_KEEPALIVE, false);
    client.send(b"POST / HTTP/1.1\r\nContent-Le");
    assert_eq!(client.connections.in_flight(), 0);
    client.send(b"ngth: 3\r\n\r\nab");
    assert_eq!(client.connections.in_flight(), 1);
    assert!(client.connection.in_flight());
    assert_eq!(client.connections.drain(0, 30), Drain::Wait);
    assert_eq!(client.connections.drain(30, 30), Drain::Expired);
    client.send(b"c");
    assert_eq!(client.receive(), EXPECTED_RESPONSE);
    assert_eq!(client.connections.in_flight(), 0);
    assert_eq!(client.connections.drain(0, 30), Drain::Drained);
}

#[test]
fn a_connection_that_breaks_mid_request_is_not_left_in_flight() {
    let mut client = connect(FixedResponseHandler, DEFAULT_MAX_KEEPALIVE, false);
    client.send(b"POST / HTTP/1.1\r\nContent-Length: 3\r\n\r\nab");
    assert_eq!(client.connections.in_flight(), 1);
    client.action = client.connection.close(&mut client.connections);
    assert!(client.is_closed());
    assert_eq!(client.connections.in_flight(), 0);
}

#[test]
fn refusals_count_as_in_flight_until_they_are_written() {
    let (mut connection, _) = Connection::<File>::open(5, false);
    let mut connections = ConnectionCounter::new();
    let action = connection
        .received(b"POST / HTTP/1.1\r\nContent-Length: 999999999\r\n\r\n", &mut connections);
    assert!(matches!(action, Action::Write(_)));
    assert_eq!(connections.in_flight(), 1);
    assert!(matches!(connection.written(&mut connections), Action::Close));
    assert_eq!(connections.in_flight(), 0);
}

#[test]
fn a_fresh_connection_waits_for_its_first_bytes() {
    let (connection, action) = Connection::<File>::open(5, false);
    assert!(matches!(action, Action::Read { limit: 8192, idle: true }));
    assert!(!connection.in_flight());
}

#[test]
fn responses_can_be_cloned() {
    let answer = HandlerResponse::<u8> {
        status: 200,
        headers: vec![header("A", "b")],
        body: ResponseBody::InMemory(b"body".to_vec()),
    };
    let copy = answer.clone();
    assert_eq!((copy.status, copy.headers), (answer.status, answer.headers));
    assert!(matches!(copy.body, ResponseBody::InMemory(bytes) if bytes == b"body"));
}

#[test]
fn the_request_is_offered_as_it_arrived() {
    let (mut connection, _) = Connection::<File>::open(5, false);
    let mut connections = ConnectionCounter::new();
    connection.received(
        b"PUT /thing?k=v HTTP/1.1\r\nHost: h\r\nX-A: 1\r\nX-A: 2\r\nContent-Length: 2\r\n\r\nhiNEXT",
        &mut connections,
    );
    let request = connection.request().expect("a request");
    assert_eq!(request.method, "PUT");
    assert_eq!(request.path, "/thing");
    assert_eq!(request.query, "k=v");
    assert_eq!(
        request.headers,
        [("Host", "h"), ("X-A", "1"), ("X-A", "2"), ("Content-Length", "2")]
    );
    assert_eq!(request.body, b"hi");
}
