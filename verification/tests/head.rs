use helixrack::head::{build_request, content_length, read_head, LengthError, RawHead};

#[test]
fn a_complete_head_is_read() {
    let bytes: &[u8] = b"GET /a?b HTTP/1.1\r\nHost: h\r\nX: \xff\r\n\r\nrest";
    let head = read_head(bytes).expect("a head");
    assert_eq!(head.consumed, Some(bytes.len() - 4));
    assert_eq!(head.method, Some("GET"));
    assert_eq!(head.path, Some("/a?b"));
    assert_eq!(head.headers, [("Host", &b"h"[..]), ("X", &b"\xff"[..])]);
}

#[test]
fn no_bytes_are_an_incomplete_head() {
    assert_eq!(read_head(b"").expect("a head").consumed, None);
    assert_eq!(read_head(b"GET / HTTP/1.1\r\n").expect("a head").consumed, None);
}

#[test]
fn what_follows_a_head_does_not_change_it() {
    let head: &[u8] = b"\r\nPOST /x HTTP/1.0\r\nA: 1\r\nB:  2 \r\n\r\n";
    let alone = read_head(head).expect("a head");
    assert_eq!(alone.consumed, Some(head.len()));
    let tails: [&[u8]; 4] = [b"x", b"\r\n\r\n", b"\0\xff junk", b"GET / HTTP/1.1\r\n\r\n"];
    for tail in tails {
        let bytes = [head, tail].concat();
        let longer = read_head(&bytes).expect("a head");
        assert_eq!(longer.consumed, alone.consumed);
        assert_eq!(longer.method, alone.method);
        assert_eq!(longer.path, alone.path);
        assert_eq!(longer.headers, alone.headers);
    }
}

#[test]
fn a_malformed_head_is_an_error() {
    assert_eq!(read_head(b"GET / HTTP/9.9\r\n\r\n").err(), Some(httparse::Error::Version));
}

#[test]
fn lengths_are_taken_from_the_header_fields() {
    assert_eq!(content_length(&[]), Ok(0));
    assert_eq!(content_length(&[("Host", b"12")]), Ok(0));
    assert_eq!(content_length(&[("content-LENGTH", b" 12\t")]), Ok(12));
    assert_eq!(content_length(&[("Content-Length", b"+5")]), Ok(5));
    assert_eq!(
        content_length(&[("Content-Length", b"7"), ("X", b"9"), ("content-length", b"07")]),
        Ok(7)
    );
    assert_eq!(
        content_length(&[("Content-Length", b"18446744073709551616")]),
        Err(LengthError::Malformed)
    );
    assert_eq!(content_length(&[(" Content-Length", b"7")]), Ok(0));
}

#[test]
fn the_first_fault_among_the_lengths_decides() {
    assert_eq!(content_length(&[("Content-Length", b"")]), Err(LengthError::Malformed));
    assert_eq!(content_length(&[("Content-Length", b"-1")]), Err(LengthError::Malformed));
    assert_eq!(content_length(&[("Content-Length", b"\xc3")]), Err(LengthError::NotUtf8));
    assert_eq!(
        content_length(&[("Content-Length", b"1"), ("Content-Length", b"2"), ("Content-Length", b"x")]),
        Err(LengthError::Conflicting)
    );
    assert_eq!(
        content_length(&[("Content-Length", b"x"), ("Content-Length", b"\xff")]),
        Err(LengthError::Malformed)
    );
}

#[test]
fn requests_are_built_from_heads() {
    let head = RawHead {
        consumed: Some(9),
        method: Some("GET"),
        path: Some("/p?q"),
        headers: vec![("A", &b"caf\xc3\xa9"[..])],
    };
    let request = build_request(head, b"body").expect("a request");
    assert_eq!(request.method, "GET");
    assert_eq!((request.path, request.query), ("/p", "q"));
    assert_eq!(request.headers, [("A", "caf\u{e9}")]);
    assert_eq!(request.body, b"body");
}

#[test]
fn what_was_not_read_is_empty() {
    let head = RawHead { consumed: None, method: None, path: None, headers: Vec::new() };
    let request = build_request(head, b"").expect("a request");
    assert_eq!((request.method, request.path, request.query), ("", "", ""));
}

#[test]
fn a_value_that_is_not_text_makes_no_request() {
    let head = RawHead {
        consumed: Some(9),
        method: Some("GET"),
        path: Some("/"),
        headers: vec![("A", &b"ok"[..]), ("B", &b"\xf0\x28"[..])],
    };
    assert!(build_request(head, b"").is_none());
}

#[test]
fn a_head_that_is_cut_short_is_incomplete() {
    let heads: [&[u8]; 5] = [
        b"GET / HTTP/1.1\r\nHost: localhost\r\nX-Long-Name-Of-A-Field: a value of some length\r\n\r\n",
        b"\r\n\nPOST /path/that/is/longer/than/a/block?q=1 HTTP/1.0\nA:\nB: \t \r\nC: d \n\n",
        b"POST /x HTTP/1.1\r\n\r\n",
        b"G / HTTP/1.1\n\n",
        b"OPTIONS * HTTP/1.1\r\nX: \xe9\xff and more than sixteen bytes\r\n\r\n",
    ];
    for head in heads {
        let whole = read_head(head).expect("a head");
        assert_eq!(whole.consumed, Some(head.len()));
        for cut in 0..head.len() {
            let part = read_head(&head[..cut]).expect("part of a head");
            assert_eq!(part.consumed, None, "{cut} bytes of {head:?}");
        }
    }
}
