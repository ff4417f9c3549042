use ephemwork::http::{
    find_header_terminator, parse_request, read_request, ParseError, RequestError,
    RequestReader, Response, MAX_REQUEST, READ_BYTES,
};

/// What reading a stream gives in pieces of up to 2048 bytes.
fn reads(bytes: &[u8]) -> Vec<Result<Vec<u8>, String>> {
    bytes.chunks(2048).map(|c| Ok(c.to_vec())).collect()
}

#[test]
fn parse_request_extracts_method_path_body() {
    let raw = b"POST /register HTTP/1.0\r\nHost: x\r\nContent-Length: 11\r\n\r\nhello world";
    let req = parse_request(raw).unwrap();
    assert_eq!(req.method, "POST");
    assert_eq!(req.path, "/register");
    assert_eq!(req.body, b"hello world");
}

#[test]
fn parse_request_handles_lf_only_terminator() {
    let raw = b"GET /healthz HTTP/1.0\nHost: x\nContent-Length: 0\n\n";
    let req = parse_request(raw).unwrap();
    assert_eq!(req.method, "GET");
    assert_eq!(req.path, "/healthz");
    assert!(req.body.is_empty());
}

#[test]
fn parse_request_tolerates_missing_content_length() {
    let raw = b"GET /healthz HTTP/1.0\r\nHost: x\r\n\r\n";
    let req = parse_request(raw).unwrap();
    assert!(req.body.is_empty());
}

#[test]
fn parse_request_errors_on_no_terminator() {
    let raw = b"POST /register HTTP/1.0\r\nHost: x\r\n";
    assert!(parse_request(raw).is_err());
}

#[test]
fn parse_request_errors_on_garbage() {
    let raw = b"\xff\xfe garbage\r\n\r\n";
    assert!(parse_request(raw).is_err());
}

#[test]
fn response_to_wire_includes_required_headers() {
    let r = Response::json(200, "OK", br#"{"ok":true}"#);
    let s = std::str::from_utf8(&r.to_wire()).unwrap().to_string();
    assert!(s.starts_with("HTTP/1.0 200 OK\r\n"));
    assert!(s.contains("Content-Type: application/json"));
    assert!(s.contains("Content-Length: 11"));
    assert!(s.ends_with(r#"{"ok":true}"#));
}

#[test]
fn response_text_uses_text_plain() {
    let r = Response::text(404, "Not Found", b"nope");
    let s = std::str::from_utf8(&r.to_wire()).unwrap().to_string();
    assert!(s.contains("Content-Type: text/plain"));
}

#[test]
fn read_request_returns_empty_connection_for_zero_bytes() {
    let err = read_request(reads(b"")).unwrap_err();
    assert!(matches!(err, RequestError::EmptyConnection), "got: {err:?}");
}

#[test]
fn read_request_returns_truncated_when_eof_before_terminator() {
    // Some bytes but no header terminator before EOF.
    let err = read_request(reads(b"GET /partial HTTP/1.0")).unwrap_err();
    match err {
        RequestError::Truncated { bytes } => assert!(bytes > 0),
        other => panic!("expected Truncated, got {other:?}"),
    }
}

#[test]
fn read_request_assembles_from_chunks() {
    let raw = b"POST /register HTTP/1.0\r\nContent-Length: 4\r\n\r\nbody".to_vec();
    let req = read_request(reads(&raw)).unwrap();
    assert_eq!(req.body, b"body");
}

#[test]
fn read_request_rejects_oversized_input() {
    let mut big = Vec::with_capacity(70 * 1024);
    big.extend_from_slice(b"POST /x HTTP/1.0\r\nContent-Length: 0\r\n");
    // Headers without terminator force the loop to keep reading.
    big.extend(std::iter::repeat(b'A').take(70 * 1024));
    match read_request(reads(&big)).unwrap_err() {
        RequestError::Oversized { cap } => assert_eq!(cap, 64 * 1024),
        other => panic!("expected Oversized, got {other:?}"),
    }
}

#[test]
fn wire_bytes_are_exact() {
    let r = Response::text(404, "Not Found", b"nope");
    assert_eq!(
        r.to_wire(),
        b"HTTP/1.0 404 Not Found\r\nContent-Type: text/plain\r\nContent-Length: 4\r\nConnection: close\r\n\r\nnope"
    );
}

#[test]
fn terminator_is_the_first_crlf_one_or_else_the_first_lf_one() {
    assert_eq!(find_header_terminator(b"a\r\n\r\nb\r\n\r\n"), Some((1, 5)));
    assert_eq!(find_header_terminator(b"a\n\nb\r\n\r\n"), Some((4, 8)));
    assert_eq!(find_header_terminator(b"a\n\nb\n\n"), Some((1, 3)));
    assert_eq!(find_header_terminator(b"a\r\nb"), None);
    assert_eq!(find_header_terminator(b""), None);
}

#[test]
fn parse_errors_each_have_an_input() {
    let cases: Vec<(&[u8], ParseError, &str)> = vec![
        (
            b"GET / HTTP/1.0",
            ParseError::NoTerminator,
            "malformed request: no header terminator",
        ),
        (
            b"\xff\r\n\r\n",
            ParseError::HeadNotUtf8,
            "request head not valid UTF-8",
        ),
        (b"\r\n\r\n", ParseError::MissingMethod, "missing method"),
        (b"GET\r\n\r\n", ParseError::MissingPath, "missing path"),
        (
            b"GET / HTTP/1.0\r\nContent-Length: x\r\n\r\n",
            ParseError::BadContentLength,
            "parsing content-length",
        ),
    ];
    for (raw, error, text) in cases {
        let got = parse_request(raw).unwrap_err();
        assert_eq!(got, error);
        assert_eq!(got.message(), text);
    }
    // A missing path is found before a bad length.
    assert_eq!(
        parse_request(b"GET\r\nContent-Length: x\r\n\r\n").unwrap_err(),
        ParseError::MissingPath
    );
}

#[test]
fn the_last_length_counts_and_a_short_body_is_taken_as_it_is() {
    let raw = b"POST / HTTP/1.0\r\nContent-Length: 1\r\ncontent-LENGTH: +3 \r\n\r\nabcdef";
    assert_eq!(parse_request(raw).unwrap().body, b"abc");
    let raw = b"POST / HTTP/1.0\r\nContent-Length: 100\r\n\r\nabc";
    assert_eq!(parse_request(raw).unwrap().body, b"abc");
    let raw = b"POST / HTTP/1.0\nContent-Length: 2\n\nabc";
    assert_eq!(parse_request(raw).unwrap().body, b"ab");
}

#[test]
fn a_length_beyond_the_machine_asks_for_what_never_comes() {
    let huge = format!(
        "POST / HTTP/1.0\r\nContent-Length: {}\r\n\r\nabc",
        usize::MAX
    );
    assert_eq!(parse_request(huge.as_bytes()).unwrap().body, b"abc");
    let mut reader = RequestReader::new();
    assert!(reader.take(Ok(huge.clone().into_bytes())).is_none());
    let req = reader.take(Ok(Vec::new())).unwrap().unwrap();
    assert_eq!(req.body, b"abc");
    let mut long = huge.into_bytes();
    long.resize(MAX_REQUEST, b'z');
    assert_eq!(
        read_request(vec![Ok(long)]).unwrap_err(),
        RequestError::Oversized { cap: MAX_REQUEST }
    );
}

#[test]
fn reading_stops_as_soon_as_the_request_is_there() {
    let mut reader = RequestReader::new();
    assert!(reader.take(Ok(b"POST /x HTTP/1.0\r\nContent-Le".to_vec())).is_none());
    assert!(reader.take(Ok(b"ngth: 4\r\n\r\nbo".to_vec())).is_none());
    let req = reader.take(Ok(b"dy and more".to_vec())).unwrap().unwrap();
    assert_eq!(req.body, b"body");
}

#[test]
fn reading_reports_failures() {
    let err = read_request(vec![
        Ok(b"GET /".to_vec()),
        Err("connection reset".to_string()),
    ])
    .unwrap_err();
    assert_eq!(err, RequestError::Io("connection reset".to_string()));
    assert_eq!(err.message(), "socket I/O: connection reset");

    let err = read_request(vec![Ok(b"GET /x".to_vec()), Ok(Vec::new())]).unwrap_err();
    assert_eq!(err, RequestError::Truncated { bytes: 6 });
    assert_eq!(
        err.message(),
        "request truncated after 6 bytes (no header terminator)"
    );

    let err = read_request(reads(b"GET\r\n\r\n")).unwrap_err();
    assert_eq!(err, RequestError::Malformed(ParseError::MissingPath));
    assert_eq!(err.message(), "malformed: missing path");

    assert_eq!(
        RequestError::Oversized { cap: MAX_REQUEST }.message(),
        "request exceeded 65536 bytes"
    );
    assert_eq!(RequestError::EmptyConnection.message(), "peer closed without data");
}

/// A request of so many bytes, head included.
fn request_of(total: usize) -> Vec<u8> {
    let head = format!("POST /x HTTP/1.0\r\nContent-Length: {:05}\r\n\r\n", 0).len();
    let mut raw =
        format!("POST /x HTTP/1.0\r\nContent-Length: {:05}\r\n\r\n", total - head).into_bytes();
    raw.resize(total, b'z');
    raw
}

#[test]
fn no_request_is_read_beyond_the_cap() {
    let full = request_of(MAX_REQUEST);
    let over = request_of(MAX_REQUEST + 1);
    let refused = RequestError::Oversized { cap: 65_536 };
    let req = read_request(reads(&full)).unwrap();
    assert_eq!(full.len(), 65_536);
    assert!(full.ends_with(&req.body));
    assert_eq!(read_request(vec![Ok(full)]).unwrap(), req);
    assert_eq!(read_request(reads(&over)).unwrap_err(), refused);
    assert_eq!(read_request(vec![Ok(over)]).unwrap_err(), refused);
    assert_eq!(read_request(vec![Ok(request_of(70_000))]).unwrap_err(), refused);
    assert_eq!(read_request(reads(&request_of(70_000))).unwrap_err(), refused);
    // At the cap and still incomplete.
    let mut cut = request_of(70_000);
    cut.truncate(MAX_REQUEST);
    assert_eq!(read_request(reads(&cut)).unwrap_err(), refused);
}

#[test]
fn no_more_is_asked_for_than_there_is_room_for() {
    let mut raw = b"POST /x HTTP/1.0\r\nContent-Length: 99999\r\n\r\n".to_vec();
    raw.resize(80_000, b'z');
    let mut reader = RequestReader::new();
    let mut taken: usize = 0;
    let answer = loop {
        let n = reader.wanted();
        assert!(n > 0 && n <= READ_BYTES);
        let piece = n.min(1000);
        let read = raw[taken..taken + piece].to_vec();
        taken += piece;
        if let Some(answer) = reader.take(Ok(read)) {
            break answer;
        }
    };
    assert_eq!(answer.unwrap_err(), RequestError::Oversized { cap: MAX_REQUEST });
    assert_eq!(taken, MAX_REQUEST);
    assert_eq!(reader.wanted(), 0);
    assert_eq!(RequestReader::new().wanted(), 2048);
}

#[test]
fn nothing_is_read_behind_the_last_byte() {
    let full = b"POST /x HTTP/1.0\r\nContent-Length: 2\r\n\r\nab".to_vec();
    for n in 1..full.len() {
        let mut reads: Vec<Result<Vec<u8>, String>> =
            full.chunks(n).map(|c| Ok(c.to_vec())).collect();
        reads.push(Err("never read".to_string()));
        assert_eq!(read_request(reads).unwrap().body, b"ab");
    }
}
