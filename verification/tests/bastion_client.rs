use ephemwork::bastion_client::{
    accept_reply, build_request, deregister, find_double_crlf, parse_response, register,
    BastionEndpoint, ClientError, DEFAULT_TIMEOUT_SECS,
};
use ephemwork::bastion_protocol::{DeregisterRequest, RegisterRequest, RegisterResponse};
use ephemwork::http::{parse_request, read_request, Response};

/// A bastion that answers every request with the given status line and JSON.
fn reply(status_line: &str, json: &str) -> Vec<u8> {
    format!(
        "{status_line}\r\nContent-Type: application/json\r\nContent-Length: {}\r\nConnection: close\r\n\r\n{json}",
        json.len()
    )
    .into_bytes()
}

fn decode(body: &Vec<u8>) -> Result<RegisterResponse, String> {
    let v: serde_json::Value = serde_json::from_slice(body).map_err(|e| e.to_string())?;
    match v.get("remote_port").and_then(|p| p.as_u64()) {
        Some(p) => Ok(RegisterResponse {
            remote_port: p as u16,
        }),
        None => Err("missing field `remote_port`".to_string()),
    }
}

fn pair(user: &str, service: &str) -> RegisterRequest {
    RegisterRequest {
        user: user.into(),
        service: service.into(),
    }
}

#[test]
fn build_request_includes_required_headers() {
    let req = build_request("bastion.local", "/register", br#"{"user":"a"}"#);
    let s = std::str::from_utf8(&req).unwrap();
    assert!(s.starts_with("POST /register HTTP/1.0"));
    assert!(s.contains("Host: bastion.local"));
    assert!(s.contains("Content-Type: application/json"));
    assert!(s.contains("Content-Length: 12"));
    assert!(s.ends_with(r#"{"user":"a"}"#));
}

#[test]
fn parse_response_extracts_status_and_body() {
    let raw = b"HTTP/1.0 200 OK\r\nContent-Length: 4\r\n\r\nbody";
    let r = parse_response(raw).unwrap();
    assert_eq!(r.status, 200);
    assert_eq!(r.body, b"body");
}

#[test]
fn parse_response_rejects_missing_terminator() {
    let raw = b"HTTP/1.0 200 OK\r\nContent-Length: 4\r\n";
    assert!(parse_response(raw).is_err());
}

#[test]
fn parse_response_rejects_garbage_status() {
    let raw = b"HTTP/1.0 abc Bad\r\n\r\nbody";
    assert!(parse_response(raw).is_err());
}

#[test]
fn register_round_trips_against_fake_server() {
    let endpoint = BastionEndpoint::new("127.0.0.1", 4000);
    let captured = std::cell::RefCell::new(Vec::new());
    let resp = register(
        &endpoint,
        &pair("matheus", "api"),
        |e: &BastionEndpoint, wire: &Vec<u8>| {
            assert_eq!(e.port, 4000);
            *captured.borrow_mut() = wire.clone();
            Ok(reply("HTTP/1.0 200 OK", r#"{"remote_port":9001}"#))
        },
        decode,
    )
    .unwrap();
    assert_eq!(resp.remote_port, 9001);

    let captured = captured.borrow();
    let s = std::str::from_utf8(&captured).unwrap();
    assert!(s.contains("POST /register"));
    assert!(s.contains(r#""user":"matheus""#));
    assert!(s.contains(r#""service":"api""#));
}

#[test]
fn deregister_round_trips_against_fake_server() {
    let endpoint = BastionEndpoint::new("127.0.0.1", 4000);
    let sent = std::cell::RefCell::new(Vec::new());
    deregister(
        &endpoint,
        &DeregisterRequest {
            user: "matheus".into(),
            service: "api".into(),
        },
        |_: &BastionEndpoint, wire: &Vec<u8>| {
            *sent.borrow_mut() = wire.clone();
            Ok(reply("HTTP/1.0 200 OK", "{}"))
        },
    )
    .unwrap();
    assert_eq!(
        *sent.borrow(),
        build_request(
            "127.0.0.1",
            "/deregister",
            br#"{"user":"matheus","service":"api"}"#
        )
    );
}

#[test]
fn register_propagates_5xx() {
    let err = register(
        &BastionEndpoint::new("127.0.0.1", 1),
        &pair("x", "y"),
        |_: &BastionEndpoint, _: &Vec<u8>| Ok(reply("HTTP/1.0 500 Boom", r#"{"error":"boom"}"#)),
        decode,
    )
    .unwrap_err()
    .message();
    assert!(err.contains("500"), "got: {err}");
    assert!(err.contains("boom"), "got: {err}");
    assert_eq!(err, "bastion returned status 500: {\"error\":\"boom\"}");
}

#[test]
fn register_errors_on_bad_json() {
    let err = register(
        &BastionEndpoint::new("127.0.0.1", 1),
        &pair("x", "y"),
        |_: &BastionEndpoint, _: &Vec<u8>| Ok(reply("HTTP/1.0 200 OK", "not json")),
        decode,
    )
    .unwrap_err()
    .message();
    assert!(err.to_lowercase().contains("decoding"), "got: {err}");
}

#[test]
fn an_exchange_that_fails_is_reported_as_it_is() {
    let err = register(
        &BastionEndpoint::new("h", 1),
        &pair("x", "y"),
        |_: &BastionEndpoint, _: &Vec<u8>| Err("connecting to h:1".to_string()),
        decode,
    )
    .unwrap_err();
    assert_eq!(err, ClientError::Exchange("connecting to h:1".to_string()));
    assert_eq!(err.message(), "connecting to h:1");
    assert_eq!(DEFAULT_TIMEOUT_SECS, 10);
}

#[test]
fn request_bytes_are_exact() {
    assert_eq!(
        build_request("h", "/p", b"xy"),
        b"POST /p HTTP/1.0\r\nHost: h\r\nContent-Type: application/json\r\nContent-Length: 2\r\nConnection: close\r\n\r\nxy"
    );
}

#[test]
fn response_errors_each_have_an_input() {
    let cases: Vec<(&[u8], ClientError, &str)> = vec![
        (
            b"HTTP/1.0 200 OK\n\nlf only",
            ClientError::NoTerminator,
            "malformed http response: no header terminator",
        ),
        (
            b"\xff\r\n\r\n",
            ClientError::HeadNotUtf8,
            "response head was not valid UTF-8",
        ),
        (
            b"\r\n\r\n",
            ClientError::MissingStatusLine,
            "missing status line",
        ),
        (
            b"HTTP/1.0\r\n\r\n",
            ClientError::MissingStatusCode,
            "missing status code",
        ),
        (
            b"HTTP/1.0 65536\r\n\r\n",
            ClientError::BadStatusCode,
            "parsing status code",
        ),
    ];
    for (raw, error, text) in cases {
        let got = parse_response(raw).unwrap_err();
        assert_eq!(got, error);
        assert_eq!(got.message(), text);
    }
    assert_eq!(find_double_crlf(b"ab\r\n\r\n"), Some(2));
    assert_eq!(find_double_crlf(b"\r\n\r"), None);
}

#[test]
fn refusals_keep_bodies_that_are_no_utf8() {
    let mut raw = b"HTTP/1.0 404 x\r\n\r\n".to_vec();
    raw.push(0xff);
    match accept_reply(Ok(raw)).unwrap_err() {
        ClientError::Refused { status, body } => {
            assert_eq!(status, 404);
            assert_eq!(body, "\u{fffd}");
        }
        other => panic!("expected Refused, got {other:?}"),
    }
    assert_eq!(
        accept_reply(Ok(b"HTTP/1.0 199 x\r\n\r\n".to_vec()))
            .unwrap_err()
            .message(),
        "bastion returned status 199: "
    );
    assert_eq!(
        accept_reply(Ok(b"HTTP/1.0 299 x\r\n\r\nok".to_vec())).unwrap().body,
        b"ok"
    );
}

#[test]
fn what_the_client_sends_the_server_reads() {
    let body = br#"{"user":"a"}"#;
    let wire = build_request("bastion.local", "/register", body);
    let req = parse_request(&wire).unwrap();
    assert_eq!(req.method, "POST");
    assert_eq!(req.path, "/register");
    assert_eq!(req.body, body);
    // However the bytes are cut up on their way.
    for size in 1..wire.len() + 1 {
        let reads = wire.chunks(size).map(|c| Ok(c.to_vec())).collect();
        assert_eq!(read_request(reads).unwrap(), req, "pieces of {size}");
    }
}

#[test]
fn what_the_server_sends_the_client_reads() {
    let ok = Response::json(200, "OK", br#"{"remote_port":10000}"#);
    let got = accept_reply(Ok(ok.to_wire())).unwrap();
    assert_eq!(got.status, 200);
    assert_eq!(got.body, ok.body);
    let full = Response::json(503, "Service Unavailable", br#"{"error":"full"}"#);
    assert_eq!(
        accept_reply(Ok(full.to_wire())).unwrap_err(),
        ClientError::Refused {
            status: 503,
            body: r#"{"error":"full"}"#.to_string()
        }
    );
}

#[test]
fn a_written_response_is_taken_apart_as_it_was() {
    for body in [&b""[..], b"abc", b"\r\n\r\n", b"\xff\xfe\r\n\r\nx"] {
        for status in [0, 7, 200, 404, u16::MAX] {
            let wire = Response::text(status, "Some reason", body).to_wire();
            let got = parse_response(&wire).unwrap();
            assert_eq!(got.status, status);
            assert_eq!(got.body, body);
        }
    }
}
