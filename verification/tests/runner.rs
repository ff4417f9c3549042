use ephemwork::http::Response;
use ephemwork::runner::{
    assert_port_free, judge_reach, parse_status_code, wait_for_health, HealthCheck, HealthError,
    HealthWait, PortError, PortProbe, ReachVerdict, StatusError, Unreachable,
};

#[test]
fn parse_status_code_happy_path() {
    let resp = b"HTTP/1.0 200 OK\r\n\r\n";
    assert_eq!(parse_status_code(resp).unwrap(), 200);
}

#[test]
fn parse_status_code_handles_404() {
    let resp = b"HTTP/1.1 404 Not Found\r\n\r\n";
    assert_eq!(parse_status_code(resp).unwrap(), 404);
}

#[test]
fn parse_status_code_rejects_empty() {
    assert!(parse_status_code(b"").is_err());
}

#[test]
fn parse_status_code_rejects_garbage() {
    assert!(parse_status_code(b"\xff\xfe nonsense").is_err());
}

#[test]
fn wait_for_health_succeeds_when_server_is_up() {
    let code = wait_for_health(vec![Ok(200)]).unwrap();
    assert_eq!(code, 200);
}

#[test]
fn wait_for_health_returns_error_for_5xx() {
    let attempts = vec![Ok(500); 8];
    let err = wait_for_health(attempts).unwrap_err().message();
    assert!(err.contains("500"), "got: {err}");
}

#[test]
fn wait_for_health_times_out_when_no_server() {
    let refused = || Err("connecting to 127.0.0.1:1: connection refused".to_string());
    let err = wait_for_health(vec![refused(), refused()])
        .unwrap_err()
        .message()
        .to_lowercase();
    assert!(
        err.contains("connect")
            || err.contains("refused")
            || err.contains("timed out")
            || err.contains("connection"),
        "got: {err}"
    );
}

#[test]
fn assert_port_free_succeeds_when_port_is_free() {
    assert_port_free(40000, PortProbe::Free).expect("a just-released port should be probe-free");
}

#[test]
fn assert_port_free_errors_when_port_is_in_use() {
    let port: u16 = 40000;
    let err = assert_port_free(port, PortProbe::InUse).unwrap_err().message();
    assert!(err.contains("already in use"), "got: {err}");
    assert!(
        err.contains(&port.to_string()) && err.contains("lsof"),
        "expected the message to include the port number and an lsof hint, got:\n{err}"
    );
}

#[test]
fn a_probe_that_fails_is_passed_on() {
    assert_eq!(
        assert_port_free(7, PortProbe::Failed("denied".into())),
        Err(PortError::Probing {
            port: 7,
            cause: "denied".into()
        })
    );
}

#[test]
fn status_faults_are_told_apart() {
    assert_eq!(parse_status_code(b""), Err(StatusError::Empty));
    assert_eq!(parse_status_code(b"\xff"), Err(StatusError::NotUtf8));
    assert_eq!(parse_status_code(b"\n200"), Err(StatusError::MissingVersion));
    assert_eq!(parse_status_code(b"HTTP/1.0\r\n"), Err(StatusError::MissingCode));
    assert_eq!(
        parse_status_code(b"HTTP/1.0 2x0"),
        Err(StatusError::BadCode { code: "2x0".into() })
    );
    // A body that is no UTF-8 is the client's problem too: all of it is read.
    assert_eq!(
        parse_status_code(b"HTTP/1.0 200 OK\r\n\r\n\xff"),
        Err(StatusError::NotUtf8)
    );
    let bad = StatusError::BadCode { code: "2\tx".into() };
    assert!(bad.message().contains(r#""2\tx""#), "got: {}", bad.message());
}

#[test]
fn the_first_success_counts() {
    let attempts = vec![Ok(500), Err("x".into()), Ok(204), Ok(200)];
    assert_eq!(wait_for_health(attempts), Ok(204));
    assert_eq!(wait_for_health(vec![Ok(299)]), Ok(299));
}

#[test]
fn the_last_failure_is_reported() {
    assert_eq!(
        wait_for_health(vec![Ok(199), Ok(300)]),
        Err(HealthError::Status(300))
    );
    assert_eq!(
        wait_for_health(vec![Ok(500), Err("gone".into())]),
        Err(HealthError::Attempt("gone".into()))
    );
    assert_eq!(wait_for_health(vec![]), Err(HealthError::TimedOut));
    assert_eq!(HealthError::Attempt("gone".into()).message(), "gone");
}

#[test]
fn waiting_may_be_done_attempt_by_attempt() {
    let mut wait = HealthWait::new();
    assert_eq!(wait.observe(Ok(503)), None);
    assert_eq!(wait.observe(Ok(200)), Some(200));
    let mut wait = HealthWait::new();
    assert_eq!(wait.observe(Err("no".into())), None);
    assert_eq!(wait.give_up(), HealthError::Attempt("no".into()));
}

#[test]
fn an_attempt_takes_at_most_its_share() {
    let check = |overall, poll| HealthCheck {
        host: "h",
        port: 1,
        path: "/health",
        overall_timeout_ms: overall,
        poll_interval_ms: poll,
    };
    assert_eq!(
        check(1, 1).request(),
        "GET /health HTTP/1.0\r\nHost: h\r\nConnection: close\r\n\r\n"
    );
    assert_eq!(check(60_000, 250).attempt_timeout_ms(), 2_000);
    assert_eq!(check(400, 250).attempt_timeout_ms(), 400);
    assert_eq!(check(1, 250).attempt_timeout_ms(), 100);
}

#[test]
fn a_port_is_waited_for_until_the_time_is_up() {
    assert_eq!(judge_reach(1, 2_000, true, false), ReachVerdict::Reached);
    assert_eq!(judge_reach(1, 2_000, true, true), ReachVerdict::Reached);
    assert_eq!(judge_reach(1, 2_000, false, false), ReachVerdict::TryAgain);
    let error = Unreachable {
        port: 1,
        timeout_ms: 300,
    };
    assert_eq!(judge_reach(1, 300, false, true), ReachVerdict::GiveUp(error));
    assert_eq!(
        error.message(),
        "port 127.0.0.1:1 did not become reachable within 300ms"
    );
}

#[test]
fn the_status_of_a_written_response_reads_back() {
    for status in [0, 99, 200, 503, u16::MAX] {
        for reason in ["OK", "", "two words", "a\r\nb", "\n"] {
            let wire = Response::json(status, reason, "{\"a\": \"\u{e9}\"}".as_bytes()).to_wire();
            assert_eq!(parse_status_code(&wire), Ok(status));
        }
    }
    let odd = Response::json(200, "OK", b"\xff").to_wire();
    assert_eq!(parse_status_code(&odd), Err(StatusError::NotUtf8));
}
