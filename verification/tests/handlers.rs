use ephemwork::common::{DeregisterRequest, RegisterRequest};
use ephemwork::handlers::{
    handle_deregister, handle_register, handle_snapshot, route, MutationListener, NoopListener,
};
use ephemwork::http::{Request, Response};
use ephemwork::registry::{Key, PortRange, Registry};

#[derive(Default)]
struct CountingListener {
    calls: usize,
}

impl MutationListener for CountingListener {
    fn on_change(&mut self, _registry: &Registry) {
        self.calls += 1;
    }
}

fn field(v: &serde_json::Value, name: &str) -> Result<String, String> {
    match v.get(name).and_then(|f| f.as_str()) {
        Some(s) => Ok(s.to_string()),
        None => Err(format!("missing field `{name}`")),
    }
}

fn decode_register(body: &Vec<u8>) -> Result<RegisterRequest, String> {
    let v: serde_json::Value = serde_json::from_slice(body).map_err(|e| e.to_string())?;
    Ok(RegisterRequest {
        user: field(&v, "user")?,
        service: field(&v, "service")?,
    })
}

fn decode_deregister(body: &Vec<u8>) -> Result<DeregisterRequest, String> {
    let v: serde_json::Value = serde_json::from_slice(body).map_err(|e| e.to_string())?;
    Ok(DeregisterRequest {
        user: field(&v, "user")?,
        service: field(&v, "service")?,
    })
}

fn remote_port(resp: &Response) -> u64 {
    let v: serde_json::Value = serde_json::from_slice(&resp.body).unwrap();
    v["remote_port"].as_u64().unwrap()
}

fn req(method: &str, path: &str, body: &[u8]) -> Request {
    Request {
        method: method.into(),
        path: path.into(),
        body: body.to_vec(),
    }
}

fn send<L: MutationListener>(request: &Request, registry: &mut Registry, listener: &mut L) -> Response {
    route(request, registry, listener, decode_register, decode_deregister)
}

fn registry() -> Registry {
    Registry::with_range(PortRange {
        start: 10_000,
        end: 10_002,
    })
}

#[test]
fn healthz_returns_ok() {
    let mut r = registry();
    let resp = send(&req("GET", "/healthz", b""), &mut r, &mut NoopListener);
    assert_eq!(resp.status, 200);
    assert_eq!(resp.body, b"ok");
}

#[test]
fn register_returns_allocated_port_and_notifies_listener() {
    let mut r = registry();
    let mut l = CountingListener::default();
    let body = br#"{"user":"alice","service":"api"}"#;
    let resp = send(&req("POST", "/register", body), &mut r, &mut l);
    assert_eq!(resp.status, 200);
    assert_eq!(remote_port(&resp), 10_000);
    assert_eq!(l.calls, 1);
}

#[test]
fn register_is_idempotent_and_doesnt_double_notify() {
    let mut r = registry();
    let mut l = CountingListener::default();
    let body = br#"{"user":"alice","service":"api"}"#;
    let _ = send(&req("POST", "/register", body), &mut r, &mut l);
    // Second call: same key, listener still fires (cheap to do; nginx reload
    // is idempotent), but the port is the same.
    let resp = send(&req("POST", "/register", body), &mut r, &mut l);
    assert_eq!(remote_port(&resp), 10_000);
    assert_eq!(r.len(), 1);
}

#[test]
fn register_rejects_missing_fields() {
    let mut r = registry();
    let resp = send(
        &req("POST", "/register", br#"{"user":"alice"}"#),
        &mut r,
        &mut NoopListener,
    );
    assert_eq!(resp.status, 400);
}

#[test]
fn register_rejects_blank_fields() {
    let mut r = registry();
    let resp = send(
        &req("POST", "/register", br#"{"user":"   ","service":"api"}"#),
        &mut r,
        &mut NoopListener,
    );
    assert_eq!(resp.status, 400);
}

#[test]
fn register_returns_503_when_pool_exhausted() {
    let mut r = registry();
    for i in 0..3 {
        let body = format!(r#"{{"user":"u{i}","service":"api"}}"#);
        let resp = send(
            &req("POST", "/register", body.as_bytes()),
            &mut r,
            &mut NoopListener,
        );
        assert_eq!(resp.status, 200, "iter {i}");
    }
    let resp = send(
        &req("POST", "/register", br#"{"user":"overflow","service":"api"}"#),
        &mut r,
        &mut NoopListener,
    );
    assert_eq!(resp.status, 503);
}

#[test]
fn deregister_removes_entry_and_notifies() {
    let mut r = registry();
    let mut l = CountingListener::default();
    send(
        &req("POST", "/register", br#"{"user":"alice","service":"api"}"#),
        &mut r,
        &mut l,
    );
    let resp = send(
        &req("POST", "/deregister", br#"{"user":"alice","service":"api"}"#),
        &mut r,
        &mut l,
    );
    assert_eq!(resp.status, 200);
    assert!(r.is_empty());
    assert_eq!(l.calls, 2);
}

#[test]
fn deregister_is_silent_when_absent_no_listener_call() {
    let mut r = registry();
    let mut l = CountingListener::default();
    let resp = send(
        &req("POST", "/deregister", br#"{"user":"ghost","service":"api"}"#),
        &mut r,
        &mut l,
    );
    assert_eq!(resp.status, 200);
    assert_eq!(l.calls, 0);
}

#[test]
fn deregister_rejects_invalid_json() {
    let mut r = registry();
    let resp = send(
        &req("POST", "/deregister", b"not json"),
        &mut r,
        &mut NoopListener,
    );
    assert_eq!(resp.status, 400);
}

#[test]
fn snapshot_returns_active_entries() {
    let mut r = registry();
    send(
        &req("POST", "/register", br#"{"user":"alice","service":"api"}"#),
        &mut r,
        &mut NoopListener,
    );
    let resp = send(&req("GET", "/snapshot", b""), &mut r, &mut NoopListener);
    assert_eq!(resp.status, 200);
    let parsed: serde_json::Value = serde_json::from_slice(&resp.body).unwrap();
    assert_eq!(parsed.as_array().unwrap().len(), 1);
    assert_eq!(parsed[0]["user"], "alice");
    assert_eq!(parsed[0]["service"], "api");
    assert_eq!(parsed[0]["remote_port"], 10_000);
}

#[test]
fn unknown_route_returns_404() {
    let mut r = registry();
    let resp = send(&req("GET", "/nope", b""), &mut r, &mut NoopListener);
    assert_eq!(resp.status, 404);
}

#[test]
fn a_route_is_method_and_path_together() {
    let mut r = registry();
    for (method, path) in [
        ("POST", "/healthz"),
        ("GET", "/register"),
        ("get", "/healthz"),
        ("POST", "/snapshot"),
        ("GET", "/healthz/"),
    ] {
        let resp = send(&req(method, path, b"{}"), &mut r, &mut NoopListener);
        assert_eq!(resp.status, 404, "{method} {path}");
        assert_eq!(resp.body, br#"{"error":"no such route"}"#);
        assert_eq!(resp.reason, "Not Found");
        assert_eq!(resp.content_type, "application/json");
    }
}

#[test]
fn refusals_say_what_is_wrong_and_change_nothing() {
    let mut r = Registry::with_range(PortRange { start: 7, end: 7 });
    let mut l = CountingListener::default();
    let blank = RegisterRequest {
        user: "alice".into(),
        service: " \t\u{3000}".into(),
    };
    let resp = handle_register(Ok(blank), &mut r, &mut l);
    assert_eq!(resp.status, 400);
    assert_eq!(resp.body, br#"{"error":"user and service must be non-empty"}"#);

    let resp = handle_register(Err("bad \"quote\"".into()), &mut r, &mut l);
    assert_eq!(resp.status, 400);
    assert_eq!(resp.reason, "Bad Request");
    assert_eq!(resp.body, br#"{"error":"bad \"quote\""}"#);

    let resp = handle_deregister(Err("nope".into()), &mut r, &mut l);
    assert_eq!(resp.body, br#"{"error":"nope"}"#);
    assert_eq!(l.calls, 0);
    assert!(r.is_empty());

    r.register(&Key::new("a", "x")).unwrap();
    let full = RegisterRequest {
        user: "b".into(),
        service: "x".into(),
    };
    let before = r.clone();
    let resp = handle_register(Ok(full), &mut r, &mut l);
    assert_eq!(resp.status, 503);
    assert_eq!(
        resp.body,
        br#"{"error":"port range 7..=7 exhausted (1 active sessions)"}"#
    );
    assert_eq!(r, before);
    assert_eq!(l.calls, 0);
}

#[test]
fn deregistration_undoes_registration() {
    let mut r = registry();
    r.register(&Key::new("bob", "web")).unwrap();
    let before = r.clone();
    let pair = br#"{"user":"alice","service":"api"}"#;
    let first = send(&req("POST", "/register", pair), &mut r, &mut NoopListener);
    let again = send(&req("POST", "/register", pair), &mut r, &mut NoopListener);
    assert_eq!(first.body, again.body);
    assert_eq!(first.body, br#"{"remote_port":10001}"#);
    let gone = send(&req("POST", "/deregister", pair), &mut r, &mut NoopListener);
    assert_eq!(gone.body, b"{}");
    assert_eq!(r, before);
    let twice = send(&req("POST", "/deregister", pair), &mut r, &mut NoopListener);
    assert_eq!(twice, gone);
    assert_eq!(r, before);
}

#[test]
fn snapshot_lists_pairs_by_name_as_json() {
    let mut r = registry();
    assert_eq!(handle_snapshot(&r).body, b"[]");
    r.register(&Key::new("zoe", "a\"b")).unwrap();
    r.register(&Key::new("amy", "api")).unwrap();
    assert_eq!(
        handle_snapshot(&r).body,
        br#"[{"user":"amy","service":"api","remote_port":10001},{"user":"zoe","service":"a\"b","remote_port":10000}]"#
    );
}
