use ephemwork::aws_bastion_provisioner::VpcMismatch;
use ephemwork::bastion_client::{BastionEndpoint, ClientError};
use ephemwork::bastion_protocol::RegisterResponse;
use ephemwork::bastion_provisioner::{
    security_group_plan, BastionContext, LaunchPlan, PlanLogger, ProvisionError,
};
use ephemwork::commands::{
    check_forward_reuse, deregister_best_effort, down_candidates, down_forget, forget_sessions,
    forward_claim, header_value, locate_bastion, lookup_service, record_session,
    register_with_bastion, render_status, run_guarded_init, session_at, session_for, status,
    ActiveSession, CommandError, ForwardClaim, StatusOutput, UpOutcome, UpRequest, VpcCheck,
    DEFAULT_CONTROL_PLANE_PORT, DEFAULT_HEALTH_TIMEOUT_MS, DEFAULT_SSH_KEEPALIVE_SECS,
};
use ephemwork::config::{Config, ServiceConfig, TunnelConfig};
use ephemwork::files::{FileRead, LoadError};
use ephemwork::ssm::{ForwardFault, ForwardPortSpec};
use ephemwork::state::{Session, State, Timestamp};

/// A process that is there.
const OUR_PID: u32 = 4242;

fn cfg_with(services: &[(&str, u16)]) -> Config {
    let mut service = Vec::new();
    for (name, port) in services {
        service.push((
            (*name).into(),
            ServiceConfig {
                port: Some(*port),
                build_command: None,
                run_command: "x".into(),
                health_check_path: None,
                forward_ports: Vec::new(),
                bootstrap_command: None,
            },
        ));
    }
    Config {
        tunnel: TunnelConfig {
            kind: "ec2".into(),
            region: "us-east-1".into(),
            instance_type: "t4g.nano".into(),
            project_name: "demo".into(),
            expected_vpc_id: None,
        },
        service,
    }
}

#[test]
fn header_value_lowercases_user_and_keeps_service_case() {
    assert_eq!(header_value("Matheus", "API-v2"), "matheus:API-v2");
}

#[test]
fn commands_header_value_trims_whitespace() {
    assert_eq!(header_value("  alice ", "  api "), "alice:api");
}

#[test]
fn lookup_service_returns_match() {
    let cfg = cfg_with(&[("api", 8000), ("worker", 9000)]);
    let svc = lookup_service(&cfg, "api").unwrap();
    assert_eq!(svc.port, Some(8000));
}

#[test]
fn lookup_service_lists_known_names_on_miss() {
    let cfg = cfg_with(&[("api", 8000), ("worker", 9000)]);
    let err = lookup_service(&cfg, "frontend").unwrap_err().message();
    assert!(err.contains("frontend"), "got: {err}");
    assert!(err.contains("api"), "got: {err}");
    assert!(err.contains("worker"), "got: {err}");
}

#[test]
fn render_status_empty_message() {
    let out = StatusOutput {
        user: "matheus".into(),
        sessions: vec![],
    };
    let s = render_status(&out);
    assert!(s.contains("matheus"));
    assert!(s.to_lowercase().contains("no active"));
}

#[test]
fn render_status_lists_sessions() {
    let out = StatusOutput {
        user: "matheus".into(),
        sessions: vec![session_for("matheus", "api", 8000, 9001, Some(42), Vec::new())],
    };
    let s = render_status(&out);
    assert!(s.contains("api"));
    assert!(s.contains("8000"));
    assert!(s.contains("9001"));
    assert!(s.contains("42"));
}

#[test]
fn up_outcome_header_line_format() {
    let out = UpOutcome {
        user: "matheus".into(),
        service: "api".into(),
        local_port: 8000,
        remote_port: 9001,
        header_value: header_value("matheus", "api"),
    };
    assert_eq!(out.header_line(), "X-Ephemwork: matheus:api");
}

#[test]
fn up_request_pulls_fields_from_config_and_user() {
    let cfg = cfg_with(&[("api", 8000)]);
    let req = UpRequest::from_config(&cfg, "api", "matheus").unwrap();
    assert_eq!(req.user, "matheus");
    assert_eq!(req.service, "api");
    assert_eq!(req.region, "us-east-1");
    assert_eq!(req.local_service_port, Some(8000));
    assert_eq!(req.run_command, "x");
    assert_eq!(req.health_check_path, None);
    assert_eq!(req.ssh_username, UpRequest::DEFAULT_SSH_USERNAME);
    assert!(req.ssh_keepalive_secs >= 1);
    assert!(req.health_timeout_ms >= 1000);
    assert!(req.forward_ports.is_empty());
}

#[test]
fn up_request_propagates_forward_ports() {
    let mut cfg = cfg_with(&[("api", 8000)]);
    cfg.service[0].1.forward_ports =
        vec!["5432:rds.example.com:5432".into()];
    let req = UpRequest::from_config(&cfg, "api", "matheus").unwrap();
    assert_eq!(req.forward_ports, vec!["5432:rds.example.com:5432"]);
}

#[test]
fn up_request_propagates_bootstrap_command() {
    let mut cfg = cfg_with(&[("api", 8000)]);
    cfg.service[0].1.bootstrap_command =
        Some("./scripts/bootstrap.sh".into());
    let req = UpRequest::from_config(&cfg, "api", "matheus").unwrap();
    assert_eq!(req.bootstrap_command.as_deref(), Some("./scripts/bootstrap.sh"));
}

#[test]
fn up_request_no_bootstrap_command_by_default() {
    let cfg = cfg_with(&[("api", 8000)]);
    let req = UpRequest::from_config(&cfg, "api", "matheus").unwrap();
    assert!(req.bootstrap_command.is_none());
}

#[test]
fn up_request_propagates_some_port_for_http_service() {
    let cfg = cfg_with(&[("api", 8000)]);
    let req = UpRequest::from_config(&cfg, "api", "matheus").unwrap();
    assert_eq!(req.local_service_port, Some(8000));
}

#[test]
fn up_request_propagates_none_port_for_worker_service() {
    let mut cfg = cfg_with(&[("engine", 1234)]);
    // Simulate a worker service: omit the port. cfg_with requires a
    // u16, so reach in and clear it after construction.
    cfg.service[0].1.port = None;
    let req = UpRequest::from_config(&cfg, "engine", "matheus").unwrap();
    assert!(req.local_service_port.is_none());
}

#[test]
fn up_request_rejects_malformed_forward_port_at_build_time() {
    let mut cfg = cfg_with(&[("api", 8000)]);
    cfg.service[0].1.forward_ports = vec!["not-a-spec".into()];
    let err = UpRequest::from_config(&cfg, "api", "matheus")
        .unwrap_err()
        .message();
    assert!(err.contains("not-a-spec"), "got: {err}");
}

#[test]
fn up_request_errors_on_unknown_service() {
    let cfg = cfg_with(&[("api", 8000)]);
    let err = UpRequest::from_config(&cfg, "ghost", "matheus")
        .unwrap_err()
        .message();
    assert!(err.contains("ghost"), "got: {err}");
}

#[test]
fn active_session_header_format() {
    let sess = ActiveSession {
        user: "matheus".into(),
        service: "api".into(),
        local_port: Some(8000),
        remote_port: Some(9001),
        pid: 42,
        cp_endpoint: Some(BastionEndpoint::new("127.0.0.1", 5555)),
    };
    assert_eq!(sess.header_value(), "matheus:api");
    assert_eq!(sess.header_line(), "X-Ephemwork: matheus:api");
}

fn forward_spec(local: u16) -> ForwardPortSpec {
    ForwardPortSpec {
        local_port: local,
        remote_host: "rds.example.com".into(),
        remote_port: 5432,
    }
}

#[test]
fn check_forward_reuse_returns_false_when_no_owner() {
    let state = State::default();
    let reused = check_forward_reuse(&state, "alice", &forward_spec(5432), |pid| pid == OUR_PID).unwrap();
    assert!(!reused);
}

#[test]
fn check_forward_reuse_returns_true_when_live_sibling_owns_it() {
    let our_pid = OUR_PID;
    let mut state = State::default();
    state.upsert(session_for(
        "alice",
        "api",
        8000,
        10000,
        Some(our_pid),
        vec![5432],
    ));
    let reused = check_forward_reuse(&state, "alice", &forward_spec(5432), |pid| pid == OUR_PID).unwrap();
    assert!(reused);
}

#[test]
fn check_forward_reuse_errors_on_stale_dead_owner() {
    let mut state = State::default();
    state.upsert(session_for(
        "alice",
        "api",
        8000,
        10000,
        Some(u32::MAX - 1),
        vec![5432],
    ));
    let err = check_forward_reuse(&state, "alice", &forward_spec(5432), |pid| pid == OUR_PID)
        .unwrap_err()
        .message();
    assert!(err.contains("no longer running"), "got: {err}");
    assert!(err.contains("ephemwork down"), "got: {err}");
}

#[test]
fn check_forward_reuse_ignores_other_users() {
    let our_pid = OUR_PID;
    let mut state = State::default();
    // Bob owns 5432 — alice's lookup must NOT reuse it.
    state.upsert(session_for(
        "bob",
        "api",
        8000,
        10000,
        Some(our_pid),
        vec![5432],
    ));
    let reused = check_forward_reuse(&state, "alice", &forward_spec(5432), |pid| pid == OUR_PID).unwrap();
    assert!(!reused);
}

fn no_parse(_: &String) -> Result<State, String> {
    panic!("nothing to parse")
}

/// What recording in a file that holds the sessions comes to.
fn recorded(state: &State, session: Session) -> State {
    let text = state.to_json();
    record_session(
        "state.json",
        FileRead::Contents(text.clone()),
        session,
        |s: &String| {
            assert_eq!(*s, text);
            Ok(state.clone())
        },
    )
    .unwrap()
}

#[test]
fn record_then_forget_round_trips() {
    let s = session_for("matheus", "api", 8000, 9001, Some(42), Vec::new());
    let mut state = record_session("state.json", FileRead::NotFound, s.clone(), no_parse).unwrap();
    assert_eq!(state.sessions.len(), 1);

    let removed = forget_sessions(&mut state, |sess: &Session| {
        sess.user == "matheus" && sess.service == "api"
    });
    assert_eq!(removed.len(), 1);
    assert_eq!(removed[0].remote_port, 9001);
    assert_eq!(removed[0], s);
    assert!(state.sessions.is_empty());
}

#[test]
fn forget_sessions_filters_by_user() {
    let state = recorded(
        &State::default(),
        session_for("alice", "api", 1, 2, None, Vec::new()),
    );
    let mut state = recorded(&state, session_for("bob", "api", 3, 4, None, Vec::new()));
    let removed = forget_sessions(&mut state, |s: &Session| s.user == "alice");
    assert_eq!(removed.len(), 1);
    assert_eq!(removed[0].user, "alice");
    assert_eq!(state.sessions.len(), 1);
    assert_eq!(state.sessions[0].user, "bob");
}

#[test]
fn recording_reports_a_state_file_that_is_no_state() {
    let s = session_for("a", "b", 1, 2, None, Vec::new());
    let err = record_session("p", FileRead::Contents("x".into()), s.clone(), |_: &String| {
        Err("bad".to_string())
    })
    .unwrap_err();
    assert_eq!(
        err,
        LoadError::Parsing {
            what: "state file",
            path: "p".into(),
            cause: "bad".into()
        }
    );
    assert_eq!(err.message(), "parsing state file p");
    let err = record_session("p", FileRead::Failed("io".into()), s, no_parse).unwrap_err();
    assert_eq!(err.message(), "reading state file p");
}

fn at(user: &str, service: &str, local: u16) -> Session {
    let when = Timestamp::new(1_778_241_600, 0).unwrap();
    session_at(when, user, service, local, local + 1, None, vec![local])
}

#[test]
fn status_shows_the_users_own_sessions() {
    let state = State {
        sessions: vec![at("alice", "api", 1), at("bob", "api", 2), at("alice", "web", 3)],
    };
    let out = status("alice".into(), &state);
    assert_eq!(out.user, "alice");
    assert_eq!(out.sessions, vec![at("alice", "api", 1), at("alice", "web", 3)]);
}

#[test]
fn status_table_is_exact() {
    let out = StatusOutput {
        user: "a".into(),
        sessions: vec![at("a", "api", 8000)],
    };
    assert_eq!(
        render_status(&out),
        "active sessions for a:\n  api                  local:8000 -> bastion:8001  pid=?  since 2026-05-08T12:00:00+00:00"
    );
    let none = StatusOutput {
        user: "a".into(),
        sessions: vec![],
    };
    assert_eq!(render_status(&none), "no active ephemwork sessions for a");
}

#[test]
fn down_takes_the_named_service_or_all_of_the_users() {
    let state = State {
        sessions: vec![at("alice", "api", 1), at("bob", "api", 2), at("alice", "web", 3)],
    };
    let one = Some("web".to_string());
    assert_eq!(down_candidates(&state, "alice", &one), vec![at("alice", "web", 3)]);
    assert_eq!(
        down_candidates(&state, "alice", &None),
        vec![at("alice", "api", 1), at("alice", "web", 3)]
    );
    let mut left = state.clone();
    let removed = down_forget(&mut left, "alice", &None);
    assert_eq!(removed, vec![at("alice", "api", 1), at("alice", "web", 3)]);
    assert_eq!(left.sessions, vec![at("bob", "api", 2)]);
    let mut left = state.clone();
    assert!(down_forget(&mut left, "carol", &one).is_empty());
    assert_eq!(left, state);
}

#[test]
fn forward_claims_tell_owner_from_stale() {
    let session = |pid| State {
        sessions: vec![session_for("alice", "api", 1, 2, pid, vec![5432])],
    };
    assert_eq!(forward_claim(&session(Some(7)), "alice", 5433), ForwardClaim::Free);
    assert_eq!(
        forward_claim(&session(Some(7)), "alice", 5432),
        ForwardClaim::Owner {
            service: "api".into(),
            pid: 7
        }
    );
    assert_eq!(
        forward_claim(&session(None), "alice", 5432),
        ForwardClaim::Stale {
            service: "api".into(),
            pid: None
        }
    );
    assert_eq!(
        forward_claim(&session(Some(0)), "alice", 5432),
        ForwardClaim::Stale {
            service: "api".into(),
            pid: Some(0)
        }
    );
}

#[test]
fn registration_errors_say_what_was_tried() {
    let endpoint = BastionEndpoint::new("127.0.0.1", 1);
    let decode = |_: &Vec<u8>| {
        Ok(RegisterResponse {
            remote_port: 10_000,
        })
    };
    let port = register_with_bastion(
        &endpoint,
        "a",
        "b",
        |_: &BastionEndpoint, _: &Vec<u8>| Ok(b"HTTP/1.0 200 OK\r\n\r\n{}".to_vec()),
        decode,
    );
    assert_eq!(port, Ok(10_000));
    let err = register_with_bastion(
        &endpoint,
        "a",
        "b",
        |_: &BastionEndpoint, _: &Vec<u8>| Err("refused".to_string()),
        decode,
    )
    .unwrap_err();
    assert_eq!(
        err,
        CommandError::Registering(ClientError::Exchange("refused".into()))
    );
    assert_eq!(err.message(), "registering with bastion control plane");
}

#[test]
fn deregistration_failures_are_only_reported() {
    let endpoint = BastionEndpoint::new("127.0.0.1", 1);
    let gone = deregister_best_effort(
        &endpoint,
        "a",
        "b",
        |_: &BastionEndpoint, _: &Vec<u8>| Err("refused".to_string()),
    );
    assert_eq!(gone, Some(ClientError::Exchange("refused".into())));
    let fine = deregister_best_effort(
        &endpoint,
        "a",
        "b",
        |_: &BastionEndpoint, _: &Vec<u8>| Ok(b"HTTP/1.0 200 OK\r\n\r\n{}".to_vec()),
    );
    assert_eq!(fine, None);
}

#[test]
fn a_bastion_that_is_missing_is_named() {
    let ctx = BastionContext::new("demo");
    let err = locate_bastion(&mut PlanLogger::new(ctx.clone()), &ctx).unwrap_err();
    assert_eq!(
        err,
        CommandError::NoBastion {
            name: "ephemwork-demo-bastion".into()
        }
    );
    assert!(err.message().contains("ephemwork-demo-bastion"));
    let mut there = PlanLogger::new(ctx.clone());
    there.pretend_existing = true;
    assert_eq!(
        locate_bastion(&mut there, &ctx).unwrap().instance_id,
        "i-DRYRUN"
    );
}

#[test]
fn a_subnet_in_another_vpc_stops_everything() {
    let ctx = BastionContext::new("demo");
    let plan = security_group_plan(&ctx, "sg-alb").unwrap();
    let check = |actual: Result<String, ProvisionError>| {
        Some(VpcCheck {
            subnet_id: "subnet-1".into(),
            expected_vpc: "vpc-1".into(),
            actual_vpc: actual,
        })
    };
    let launch = |_: &String| -> Result<LaunchPlan, ProvisionError> {
        Err(ProvisionError::Outside("no plan".into()))
    };
    let mut p = PlanLogger::new(ctx.clone());
    let err = run_guarded_init(&mut p, &ctx, check(Ok("vpc-2".into())), &plan, launch).unwrap_err();
    assert_eq!(
        err,
        CommandError::Vpc(VpcMismatch {
            subnet_id: "subnet-1".into(),
            actual_vpc: "vpc-2".into(),
            expected_vpc: "vpc-1".into()
        })
    );
    assert!(p.log.is_empty());
    let lost = ProvisionError::Outside("subnet subnet-1 not found".into());
    let err = run_guarded_init(&mut p, &ctx, check(Err(lost.clone())), &plan, launch).unwrap_err();
    assert_eq!(err, CommandError::Provision(lost));
    assert!(p.log.is_empty());
    let err = run_guarded_init(&mut p, &ctx, check(Ok("vpc-1".into())), &plan, launch).unwrap_err();
    assert_eq!(
        err,
        CommandError::Provision(ProvisionError::Outside("no plan".into()))
    );
    assert_eq!(p.log.len(), 3);
}

#[test]
fn every_command_error_reads_as_a_sentence() {
    let unknown = lookup_service(&cfg_with(&[("b", 1), ("a", 2)]), "x").unwrap_err();
    assert_eq!(
        unknown,
        CommandError::UnknownService {
            service: "x".into(),
            known: "a, b".into()
        }
    );
    let mut cfg = cfg_with(&[("api", 8000)]);
    cfg.service[0].1.forward_ports = vec!["1:a:2".into(), "1:a:0".into()];
    match UpRequest::from_config(&cfg, "api", "u").unwrap_err() {
        CommandError::Forward(e) => {
            assert_eq!(e.raw, "1:a:0");
            assert_eq!(e.fault, ForwardFault::ZeroPort);
        }
        other => panic!("expected Forward, got {other:?}"),
    }
    let stale = CommandError::StaleForward {
        local_port: 5432,
        service: "api".into(),
        pid: Some(7),
    };
    assert!(stale.message().contains("5432"));
    assert_eq!(
        (
            DEFAULT_CONTROL_PLANE_PORT,
            DEFAULT_SSH_KEEPALIVE_SECS,
            DEFAULT_HEALTH_TIMEOUT_MS
        ),
        (8443, 30, 60_000)
    );
}

#[test]
fn capitals_of_the_user_make_no_difference_to_the_header() {
    for user in ["matheus", "Matheus", " MATHEUS\t"] {
        assert_eq!(header_value(user, "API-v2"), "matheus:API-v2");
    }
    assert_eq!(header_value("\u{c9}ric", "api"), "\u{e9}ric:api");
}
