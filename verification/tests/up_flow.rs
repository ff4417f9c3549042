use ephemwork::bastion_client::BastionEndpoint;
use ephemwork::commands::{session_for, UpRequest};
use ephemwork::common::{routing_header_value, RegisterRequest};
use ephemwork::ssm::{PortForwardSpec, RemoteHostForwardSpec};
use ephemwork::state::State;
use ephemwork::tunnel::{SshAuth, SshConfig};
use ephemwork::up_flow::{Stage, UpAction, UpEvent, UpFlow};

fn request(port: Option<u16>, forwards: &[&str]) -> UpRequest {
    UpRequest {
        user: "matheus".into(),
        service: "api".into(),
        region: "us-east-1".into(),
        local_service_port: port,
        run_command: "run me".into(),
        health_check_path: None,
        ssh_username: UpRequest::DEFAULT_SSH_USERNAME.into(),
        ssh_keepalive_secs: 30,
        health_timeout_ms: 60_000,
        forward_ports: forwards.iter().map(|f| f.to_string()).collect(),
        bootstrap_command: None,
    }
}

fn start(req: UpRequest) -> UpFlow {
    UpFlow::start(req, "ephemwork-demo-bastion")
}

fn step(flow: UpFlow, event: UpEvent) -> UpFlow {
    assert!(flow.accepts(&event), "{:?} at {:?}", event, flow.stage());
    flow.advance(event)
}

fn run(mut flow: UpFlow, events: Vec<UpEvent>) -> UpFlow {
    for e in events {
        flow = step(flow, e);
    }
    flow
}

fn message(flow: &UpFlow) -> String {
    match flow.action() {
        UpAction::Abort { message } => message,
        other => panic!("expected Abort, got {other:?}"),
    }
}

/// The events of a service up to the point where its forwards are due.
fn until_state() -> Vec<UpEvent> {
    vec![
        UpEvent::Done,
        UpEvent::Done,
        UpEvent::Instance(Some("i-1".into())),
        UpEvent::Port(40_000),
        UpEvent::Done,
        UpEvent::Port(10_000),
        UpEvent::Port(40_001),
        UpEvent::Done,
    ]
}

#[test]
fn a_service_comes_up_in_order() {
    let mut req = request(Some(8000), &["5432:rds:5433"]);
    req.bootstrap_command = Some("prepare".into());
    req.health_check_path = Some("/health".into());
    let mut flow = start(req);
    let forward = |port| PortForwardSpec {
        target: "i-1".into(),
        remote_port: port,
        region: "us-east-1".into(),
    };
    let script: Vec<(UpAction, UpEvent)> = vec![
        (UpAction::CheckPlugin, UpEvent::Done),
        (UpAction::CheckPortFree { port: 8000 }, UpEvent::Done),
        (
            UpAction::RunBootstrap {
                command: "prepare".into(),
            },
            UpEvent::Done,
        ),
        (
            UpAction::LocateBastion {
                region: "us-east-1".into(),
                name: "ephemwork-demo-bastion".into(),
            },
            UpEvent::Instance(Some("i-1".into())),
        ),
        (
            UpAction::OpenPortForward { spec: forward(8443) },
            UpEvent::Port(40_000),
        ),
        (
            UpAction::ReachPort {
                port: 40_000,
                timeout_secs: 15,
            },
            UpEvent::Done,
        ),
        (
            UpAction::Register {
                endpoint: BastionEndpoint::new("127.0.0.1", 40_000),
                request: RegisterRequest {
                    user: "matheus".into(),
                    service: "api".into(),
                },
            },
            UpEvent::Port(10_000),
        ),
        (
            UpAction::OpenPortForward { spec: forward(22) },
            UpEvent::Port(40_001),
        ),
        (
            UpAction::ReachPort {
                port: 40_001,
                timeout_secs: 15,
            },
            UpEvent::Done,
        ),
        (UpAction::LoadState, UpEvent::Sessions(State::default())),
        (
            UpAction::OpenRemoteForward {
                spec: RemoteHostForwardSpec {
                    target: "i-1".into(),
                    remote_host: "rds".into(),
                    remote_port: 5433,
                    local_port: 5432,
                    region: "us-east-1".into(),
                },
            },
            UpEvent::Done,
        ),
        (
            UpAction::ReachPort {
                port: 5432,
                timeout_secs: 15,
            },
            UpEvent::Done,
        ),
        (
            UpAction::SpawnService {
                command: "run me".into(),
            },
            UpEvent::Pid(77),
        ),
        (
            UpAction::AwaitHealth {
                port: 8000,
                path: "/health".into(),
                timeout_ms: 60_000,
                poll_interval_ms: 250,
            },
            UpEvent::Done,
        ),
        (
            UpAction::OpenReverse {
                config: SshConfig {
                    host: "127.0.0.1".into(),
                    port: 40_001,
                    username: "ec2-user".into(),
                    auth: SshAuth::Agent,
                    keepalive_secs: 30,
                },
                local_port: 8000,
                remote_port: 10_000,
            },
            UpEvent::Done,
        ),
        (
            UpAction::RecordSession {
                user: "matheus".into(),
                service: "api".into(),
                local_port: 8000,
                remote_port: 10_000,
                pid: 77,
                forward_local_ports: vec![5432],
            },
            UpEvent::Done,
        ),
    ];
    for (action, event) in script {
        assert_eq!(flow.action(), action);
        flow = step(flow, event);
    }
    assert_eq!(flow.action(), UpAction::Finish);
    assert!(!flow.accepts(&UpEvent::Done));
    let session = flow.session();
    assert_eq!(session.local_port, Some(8000));
    assert_eq!(session.remote_port, Some(10_000));
    assert_eq!(session.pid, 77);
    assert_eq!(
        session.cp_endpoint,
        Some(BastionEndpoint::new("127.0.0.1", 40_000))
    );
    assert_eq!(session.header_line(), "X-Ephemwork: matheus:api");
}

#[test]
fn a_worker_without_forwards_is_a_local_spawn() {
    let mut req = request(None, &[]);
    req.bootstrap_command = Some("prepare".into());
    req.health_check_path = Some("/ignored".into());
    let flow = start(req);
    assert_eq!(flow.stage(), Stage::Bootstrap);
    let flow = step(flow, UpEvent::Done);
    assert_eq!(flow.stage(), Stage::Spawn);
    let flow = step(flow, UpEvent::Pid(5));
    assert_eq!(
        flow.action(),
        UpAction::RecordSession {
            user: "matheus".into(),
            service: "api".into(),
            local_port: 0,
            remote_port: 0,
            pid: 5,
            forward_local_ports: vec![],
        }
    );
    let session = step(flow, UpEvent::Done).session();
    assert_eq!(
        (session.local_port, session.remote_port, session.cp_endpoint),
        (None, None, None)
    );
}

#[test]
fn a_worker_aborts_when_its_bootstrap_fails() {
    let mut req = request(None, &[]);
    req.bootstrap_command = Some("exit 7".into());
    let flow = step(start(req), UpEvent::Failed("exit status: 7".into()));
    assert_eq!(flow.stage(), Stage::Failed);
    assert_eq!(message(&flow), "bootstrap_command");
}

#[test]
fn a_worker_with_forwards_uses_the_bastion_but_never_routes() {
    let flow = start(request(None, &["5432:rds:5432"]));
    let flow = run(
        flow,
        vec![UpEvent::Done, UpEvent::Instance(Some("i-1".into()))],
    );
    assert_eq!(flow.stage(), Stage::LoadState);
    let flow = step(flow, UpEvent::Sessions(State::default()));
    assert_eq!(flow.action(), UpAction::CheckPortFree { port: 5432 });
    let taken = run(
        start(request(None, &["5432:rds:5432"])),
        vec![
            UpEvent::Done,
            UpEvent::Instance(Some("i-1".into())),
            UpEvent::Sessions(State::default()),
            UpEvent::Failed("in use".into()),
        ],
    );
    assert_eq!(
        message(&taken),
        "forward 5432:rds:5432: local port in use by an unknown process (no sibling ephemwork session owns it)"
    );
    let flow = run(
        flow,
        vec![UpEvent::Done, UpEvent::Done, UpEvent::Done, UpEvent::Pid(6)],
    );
    assert_eq!(flow.stage(), Stage::Record);
}

fn claimed(pid: Option<u32>) -> State {
    State {
        sessions: vec![session_for("matheus", "web", 1, 2, pid, vec![5432])],
    }
}

#[test]
fn a_forward_of_a_live_sibling_is_shared() {
    let mut events = until_state();
    events.push(UpEvent::Sessions(claimed(Some(99))));
    let flow = run(
        start(request(Some(8000), &["5432:rds:5432", "6379:redis:6379"])),
        events,
    );
    assert_eq!(flow.action(), UpAction::ProbePid { pid: 99 });
    let flow = step(flow, UpEvent::Alive(true));
    assert_eq!(flow.stage(), Stage::OpenForward);
    let flow = run(
        flow,
        vec![UpEvent::Done, UpEvent::Done, UpEvent::Pid(7), UpEvent::Done],
    );
    match flow.action() {
        UpAction::RecordSession {
            forward_local_ports,
            ..
        } => assert_eq!(forward_local_ports, vec![6379]),
        other => panic!("expected RecordSession, got {other:?}"),
    }
}

#[test]
fn a_forward_of_a_dead_sibling_is_refused() {
    let mut events = until_state();
    events.push(UpEvent::Sessions(claimed(Some(99))));
    events.push(UpEvent::Alive(false));
    let flow = run(start(request(Some(8000), &["5432:rds:5432"])), events);
    assert_eq!(
        message(&flow),
        "local port 5432 is recorded as owned by sibling session \"web\" (pid Some(99)), but that process is no longer running. Run `ephemwork down web` to clear the stale entry, then retry."
    );
    for pid in [None, Some(0)] {
        let mut events = until_state();
        events.push(UpEvent::Sessions(claimed(pid)));
        let flow = run(start(request(Some(8000), &["5432:rds:5432"])), events);
        assert!(message(&flow).contains(&format!("(pid {pid:?})")));
    }
}

#[test]
fn every_failure_names_its_step() {
    let all = until_state();
    let texts = [
        "session-manager-plugin pre-flight",
        "local port for service \"api\"",
        "why",
        "opening SSM port-forward to bastion control plane",
        "control-plane SSM port-forward never became reachable",
        "registering with bastion control plane",
        "opening SSM port-forward to bastion SSH",
        "SSH SSM port-forward never became reachable",
    ];
    for n in 0..all.len() {
        let mut events = until_state();
        events.truncate(n);
        events.push(UpEvent::Failed("why".into()));
        let flow = run(start(request(Some(8000), &[])), events);
        assert_eq!(message(&flow), texts[n], "{n}");
    }
    let mut later = until_state();
    later.push(UpEvent::Sessions(State::default()));
    let mut req = request(Some(8000), &["5432:rds:1"]);
    req.health_check_path = Some("/h".into());
    req.health_timeout_ms = 1_500;
    let flow = run(start(req.clone()), later);
    let opened = step(flow, UpEvent::Done);
    assert_eq!(
        message(&step(opened, UpEvent::Failed("x".into()))),
        "forward 5432:rds:1 never became reachable"
    );
    let mut events = until_state();
    events.push(UpEvent::Sessions(State::default()));
    events.push(UpEvent::Failed("x".into()));
    assert_eq!(
        message(&run(start(req.clone()), events)),
        "opening forward 5432:rds:1"
    );
    let mut events = until_state();
    events.extend([
        UpEvent::Sessions(State::default()),
        UpEvent::Done,
        UpEvent::Done,
        UpEvent::Pid(1),
        UpEvent::Failed("x".into()),
    ]);
    assert_eq!(
        message(&run(start(req), events)),
        "service \"api\" never returned 2xx on /h within 1.5s"
    );
}

#[test]
fn a_missing_bastion_and_a_bad_forward_end_the_flow() {
    let flow = run(
        start(request(Some(8000), &[])),
        vec![UpEvent::Done, UpEvent::Done, UpEvent::Instance(None)],
    );
    assert_eq!(
        message(&flow),
        "no bastion found (no instance tagged Name=ephemwork-demo-bastion). Run `ephemwork bastion init --live ...` to provision one."
    );
    let mut events = until_state();
    events.push(UpEvent::Sessions(State::default()));
    let flow = run(start(request(Some(8000), &["nope"])), events);
    assert!(message(&flow).contains("\"nope\""));
}

#[test]
fn events_out_of_place_are_not_accepted() {
    let flow = start(request(Some(8000), &[]));
    assert!(!flow.accepts(&UpEvent::Port(1)));
    assert!(!flow.accepts(&UpEvent::Alive(true)));
    assert!(!flow.accepts(&UpEvent::Instance(None)));
    assert!(flow.accepts(&UpEvent::Failed("x".into())));
}

/// A service with two forwards, up to the end.
fn come_up(user: &str, port: u16, pid: u32) -> UpFlow {
    let mut req = request(Some(8000), &["5432:rds:5433", "6379:redis:6379"]);
    req.user = user.into();
    let mut events = until_state();
    events[5] = UpEvent::Port(port);
    events.push(UpEvent::Sessions(State::default()));
    for _ in 0..4 {
        events.push(UpEvent::Done);
    }
    events.push(UpEvent::Pid(pid));
    events.push(UpEvent::Done);
    run(start(req), events)
}

#[test]
fn the_record_is_what_came_about() {
    for (port, pid) in [(10_007, 1), (19_999, 4_000_000)] {
        match come_up("matheus", port, pid).action() {
            UpAction::RecordSession {
                remote_port,
                pid: recorded,
                forward_local_ports,
                ..
            } => {
                assert_eq!(remote_port, port);
                assert_eq!(recorded, pid);
                assert_eq!(forward_local_ports, vec![5432, 6379]);
            }
            other => panic!("expected RecordSession, got {other:?}"),
        }
    }
}

#[test]
fn the_printed_header_is_the_one_that_is_routed() {
    let session = |user: &str| step(come_up(user, 10_000, 1), UpEvent::Done).session();
    assert_eq!(session("matheus").header_value(), "matheus:api");
    assert_eq!(routing_header_value("matheus", "api"), "matheus:api");
    // A user with capitals is routed in lower case.
    assert_eq!(session("Matheus").header_value(), "Matheus:api");
    assert_eq!(routing_header_value("Matheus", "api"), "matheus:api");
}
