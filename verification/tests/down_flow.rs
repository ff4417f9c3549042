use ephemwork::bastion_client::BastionEndpoint;
use ephemwork::commands::session_for;
use ephemwork::common::DeregisterRequest;
use ephemwork::down_flow::{DownAction, DownEvent, DownFlow, DownStage};
use ephemwork::state::State;

fn recorded() -> State {
    State {
        sessions: vec![
            session_for("alice", "api", 1, 10_000, None, vec![]),
            session_for("bob", "api", 2, 10_001, None, vec![]),
            session_for("alice", "web", 3, 10_002, None, vec![]),
        ],
    }
}

fn start(service: Option<&str>) -> DownFlow {
    DownFlow::start(
        "alice",
        service.map(|s| s.to_string()),
        "us-east-1",
        "ephemwork-demo-bastion",
        &recorded(),
    )
}

fn run(mut flow: DownFlow, events: Vec<DownEvent>) -> DownFlow {
    for e in events {
        assert!(flow.accepts(&e), "{:?} at {:?}", e, flow.stage());
        flow = flow.advance(e);
    }
    flow
}

fn deregistration(service: &str) -> DownAction {
    DownAction::Deregister {
        endpoint: BastionEndpoint::new("127.0.0.1", 40_000),
        request: DeregisterRequest {
            user: "alice".into(),
            service: service.into(),
        },
    }
}

#[test]
fn every_session_has_its_turn_and_then_the_state_is_cleared() {
    let flow = start(None);
    assert_eq!(flow.action(), DownAction::CheckPlugin);
    let flow = run(flow, vec![DownEvent::Done]);
    assert_eq!(
        flow.action(),
        DownAction::LocateBastion {
            region: "us-east-1".into(),
            name: "ephemwork-demo-bastion".into()
        }
    );
    let flow = run(flow, vec![DownEvent::Instance(Some("i-1".into()))]);
    match flow.action() {
        DownAction::OpenPortForward { spec } => {
            assert_eq!((spec.target.as_str(), spec.remote_port), ("i-1", 8443))
        }
        other => panic!("expected OpenPortForward, got {other:?}"),
    }
    let flow = run(flow, vec![DownEvent::Port(40_000)]);
    assert_eq!(
        flow.action(),
        DownAction::ReachPort {
            port: 40_000,
            timeout_secs: 10
        }
    );
    let flow = run(flow, vec![DownEvent::Done]);
    assert_eq!(flow.action(), deregistration("api"));
    // The second is told of though the first could not be.
    let flow = run(flow, vec![DownEvent::Failed("refused".into())]);
    assert_eq!(flow.action(), deregistration("web"));
    let flow = run(flow, vec![DownEvent::Done]);
    assert_eq!(flow.action(), DownAction::LoadState);
    let flow = run(flow, vec![DownEvent::Sessions(recorded())]);
    match flow.action() {
        DownAction::SaveState { state } => {
            assert_eq!(state.sessions.len(), 1);
            assert_eq!(state.sessions[0].user, "bob");
        }
        other => panic!("expected SaveState, got {other:?}"),
    }
    let flow = run(flow, vec![DownEvent::Done]);
    assert_eq!(flow.action(), DownAction::Finish);
    let removed = flow.removed();
    let services: Vec<&str> = removed.iter().map(|s| s.service.as_str()).collect();
    assert_eq!(services, vec!["api", "web"]);
}

#[test]
fn the_state_is_cleared_whatever_the_bastion_does() {
    let failed = || DownEvent::Failed("why".into());
    let located = || DownEvent::Instance(Some("i-1".into()));
    let ways = vec![
        vec![failed()],
        vec![DownEvent::Done, failed()],
        vec![DownEvent::Done, DownEvent::Instance(None)],
        vec![DownEvent::Done, located(), failed()],
        vec![DownEvent::Done, located(), DownEvent::Port(1), failed()],
        vec![
            DownEvent::Done,
            located(),
            DownEvent::Port(1),
            DownEvent::Done,
            failed(),
        ],
    ];
    for way in ways {
        let flow = run(start(Some("web")), way);
        assert_eq!(flow.stage(), DownStage::LoadState);
        let flow = run(
            flow,
            vec![DownEvent::Sessions(recorded()), DownEvent::Done],
        );
        assert_eq!(flow.removed().len(), 1);
    }
}

#[test]
fn a_state_file_that_fails_fails_the_flow() {
    let flow = run(
        start(None),
        vec![
            DownEvent::Failed("no plugin".into()),
            DownEvent::Failed("reading state file".into()),
        ],
    );
    assert_eq!(
        flow.action(),
        DownAction::Abort {
            message: "reading state file".into()
        }
    );
    assert!(!flow.accepts(&DownEvent::Done));
}

#[test]
fn nothing_to_tear_down_is_done_at_once() {
    let flow = start(Some("ghost"));
    assert_eq!(flow.stage(), DownStage::Done);
    assert!(flow.removed().is_empty());
}
