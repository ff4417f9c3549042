use ephemwork::aws_bastion_provisioner::MissingEndpointIngress;
use ephemwork::bastion_provisioner::{DestroyOutcome, InitOutcome};
use ephemwork::commands::{session_for, ActiveSession};
use ephemwork::report::{
    render_destroy, render_destroy_plan, render_down, render_end, render_init, render_init_plan,
    render_up, EndpointCheck,
};

#[test]
fn a_session_that_is_up_shows_its_header() {
    let mut session = ActiveSession {
        user: "Matheus".into(),
        service: "api".into(),
        local_port: Some(8000),
        remote_port: Some(10_000),
        pid: 42,
        cp_endpoint: None,
    };
    let lines = render_up(&session);
    assert_eq!(
        lines,
        vec![
            "",
            "✓ api is live.",
            "  set this header on staging requests to route to your laptop:",
            "",
            "    X-Ephemwork: Matheus:api",
            "",
            "  pid=42  local:8000  bastion-port:10000",
            "",
            "Press Ctrl-C to stop.",
        ]
    );
    session.local_port = None;
    session.remote_port = None;
    assert_eq!(render_up(&session)[6], "  pid=42  local:-  bastion-port:-");
}

#[test]
fn the_end_says_why() {
    assert_eq!(render_end("api", false), "Shutting down…");
    assert_eq!(
        render_end("api", true),
        "✗ SSH reverse tunnel to the bastion died (network drop / bastion restart / suspend). Re-run `ephemwork up api` to reconnect."
    );
}

#[test]
fn down_lists_what_was_cleaned_up() {
    assert_eq!(render_down(&None, &vec![]), vec!["no active sessions"]);
    assert_eq!(
        render_down(&Some("api".into()), &vec![]),
        vec!["no active session named api"]
    );
    let removed = vec![
        session_for("a", "api", 1, 10_000, None, vec![]),
        session_for("a", "web", 1, 0, None, vec![]),
    ];
    assert_eq!(
        render_down(&None, &removed),
        vec![
            "cleaned up api (was bastion-port 10000)",
            "cleaned up web (was bastion-port 0)"
        ]
    );
}

fn outcome(reused: bool) -> InitOutcome {
    InitOutcome {
        security_group_id: "sg-1".into(),
        instance_id: "i-1".into(),
        reused,
    }
}

#[test]
fn init_reports_instance_check_and_what_is_next() {
    assert_eq!(
        render_init(&outcome(true), &EndpointCheck::Missing(vec![]), None),
        vec![
            "bastion already provisioned: instance=i-1 security_group=sg-1",
            "VPC endpoint SGs already allow the bastion. ✓",
        ]
    );
    assert_eq!(
        render_init(&outcome(false), &EndpointCheck::Skipped, None),
        vec![
            "bastion provisioned: instance=i-1 security_group=sg-1",
            "(skipping VPC endpoint SG check; set tunnel.expected_vpc_id in ephemwork.toml to enable.)",
            "",
            "next: add the ALB listener rules documented in README.md, then `ephemwork up <service>`.",
        ]
    );
    assert_eq!(
        render_init(&outcome(true), &EndpointCheck::Failed, None).len(),
        1
    );
    let m = MissingEndpointIngress {
        endpoint_sg_id: "sg-e".into(),
        endpoint_service: "ssm".into(),
        port: 443,
    };
    let fix = m.fix_command("sg-1", Some("p")).replace('\n', "\n  ");
    let lines = render_init(&outcome(true), &EndpointCheck::Missing(vec![m]), Some("p"));
    assert!(lines[2].starts_with("⚠  1 VPC interface endpoint"));
    assert_eq!(lines[4], "  # ssm");
    assert_eq!(lines[5], format!("  {fix}"));
}

#[test]
fn destroy_names_the_instance() {
    let none = DestroyOutcome {
        instance_id: None,
        security_group_id: None,
    };
    assert_eq!(
        render_destroy(&none),
        "nothing to do (no bastion instance found)."
    );
    let one = DestroyOutcome {
        instance_id: Some("i-1".into()),
        security_group_id: None,
    };
    assert_eq!(
        render_destroy(&one),
        "terminated i-1; security group + IAM role removed."
    );
}

#[test]
fn a_dry_run_lists_its_steps() {
    let log: Vec<String> = vec!["look up instance".into(), "create".into()];
    assert_eq!(
        render_init_plan(&log),
        vec![
            "Dry run (no AWS calls). Re-run with --live to provision.",
            "  look up instance",
            "  create"
        ]
    );
    let gone = DestroyOutcome {
        instance_id: Some("i-1".into()),
        security_group_id: None,
    };
    assert_eq!(
        render_destroy_plan(&log, &gone)[3],
        "  (would terminate i-1)"
    );
    let none = DestroyOutcome {
        instance_id: None,
        security_group_id: None,
    };
    assert_eq!(
        render_destroy_plan(&vec![], &none),
        vec!["Dry run (no AWS calls). Re-run with --live to delete."]
    );
}
