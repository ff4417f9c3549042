use ephemwork::ssm::{
    build_remote_host_session_args, build_start_session_args, parse_forward_port_spec,
    ForwardFault, PortForwardSpec, RemoteHostForwardSpec,
};

fn spec() -> PortForwardSpec {
    PortForwardSpec {
        target: "i-0123456789abcdef0".into(),
        remote_port: 22,
        region: "us-east-1".into(),
    }
}

#[test]
fn build_args_includes_target_region_and_ports() {
    let args = build_start_session_args(&spec(), 54321);
    // Spot-check ordering and presence; the exact slice should be stable.
    assert_eq!(args[0], "ssm");
    assert_eq!(args[1], "start-session");
    let region_idx = args.iter().position(|s| s == "--region").unwrap();
    assert_eq!(args[region_idx + 1], "us-east-1");
    let target_idx = args.iter().position(|s| s == "--target").unwrap();
    assert_eq!(args[target_idx + 1], "i-0123456789abcdef0");
    let doc_idx = args.iter().position(|s| s == "--document-name").unwrap();
    assert_eq!(args[doc_idx + 1], "AWS-StartPortForwardingSession");
    let params = args.iter().find(|s| s.contains("portNumber")).unwrap();
    assert!(
        params.contains("portNumber=[\"22\"]") && params.contains("localPortNumber=[\"54321\"]"),
        "params encoding wrong: {params}"
    );
}

#[test]
fn build_args_propagates_alternate_region() {
    let mut s = spec();
    s.region = "sa-east-1".into();
    let args = build_start_session_args(&s, 1);
    let region_idx = args.iter().position(|s| s == "--region").unwrap();
    assert_eq!(args[region_idx + 1], "sa-east-1");
}

fn remote_spec() -> RemoteHostForwardSpec {
    RemoteHostForwardSpec {
        target: "i-bastion".into(),
        remote_host: "staging-rds.cluster-xxx.us-east-1.rds.amazonaws.com".into(),
        remote_port: 5432,
        local_port: 5432,
        region: "us-east-1".into(),
    }
}

#[test]
fn build_remote_host_args_uses_to_remote_host_document() {
    let args = build_remote_host_session_args(&remote_spec());
    let doc_idx = args.iter().position(|s| s == "--document-name").unwrap();
    assert_eq!(args[doc_idx + 1], "AWS-StartPortForwardingSessionToRemoteHost");
    let target_idx = args.iter().position(|s| s == "--target").unwrap();
    assert_eq!(args[target_idx + 1], "i-bastion");
    let params = args.iter().find(|s| s.contains("host=")).unwrap();
    assert!(params.contains("host=[\"staging-rds.cluster-xxx.us-east-1.rds.amazonaws.com\"]"), "got: {params}");
    assert!(params.contains("portNumber=[\"5432\"]"), "got: {params}");
    assert!(params.contains("localPortNumber=[\"5432\"]"), "got: {params}");
}

#[test]
fn parse_forward_port_spec_round_trips_a_typical_value() {
    let s = parse_forward_port_spec("5432:rds.example.com:5432").unwrap();
    assert_eq!(s.local_port, 5432);
    assert_eq!(s.remote_host, "rds.example.com");
    assert_eq!(s.remote_port, 5432);
}

#[test]
fn parse_forward_port_spec_supports_distinct_local_remote_ports() {
    let s = parse_forward_port_spec("15432:rds.example.com:5432").unwrap();
    assert_eq!(s.local_port, 15432);
    assert_eq!(s.remote_port, 5432);
}

#[test]
fn parse_forward_port_spec_rejects_too_few_parts() {
    let err = parse_forward_port_spec("5432:rds").unwrap_err().message();
    assert!(err.contains("3 parts"), "got: {err}");
}

#[test]
fn parse_forward_port_spec_rejects_empty_host() {
    assert!(parse_forward_port_spec("5432::5432").is_err());
}

#[test]
fn parse_forward_port_spec_rejects_zero_port() {
    assert!(parse_forward_port_spec("0:rds:5432").is_err());
    assert!(parse_forward_port_spec("5432:rds:0").is_err());
}

#[test]
fn parse_forward_port_spec_rejects_garbage_port() {
    assert!(parse_forward_port_spec("abc:rds:5432").is_err());
}

#[test]
fn session_args_are_exact() {
    assert_eq!(
        build_start_session_args(&spec(), 54321),
        vec![
            "ssm",
            "start-session",
            "--region",
            "us-east-1",
            "--target",
            "i-0123456789abcdef0",
            "--document-name",
            "AWS-StartPortForwardingSession",
            "--parameters",
            "portNumber=[\"22\"],localPortNumber=[\"54321\"]",
        ]
    );
    let mut remote = remote_spec();
    remote.remote_host = "h".into();
    remote.local_port = 1;
    assert_eq!(
        build_remote_host_session_args(&remote)[9],
        "host=[\"h\"],portNumber=[\"5432\"],localPortNumber=[\"1\"]"
    );
}

#[test]
fn forward_faults_are_told_apart() {
    let fault = |raw: &str| parse_forward_port_spec(raw).unwrap_err().fault;
    assert_eq!(fault("1:a:2:3"), ForwardFault::NotThreeParts);
    assert_eq!(fault(""), ForwardFault::NotThreeParts);
    assert_eq!(fault("65536:a:2"), ForwardFault::LocalPort);
    assert_eq!(fault(":a:2"), ForwardFault::LocalPort);
    assert_eq!(fault("1:a:-2"), ForwardFault::RemotePort);
    assert_eq!(fault("1::2"), ForwardFault::EmptyHost);
    assert_eq!(fault("0:a:2"), ForwardFault::ZeroPort);
    assert_eq!(fault("1:a:0"), ForwardFault::ZeroPort);
    // The error shows the text as it was written.
    let e = parse_forward_port_spec("a\"b").unwrap_err();
    assert!(e.message().contains(r#""a\"b""#), "got: {}", e.message());
}

#[test]
fn numbers_are_read_as_rust_reads_them() {
    assert_eq!(parse_forward_port_spec("+1:a:65535").unwrap().local_port, 1);
    assert_eq!(parse_forward_port_spec("007:a:65535").unwrap().local_port, 7);
    for bad in ["+", " 1", "1 ", "1_0", "0x1", "\u{661}"] {
        assert!(bad.parse::<u16>().is_err());
        assert_eq!(
            parse_forward_port_spec(&format!("{bad}:a:1")).unwrap_err().fault,
            ForwardFault::LocalPort,
            "{bad:?}"
        );
    }
}

#[test]
fn a_written_forward_reads_back() {
    for (local, host, remote) in [(1u16, "a", 65535u16), (65535, "rds é.x", 10)] {
        let spec = parse_forward_port_spec(&format!("{local}:{host}:{remote}")).unwrap();
        assert_eq!(
            (spec.local_port, spec.remote_host.as_str(), spec.remote_port),
            (local, host, remote)
        );
    }
}
