use ephemwork::aws_bastion_provisioner::{
    base64_encode, find_security_group_by_name, found_instance, groups_to_check, ingress_allows, judge_wait, launched_instance,
    missing_vpc_endpoint_ingress, permission_for, searched_states, security_group_ingress,
    ssm_agent_status, verify_vpc_match, vpc_id_for_security_group, vpc_id_for_subnet, AgentRecord,
    CheckedGroup, DescribedInstance, IpPermission, MissingEndpointIngress, UserIdGroupPair,
    VpcEndpoint, WaitVerdict, WAIT_POLL_SECS, WAIT_TIMEOUT_SECS,
};
use ephemwork::bastion_provisioner::{
    security_group_plan, BastionContext, IngressRule, IngressSource, InstanceSummary,
};

#[test]
fn base64_encode_matches_known_values() {
    assert_eq!(base64_encode(b""), "");
    assert_eq!(base64_encode(b"f"), "Zg==");
    assert_eq!(base64_encode(b"fo"), "Zm8=");
    assert_eq!(base64_encode(b"foo"), "Zm9v");
    assert_eq!(base64_encode(b"foob"), "Zm9vYg==");
    assert_eq!(base64_encode(b"fooba"), "Zm9vYmE=");
    assert_eq!(base64_encode(b"foobar"), "Zm9vYmFy");
}

#[test]
fn base64_encode_handles_binary() {
    // Bytes 0..255 round-trip via length, alphabet membership.
    let input: Vec<u8> = (0u8..=255).collect();
    let encoded = base64_encode(&input);
    // Length must be ceil(len/3)*4.
    let expected_len = ((input.len() + 2) / 3) * 4;
    assert_eq!(encoded.len(), expected_len);
    for c in encoded.chars() {
        assert!(
            c.is_ascii_alphanumeric() || c == '+' || c == '/' || c == '=',
            "unexpected char {c:?}"
        );
    }
}

#[test]
fn base64_uses_the_whole_alphabet() {
    // The sextets 0, 1, .., 63 in order.
    let mut bytes = Vec::new();
    for group in 0u32..16 {
        let n = (group * 4) << 18 | (group * 4 + 1) << 12 | (group * 4 + 2) << 6 | (group * 4 + 3);
        bytes.extend_from_slice(&[(n >> 16) as u8, (n >> 8) as u8, n as u8]);
    }
    assert_eq!(
        base64_encode(&bytes),
        "ABCDEFGHIJKLMNOPQRSTUVWXYZabcdefghijklmnopqrstuvwxyz0123456789+/"
    );
}

fn perm(protocol: &str, from: i32, to: i32, group: Option<&str>) -> IpPermission {
    IpPermission {
        ip_protocol: Some(protocol.to_string()),
        from_port: Some(from),
        to_port: Some(to),
        user_id_group_pairs: group
            .iter()
            .map(|g| UserIdGroupPair {
                group_id: Some(g.to_string()),
                description: None,
            })
            .collect(),
    }
}

#[test]
fn ingress_allows_matches_exact_port_and_sg() {
    let perm = perm("tcp", 443, 443, Some("sg-bastion"));
    assert!(ingress_allows(&[perm.clone()], "sg-bastion", 443));
    assert!(!ingress_allows(&[perm.clone()], "sg-other", 443));
    assert!(!ingress_allows(&[perm], "sg-bastion", 5432));
}

#[test]
fn ingress_allows_matches_inside_port_range() {
    let perm = perm("tcp", 400, 500, Some("sg-bastion"));
    assert!(ingress_allows(&[perm.clone()], "sg-bastion", 443));
    assert!(!ingress_allows(&[perm], "sg-bastion", 501));
}

#[test]
fn ingress_allows_rejects_non_tcp() {
    let udp = perm("udp", 443, 443, Some("sg-bastion"));
    assert!(!ingress_allows(&[udp], "sg-bastion", 443));
}

#[test]
fn ingress_allows_rejects_cidr_only_rule() {
    let perm = perm("tcp", 443, 443, None);
    // CIDR-only rules don't grant SG access.
    assert!(!ingress_allows(&[perm], "sg-bastion", 443));
}

#[test]
fn ingress_needs_both_bounds_and_a_protocol() {
    let mut open = perm("tcp", 0, 65_535, Some("sg"));
    open.to_port = None;
    assert!(!ingress_allows(&[open.clone()], "sg", 443));
    open.to_port = Some(443);
    open.from_port = None;
    assert!(ingress_allows(&[open.clone()], "sg", 443));
    open.ip_protocol = None;
    assert!(!ingress_allows(&[open.clone()], "sg", 443));
    let later = perm("tcp", 443, 443, Some("sg"));
    assert!(ingress_allows(&[open, later], "sg", 443));
    assert!(!ingress_allows(&[], "sg", 443));
}

#[test]
fn a_granted_rule_lets_its_group_in() {
    let rule = IngressRule {
        protocol: "tcp",
        from_port: 80,
        to_port: 82,
        source: IngressSource::SecurityGroup("sg-alb".into()),
        description: "ALB to bastion nginx",
    };
    let granted = permission_for(&rule);
    assert_eq!(
        granted.user_id_group_pairs[0].description.as_deref(),
        Some("ALB to bastion nginx")
    );
    assert_eq!(granted.from_port, Some(80));
    assert_eq!(granted.to_port, Some(82));
    assert!(ingress_allows(&[granted.clone()], "sg-alb", 81));
    assert!(!ingress_allows(&[granted], "sg-alb", 83));
    let cidr = IngressRule {
        source: IngressSource::Cidr("10.0.0.0/8".into()),
        ..rule
    };
    assert!(permission_for(&cidr).user_id_group_pairs.is_empty());
}

#[test]
fn missing_endpoint_ingress_renders_copy_pasteable_fix() {
    let m = MissingEndpointIngress {
        endpoint_sg_id: "sg-endpoint".into(),
        endpoint_service: "com.amazonaws.us-east-1.ssm".into(),
        port: 443,
    };
    let cmd = m.fix_command("sg-bastion", Some("motocred"));
    assert!(cmd.starts_with("aws ec2 authorize-security-group-ingress"));
    assert!(cmd.contains("--profile motocred"));
    assert!(cmd.contains("--group-id sg-endpoint"));
    assert!(cmd.contains("FromPort=443,ToPort=443"));
    assert!(cmd.contains("GroupId=sg-bastion"));
}

#[test]
fn missing_endpoint_ingress_omits_profile_when_unset() {
    let m = MissingEndpointIngress {
        endpoint_sg_id: "sg-x".into(),
        endpoint_service: "any".into(),
        port: 443,
    };
    let cmd = m.fix_command("sg-y", None);
    assert!(!cmd.contains("--profile"));
    assert_eq!(
        cmd,
        "aws ec2 authorize-security-group-ingress \\\n  --group-id sg-x \\\n  --ip-permissions 'IpProtocol=tcp,FromPort=443,ToPort=443,UserIdGroupPairs=[{GroupId=sg-y,Description=\"ephemwork bastion\"}]'"
    );
}

#[test]
fn verify_vpc_match_accepts_same_vpc() {
    verify_vpc_match("subnet-x", "vpc-1", "vpc-1").unwrap();
}

#[test]
fn verify_vpc_match_rejects_different_vpc_with_explicit_message() {
    let err = verify_vpc_match("subnet-prod", "vpc-prod", "vpc-staging")
        .unwrap_err()
        .message();
    assert!(err.contains("subnet-prod"), "got: {err}");
    assert!(err.contains("vpc-prod"), "got: {err}");
    assert!(err.contains("vpc-staging"), "got: {err}");
    assert!(err.contains("expected_vpc_id"), "got: {err}");
    assert_eq!(
        err,
        "refusing to provision: subnet subnet-prod is in vpc-prod but ephemwork.toml pins tunnel.expected_vpc_id = vpc-staging. Aborting before any AWS resource is created."
    );
}

fn endpoint(interface: bool, service: Option<&str>, groups: &[Option<&str>]) -> VpcEndpoint {
    VpcEndpoint {
        interface,
        service_name: service.map(|s| s.to_string()),
        groups: Some(groups.iter().map(|g| g.map(|s| s.to_string())).collect()),
    }
}

#[test]
fn each_group_of_an_interface_endpoint_is_checked_once() {
    let mut bare = endpoint(true, Some("x"), &[]);
    bare.groups = None;
    let groups = groups_to_check(&vec![
        endpoint(false, Some("s3"), &[Some("sg-gateway")]),
        endpoint(true, Some("ssm"), &[Some("sg-1"), None, Some("sg-2")]),
        bare,
        endpoint(true, None, &[Some("sg-3")]),
        endpoint(true, Some("ec2messages"), &[Some("sg-2"), Some("sg-4")]),
    ]);
    let expected: Vec<(String, String)> = [
        ("sg-1", "ssm"),
        ("sg-2", "ssm"),
        ("sg-3", ""),
        ("sg-4", "ec2messages"),
    ]
    .iter()
    .map(|(a, b)| (a.to_string(), b.to_string()))
    .collect();
    assert_eq!(groups, expected);
}

#[test]
fn missing_ingress_is_listed_by_service_and_group() {
    let group = |id: &str, service: &str, perms: Vec<IpPermission>| CheckedGroup {
        sg_id: id.to_string(),
        service: service.to_string(),
        permissions: perms,
    };
    let open = vec![perm("tcp", 443, 443, Some("sg-bastion"))];
    let missing = missing_vpc_endpoint_ingress(
        &vec![
            group("sg-9", "ssm", vec![]),
            group("sg-2", "ssm", vec![]),
            group("sg-open", "aaa", open),
            group("sg-5", "ec2messages", vec![perm("tcp", 80, 80, Some("sg-bastion"))]),
        ],
        "sg-bastion",
    );
    let got: Vec<(&str, &str, u16)> = missing
        .iter()
        .map(|m| (m.endpoint_service.as_str(), m.endpoint_sg_id.as_str(), m.port))
        .collect();
    assert_eq!(
        got,
        vec![
            ("ec2messages", "sg-5", 443),
            ("ssm", "sg-2", 443),
            ("ssm", "sg-9", 443)
        ]
    );
}

#[test]
fn answers_of_aws_are_taken_from_their_first_entry() {
    let text = |s: &str| Some(s.to_string());
    assert_eq!(
        vpc_id_for_subnet("subnet-1", Some(vec![text("vpc-1"), text("vpc-2")])),
        Ok("vpc-1".to_string())
    );
    for none in [None, Some(vec![]), Some(vec![None])] {
        assert_eq!(
            vpc_id_for_subnet("subnet-1", none).unwrap_err().message(),
            "subnet subnet-1 not found"
        );
    }
    assert_eq!(
        vpc_id_for_security_group("sg-1", Some(vec![None]))
            .unwrap_err()
            .message(),
        "security group sg-1 has no VpcId"
    );
    assert_eq!(
        vpc_id_for_security_group("sg-1", Some(vec![])).unwrap_err().message(),
        "security group sg-1 not found"
    );
    assert_eq!(
        vpc_id_for_security_group("sg-1", Some(vec![text("vpc-7")])),
        Ok("vpc-7".to_string())
    );
    assert_eq!(
        find_security_group_by_name(Some(vec![text("sg-1"), text("sg-2")])),
        text("sg-1")
    );
    for none in [None, Some(vec![]), Some(vec![None, text("sg-2")])] {
        assert_eq!(find_security_group_by_name(none), None);
    }
    assert_eq!(security_group_ingress("sg", Some(vec![None])), Ok(vec![]));
    let perms = vec![perm("tcp", 1, 2, None)];
    assert_eq!(
        security_group_ingress("sg", Some(vec![Some(perms.clone())])),
        Ok(perms)
    );
    assert_eq!(
        security_group_ingress("sg", None).unwrap_err().message(),
        "security group sg not found"
    );
    assert_eq!(
        launched_instance(Some(vec![text("i-1")])),
        Ok("i-1".to_string())
    );
    assert_eq!(
        launched_instance(Some(vec![None])).unwrap_err().message(),
        "run_instances returned no instance"
    );
}

fn described(state: Option<&str>) -> DescribedInstance {
    DescribedInstance {
        instance_id: Some("i-1".into()),
        state: state.map(|s| s.to_string()),
        private_ip: Some("10.0.0.9".into()),
        security_groups: Some(vec![Some("sg-1".into()), Some("sg-2".into())]),
    }
}

#[test]
fn the_first_instance_found_is_summarized() {
    assert_eq!(
        found_instance(Some(vec![Some(vec![described(Some("running"))])])),
        Some(InstanceSummary {
            instance_id: "i-1".into(),
            state: "running".into(),
            private_ip: Some("10.0.0.9".into()),
            security_group_id: Some("sg-1".into()),
        })
    );
    let bare = DescribedInstance {
        instance_id: None,
        state: None,
        private_ip: None,
        security_groups: Some(vec![]),
    };
    assert_eq!(
        found_instance(Some(vec![Some(vec![bare])])),
        Some(InstanceSummary {
            instance_id: "".into(),
            state: "".into(),
            private_ip: None,
            security_group_id: None,
        })
    );
    assert_eq!(found_instance(None), None);
    assert_eq!(found_instance(Some(vec![])), None);
    assert_eq!(found_instance(Some(vec![None, Some(vec![described(None)])])), None);
    assert_eq!(
        searched_states(),
        vec!["pending", "running", "stopping", "stopped"]
    );
}

#[test]
fn waiting_ends_when_running_or_late() {
    let look = |state: Option<&str>| Some(vec![Some(vec![described(state)])]);
    assert_eq!(judge_wait("i-1", look(Some("running")), true), WaitVerdict::Running);
    assert_eq!(judge_wait("i-1", look(Some("pending")), false), WaitVerdict::LookAgain);
    assert_eq!(judge_wait("i-1", None, false), WaitVerdict::LookAgain);
    match judge_wait("i-1", look(None), true) {
        WaitVerdict::GiveUp(e) => assert_eq!(
            e.message(),
            "timed out waiting for i-1 to reach running"
        ),
        other => panic!("expected GiveUp, got {other:?}"),
    }
    assert_eq!((WAIT_TIMEOUT_SECS, WAIT_POLL_SECS), (300, 5));
}

#[test]
fn the_ssm_agent_is_unknown_until_it_pings() {
    assert_eq!(ssm_agent_status(vec![]), None);
    let record = AgentRecord {
        ping_status: None,
        agent_version: Some("3.1".into()),
        last_ping: None,
    };
    let info = ssm_agent_status(vec![record]).unwrap();
    assert_eq!(info.ping_status, "Unknown");
    assert_eq!(info.agent_version.as_deref(), Some("3.1"));
    let online = AgentRecord {
        ping_status: Some("Online".into()),
        agent_version: None,
        last_ping: Some("now".into()),
    };
    assert_eq!(ssm_agent_status(vec![online]).unwrap().ping_status, "Online");
}

#[test]
fn only_the_load_balancer_gets_in() {
    let plan = security_group_plan(&BastionContext::new("demo"), "sg-alb").unwrap();
    let granted: Vec<IpPermission> = plan.ingress.iter().map(permission_for).collect();
    for port in [0u16, 22, 79, 80, 81, 443, 8443, 65535] {
        assert_eq!(ingress_allows(&granted, "sg-alb", port), port == 80);
        assert!(!ingress_allows(&granted, "sg-other", port));
    }
}
