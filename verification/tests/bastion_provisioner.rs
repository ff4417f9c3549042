use ephemwork::bastion_provisioner::{
    assume_role_policy_document, instance_tags, managed_policy_arns, render_bastion_status,
    run_destroy, run_init, run_status, security_group_plan, user_data_script, BastionContext,
    BastionProvisioner, BastionStatus, IngressSource, InstanceSummary, LaunchPlan, PlanLogger,
    ProvisionError, SecurityGroupPlan,
};
use ephemwork::config::TunnelConfig;

fn tag<'a>(tags: &'a [(String, String)], name: &str) -> Option<&'a str> {
    tags.iter().find(|(k, _)| k == name).map(|(_, v)| v.as_str())
}

fn cfg() -> TunnelConfig {
    TunnelConfig {
        kind: "ec2".into(),
        region: "us-east-1".into(),
        instance_type: "t4g.nano".into(),
        project_name: "demo".into(),
        expected_vpc_id: None,
    }
}

fn ctx() -> BastionContext {
    BastionContext::new("demo")
}

#[test]
fn assume_role_policy_document_mentions_ec2_principal() {
    let s = assume_role_policy_document();
    assert!(s.contains("ec2.amazonaws.com"));
    assert!(s.contains("sts:AssumeRole"));
}

#[test]
fn managed_policies_include_ssm_and_s3() {
    let p = managed_policy_arns();
    assert!(p.iter().any(|a| a.contains("AmazonSSMManagedInstanceCore")));
    assert!(p.iter().any(|a| a.contains("AmazonS3ReadOnlyAccess")));
}

#[test]
fn security_group_plan_locks_port_80_to_alb_sg() {
    let plan = security_group_plan(&ctx(), "sg-0123abc").unwrap();
    assert_eq!(plan.name, "ephemwork-demo-bastion-sg");
    assert_eq!(plan.ingress.len(), 1);
    let rule = &plan.ingress[0];
    assert_eq!(rule.protocol, "tcp");
    assert_eq!(rule.from_port, 80);
    assert_eq!(rule.to_port, 80);
    assert_eq!(
        rule.source,
        IngressSource::SecurityGroup("sg-0123abc".into())
    );
}

#[test]
fn security_group_plan_rejects_empty_alb() {
    let err = security_group_plan(&ctx(), "").unwrap_err().message();
    assert!(err.contains("alb_security_group_id"), "got: {err}");
}

#[test]
fn bastion_context_derives_per_project_names() {
    let c = BastionContext::new("demo");
    assert_eq!(c.instance_name(), "ephemwork-demo-bastion");
    assert_eq!(c.security_group_name(), "ephemwork-demo-bastion-sg");
    assert_eq!(c.iam_role_name(), "ephemwork-demo-bastion-role");
    assert_eq!(
        c.iam_instance_profile_name(),
        "ephemwork-demo-bastion-instance-profile"
    );

    let other = BastionContext::new("other");
    assert_ne!(c.instance_name(), other.instance_name());
    assert_ne!(c.security_group_name(), other.security_group_name());
}

#[test]
fn user_data_script_requires_s3_uri() {
    let err = user_data_script("https://wrong").unwrap_err().message();
    assert!(err.contains("s3://"), "got: {err}");
}

#[test]
fn user_data_script_includes_required_steps() {
    let s = user_data_script("s3://my-bucket/ephemwork-bastion-server").unwrap();
    assert!(s.contains("install -y nginx"));
    assert!(s.contains("aws s3 cp \"s3://my-bucket/ephemwork-bastion-server\""));
    assert!(s.contains("/opt/ephemwork/bastion-server"));
    assert!(s.contains("ephemwork-bastion.service"));
    assert!(s.contains("EPHEMWORK_REGISTRY_PATH"));
    assert!(s.contains("systemctl enable --now ephemwork-bastion.service"));
}

#[test]
fn instance_tags_mark_managed_by_ephemwork_and_project() {
    let tags = instance_tags(&ctx());
    assert_eq!(tag(&tags, "Name"), Some("ephemwork-demo-bastion"));
    assert_eq!(tag(&tags, "ManagedBy"), Some("ephemwork"));
    assert_eq!(tag(&tags, "EphemworkProject"), Some("demo"));
}

#[test]
fn launch_plan_packs_inputs() {
    let plan = LaunchPlan::from_config(
        &cfg(),
        &ctx(),
        "ami-1234",
        "subnet-abc",
        "sg-xyz",
        "s3://bucket/bin",
    )
    .unwrap();
    assert_eq!(plan.region, "us-east-1");
    assert_eq!(plan.instance_type, "t4g.nano");
    assert_eq!(plan.ami_id, "ami-1234");
    assert_eq!(plan.subnet_id, "subnet-abc");
    assert_eq!(plan.security_group_id, "sg-xyz");
    assert_eq!(
        plan.instance_profile_name,
        "ephemwork-demo-bastion-instance-profile"
    );
    assert!(plan.user_data.contains("s3://bucket/bin"));
    assert!(plan
        .tags
        .iter()
        .any(|(k, v)| k == "Name" && v == "ephemwork-demo-bastion"));
}

/// Records which methods were called and in what order so the
/// orchestration is verifiable end-to-end.
#[derive(Default)]
struct MockProvisioner {
    calls: Vec<&'static str>,
    last_sg_plan: Option<SecurityGroupPlan>,
    last_launch_plan: Option<LaunchPlan>,
    instance_to_return: Option<InstanceSummary>,
}
impl BastionProvisioner for MockProvisioner {
    fn ensure_security_group(&mut self, plan: &SecurityGroupPlan) -> Result<String, ProvisionError> {
        self.calls.push("ensure_security_group");
        self.last_sg_plan = Some(plan.clone());
        Ok("sg-mocked".into())
    }
    fn ensure_iam_role(&mut self) -> Result<(), ProvisionError> {
        self.calls.push("ensure_iam_role");
        Ok(())
    }
    fn launch_instance(&mut self, plan: &LaunchPlan) -> Result<String, ProvisionError> {
        self.calls.push("launch_instance");
        self.last_launch_plan = Some(plan.clone());
        Ok("i-mocked".into())
    }
    fn wait_until_running(&mut self, _instance_id: &str) -> Result<(), ProvisionError> {
        self.calls.push("wait_until_running");
        Ok(())
    }
    fn find_instance_by_name(&mut self, _name: &str) -> Result<Option<InstanceSummary>, ProvisionError> {
        self.calls.push("find_instance_by_name");
        Ok(self.instance_to_return.clone())
    }
    fn terminate_instance(&mut self, _instance_id: &str) -> Result<(), ProvisionError> {
        self.calls.push("terminate_instance");
        Ok(())
    }
    fn delete_security_group(&mut self, _sg_id: &str) -> Result<(), ProvisionError> {
        self.calls.push("delete_security_group");
        Ok(())
    }
    fn delete_iam_role(&mut self) -> Result<(), ProvisionError> {
        self.calls.push("delete_iam_role");
        Ok(())
    }
}

#[test]
fn run_init_orders_calls_correctly() {
    let mut prov = MockProvisioner::default();
    let sg_plan = security_group_plan(&ctx(), "sg-alb").unwrap();
    let outcome = run_init(&mut prov, &ctx(), &sg_plan, |sg_id| {
        LaunchPlan::from_config(
            &cfg(),
            &ctx(),
            "ami-1234",
            "subnet-abc",
            sg_id,
            "s3://bucket/bin",
        )
    })
    .unwrap();
    assert_eq!(
        prov.calls,
        vec![
            "find_instance_by_name",
            "ensure_iam_role",
            "ensure_security_group",
            "launch_instance",
            "wait_until_running",
        ]
    );
    assert_eq!(outcome.security_group_id, "sg-mocked");
    assert_eq!(outcome.instance_id, "i-mocked");
    assert!(!outcome.reused);
    let launched = prov.last_launch_plan.unwrap();
    assert_eq!(launched.security_group_id, "sg-mocked");
}

#[test]
fn run_init_short_circuits_when_instance_already_exists() {
    let mut prov = MockProvisioner {
        instance_to_return: Some(InstanceSummary {
            instance_id: "i-existing".into(),
            state: "running".into(),
            private_ip: Some("10.0.0.5".into()),
            security_group_id: Some("sg-existing".into()),
        }),
        ..Default::default()
    };
    let sg_plan = security_group_plan(&ctx(), "sg-alb").unwrap();
    let outcome = run_init(&mut prov, &ctx(), &sg_plan, |_| {
        panic!("launch_plan must not be built when reusing existing instance")
    })
    .unwrap();
    assert!(outcome.reused);
    assert_eq!(outcome.instance_id, "i-existing");
    assert_eq!(outcome.security_group_id, "sg-existing");
    // Only the lookup happens; no creation calls.
    assert_eq!(prov.calls, vec!["find_instance_by_name"]);
}

#[test]
fn run_init_treats_terminated_instance_as_absent() {
    let mut prov = MockProvisioner {
        instance_to_return: Some(InstanceSummary {
            instance_id: "i-old".into(),
            state: "terminated".into(),
            private_ip: None,
            security_group_id: None,
        }),
        ..Default::default()
    };
    let sg_plan = security_group_plan(&ctx(), "sg-alb").unwrap();
    let outcome = run_init(&mut prov, &ctx(), &sg_plan, |sg_id| {
        LaunchPlan::from_config(
            &cfg(),
            &ctx(),
            "ami-1",
            "subnet-1",
            sg_id,
            "s3://b/b",
        )
    })
    .unwrap();
    assert!(!outcome.reused);
    assert_eq!(outcome.instance_id, "i-mocked");
}

#[test]
fn plan_logger_records_each_step() {
    let mut logger = PlanLogger::new(ctx());
    let sg_plan = security_group_plan(&ctx(), "sg-alb").unwrap();
    run_init(&mut logger, &ctx(), &sg_plan, |sg_id| {
        LaunchPlan::from_config(
            &cfg(),
            &ctx(),
            "ami-9999",
            "subnet-test",
            sg_id,
            "s3://bucket/bin",
        )
    })
    .unwrap();
    // First entry is the lookup; remaining 4 are the create path.
    assert_eq!(logger.log.len(), 5);
    assert!(logger.log[0].contains("look up instance"));
    assert!(logger.log[1].contains("IAM role"));
    assert!(logger.log[2].contains("security group"));
    assert!(logger.log[3].contains("launch t4g.nano"));
    assert!(logger.log[3].contains("subnet-test"));
    assert!(logger.log[3].contains("ami-9999"));
    assert!(logger.log[4].contains("i-DRYRUN"));
}

struct Failing;
impl BastionProvisioner for Failing {
    fn ensure_security_group(&mut self, _: &SecurityGroupPlan) -> Result<String, ProvisionError> {
        panic!("must not be called")
    }
    fn ensure_iam_role(&mut self) -> Result<(), ProvisionError> {
        Err(ProvisionError::Outside("denied".into()))
    }
    fn launch_instance(&mut self, _: &LaunchPlan) -> Result<String, ProvisionError> {
        panic!("must not be called")
    }
    fn wait_until_running(&mut self, _: &str) -> Result<(), ProvisionError> {
        panic!("must not be called")
    }
    fn find_instance_by_name(&mut self, _: &str) -> Result<Option<InstanceSummary>, ProvisionError> {
        // run_init's idempotency check calls this first; report no
        // existing instance so the IAM step (which is what we're
        // asserting fails) is reached.
        Ok(None)
    }
    fn terminate_instance(&mut self, _: &str) -> Result<(), ProvisionError> {
        panic!("must not be called")
    }
    fn delete_security_group(&mut self, _: &str) -> Result<(), ProvisionError> {
        panic!("must not be called")
    }
    fn delete_iam_role(&mut self) -> Result<(), ProvisionError> {
        panic!("must not be called")
    }
}

#[test]
fn run_init_propagates_iam_failure_without_launching() {
    let mut p = Failing;
    let sg_plan = security_group_plan(&ctx(), "sg-alb").unwrap();
    let err = run_init(&mut p, &ctx(), &sg_plan, |_| panic!("must not be called"))
        .unwrap_err()
        .message();
    assert!(err.contains("denied"), "got: {err}");
}

#[test]
fn run_destroy_short_circuits_when_no_instance() {
    let mut p = MockProvisioner {
        instance_to_return: None,
        ..Default::default()
    };
    let outcome = run_destroy(&mut p, &ctx()).unwrap();
    assert!(outcome.instance_id.is_none());
    assert_eq!(p.calls, vec!["find_instance_by_name"]);
}

#[test]
fn run_destroy_terminates_then_deletes_supporting_resources() {
    let mut p = MockProvisioner {
        instance_to_return: Some(InstanceSummary {
            instance_id: "i-real".into(),
            state: "running".into(),
            private_ip: Some("10.0.0.5".into()),
            security_group_id: Some("sg-real".into()),
        }),
        ..Default::default()
    };
    let outcome = run_destroy(&mut p, &ctx()).unwrap();
    assert_eq!(outcome.instance_id.as_deref(), Some("i-real"));
    assert_eq!(outcome.security_group_id.as_deref(), Some("sg-real"));
    assert_eq!(
        p.calls,
        vec![
            "find_instance_by_name",
            "terminate_instance",
            "delete_security_group",
            "delete_iam_role",
        ]
    );
}

#[test]
fn run_destroy_skips_sg_when_summary_lacks_one() {
    let mut p = MockProvisioner {
        instance_to_return: Some(InstanceSummary {
            instance_id: "i-orphan".into(),
            state: "stopped".into(),
            private_ip: None,
            security_group_id: None,
        }),
        ..Default::default()
    };
    run_destroy(&mut p, &ctx()).unwrap();
    assert!(!p.calls.iter().any(|c| *c == "delete_security_group"));
    assert!(p.calls.iter().any(|c| *c == "delete_iam_role"));
}

#[test]
fn run_status_returns_summary_when_present() {
    let mut p = MockProvisioner {
        instance_to_return: Some(InstanceSummary {
            instance_id: "i-99".into(),
            state: "running".into(),
            private_ip: Some("10.0.0.7".into()),
            security_group_id: Some("sg-99".into()),
        }),
        ..Default::default()
    };
    let s = run_status(&mut p, &ctx()).unwrap();
    assert_eq!(s.instance.as_ref().unwrap().instance_id, "i-99");
}

#[test]
fn render_bastion_status_no_instance() {
    let s = render_bastion_status(&BastionStatus { instance: None }, &ctx());
    assert!(s.contains("no bastion found"));
    assert!(s.contains("ephemwork bastion init"));
    assert!(s.contains("ephemwork-demo-bastion"));
}

#[test]
fn render_bastion_status_with_instance() {
    let s = render_bastion_status(
        &BastionStatus {
            instance: Some(InstanceSummary {
                instance_id: "i-99".into(),
                state: "running".into(),
                private_ip: Some("10.0.0.7".into()),
                security_group_id: Some("sg-99".into()),
            }),
        },
        &ctx(),
    );
    assert!(s.contains("i-99"));
    assert!(s.contains("running"));
    assert!(s.contains("10.0.0.7"));
    assert!(s.contains("sg-99"));
}

#[test]
fn plan_logger_destroy_records_each_step() {
    let mut logger = PlanLogger::new(ctx());
    logger.pretend_existing = true;
    run_destroy(&mut logger, &ctx()).unwrap();
    assert!(logger.log.iter().any(|l| l.contains("look up instance")));
    assert!(logger.log.iter().any(|l| l.contains("terminate instance")));
    assert!(logger.log.iter().any(|l| l.contains("delete security group")));
    assert!(logger.log.iter().any(|l| l.contains("delete IAM role")));
}

#[test]
fn policy_document_is_exact_json() {
    let v: serde_json::Value = serde_json::from_str(&assume_role_policy_document()).unwrap();
    assert_eq!(v["Version"], "2012-10-17");
    let statement = &v["Statement"][0];
    assert_eq!(statement["Effect"], "Allow");
    assert_eq!(statement["Principal"]["Service"], "ec2.amazonaws.com");
    assert_eq!(statement["Action"], "sts:AssumeRole");
    // Keys in order and no spaces, as the value prints itself.
    assert_eq!(assume_role_policy_document(), v.to_string());
}

#[test]
fn tags_are_in_order_of_their_keys() {
    let tags = instance_tags(&ctx());
    let keys: Vec<&str> = tags.iter().map(|(k, _)| k.as_str()).collect();
    assert_eq!(keys, vec!["EphemworkProject", "ManagedBy", "Name"]);
}

#[test]
fn user_data_is_head_uri_tail() {
    let a = user_data_script("s3://a").unwrap();
    let b = user_data_script("s3://bb/c").unwrap();
    assert_eq!(a.replace("s3://a", "s3://bb/c"), b);
    assert!(a.starts_with("#!/bin/bash\n"));
    assert_eq!(
        user_data_script("https://a \"b\"").unwrap_err(),
        ProvisionError::NotAnS3Uri {
            uri: "https://a \"b\"".into()
        }
    );
    assert!(matches!(
        LaunchPlan::from_config(&cfg(), &ctx(), "ami", "subnet", "sg", "/tmp/bin"),
        Err(ProvisionError::NotAnS3Uri { .. })
    ));
}

#[test]
fn initializing_twice_creates_once() {
    let mut p = MockProvisioner::default();
    let sg_plan = security_group_plan(&ctx(), "sg-alb").unwrap();
    let first = run_init(&mut p, &ctx(), &sg_plan, |sg_id| {
        LaunchPlan::from_config(&cfg(), &ctx(), "ami-1", "subnet-1", sg_id, "s3://b/b")
    })
    .unwrap();
    p.instance_to_return = Some(InstanceSummary {
        instance_id: first.instance_id.clone(),
        state: "pending".into(),
        private_ip: None,
        security_group_id: None,
    });
    p.calls.clear();
    let second = run_init(&mut p, &ctx(), &sg_plan, |_| panic!("must not be called")).unwrap();
    assert!(second.reused);
    assert_eq!(second.instance_id, first.instance_id);
    assert_eq!(second.security_group_id, "");
    assert_eq!(p.calls, vec!["find_instance_by_name"]);
}

#[test]
fn a_launch_plan_that_fails_stops_before_launching() {
    let mut p = MockProvisioner::default();
    let sg_plan = security_group_plan(&ctx(), "sg-alb").unwrap();
    let err = run_init(&mut p, &ctx(), &sg_plan, |sg_id| {
        LaunchPlan::from_config(&cfg(), &ctx(), "ami-1", "subnet-1", sg_id, "http://b")
    })
    .unwrap_err();
    assert_eq!(
        err,
        ProvisionError::NotAnS3Uri {
            uri: "http://b".into()
        }
    );
    assert_eq!(
        p.calls,
        vec![
            "find_instance_by_name",
            "ensure_iam_role",
            "ensure_security_group"
        ]
    );
}

#[test]
fn dry_run_destroy_is_exact() {
    let mut logger = PlanLogger::new(ctx());
    run_destroy(&mut logger, &ctx()).unwrap();
    assert_eq!(logger.log.len(), 1);
    let mut logger = PlanLogger::new(ctx());
    logger.pretend_existing = true;
    let outcome = run_destroy(&mut logger, &ctx()).unwrap();
    assert_eq!(logger.log.len(), 4);
    assert_eq!(outcome.instance_id.as_deref(), Some("i-DRYRUN"));
}
