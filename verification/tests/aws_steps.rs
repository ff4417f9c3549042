use ephemwork::aws_steps::{GroupEvent, GroupStep, SetupStep, StepEvent, TeardownStep};
use ephemwork::bastion_provisioner::{
    managed_policy_arns, security_group_plan, BastionContext, IngressRule, IngressSource,
    SecurityGroupPlan,
};

fn setup_path(role: bool, profile: bool) -> Vec<SetupStep> {
    let mut path = vec![SetupStep::CheckRole];
    loop {
        let step = *path.last().unwrap();
        let event = match step {
            SetupStep::CheckRole => StepEvent::Found(role),
            SetupStep::CheckProfile => StepEvent::Found(profile),
            SetupStep::Finished => return path,
            _ => StepEvent::Done,
        };
        assert!(step.accepts(&event));
        path.push(step.next(event).unwrap());
    }
}

#[test]
fn a_role_is_created_only_where_there_is_none() {
    let attach = |index| SetupStep::AttachPolicy { index };
    assert_eq!(
        setup_path(true, true),
        vec![
            SetupStep::CheckRole,
            attach(0),
            attach(1),
            SetupStep::CheckProfile,
            SetupStep::Finished
        ]
    );
    assert_eq!(
        setup_path(false, false),
        vec![
            SetupStep::CheckRole,
            SetupStep::CreateRole,
            attach(0),
            attach(1),
            SetupStep::CheckProfile,
            SetupStep::CreateProfile,
            SetupStep::AddRole,
            SetupStep::Finished
        ]
    );
    assert_eq!(attach(1).arn(), Some(managed_policy_arns()[1]));
    assert_eq!(attach(2).arn(), None);
    assert_eq!(SetupStep::AddRole.arn(), None);
}

#[test]
fn setup_failures_name_the_call() {
    let fail = |step: SetupStep| step.next(StepEvent::Failed("why".into())).unwrap_err().message();
    assert_eq!(fail(SetupStep::CheckRole), "why");
    assert_eq!(fail(SetupStep::CreateRole), "create_role");
    assert_eq!(
        fail(SetupStep::AttachPolicy { index: 1 }),
        "attach_role_policy arn:aws:iam::aws:policy/AmazonS3ReadOnlyAccess"
    );
    assert_eq!(fail(SetupStep::CheckProfile), "why");
    assert_eq!(fail(SetupStep::CreateProfile), "create_instance_profile");
    assert_eq!(fail(SetupStep::AddRole), "add_role_to_instance_profile");
    assert!(!SetupStep::Finished.accepts(&StepEvent::Done));
    assert!(!SetupStep::CheckRole.accepts(&StepEvent::Done));
    assert!(!SetupStep::CreateRole.accepts(&StepEvent::Found(true)));
}

fn teardown_path(profile: bool, role: bool, best_effort_fails: bool) -> Vec<TeardownStep> {
    let mut path = vec![TeardownStep::CheckProfile];
    loop {
        let step = *path.last().unwrap();
        let event = match step {
            TeardownStep::CheckProfile => StepEvent::Found(profile),
            TeardownStep::CheckRole => StepEvent::Found(role),
            TeardownStep::Finished => return path,
            TeardownStep::RemoveRole | TeardownStep::DetachPolicy { .. } if best_effort_fails => {
                StepEvent::Failed("gone already".into())
            }
            _ => StepEvent::Done,
        };
        assert!(step.accepts(&event));
        path.push(step.next(event).unwrap());
    }
}

#[test]
fn teardown_deletes_what_is_there_in_order() {
    let detach = |index| TeardownStep::DetachPolicy { index };
    let full = vec![
        TeardownStep::CheckProfile,
        TeardownStep::RemoveRole,
        TeardownStep::DeleteProfile,
        TeardownStep::CheckRole,
        detach(0),
        detach(1),
        TeardownStep::DeleteRole,
        TeardownStep::Finished,
    ];
    assert_eq!(teardown_path(true, true, false), full);
    assert_eq!(teardown_path(true, true, true), full);
    assert_eq!(
        teardown_path(false, false, false),
        vec![
            TeardownStep::CheckProfile,
            TeardownStep::CheckRole,
            TeardownStep::Finished
        ]
    );
    let fail = |step: TeardownStep| {
        step.next(StepEvent::Failed("why".into()))
            .unwrap_err()
            .message()
    };
    assert_eq!(fail(TeardownStep::CheckProfile), "why");
    assert_eq!(fail(TeardownStep::DeleteProfile), "delete_instance_profile");
    assert_eq!(fail(TeardownStep::CheckRole), "why");
    assert_eq!(fail(TeardownStep::DeleteRole), "delete_role");
    assert_eq!(detach(0).arn(), Some(managed_policy_arns()[0]));
}

fn plan() -> SecurityGroupPlan {
    security_group_plan(&BastionContext::new("demo"), "sg-alb").unwrap()
}

#[test]
fn a_group_that_is_there_is_only_brought_up_to_the_plan() {
    let next = GroupStep::Find
        .next(&plan(), GroupEvent::Group(Some("sg-1".into())))
        .unwrap();
    assert_eq!(
        next,
        GroupStep::Authorize {
            group_id: "sg-1".into(),
            rule: 0
        }
    );
    let duplicate = GroupEvent::Refused {
        code: Some("InvalidPermission.Duplicate".into()),
        text: "exists".into(),
    };
    assert!(next.accepts(&plan(), &duplicate));
    assert_eq!(
        next.clone().next(&plan(), duplicate).unwrap(),
        GroupStep::Finished {
            group_id: "sg-1".into()
        }
    );
    let refused = GroupEvent::Refused {
        code: Some("Other".into()),
        text: "no".into(),
    };
    assert_eq!(
        next.next(&plan(), refused).unwrap_err().message(),
        "authorize_security_group_ingress failed: no"
    );
}

#[test]
fn a_group_that_is_missing_is_created_in_the_vpc_of_its_source() {
    let step = GroupStep::Find.next(&plan(), GroupEvent::Group(None)).unwrap();
    assert_eq!(
        step,
        GroupStep::FindVpc {
            source_group: "sg-alb".into()
        }
    );
    let step = step.next(&plan(), GroupEvent::Vpc("vpc-1".into())).unwrap();
    assert_eq!(
        step,
        GroupStep::Create {
            vpc_id: "vpc-1".into()
        }
    );
    assert_eq!(
        step.clone()
            .next(&plan(), GroupEvent::Group(None))
            .unwrap_err()
            .message(),
        "create_security_group returned no GroupId"
    );
    let step = step.next(&plan(), GroupEvent::Group(Some("sg-new".into()))).unwrap();
    let step = step.next(&plan(), GroupEvent::Authorized).unwrap();
    assert_eq!(
        step,
        GroupStep::Finished {
            group_id: "sg-new".into()
        }
    );
    assert!(!step.accepts(&plan(), &GroupEvent::Authorized));
}

#[test]
fn group_failures_name_the_call() {
    let failed = || GroupEvent::Failed("why".into());
    assert_eq!(
        GroupStep::Find.next(&plan(), failed()).unwrap_err().message(),
        "describe_security_groups"
    );
    let vpc = GroupStep::FindVpc {
        source_group: "sg".into(),
    };
    assert_eq!(vpc.next(&plan(), failed()).unwrap_err().message(), "why");
    let create = GroupStep::Create {
        vpc_id: "vpc".into(),
    };
    assert_eq!(
        create.next(&plan(), failed()).unwrap_err().message(),
        "create_security_group"
    );
    let mut cidr_only = plan();
    cidr_only.ingress = vec![IngressRule {
        protocol: "tcp",
        from_port: 1,
        to_port: 2,
        source: IngressSource::Cidr("10.0.0.0/8".into()),
        description: "x",
    }];
    assert_eq!(
        GroupStep::Find
            .next(&cidr_only, GroupEvent::Group(None))
            .unwrap_err()
            .message(),
        "plan has no SG-source ingress to derive VPC from"
    );
    cidr_only.ingress = vec![];
    assert_eq!(
        GroupStep::Find
            .next(&cidr_only, GroupEvent::Group(Some("sg-1".into())))
            .unwrap(),
        GroupStep::Finished {
            group_id: "sg-1".into()
        }
    );
}

#[test]
fn what_another_run_created_is_taken_as_it_is() {
    for (step, next) in [
        (SetupStep::CreateRole, SetupStep::AttachPolicy { index: 0 }),
        (SetupStep::CreateProfile, SetupStep::AddRole),
        (SetupStep::AddRole, SetupStep::Finished),
    ] {
        assert!(step.accepts(&StepEvent::AlreadyThere));
        assert_eq!(step.next(StepEvent::AlreadyThere), Ok(next));
        assert_eq!(step.next(StepEvent::Done), Ok(next));
    }
    assert!(!SetupStep::CheckRole.accepts(&StepEvent::AlreadyThere));
    assert!(!SetupStep::AttachPolicy { index: 0 }.accepts(&StepEvent::AlreadyThere));
    assert!(!TeardownStep::DeleteRole.accepts(&StepEvent::AlreadyThere));
}

#[test]
fn a_group_that_another_run_created_is_looked_up() {
    let plan = plan();
    let create = GroupStep::Create {
        vpc_id: "vpc-1".into(),
    };
    let refused = |code: Option<&str>| GroupEvent::Refused {
        code: code.map(|c| c.to_string()),
        text: "no".into(),
    };
    let taken = refused(Some("InvalidGroup.Duplicate"));
    assert!(create.accepts(&plan, &taken));
    assert_eq!(create.clone().next(&plan, taken), Ok(GroupStep::FindAgain));
    for code in [None, Some("InvalidPermission.Duplicate"), Some("UnauthorizedOperation")] {
        let e = create.clone().next(&plan, refused(code)).unwrap_err();
        assert_eq!(e.message(), "create_security_group");
    }

    let again = |event: GroupEvent| {
        assert!(GroupStep::FindAgain.accepts(&plan, &event));
        GroupStep::FindAgain.next(&plan, event)
    };
    assert_eq!(
        again(GroupEvent::Group(Some("sg-9".into()))),
        Ok(GroupStep::Authorize {
            group_id: "sg-9".into(),
            rule: 0
        })
    );
    assert_eq!(
        again(GroupEvent::Group(None)).unwrap_err().message(),
        "security group exists but was not found"
    );
    assert_eq!(
        again(GroupEvent::Failed("io".into())).unwrap_err().message(),
        "describe_security_groups"
    );
}
