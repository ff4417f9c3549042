//! The order of the calls to AWS that set up and tear down the role and the
//! security group of the bastion: from a step and what it gave to the next.

use vstd::prelude::*;
use crate::bastion_provisioner;
use crate::bastion_provisioner::{IngressRule, IngressSource, ProvisionError, SecurityGroupPlan};
use crate::text;

verus! {

/// What a step gave.
#[derive(Debug, Clone, PartialEq, Eq)]
pub enum StepEvent {
    Done,
    /// The thing asked for is there, or not.
    Found(bool),
    /// What was to be created is there already: another run was faster.
    AlreadyThere,
    /// The call failed; the text says how.
    Failed(String),
}

/// A step of setting up the role and its instance profile.
#[derive(Debug, Clone, Copy, PartialEq, Eq, Structural)]
pub enum SetupStep {
    CheckRole,
    CreateRole,
    AttachPolicy { index: usize },
    CheckProfile,
    CreateProfile,
    AddRole,
    Finished,
}

/// The ARN of a managed policy by its place.
pub open spec fn policy_arn(index: usize) -> Seq<char> {
    if index == 0 {
        "arn:aws:iam::aws:policy/AmazonSSMManagedInstanceCore"@
    } else {
        "arn:aws:iam::aws:policy/AmazonS3ReadOnlyAccess"@
    }
}

impl SetupStep {
    /// The step can give this.
    pub open spec fn can_give(self, event: StepEvent) -> bool {
        match self {
            SetupStep::CheckRole | SetupStep::CheckProfile => event is Found || event is Failed,
            SetupStep::AttachPolicy { index } => index < 2 && (event is Done || event is Failed),
            SetupStep::CreateRole | SetupStep::CreateProfile | SetupStep::AddRole => event is Done
                || event is AlreadyThere || event is Failed,
            SetupStep::Finished => false,
        }
    }

    /// The step that comes next where this one has not failed. What is there is
    /// not created again, and what has come to be there meanwhile is as good as
    /// what was created; the policies are attached in any case.
    pub open spec fn follow(self, event: StepEvent) -> SetupStep {
        match self {
            SetupStep::CheckRole => if event == StepEvent::Found(true) {
                SetupStep::AttachPolicy { index: 0 }
            } else {
                SetupStep::CreateRole
            },
            SetupStep::CreateRole => SetupStep::AttachPolicy { index: 0 },
            SetupStep::AttachPolicy { index } => if index == 0 {
                SetupStep::AttachPolicy { index: 1 }
            } else {
                SetupStep::CheckProfile
            },
            SetupStep::CheckProfile => if event == StepEvent::Found(true) {
                SetupStep::Finished
            } else {
                SetupStep::CreateProfile
            },
            SetupStep::CreateProfile => SetupStep::AddRole,
            SetupStep::AddRole => SetupStep::Finished,
            SetupStep::Finished => SetupStep::Finished,
        }
    }

    /// The error of a step that has failed.
    pub open spec fn failure(self, cause: Seq<char>) -> Seq<char> {
        match self {
            SetupStep::CreateRole => "create_role"@,
            SetupStep::AttachPolicy { index } => "attach_role_policy "@ + policy_arn(index),
            SetupStep::CreateProfile => "create_instance_profile"@,
            SetupStep::AddRole => "add_role_to_instance_profile"@,
            _ => cause,
        }
    }

    /// Whether the step can give this.
    pub fn accepts(&self, event: &StepEvent) -> (r: bool)
        ensures
            r == self.can_give(*event),
    {
        let failed = match event {
            StepEvent::Failed(_) => true,
            _ => false,
        };
        let found = match event {
            StepEvent::Found(_) => true,
            _ => false,
        };
        let done = match event {
            StepEvent::Done => true,
            _ => false,
        };
        let there = match event {
            StepEvent::AlreadyThere => true,
            _ => false,
        };
        match self {
            SetupStep::CheckRole => found || failed,
            SetupStep::CheckProfile => found || failed,
            SetupStep::AttachPolicy { index } => *index < 2 && (done || failed),
            SetupStep::CreateRole => done || there || failed,
            SetupStep::CreateProfile => done || there || failed,
            SetupStep::AddRole => done || there || failed,
            SetupStep::Finished => false,
        }
    }

    /// The ARN that a step attaches.
    pub fn arn(&self) -> (r: Option<&'static str>)
        ensures
            match self {
                SetupStep::AttachPolicy { index } if *index < 2 => r matches Some(s) && s@
                    == policy_arn(*index),
                _ => r is None,
            },
    {
        match self {
            SetupStep::AttachPolicy { index } => managed_arn(*index),
            _ => None,
        }
    }

    /// The next step, or the error.
    pub fn next(self, event: StepEvent) -> (r: Result<SetupStep, ProvisionError>)
        requires
            self.can_give(event),
        ensures
            match event {
                StepEvent::Failed(cause) => r matches Err(ProvisionError::Outside(e)) && e@
                    == self.failure(cause@),
                _ => r == Ok::<SetupStep, ProvisionError>(self.follow(event)),
            },
    {
        let found = match event {
            StepEvent::Found(f) => f,
            StepEvent::Done => false,
            StepEvent::AlreadyThere => false,
            StepEvent::Failed(cause) => {
                let text = match self {
                    SetupStep::CreateRole => "create_role".to_owned(),
                    SetupStep::AttachPolicy { index } => attach_failure(
                        "attach_role_policy ",
                        index,
                    ),
                    SetupStep::CreateProfile => "create_instance_profile".to_owned(),
                    SetupStep::AddRole => "add_role_to_instance_profile".to_owned(),
                    _ => cause,
                };
                return Err(ProvisionError::Outside(text));
            },
        };
        Ok(
            match self {
                SetupStep::CheckRole => if found {
                    SetupStep::AttachPolicy { index: 0 }
                } else {
                    SetupStep::CreateRole
                },
                SetupStep::CreateRole => SetupStep::AttachPolicy { index: 0 },
                SetupStep::AttachPolicy { index } => if index == 0 {
                    SetupStep::AttachPolicy { index: 1 }
                } else {
                    SetupStep::CheckProfile
                },
                SetupStep::CheckProfile => if found {
                    SetupStep::Finished
                } else {
                    SetupStep::CreateProfile
                },
                SetupStep::CreateProfile => SetupStep::AddRole,
                SetupStep::AddRole => SetupStep::Finished,
                SetupStep::Finished => SetupStep::Finished,
            },
        )
    }
}

/// The ARN of a managed policy by its place.
fn managed_arn(index: usize) -> (r: Option<&'static str>)
    ensures
        index < 2 ==> (r matches Some(s) && s@ == policy_arn(index)),
        index >= 2 ==> r is None,
{
    let arns = bastion_provisioner::managed_policy_arns();
    assert(arns@.map_values(|s: &'static str| s@)[0] == arns@[0]@);
    assert(arns@.map_values(|s: &'static str| s@)[1] == arns@[1]@);
    if index < arns.len() {
        Some(arns[index])
    } else {
        None
    }
}

fn attach_failure(what: &str, index: usize) -> (r: String)
    requires
        index < 2,
    ensures
        r@ == what@ + policy_arn(index),
{
    let mut out = what.to_owned();
    if let Some(arn) = managed_arn(index) {
        out.append(arn);
    }
    out
}

/// The step behind `i` is the one that follows from it.
pub open spec fn setup_linked(run: Seq<(SetupStep, StepEvent)>, i: int) -> bool {
    run[i + 1].0 == run[i].0.follow(run[i].1)
}

/// A run of set-up steps and what they gave, from the first on, none failed.
pub open spec fn is_setup_run(run: Seq<(SetupStep, StepEvent)>) -> bool {
    &&& run.len() > 0
    &&& run[0].0 == SetupStep::CheckRole
    &&& forall|i: int|
        0 <= i < run.len() ==> (#[trigger] run[i]).0.can_give(run[i].1) && !(run[i].1 is Failed)
    &&& forall|i: int|
        0 <= i < run.len() - 1 ==> #[trigger] setup_linked(run, i)
}

/// The run is over.
pub open spec fn setup_is_over(run: Seq<(SetupStep, StepEvent)>) -> bool {
    run.last().0.follow(run.last().1) == SetupStep::Finished
}

/// A set-up that comes to its end has attached both policies, behind the
/// creation of the role where there was none; it has created the role only
/// where there was none, and the instance profile likewise.
pub proof fn law_setup_completes(run: Seq<(SetupStep, StepEvent)>)
    requires
        is_setup_run(run),
        setup_is_over(run),
    ensures
        ({
            let a: int = if run[0].1 == StepEvent::Found(true) {
                1
            } else {
                2
            };
            &&& run.len() > a + 2
            &&& a == 2 ==> run[1].0 == SetupStep::CreateRole
            &&& run[a].0 == SetupStep::AttachPolicy { index: 0 }
            &&& run[a + 1].0 == SetupStep::AttachPolicy { index: 1 }
            &&& run[a + 2].0 == SetupStep::CheckProfile
            &&& if run[a + 2].1 == StepEvent::Found(true) {
                run.len() == a + 3
            } else {
                &&& run.len() == a + 5
                &&& run[a + 3].0 == SetupStep::CreateProfile
                &&& run[a + 4].0 == SetupStep::AddRole
            }
        }),
{
    let n = run.len();
    let a: int = if run[0].1 == StepEvent::Found(true) {
        1
    } else {
        2
    };
    assert(run[0].0.can_give(run[0].1));
    assert(n > 1);
    assert(setup_linked(run, 0));
    assert(run[1].0.can_give(run[1].1));
    if a == 2 {
        assert(n > 2);
        assert(setup_linked(run, 1));
    }
    assert(run[a].0.can_give(run[a].1));
    assert(n > a + 1);
    assert(setup_linked(run, a));
    assert(run[a + 1].0.can_give(run[a + 1].1));
    assert(n > a + 2);
    assert(setup_linked(run, a + 1));
    assert(run[a + 2].0.can_give(run[a + 2].1));
    if n > a + 3 {
        assert(setup_linked(run, a + 2));
        assert(run[a + 3].0.can_give(run[a + 3].1));
        if n > a + 4 {
            assert(setup_linked(run, a + 3));
            assert(run[a + 4].0.can_give(run[a + 4].1));
            if n > a + 5 {
                assert(setup_linked(run, a + 4));
                assert(run[a + 5].0.can_give(run[a + 5].1));
            }
        }
    }
}

/// Racing another run does no harm: where something that was to be created is
/// there already, setting up goes on as if it had been created.
pub proof fn law_setup_tolerates_what_is_there(step: SetupStep)
    requires
        step.can_give(StepEvent::AlreadyThere),
    ensures
        step.follow(StepEvent::AlreadyThere) == step.follow(StepEvent::Done),
        step is CreateRole || step is CreateProfile || step is AddRole,
{
}

/// A step of tearing down the role and its instance profile.
#[derive(Debug, Clone, Copy, PartialEq, Eq, Structural)]
pub enum TeardownStep {
    CheckProfile,
    RemoveRole,
    DeleteProfile,
    CheckRole,
    DetachPolicy { index: usize },
    DeleteRole,
    Finished,
}

impl TeardownStep {
    /// The step can give this.
    pub open spec fn can_give(self, event: StepEvent) -> bool {
        match self {
            TeardownStep::CheckProfile | TeardownStep::CheckRole => event is Found
                || event is Failed,
            TeardownStep::DetachPolicy { index } => index < 2 && (event is Done || event is Failed),
            TeardownStep::RemoveRole
            | TeardownStep::DeleteProfile
            | TeardownStep::DeleteRole => event is Done || event is Failed,
            TeardownStep::Finished => false,
        }
    }

    /// A failure of the step does not matter.
    pub open spec fn is_best_effort(self) -> bool {
        self is RemoveRole || self is DetachPolicy
    }

    /// The step that comes next where this one has not failed, or its failure
    /// does not matter. What is not there is not deleted.
    pub open spec fn follow(self, event: StepEvent) -> TeardownStep {
        match self {
            TeardownStep::CheckProfile => if event == StepEvent::Found(true) {
                TeardownStep::RemoveRole
            } else {
                TeardownStep::CheckRole
            },
            TeardownStep::RemoveRole => TeardownStep::DeleteProfile,
            TeardownStep::DeleteProfile => TeardownStep::CheckRole,
            TeardownStep::CheckRole => if event == StepEvent::Found(true) {
                TeardownStep::DetachPolicy { index: 0 }
            } else {
                TeardownStep::Finished
            },
            TeardownStep::DetachPolicy { index } => if index == 0 {
                TeardownStep::DetachPolicy { index: 1 }
            } else {
                TeardownStep::DeleteRole
            },
            TeardownStep::DeleteRole => TeardownStep::Finished,
            TeardownStep::Finished => TeardownStep::Finished,
        }
    }

    /// The error of a step that has failed.
    pub open spec fn failure(self, cause: Seq<char>) -> Seq<char> {
        match self {
            TeardownStep::DeleteProfile => "delete_instance_profile"@,
            TeardownStep::DeleteRole => "delete_role"@,
            _ => cause,
        }
    }

    /// Whether the step can give this.
    pub fn accepts(&self, event: &StepEvent) -> (r: bool)
        ensures
            r == self.can_give(*event),
    {
        let failed = match event {
            StepEvent::Failed(_) => true,
            _ => false,
        };
        let found = match event {
            StepEvent::Found(_) => true,
            _ => false,
        };
        let done = match event {
            StepEvent::Done => true,
            _ => false,
        };
        match self {
            TeardownStep::CheckProfile => found || failed,
            TeardownStep::CheckRole => found || failed,
            TeardownStep::DetachPolicy { index } => *index < 2 && (done || failed),
            TeardownStep::RemoveRole => done || failed,
            TeardownStep::DeleteProfile => done || failed,
            TeardownStep::DeleteRole => done || failed,
            TeardownStep::Finished => false,
        }
    }

    /// The ARN that a step detaches.
    pub fn arn(&self) -> (r: Option<&'static str>)
        ensures
            match self {
                TeardownStep::DetachPolicy { index } if *index < 2 => r matches Some(s) && s@
                    == policy_arn(*index),
                _ => r is None,
            },
    {
        match self {
            TeardownStep::DetachPolicy { index } => managed_arn(*index),
            _ => None,
        }
    }

    /// The next step, or the error.
    pub fn next(self, event: StepEvent) -> (r: Result<TeardownStep, ProvisionError>)
        requires
            self.can_give(event),
        ensures
            if event is Failed && !self.is_best_effort() {
                r matches Err(ProvisionError::Outside(e)) && e@ == self.failure(event->Failed_0@)
            } else {
                r == Ok::<TeardownStep, ProvisionError>(self.follow(event))
            },
    {
        let best_effort = match self {
            TeardownStep::RemoveRole => true,
            TeardownStep::DetachPolicy { .. } => true,
            _ => false,
        };
        let found = match event {
            StepEvent::Found(f) => f,
            StepEvent::Done => false,
            StepEvent::AlreadyThere => false,
            StepEvent::Failed(cause) => {
                if !best_effort {
                    let text = match self {
                        TeardownStep::DeleteProfile => "delete_instance_profile".to_owned(),
                        TeardownStep::DeleteRole => "delete_role".to_owned(),
                        _ => cause,
                    };
                    return Err(ProvisionError::Outside(text));
                }
                false
            },
        };
        Ok(
            match self {
                TeardownStep::CheckProfile => if found {
                    TeardownStep::RemoveRole
                } else {
                    TeardownStep::CheckRole
                },
                TeardownStep::RemoveRole => TeardownStep::DeleteProfile,
                TeardownStep::DeleteProfile => TeardownStep::CheckRole,
                TeardownStep::CheckRole => if found {
                    TeardownStep::DetachPolicy { index: 0 }
                } else {
                    TeardownStep::Finished
                },
                TeardownStep::DetachPolicy { index } => if index == 0 {
                    TeardownStep::DetachPolicy { index: 1 }
                } else {
                    TeardownStep::DeleteRole
                },
                TeardownStep::DeleteRole => TeardownStep::Finished,
                TeardownStep::Finished => TeardownStep::Finished,
            },
        )
    }
}

/// The step behind `i` is the one that follows from it.
pub open spec fn teardown_linked(run: Seq<(TeardownStep, StepEvent)>, i: int) -> bool {
    run[i + 1].0 == run[i].0.follow(run[i].1)
}

/// A run of teardown steps and what they gave, from the first on.
pub open spec fn is_teardown_run(run: Seq<(TeardownStep, StepEvent)>) -> bool {
    &&& run.len() > 0
    &&& run[0].0 == TeardownStep::CheckProfile
    &&& forall|i: int|
        0 <= i < run.len() ==> (#[trigger] run[i]).0.can_give(run[i].1) && (run[i].1 is Failed
            ==> run[i].0.is_best_effort())
    &&& forall|i: int|
        0 <= i < run.len() - 1 ==> #[trigger] teardown_linked(run, i)
}

/// The run is over.
pub open spec fn teardown_is_over(run: Seq<(TeardownStep, StepEvent)>) -> bool {
    run.last().0.follow(run.last().1) == TeardownStep::Finished
}

/// A teardown that comes to its end has deleted the instance profile where
/// there was one, and then the role where there was one, each behind what hangs
/// on it.
pub proof fn law_teardown_completes(run: Seq<(TeardownStep, StepEvent)>)
    requires
        is_teardown_run(run),
        teardown_is_over(run),
    ensures
        ({
            let a: int = if run[0].1 == StepEvent::Found(true) {
                3
            } else {
                1
            };
            &&& run.len() > a
            &&& a == 3 ==> run[1].0 == TeardownStep::RemoveRole && run[2].0
                == TeardownStep::DeleteProfile
            &&& run[a].0 == TeardownStep::CheckRole
            &&& if run[a].1 == StepEvent::Found(true) {
                &&& run.len() == a + 4
                &&& run[a + 1].0 == TeardownStep::DetachPolicy { index: 0 }
                &&& run[a + 2].0 == TeardownStep::DetachPolicy { index: 1 }
                &&& run[a + 3].0 == TeardownStep::DeleteRole
            } else {
                run.len() == a + 1
            }
        }),
{
    let n = run.len();
    let a: int = if run[0].1 == StepEvent::Found(true) {
        3
    } else {
        1
    };
    assert(run[0].0.can_give(run[0].1));
    assert(n > 1);
    assert(teardown_linked(run, 0));
    assert(run[1].0.can_give(run[1].1));
    if a == 3 {
        assert(n > 2);
        assert(teardown_linked(run, 1));
        assert(run[2].0.can_give(run[2].1));
        assert(n > 3);
        assert(teardown_linked(run, 2));
    }
    assert(run[a].0.can_give(run[a].1));
    if n > a + 1 {
        assert(teardown_linked(run, a));
        assert(run[a + 1].0.can_give(run[a + 1].1));
        if n > a + 2 {
            assert(teardown_linked(run, a + 1));
            assert(run[a + 2].0.can_give(run[a + 2].1));
            if n > a + 3 {
                assert(teardown_linked(run, a + 2));
                assert(run[a + 3].0.can_give(run[a + 3].1));
                if n > a + 4 {
                    assert(teardown_linked(run, a + 3));
                    assert(run[a + 4].0.can_give(run[a + 4].1));
                }
            }
        }
    }
}

/// A step of setting up the security group.
#[derive(Debug, Clone, PartialEq, Eq)]
pub enum GroupStep {
    /// Look the group up by its name.
    Find,
    /// Look up the VPC of the group that the plan lets in.
    FindVpc { source_group: String },
    /// Create the group in the VPC.
    Create { vpc_id: String },
    /// Look up the group that another run has created meanwhile.
    FindAgain,
    /// Ask for the permission of a rule of the plan, by its place.
    Authorize { group_id: String, rule: usize },
    Finished { group_id: String },
}

/// What a step of setting up the security group gave.
#[derive(Debug, Clone, PartialEq, Eq)]
pub enum GroupEvent {
    /// The ID of the group found or created, if there is one.
    Group(Option<String>),
    Vpc(String),
    Authorized,
    /// AWS refused the call, with a code and in words.
    Refused { code: Option<String>, text: String },
    /// The call failed; the text says how.
    Failed(String),
}

/// The group of the first rule that lets a security group in.
pub open spec fn source_group(rules: Seq<IngressRule>) -> Option<String>
    decreases rules.len(),
{
    if rules.len() == 0 {
        None
    } else {
        match rules[0].source {
            IngressSource::SecurityGroup(id) => Some(id),
            IngressSource::Cidr(_) => source_group(rules.drop_first()),
        }
    }
}

fn find_source_group(rules: &Vec<IngressRule>) -> (r: Option<String>)
    ensures
        r == source_group(rules@),
{
    let mut i: usize = 0;
    assert(rules@.skip(0) =~= rules@);
    while i < rules.len()
        invariant
            i <= rules@.len(),
            source_group(rules@) == source_group(rules@.skip(i as int)),
        decreases rules@.len() - i,
    {
        assert(rules@.skip(i as int)[0] == rules@[i as int]);
        assert(rules@.skip(i as int).drop_first() =~= rules@.skip(i + 1));
        if let IngressSource::SecurityGroup(id) = &rules[i].source {
            return Some(id.clone());
        }
        i = i + 1;
    }
    None
}

/// The rule that comes next for a group, or the end.
pub open spec fn authorize_from(group_id: String, rule: usize, rules: nat) -> GroupStep {
    if rule < rules {
        GroupStep::Authorize { group_id, rule }
    } else {
        GroupStep::Finished { group_id }
    }
}

/// The rule is there already, from a prior run.
pub open spec fn is_duplicate(event: GroupEvent) -> bool {
    event matches GroupEvent::Refused { code: Some(code), .. } && code@
        == "InvalidPermission.Duplicate"@
}

/// The group is there already: another run was faster.
pub open spec fn is_taken(event: GroupEvent) -> bool {
    event matches GroupEvent::Refused { code: Some(code), .. } && code@ == "InvalidGroup.Duplicate"@
}

fn has_code(code: &Option<String>, wanted: &str) -> (r: bool)
    ensures
        r == (code matches Some(c) && c@ == wanted@),
{
    match code {
        Some(c) => text::same(c.as_str(), wanted),
        None => false,
    }
}

impl GroupStep {
    /// The step can give this.
    pub open spec fn can_give(self, plan: SecurityGroupPlan, event: GroupEvent) -> bool {
        match self {
            GroupStep::Find | GroupStep::FindAgain => event is Group || event is Failed,
            GroupStep::Create { .. } => event is Group || event is Refused || event is Failed,
            GroupStep::FindVpc { .. } => event is Vpc || event is Failed,
            GroupStep::Authorize { rule, .. } => rule < plan.ingress@.len() && (event is Authorized
                || event is Refused),
            GroupStep::Finished { .. } => false,
        }
    }

    /// What comes of a step and what it gave. A group that is there is kept and
    /// only brought up to the plan; one that is not is created in the VPC of the
    /// group that the plan lets in. A group that has come to be there meanwhile is
    /// looked up, and a rule that is there already is as good as one that was
    /// added.
    pub open spec fn comes_to(
        self,
        plan: SecurityGroupPlan,
        event: GroupEvent,
        r: Result<GroupStep, ProvisionError>,
    ) -> bool {
        match (self, event) {
            (GroupStep::Find, GroupEvent::Group(Some(id))) => r == Ok::<GroupStep, ProvisionError>(
                authorize_from(id, 0, plan.ingress@.len()),
            ),
            (GroupStep::Find, GroupEvent::Group(None)) => match source_group(plan.ingress@) {
                Some(id) => r == Ok::<GroupStep, ProvisionError>(
                    GroupStep::FindVpc { source_group: id },
                ),
                None => fails(r, "plan has no SG-source ingress to derive VPC from"@),
            },
            (GroupStep::Find, _) => fails(r, "describe_security_groups"@),
            (GroupStep::FindVpc { .. }, GroupEvent::Vpc(vpc_id)) => r == Ok::<
                GroupStep,
                ProvisionError,
            >(GroupStep::Create { vpc_id }),
            (GroupStep::FindVpc { .. }, GroupEvent::Failed(e)) => fails(r, e@),
            (GroupStep::Create { .. }, GroupEvent::Group(Some(id))) => r == Ok::<
                GroupStep,
                ProvisionError,
            >(authorize_from(id, 0, plan.ingress@.len())),
            (GroupStep::Create { .. }, GroupEvent::Group(None)) => fails(
                r,
                "create_security_group returned no GroupId"@,
            ),
            (GroupStep::Create { .. }, _) => if is_taken(event) {
                r == Ok::<GroupStep, ProvisionError>(GroupStep::FindAgain)
            } else {
                fails(r, "create_security_group"@)
            },
            (GroupStep::FindAgain, GroupEvent::Group(Some(id))) => r == Ok::<
                GroupStep,
                ProvisionError,
            >(authorize_from(id, 0, plan.ingress@.len())),
            (GroupStep::FindAgain, GroupEvent::Group(None)) => fails(
                r,
                "security group exists but was not found"@,
            ),
            (GroupStep::FindAgain, _) => fails(r, "describe_security_groups"@),
            (GroupStep::Authorize { group_id, rule }, GroupEvent::Refused { text, .. })
                if !is_duplicate(event) => fails(
                r,
                "authorize_security_group_ingress failed: "@ + text@,
            ),
            (GroupStep::Authorize { group_id, rule }, _) => r == Ok::<GroupStep, ProvisionError>(
                authorize_from(group_id, (rule + 1) as usize, plan.ingress@.len()),
            ),
            (_, _) => true,
        }
    }

    /// Whether the step can give this.
    pub fn accepts(&self, plan: &SecurityGroupPlan, event: &GroupEvent) -> (r: bool)
        ensures
            r == self.can_give(*plan, *event),
    {
        match self {
            GroupStep::Find => gives_group(event),
            GroupStep::FindAgain => gives_group(event),
            GroupStep::Create { .. } => gives_group(event) || match event {
                GroupEvent::Refused { .. } => true,
                _ => false,
            },
            GroupStep::FindVpc { .. } => match event {
                GroupEvent::Vpc(_) => true,
                GroupEvent::Failed(_) => true,
                _ => false,
            },
            GroupStep::Authorize { rule, .. } => *rule < plan.ingress.len() && match event {
                GroupEvent::Authorized => true,
                GroupEvent::Refused { .. } => true,
                _ => false,
            },
            GroupStep::Finished { .. } => false,
        }
    }

    /// The next step, or the error.
    pub fn next(self, plan: &SecurityGroupPlan, event: GroupEvent) -> (r: Result<
        GroupStep,
        ProvisionError,
    >)
        requires
            self.can_give(*plan, event),
        ensures
            self.comes_to(*plan, event, r),
    {
        let rules: usize = plan.ingress.len();
        match self {
            GroupStep::Find => match event {
                GroupEvent::Group(Some(id)) => Ok(authorize(id, 0, rules)),
                GroupEvent::Group(None) => match find_source_group(&plan.ingress) {
                    Some(source_group) => Ok(GroupStep::FindVpc { source_group }),
                    None => Err(
                        ProvisionError::Outside(
                            "plan has no SG-source ingress to derive VPC from".to_owned(),
                        ),
                    ),
                },
                _ => Err(ProvisionError::Outside("describe_security_groups".to_owned())),
            },
            GroupStep::FindVpc { source_group } => match event {
                GroupEvent::Vpc(vpc_id) => Ok(GroupStep::Create { vpc_id }),
                GroupEvent::Failed(e) => Err(ProvisionError::Outside(e)),
                _ => Ok(GroupStep::FindVpc { source_group }),
            },
            GroupStep::Create { .. } => match event {
                GroupEvent::Group(Some(id)) => Ok(authorize(id, 0, rules)),
                GroupEvent::Group(None) => Err(
                    ProvisionError::Outside("create_security_group returned no GroupId".to_owned()),
                ),
                GroupEvent::Refused { code, .. } => if has_code(&code, "InvalidGroup.Duplicate") {
                    Ok(GroupStep::FindAgain)
                } else {
                    Err(ProvisionError::Outside("create_security_group".to_owned()))
                },
                _ => Err(ProvisionError::Outside("create_security_group".to_owned())),
            },
            GroupStep::FindAgain => match event {
                GroupEvent::Group(Some(id)) => Ok(authorize(id, 0, rules)),
                GroupEvent::Group(None) => Err(
                    ProvisionError::Outside("security group exists but was not found".to_owned()),
                ),
                _ => Err(ProvisionError::Outside("describe_security_groups".to_owned())),
            },
            GroupStep::Authorize { group_id, rule } => {
                if let GroupEvent::Refused { code, text } = &event {
                    if !has_code(code, "InvalidPermission.Duplicate") {
                        let mut message = "authorize_security_group_ingress failed: ".to_owned();
                        message.append(text.as_str());
                        return Err(ProvisionError::Outside(message));
                    }
                }
                Ok(authorize(group_id, rule + 1, rules))
            },
            GroupStep::Finished { group_id } => Ok(GroupStep::Finished { group_id }),
        }
    }
}

/// An error of this text.
pub open spec fn fails(r: Result<GroupStep, ProvisionError>, text: Seq<char>) -> bool {
    r matches Err(ProvisionError::Outside(e)) && e@ == text
}

fn gives_group(event: &GroupEvent) -> (r: bool)
    ensures
        r == (event is Group || event is Failed),
{
    match event {
        GroupEvent::Group(_) => true,
        GroupEvent::Failed(_) => true,
        _ => false,
    }
}

fn authorize(group_id: String, rule: usize, rules: usize) -> (r: GroupStep)
    ensures
        r == authorize_from(group_id, rule, rules as nat),
{
    if rule < rules {
        GroupStep::Authorize { group_id, rule }
    } else {
        GroupStep::Finished { group_id }
    }
}

/// How many steps there are still to come at the most.
pub open spec fn group_steps_left(step: GroupStep, rules: int) -> int {
    match step {
        GroupStep::Find => rules + 5,
        GroupStep::FindVpc { .. } => rules + 4,
        GroupStep::Create { .. } => rules + 3,
        GroupStep::FindAgain => rules + 2,
        GroupStep::Authorize { rule, .. } => rules - rule + 1,
        GroupStep::Finished { .. } => 0,
    }
}

/// Setting up the security group comes to an end: every step leaves fewer to
/// come.
pub proof fn law_group_setup_ends(
    plan: SecurityGroupPlan,
    step: GroupStep,
    event: GroupEvent,
    next: GroupStep,
)
    requires
        plan.ingress@.len() <= usize::MAX,
        step.can_give(plan, event),
        step.comes_to(plan, event, Ok(next)),
    ensures
        0 <= group_steps_left(next, plan.ingress@.len() as int) < group_steps_left(
            step,
            plan.ingress@.len() as int,
        ),
{
}

/// A group that is found is the one that is brought up to the plan; it is not
/// created anew.
pub proof fn law_found_group_is_kept(plan: SecurityGroupPlan, id: String, next: GroupStep)
    requires
        GroupStep::Find.comes_to(plan, GroupEvent::Group(Some(id)), Ok(next)),
    ensures
        next == (GroupStep::Authorize { group_id: id, rule: 0 }) || next == (GroupStep::Finished {
            group_id: id,
        }),
{
}

/// Racing another run does no harm: where the group is there already when it is
/// to be created, it is looked up and brought up to the plan.
pub proof fn law_group_setup_tolerates_what_is_there(
    plan: SecurityGroupPlan,
    vpc_id: String,
    event: GroupEvent,
    next: GroupStep,
    id: String,
    last: GroupStep,
)
    requires
        is_taken(event),
        (GroupStep::Create { vpc_id }).comes_to(plan, event, Ok(next)),
        next.comes_to(plan, GroupEvent::Group(Some(id)), Ok(last)),
    ensures
        (GroupStep::Create { vpc_id }).can_give(plan, event),
        next == GroupStep::FindAgain,
        last == authorize_from(id, 0, plan.ingress@.len()),
{
}

/// From rule to rule the group stays the same, no rule is passed over, and the
/// end comes only behind the last.
pub proof fn law_every_rule_is_authorized(
    plan: SecurityGroupPlan,
    group_id: String,
    rule: usize,
    event: GroupEvent,
    next: GroupStep,
)
    requires
        (GroupStep::Authorize { group_id, rule }).can_give(plan, event),
        plan.ingress@.len() <= usize::MAX,
        (GroupStep::Authorize { group_id, rule }).comes_to(plan, event, Ok(next)),
    ensures
        match next {
            GroupStep::Authorize { group_id: g, rule: k } => g == group_id && k == rule + 1,
            GroupStep::Finished { group_id: g } => g == group_id && rule + 1
                == plan.ingress@.len(),
            _ => false,
        },
        event == GroupEvent::Authorized || is_duplicate(event),
{
}

} // verus!
