//! What init and destroy do, told by their calls and what these answered.

use vstd::prelude::*;
use crate::bastion_provisioner;
use crate::bastion_provisioner::{
    BastionContext, BastionProvisioner, BastionStatus, Call, DestroyOutcome, IngressSource,
    InitOutcome, InstanceSummary, LaunchPlan, PlanLogger, ProvisionError, SecurityGroupPlan,
};
use crate::config::TunnelConfig;
use crate::message_laws;
use crate::text;

verus! {

/// An init whose look-up finds an instance in any state but `terminated`,
/// `shutting-down` or none makes that one call, and hands the instance and its
/// security group out as reused.
pub proof fn law_init_reuses_what_is_there<
    F: FnOnce(&String) -> Result<LaunchPlan, ProvisionError>,
>(
    name: Seq<char>,
    sg_plan: SecurityGroupPlan,
    launch_plan_for: F,
    calls: Seq<Call>,
    r: Result<InitOutcome, ProvisionError>,
    existing: InstanceSummary,
)
    requires
        bastion_provisioner::init_script(name, sg_plan, launch_plan_for, calls, r),
        calls[0] == Call::FindInstance(name, Ok(Some(existing))),
        existing.state@ != "terminated"@,
        existing.state@ != "shutting-down"@,
        existing.state@.len() > 0,
    ensures
        calls.len() == 1,
        r matches Ok(out) && out.reused && out.instance_id@ == existing.instance_id@ && match (
            existing.security_group_id
        ) {
            Some(id) => out.security_group_id@ == id@,
            None => out.security_group_id@.len() == 0,
        },
{
    reveal_strlit("");
}

/// An instance that is pending, running, stopping or stopped is reused.
pub proof fn law_init_reuses_every_living_state<
    F: FnOnce(&String) -> Result<LaunchPlan, ProvisionError>,
>(
    name: Seq<char>,
    sg_plan: SecurityGroupPlan,
    launch_plan_for: F,
    calls: Seq<Call>,
    r: Result<InitOutcome, ProvisionError>,
    existing: InstanceSummary,
)
    requires
        bastion_provisioner::init_script(name, sg_plan, launch_plan_for, calls, r),
        calls[0] == Call::FindInstance(name, Ok(Some(existing))),
        existing.state@ == "pending"@ || existing.state@ == "running"@ || existing.state@
            == "stopping"@ || existing.state@ == "stopped"@,
    ensures
        calls.len() == 1,
        r matches Ok(out) && out.reused && out.instance_id@ == existing.instance_id@,
{
    reveal_strlit("pending");
    reveal_strlit("running");
    reveal_strlit("stopping");
    reveal_strlit("stopped");
    reveal_strlit("terminated");
    reveal_strlit("shutting-down");
    let state = existing.state@;
    assert(state[0] != 't');
    assert(state != "terminated"@);
    assert(state != "shutting-down"@) by {
        assert(state.len() < 13);
    }
    law_init_reuses_what_is_there(name, sg_plan, launch_plan_for, calls, r, existing);
}

/// An init that finds no instance, or one that is gone or going, goes on to create
/// one: it asks for the role next, and what it hands out is not reused.
pub proof fn law_init_creates_where_nothing_lives<
    F: FnOnce(&String) -> Result<LaunchPlan, ProvisionError>,
>(
    name: Seq<char>,
    sg_plan: SecurityGroupPlan,
    launch_plan_for: F,
    calls: Seq<Call>,
    r: Result<InitOutcome, ProvisionError>,
    found: Option<InstanceSummary>,
)
    requires
        bastion_provisioner::init_script(name, sg_plan, launch_plan_for, calls, r),
        calls[0] == Call::FindInstance(name, Ok(found)),
        found matches Some(x) ==> x.state@ == "terminated"@ || x.state@ == "shutting-down"@
            || x.state@.len() == 0,
    ensures
        calls.len() > 1,
        calls[1] is EnsureIamRole,
        r matches Ok(out) ==> {
            &&& !out.reused
            &&& calls.len() == 5
            &&& calls[2] matches Call::EnsureSecurityGroup(plan, Ok(id)) && plan == sg_plan && id@
                == out.security_group_id@
            &&& calls[3] matches Call::LaunchInstance(_, Ok(id)) && id@ == out.instance_id@
            &&& calls[4] matches Call::WaitUntilRunning(id, Ok(_)) && id == out.instance_id@
        },
{
    reveal_strlit("");
    if let Some(x) = found {
        if x.state@.len() == 0 {
            assert(x.state@ =~= ""@);
        }
    }
}

/// A destroy that succeeds has ended the very instance that was found, taken down its
/// security group where it has one, and the role last; where none was found it has
/// done nothing.
pub proof fn law_destroy_takes_down_what_was_found(
    name: Seq<char>,
    calls: Seq<Call>,
    out: DestroyOutcome,
    found: Option<InstanceSummary>,
)
    requires
        bastion_provisioner::destroy_script(name, calls, Ok(out)),
        calls[0] == Call::FindInstance(name, Ok(found)),
    ensures
        match found {
            None => calls.len() == 1 && out.instance_id is None && out.security_group_id is None,
            Some(x) => {
                &&& calls[1] matches Call::TerminateInstance(id, Ok(_)) && id == x.instance_id@
                &&& out.instance_id matches Some(id) && id@ == x.instance_id@
                &&& match x.security_group_id {
                    None => out.security_group_id is None && calls.len() == 3,
                    Some(sg) => {
                        &&& out.security_group_id matches Some(id) && id@ == sg@
                        &&& calls.len() == 4
                        &&& calls[2] matches Call::DeleteSecurityGroup(id, Ok(_)) && id == sg@
                    },
                }
                &&& calls.last() matches Call::DeleteIamRole(Ok(_))
            },
        },
{
}

/// The four resources of a project are named after it.
pub proof fn law_resources_are_named_after_the_project(
    ctx: BastionContext,
    instance: String,
    group: String,
    role: String,
    profile: String,
)
    requires
        call_ensures(BastionContext::instance_name, (&ctx,), instance),
        call_ensures(BastionContext::security_group_name, (&ctx,), group),
        call_ensures(BastionContext::iam_role_name, (&ctx,), role),
        call_ensures(BastionContext::iam_instance_profile_name, (&ctx,), profile),
    ensures
        instance@ == "ephemwork-"@ + ctx.project_name@ + "-bastion"@,
        group@ == instance@ + "-sg"@,
        role@ == instance@ + "-role"@,
        profile@ == instance@ + "-instance-profile"@,
{
    reveal_strlit("-bastion");
    reveal_strlit("-bastion-sg");
    reveal_strlit("-bastion-role");
    reveal_strlit("-bastion-instance-profile");
    reveal_strlit("-sg");
    reveal_strlit("-role");
    reveal_strlit("-instance-profile");
    assert(group@ =~= instance@ + "-sg"@);
    assert(role@ =~= instance@ + "-role"@);
    assert(profile@ =~= instance@ + "-instance-profile"@);
}

/// The plan of the security group bears the group's name and has one rule only: TCP on
/// port 80, from the load balancer's group. There is one for every group that is named
/// by more than white space.
pub proof fn law_only_the_load_balancer_comes_in(
    ctx: BastionContext,
    alb: &str,
    r: Result<SecurityGroupPlan, ProvisionError>,
    name: String,
)
    requires
        call_ensures(bastion_provisioner::security_group_plan, (&ctx, alb), r),
        call_ensures(BastionContext::security_group_name, (&ctx,), name),
    ensures
        r matches Ok(plan) ==> {
            &&& plan.name@ == name@
            &&& plan.ingress@.len() == 1
            &&& plan.ingress@[0].protocol@ == "tcp"@
            &&& plan.ingress@[0].from_port == 80
            &&& plan.ingress@[0].to_port == 80
            &&& plan.ingress@[0].source matches IngressSource::SecurityGroup(id) && id@ == alb@
        },
        r matches Err(e) ==> e == ProvisionError::EmptyAlbSecurityGroup && forall|i: int|
            0 <= i < alb@.len() ==> text::is_white(#[trigger] alb@[i]),
        r is Ok ==> exists|i: int| 0 <= i < alb@.len() && !text::is_white(#[trigger] alb@[i]),
{
}

/// The instance that is launched bears the tag by which it is looked up again, the
/// profile and the group of its project, and what the configuration says of it.
pub proof fn law_launched_instance_is_found_again(
    cfg: TunnelConfig,
    ctx: BastionContext,
    ami: &str,
    subnet: &str,
    group: &str,
    uri: &str,
    r: Result<LaunchPlan, ProvisionError>,
    name: String,
    profile: String,
)
    requires
        call_ensures(LaunchPlan::from_config, (&cfg, &ctx, ami, subnet, group, uri), r),
        call_ensures(BastionContext::instance_name, (&ctx,), name),
        call_ensures(BastionContext::iam_instance_profile_name, (&ctx,), profile),
    ensures
        r is Ok <==> uri@.len() >= 5 && uri@.take(5) == seq!['s', '3', ':', '/', '/'],
        r matches Ok(plan) ==> {
            &&& exists|i: int|
                0 <= i < plan.tags@.len() && (#[trigger] plan.tags@[i]).0@ == "Name"@
                    && plan.tags@[i].1@ == name@
            &&& exists|i: int|
                0 <= i < plan.tags@.len() && (#[trigger] plan.tags@[i]).0@ == "EphemworkProject"@
                    && plan.tags@[i].1@ == ctx.project_name@
            &&& plan.instance_profile_name@ == profile@
            &&& plan.region@ == cfg.region@
            &&& plan.instance_type@ == cfg.instance_type@
            &&& plan.ami_id@ == ami@
            &&& plan.subnet_id@ == subnet@
            &&& plan.security_group_id@ == group@
        },
{
    reveal_strlit("s3://");
    assert("s3://"@ =~= seq!['s', '3', ':', '/', '/']);
    if let Ok(plan) = r {
        let tags = bastion_provisioner::tag_views(plan.tags@);
        assert(tags == bastion_provisioner::project_tags(ctx.project_name@));
        assert(tags.len() == 3 && plan.tags@.len() == 3);
        assert(tags[0] == (plan.tags@[0].0@, plan.tags@[0].1@));
        assert(tags[2] == (plan.tags@[2].0@, plan.tags@[2].1@));
    }
}

/// What is printed of a bastion names its instance, its state, its address and its group,
/// with a question mark for what is not known; and of none, the name that was looked for.
pub proof fn law_status_names_the_instance(
    status: BastionStatus,
    ctx: BastionContext,
    name: String,
    r: String,
)
    requires
        call_ensures(BastionContext::instance_name, (&ctx,), name),
        call_ensures(bastion_provisioner::render_bastion_status, (&status, &ctx), r),
    ensures
        match status.instance {
            None => r@ == "no bastion found (no instance tagged Name="@ + name@
                + ").\nrun `ephemwork bastion init --live ...` to provision one."@,
            Some(s) => r@ == "bastion: "@ + s.instance_id@ + "  state="@ + s.state@
                + "  private_ip="@ + (match s.private_ip {
                Some(ip) => ip@,
                None => "?"@,
            }) + "  sg="@ + (match s.security_group_id {
                Some(id) => id@,
                None => "?"@,
            }) + "\n(active sessions live in /var/lib/ephemwork/registry.json on the bastion)"@,
        },
{
}

/// An init and a destroy look for the bastion of their project before anything else; a
/// status does nothing but that, and hands out what was found.
pub proof fn law_look_up_comes_first<
    P: BastionProvisioner,
    F: FnOnce(&String) -> Result<LaunchPlan, ProvisionError>,
>(
    initing: &mut P,
    destroying: &mut P,
    asking: &mut P,
    ctx: BastionContext,
    sg_plan: SecurityGroupPlan,
    launch_plan_for: F,
    inited: Result<InitOutcome, ProvisionError>,
    destroyed: Result<DestroyOutcome, ProvisionError>,
    status: Result<BastionStatus, ProvisionError>,
)
    requires
        call_ensures(
            bastion_provisioner::run_init::<P, F>,
            (initing, &ctx, &sg_plan, launch_plan_for),
            inited,
        ),
        call_ensures(bastion_provisioner::run_destroy::<P>, (destroying, &ctx), destroyed),
        call_ensures(bastion_provisioner::run_status::<P>, (asking, &ctx), status),
    ensures
        exists|calls: Seq<Call>| #[trigger]
            bastion_provisioner::runs(*old(initing), calls, *final(initing)) && looks_first(
                ctx,
                calls,
            ) && bastion_provisioner::init_script(
                calls[0]->FindInstance_0,
                sg_plan,
                launch_plan_for,
                calls,
                inited,
            ),
        exists|calls: Seq<Call>| #[trigger]
            bastion_provisioner::runs(*old(destroying), calls, *final(destroying)) && looks_first(
                ctx,
                calls,
            ) && bastion_provisioner::destroy_script(
                calls[0]->FindInstance_0,
                calls,
                destroyed,
            ),
        exists|found: Result<Option<InstanceSummary>, ProvisionError>|
            {
                &&& #[trigger] P::step(
                    *old(asking),
                    Call::FindInstance("ephemwork-"@ + ctx.project_name@ + "-bastion"@, found),
                    *final(asking),
                )
                &&& match found {
                    Ok(i) => status matches Ok(s) && s.instance == i,
                    Err(e) => status == Err::<BastionStatus, ProvisionError>(e),
                }
            },
{
    let name = bastion_provisioner::resource_name(ctx.project_name@, "-bastion"@);
    let a = choose|calls: Seq<Call>| #[trigger]
        bastion_provisioner::runs(*old(initing), calls, *final(initing))
            && bastion_provisioner::init_script(name, sg_plan, launch_plan_for, calls, inited);
    assert(looks_first(ctx, a));
    let b = choose|calls: Seq<Call>| #[trigger]
        bastion_provisioner::runs(*old(destroying), calls, *final(destroying))
            && bastion_provisioner::destroy_script(name, calls, destroyed);
    assert(looks_first(ctx, b));
}

/// The first call looks for the bastion of the project by the name of its instance.
pub open spec fn looks_first(ctx: BastionContext, calls: Seq<Call>) -> bool {
    calls.len() > 0 && (calls[0] matches Call::FindInstance(name, _) && name == "ephemwork-"@
        + ctx.project_name@ + "-bastion"@)
}

/// The error of an init that fails is the one of its last call, or the one of the launch
/// plan, which is asked for with the group that was ensured.
pub proof fn law_init_tells_the_error_of_its_last_call<
    F: FnOnce(&String) -> Result<LaunchPlan, ProvisionError>,
>(
    name: Seq<char>,
    sg_plan: SecurityGroupPlan,
    launch_plan_for: F,
    calls: Seq<Call>,
    e: ProvisionError,
)
    requires
        bastion_provisioner::init_script(name, sg_plan, launch_plan_for, calls, Err(e)),
    ensures
        match calls.last() {
            Call::FindInstance(_, r) => r == Err::<Option<InstanceSummary>, ProvisionError>(e),
            Call::EnsureIamRole(r) => r == Err::<(), ProvisionError>(e),
            Call::EnsureSecurityGroup(plan, r) => plan == sg_plan && match r {
                Err(cause) => cause == e,
                Ok(id) => launch_plan_for.ensures((&id,), Err(e)),
            },
            Call::LaunchInstance(_, r) => r == Err::<String, ProvisionError>(e),
            Call::WaitUntilRunning(_, r) => r == Err::<(), ProvisionError>(e),
            _ => false,
        },
{
}

/// The error of a destroy that fails is the one of its last call.
pub proof fn law_destroy_tells_the_error_of_its_last_call(
    name: Seq<char>,
    calls: Seq<Call>,
    e: ProvisionError,
)
    requires
        bastion_provisioner::destroy_script(name, calls, Err(e)),
    ensures
        match calls.last() {
            Call::FindInstance(_, r) => r == Err::<Option<InstanceSummary>, ProvisionError>(e),
            Call::TerminateInstance(_, r) => r == Err::<(), ProvisionError>(e),
            Call::DeleteSecurityGroup(_, r) => r == Err::<(), ProvisionError>(e),
            Call::DeleteIamRole(r) => r == Err::<(), ProvisionError>(e),
            _ => false,
        },
{
}

/// The instance of a project is tagged with the project, with who manages it, and with its
/// name, and with nothing else.
pub proof fn law_instance_tags(ctx: BastionContext, name: String, r: Vec<(String, String)>)
    requires
        call_ensures(bastion_provisioner::instance_tags, (&ctx,), r),
        call_ensures(BastionContext::instance_name, (&ctx,), name),
    ensures
        r@.len() == 3,
        r@[0].0@ == "EphemworkProject"@ && r@[0].1@ == ctx.project_name@,
        r@[1].0@ == "ManagedBy"@ && r@[1].1@ == "ephemwork"@,
        r@[2].0@ == "Name"@ && r@[2].1@ == name@,
{
    let tags = bastion_provisioner::tag_views(r@);
    assert(tags == bastion_provisioner::project_tags(ctx.project_name@));
    assert(tags.len() == 3 && r@.len() == 3);
    assert(tags[0] == (r@[0].0@, r@[0].1@));
    assert(tags[1] == (r@[1].0@, r@[1].1@));
    assert(tags[2] == (r@[2].0@, r@[2].1@));
}

/// The script of a new instance fetches the binary from the place that is asked for, and
/// that place alone makes the difference between two scripts.
pub proof fn law_script_fetches_the_binary(
    uri: &str,
    other: &str,
    r: Result<String, ProvisionError>,
    s: Result<String, ProvisionError>,
)
    requires
        call_ensures(bastion_provisioner::user_data_script, (uri,), r),
        call_ensures(bastion_provisioner::user_data_script, (other,), s),
    ensures
        r is Ok <==> uri@.len() >= 5 && uri@.take(5) == seq!['s', '3', ':', '/', '/'],
        r matches Err(e) ==> (e matches ProvisionError::NotAnS3Uri { uri: u } && u@ == uri@),
        r is Ok && s is Ok ==> exists|head: Seq<char>, tail: Seq<char>| #[trigger]
            (head + uri@ + tail) == r->Ok_0@ && head + other@ + tail == s->Ok_0@,
{
    reveal_strlit("s3://");
    assert("s3://"@ =~= seq!['s', '3', ':', '/', '/']);
    if r is Ok && s is Ok {
        let head = bastion_provisioner::USER_DATA_HEAD@;
        let tail = bastion_provisioner::USER_DATA_TAIL@;
        assert(head + uri@ + tail == r->Ok_0@);
    }
}

/// What a dry run notes of a call names what the call is for.
pub proof fn law_dry_run_names_what_it_would_do(project: Seq<char>, call: Call)
    ensures
        match call {
            Call::FindInstance(name, _) => bastion_provisioner::plan_line(project, call)
                == "[plan] look up instance tagged Name="@ + name,
            Call::TerminateInstance(id, _) => bastion_provisioner::plan_line(project, call)
                == "[plan] terminate instance "@ + id,
            Call::DeleteSecurityGroup(id, _) => bastion_provisioner::plan_line(project, call)
                == "[plan] delete security group "@ + id,
            Call::WaitUntilRunning(id, _) => bastion_provisioner::plan_line(project, call)
                == "[plan] wait until "@ + id + " is running"@,
            Call::EnsureSecurityGroup(plan, _) => message_laws::tells(
                bastion_provisioner::plan_line(project, call),
                text::quoted(plan.name@),
            ),
            Call::LaunchInstance(plan, _) => message_laws::tells(
                bastion_provisioner::plan_line(project, call),
                plan.instance_type@ + " in "@ + plan.region@ + " (subnet "@ + plan.subnet_id@
                    + ", ami "@ + plan.ami_id@,
            ),
            Call::EnsureIamRole(_) => message_laws::tells(
                bastion_provisioner::plan_line(project, call),
                text::quoted("ephemwork-"@ + project + "-bastion-role"@),
            ),
            Call::DeleteIamRole(_) => message_laws::tells(
                bastion_provisioner::plan_line(project, call),
                "ephemwork-"@ + project + "-bastion-role"@,
            ),
        },
{
    let line = bastion_provisioner::plan_line(project, call);
    match call {
        Call::EnsureSecurityGroup(plan, _) => {
            let a = "[plan] ensure security group "@;
            let part = text::quoted(plan.name@);
            message_laws::lemma_tells(line, a, part, line.skip((a + part).len() as int));
        },
        Call::LaunchInstance(plan, _) => {
            let a = "[plan] launch "@;
            let part = plan.instance_type@ + " in "@ + plan.region@ + " (subnet "@ + plan.subnet_id@
                + ", ami "@ + plan.ami_id@;
            message_laws::lemma_tells(line, a, part, line.skip((a + part).len() as int));
        },
        Call::EnsureIamRole(_) => {
            let a = "[plan] ensure IAM role "@;
            let part = text::quoted("ephemwork-"@ + project + "-bastion-role"@);
            message_laws::lemma_tells(line, a, part, line.skip((a + part).len() as int));
        },
        Call::DeleteIamRole(_) => {
            let a = "[plan] delete IAM role "@;
            let part = "ephemwork-"@ + project + "-bastion-role"@;
            message_laws::lemma_tells(line, a, part, line.skip((a + part).len() as int));
        },
        _ => {},
    }
}

/// A dry run begins with nothing noted, for its project, and as if nothing were there.
pub proof fn law_dry_run_begins_empty(ctx: BastionContext, r: PlanLogger)
    requires
        call_ensures(PlanLogger::new, (ctx,), r),
    ensures
        r.log@.len() == 0,
        r.ctx.project_name@ == ctx.project_name@,
        !r.pretend_existing,
{
}

/// What a dry run answers: made-up IDs, no instance unless it is to pretend one, and never a
/// failure.
pub proof fn law_dry_run_never_fails(pretend: bool, call: Call)
    requires
        bastion_provisioner::plan_answer(pretend, call),
    ensures
        !call.failed(),
        call matches Call::FindInstance(_, r) ==> (r matches Ok(found) && (found is Some
            <==> pretend) && (found matches Some(s) ==> s.instance_id@ == "i-DRYRUN"@ && s.state@
            == "running"@)),
        call matches Call::LaunchInstance(_, r) ==> (r matches Ok(id) && id@ == "i-DRYRUN"@),
        call matches Call::EnsureSecurityGroup(_, r) ==> (r matches Ok(id) && id@
            == "sg-DRYRUN"@),
{
}

} // verus!
