//! Build the AWS resources that back the shared bastion.
//!
//! The flow has two layers:
//!   1. Pure plan builders: security-group rules, IAM trust policy,
//!      user-data script, instance tags.
//!   2. A `BastionProvisioner` trait whose AWS implementation is thin glue
//!      around the plan, and the orchestration that drives it.

use vstd::prelude::*;
use crate::config::TunnelConfig;
use crate::text;

verus! {

/// Why the bastion could not be planned or provisioned.
#[derive(Debug, Clone, PartialEq, Eq)]
pub enum ProvisionError {
    EmptyAlbSecurityGroup,
    NotAnS3Uri { uri: String },
    /// AWS or the way to it failed; the text says how.
    Outside(String),
}

impl ProvisionError {
    pub open spec fn text(self) -> Seq<char> {
        match self {
            ProvisionError::EmptyAlbSecurityGroup => "alb_security_group_id must not be empty"@,
            ProvisionError::NotAnS3Uri { uri } =>
                "bastion_binary_s3_uri must be an s3:// URL, got "@ + text::quoted(uri@),
            ProvisionError::Outside(e) => e@,
        }
    }

    /// The error in words.
    pub fn message(&self) -> (r: String)
        ensures
            r@ == self.text(),
    {
        match self {
            ProvisionError::EmptyAlbSecurityGroup => {
                "alb_security_group_id must not be empty".to_owned()
            },
            ProvisionError::NotAnS3Uri { uri } => {
                let mut out = "bastion_binary_s3_uri must be an s3:// URL, got ".to_owned();
                out.append(text::quote(uri.as_str()).as_str());
                out
            },
            ProvisionError::Outside(e) => e.clone(),
        }
    }
}

/// Per-project bastion identity. Resource names are derived from
/// `project_name` so two projects in the same AWS account never collide,
/// and lookup-by-name keeps `bastion init` idempotent.
#[derive(Debug, PartialEq, Eq)]
pub struct BastionContext {
    pub project_name: String,
}

/// The name of a resource of a project.
pub open spec fn resource_name(project: Seq<char>, suffix: Seq<char>) -> Seq<char> {
    "ephemwork-"@ + project + suffix
}

fn name_resource(project: &str, suffix: &str) -> (r: String)
    ensures
        r@ == resource_name(project@, suffix@),
{
    let mut out = "ephemwork-".to_owned();
    out.append(project);
    out.append(suffix);
    out
}

impl Clone for BastionContext {
    fn clone(&self) -> (r: Self)
        ensures
            r == *self,
    {
        BastionContext { project_name: self.project_name.clone() }
    }
}

impl BastionContext {
    pub fn new(project_name: &str) -> (r: Self)
        ensures
            r.project_name@ == project_name@,
    {
        Self { project_name: project_name.to_owned() }
    }

    pub fn instance_name(&self) -> (r: String)
        ensures
            r@ == resource_name(self.project_name@, "-bastion"@),
    {
        name_resource(self.project_name.as_str(), "-bastion")
    }

    pub fn security_group_name(&self) -> (r: String)
        ensures
            r@ == resource_name(self.project_name@, "-bastion-sg"@),
    {
        name_resource(self.project_name.as_str(), "-bastion-sg")
    }

    pub fn iam_role_name(&self) -> (r: String)
        ensures
            r@ == resource_name(self.project_name@, "-bastion-role"@),
    {
        name_resource(self.project_name.as_str(), "-bastion-role")
    }

    pub fn iam_instance_profile_name(&self) -> (r: String)
        ensures
            r@ == resource_name(self.project_name@, "-bastion-instance-profile"@),
    {
        name_resource(self.project_name.as_str(), "-bastion-instance-profile")
    }
}

/// Two projects never share the name of a resource of one kind.
pub proof fn law_projects_do_not_collide(a: Seq<char>, b: Seq<char>, suffix: Seq<char>)
    requires
        resource_name(a, suffix) == resource_name(b, suffix),
    ensures
        a == b,
{
    let n = "ephemwork-"@.len() as int;
    let x = resource_name(a, suffix);
    let y = resource_name(b, suffix);
    assert(x.len() == n + a.len() + suffix.len());
    assert(y.len() == n + b.len() + suffix.len());
    assert(x.subrange(n, n + a.len()) =~= a);
    assert(y.subrange(n, n + b.len()) =~= b);
}

/// IAM trust policy that lets EC2 assume the bastion role, as JSON with its
/// keys in ascending order.
pub const ASSUME_ROLE_POLICY: &'static str = "{\"Statement\":[{\"Action\":\"sts:AssumeRole\",\"Effect\":\"Allow\",\"Principal\":{\"Service\":\"ec2.amazonaws.com\"}}],\"Version\":\"2012-10-17\"}";

/// IAM trust policy that lets EC2 assume the bastion role. Returned as a
/// canonical JSON string so it round-trips identically through AWS.
pub fn assume_role_policy_document() -> (r: String)
    ensures
        r@ == ASSUME_ROLE_POLICY@,
{
    ASSUME_ROLE_POLICY.to_owned()
}

/// Managed policies attached to the bastion role: the first is required for
/// SSM Session Manager port forwarding (the laptop's ssh-over-ssm route in to
/// :22), the second for the user-data script to fetch the bastion-server binary
/// from S3.
pub fn managed_policy_arns() -> (r: Vec<&'static str>)
    ensures
        r@.map_values(|s: &'static str| s@) == seq![
            "arn:aws:iam::aws:policy/AmazonSSMManagedInstanceCore"@,
            "arn:aws:iam::aws:policy/AmazonS3ReadOnlyAccess"@,
        ],
        r@.len() == 2,
{
    let r: Vec<&'static str> = vec![
        "arn:aws:iam::aws:policy/AmazonSSMManagedInstanceCore",
        "arn:aws:iam::aws:policy/AmazonS3ReadOnlyAccess",
    ];
    assert(r@.map_values(|s: &'static str| s@) =~= seq![
        "arn:aws:iam::aws:policy/AmazonSSMManagedInstanceCore"@,
        "arn:aws:iam::aws:policy/AmazonS3ReadOnlyAccess"@,
    ]);
    r
}

#[derive(Debug, Clone, PartialEq, Eq)]
pub struct SecurityGroupPlan {
    pub name: String,
    pub description: String,
    /// Inbound rules. The bastion only accepts traffic on port 80 from the
    /// staging ALB; everything else gets in via SSM Session Manager which
    /// doesn't need an inbound rule on the bastion side.
    pub ingress: Vec<IngressRule>,
}

#[derive(Debug, Clone, PartialEq, Eq)]
pub struct IngressRule {
    pub protocol: &'static str,
    pub from_port: u16,
    pub to_port: u16,
    pub source: IngressSource,
    pub description: &'static str,
}

#[derive(Debug, Clone, PartialEq, Eq)]
pub enum IngressSource {
    SecurityGroup(String),
    Cidr(String),
}

/// The plan lets nobody in but the load balancer's group, on port 80.
pub open spec fn locked_to(plan: SecurityGroupPlan, project: Seq<char>, alb: Seq<char>) -> bool {
    &&& plan.name@ == resource_name(project, "-bastion-sg"@)
    &&& plan.description@ == "Inbound rules for the ephemwork bastion (project "@ + project + ")"@
    &&& plan.ingress@.len() == 1
    &&& plan.ingress@[0].protocol@ == "tcp"@
    &&& plan.ingress@[0].from_port == 80
    &&& plan.ingress@[0].to_port == 80
    &&& plan.ingress@[0].description@ == "ALB to bastion nginx"@
    &&& plan.ingress@[0].source matches IngressSource::SecurityGroup(id) && id@ == alb
}

/// Build the plan for the bastion's security group given the staging ALB's
/// security group ID. We lock the only public-facing port (80) to traffic
/// coming from the ALB; all other access is via SSM.
pub fn security_group_plan(ctx: &BastionContext, alb_security_group_id: &str) -> (r: Result<
    SecurityGroupPlan,
    ProvisionError,
>)
    ensures
        match r {
            Err(e) => text::is_blank(alb_security_group_id@) && e
                == ProvisionError::EmptyAlbSecurityGroup,
            Ok(plan) => !text::is_blank(alb_security_group_id@) && locked_to(
                plan,
                ctx.project_name@,
                alb_security_group_id@,
            ),
        },
{
    if text::blank(alb_security_group_id) {
        return Err(ProvisionError::EmptyAlbSecurityGroup);
    }
    let mut description = "Inbound rules for the ephemwork bastion (project ".to_owned();
    description.append(ctx.project_name.as_str());
    description.append(")");
    Ok(
        SecurityGroupPlan {
            name: ctx.security_group_name(),
            description,
            ingress: vec![
                IngressRule {
                    protocol: "tcp",
                    from_port: 80,
                    to_port: 80,
                    source: IngressSource::SecurityGroup(alb_security_group_id.to_owned()),
                    // AWS only allows ASCII `a-zA-Z0-9. _-:/()#,@[]+=&;{}!$*` in
                    // SG rule descriptions, so no `->`.
                    description: "ALB to bastion nginx",
                },
            ],
        },
    )
}

/// The user-data script up to where the location of the binary stands.
pub const USER_DATA_HEAD: &'static str = r#"#!/bin/bash
set -euxo pipefail

# Install nginx + AWS CLI (for fetching the bastion-server binary).
dnf install -y nginx awscli || yum install -y nginx awscli

# Layout for the bastion-server binary and its persistence.
install -d -m 0755 /opt/ephemwork
install -d -m 0755 /var/lib/ephemwork
install -d -m 0755 /etc/nginx/conf.d

# Pull the prebuilt arm64 binary the operator uploaded.
aws s3 cp ""#;

/// The user-data script from behind the location of the binary on.
pub const USER_DATA_TAIL: &'static str = r#"" /opt/ephemwork/bastion-server
chmod 0755 /opt/ephemwork/bastion-server

# Stub config so nginx starts before any sessions exist.
cat > /etc/nginx/conf.d/ephemwork.conf <<'NGINX'
server {
    listen 80 default_server;
    listen [::]:80 default_server;
    location = /ephemwork-health { return 200 "ok\n"; }
    location / { return 404 "ephemwork bastion not yet configured\n"; }
}
NGINX
systemctl enable --now nginx

# Run the control plane as a system user, restart on crash.
cat > /etc/systemd/system/ephemwork-bastion.service <<'UNIT'
[Unit]
Description=ephemwork bastion control plane
After=network-online.target nginx.service
Wants=network-online.target

[Service]
ExecStart=/opt/ephemwork/bastion-server
Restart=always
RestartSec=2
Environment=EPHEMWORK_REGISTRY_PATH=/var/lib/ephemwork/registry.json
Environment=EPHEMWORK_NGINX_CONFIG=/etc/nginx/conf.d/ephemwork.conf
Environment=EPHEMWORK_NGINX_RELOAD=systemctl reload nginx
Environment=RUST_LOG=info

[Install]
WantedBy=multi-user.target
UNIT
systemctl daemon-reload
systemctl enable --now ephemwork-bastion.service
"#;

/// The text begins with `s3://`.
pub open spec fn is_s3_uri(s: Seq<char>) -> bool {
    "s3://"@.len() <= s.len() && s.take("s3://"@.len() as int) == "s3://"@
}

/// Build the user-data script that installs nginx + the bastion-server
/// binary + systemd unit. The binary must be available at
/// `bastion_binary_s3_uri` (e.g. s3://my-bucket/ephemwork-bastion-server-arm64).
pub fn user_data_script(bastion_binary_s3_uri: &str) -> (r: Result<String, ProvisionError>)
    ensures
        match r {
            Ok(script) => is_s3_uri(bastion_binary_s3_uri@) && script@ == USER_DATA_HEAD@
                + bastion_binary_s3_uri@ + USER_DATA_TAIL@,
            Err(e) => !is_s3_uri(bastion_binary_s3_uri@) && (e matches ProvisionError::NotAnS3Uri {
                uri,
            } && uri@ == bastion_binary_s3_uri@),
        },
{
    if !text::starts_with(bastion_binary_s3_uri, "s3://") {
        return Err(ProvisionError::NotAnS3Uri { uri: bastion_binary_s3_uri.to_owned() });
    }
    let mut out = USER_DATA_HEAD.to_owned();
    out.append(bastion_binary_s3_uri);
    out.append(USER_DATA_TAIL);
    Ok(out)
}

/// What a list of tags holds.
pub open spec fn tag_views(tags: Seq<(String, String)>) -> Seq<(Seq<char>, Seq<char>)> {
    tags.map_values(|t: (String, String)| (t.0@, t.1@))
}

/// The tags of the instance of a project, in ascending order of their keys.
pub open spec fn project_tags(project: Seq<char>) -> Seq<(Seq<char>, Seq<char>)> {
    seq![
        ("EphemworkProject"@, project),
        ("ManagedBy"@, "ephemwork"@),
        ("Name"@, resource_name(project, "-bastion"@)),
    ]
}

/// Tags applied to the launched instance so `bastion status`/`destroy` can
/// find it again, in ascending order of their keys.
pub fn instance_tags(ctx: &BastionContext) -> (r: Vec<(String, String)>)
    ensures
        tag_views(r@) == project_tags(ctx.project_name@),
{
    let r: Vec<(String, String)> = vec![
        ("EphemworkProject".to_owned(), ctx.project_name.clone()),
        ("ManagedBy".to_owned(), "ephemwork".to_owned()),
        ("Name".to_owned(), ctx.instance_name()),
    ];
    assert(tag_views(r@) =~= project_tags(ctx.project_name@));
    r
}

/// Inputs for `BastionProvisioner::launch_instance`. Everything that is needed
/// to launch is here.
#[derive(Debug, Clone, PartialEq, Eq)]
pub struct LaunchPlan {
    pub region: String,
    pub instance_type: String,
    pub ami_id: String,
    pub subnet_id: String,
    pub security_group_id: String,
    pub instance_profile_name: String,
    pub user_data: String,
    pub tags: Vec<(String, String)>,
}

impl LaunchPlan {
    pub fn from_config(
        cfg: &TunnelConfig,
        ctx: &BastionContext,
        ami_id: &str,
        subnet_id: &str,
        security_group_id: &str,
        bastion_binary_s3_uri: &str,
    ) -> (r: Result<Self, ProvisionError>)
        ensures
            match r {
                Ok(plan) => {
                    &&& is_s3_uri(bastion_binary_s3_uri@)
                    &&& plan.region@ == cfg.region@
                    &&& plan.instance_type@ == cfg.instance_type@
                    &&& plan.ami_id@ == ami_id@
                    &&& plan.subnet_id@ == subnet_id@
                    &&& plan.security_group_id@ == security_group_id@
                    &&& plan.instance_profile_name@ == resource_name(
                        ctx.project_name@,
                        "-bastion-instance-profile"@,
                    )
                    &&& plan.user_data@ == USER_DATA_HEAD@ + bastion_binary_s3_uri@
                        + USER_DATA_TAIL@
                    &&& tag_views(plan.tags@) == project_tags(ctx.project_name@)
                },
                Err(e) => !is_s3_uri(bastion_binary_s3_uri@) && (
                e matches ProvisionError::NotAnS3Uri { uri } && uri@ == bastion_binary_s3_uri@),
            },
    {
        let user_data = match user_data_script(bastion_binary_s3_uri) {
            Ok(s) => s,
            Err(e) => {
                return Err(e);
            },
        };
        let tags = instance_tags(ctx);
        Ok(
            Self {
                region: cfg.region.clone(),
                instance_type: cfg.instance_type.clone(),
                ami_id: ami_id.to_owned(),
                subnet_id: subnet_id.to_owned(),
                security_group_id: security_group_id.to_owned(),
                instance_profile_name: ctx.iam_instance_profile_name(),
                user_data,
                tags,
            },
        )
    }
}

#[derive(Debug, Clone, PartialEq, Eq)]
pub struct InstanceSummary {
    pub instance_id: String,
    pub state: String,
    pub private_ip: Option<String>,
    pub security_group_id: Option<String>,
}

/// One call of a provisioner with what it was given and what it answered.
pub enum Call {
    EnsureSecurityGroup(SecurityGroupPlan, Result<String, ProvisionError>),
    EnsureIamRole(Result<(), ProvisionError>),
    LaunchInstance(LaunchPlan, Result<String, ProvisionError>),
    WaitUntilRunning(Seq<char>, Result<(), ProvisionError>),
    FindInstance(Seq<char>, Result<Option<InstanceSummary>, ProvisionError>),
    TerminateInstance(Seq<char>, Result<(), ProvisionError>),
    DeleteSecurityGroup(Seq<char>, Result<(), ProvisionError>),
    DeleteIamRole(Result<(), ProvisionError>),
}

impl Call {
    /// The call came to nothing.
    pub open spec fn failed(self) -> bool {
        match self {
            Call::EnsureSecurityGroup(_, r) => r is Err,
            Call::EnsureIamRole(r) => r is Err,
            Call::LaunchInstance(_, r) => r is Err,
            Call::WaitUntilRunning(_, r) => r is Err,
            Call::FindInstance(_, r) => r is Err,
            Call::TerminateInstance(_, r) => r is Err,
            Call::DeleteSecurityGroup(_, r) => r is Err,
            Call::DeleteIamRole(r) => r is Err,
        }
    }
}

/// AWS calls the production provisioner needs to make. Split out so the
/// orchestration can be driven with another one.
pub trait BastionProvisioner: Sized {
    /// How a provisioner that has made the call differs from what it was:
    /// in any way, where an implementation does not say.
    open spec fn step(before: Self, call: Call, after: Self) -> bool {
        true
    }

    fn ensure_security_group(&mut self, plan: &SecurityGroupPlan) -> (r: Result<
        String,
        ProvisionError,
    >)
        ensures
            Self::step(*old(self), Call::EnsureSecurityGroup(*plan, r), *final(self)),
    ;

    fn ensure_iam_role(&mut self) -> (r: Result<(), ProvisionError>)
        ensures
            Self::step(*old(self), Call::EnsureIamRole(r), *final(self)),
    ;

    fn launch_instance(&mut self, plan: &LaunchPlan) -> (r: Result<String, ProvisionError>)
        ensures
            Self::step(*old(self), Call::LaunchInstance(*plan, r), *final(self)),
    ;

    fn wait_until_running(&mut self, instance_id: &str) -> (r: Result<(), ProvisionError>)
        ensures
            Self::step(*old(self), Call::WaitUntilRunning(instance_id@, r), *final(self)),
    ;

    /// Look up the bastion instance by `Name` tag. Returns `None` if no
    /// instance is currently tagged with the name.
    fn find_instance_by_name(&mut self, name: &str) -> (r: Result<
        Option<InstanceSummary>,
        ProvisionError,
    >)
        ensures
            Self::step(*old(self), Call::FindInstance(name@, r), *final(self)),
    ;

    fn terminate_instance(&mut self, instance_id: &str) -> (r: Result<(), ProvisionError>)
        ensures
            Self::step(*old(self), Call::TerminateInstance(instance_id@, r), *final(self)),
    ;

    fn delete_security_group(&mut self, security_group_id: &str) -> (r: Result<(), ProvisionError>)
        ensures
            Self::step(*old(self), Call::DeleteSecurityGroup(security_group_id@, r), *final(self)),
    ;

    fn delete_iam_role(&mut self) -> (r: Result<(), ProvisionError>)
        ensures
            Self::step(*old(self), Call::DeleteIamRole(r), *final(self)),
    ;
}

/// The calls, one after another, take a provisioner from `before` to `after`.
pub open spec fn runs<P: BastionProvisioner>(before: P, calls: Seq<Call>, after: P) -> bool
    decreases calls.len(),
{
    if calls.len() == 0 {
        before == after
    } else {
        exists|mid: P|
            runs(before, calls.drop_last(), mid) && #[trigger] P::step(mid, calls.last(), after)
    }
}

proof fn lemma_runs_push<P: BastionProvisioner>(
    before: P,
    calls: Seq<Call>,
    mid: P,
    call: Call,
    after: P,
)
    requires
        runs(before, calls, mid),
        P::step(mid, call, after),
    ensures
        runs(before, calls.push(call), after),
{
    assert(calls.push(call).drop_last() =~= calls);
    assert(P::step(mid, calls.push(call).last(), after));
}

/// An instance that is still there, or on its way to be.
pub open spec fn is_live(state: Seq<char>) -> bool {
    state != "terminated"@ && state != "shutting-down"@ && state != ""@
}

fn live(state: &str) -> (r: bool)
    ensures
        r == is_live(state@),
{
    !text::same(state, "terminated") && !text::same(state, "shutting-down") && !text::same(
        state,
        "",
    )
}

#[derive(Debug)]
pub struct InitOutcome {
    pub security_group_id: String,
    pub instance_id: String,
    /// True when an existing instance was reused instead of creating a new
    /// one. Used by the CLI to print "(already provisioned)" rather than
    /// "(provisioned)".
    pub reused: bool,
}

/// The calls of an init and its result: the look-up; then, unless an instance
/// is there to be reused, role, security group, launch and wait, each with what
/// the ones before it gave, up to the first that fails.
pub open spec fn init_script<F: FnOnce(&String) -> Result<LaunchPlan, ProvisionError>>(
    name: Seq<char>,
    sg_plan: SecurityGroupPlan,
    launch_plan_for: F,
    calls: Seq<Call>,
    r: Result<InitOutcome, ProvisionError>,
) -> bool {
    &&& calls.len() > 0
    &&& calls[0] matches Call::FindInstance(n, found) && n == name && match found {
        Err(e) => calls.len() == 1 && r == Err::<InitOutcome, ProvisionError>(e),
        Ok(existing) => if existing matches Some(x) && is_live(x.state@) {
            &&& calls.len() == 1
            &&& r matches Ok(out) && out.reused && out.instance_id@ == existing->0.instance_id@
                && out.security_group_id@ == (match existing->0.security_group_id {
                Some(id) => id@,
                None => Seq::empty(),
            })
        } else {
            &&& calls.len() > 1
            &&& calls[1] matches Call::EnsureIamRole(role) && match role {
                Err(e) => calls.len() == 2 && r == Err::<InitOutcome, ProvisionError>(e),
                Ok(_) => calls.len() > 2 && (calls[2] matches Call::EnsureSecurityGroup(plan, group)
                    && plan == sg_plan && match group {
                    Err(e) => calls.len() == 3 && r == Err::<InitOutcome, ProvisionError>(e),
                    Ok(sg_id) => launched(sg_id, launch_plan_for, calls, r),
                }),
            }
        },
    }
}

/// The part of an init from the security group on.
pub open spec fn launched<F: FnOnce(&String) -> Result<LaunchPlan, ProvisionError>>(
    sg_id: String,
    launch_plan_for: F,
    calls: Seq<Call>,
    r: Result<InitOutcome, ProvisionError>,
) -> bool {
    exists|planned: Result<LaunchPlan, ProvisionError>| #[trigger]
        launch_plan_for.ensures((&sg_id,), planned) && match planned {
            Err(e) => calls.len() == 3 && r == Err::<InitOutcome, ProvisionError>(e),
            Ok(plan) => calls.len() > 3 && (calls[3] matches Call::LaunchInstance(p, launch) && p
                == plan && match launch {
                Err(e) => calls.len() == 4 && r == Err::<InitOutcome, ProvisionError>(e),
                Ok(id) => calls.len() == 5 && (calls[4] matches Call::WaitUntilRunning(i, up) && i
                    == id@ && match up {
                    Err(e) => r == Err::<InitOutcome, ProvisionError>(e),
                    Ok(_) => r matches Ok(out) && !out.reused && out.instance_id@ == id@
                        && out.security_group_id@ == sg_id@,
                }),
            }),
        }
}

/// Drive a `BastionProvisioner` through the full init sequence. Idempotent: if
/// an instance tagged Name=<bastion> already exists in a non-terminal state,
/// it is reused and no new resources are created. The launch plan is asked for
/// only with the group that ensuring the security group gave, so not at all where
/// an instance is reused or an earlier call failed.
pub fn run_init<P: BastionProvisioner, F: FnOnce(&String) -> Result<LaunchPlan, ProvisionError>>(
    provisioner: &mut P,
    ctx: &BastionContext,
    sg_plan: &SecurityGroupPlan,
    launch_plan_for: F,
) -> (r: Result<InitOutcome, ProvisionError>)
    requires
        forall|before: P, after: P, id: String| #[trigger]
            P::step(before, Call::EnsureSecurityGroup(*sg_plan, Ok(id)), after)
                ==> launch_plan_for.requires((&id,)),
    ensures
        exists|calls: Seq<Call>| #[trigger]
            runs(*old(provisioner), calls, *final(provisioner)) && init_script(
                resource_name(ctx.project_name@, "-bastion"@),
                *sg_plan,
                launch_plan_for,
                calls,
                r,
            ),
{
    let ghost p0 = *provisioner;
    let ghost none = Seq::<Call>::empty();
    let name = ctx.instance_name();
    let found = provisioner.find_instance_by_name(name.as_str());
    let ghost c1 = none.push(Call::FindInstance(name@, found));
    let ghost p1 = *provisioner;
    proof {
        assert(runs(p0, none, p0));
        lemma_runs_push(p0, none, p0, c1.last(), p1);
    }
    match found {
        Err(e) => {
            return Err(e);
        },
        Ok(Some(existing)) => {
            if live(existing.state.as_str()) {
                return Ok(
                    InitOutcome {
                        security_group_id: match existing.security_group_id {
                            Some(id) => id,
                            None => String::new(),
                        },
                        instance_id: existing.instance_id,
                        reused: true,
                    },
                );
            }
        },
        Ok(None) => {},
    }
    let role = provisioner.ensure_iam_role();
    let ghost c2 = c1.push(Call::EnsureIamRole(role));
    let ghost p2 = *provisioner;
    proof {
        lemma_runs_push(p0, c1, p1, c2.last(), p2);
    }
    if let Err(e) = role {
        return Err(e);
    }
    let group = provisioner.ensure_security_group(sg_plan);
    let ghost c3 = c2.push(Call::EnsureSecurityGroup(*sg_plan, group));
    let ghost p3 = *provisioner;
    proof {
        lemma_runs_push(p0, c2, p2, c3.last(), p3);
    }
    let sg_id = match group {
        Ok(id) => id,
        Err(e) => {
            return Err(e);
        },
    };
    let planned = launch_plan_for(&sg_id);
    assert(launch_plan_for.ensures((&sg_id,), planned));
    let plan = match planned {
        Ok(plan) => plan,
        Err(e) => {
            return Err(e);
        },
    };
    let launch = provisioner.launch_instance(&plan);
    let ghost c4 = c3.push(Call::LaunchInstance(plan, launch));
    let ghost p4 = *provisioner;
    proof {
        lemma_runs_push(p0, c3, p3, c4.last(), p4);
    }
    let instance_id = match launch {
        Ok(id) => id,
        Err(e) => {
            return Err(e);
        },
    };
    let up = provisioner.wait_until_running(instance_id.as_str());
    let ghost c5 = c4.push(Call::WaitUntilRunning(instance_id@, up));
    let ghost p5 = *provisioner;
    proof {
        lemma_runs_push(p0, c4, p4, c5.last(), p5);
    }
    if let Err(e) = up {
        return Err(e);
    }
    Ok(InitOutcome { security_group_id: sg_id, instance_id, reused: false })
}

#[derive(Debug)]
pub struct DestroyOutcome {
    pub instance_id: Option<String>,
    pub security_group_id: Option<String>,
}

/// The calls of a destroy and its result: the look-up; then, where an instance
/// is there, its termination, the deletion of its security group if it has one,
/// and the deletion of the role, up to the first that fails.
pub open spec fn destroy_script(
    name: Seq<char>,
    calls: Seq<Call>,
    r: Result<DestroyOutcome, ProvisionError>,
) -> bool {
    &&& calls.len() > 0
    &&& calls[0] matches Call::FindInstance(n, found) && n == name && match found {
        Err(e) => calls.len() == 1 && r == Err::<DestroyOutcome, ProvisionError>(e),
        Ok(None) => calls.len() == 1 && r == Ok::<DestroyOutcome, ProvisionError>(
            DestroyOutcome { instance_id: None, security_group_id: None },
        ),
        Ok(Some(summary)) => calls.len() > 1 && (calls[1] matches Call::TerminateInstance(i, ended)
            && i == summary.instance_id@ && match ended {
            Err(e) => calls.len() == 2 && r == Err::<DestroyOutcome, ProvisionError>(e),
            Ok(_) => match summary.security_group_id {
                None => calls.len() == 3 && role_deleted(summary, calls[2], r),
                Some(sg) => calls.len() > 2 && (calls[2] matches Call::DeleteSecurityGroup(g, gone)
                    && g == sg@ && match gone {
                    Err(e) => calls.len() == 3 && r == Err::<DestroyOutcome, ProvisionError>(e),
                    Ok(_) => calls.len() == 4 && role_deleted(summary, calls[3], r),
                }),
            },
        }),
    }
}

/// The last call of a destroy and its result.
pub open spec fn role_deleted(
    summary: InstanceSummary,
    call: Call,
    r: Result<DestroyOutcome, ProvisionError>,
) -> bool {
    call matches Call::DeleteIamRole(gone) && match gone {
        Err(e) => r == Err::<DestroyOutcome, ProvisionError>(e),
        Ok(_) => r == Ok::<DestroyOutcome, ProvisionError>(
            DestroyOutcome {
                instance_id: Some(summary.instance_id),
                security_group_id: summary.security_group_id,
            },
        ),
    }
}

/// Tear down the bastion in reverse order. Failure modes:
///   - No instance tagged Name=<bastion>: returns Ok with empty IDs.
///   - SG removal failure: returned to caller; instance termination has
///     already happened so a re-run will skip it.
pub fn run_destroy<P: BastionProvisioner>(provisioner: &mut P, ctx: &BastionContext) -> (r: Result<
    DestroyOutcome,
    ProvisionError,
>)
    ensures
        exists|calls: Seq<Call>| #[trigger]
            runs(*old(provisioner), calls, *final(provisioner)) && destroy_script(
                resource_name(ctx.project_name@, "-bastion"@),
                calls,
                r,
            ),
{
    let ghost p0 = *provisioner;
    let ghost none = Seq::<Call>::empty();
    let name = ctx.instance_name();
    let found = provisioner.find_instance_by_name(name.as_str());
    let ghost c1 = none.push(Call::FindInstance(name@, found));
    let ghost p1 = *provisioner;
    proof {
        assert(runs(p0, none, p0));
        lemma_runs_push(p0, none, p0, c1.last(), p1);
    }
    let summary = match found {
        Err(e) => {
            return Err(e);
        },
        Ok(None) => {
            return Ok(DestroyOutcome { instance_id: None, security_group_id: None });
        },
        Ok(Some(summary)) => summary,
    };
    let ended = provisioner.terminate_instance(summary.instance_id.as_str());
    let ghost c2 = c1.push(Call::TerminateInstance(summary.instance_id@, ended));
    let ghost p2 = *provisioner;
    proof {
        lemma_runs_push(p0, c1, p1, c2.last(), p2);
    }
    if let Err(e) = ended {
        return Err(e);
    }
    let ghost mut c3 = c2;
    if let Some(sg_id) = &summary.security_group_id {
        let gone = provisioner.delete_security_group(sg_id.as_str());
        proof {
            c3 = c2.push(Call::DeleteSecurityGroup(sg_id@, gone));
            lemma_runs_push(p0, c2, p2, c3.last(), *provisioner);
        }
        if let Err(e) = gone {
            return Err(e);
        }
    }
    let ghost p3 = *provisioner;
    let gone = provisioner.delete_iam_role();
    let ghost c4 = c3.push(Call::DeleteIamRole(gone));
    proof {
        lemma_runs_push(p0, c3, p3, c4.last(), *provisioner);
    }
    if let Err(e) = gone {
        return Err(e);
    }
    Ok(
        DestroyOutcome {
            instance_id: Some(summary.instance_id),
            security_group_id: summary.security_group_id,
        },
    )
}

/// What `bastion status` reports.
#[derive(Debug, Clone, PartialEq, Eq)]
pub struct BastionStatus {
    pub instance: Option<InstanceSummary>,
}

pub fn run_status<P: BastionProvisioner>(provisioner: &mut P, ctx: &BastionContext) -> (r: Result<
    BastionStatus,
    ProvisionError,
>)
    ensures
        exists|found: Result<Option<InstanceSummary>, ProvisionError>|
            {
                &&& #[trigger] P::step(
                    *old(provisioner),
                    Call::FindInstance(resource_name(ctx.project_name@, "-bastion"@), found),
                    *final(provisioner),
                )
                &&& r == (match found {
                    Ok(instance) => Ok::<BastionStatus, ProvisionError>(BastionStatus { instance }),
                    Err(e) => Err(e),
                })
            },
{
    let name = ctx.instance_name();
    let found = provisioner.find_instance_by_name(name.as_str());
    assert(P::step(*old(provisioner), Call::FindInstance(name@, found), *provisioner));
    match found {
        Ok(instance) => Ok(BastionStatus { instance }),
        Err(e) => Err(e),
    }
}

/// An optional text, or a question mark.
pub open spec fn or_unknown(s: Option<String>) -> Seq<char> {
    match s {
        Some(t) => t@,
        None => "?"@,
    }
}

/// What is printed of the status of a bastion.
pub open spec fn status_text(status: BastionStatus, project: Seq<char>) -> Seq<char> {
    match status.instance {
        None => "no bastion found (no instance tagged Name="@ + resource_name(
            project,
            "-bastion"@,
        ) + ").\nrun `ephemwork bastion init --live ...` to provision one."@,
        Some(s) => "bastion: "@ + s.instance_id@ + "  state="@ + s.state@ + "  private_ip="@
            + or_unknown(s.private_ip) + "  sg="@ + or_unknown(s.security_group_id)
            + "\n(active sessions live in /var/lib/ephemwork/registry.json on the bastion)"@,
    }
}

fn push_or_unknown(out: &mut String, s: &Option<String>)
    ensures
        final(out)@ == old(out)@ + or_unknown(*s),
{
    match s {
        Some(t) => {
            out.append(t.as_str());
        },
        None => {
            out.append("?");
        },
    }
}

pub fn render_bastion_status(status: &BastionStatus, ctx: &BastionContext) -> (r: String)
    ensures
        r@ == status_text(*status, ctx.project_name@),
{
    match &status.instance {
        None => {
            let mut out = "no bastion found (no instance tagged Name=".to_owned();
            out.append(ctx.instance_name().as_str());
            out.append(").\nrun `ephemwork bastion init --live ...` to provision one.");
            out
        },
        Some(s) => {
            let mut out = "bastion: ".to_owned();
            out.append(s.instance_id.as_str());
            out.append("  state=");
            out.append(s.state.as_str());
            out.append("  private_ip=");
            push_or_unknown(&mut out, &s.private_ip);
            out.append("  sg=");
            push_or_unknown(&mut out, &s.security_group_id);
            out.append(
                "\n(active sessions live in /var/lib/ephemwork/registry.json on the bastion)",
            );
            out
        },
    }
}

/// Dry-run provisioner: notes what *would* happen instead of calling AWS.
/// Used when `bastion init` runs without `--live`. Returns synthetic IDs so
/// the rest of the orchestration runs unchanged.
pub struct PlanLogger {
    pub log: Vec<String>,
    pub ctx: BastionContext,
    /// Whether `find_instance_by_name` should pretend the instance already
    /// exists (true) or that there's nothing yet (false). Defaults to
    /// false so `bastion init` dry-run shows the create path.
    pub pretend_existing: bool,
}

/// The value of the first tag of this key.
pub open spec fn tag_value(tags: Seq<(Seq<char>, Seq<char>)>, key: Seq<char>) -> Option<Seq<char>>
    decreases tags.len(),
{
    if tags.len() == 0 {
        None
    } else if tags[0].0 == key {
        Some(tags[0].1)
    } else {
        tag_value(tags.drop_first(), key)
    }
}

/// The line that a dry run notes for a call.
pub open spec fn plan_line(project: Seq<char>, call: Call) -> Seq<char> {
    match call {
        Call::EnsureSecurityGroup(plan, _) => "[plan] ensure security group "@ + text::quoted(
            plan.name@,
        ) + " with "@ + text::decimal(plan.ingress@.len()) + " ingress rule(s)"@,
        Call::EnsureIamRole(_) => "[plan] ensure IAM role "@ + text::quoted(
            resource_name(project, "-bastion-role"@),
        ) + " + instance profile "@ + text::quoted(
            resource_name(project, "-bastion-instance-profile"@),
        ) + " with "@ + text::decimal(2) + " managed policies"@,
        Call::LaunchInstance(plan, _) => "[plan] launch "@ + plan.instance_type@ + " in "@
            + plan.region@ + " (subnet "@ + plan.subnet_id@ + ", ami "@ + plan.ami_id@
            + ") tagged Name="@ + (match tag_value(tag_views(plan.tags@), "Name"@) {
            Some(v) => v,
            None => "?"@,
        }),
        Call::WaitUntilRunning(id, _) => "[plan] wait until "@ + id + " is running"@,
        Call::FindInstance(name, _) => "[plan] look up instance tagged Name="@ + name,
        Call::TerminateInstance(id, _) => "[plan] terminate instance "@ + id,
        Call::DeleteSecurityGroup(id, _) => "[plan] delete security group "@ + id,
        Call::DeleteIamRole(_) => "[plan] delete IAM role "@ + resource_name(
            project,
            "-bastion-role"@,
        ) + " + instance profile "@ + resource_name(project, "-bastion-instance-profile"@),
    }
}

/// The made-up instance of a dry run.
pub open spec fn is_pretended(s: InstanceSummary) -> bool {
    &&& s.instance_id@ == "i-DRYRUN"@
    &&& s.state@ == "running"@
    &&& s.private_ip matches Some(ip) && ip@ == "10.0.0.42"@
    &&& s.security_group_id matches Some(sg) && sg@ == "sg-DRYRUN"@
}

/// What a dry run answers to a call.
pub open spec fn plan_answer(pretend_existing: bool, call: Call) -> bool {
    match call {
        Call::EnsureSecurityGroup(_, r) => r matches Ok(id) && id@ == "sg-DRYRUN"@,
        Call::LaunchInstance(_, r) => r matches Ok(id) && id@ == "i-DRYRUN"@,
        Call::FindInstance(_, r) => match r {
            Ok(None) => !pretend_existing,
            Ok(Some(s)) => pretend_existing && is_pretended(s),
            Err(_) => false,
        },
        _ => !call.failed(),
    }
}

impl PlanLogger {
    pub fn new(ctx: BastionContext) -> (r: Self)
        ensures
            r.log@.len() == 0,
            r.ctx == ctx,
            !r.pretend_existing,
    {
        Self { log: Vec::new(), ctx, pretend_existing: false }
    }

    fn note(&mut self, line: String)
        ensures
            text::texts(final(self).log@) == text::texts(old(self).log@).push(line@),
            final(self).ctx == old(self).ctx,
            final(self).pretend_existing == old(self).pretend_existing,
    {
        let ghost before = self.log@;
        self.log.push(line);
        assert(text::texts(self.log@) =~= text::texts(before).push(line@));
    }
}

/// The value of the tag `Name`, or a question mark.
fn name_tag(tags: &Vec<(String, String)>) -> (r: String)
    ensures
        r@ == (match tag_value(tag_views(tags@), "Name"@) {
            Some(v) => v,
            None => "?"@,
        }),
{
    let ghost all = tag_views(tags@);
    let mut i: usize = 0;
    assert(all.skip(0) =~= all);
    while i < tags.len()
        invariant
            i <= tags@.len(),
            all == tag_views(tags@),
            tag_value(all, "Name"@) == tag_value(all.skip(i as int), "Name"@),
        decreases tags@.len() - i,
    {
        assert(all.skip(i as int)[0] == (tags@[i as int].0@, tags@[i as int].1@));
        assert(all.skip(i as int).drop_first() =~= all.skip(i + 1));
        if text::same(tags[i].0.as_str(), "Name") {
            return tags[i].1.clone();
        }
        i = i + 1;
    }
    "?".to_owned()
}

impl BastionProvisioner for PlanLogger {
    open spec fn step(before: Self, call: Call, after: Self) -> bool {
        &&& after.ctx == before.ctx
        &&& after.pretend_existing == before.pretend_existing
        &&& text::texts(after.log@) == text::texts(before.log@).push(
            plan_line(before.ctx.project_name@, call),
        )
        &&& plan_answer(before.pretend_existing, call)
    }

    fn ensure_security_group(&mut self, plan: &SecurityGroupPlan) -> (r: Result<
        String,
        ProvisionError,
    >) {
        let mut line = "[plan] ensure security group ".to_owned();
        line.append(text::quote(plan.name.as_str()).as_str());
        line.append(" with ");
        text::push_decimal(&mut line, plan.ingress.len() as u64);
        line.append(" ingress rule(s)");
        self.note(line);
        Ok("sg-DRYRUN".to_owned())
    }

    fn ensure_iam_role(&mut self) -> (r: Result<(), ProvisionError>) {
        let mut line = "[plan] ensure IAM role ".to_owned();
        line.append(text::quote(self.ctx.iam_role_name().as_str()).as_str());
        line.append(" + instance profile ");
        line.append(text::quote(self.ctx.iam_instance_profile_name().as_str()).as_str());
        line.append(" with ");
        text::push_decimal(&mut line, managed_policy_arns().len() as u64);
        line.append(" managed policies");
        self.note(line);
        Ok(())
    }

    fn launch_instance(&mut self, plan: &LaunchPlan) -> (r: Result<String, ProvisionError>) {
        let mut line = "[plan] launch ".to_owned();
        line.append(plan.instance_type.as_str());
        line.append(" in ");
        line.append(plan.region.as_str());
        line.append(" (subnet ");
        line.append(plan.subnet_id.as_str());
        line.append(", ami ");
        line.append(plan.ami_id.as_str());
        line.append(") tagged Name=");
        line.append(name_tag(&plan.tags).as_str());
        self.note(line);
        Ok("i-DRYRUN".to_owned())
    }

    fn wait_until_running(&mut self, instance_id: &str) -> (r: Result<(), ProvisionError>) {
        let mut line = "[plan] wait until ".to_owned();
        line.append(instance_id);
        line.append(" is running");
        self.note(line);
        Ok(())
    }

    fn find_instance_by_name(&mut self, name: &str) -> (r: Result<
        Option<InstanceSummary>,
        ProvisionError,
    >) {
        let mut line = "[plan] look up instance tagged Name=".to_owned();
        line.append(name);
        self.note(line);
        if self.pretend_existing {
            Ok(
                Some(
                    InstanceSummary {
                        instance_id: "i-DRYRUN".to_owned(),
                        state: "running".to_owned(),
                        private_ip: Some("10.0.0.42".to_owned()),
                        security_group_id: Some("sg-DRYRUN".to_owned()),
                    },
                ),
            )
        } else {
            Ok(None)
        }
    }

    fn terminate_instance(&mut self, instance_id: &str) -> (r: Result<(), ProvisionError>) {
        let mut line = "[plan] terminate instance ".to_owned();
        line.append(instance_id);
        self.note(line);
        Ok(())
    }

    fn delete_security_group(&mut self, security_group_id: &str) -> (r: Result<(), ProvisionError>) {
        let mut line = "[plan] delete security group ".to_owned();
        line.append(security_group_id);
        self.note(line);
        Ok(())
    }

    fn delete_iam_role(&mut self) -> (r: Result<(), ProvisionError>) {
        let mut line = "[plan] delete IAM role ".to_owned();
        line.append(self.ctx.iam_role_name().as_str());
        line.append(" + instance profile ");
        line.append(self.ctx.iam_instance_profile_name().as_str());
        self.note(line);
        Ok(())
    }
}

/// After a call that failed there is no other.
pub open spec fn stops_at_failure(calls: Seq<Call>) -> bool {
    forall|i: int| 0 <= i < calls.len() - 1 ==> !(#[trigger] calls[i]).failed()
}

/// An init stops at the first call that fails, and reports a failure exactly
/// when one has: a call, or the making of the plan.
pub proof fn law_init_stops_at_failure<
    F: FnOnce(&String) -> Result<LaunchPlan, ProvisionError>,
>(
    name: Seq<char>,
    sg_plan: SecurityGroupPlan,
    launch_plan_for: F,
    calls: Seq<Call>,
    r: Result<InitOutcome, ProvisionError>,
)
    requires
        init_script(name, sg_plan, launch_plan_for, calls, r),
    ensures
        stops_at_failure(calls),
        calls.last().failed() ==> r is Err,
        r is Err ==> calls.last().failed() || exists|sg_id: String, e: ProvisionError| #[trigger]
            launch_plan_for.ensures((&sg_id,), Err(e)),
{
}

/// An init that finds a live instance reuses it and makes no call but the
/// look-up: running it again creates nothing.
pub proof fn law_init_is_idempotent<F: FnOnce(&String) -> Result<LaunchPlan, ProvisionError>>(
    name: Seq<char>,
    sg_plan: SecurityGroupPlan,
    launch_plan_for: F,
    calls: Seq<Call>,
    r: Result<InitOutcome, ProvisionError>,
    existing: InstanceSummary,
)
    requires
        init_script(name, sg_plan, launch_plan_for, calls, r),
        calls[0] == Call::FindInstance(name, Ok(Some(existing))),
        is_live(existing.state@),
    ensures
        calls.len() == 1,
        r matches Ok(out) && out.reused && out.instance_id@ == existing.instance_id@,
{
}

/// An init that reports an instance of its own has made all five calls in
/// order, and launched what the plan for its security group says.
pub proof fn law_init_creates_in_order<F: FnOnce(&String) -> Result<LaunchPlan, ProvisionError>>(
    name: Seq<char>,
    sg_plan: SecurityGroupPlan,
    launch_plan_for: F,
    calls: Seq<Call>,
    out: InitOutcome,
)
    requires
        init_script(name, sg_plan, launch_plan_for, calls, Ok(out)),
        !out.reused,
    ensures
        calls.len() == 5,
        calls[0] is FindInstance,
        calls[1] is EnsureIamRole,
        calls[2] is EnsureSecurityGroup,
        calls[3] is LaunchInstance,
        calls[4] is WaitUntilRunning,
        calls[2]->EnsureSecurityGroup_1 matches Ok(sg_id) && launch_plan_for.ensures(
            (&sg_id,),
            Ok(calls[3]->LaunchInstance_0),
        ),
{
}

/// A destroy stops at the first call that fails, and reports a failure exactly
/// when one has.
pub proof fn law_destroy_stops_at_failure(
    name: Seq<char>,
    calls: Seq<Call>,
    r: Result<DestroyOutcome, ProvisionError>,
)
    requires
        destroy_script(name, calls, r),
    ensures
        stops_at_failure(calls),
        calls.last().failed() <==> r is Err,
{
}

/// A destroy that reports an instance has terminated it before it deleted
/// anything else, and deleted the role last.
pub proof fn law_destroy_in_reverse_order(name: Seq<char>, calls: Seq<Call>, out: DestroyOutcome)
    requires
        destroy_script(name, calls, Ok(out)),
        out.instance_id is Some,
    ensures
        calls[1] matches Call::TerminateInstance(id, Ok(_)) && id == out.instance_id->0@,
        calls.last() is DeleteIamRole,
        out.security_group_id matches Some(sg) ==> calls.len() == 4 && (
        calls[2] matches Call::DeleteSecurityGroup(id, Ok(_)) && id == sg@),
        out.security_group_id is None ==> calls.len() == 3,
{
}

/// The lines that a dry run notes for its calls.
pub open spec fn plan_lines(project: Seq<char>, calls: Seq<Call>) -> Seq<Seq<char>> {
    calls.map_values(|c: Call| plan_line(project, c))
}

/// A dry run notes one line for each call, in their order, changes nothing
/// else, and answers each in its own way.
pub proof fn law_dry_run_notes_every_call(before: PlanLogger, calls: Seq<Call>, after: PlanLogger)
    requires
        runs(before, calls, after),
    ensures
        text::texts(after.log@) == text::texts(before.log@) + plan_lines(
            before.ctx.project_name@,
            calls,
        ),
        after.ctx == before.ctx,
        after.pretend_existing == before.pretend_existing,
        forall|i: int|
            0 <= i < calls.len() ==> plan_answer(before.pretend_existing, #[trigger] calls[i]),
    decreases calls.len(),
{
    let project = before.ctx.project_name@;
    if calls.len() == 0 {
        assert(text::texts(after.log@) =~= text::texts(before.log@) + plan_lines(project, calls));
    } else {
        let rest = calls.drop_last();
        let mid = choose|mid: PlanLogger|
            runs(before, rest, mid) && #[trigger] PlanLogger::step(mid, calls.last(), after);
        law_dry_run_notes_every_call(before, rest, mid);
        assert(plan_lines(project, calls) =~= plan_lines(project, rest).push(
            plan_line(project, calls.last()),
        ));
        assert(text::texts(after.log@) =~= text::texts(before.log@) + plan_lines(project, calls));
        assert forall|i: int| 0 <= i < calls.len() implies plan_answer(
            before.pretend_existing,
            #[trigger] calls[i],
        ) by {
            if i < rest.len() {
                assert(calls[i] == rest[i]);
            }
        }
    }
}

/// A dry run of an init shows the whole path of creation: it notes five lines
/// and reports the made-up names, unless the plan cannot be made.
pub proof fn law_dry_run_init_shows_creation<
    F: FnOnce(&String) -> Result<LaunchPlan, ProvisionError>,
>(
    before: PlanLogger,
    name: Seq<char>,
    sg_plan: SecurityGroupPlan,
    launch_plan_for: F,
    calls: Seq<Call>,
    r: Result<InitOutcome, ProvisionError>,
    after: PlanLogger,
)
    requires
        !before.pretend_existing,
        runs(before, calls, after),
        init_script(name, sg_plan, launch_plan_for, calls, r),
    ensures
        match r {
            Ok(out) => after.log@.len() == before.log@.len() + 5 && !out.reused && out.instance_id@
                == "i-DRYRUN"@ && out.security_group_id@ == "sg-DRYRUN"@,
            Err(e) => after.log@.len() == before.log@.len() + 3 && exists|sg_id: String|
                sg_id@ == "sg-DRYRUN"@ && #[trigger] launch_plan_for.ensures((&sg_id,), Err(e)),
        },
{
    law_dry_run_notes_every_call(before, calls, after);
    assert(text::texts(after.log@).len() == after.log@.len());
    assert(plan_answer(false, calls[0]));
    assert(plan_answer(false, calls[1]));
    assert(plan_answer(false, calls[2]));
    if calls.len() > 3 {
        assert(plan_answer(false, calls[3]));
    }
    if calls.len() > 4 {
        assert(plan_answer(false, calls[4]));
    }
}

/// A dry run of a destroy with a made-up instance shows the whole path of
/// deletion: four lines, and the made-up names reported.
pub proof fn law_dry_run_destroy_shows_deletion(
    before: PlanLogger,
    name: Seq<char>,
    calls: Seq<Call>,
    r: Result<DestroyOutcome, ProvisionError>,
    after: PlanLogger,
)
    requires
        before.pretend_existing,
        runs(before, calls, after),
        destroy_script(name, calls, r),
    ensures
        after.log@.len() == before.log@.len() + 4,
        r matches Ok(out) && (out.instance_id matches Some(id) && id@ == "i-DRYRUN"@) && (
        out.security_group_id matches Some(sg) && sg@ == "sg-DRYRUN"@),
{
    law_dry_run_notes_every_call(before, calls, after);
    assert(text::texts(after.log@).len() == after.log@.len());
    assert(plan_answer(true, calls[0]));
    assert(plan_answer(true, calls[1]));
    assert(plan_answer(true, calls[2]));
    if calls.len() > 3 {
        assert(plan_answer(true, calls[3]));
    }
}

} // verus!
