//! What a live provisioner of the bastion decides between its calls to AWS.
//!
//! Each operation is idempotent: it looks up existing resources by name/tag
//! before creating, and tolerates "already exists" errors when racing. The
//! calls themselves are made elsewhere; here stands which comes next and what
//! is made of the answers, as plain values.

use vstd::prelude::*;
use crate::bastion_provisioner;
use crate::bastion_provisioner::{
    IngressRule, IngressSource, InstanceSummary, ProvisionError, SecurityGroupPlan,
};
use crate::order;
use crate::text;

pub use crate::base64::base64_encode;

verus! {

/// Where the registration of the bastion's SSM agent stands.
#[derive(Debug, Clone, PartialEq, Eq)]
pub struct SsmAgentInfo {
    pub ping_status: String,
    pub agent_version: Option<String>,
    pub last_ping: Option<String>,
}

/// What AWS says of an SSM agent.
#[derive(Debug, Clone, PartialEq, Eq)]
pub struct AgentRecord {
    pub ping_status: Option<String>,
    pub agent_version: Option<String>,
    pub last_ping: Option<String>,
}

/// The registration of the bastion's SSM agent, out of what AWS says of the
/// agents of the instance. `None` when the agent has never registered (so the
/// laptop's port-forwards would error with `TargetNotConnected`).
pub fn ssm_agent_status(records: Vec<AgentRecord>) -> (r: Option<SsmAgentInfo>)
    ensures
        r is Some <==> records@.len() > 0,
        r matches Some(info) ==> {
            &&& info.ping_status@ == (match records@[0].ping_status {
                Some(s) => s@,
                None => "Unknown"@,
            })
            &&& info.agent_version == records@[0].agent_version
            &&& info.last_ping == records@[0].last_ping
        },
{
    let mut records = records;
    if records.len() == 0 {
        return None;
    }
    let first = records.remove(0);
    Some(
        SsmAgentInfo {
            ping_status: match first.ping_status {
                Some(s) => s,
                None => "Unknown".to_owned(),
            },
            agent_version: first.agent_version,
            last_ping: first.last_ping,
        },
    )
}

/// A permission of a security group: a protocol, a range of ports, and the
/// groups that may come in.
#[derive(Debug, Clone, PartialEq, Eq)]
pub struct IpPermission {
    pub ip_protocol: Option<String>,
    pub from_port: Option<i32>,
    pub to_port: Option<i32>,
    pub user_id_group_pairs: Vec<UserIdGroupPair>,
}

/// A group that may come in.
#[derive(Debug, Clone, PartialEq, Eq)]
pub struct UserIdGroupPair {
    pub group_id: Option<String>,
    pub description: Option<String>,
}

/// The text is this one.
pub open spec fn is_text(s: Option<String>, t: Seq<char>) -> bool {
    s matches Some(x) && x@ == t
}

fn is_this(s: &Option<String>, t: &str) -> (r: bool)
    ensures
        r == is_text(*s, t@),
{
    match s {
        Some(x) => text::same(x.as_str(), t),
        None => false,
    }
}

impl IpPermission {
    /// The permission is for TCP and the port lies in its range. A bound that
    /// is not given counts as -1.
    pub open spec fn covers(self, port: u16) -> bool {
        &&& is_text(self.ip_protocol, "tcp"@)
        &&& (match self.from_port {
            Some(p) => p as int,
            None => -1,
        }) <= port
        &&& port <= (match self.to_port {
            Some(p) => p as int,
            None => -1,
        })
    }

    /// The permission lets the group in on the port.
    pub open spec fn admits(self, group: Seq<char>, port: u16) -> bool {
        &&& self.covers(port)
        &&& exists|i: int|
            0 <= i < self.user_id_group_pairs@.len() && is_text(
                (#[trigger] self.user_id_group_pairs@[i]).group_id,
                group,
            )
    }
}

/// Some permission lets the group in on the port.
pub open spec fn allowed(perms: Seq<IpPermission>, group: Seq<char>, port: u16) -> bool {
    exists|i: int| 0 <= i < perms.len() && (#[trigger] perms[i]).admits(group, port)
}

/// Pure check: given an SG's ingress permissions, does any of them allow
/// `port` from `source_sg_id`?
pub fn ingress_allows(perms: &[IpPermission], source_sg_id: &str, port: u16) -> (r: bool)
    ensures
        r == allowed(perms@, source_sg_id@, port),
{
    let wanted: i32 = port as i32;
    let mut i: usize = 0;
    while i < perms.len()
        invariant
            i <= perms@.len(),
            wanted == port,
            forall|j: int| 0 <= j < i ==> !(#[trigger] perms@[j]).admits(source_sg_id@, port),
        decreases perms@.len() - i,
    {
        let p = &perms[i];
        let from: i32 = match p.from_port {
            Some(n) => n,
            None => -1,
        };
        let to: i32 = match p.to_port {
            Some(n) => n,
            None => -1,
        };
        if is_this(&p.ip_protocol, "tcp") && from <= wanted && wanted <= to {
            let pairs = &p.user_id_group_pairs;
            let mut k: usize = 0;
            while k < pairs.len()
                invariant
                    k <= pairs@.len(),
                    i < perms@.len(),
                    *pairs == perms@[i as int].user_id_group_pairs,
                    perms@[i as int].covers(port),
                    forall|j: int|
                        0 <= j < k ==> !is_text((#[trigger] pairs@[j]).group_id, source_sg_id@),
                decreases pairs@.len() - k,
            {
                if is_this(&pairs[k].group_id, source_sg_id) {
                    assert(perms@[i as int].admits(source_sg_id@, port));
                    return true;
                }
                k = k + 1;
            }
        }
        assert(!perms@[i as int].admits(source_sg_id@, port));
        i = i + 1;
    }
    false
}

/// The permission is the one that a rule of the plan asks for. Only a rule for
/// a security group names who may come in.
pub open spec fn asked_for(rule: IngressRule, permission: IpPermission) -> bool {
    &&& is_text(permission.ip_protocol, rule.protocol@)
    &&& permission.from_port == Some(rule.from_port as i32)
    &&& permission.to_port == Some(rule.to_port as i32)
    &&& match rule.source {
        IngressSource::SecurityGroup(id) => {
            &&& permission.user_id_group_pairs@.len() == 1
            &&& is_text(permission.user_id_group_pairs@[0].group_id, id@)
            &&& is_text(permission.user_id_group_pairs@[0].description, rule.description@)
        },
        IngressSource::Cidr(_) => permission.user_id_group_pairs@.len() == 0,
    }
}

/// The permission that a rule of the plan asks for.
pub fn permission_for(rule: &IngressRule) -> (r: IpPermission)
    ensures
        asked_for(*rule, r),
{
    let pairs: Vec<UserIdGroupPair> = match &rule.source {
        IngressSource::SecurityGroup(id) => vec![
            UserIdGroupPair {
                group_id: Some(id.clone()),
                description: Some(rule.description.to_owned()),
            },
        ],
        IngressSource::Cidr(_) => Vec::new(),
    };
    IpPermission {
        ip_protocol: Some(rule.protocol.to_owned()),
        from_port: Some(rule.from_port as i32),
        to_port: Some(rule.to_port as i32),
        user_id_group_pairs: pairs,
    }
}

/// The permission that a rule asks for lets in exactly the group of the rule, on
/// exactly its ports.
pub proof fn law_granted_rule_admits(
    rule: IngressRule,
    permission: IpPermission,
    group: Seq<char>,
    port: u16,
)
    requires
        asked_for(rule, permission),
    ensures
        allowed(seq![permission], group, port) <==> {
            &&& rule.protocol@ == "tcp"@
            &&& rule.from_port <= port <= rule.to_port
            &&& rule.source matches IngressSource::SecurityGroup(id) && id@ == group
        },
{
    let perms = seq![permission];
    assert(perms[0] == permission);
    if rule.source is SecurityGroup && rule.source->SecurityGroup_0@ == group {
        assert(is_text(permission.user_id_group_pairs@[0].group_id, group));
        assert(permission.admits(group, port) == permission.covers(port));
    }
    assert(allowed(perms, group, port) == perms[0].admits(group, port));
}

/// No public SSH on the bastion: once the rules of its plan are granted, the
/// load balancer's group gets in on port 80, and no group gets in otherwise; no
/// rule is for a range of addresses.
pub proof fn law_bastion_admits_only_the_load_balancer(
    plan: SecurityGroupPlan,
    project: Seq<char>,
    alb: Seq<char>,
    granted: Seq<IpPermission>,
    group: Seq<char>,
    port: u16,
)
    requires
        bastion_provisioner::locked_to(plan, project, alb),
        granted.len() == plan.ingress@.len(),
        forall|i: int|
            0 <= i < granted.len() ==> asked_for(plan.ingress@[i], #[trigger] granted[i]),
    ensures
        allowed(granted, group, port) <==> group == alb && port == 80,
        forall|i: int| 0 <= i < plan.ingress@.len() ==> (#[trigger] plan.ingress@[i]).source is SecurityGroup,
{
    assert(asked_for(plan.ingress@[0], granted[0]));
    law_granted_rule_admits(plan.ingress@[0], granted[0], group, port);
    assert(granted =~= seq![granted[0]]);
}

/// One VPC endpoint whose security group doesn't allow inbound from the
/// bastion's SG. The bastion's SSM agent (and any other service that
/// resolves a public hostname to a private interface endpoint via VPC
/// DNS) silently fails until the missing rule is added.
#[derive(Debug, Clone, PartialEq, Eq)]
pub struct MissingEndpointIngress {
    /// Security group attached to the endpoint's ENI.
    pub endpoint_sg_id: String,
    /// Service the endpoint exposes (e.g. `com.amazonaws.us-east-1.ssm`).
    pub endpoint_service: String,
    /// Port the bastion needs to reach the endpoint on (always 443 for
    /// AWS interface endpoints today, kept here for clarity in error
    /// messages).
    pub port: u16,
}

impl MissingEndpointIngress {
    /// The command that adds the missing rule.
    pub open spec fn fix_text(self, bastion_sg: Seq<char>, profile: Option<&str>) -> Seq<char> {
        "aws ec2 authorize-security-group-ingress"@ + (match profile {
            Some(p) => " --profile "@ + p@,
            None => ""@,
        }) + " \\\n  --group-id "@ + self.endpoint_sg_id@
            + " \\\n  --ip-permissions 'IpProtocol=tcp,FromPort="@ + text::decimal(self.port as nat)
            + ",ToPort="@ + text::decimal(self.port as nat) + ",UserIdGroupPairs=[{GroupId="@
            + bastion_sg + ",Description=\"ephemwork bastion\"}]'"@
    }

    /// Render the exact `aws ec2 authorize-security-group-ingress` command
    /// the operator should run. Designed to be copy-pasted into a shell.
    pub fn fix_command(&self, bastion_sg_id: &str, profile: Option<&str>) -> (r: String)
        ensures
            r@ == self.fix_text(bastion_sg_id@, profile),
    {
        let mut out = "aws ec2 authorize-security-group-ingress".to_owned();
        match profile {
            Some(p) => {
                let mut arg = " --profile ".to_owned();
                arg.append(p);
                out.append(arg.as_str());
            },
            None => {
                out.append("");
            },
        }
        out.append(" \\\n  --group-id ");
        out.append(self.endpoint_sg_id.as_str());
        out.append(" \\\n  --ip-permissions 'IpProtocol=tcp,FromPort=");
        text::push_decimal(&mut out, self.port as u64);
        out.append(",ToPort=");
        text::push_decimal(&mut out, self.port as u64);
        out.append(",UserIdGroupPairs=[{GroupId=");
        out.append(bastion_sg_id);
        out.append(",Description=\"ephemwork bastion\"}]'");
        out
    }
}

/// The subnet lies in another VPC than the one that is pinned.
#[derive(Debug, Clone, PartialEq, Eq)]
pub struct VpcMismatch {
    pub subnet_id: String,
    pub actual_vpc: String,
    pub expected_vpc: String,
}

impl VpcMismatch {
    pub open spec fn text(self) -> Seq<char> {
        "refusing to provision: subnet "@ + self.subnet_id@ + " is in "@ + self.actual_vpc@
            + " but ephemwork.toml pins tunnel.expected_vpc_id = "@ + self.expected_vpc@
            + ". Aborting before any AWS resource is created."@
    }

    /// The error in words.
    pub fn message(&self) -> (r: String)
        ensures
            r@ == self.text(),
    {
        let mut out = "refusing to provision: subnet ".to_owned();
        out.append(self.subnet_id.as_str());
        out.append(" is in ");
        out.append(self.actual_vpc.as_str());
        out.append(" but ephemwork.toml pins tunnel.expected_vpc_id = ");
        out.append(self.expected_vpc.as_str());
        out.append(". Aborting before any AWS resource is created.");
        out
    }
}

/// Pure check for the prod-safety guard.
pub fn verify_vpc_match(subnet_id: &str, actual_vpc: &str, expected_vpc: &str) -> (r: Result<
    (),
    VpcMismatch,
>)
    ensures
        match r {
            Ok(_) => actual_vpc@ == expected_vpc@,
            Err(e) => actual_vpc@ != expected_vpc@ && e.subnet_id@ == subnet_id@ && e.actual_vpc@
                == actual_vpc@ && e.expected_vpc@ == expected_vpc@,
        },
{
    if !text::same(actual_vpc, expected_vpc) {
        return Err(
            VpcMismatch {
                subnet_id: subnet_id.to_owned(),
                actual_vpc: actual_vpc.to_owned(),
                expected_vpc: expected_vpc.to_owned(),
            },
        );
    }
    Ok(())
}

/// The first of a list that may be missing.
pub open spec fn first_of<T>(list: Option<Vec<T>>) -> Option<T> {
    match list {
        Some(v) => if v@.len() > 0 {
            Some(v@[0])
        } else {
            None
        },
        None => None,
    }
}

fn take_first<T>(list: Option<Vec<T>>) -> (r: Option<T>)
    ensures
        r == first_of(list),
{
    match list {
        Some(v) => {
            let mut v = v;
            if v.len() > 0 {
                Some(v.remove(0))
            } else {
                None
            }
        },
        None => None,
    }
}

fn concat3(a: &str, b: &str, c: &str) -> (r: String)
    ensures
        r@ == a@ + b@ + c@,
{
    let mut out = a.to_owned();
    out.append(b);
    out.append(c);
    out
}

/// The VPC that a subnet lives in, out of what AWS says of the VPCs of the
/// subnets of that ID. Used by the prod-safety guard in `bastion init --live`
/// to refuse a subnet from the wrong VPC before any resource is created.
pub fn vpc_id_for_subnet(subnet_id: &str, vpcs: Option<Vec<Option<String>>>) -> (r: Result<
    String,
    ProvisionError,
>)
    ensures
        match first_of(vpcs) {
            Some(Some(vpc)) => r == Ok::<String, ProvisionError>(vpc),
            _ => r matches Err(ProvisionError::Outside(e)) && e@ == "subnet "@ + subnet_id@
                + " not found"@,
        },
{
    match take_first(vpcs) {
        Some(Some(vpc)) => Ok(vpc),
        _ => Err(ProvisionError::Outside(concat3("subnet ", subnet_id, " not found"))),
    }
}

/// The VPC that a security group lives in, out of what AWS says of the VPCs of
/// the groups of that ID.
pub fn vpc_id_for_security_group(sg_id: &str, vpcs: Option<Vec<Option<String>>>) -> (r: Result<
    String,
    ProvisionError,
>)
    ensures
        match first_of(vpcs) {
            Some(Some(vpc)) => r == Ok::<String, ProvisionError>(vpc),
            Some(None) => r matches Err(ProvisionError::Outside(e)) && e@ == "security group "@
                + sg_id@ + " has no VpcId"@,
            None => r matches Err(ProvisionError::Outside(e)) && e@ == "security group "@ + sg_id@
                + " not found"@,
        },
{
    match take_first(vpcs) {
        Some(Some(vpc)) => Ok(vpc),
        Some(None) => Err(
            ProvisionError::Outside(concat3("security group ", sg_id, " has no VpcId")),
        ),
        None => Err(ProvisionError::Outside(concat3("security group ", sg_id, " not found"))),
    }
}

/// The security group that has a name, if there is one, out of the IDs that AWS
/// answers for the name.
pub fn find_security_group_by_name(ids: Option<Vec<Option<String>>>) -> (r: Option<String>)
    ensures
        r == (match first_of(ids) {
            Some(id) => id,
            None => None,
        }),
{
    match take_first(ids) {
        Some(id) => id,
        None => None,
    }
}

/// The permissions of a security group, out of what AWS says of the groups of
/// that ID.
pub fn security_group_ingress(sg_id: &str, groups: Option<Vec<Option<Vec<IpPermission>>>>) -> (r:
    Result<Vec<IpPermission>, ProvisionError>)
    ensures
        match first_of(groups) {
            Some(Some(perms)) => r == Ok::<Vec<IpPermission>, ProvisionError>(perms),
            Some(None) => r matches Ok(perms) && perms@.len() == 0,
            None => r matches Err(ProvisionError::Outside(e)) && e@ == "security group "@ + sg_id@
                + " not found"@,
        },
{
    match take_first(groups) {
        Some(Some(perms)) => Ok(perms),
        Some(None) => Ok(Vec::new()),
        None => Err(ProvisionError::Outside(concat3("security group ", sg_id, " not found"))),
    }
}

/// The instance that a launch gave, out of the IDs that AWS answered.
pub fn launched_instance(ids: Option<Vec<Option<String>>>) -> (r: Result<String, ProvisionError>)
    ensures
        match first_of(ids) {
            Some(Some(id)) => r == Ok::<String, ProvisionError>(id),
            _ => r matches Err(ProvisionError::Outside(e)) && e@
                == "run_instances returned no instance"@,
        },
{
    match take_first(ids) {
        Some(Some(id)) => Ok(id),
        _ => Err(ProvisionError::Outside("run_instances returned no instance".to_owned())),
    }
}

/// What AWS says of an instance.
#[derive(Debug, Clone, PartialEq, Eq)]
pub struct DescribedInstance {
    pub instance_id: Option<String>,
    pub state: Option<String>,
    pub private_ip: Option<String>,
    pub security_groups: Option<Vec<Option<String>>>,
}

/// The first instance of the first reservation.
pub open spec fn first_instance(
    reservations: Option<Vec<Option<Vec<DescribedInstance>>>>,
) -> Option<DescribedInstance> {
    match first_of(reservations) {
        Some(instances) => first_of(instances),
        None => None,
    }
}

fn take_first_instance(reservations: Option<Vec<Option<Vec<DescribedInstance>>>>) -> (r: Option<
    DescribedInstance,
>)
    ensures
        r == first_instance(reservations),
{
    match take_first(reservations) {
        Some(instances) => take_first(instances),
        None => None,
    }
}

/// The text, or the empty one.
pub open spec fn or_empty(s: Option<String>) -> Seq<char> {
    match s {
        Some(t) => t@,
        None => Seq::empty(),
    }
}

fn unwrap_or_empty(s: Option<String>) -> (r: String)
    ensures
        r@ == or_empty(s),
{
    match s {
        Some(t) => t,
        None => String::new(),
    }
}

/// The states of the instances that a look-up by name asks for.
pub fn searched_states() -> (r: Vec<&'static str>)
    ensures
        r@.map_values(|s: &'static str| s@) == seq![
            "pending"@,
            "running"@,
            "stopping"@,
            "stopped"@,
        ],
{
    let r: Vec<&'static str> = vec!["pending", "running", "stopping", "stopped"];
    assert(r@.map_values(|s: &'static str| s@) =~= seq![
        "pending"@,
        "running"@,
        "stopping"@,
        "stopped"@,
    ]);
    r
}

/// What a look-up by name found, out of the reservations that AWS answered:
/// the first instance of the first of them.
pub fn found_instance(reservations: Option<Vec<Option<Vec<DescribedInstance>>>>) -> (r: Option<
    InstanceSummary,
>)
    ensures
        match first_instance(reservations) {
            None => r is None,
            Some(i) => r matches Some(s) && {
                &&& s.instance_id@ == or_empty(i.instance_id)
                &&& s.state@ == or_empty(i.state)
                &&& s.private_ip == i.private_ip
                &&& s.security_group_id == (match first_of(i.security_groups) {
                    Some(id) => id,
                    None => None,
                })
            },
        },
{
    match take_first_instance(reservations) {
        None => None,
        Some(i) => Some(
            InstanceSummary {
                instance_id: unwrap_or_empty(i.instance_id),
                state: unwrap_or_empty(i.state),
                private_ip: i.private_ip,
                security_group_id: match take_first(i.security_groups) {
                    Some(id) => id,
                    None => None,
                },
            },
        ),
    }
}

/// Seconds that an instance may take to run.
pub const WAIT_TIMEOUT_SECS: u64 = 300;

/// Seconds between two looks at an instance.
pub const WAIT_POLL_SECS: u64 = 5;

/// What a look at an instance that is to run comes to.
#[derive(Debug, Clone, PartialEq, Eq)]
pub enum WaitVerdict {
    Running,
    LookAgain,
    GiveUp(ProvisionError),
}

/// Judges a look at an instance that is to run, out of the reservations that
/// AWS answered; `late` says that the time is up.
pub fn judge_wait(
    instance_id: &str,
    reservations: Option<Vec<Option<Vec<DescribedInstance>>>>,
    late: bool,
) -> (r: WaitVerdict)
    ensures
        if first_instance(reservations) matches Some(i) && is_text(i.state, "running"@) {
            r == WaitVerdict::Running
        } else if late {
            r matches WaitVerdict::GiveUp(ProvisionError::Outside(e)) && e@
                == "timed out waiting for "@ + instance_id@ + " to reach running"@
        } else {
            r == WaitVerdict::LookAgain
        },
{
    if let Some(i) = take_first_instance(reservations) {
        if is_this(&i.state, "running") {
            return WaitVerdict::Running;
        }
    }
    if late {
        return WaitVerdict::GiveUp(
            ProvisionError::Outside(
                concat3("timed out waiting for ", instance_id, " to reach running"),
            ),
        );
    }
    WaitVerdict::LookAgain
}

/// What AWS says of a VPC endpoint.
#[derive(Debug, Clone, PartialEq, Eq)]
pub struct VpcEndpoint {
    /// Whether it is an interface endpoint.
    pub interface: bool,
    pub service_name: Option<String>,
    pub groups: Option<Vec<Option<String>>>,
}

/// The groups that have an ID, each with the service.
pub open spec fn group_pairs(groups: Seq<Option<String>>, service: Seq<char>) -> Seq<
    (Seq<char>, Seq<char>),
>
    decreases groups.len(),
{
    if groups.len() == 0 {
        seq![]
    } else {
        let rest = group_pairs(groups.drop_last(), service);
        match groups.last() {
            Some(id) => rest.push((id@, service)),
            None => rest,
        }
    }
}

/// The groups of an endpoint with its service, where it is an interface
/// endpoint.
pub open spec fn endpoint_pairs(endpoint: VpcEndpoint) -> Seq<(Seq<char>, Seq<char>)> {
    if endpoint.interface && endpoint.groups is Some {
        group_pairs(endpoint.groups->0@, or_empty(endpoint.service_name))
    } else {
        seq![]
    }
}

/// The groups of all interface endpoints, each with its service.
pub open spec fn all_pairs(endpoints: Seq<VpcEndpoint>) -> Seq<(Seq<char>, Seq<char>)>
    decreases endpoints.len(),
{
    if endpoints.len() == 0 {
        seq![]
    } else {
        all_pairs(endpoints.drop_last()) + endpoint_pairs(endpoints.last())
    }
}

/// A pair of this group is there.
pub open spec fn has_group(pairs: Seq<(Seq<char>, Seq<char>)>, group: Seq<char>) -> bool {
    exists|i: int| 0 <= i < pairs.len() && (#[trigger] pairs[i]).0 == group
}

/// The pairs, of each group only the first.
pub open spec fn first_seen(pairs: Seq<(Seq<char>, Seq<char>)>) -> Seq<(Seq<char>, Seq<char>)>
    decreases pairs.len(),
{
    if pairs.len() == 0 {
        seq![]
    } else {
        let rest = first_seen(pairs.drop_last());
        if has_group(rest, pairs.last().0) {
            rest
        } else {
            rest.push(pairs.last())
        }
    }
}

/// What pairs of strings hold.
pub open spec fn pair_views(pairs: Seq<(String, String)>) -> Seq<(Seq<char>, Seq<char>)> {
    pairs.map_values(|p: (String, String)| (p.0@, p.1@))
}

/// Adds a pair, unless one of its group is there.
fn add_group(out: &mut Vec<(String, String)>, group: &str, service: &str)
    ensures
        pair_views(final(out)@) == (if has_group(pair_views(old(out)@), group@) {
            pair_views(old(out)@)
        } else {
            pair_views(old(out)@).push((group@, service@))
        }),
{
    let ghost before = pair_views(out@);
    let mut i: usize = 0;
    while i < out.len()
        invariant
            i <= out@.len(),
            before == pair_views(out@),
            forall|j: int| 0 <= j < i ==> (#[trigger] before[j]).0 != group@,
        decreases out@.len() - i,
    {
        assert(before[i as int] == (out@[i as int].0@, out@[i as int].1@));
        if text::same(out[i].0.as_str(), group) {
            assert(has_group(before, group@));
            return ;
        }
        i = i + 1;
    }
    assert(!has_group(before, group@));
    out.push((group.to_owned(), service.to_owned()));
    assert(pair_views(out@) =~= before.push((group@, service@)));
}

/// The security groups of the interface endpoints, each once, with the service
/// of the first endpoint that has it. De-duped across endpoints so that one
/// question per group is asked, not one per endpoint.
pub fn groups_to_check(endpoints: &Vec<VpcEndpoint>) -> (r: Vec<(String, String)>)
    ensures
        pair_views(r@) == first_seen(all_pairs(endpoints@)),
{
    let mut out: Vec<(String, String)> = Vec::new();
    let mut i: usize = 0;
    assert(pair_views(out@) =~= first_seen(all_pairs(endpoints@.take(0))));
    while i < endpoints.len()
        invariant
            i <= endpoints@.len(),
            pair_views(out@) == first_seen(all_pairs(endpoints@.take(i as int))),
        decreases endpoints@.len() - i,
    {
        let ep = &endpoints[i];
        let ghost done = all_pairs(endpoints@.take(i as int));
        assert(endpoints@.take(i + 1).drop_last() =~= endpoints@.take(i as int));
        assert(endpoints@.take(i + 1).last() == *ep);
        if ep.interface {
            if let Some(groups) = &ep.groups {
                let service: &str = match &ep.service_name {
                    Some(s) => s.as_str(),
                    None => "",
                };
                proof {
                    reveal_strlit("");
                    assert(service@ =~= or_empty(ep.service_name));
                }
                let mut k: usize = 0;
                assert(done + group_pairs(groups@.take(0), service@) =~= done);
                while k < groups.len()
                    invariant
                        k <= groups@.len(),
                        pair_views(out@) == first_seen(
                            done + group_pairs(groups@.take(k as int), service@),
                        ),
                    decreases groups@.len() - k,
                {
                    let ghost so_far = done + group_pairs(groups@.take(k as int), service@);
                    assert(groups@.take(k + 1).drop_last() =~= groups@.take(k as int));
                    assert(groups@.take(k + 1).last() == groups@[k as int]);
                    if let Some(id) = &groups[k] {
                        add_group(&mut out, id.as_str(), service);
                        proof {
                            let next = done + group_pairs(groups@.take(k + 1), service@);
                            assert(next =~= so_far.push((id@, service@)));
                            assert(next.drop_last() =~= so_far);
                        }
                    }
                    k = k + 1;
                }
                assert(groups@.take(k as int) =~= groups@);
            } else {
                assert(done + endpoint_pairs(*ep) =~= done);
            }
        } else {
            assert(done + endpoint_pairs(*ep) =~= done);
        }
        i = i + 1;
    }
    assert(endpoints@.take(i as int) =~= endpoints@);
    out
}

/// Every group of an interface endpoint is asked about, and none twice.
pub proof fn law_each_group_is_checked_once(pairs: Seq<(Seq<char>, Seq<char>)>)
    ensures
        forall|i: int| 0 <= i < pairs.len() ==> has_group(first_seen(pairs), #[trigger] pairs[i].0),
        forall|i: int, j: int|
            0 <= i < j < first_seen(pairs).len() ==> (#[trigger] first_seen(pairs)[i]).0 != (
            #[trigger] first_seen(pairs)[j]).0,
    decreases pairs.len(),
{
    if pairs.len() > 0 {
        let rest = pairs.drop_last();
        let seen = first_seen(rest);
        let all = first_seen(pairs);
        law_each_group_is_checked_once(rest);
        assert forall|i: int| 0 <= i < pairs.len() implies has_group(all, #[trigger] pairs[i].0) by {
            if i < rest.len() {
                assert(pairs[i] == rest[i]);
                assert(has_group(seen, rest[i].0));
                let k = choose|k: int| 0 <= k < seen.len() && (#[trigger] seen[k]).0 == rest[i].0;
                assert(all[k] == seen[k]);
            } else if !has_group(seen, pairs.last().0) {
                assert(all[seen.len() as int] == pairs.last());
            }
        }
        assert forall|i: int, j: int| 0 <= i < j < all.len() implies (#[trigger] all[i]).0 != (
        #[trigger] all[j]).0 by {
            assert(all[i] == seen[i]);
            if j < seen.len() {
                assert(all[j] == seen[j]);
            } else {
                assert(!has_group(seen, pairs.last().0));
            }
        }
    }
}

/// A security group of an endpoint with its permissions.
#[derive(Debug, Clone, PartialEq, Eq)]
pub struct CheckedGroup {
    pub sg_id: String,
    pub service: String,
    pub permissions: Vec<IpPermission>,
}

/// Port of AWS interface endpoints.
pub const ENDPOINT_PORT: u16 = 443;

/// The groups that do not let the bastion in, by service and ID.
pub open spec fn lacking(groups: Seq<CheckedGroup>, bastion_sg: Seq<char>) -> Seq<
    (Seq<char>, Seq<char>),
>
    decreases groups.len(),
{
    if groups.len() == 0 {
        seq![]
    } else {
        let rest = lacking(groups.drop_last(), bastion_sg);
        if allowed(groups.last().permissions@, bastion_sg, ENDPOINT_PORT) {
            rest
        } else {
            rest.push((groups.last().service@, groups.last().sg_id@))
        }
    }
}

/// By service, then by ID.
pub open spec fn pair_before(a: (Seq<char>, Seq<char>), b: (Seq<char>, Seq<char>)) -> bool {
    text::precedes(a.0, b.0) || (a.0 == b.0 && text::precedes(a.1, b.1))
}

/// The order of the warnings.
pub open spec fn by_service() -> spec_fn((Seq<char>, Seq<char>), (Seq<char>, Seq<char>)) -> bool {
    |a: (Seq<char>, Seq<char>), b: (Seq<char>, Seq<char>)| pair_before(a, b)
}

/// Service and ID of each.
pub open spec fn missing_pairs(v: Seq<MissingEndpointIngress>) -> Seq<(Seq<char>, Seq<char>)> {
    v.map_values(|m: MissingEndpointIngress| (m.endpoint_service@, m.endpoint_sg_id@))
}

proof fn lemma_by_service()
    ensures
        order::is_order(by_service()),
{
    assert forall|a: (Seq<char>, Seq<char>)| !#[trigger] by_service()(a, a) by {
        text::law_precedes_irreflexive(a.0);
        text::law_precedes_irreflexive(a.1);
    }
    assert forall|
        a: (Seq<char>, Seq<char>),
        b: (Seq<char>, Seq<char>),
        c: (Seq<char>, Seq<char>),
    | #[trigger]
        by_service()(a, b) && #[trigger] by_service()(b, c) implies by_service()(a, c) by {
        if text::precedes(a.0, b.0) && text::precedes(b.0, c.0) {
            text::law_precedes_transitive(a.0, b.0, c.0);
        } else if a.0 == b.0 && b.0 == c.0 {
            text::law_precedes_transitive(a.1, b.1, c.1);
        }
    }
}

fn comes_before(a: &MissingEndpointIngress, b: &MissingEndpointIngress) -> (r: bool)
    ensures
        r == pair_before(
            (a.endpoint_service@, a.endpoint_sg_id@),
            (b.endpoint_service@, b.endpoint_sg_id@),
        ),
{
    text::before(a.endpoint_service.as_str(), b.endpoint_service.as_str()) || (text::same(
        a.endpoint_service.as_str(),
        b.endpoint_service.as_str(),
    ) && text::before(a.endpoint_sg_id.as_str(), b.endpoint_sg_id.as_str()))
}

/// Puts an item where it belongs.
fn insert_in_order(out: &mut Vec<MissingEndpointIngress>, item: MissingEndpointIngress)
    requires
        order::in_order(missing_pairs(old(out)@), by_service()),
    ensures
        order::in_order(missing_pairs(final(out)@), by_service()),
        missing_pairs(final(out)@).to_multiset() == missing_pairs(old(out)@).to_multiset().insert(
            (item.endpoint_service@, item.endpoint_sg_id@),
        ),
        (forall|i: int| 0 <= i < old(out)@.len() ==> (#[trigger] old(out)@[i]).port == item.port)
            ==> (forall|i: int|
            0 <= i < final(out)@.len() ==> (#[trigger] final(out)@[i]).port == item.port),
{
    let ghost was = out@;
    let ghost before = missing_pairs(out@);
    let ghost new = (item.endpoint_service@, item.endpoint_sg_id@);
    let mut at: usize = 0;
    while at < out.len() && !comes_before(&item, &out[at])
        invariant
            at <= out@.len(),
            before == missing_pairs(out@),
            new == (item.endpoint_service@, item.endpoint_sg_id@),
            forall|j: int| 0 <= j < at ==> !pair_before(new, #[trigger] before[j]),
        decreases out@.len() - at,
    {
        assert(before[at as int] == (
            out@[at as int].endpoint_service@,
            out@[at as int].endpoint_sg_id@,
        ));
        at = at + 1;
    }
    proof {
        if at < out@.len() {
            assert(before[at as int] == (
                out@[at as int].endpoint_service@,
                out@[at as int].endpoint_sg_id@,
            ));
        }
        lemma_by_service();
        order::lemma_insert(before, at as int, new, by_service());
    }
    out.insert(at, item);
    proof {
        assert(missing_pairs(out@) =~= before.insert(at as int, new));
        assert forall|i: int| 0 <= i < out@.len() implies (exists|k: int|
            0 <= k < was.len() && #[trigger] was[k] == out@[i]) || out@[i] == item by {
            if i != at {
                let a = if i < at { i as int } else { i - 1 };
                assert(was[a] == out@[i]);
            }
        }
    }
}

/// Which of the security groups of the endpoints don't allow inbound :443 from
/// the bastion's, by service and then by ID so that the printed warnings don't
/// shuffle between runs.
pub fn missing_vpc_endpoint_ingress(groups: &Vec<CheckedGroup>, bastion_sg_id: &str) -> (r: Vec<
    MissingEndpointIngress,
>)
    ensures
        order::in_order(missing_pairs(r@), by_service()),
        missing_pairs(r@).to_multiset() == lacking(groups@, bastion_sg_id@).to_multiset(),
        forall|i: int| 0 <= i < r@.len() ==> (#[trigger] r@[i]).port == ENDPOINT_PORT,
{
    let mut out: Vec<MissingEndpointIngress> = Vec::new();
    let mut i: usize = 0;
    assert(missing_pairs(out@) =~= lacking(groups@.take(0), bastion_sg_id@));
    while i < groups.len()
        invariant
            i <= groups@.len(),
            order::in_order(missing_pairs(out@), by_service()),
            missing_pairs(out@).to_multiset() == lacking(
                groups@.take(i as int),
                bastion_sg_id@,
            ).to_multiset(),
            forall|j: int| 0 <= j < out@.len() ==> (#[trigger] out@[j]).port == ENDPOINT_PORT,
        decreases groups@.len() - i,
    {
        broadcast use vstd::seq_lib::group_to_multiset_ensures;

        let g = &groups[i];
        assert(groups@.take(i + 1).drop_last() =~= groups@.take(i as int));
        assert(groups@.take(i + 1).last() == *g);
        if !ingress_allows(g.permissions.as_slice(), bastion_sg_id, ENDPOINT_PORT) {
            insert_in_order(
                &mut out,
                MissingEndpointIngress {
                    endpoint_sg_id: g.sg_id.clone(),
                    endpoint_service: g.service.clone(),
                    port: ENDPOINT_PORT,
                },
            );
        }
        i = i + 1;
    }
    assert(groups@.take(i as int) =~= groups@);
    out
}

} // verus!
