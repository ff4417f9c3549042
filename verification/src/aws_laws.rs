//! What is made of AWS's answers, told by the answers.

use vstd::prelude::*;
use crate::aws_bastion_provisioner;
use crate::aws_bastion_provisioner::{
    AgentRecord, CheckedGroup, DescribedInstance, IpPermission, MissingEndpointIngress,
    SsmAgentInfo, VpcEndpoint, VpcMismatch, WaitVerdict,
};
use crate::aws_steps::{GroupEvent, GroupStep, SetupStep, StepEvent, TeardownStep};
use crate::bastion_provisioner;
use crate::bastion_provisioner::{
    IngressRule, IngressSource, InstanceSummary, ProvisionError, SecurityGroupPlan,
};
use crate::message_laws;
use crate::order;
use crate::text;

verus! {

/// The permission lets TCP from this group in on this port.
pub open spec fn lets_in(perm: IpPermission, group: Seq<char>, port: u16) -> bool {
    &&& perm.ip_protocol matches Some(p) && p@ == "tcp"@
    &&& perm.from_port matches Some(from) ==> from <= port
    &&& perm.to_port matches Some(to) && port <= to
    &&& exists|j: int|
        0 <= j < perm.user_id_group_pairs@.len() && ((
        #[trigger] perm.user_id_group_pairs@[j]).group_id matches Some(g) && g@ == group)
}

/// Traffic from a group is allowed exactly if one of the permissions lets that group in
/// by TCP on a range of ports that holds the port.
pub proof fn law_ingress_allows(perms: &[IpPermission], group: &str, port: u16, r: bool)
    requires
        call_ensures(aws_bastion_provisioner::ingress_allows, (perms, group, port), r),
    ensures
        r <==> exists|i: int| 0 <= i < perms@.len() && lets_in(#[trigger] perms@[i], group@, port),
{
    lemma_allowed(perms@, group@, port);
}

proof fn lemma_allowed(perms: Seq<IpPermission>, group: Seq<char>, port: u16)
    ensures
        aws_bastion_provisioner::allowed(perms, group, port) <==> exists|i: int|
            0 <= i < perms.len() && lets_in(#[trigger] perms[i], group, port),
{
    assert forall|i: int| 0 <= i < perms.len() implies (#[trigger] perms[i]).admits(group, port)
        == lets_in(perms[i], group, port) by {
        let perm = perms[i];
        if perm.admits(group, port) {
            let j = choose|j: int|
                0 <= j < perm.user_id_group_pairs@.len() && aws_bastion_provisioner::is_text(
                    (#[trigger] perm.user_id_group_pairs@[j]).group_id,
                    group,
                );
            assert(perm.user_id_group_pairs@[j].group_id matches Some(g) && g@ == group);
        }
        if lets_in(perm, group, port) {
            let j = choose|j: int|
                0 <= j < perm.user_id_group_pairs@.len() && ((
                #[trigger] perm.user_id_group_pairs@[j]).group_id matches Some(g) && g@ == group);
            assert(aws_bastion_provisioner::is_text(
                perm.user_id_group_pairs@[j].group_id,
                group,
            ));
        }
    }
    if aws_bastion_provisioner::allowed(perms, group, port) {
        let i = choose|i: int| 0 <= i < perms.len() && (#[trigger] perms[i]).admits(group, port);
        assert(lets_in(perms[i], group, port));
    }
    if exists|i: int| 0 <= i < perms.len() && lets_in(#[trigger] perms[i], group, port) {
        let i = choose|i: int| 0 <= i < perms.len() && lets_in(#[trigger] perms[i], group, port);
        assert(perms[i].admits(group, port));
    }
}

/// The group keeps this one from its port 443.
pub open spec fn keeps_out(bastion: Seq<char>) -> spec_fn(CheckedGroup) -> bool {
    |g: CheckedGroup|
        !exists|i: int|
            0 <= i < g.permissions@.len() && lets_in(#[trigger] g.permissions@[i], bastion, 443)
}

/// What is listed as missing is every group that was checked and keeps the bastion from
/// port 443, as often as it was checked, by service and then by ID in ascending order.
pub proof fn law_missing_are_those_that_keep_out(
    groups: Vec<CheckedGroup>,
    bastion: &str,
    r: Vec<MissingEndpointIngress>,
)
    requires
        call_ensures(
            aws_bastion_provisioner::missing_vpc_endpoint_ingress,
            (&groups, bastion),
            r,
        ),
    ensures
        r@.map_values(
            |m: MissingEndpointIngress| (m.endpoint_service@, m.endpoint_sg_id@),
        ).to_multiset() == groups@.filter(keeps_out(bastion@)).map_values(
            |g: CheckedGroup| (g.service@, g.sg_id@),
        ).to_multiset(),
        forall|i: int| 0 <= i < r@.len() ==> (#[trigger] r@[i]).port == 443,
        forall|i: int, j: int|
            0 <= i < j < r@.len() ==> !text::precedes(
                (#[trigger] r@[j]).endpoint_service@,
                (#[trigger] r@[i]).endpoint_service@,
            ) && (r@[i].endpoint_service@ == r@[j].endpoint_service@ ==> !text::precedes(
                r@[j].endpoint_sg_id@,
                r@[i].endpoint_sg_id@,
            )),
{
    lemma_lacking(groups@, bastion@);
    let pairs = aws_bastion_provisioner::missing_pairs(r@);
    assert(pairs =~= r@.map_values(
        |m: MissingEndpointIngress| (m.endpoint_service@, m.endpoint_sg_id@),
    ));
    assert forall|i: int, j: int| 0 <= i < j < r@.len() implies !text::precedes(
        (#[trigger] r@[j]).endpoint_service@,
        (#[trigger] r@[i]).endpoint_service@,
    ) && (r@[i].endpoint_service@ == r@[j].endpoint_service@ ==> !text::precedes(
        r@[j].endpoint_sg_id@,
        r@[i].endpoint_sg_id@,
    )) by {
        let before = aws_bastion_provisioner::by_service();
        assert(order::in_order(pairs, before));
        assert(pairs[i] == (r@[i].endpoint_service@, r@[i].endpoint_sg_id@));
        assert(pairs[j] == (r@[j].endpoint_service@, r@[j].endpoint_sg_id@));
        assert(!before(pairs[j], pairs[i]));
    }
}

proof fn lemma_lacking(groups: Seq<CheckedGroup>, bastion: Seq<char>)
    ensures
        aws_bastion_provisioner::lacking(groups, bastion) == groups.filter(
            keeps_out(bastion),
        ).map_values(|g: CheckedGroup| (g.service@, g.sg_id@)),
    decreases groups.len(),
{
    reveal(Seq::filter);
    let f = keeps_out(bastion);
    let name = |g: CheckedGroup| (g.service@, g.sg_id@);
    if groups.len() > 0 {
        let front = groups.drop_last();
        lemma_lacking(front, bastion);
        lemma_allowed(groups.last().permissions@, bastion, 443);
        if f(groups.last()) {
            assert(groups.filter(f).map_values(name) =~= front.filter(f).map_values(name).push(
                name(groups.last()),
            ));
        }
    } else {
        assert(groups.filter(f).map_values(name) =~= seq![]);
    }
}

/// The group is one of an interface endpoint of this service.
pub open spec fn guards(
    endpoints: Seq<VpcEndpoint>,
    group: Seq<char>,
    service: Seq<char>,
    e: int,
    g: int,
) -> bool {
    &&& 0 <= e < endpoints.len()
    &&& endpoints[e].interface
    &&& endpoints[e].groups matches Some(groups) && 0 <= g < groups@.len() && (
    groups@[g] matches Some(id) && id@ == group)
    &&& match endpoints[e].service_name {
        Some(name) => name@ == service,
        None => service.len() == 0,
    }
}

/// The group is one of some interface endpoint of this service.
pub open spec fn guards_some(
    endpoints: Seq<VpcEndpoint>,
    group: Seq<char>,
    service: Seq<char>,
) -> bool {
    exists|e: int, g: int| #[trigger] guards(endpoints, group, service, e, g)
}

/// The groups to be checked are those of the interface endpoints, each once, with the
/// service of such an endpoint that it guards.
pub proof fn law_groups_of_interface_endpoints(
    endpoints: Vec<VpcEndpoint>,
    r: Vec<(String, String)>,
)
    requires
        call_ensures(aws_bastion_provisioner::groups_to_check, (&endpoints,), r),
    ensures
        forall|k: int|
            0 <= k < r@.len() ==> guards_some(endpoints@, (#[trigger] r@[k]).0@, r@[k].1@),
        forall|group: Seq<char>, service: Seq<char>, e: int, g: int| #[trigger]
            guards(endpoints@, group, service, e, g) ==> exists|k: int|
                0 <= k < r@.len() && (#[trigger] r@[k]).0@ == group,
        forall|i: int, j: int|
            0 <= i < j < r@.len() ==> (#[trigger] r@[i]).0@ != (#[trigger] r@[j]).0@,
{
    let pairs = aws_bastion_provisioner::all_pairs(endpoints@);
    let seen = aws_bastion_provisioner::first_seen(pairs);
    let views = aws_bastion_provisioner::pair_views(r@);
    assert(views.len() == r@.len());
    assert(forall|k: int| 0 <= k < r@.len() ==> views[k] == (r@[k].0@, r@[k].1@));
    aws_bastion_provisioner::law_each_group_is_checked_once(pairs);
    lemma_first_seen(pairs);
    assert forall|k: int| 0 <= k < r@.len() implies guards_some(
        endpoints@,
        (#[trigger] r@[k]).0@,
        r@[k].1@,
    ) by {
        assert(views[k] == seen[k]);
        assert(pairs.contains(seen[k]));
        lemma_all_pairs(endpoints@, r@[k].0@, r@[k].1@);
    }
    assert forall|group: Seq<char>, service: Seq<char>, e: int, g: int| #[trigger]
        guards(endpoints@, group, service, e, g) implies exists|k: int|
        0 <= k < r@.len() && (#[trigger] r@[k]).0@ == group by {
        lemma_all_pairs(endpoints@, group, service);
        let i = choose|i: int| 0 <= i < pairs.len() && pairs[i] == (group, service);
        assert(aws_bastion_provisioner::has_group(seen, pairs[i].0));
        let k = choose|k: int| 0 <= k < seen.len() && (#[trigger] seen[k]).0 == pairs[i].0;
        assert(views[k] == seen[k]);
        assert(r@[k].0@ == group);
    }
    assert forall|i: int, j: int| 0 <= i < j < r@.len() implies (#[trigger] r@[i]).0@ != (
    #[trigger] r@[j]).0@ by {
        assert(views[i] == seen[i] && views[j] == seen[j]);
    }
}

proof fn lemma_first_seen(pairs: Seq<(Seq<char>, Seq<char>)>)
    ensures
        forall|k: int|
            0 <= k < aws_bastion_provisioner::first_seen(pairs).len() ==> pairs.contains(
                #[trigger] aws_bastion_provisioner::first_seen(pairs)[k],
            ),
    decreases pairs.len(),
{
    if pairs.len() > 0 {
        let front = pairs.drop_last();
        let seen = aws_bastion_provisioner::first_seen(pairs);
        let before = aws_bastion_provisioner::first_seen(front);
        lemma_first_seen(front);
        assert forall|k: int| 0 <= k < seen.len() implies pairs.contains(#[trigger] seen[k]) by {
            if k < before.len() {
                assert(front.contains(before[k]));
                let i = choose|i: int| 0 <= i < front.len() && front[i] == before[k];
                assert(pairs[i] == seen[k]);
            } else {
                assert(pairs[pairs.len() - 1] == seen[k]);
            }
        }
    }
}

proof fn lemma_group_pairs(
    groups: Seq<Option<String>>,
    service: Seq<char>,
    group: Seq<char>,
    name: Seq<char>,
)
    ensures
        aws_bastion_provisioner::group_pairs(groups, service).contains((group, name)) <==> name
            == service && exists|g: int|
            0 <= g < groups.len() && ((#[trigger] groups[g]) matches Some(id) && id@ == group),
    decreases groups.len(),
{
    if groups.len() > 0 {
        let front = groups.drop_last();
        let rest = aws_bastion_provisioner::group_pairs(front, service);
        let all = aws_bastion_provisioner::group_pairs(groups, service);
        lemma_group_pairs(front, service, group, name);
        if all.contains((group, name)) {
            let i = choose|i: int| 0 <= i < all.len() && all[i] == (group, name);
            if i < rest.len() {
                assert(rest[i] == (group, name));
                assert(rest.contains((group, name)));
                let g = choose|g: int|
                    0 <= g < front.len() && ((#[trigger] front[g]) matches Some(id) && id@
                        == group);
                assert(groups[g] == front[g]);
            } else {
                assert(groups[groups.len() - 1] == groups.last());
            }
        }
        if name == service && exists|g: int|
            0 <= g < groups.len() && ((#[trigger] groups[g]) matches Some(id) && id@ == group) {
            let g = choose|g: int|
                0 <= g < groups.len() && ((#[trigger] groups[g]) matches Some(id) && id@
                    == group);
            if g < front.len() {
                assert(front[g] == groups[g]);
                let i = choose|i: int| 0 <= i < rest.len() && rest[i] == (group, name);
                assert(all[i] == (group, name));
            } else {
                assert(all.last() == (group, name));
                assert(all[all.len() - 1] == (group, name));
            }
        }
    }
}

proof fn lemma_all_pairs(endpoints: Seq<VpcEndpoint>, group: Seq<char>, service: Seq<char>)
    ensures
        aws_bastion_provisioner::all_pairs(endpoints).contains((group, service)) <==> exists|
            e: int,
            g: int,
        | #[trigger] guards(endpoints, group, service, e, g),
    decreases endpoints.len(),
{
    if endpoints.len() > 0 {
        let front = endpoints.drop_last();
        let last = endpoints.last();
        let n = endpoints.len() - 1;
        let rest = aws_bastion_provisioner::all_pairs(front);
        let own = aws_bastion_provisioner::endpoint_pairs(last);
        let all = aws_bastion_provisioner::all_pairs(endpoints);
        let pair = (group, service);
        lemma_all_pairs(front, group, service);
        let name = aws_bastion_provisioner::or_empty(last.service_name);
        if last.groups is Some {
            lemma_group_pairs(last.groups->0@, name, group, service);
        }
        if last.service_name is None && service.len() == 0 {
            assert(service =~= name);
        }
        if all.contains(pair) {
            let i = choose|i: int| 0 <= i < all.len() && all[i] == pair;
            if i < rest.len() {
                assert(rest[i] == pair);
                assert(rest.contains(pair));
                let (e, g) = choose|e: int, g: int| #[trigger]
                    guards(front, group, service, e, g);
                assert(guards(endpoints, group, service, e, g));
            } else {
                assert(own[i - rest.len()] == pair);
                assert(own.contains(pair));
                let groups = last.groups->0@;
                let g = choose|g: int|
                    0 <= g < groups.len() && ((#[trigger] groups[g]) matches Some(id) && id@
                        == group);
                assert(guards(endpoints, group, service, n, g));
            }
        }
        if exists|e: int, g: int| #[trigger] guards(endpoints, group, service, e, g) {
            let (e, g) = choose|e: int, g: int| #[trigger]
                guards(endpoints, group, service, e, g);
            if e < n {
                assert(guards(front, group, service, e, g));
                let i = choose|i: int| 0 <= i < rest.len() && rest[i] == pair;
                assert(all[i] == pair);
            } else {
                let groups = last.groups->0@;
                assert(groups[g] matches Some(id) && id@ == group);
                assert(own.contains(pair));
                let i = choose|i: int| 0 <= i < own.len() && own[i] == pair;
                assert(all[rest.len() + i] == pair);
            }
        }
    } else {
        assert(forall|e: int, g: int| !#[trigger] guards(endpoints, group, service, e, g));
    }
}

/// The instance that AWS names first.
pub open spec fn named_first(
    reservations: Option<Vec<Option<Vec<DescribedInstance>>>>,
    i: DescribedInstance,
) -> bool {
    reservations matches Some(v) && v@.len() > 0 && (v@[0] matches Some(w) && w@.len() > 0 && w@[0]
        == i)
}

/// What is found is the first instance of the first reservation, with its ID, its state,
/// its address and the first of its groups; and nothing where there is none.
pub proof fn law_first_instance_is_found(
    reservations: Option<Vec<Option<Vec<DescribedInstance>>>>,
    r: Option<InstanceSummary>,
)
    requires
        call_ensures(aws_bastion_provisioner::found_instance, (reservations,), r),
    ensures
        match r {
            None => forall|i: DescribedInstance| !#[trigger] named_first(reservations, i),
            Some(s) => exists|i: DescribedInstance|
                {
                    &&& #[trigger] named_first(reservations, i)
                    &&& match i.instance_id {
                        Some(id) => s.instance_id@ == id@,
                        None => s.instance_id@.len() == 0,
                    }
                    &&& match i.state {
                        Some(state) => s.state@ == state@,
                        None => s.state@.len() == 0,
                    }
                    &&& s.private_ip == i.private_ip
                    &&& match i.security_groups {
                        Some(ids) => s.security_group_id == (if ids@.len() > 0 {
                            ids@[0]
                        } else {
                            None
                        }),
                        None => s.security_group_id is None,
                    }
                },
        },
{
    if let Some(i) = aws_bastion_provisioner::first_instance(reservations) {
        assert(named_first(reservations, i));
    }
}

/// The wait is over once the instance that AWS names first is running, and is given up
/// only when it is late; it is never given up on one that runs.
pub proof fn law_wait_is_for_running(
    id: &str,
    reservations: Option<Vec<Option<Vec<DescribedInstance>>>>,
    late: bool,
    r: WaitVerdict,
)
    requires
        call_ensures(aws_bastion_provisioner::judge_wait, (id, reservations, late), r),
    ensures
        r is Running <==> exists|i: DescribedInstance| #[trigger]
            named_first(reservations, i) && (i.state matches Some(s) && s@ == "running"@),
        r !is Running ==> (late <==> r is GiveUp),
{
    if let Some(i) = aws_bastion_provisioner::first_instance(reservations) {
        assert(named_first(reservations, i));
    }
}

/// The first that a list holds.
pub open spec fn heads<T>(list: Option<Vec<T>>, item: T) -> bool {
    list matches Some(v) && v@.len() > 0 && v@[0] == item
}

/// What is looked up is the first thing that AWS answers, and an error where it answers
/// nothing or nothing with an ID.
pub proof fn law_first_answer_counts(
    id: &str,
    list: Option<Vec<Option<String>>>,
    subnet: Result<String, ProvisionError>,
    group: Result<String, ProvisionError>,
    found: Option<String>,
    launched: Result<String, ProvisionError>,
)
    requires
        call_ensures(aws_bastion_provisioner::vpc_id_for_subnet, (id, list), subnet),
        call_ensures(aws_bastion_provisioner::vpc_id_for_security_group, (id, list), group),
        call_ensures(aws_bastion_provisioner::find_security_group_by_name, (list,), found),
        call_ensures(aws_bastion_provisioner::launched_instance, (list,), launched),
    ensures
        forall|s: String|
            {
                &&& subnet == Ok::<String, ProvisionError>(s) <==> #[trigger] heads(list, Some(s))
                &&& group == Ok::<String, ProvisionError>(s) <==> heads(list, Some(s))
                &&& launched == Ok::<String, ProvisionError>(s) <==> heads(list, Some(s))
                &&& found == Some(s) <==> heads(list, Some(s))
            },
{
}

/// The rules of a group are those of the first group that AWS answers, none where it has
/// none, and an error where there is no group.
pub proof fn law_rules_of_the_first_group(
    id: &str,
    groups: Option<Vec<Option<Vec<IpPermission>>>>,
    r: Result<Vec<IpPermission>, ProvisionError>,
)
    requires
        call_ensures(aws_bastion_provisioner::security_group_ingress, (id, groups), r),
    ensures
        r is Ok <==> groups is Some && groups->0@.len() > 0,
        r matches Ok(perms) ==> match groups->0@[0] {
            Some(p) => perms == p,
            None => perms@.len() == 0,
        },
{
}

/// The agent is the first that AWS knows of, and there is none exactly if it knows of
/// none.
pub proof fn law_first_agent_counts(records: Vec<AgentRecord>, r: Option<SsmAgentInfo>)
    requires
        call_ensures(aws_bastion_provisioner::ssm_agent_status, (records,), r),
    ensures
        r is None <==> records@.len() == 0,
        r matches Some(info) ==> {
            &&& match records@[0].ping_status {
                Some(s) => info.ping_status@ == s@,
                None => info.ping_status@ == "Unknown"@,
            }
            &&& info.agent_version == records@[0].agent_version
            &&& info.last_ping == records@[0].last_ping
        },
{
}

/// A subnet passes exactly if it is in the network that is pinned; else the error names
/// all three.
pub proof fn law_pinned_network(
    subnet: &str,
    actual: &str,
    expected: &str,
    r: Result<(), VpcMismatch>,
)
    requires
        call_ensures(aws_bastion_provisioner::verify_vpc_match, (subnet, actual, expected), r),
    ensures
        r is Ok <==> actual@ == expected@,
        r matches Err(e) ==> e.subnet_id@ == subnet@ && e.actual_vpc@ == actual@ && e.expected_vpc@
            == expected@,
{
}

/// The states that the look-up asks for are those of an instance that is there or can
/// come back.
pub proof fn law_look_up_asks_for_the_living(r: Vec<&'static str>, state: Seq<char>)
    requires
        call_ensures(aws_bastion_provisioner::searched_states, (), r),
    ensures
        (exists|i: int| 0 <= i < r@.len() && (#[trigger] r@[i])@ == state) <==> state
            == "pending"@ || state == "running"@ || state == "stopping"@ || state == "stopped"@,
{
    let views = r@.map_values(|s: &'static str| s@);
    let all = seq!["pending"@, "running"@, "stopping"@, "stopped"@];
    assert(views == all);
    assert(views.len() == r@.len());
    assert(forall|i: int| 0 <= i < 4 ==> views[i] == (#[trigger] r@[i])@);
    if state == "pending"@ {
        assert(r@[0]@ == state);
    } else if state == "running"@ {
        assert(r@[1]@ == state);
    } else if state == "stopping"@ {
        assert(r@[2]@ == state);
    } else if state == "stopped"@ {
        assert(r@[3]@ == state);
    }
}

/// The permission that is asked for is the rule: its protocol, both its ports, and the
/// group that it lets in and no other.
pub proof fn law_permission_is_the_rule(rule: IngressRule, r: IpPermission)
    requires
        call_ensures(aws_bastion_provisioner::permission_for, (&rule,), r),
    ensures
        r.ip_protocol matches Some(p) && p@ == rule.protocol@,
        r.from_port matches Some(p) && p == rule.from_port,
        r.to_port matches Some(p) && p == rule.to_port,
        match rule.source {
            IngressSource::SecurityGroup(id) => r.user_id_group_pairs@.len() == 1 && (
            r.user_id_group_pairs@[0].group_id matches Some(g) && g@ == id@),
            IngressSource::Cidr(_) => r.user_id_group_pairs@.len() == 0,
        },
{
}

/// The command that mends a missing rule adds it to the endpoint's group, for the
/// bastion's group, on the port, under the profile where one is given.
pub proof fn law_fix_names_both_groups(
    m: MissingEndpointIngress,
    bastion: &str,
    profile: Option<&str>,
    r: String,
)
    requires
        call_ensures(MissingEndpointIngress::fix_command, (&m, bastion, profile), r),
    ensures
        ({
            let port = text::decimal(m.port as nat);
            let asked = " \\\n  --group-id "@ + m.endpoint_sg_id@
                + " \\\n  --ip-permissions 'IpProtocol=tcp,FromPort="@ + port + ",ToPort="@ + port
                + ",UserIdGroupPairs=[{GroupId="@ + bastion@
                + ",Description=\"ephemwork bastion\"}]'"@;
            match profile {
                Some(p) => r@ == "aws ec2 authorize-security-group-ingress --profile "@ + p@
                    + asked,
                None => r@ == "aws ec2 authorize-security-group-ingress"@ + asked,
            }
        }),
{
    let port = text::decimal(m.port as nat);
    let asked = " \\\n  --group-id "@ + m.endpoint_sg_id@
        + " \\\n  --ip-permissions 'IpProtocol=tcp,FromPort="@ + port + ",ToPort="@ + port
        + ",UserIdGroupPairs=[{GroupId="@ + bastion@ + ",Description=\"ephemwork bastion\"}]'"@;
    match profile {
        Some(p) => {
            reveal_strlit("aws ec2 authorize-security-group-ingress");
            reveal_strlit(" --profile ");
            reveal_strlit("aws ec2 authorize-security-group-ingress --profile ");
            assert("aws ec2 authorize-security-group-ingress"@ + " --profile "@
                =~= "aws ec2 authorize-security-group-ingress --profile "@);
            assert(r@ =~= "aws ec2 authorize-security-group-ingress --profile "@ + p@ + asked);
        },
        None => {
            reveal_strlit("");
            assert(r@ =~= "aws ec2 authorize-security-group-ingress"@ + asked);
        },
    }
}

/// The policies that are attached and detached are the managed ones, in their order, and
/// no other step names one.
pub proof fn law_steps_name_the_managed_policies(
    a: SetupStep,
    b: TeardownStep,
    x: Option<&'static str>,
    y: Option<&'static str>,
    arns: Vec<&'static str>,
)
    requires
        call_ensures(SetupStep::arn, (&a,), x),
        call_ensures(TeardownStep::arn, (&b,), y),
        call_ensures(bastion_provisioner::managed_policy_arns, (), arns),
    ensures
        x matches Some(s) ==> (a matches SetupStep::AttachPolicy { index } && index < arns@.len()
            && s@ == arns@[index as int]@),
        y matches Some(s) ==> (b matches TeardownStep::DetachPolicy { index } && index < arns@.len()
            && s@ == arns@[index as int]@),
        a matches SetupStep::AttachPolicy { index } ==> (index < arns@.len() ==> x is Some),
        b matches TeardownStep::DetachPolicy { index } ==> (index < arns@.len() ==> y is Some),
        arns@.len() == 2,
        arns@[0]@ == "arn:aws:iam::aws:policy/AmazonSSMManagedInstanceCore"@,
        arns@[1]@ == "arn:aws:iam::aws:policy/AmazonS3ReadOnlyAccess"@,
{
    let views = arns@.map_values(|s: &'static str| s@);
    assert(views[0] == arns@[0]@);
    assert(views[1] == arns@[1]@);
}

/// Setting up goes on unless a call fails: what is not there is created, what is there is
/// left, both policies are attached in their order before the profile is looked at, and a
/// new profile gets the role.
pub proof fn law_setup_goes_on(
    step: SetupStep,
    event: StepEvent,
    r: Result<SetupStep, ProvisionError>,
)
    requires
        call_ensures(SetupStep::next, (step, event), r),
        step.can_give(event),
    ensures
        r is Err <==> event is Failed,
        r matches Ok(next) ==> match step {
            SetupStep::CheckRole => if event == StepEvent::Found(true) {
                next == SetupStep::AttachPolicy { index: 0 }
            } else {
                next == SetupStep::CreateRole
            },
            SetupStep::CreateRole => next == SetupStep::AttachPolicy { index: 0 },
            SetupStep::AttachPolicy { index } => if index == 0 {
                next == SetupStep::AttachPolicy { index: 1 }
            } else {
                next == SetupStep::CheckProfile
            },
            SetupStep::CheckProfile => if event == StepEvent::Found(true) {
                next == SetupStep::Finished
            } else {
                next == SetupStep::CreateProfile
            },
            SetupStep::CreateProfile => next == SetupStep::AddRole,
            SetupStep::AddRole => next == SetupStep::Finished,
            SetupStep::Finished => false,
        },
{
}

/// Tearing down goes on though the role cannot be taken out of the profile or a policy
/// not be detached, and stops at any other failure; what is not there is passed over.
pub proof fn law_teardown_goes_on(
    step: TeardownStep,
    event: StepEvent,
    r: Result<TeardownStep, ProvisionError>,
)
    requires
        call_ensures(TeardownStep::next, (step, event), r),
        step.can_give(event),
    ensures
        r is Err <==> event is Failed && !(step is RemoveRole || step is DetachPolicy),
        r matches Ok(next) ==> match step {
            TeardownStep::CheckProfile => if event == StepEvent::Found(true) {
                next == TeardownStep::RemoveRole
            } else {
                next == TeardownStep::CheckRole
            },
            TeardownStep::RemoveRole => next == TeardownStep::DeleteProfile,
            TeardownStep::DeleteProfile => next == TeardownStep::CheckRole,
            TeardownStep::CheckRole => if event == StepEvent::Found(true) {
                next == TeardownStep::DetachPolicy { index: 0 }
            } else {
                next == TeardownStep::Finished
            },
            TeardownStep::DetachPolicy { index } => if index == 0 {
                next == TeardownStep::DetachPolicy { index: 1 }
            } else {
                next == TeardownStep::DeleteRole
            },
            TeardownStep::DeleteRole => next == TeardownStep::Finished,
            TeardownStep::Finished => false,
        },
{
}

/// A group that is found, created, or found after all where another run was faster, gets
/// every rule of the plan from the first on. A missing one is created in the network of
/// the first group that the plan lets in. That a group or a rule is there already is told
/// by AWS's code for it, and every other refusal is an error.
pub proof fn law_group_setup_goes_on(
    step: GroupStep,
    plan: SecurityGroupPlan,
    event: GroupEvent,
    r: Result<GroupStep, ProvisionError>,
)
    requires
        call_ensures(GroupStep::next, (step, &plan, event), r),
        step.can_give(plan, event),
    ensures
        match (step, event) {
            (GroupStep::Find, GroupEvent::Group(Some(id))) => begins(plan, id, r),
            (GroupStep::Create { .. }, GroupEvent::Group(Some(id))) => begins(plan, id, r),
            (GroupStep::FindAgain, GroupEvent::Group(Some(id))) => begins(plan, id, r),
            (GroupStep::Find, GroupEvent::Group(None)) => match r {
                Ok(next) => next matches GroupStep::FindVpc { source_group } && exists|k: int|
                    {
                        &&& 0 <= k < plan.ingress@.len()
                        &&& (#[trigger] plan.ingress@[k]).source == IngressSource::SecurityGroup(
                            source_group,
                        )
                        &&& forall|j: int|
                            0 <= j < k ==> (#[trigger] plan.ingress@[j]).source is Cidr
                    },
                Err(_) => forall|j: int|
                    0 <= j < plan.ingress@.len() ==> (#[trigger] plan.ingress@[j]).source is Cidr,
            },
            (GroupStep::FindVpc { .. }, GroupEvent::Vpc(vpc)) => r == Ok::<
                GroupStep,
                ProvisionError,
            >(GroupStep::Create { vpc_id: vpc }),
            (GroupStep::Create { .. }, GroupEvent::Refused { code, .. }) => if code matches Some(c)
                && c@ == "InvalidGroup.Duplicate"@ {
                r == Ok::<GroupStep, ProvisionError>(GroupStep::FindAgain)
            } else {
                r is Err
            },
            (GroupStep::Authorize { group_id, rule }, GroupEvent::Refused { code, .. }) => if code
                matches Some(c) && c@ == "InvalidPermission.Duplicate"@ {
                moves_on(plan, group_id, rule, r)
            } else {
                r is Err
            },
            (GroupStep::Authorize { group_id, rule }, GroupEvent::Authorized) => moves_on(
                plan,
                group_id,
                rule,
                r,
            ),
            _ => r is Err,
        },
{
    lemma_source_group(plan.ingress@);
    assert(plan.ingress@.len() == plan.ingress.len());
}

/// The first rule is next, or there is none and the group is done.
pub open spec fn begins(
    plan: SecurityGroupPlan,
    id: String,
    r: Result<GroupStep, ProvisionError>,
) -> bool {
    r == Ok::<GroupStep, ProvisionError>(
        if plan.ingress@.len() > 0 {
            GroupStep::Authorize { group_id: id, rule: 0 }
        } else {
            GroupStep::Finished { group_id: id }
        },
    )
}

/// The rule behind this one is next, or this was the last and the group is done.
pub open spec fn moves_on(
    plan: SecurityGroupPlan,
    id: String,
    rule: usize,
    r: Result<GroupStep, ProvisionError>,
) -> bool {
    match r {
        Ok(GroupStep::Authorize { group_id, rule: k }) => group_id == id && k == rule + 1 && k
            < plan.ingress@.len(),
        Ok(GroupStep::Finished { group_id }) => group_id == id && rule + 1 == plan.ingress@.len(),
        _ => false,
    }
}

proof fn lemma_source_group(rules: Seq<IngressRule>)
    ensures
        match crate::aws_steps::source_group(rules) {
            Some(id) => exists|k: int|
                {
                    &&& 0 <= k < rules.len()
                    &&& (#[trigger] rules[k]).source == IngressSource::SecurityGroup(id)
                    &&& forall|j: int| 0 <= j < k ==> (#[trigger] rules[j]).source is Cidr
                },
            None => forall|j: int|
                0 <= j < rules.len() ==> (#[trigger] rules[j]).source is Cidr,
        },
    decreases rules.len(),
{
    if rules.len() > 0 {
        let rest = rules.drop_first();
        lemma_source_group(rest);
        match rules[0].source {
            IngressSource::SecurityGroup(id) => {
                assert(rules[0].source == IngressSource::SecurityGroup(id));
            },
            IngressSource::Cidr(_) => match crate::aws_steps::source_group(rest) {
                Some(id) => {
                    let k = choose|k: int|
                        {
                            &&& 0 <= k < rest.len()
                            &&& (#[trigger] rest[k]).source == IngressSource::SecurityGroup(id)
                            &&& forall|j: int|
                                0 <= j < k ==> (#[trigger] rest[j]).source is Cidr
                        };
                    assert(rules[k + 1] == rest[k]);
                    assert forall|j: int| 0 <= j < k + 1 implies (#[trigger] rules[j]).source
                        is Cidr by {
                        if j > 0 {
                            assert(rules[j] == rest[j - 1]);
                        }
                    }
                },
                None => {
                    assert forall|j: int| 0 <= j < rules.len() implies (
                    #[trigger] rules[j]).source is Cidr by {
                        if j > 0 {
                            assert(rules[j] == rest[j - 1]);
                        }
                    }
                },
            },
        }
    }
}

/// What each step can give: a look whether the thing is there, any other whether it was
/// done, and one that creates also that the thing was there already.
pub proof fn law_steps_take_what_they_give(
    a: SetupStep,
    b: TeardownStep,
    event: StepEvent,
    x: bool,
    y: bool,
)
    requires
        call_ensures(SetupStep::accepts, (&a, &event), x),
        call_ensures(TeardownStep::accepts, (&b, &event), y),
    ensures
        x <==> match a {
            SetupStep::CheckRole | SetupStep::CheckProfile => event is Found || event is Failed,
            SetupStep::CreateRole | SetupStep::CreateProfile | SetupStep::AddRole => event is Done
                || event is AlreadyThere || event is Failed,
            SetupStep::AttachPolicy { index } => index < 2 && (event is Done || event is Failed),
            SetupStep::Finished => false,
        },
        y <==> match b {
            TeardownStep::CheckRole | TeardownStep::CheckProfile => event is Found
                || event is Failed,
            TeardownStep::DetachPolicy { index } => index < 2 && (event is Done || event is Failed),
            TeardownStep::Finished => false,
            _ => event is Done || event is Failed,
        },
{
}

/// What each step for the group can give: a look or the creation the group, the creation
/// and a rule also a refusal, a rule that it was authorized, and a look for the network
/// the network.
pub proof fn law_group_steps_take_what_they_give(
    step: GroupStep,
    plan: SecurityGroupPlan,
    event: GroupEvent,
    r: bool,
)
    requires
        call_ensures(GroupStep::accepts, (&step, &plan, &event), r),
    ensures
        r <==> match step {
            GroupStep::Find | GroupStep::FindAgain => event is Group || event is Failed,
            GroupStep::Create { .. } => event is Group || event is Refused || event is Failed,
            GroupStep::FindVpc { .. } => event is Vpc || event is Failed,
            GroupStep::Authorize { rule, .. } => rule < plan.ingress@.len() && (event is Authorized
                || event is Refused),
            GroupStep::Finished { .. } => false,
        },
{
}

/// What is told of a step that failed: the policy that it was for, or the cause as it came
/// where the step only looked.
pub proof fn law_failed_step_is_told(
    a: SetupStep,
    b: TeardownStep,
    cause: String,
    x: Result<SetupStep, ProvisionError>,
    y: Result<TeardownStep, ProvisionError>,
)
    requires
        call_ensures(SetupStep::next, (a, StepEvent::Failed(cause)), x),
        a.can_give(StepEvent::Failed(cause)),
        call_ensures(TeardownStep::next, (b, StepEvent::Failed(cause)), y),
        b.can_give(StepEvent::Failed(cause)),
    ensures
        x matches Err(ProvisionError::Outside(e)) && match a {
            SetupStep::CheckRole | SetupStep::CheckProfile => e@ == cause@,
            SetupStep::AttachPolicy { index } => message_laws::tells(
                e@,
                if index == 0 {
                    "arn:aws:iam::aws:policy/AmazonSSMManagedInstanceCore"@
                } else {
                    "arn:aws:iam::aws:policy/AmazonS3ReadOnlyAccess"@
                },
            ),
            SetupStep::CreateRole => e@ == "create_role"@,
            SetupStep::CreateProfile => e@ == "create_instance_profile"@,
            SetupStep::AddRole => e@ == "add_role_to_instance_profile"@,
            SetupStep::Finished => false,
        },
        y matches Err(ProvisionError::Outside(e)) ==> match b {
            TeardownStep::CheckRole | TeardownStep::CheckProfile => e@ == cause@,
            TeardownStep::DeleteProfile => e@ == "delete_instance_profile"@,
            TeardownStep::DeleteRole => e@ == "delete_role"@,
            _ => false,
        },
{
    if let SetupStep::AttachPolicy { index } = a {
        let e = x->Err_0->Outside_0;
        let arn = if index == 0 {
            "arn:aws:iam::aws:policy/AmazonSSMManagedInstanceCore"@
        } else {
            "arn:aws:iam::aws:policy/AmazonS3ReadOnlyAccess"@
        };
        message_laws::lemma_tells(e@, "attach_role_policy "@, arn, Seq::<char>::empty());
    }
}

/// What AWS says of a rule that it refuses is told, and so is why the network of a group
/// was not found.
pub proof fn law_refused_rule_is_told(
    step: GroupStep,
    plan: SecurityGroupPlan,
    event: GroupEvent,
    e: ProvisionError,
)
    requires
        call_ensures(GroupStep::next, (step, &plan, event), Err(e)),
        step.can_give(plan, event),
    ensures
        e matches ProvisionError::Outside(t) && match (step, event) {
            (GroupStep::Authorize { .. }, GroupEvent::Refused { text, .. }) => message_laws::tells(
                t@,
                text@,
            ),
            (GroupStep::FindVpc { .. }, GroupEvent::Failed(cause)) => t@ == cause@,
            _ => true,
        },
{
    match (step, event) {
        (GroupStep::Authorize { .. }, GroupEvent::Refused { text, .. }) => {
            message_laws::lemma_tells(
                e->Outside_0@,
                "authorize_security_group_ingress failed: "@,
                text@,
                Seq::<char>::empty(),
            );
        },
        _ => {},
    }
}

} // verus!
