//! What the commands print.

use vstd::prelude::*;
use crate::aws_bastion_provisioner::MissingEndpointIngress;
use crate::bastion_provisioner::{DestroyOutcome, InitOutcome};
use crate::commands;
use crate::commands::ActiveSession;
use crate::state;
use crate::state::{Session, SessionView};
use crate::text;

verus! {

/// A port, or a dash where there is none.
pub open spec fn port_text(port: Option<u16>) -> Seq<char> {
    match port {
        Some(p) => text::decimal(p as nat),
        None => "-"@,
    }
}

fn push_port(out: &mut String, port: Option<u16>)
    ensures
        final(out)@ == old(out)@ + port_text(port),
{
    match port {
        Some(p) => {
            text::push_decimal(out, p as u64);
        },
        None => {
            out.append("-");
        },
    }
}

/// The line of the ports of a session.
pub open spec fn ports_line(session: ActiveSession) -> Seq<char> {
    "  pid="@ + text::decimal(session.pid as nat) + "  local:"@ + port_text(session.local_port)
        + "  bastion-port:"@ + port_text(session.remote_port)
}

/// The lines that `up` prints once the service is up.
pub open spec fn up_lines(session: ActiveSession) -> Seq<Seq<char>> {
    seq![
        ""@,
        "✓ "@ + session.service@ + " is live."@,
        "  set this header on staging requests to route to your laptop:"@,
        ""@,
        "    "@ + commands::header_text(session.user@ + ":"@ + session.service@),
        ""@,
        ports_line(session),
        ""@,
        "Press Ctrl-C to stop."@,
    ]
}

/// The lines that `up` prints once the service is up.
pub fn render_up(session: &ActiveSession) -> (r: Vec<String>)
    ensures
        text::texts(r@) == up_lines(*session),
{
    let mut live = "✓ ".to_owned();
    live.append(session.service.as_str());
    live.append(" is live.");
    let mut header = "    ".to_owned();
    header.append(session.header_line().as_str());
    let mut ports = "  pid=".to_owned();
    text::push_decimal(&mut ports, session.pid as u64);
    ports.append("  local:");
    push_port(&mut ports, session.local_port);
    ports.append("  bastion-port:");
    push_port(&mut ports, session.remote_port);
    let r: Vec<String> = vec![
        "".to_owned(),
        live,
        "  set this header on staging requests to route to your laptop:".to_owned(),
        "".to_owned(),
        header,
        "".to_owned(),
        ports,
        "".to_owned(),
        "Press Ctrl-C to stop.".to_owned(),
    ];
    assert(text::texts(r@) =~= up_lines(*session));
    r
}

/// The line that `up` prints when it ends: by request, or because the reverse
/// tunnel died.
pub fn render_end(service: &str, tunnel_died: bool) -> (r: String)
    ensures
        r@ == (if tunnel_died {
            "✗ SSH reverse tunnel to the bastion died (network drop / bastion restart / suspend). Re-run `ephemwork up "@
                + service@ + "` to reconnect."@
        } else {
            "Shutting down…"@
        }),
{
    if tunnel_died {
        let mut out =
            "✗ SSH reverse tunnel to the bastion died (network drop / bastion restart / suspend). Re-run `ephemwork up ".to_owned();
        out.append(service);
        out.append("` to reconnect.");
        out
    } else {
        "Shutting down…".to_owned()
    }
}

/// The line for a session that was torn down.
pub open spec fn cleaned_line(s: SessionView) -> Seq<char> {
    "cleaned up "@ + s.service + " (was bastion-port "@ + text::decimal(s.remote_port as nat) + ")"@
}

/// The lines that `down` prints: one for each session torn down, or that there
/// was none.
pub open spec fn down_lines(service: Option<String>, removed: Seq<SessionView>) -> Seq<Seq<char>> {
    if removed.len() == 0 {
        match service {
            Some(svc) => seq!["no active session named "@ + svc@],
            None => seq!["no active sessions"@],
        }
    } else {
        removed.map_values(|s: SessionView| cleaned_line(s))
    }
}

/// The lines that `down` prints.
pub fn render_down(service: &Option<String>, removed: &Vec<Session>) -> (r: Vec<String>)
    ensures
        text::texts(r@) == down_lines(*service, state::session_views(removed@)),
{
    let ghost views = state::session_views(removed@);
    let mut out: Vec<String> = Vec::new();
    if removed.len() == 0 {
        let mut line = "no active sessions".to_owned();
        if let Some(svc) = service {
            line = "no active session named ".to_owned();
            line.append(svc.as_str());
        }
        out.push(line);
        assert(text::texts(out@) =~= down_lines(*service, views));
        return out;
    }
    let ghost all = views.map_values(|s: SessionView| cleaned_line(s));
    let mut i: usize = 0;
    assert(text::texts(out@) =~= all.take(0));
    while i < removed.len()
        invariant
            i <= removed@.len(),
            views == state::session_views(removed@),
            all == views.map_values(|s: SessionView| cleaned_line(s)),
            text::texts(out@) == all.take(i as int),
        decreases removed@.len() - i,
    {
        let ghost before = out@;
        let mut line = "cleaned up ".to_owned();
        line.append(removed[i].service.as_str());
        line.append(" (was bastion-port ");
        text::push_decimal(&mut line, removed[i].remote_port as u64);
        line.append(")");
        assert(line@ == all[i as int]);
        out.push(line);
        assert(text::texts(out@) =~= text::texts(before).push(line@));
        assert(all.take(i + 1) =~= all.take(i as int).push(all[i as int]));
        i = i + 1;
    }
    assert(all.take(i as int) =~= all);
    out
}

/// What the check of the VPC endpoints came to.
pub enum EndpointCheck {
    /// No VPC is pinned, so nothing was checked.
    Skipped,
    /// The check itself failed.
    Failed,
    /// The endpoints whose groups don't let the bastion in.
    Missing(Vec<MissingEndpointIngress>),
}

/// The text with every further line set in by two spaces.
pub open spec fn indented(s: Seq<char>) -> Seq<char>
    decreases s.len(),
{
    if s.len() == 0 {
        seq![]
    } else if s.last() == '\n' {
        indented(s.drop_last()) + seq!['\n', ' ', ' ']
    } else {
        indented(s.drop_last()).push(s.last())
    }
}

fn indent(s: &str) -> (r: String)
    ensures
        r@ == indented(s@),
{
    let cs = text::chars_of(s);
    let mut out = String::new();
    let mut i: usize = 0;
    assert(out@ =~= indented(cs@.take(0)));
    while i < cs.len()
        invariant
            i <= cs@.len(),
            cs@ == s@,
            out@ == indented(cs@.take(i as int)),
        decreases cs@.len() - i,
    {
        let ghost before = out@;
        assert(cs@.take(i + 1).drop_last() =~= cs@.take(i as int));
        out.push(cs[i]);
        if cs[i] == '\n' {
            out.push(' ');
            out.push(' ');
            assert(out@ =~= before + seq!['\n', ' ', ' ']);
        }
        i = i + 1;
    }
    assert(cs@.take(i as int) =~= s@);
    out
}

/// The lines for one endpoint whose group doesn't let the bastion in.
pub open spec fn missing_lines(
    m: MissingEndpointIngress,
    bastion_sg: Seq<char>,
    profile: Option<&str>,
) -> Seq<Seq<char>> {
    seq!["  # "@ + m.endpoint_service@, "  "@ + indented(m.fix_text(bastion_sg, profile)), ""@]
}

/// The lines for all of them.
pub open spec fn all_missing_lines(
    missing: Seq<MissingEndpointIngress>,
    bastion_sg: Seq<char>,
    profile: Option<&str>,
) -> Seq<Seq<char>>
    decreases missing.len(),
{
    if missing.len() == 0 {
        seq![]
    } else {
        all_missing_lines(missing.drop_last(), bastion_sg, profile) + missing_lines(
            missing.last(),
            bastion_sg,
            profile,
        )
    }
}

/// What is printed of the check of the VPC endpoints. Shared infrastructure is
/// not changed: the exact commands are printed for the operator to run.
pub open spec fn check_lines(
    check: EndpointCheck,
    bastion_sg: Seq<char>,
    profile: Option<&str>,
) -> Seq<Seq<char>> {
    match check {
        EndpointCheck::Skipped => seq![
            "(skipping VPC endpoint SG check; set tunnel.expected_vpc_id in ephemwork.toml to enable.)"@,
        ],
        EndpointCheck::Failed => seq![],
        EndpointCheck::Missing(missing) => if missing@.len() == 0 {
            seq!["VPC endpoint SGs already allow the bastion. ✓"@]
        } else {
            seq![
                ""@,
                "⚠  "@ + text::decimal(missing@.len())
                    + " VPC interface endpoint security group(s) don't allow inbound :443 from the bastion's SG. The bastion's SSM agent will fail to register until you add these rules:"@,
                ""@,
            ] + all_missing_lines(missing@, bastion_sg, profile)
        },
    }
}

/// The lines that a live init prints.
pub open spec fn init_lines(
    outcome: InitOutcome,
    check: EndpointCheck,
    profile: Option<&str>,
) -> Seq<Seq<char>> {
    seq![
        "bastion "@ + (if outcome.reused {
            "already provisioned"@
        } else {
            "provisioned"@
        }) + ": instance="@ + outcome.instance_id@ + " security_group="@
            + outcome.security_group_id@,
    ] + check_lines(check, outcome.security_group_id@, profile) + (if outcome.reused {
        seq![]
    } else {
        seq![
            ""@,
            "next: add the ALB listener rules documented in README.md, then `ephemwork up <service>`."@,
        ]
    })
}

fn push_text(out: &mut Vec<String>, line: String)
    ensures
        text::texts(final(out)@) == text::texts(old(out)@).push(line@),
{
    let ghost before = out@;
    out.push(line);
    assert(text::texts(out@) =~= text::texts(before).push(line@));
}

fn push_missing(
    out: &mut Vec<String>,
    missing: &Vec<MissingEndpointIngress>,
    bastion_sg: &str,
    profile: Option<&str>,
)
    ensures
        text::texts(final(out)@) == text::texts(old(out)@) + all_missing_lines(
            missing@,
            bastion_sg@,
            profile,
        ),
{
    let mut i: usize = 0;
    assert(text::texts(out@) =~= text::texts(out@) + all_missing_lines(
        missing@.take(0),
        bastion_sg@,
        profile,
    ));
    while i < missing.len()
        invariant
            i <= missing@.len(),
            text::texts(out@) == text::texts(old(out)@) + all_missing_lines(
                missing@.take(i as int),
                bastion_sg@,
                profile,
            ),
        decreases missing@.len() - i,
    {
        let ghost before = text::texts(out@);
        let m = &missing[i];
        assert(missing@.take(i + 1).drop_last() =~= missing@.take(i as int));
        assert(missing@.take(i + 1).last() == *m);
        let mut name = "  # ".to_owned();
        name.append(m.endpoint_service.as_str());
        push_text(out, name);
        let mut fix = "  ".to_owned();
        fix.append(indent(m.fix_command(bastion_sg, profile).as_str()).as_str());
        push_text(out, fix);
        push_text(out, "".to_owned());
        assert(text::texts(out@) =~= before + missing_lines(*m, bastion_sg@, profile));
        assert(text::texts(out@) =~= text::texts(old(out)@) + all_missing_lines(
            missing@.take(i + 1),
            bastion_sg@,
            profile,
        ));
        i = i + 1;
    }
    assert(missing@.take(i as int) =~= missing@);
}

/// The lines that a live init prints.
pub fn render_init(outcome: &InitOutcome, check: &EndpointCheck, profile: Option<&str>) -> (r: Vec<
    String,
>)
    ensures
        text::texts(r@) == init_lines(*outcome, *check, profile),
{
    let bastion_sg = outcome.security_group_id.as_str();
    let mut out: Vec<String> = Vec::new();
    let mut first = "bastion ".to_owned();
    if outcome.reused {
        first.append("already provisioned");
    } else {
        first.append("provisioned");
    }
    first.append(": instance=");
    first.append(outcome.instance_id.as_str());
    first.append(" security_group=");
    first.append(bastion_sg);
    let ghost head = seq![first@];
    push_text(&mut out, first);
    assert(text::texts(out@) =~= head);
    match check {
        EndpointCheck::Skipped => {
            push_text(
                &mut out,
                "(skipping VPC endpoint SG check; set tunnel.expected_vpc_id in ephemwork.toml to enable.)".to_owned(),
            );
        },
        EndpointCheck::Failed => {},
        EndpointCheck::Missing(missing) => {
            if missing.len() == 0 {
                push_text(&mut out, "VPC endpoint SGs already allow the bastion. ✓".to_owned());
            } else {
                push_text(&mut out, "".to_owned());
                let mut count = "⚠  ".to_owned();
                text::push_decimal(&mut count, missing.len() as u64);
                count.append(
                    " VPC interface endpoint security group(s) don't allow inbound :443 from the bastion's SG. The bastion's SSM agent will fail to register until you add these rules:",
                );
                push_text(&mut out, count);
                push_text(&mut out, "".to_owned());
                push_missing(&mut out, missing, bastion_sg, profile);
            }
        },
    }
    assert(text::texts(out@) =~= head + check_lines(*check, bastion_sg@, profile));
    if !outcome.reused {
        push_text(&mut out, "".to_owned());
        push_text(
            &mut out,
            "next: add the ALB listener rules documented in README.md, then `ephemwork up <service>`.".to_owned(),
        );
    }
    assert(text::texts(out@) =~= init_lines(*outcome, *check, profile));
    out
}

/// The line that a live destroy prints.
pub fn render_destroy(outcome: &DestroyOutcome) -> (r: String)
    ensures
        r@ == (match outcome.instance_id {
            Some(id) => "terminated "@ + id@ + "; security group + IAM role removed."@,
            None => "nothing to do (no bastion instance found)."@,
        }),
{
    match &outcome.instance_id {
        Some(id) => {
            let mut out = "terminated ".to_owned();
            out.append(id.as_str());
            out.append("; security group + IAM role removed.");
            out
        },
        None => "nothing to do (no bastion instance found).".to_owned(),
    }
}

/// A plan: what would be done, each step set in.
pub open spec fn plan_lines(head: Seq<char>, log: Seq<String>) -> Seq<Seq<char>> {
    seq![head] + log.map_values(|line: String| "  "@ + line@)
}

fn render_plan(head: &str, log: &Vec<String>) -> (r: Vec<String>)
    ensures
        text::texts(r@) == plan_lines(head@, log@),
{
    let ghost all = log@.map_values(|line: String| "  "@ + line@);
    let mut out: Vec<String> = Vec::new();
    push_text(&mut out, head.to_owned());
    let mut i: usize = 0;
    assert(text::texts(out@) =~= seq![head@] + all.take(0));
    while i < log.len()
        invariant
            i <= log@.len(),
            all == log@.map_values(|line: String| "  "@ + line@),
            text::texts(out@) == seq![head@] + all.take(i as int),
        decreases log@.len() - i,
    {
        let mut line = "  ".to_owned();
        line.append(log[i].as_str());
        assert(line@ == all[i as int]);
        push_text(&mut out, line);
        assert(all.take(i + 1) =~= all.take(i as int).push(all[i as int]));
        assert(text::texts(out@) =~= seq![head@] + all.take(i + 1));
        i = i + 1;
    }
    assert(all.take(i as int) =~= all);
    out
}

/// The lines that a dry run of init prints.
pub fn render_init_plan(log: &Vec<String>) -> (r: Vec<String>)
    ensures
        text::texts(r@) == plan_lines(
            "Dry run (no AWS calls). Re-run with --live to provision."@,
            log@,
        ),
{
    render_plan("Dry run (no AWS calls). Re-run with --live to provision.", log)
}

/// The lines that a dry run of destroy prints.
pub fn render_destroy_plan(log: &Vec<String>, outcome: &DestroyOutcome) -> (r: Vec<String>)
    ensures
        text::texts(r@) == plan_lines(
            "Dry run (no AWS calls). Re-run with --live to delete."@,
            log@,
        ) + (match outcome.instance_id {
            Some(id) => seq!["  (would terminate "@ + id@ + ")"@],
            None => seq![],
        }),
{
    let mut out = render_plan("Dry run (no AWS calls). Re-run with --live to delete.", log);
    let ghost plan = text::texts(out@);
    if let Some(id) = &outcome.instance_id {
        let mut line = "  (would terminate ".to_owned();
        line.append(id.as_str());
        line.append(")");
        push_text(&mut out, line);
        assert(text::texts(out@) =~= plan + seq![line@]);
    } else {
        assert(text::texts(out@) =~= plan + seq![]);
    }
    out
}

/// What is printed of a session that is up shows the very header line that routes to it,
/// its process, and its ports on both sides, with a dash for one that it has not.
pub proof fn law_up_shows_the_header(session: ActiveSession, header: String, r: Vec<String>)
    requires
        call_ensures(ActiveSession::header_line, (&session,), header),
        call_ensures(render_up, (&session,), r),
    ensures
        r@.len() == 9,
        r@[1]@ == "✓ "@ + session.service@ + " is live."@,
        r@[4]@ == "    "@ + header@,
        r@[6]@ == "  pid="@ + text::decimal(session.pid as nat) + "  local:"@ + (
        match session.local_port {
            Some(p) => text::decimal(p as nat),
            None => "-"@,
        }) + "  bastion-port:"@ + (match session.remote_port {
            Some(p) => text::decimal(p as nat),
            None => "-"@,
        }),
        r@[8]@ == "Press Ctrl-C to stop."@,
{
    let lines = text::texts(r@);
    assert(lines.len() == r@.len());
    assert(lines == up_lines(session));
    assert(lines.len() == 9);
    assert(forall|i: int| 0 <= i < 9 ==> lines[i] == (#[trigger] r@[i])@);
}

/// What is printed of a `down` names every session that was taken out, in their order,
/// with the port that it had; with none it says so, and of which service.
pub proof fn law_down_names_what_is_gone(
    service: Option<String>,
    removed: Vec<Session>,
    r: Vec<String>,
)
    requires
        call_ensures(render_down, (&service, &removed), r),
    ensures
        removed@.len() > 0 ==> r@.len() == removed@.len() && forall|i: int|
            0 <= i < r@.len() ==> (#[trigger] r@[i])@ == "cleaned up "@ + removed@[i]@.service
                + " (was bastion-port "@ + text::decimal(removed@[i]@.remote_port as nat) + ")"@,
        removed@.len() == 0 ==> r@.len() == 1 && r@[0]@ == (match service {
            Some(name) => "no active session named "@ + name@,
            None => "no active sessions"@,
        }),
{
    let lines = text::texts(r@);
    let views = state::session_views(removed@);
    assert(views.len() == removed@.len());
    assert(lines.len() == r@.len());
    assert(lines == down_lines(service, views));
    if removed@.len() == 0 {
        assert(lines.len() == 1);
        assert(lines[0] == r@[0]@);
    } else {
        assert forall|i: int| 0 <= i < r@.len() implies (#[trigger] r@[i])@ == "cleaned up "@
            + removed@[i]@.service + " (was bastion-port "@ + text::decimal(
            removed@[i]@.remote_port as nat,
        ) + ")"@ by {
            assert(lines[i] == r@[i]@);
            assert(views[i] == removed@[i]@);
            assert(lines[i] == cleaned_line(views[i]));
        }
    }
}

/// What is printed at the end tells a tunnel that died, and how to come back, from a stop
/// that was asked for; and what is printed of a destroy names the instance that was ended.
pub proof fn law_end_is_told(
    service: &str,
    died: bool,
    end: String,
    outcome: DestroyOutcome,
    gone: String,
)
    requires
        call_ensures(render_end, (service, died), end),
        call_ensures(render_destroy, (&outcome,), gone),
    ensures
        died ==> end@
            == "✗ SSH reverse tunnel to the bastion died (network drop / bastion restart / suspend). Re-run `ephemwork up "@
            + service@ + "` to reconnect."@,
        !died ==> end@ == "Shutting down…"@,
        outcome.instance_id matches Some(id) ==> gone@ == "terminated "@ + id@
            + "; security group + IAM role removed."@,
        outcome.instance_id is None ==> gone@ == "nothing to do (no bastion instance found)."@,
{
}

/// What is printed of an init begins with the instance and its group, and whether they
/// were there before; what to do next is told only of new ones.
pub proof fn law_init_names_the_instance(
    outcome: InitOutcome,
    check: EndpointCheck,
    profile: Option<&str>,
    r: Vec<String>,
)
    requires
        call_ensures(render_init, (&outcome, &check, profile), r),
    ensures
        r@.len() > 0,
        outcome.reused ==> r@[0]@ == "bastion already provisioned: instance="@
            + outcome.instance_id@ + " security_group="@ + outcome.security_group_id@,
        !outcome.reused ==> r@[0]@ == "bastion provisioned: instance="@ + outcome.instance_id@
            + " security_group="@ + outcome.security_group_id@,
        !outcome.reused ==> r@.last()@
            == "next: add the ALB listener rules documented in README.md, then `ephemwork up <service>`."@,
        check is Skipped && outcome.reused ==> r@.len() == 2,
        check is Failed && outcome.reused ==> r@.len() == 1,
        check matches EndpointCheck::Missing(m) ==> (m@.len() == 0 && outcome.reused ==> r@.len()
            == 2),
        check matches EndpointCheck::Missing(m) ==> (m@.len() > 0 && outcome.reused ==> r@.len()
            == 4 + 3 * m@.len()),
{
    let lines = text::texts(r@);
    assert(lines.len() == r@.len());
    assert(lines == init_lines(outcome, check, profile));
    assert(lines[0] == r@[0]@);
    assert(lines[lines.len() - 1] == r@[r@.len() - 1]@);
    reveal_strlit("bastion ");
    reveal_strlit("already provisioned");
    reveal_strlit("provisioned");
    reveal_strlit(": instance=");
    reveal_strlit("bastion already provisioned: instance=");
    reveal_strlit("bastion provisioned: instance=");
    if outcome.reused {
        assert("bastion "@ + "already provisioned"@ + ": instance="@
            =~= "bastion already provisioned: instance="@);
    } else {
        assert("bastion "@ + "provisioned"@ + ": instance="@
            =~= "bastion provisioned: instance="@);
    }
    if let EndpointCheck::Missing(m) = check {
        lemma_missing_len(m@, outcome.security_group_id@, profile);
    }
}

proof fn lemma_missing_len(
    missing: Seq<MissingEndpointIngress>,
    bastion_sg: Seq<char>,
    profile: Option<&str>,
)
    ensures
        all_missing_lines(missing, bastion_sg, profile).len() == 3 * missing.len(),
    decreases missing.len(),
{
    if missing.len() > 0 {
        lemma_missing_len(missing.drop_last(), bastion_sg, profile);
    }
}

/// Every group that keeps the bastion out has its three lines: the service, the command
/// that mends it, and an empty one.
pub proof fn law_each_missing_has_its_fix(
    missing: Seq<MissingEndpointIngress>,
    bastion_sg: Seq<char>,
    profile: Option<&str>,
    i: int,
)
    requires
        0 <= i < missing.len(),
    ensures
        ({
            let lines = all_missing_lines(missing, bastion_sg, profile);
            &&& lines.len() == 3 * missing.len()
            &&& lines[3 * i] == "  # "@ + missing[i].endpoint_service@
            &&& lines[3 * i + 1] == "  "@ + indented(missing[i].fix_text(bastion_sg, profile))
            &&& lines[3 * i + 2] == Seq::<char>::empty()
        }),
    decreases missing.len(),
{
    lemma_missing_len(missing, bastion_sg, profile);
    let front = missing.drop_last();
    lemma_missing_len(front, bastion_sg, profile);
    reveal_strlit("");
    assert(""@ =~= Seq::<char>::empty());
    if i < front.len() {
        law_each_missing_has_its_fix(front, bastion_sg, profile, i);
        assert(front[i] == missing[i]);
    }
}

/// Every line of an indented text but the first has two blanks before it.
pub proof fn law_lines_are_indented(line: Seq<char>, rest: Seq<char>)
    requires
        !line.contains('\n'),
    ensures
        indented(line) == line,
        indented(line + seq!['\n'] + rest) == line + seq!['\n', ' ', ' '] + indented(rest),
    decreases line.len() + rest.len(),
{
    if rest.len() == 0 {
        let whole = line + seq!['\n'] + rest;
        assert(whole.drop_last() =~= line);
        assert(whole.last() == '\n');
        if line.len() > 0 {
            assert(line.contains(line[line.len() - 1]));
            assert forall|i: int| 0 <= i < line.drop_last().len() implies line.drop_last()[i]
                != '\n' by {
                assert(line.contains(line[i]));
            }
            law_lines_are_indented(line.drop_last(), rest);
        }
        assert(indented(line) =~= line);
        assert(indented(whole) =~= line + seq!['\n', ' ', ' '] + indented(rest));
    } else {
        let whole = line + seq!['\n'] + rest;
        law_lines_are_indented(line, rest.drop_last());
        assert(whole.drop_last() =~= line + seq!['\n'] + rest.drop_last());
        assert(whole.last() == rest.last());
        assert(indented(whole) =~= line + seq!['\n', ' ', ' '] + indented(rest));
    }
}

/// A dry run prints what it would do, each step on a line of its own behind a first one
/// that says that nothing was done.
pub proof fn law_plan_has_a_line_for_each_step(
    log: Vec<String>,
    outcome: DestroyOutcome,
    init: Vec<String>,
    destroy: Vec<String>,
    i: int,
)
    requires
        call_ensures(render_init_plan, (&log,), init),
        call_ensures(render_destroy_plan, (&log, &outcome), destroy),
        0 <= i < log@.len(),
    ensures
        init@.len() == log@.len() + 1,
        init@[0]@ == "Dry run (no AWS calls). Re-run with --live to provision."@,
        init@[i + 1]@ == "  "@ + log@[i]@,
        destroy@.len() == log@.len() + (if outcome.instance_id is Some {
            2int
        } else {
            1int
        }),
        destroy@[0]@ == "Dry run (no AWS calls). Re-run with --live to delete."@,
        destroy@[i + 1]@ == "  "@ + log@[i]@,
        outcome.instance_id matches Some(id) ==> destroy@.last()@ == "  (would terminate "@ + id@
            + ")"@,
{
    let a = text::texts(init@);
    let b = text::texts(destroy@);
    assert(a.len() == init@.len());
    assert(b.len() == destroy@.len());
    assert(a[0] == init@[0]@ && a[i + 1] == init@[i + 1]@);
    assert(b[0] == destroy@[0]@ && b[i + 1] == destroy@[i + 1]@);
    assert(b[b.len() - 1] == destroy@[destroy@.len() - 1]@);
}

} // verus!
