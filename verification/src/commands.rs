//! High-level orchestration for the `up`, `down`, and `status` subcommands:
//! what they ask for, what they keep and what they print.

use vstd::prelude::*;
use crate::aws_bastion_provisioner;
use crate::aws_bastion_provisioner::VpcMismatch;
use crate::bastion_client;
use crate::bastion_client::{BastionEndpoint, ClientError, HttpResponse};
use crate::bastion_provisioner;
use crate::bastion_provisioner::{
    BastionContext, BastionProvisioner, Call, InitOutcome, InstanceSummary, LaunchPlan,
    ProvisionError, SecurityGroupPlan,
};
use crate::common;
use crate::common::{DeregisterRequest, RegisterRequest, RegisterResponse};
use crate::config::{Config, ServiceConfig};
use crate::files;
use crate::files::{FileRead, Intake, LoadError};
use crate::order;
use crate::saved_state;
use crate::ssm;
use crate::ssm::{ForwardPortError, ForwardPortSpec};
use crate::state;
use crate::state::{Session, SessionView, State, Timestamp};
use crate::text;

verus! {

/// Default port the bastion control plane listens on. Reachable through the
/// SSM port-forward established for the SSH session, on `127.0.0.1`.
pub const DEFAULT_CONTROL_PLANE_PORT: u16 = 8443;

/// Why a command came to nothing.
#[derive(Debug, Clone, PartialEq, Eq)]
pub enum CommandError {
    /// `known` lists the services there are.
    UnknownService { service: String, known: String },
    Forward(ForwardPortError),
    /// The port is recorded as forwarded by a session that is gone.
    StaleForward { local_port: u16, service: String, pid: Option<u32> },
    NoBastion { name: String },
    Provision(ProvisionError),
    Vpc(VpcMismatch),
    Registering(ClientError),
}

/// An optional number as Rust prints it for debugging.
pub open spec fn option_text(n: Option<u32>) -> Seq<char> {
    match n {
        Some(v) => "Some("@ + text::decimal(v as nat) + ")"@,
        None => "None"@,
    }
}

/// What is printed of a forward that a session claims which is gone.
pub open spec fn stale_text(local_port: u16, service: Seq<char>, pid: Option<u32>) -> Seq<char> {
    "local port "@ + text::decimal(local_port as nat) + " is recorded as owned by sibling session "@
        + text::quoted(service) + " (pid "@ + option_text(pid)
        + "), but that process is no longer running. Run `ephemwork down "@ + service
        + "` to clear the stale entry, then retry."@
}

/// What is printed where there is no bastion.
pub open spec fn no_bastion_text(name: Seq<char>) -> Seq<char> {
    "no bastion found (no instance tagged Name="@ + name
        + "). Run `ephemwork bastion init --live ...` to provision one."@
}

impl CommandError {
    pub open spec fn text(self) -> Seq<char> {
        match self {
            CommandError::UnknownService { service, known } => "service '"@ + service@
                + "' not found in ephemwork.toml; known: "@ + known@,
            CommandError::Forward(e) => e.text(),
            CommandError::StaleForward { local_port, service, pid } => stale_text(
                local_port,
                service@,
                pid,
            ),
            CommandError::NoBastion { name } => no_bastion_text(name@),
            CommandError::Provision(e) => e.text(),
            CommandError::Vpc(e) => e.text(),
            CommandError::Registering(_) => "registering with bastion control plane"@,
        }
    }

    /// The error in words.
    pub fn message(&self) -> (r: String)
        ensures
            r@ == self.text(),
    {
        match self {
            CommandError::UnknownService { service, known } => {
                let mut out = "service '".to_owned();
                out.append(service.as_str());
                out.append("' not found in ephemwork.toml; known: ");
                out.append(known.as_str());
                out
            },
            CommandError::Forward(e) => e.message(),
            CommandError::StaleForward { local_port, service, pid } => stale_message(
                *local_port,
                service.as_str(),
                *pid,
            ),
            CommandError::NoBastion { name } => no_bastion_message(name.as_str()),
            CommandError::Provision(e) => e.message(),
            CommandError::Vpc(e) => e.message(),
            CommandError::Registering(_) => "registering with bastion control plane".to_owned(),
        }
    }
}

pub(crate) fn stale_message(local_port: u16, service: &str, pid: Option<u32>) -> (r: String)
    ensures
        r@ == stale_text(local_port, service@, pid),
{
    let mut out = "local port ".to_owned();
    text::push_decimal(&mut out, local_port as u64);
    out.append(" is recorded as owned by sibling session ");
    out.append(text::quote(service).as_str());
    out.append(" (pid ");
    let mut number = String::new();
    match pid {
        Some(v) => {
            number.append("Some(");
            text::push_decimal(&mut number, v as u64);
            number.append(")");
        },
        None => {
            number.append("None");
        },
    }
    assert(number@ =~= option_text(pid));
    out.append(number.as_str());
    out.append("), but that process is no longer running. Run `ephemwork down ");
    out.append(service);
    out.append("` to clear the stale entry, then retry.");
    out
}

pub(crate) fn no_bastion_message(name: &str) -> (r: String)
    ensures
        r@ == no_bastion_text(name@),
{
    let mut out = "no bastion found (no instance tagged Name=".to_owned();
    out.append(name);
    out.append("). Run `ephemwork bastion init --live ...` to provision one.");
    out
}

/// Inputs for the `status` flow.
pub struct StatusOutput {
    pub user: String,
    pub sessions: Vec<Session>,
}

/// The sessions of the user.
pub fn status(user: String, state: &State) -> (r: StatusOutput)
    ensures
        r.user == user,
        state::session_views(r.sessions@) == state::kept(state@, state::of_user(user@)),
{
    let mine = state.for_user(user.as_str());
    let mut sessions: Vec<Session> = Vec::new();
    let mut i: usize = 0;
    let ghost views = mine@.map_values(|s: &Session| s@);
    while i < mine.len()
        invariant
            i <= mine@.len(),
            views == mine@.map_values(|s: &Session| s@),
            state::session_views(sessions@) == views.take(i as int),
        decreases mine@.len() - i,
    {
        let ghost before = sessions@;
        let s = mine[i].clone();
        sessions.push(s);
        assert(state::session_views(sessions@) =~= state::session_views(before).push(s@));
        assert(views.take(i + 1) =~= views.take(i as int).push(views[i as int]));
        i = i + 1;
    }
    assert(views.take(i as int) =~= views);
    StatusOutput { user, sessions }
}

/// The process ID of a session, or a question mark.
pub open spec fn pid_text(pid: Option<u32>) -> Seq<char> {
    match pid {
        Some(p) => text::decimal(p as nat),
        None => "?"@,
    }
}

/// The line of a session.
pub open spec fn session_line(s: SessionView) -> Seq<char> {
    "  "@ + text::padded(s.service, 20) + " local:"@ + text::decimal(s.local_port as nat)
        + " -> bastion:"@ + text::decimal(s.remote_port as nat) + "  pid="@ + pid_text(s.pid)
        + "  since "@ + state::rfc3339_text(s.started_at.0, s.started_at.1)
}

/// What is printed of the sessions of a user.
pub open spec fn sessions_text(user: Seq<char>, sessions: Seq<SessionView>) -> Seq<char> {
    if sessions.len() == 0 {
        "no active ephemwork sessions for "@ + user
    } else {
        text::joined(
            seq!["active sessions for "@ + user + ":"@] + sessions.map_values(
                |s: SessionView| session_line(s),
            ),
            "\n"@,
        )
    }
}

fn render_session(s: &Session) -> (r: String)
    ensures
        r@ == session_line(s@),
{
    let mut out = "  ".to_owned();
    out.append(text::pad(s.service.as_str(), 20).as_str());
    out.append(" local:");
    text::push_decimal(&mut out, s.local_port as u64);
    out.append(" -> bastion:");
    text::push_decimal(&mut out, s.remote_port as u64);
    out.append("  pid=");
    match s.pid {
        Some(p) => {
            text::push_decimal(&mut out, p as u64);
        },
        None => {
            out.append("?");
        },
    }
    out.append("  since ");
    out.append(s.started_at.to_rfc3339().as_str());
    out
}

pub fn render_status(out: &StatusOutput) -> (r: String)
    ensures
        r@ == sessions_text(out.user@, state::session_views(out.sessions@)),
{
    if out.sessions.len() == 0 {
        let mut text = "no active ephemwork sessions for ".to_owned();
        text.append(out.user.as_str());
        return text;
    }
    let mut first = "active sessions for ".to_owned();
    first.append(out.user.as_str());
    first.append(":");
    let ghost views = state::session_views(out.sessions@);
    let ghost all = seq!["active sessions for "@ + out.user@ + ":"@] + views.map_values(
        |s: SessionView| session_line(s),
    );
    let mut lines: Vec<String> = vec![first];
    assert(text::texts(lines@) =~= all.take(1));
    let mut i: usize = 0;
    while i < out.sessions.len()
        invariant
            i <= out.sessions@.len(),
            views == state::session_views(out.sessions@),
            all == seq!["active sessions for "@ + out.user@ + ":"@] + views.map_values(
                |s: SessionView| session_line(s),
            ),
            text::texts(lines@) == all.take(i + 1),
        decreases out.sessions@.len() - i,
    {
        let ghost before = lines@;
        let line = render_session(&out.sessions[i]);
        assert(all[i + 1] == session_line(views[i as int]));
        lines.push(line);
        assert(text::texts(lines@) =~= text::texts(before).push(line@));
        assert(all.take(i + 2) =~= all.take(i + 1).push(all[i + 1]));
        i = i + 1;
    }
    assert(all.take(i + 1) =~= all);
    text::join(&lines, "\n")
}

/// The header line for a value.
pub open spec fn header_text(value: Seq<char>) -> Seq<char> {
    "X-Ephemwork: "@ + value
}

fn header(value: &str) -> (r: String)
    ensures
        r@ == header_text(value@),
{
    let mut out = "X-Ephemwork: ".to_owned();
    out.append(value);
    out
}

/// What `up` returns so the CLI layer can decide how to print.
pub struct UpOutcome {
    pub user: String,
    pub service: String,
    pub local_port: u16,
    pub remote_port: u16,
    pub header_value: String,
}

impl UpOutcome {
    pub fn header_line(&self) -> (r: String)
        ensures
            r@ == header_text(self.header_value@),
    {
        header(self.header_value.as_str())
    }
}

/// Pure helper: produce the header value for a (user, service) pair. Trims
/// and lowercases the user identifier so the bastion can match deterministically.
pub fn header_value(user: &str, service: &str) -> (r: String)
    ensures
        r@ == common::routing_value(user@, service@),
{
    common::routing_header_value(user, service)
}

/// The names of the services.
pub open spec fn service_names(services: Seq<(String, ServiceConfig)>) -> Seq<Seq<char>> {
    services.map_values(|s: (String, ServiceConfig)| s.0@)
}

/// The names in ascending order.
pub open spec fn sorted_names(names: Seq<Seq<char>>, sorted: Seq<Seq<char>>) -> bool {
    &&& sorted.to_multiset() == names.to_multiset()
    &&& order::in_order(sorted, text::alphabetical())
}

/// Puts a name where it belongs.
fn insert_name(sorted: &mut Vec<String>, name: String)
    requires
        order::in_order(text::texts(old(sorted)@), text::alphabetical()),
    ensures
        order::in_order(text::texts(final(sorted)@), text::alphabetical()),
        text::texts(final(sorted)@).to_multiset() == text::texts(old(sorted)@).to_multiset().insert(
            name@,
        ),
{
    let ghost before = text::texts(sorted@);
    let mut at: usize = 0;
    while at < sorted.len() && !text::before(name.as_str(), sorted[at].as_str())
        invariant
            at <= sorted@.len(),
            before == text::texts(sorted@),
            forall|j: int| 0 <= j < at ==> !text::precedes(name@, #[trigger] before[j]),
        decreases sorted@.len() - at,
    {
        assert(before[at as int] == sorted@[at as int]@);
        at = at + 1;
    }
    proof {
        if at < sorted@.len() {
            assert(before[at as int] == sorted@[at as int]@);
        }
        text::lemma_alphabetical();
        order::lemma_insert(before, at as int, name@, text::alphabetical());
    }
    sorted.insert(at, name);
    assert(text::texts(sorted@) =~= before.insert(at as int, name@));
}

/// The names of the services in ascending order.
fn known_names(services: &Vec<(String, ServiceConfig)>) -> (r: Vec<String>)
    ensures
        sorted_names(service_names(services@), text::texts(r@)),
{
    let mut out: Vec<String> = Vec::new();
    let mut i: usize = 0;
    let ghost names = service_names(services@);
    assert(text::texts(out@) =~= names.take(0));
    while i < services.len()
        invariant
            i <= services@.len(),
            names == service_names(services@),
            text::texts(out@).to_multiset() == names.take(i as int).to_multiset(),
            order::in_order(text::texts(out@), text::alphabetical()),
        decreases services@.len() - i,
    {
        broadcast use vstd::seq_lib::group_to_multiset_ensures;

        let name = services[i].0.clone();
        insert_name(&mut out, name);
        assert(names.take(i + 1) =~= names.take(i as int).push(names[i as int]));
        i = i + 1;
    }
    assert(names.take(i as int) =~= names);
    out
}

/// The service of this name is the one at `at`, and the first.
pub open spec fn service_at(
    services: Seq<(String, ServiceConfig)>,
    name: Seq<char>,
    at: int,
) -> bool {
    &&& 0 <= at < services.len()
    &&& services[at].0@ == name
    &&& forall|i: int| 0 <= i < at ==> (#[trigger] services[i]).0@ != name
}

/// The error for a service that there is not.
pub open spec fn is_unknown_service(
    services: Seq<(String, ServiceConfig)>,
    name: Seq<char>,
    error: CommandError,
) -> bool {
    error matches CommandError::UnknownService { service, known } && service@ == name && exists|
        sorted: Seq<Seq<char>>,
    | #[trigger]
        sorted_names(service_names(services), sorted) && known@ == text::joined(sorted, ", "@)
}

/// Check that `service` exists in `cfg` and return its config.
pub fn lookup_service<'a>(cfg: &'a Config, service: &str) -> (r: Result<
    &'a ServiceConfig,
    CommandError,
>)
    ensures
        match r {
            Ok(svc) => {
                &&& exists|at: int| #[trigger]
                    service_at(cfg.service@, service@, at) && cfg.service@[at].1 == *svc
                &&& cfg.named_once() ==> forall|i: int|
                    0 <= i < cfg.service@.len() && (#[trigger] cfg.service@[i]).0@ == service@
                        ==> cfg.service@[i].1 == *svc
            },
            Err(e) => {
                &&& forall|i: int|
                    0 <= i < cfg.service@.len() ==> (#[trigger] cfg.service@[i]).0@ != service@
                &&& is_unknown_service(cfg.service@, service@, e)
            },
        },
{
    let mut i: usize = 0;
    while i < cfg.service.len()
        invariant
            i <= cfg.service@.len(),
            forall|j: int| 0 <= j < i ==> (#[trigger] cfg.service@[j]).0@ != service@,
        decreases cfg.service@.len() - i,
    {
        if text::same(cfg.service[i].0.as_str(), service) {
            assert(service_at(cfg.service@, service@, i as int));
            return Ok(&cfg.service[i].1);
        }
        i = i + 1;
    }
    let names = known_names(&cfg.service);
    let known = text::join(&names, ", ");
    assert(sorted_names(service_names(cfg.service@), text::texts(names@)));
    Err(CommandError::UnknownService { service: service.to_owned(), known })
}

/// Build a Session for a tunnel that was registered at `started_at`.
pub fn session_at(
    started_at: Timestamp,
    user: &str,
    service: &str,
    local_port: u16,
    remote_port: u16,
    pid: Option<u32>,
    forward_local_ports: Vec<u16>,
) -> (r: Session)
    ensures
        r@ == (SessionView {
            user: user@,
            service: service@,
            started_at: started_at@,
            local_port,
            remote_port,
            pid,
            forward_local_ports: forward_local_ports@,
        }),
{
    Session {
        user: user.to_owned(),
        service: service.to_owned(),
        started_at,
        local_port,
        remote_port,
        pid,
        forward_local_ports,
    }
}

/// Build a Session for a freshly-registered tunnel.
///
/// `forward_local_ports` should contain only the ports this session
/// actually opened (not ones it borrowed from a sibling). Sibling
/// sessions consult this list to decide whether they need to open
/// their own SSM tunnel for a given `forward_ports` entry.
pub fn session_for(
    user: &str,
    service: &str,
    local_port: u16,
    remote_port: u16,
    pid: Option<u32>,
    forward_local_ports: Vec<u16>,
) -> (r: Session)
    ensures
        r@ == (SessionView {
            user: user@,
            service: service@,
            started_at: r@.started_at,
            local_port,
            remote_port,
            pid,
            forward_local_ports: forward_local_ports@,
        }),
        state::in_calendar(r@.started_at.0, r@.started_at.1),
{
    session_at(
        Timestamp::now(),
        user,
        service,
        local_port,
        remote_port,
        pid,
        forward_local_ports,
    )
}

/// Take a successful `up` invocation into the session state: the state that is
/// to be saved. The arguments on the file are as for `State::load`.
pub fn record_session(
    path: &str,
    read: FileRead,
    session: Session,
    parse: impl Fn(&String) -> Result<State, String>,
) -> (r: Result<State, LoadError>)
    requires
        forall|s: String| #[trigger] parse.requires((&s,)),
    ensures
        exists|intake: Intake|
            {
                &&& #[trigger] files::taken_in("state file"@, path@, read, intake)
                &&& match intake {
                    Intake::Fresh => r matches Ok(s) && s@ == state::upserted(
                        Seq::empty(),
                        session@,
                    ),
                    Intake::Fail(e) => r == Err::<State, LoadError>(e),
                    Intake::Parse(s) => match r {
                        Ok(after) => exists|before: State| #[trigger]
                            parse.ensures((&s,), Ok(before)) && after@ == state::upserted(
                                before@,
                                session@,
                            ),
                        Err(e) => e matches LoadError::Parsing { what, path: p, cause } && what@
                            == "state file"@ && p@ == path@ && parse.ensures((&s,), Err(cause)),
                    },
                }
            },
        saved_state::reads_back(parse) ==> forall|s: String, before: Seq<SessionView>|
            read == FileRead::Contents(s) && #[trigger] saved_state::saved(s@, before) ==> (
            r matches Ok(after) && after@ == state::upserted(before, session@)),
{
    let ghost given = read;
    let loaded = State::load(path, read, parse);
    match loaded {
        Err(e) => Err(e),
        Ok(state) => {
            let ghost before = state;
            let mut state = state;
            state.upsert(session);
            proof {
                let intake = choose|intake: Intake|
                    {
                        &&& #[trigger] files::taken_in("state file"@, path@, given, intake)
                        &&& match intake {
                            Intake::Fresh => before@ == Seq::<SessionView>::empty(),
                            Intake::Fail(e) => false,
                            Intake::Parse(s) => parse.ensures((&s,), Ok(before)),
                        }
                    };
                assert(files::taken_in("state file"@, path@, given, intake));
            }
            Ok(state)
        },
    }
}

/// Remove sessions matching the predicate from a state. Returns the entries that
/// were removed so the caller can tear down their tunnels; what stays is in
/// `state`, to be saved.
pub fn forget_sessions(state: &mut State, pred: impl Fn(&Session) -> bool) -> (r: Vec<Session>)
    requires
        forall|s: Session| #[trigger] pred.requires((&s,)),
    ensures
        exists|flags: Seq<bool>|
            {
                &&& flags.len() == old(state).sessions@.len()
                &&& forall|i: int|
                    0 <= i < flags.len() ==> pred.ensures(
                        (&old(state).sessions@[i],),
                        #[trigger] flags[i],
                    )
                &&& r@ == #[trigger] state::picked(old(state).sessions@, flags, true)
                &&& final(state).sessions@ == state::picked(old(state).sessions@, flags, false)
            },
{
    state.remove_where(pred)
}

/// The session is the user's and, where a service is named, of that service.
pub open spec fn is_target(s: SessionView, user: Seq<char>, service: Option<Seq<char>>) -> bool {
    s.user == user && (service matches Some(svc) ==> s.service == svc)
}

/// The sessions to tear down.
pub open spec fn targeted(user: Seq<char>, service: Option<Seq<char>>) -> spec_fn(
    SessionView,
) -> bool {
    |s: SessionView| is_target(s, user, service)
}

/// The sessions to leave alone.
pub open spec fn untargeted(user: Seq<char>, service: Option<Seq<char>>) -> spec_fn(
    SessionView,
) -> bool {
    |s: SessionView| !is_target(s, user, service)
}

/// What an optional string holds.
pub open spec fn optional(s: Option<String>) -> Option<Seq<char>> {
    match s {
        Some(t) => Some(t@),
        None => None,
    }
}

fn targets(s: &Session, user: &str, service: &Option<String>) -> (r: bool)
    ensures
        r == is_target(s@, user@, optional(*service)),
{
    text::same(s.user.as_str(), user) && match service {
        Some(svc) => text::same(s.service.as_str(), svc.as_str()),
        None => true,
    }
}

/// The sessions to tear down: all of the user's, or those of one service.
pub fn down_candidates(state: &State, user: &str, service: &Option<String>) -> (r: Vec<Session>)
    ensures
        state::session_views(r@) == state::kept(
            state@,
            targeted(user@, optional(*service)),
        ),
{
    let ghost f = targeted(user@, optional(*service));
    let mut out: Vec<Session> = Vec::new();
    let mut i: usize = 0;
    assert(state::session_views(out@) =~= state::kept(state@.take(0), f));
    while i < state.sessions.len()
        invariant
            i <= state.sessions@.len(),
            f == targeted(user@, optional(*service)),
            state::session_views(out@) == state::kept(state@.take(i as int), f),
        decreases state.sessions@.len() - i,
    {
        let ghost before = out@;
        assert(state@.take(i + 1).drop_last() =~= state@.take(i as int));
        assert(state@.take(i + 1).last() == state.sessions@[i as int]@);
        if targets(&state.sessions[i], user, service) {
            let s = state.sessions[i].clone();
            out.push(s);
            assert(state::session_views(out@) =~= state::session_views(before).push(s@));
        }
        i = i + 1;
    }
    assert(state@.take(i as int) =~= state@);
    out
}

/// Takes the sessions to tear down out of the state; returns them.
pub fn down_forget(state: &mut State, user: &str, service: &Option<String>) -> (r: Vec<Session>)
    ensures
        state::session_views(r@) == state::kept(
            old(state)@,
            targeted(user@, optional(*service)),
        ),
        final(state)@ == state::kept(
            old(state)@,
            untargeted(user@, optional(*service)),
        ),
{
    let ghost before = state.sessions@;
    let pred = |s: &Session| -> (b: bool)
        ensures
            b == is_target(s@, user@, optional(*service)),
        { targets(s, user, service) };
    let r = forget_sessions(state, pred);
    proof {
        let flags = choose|flags: Seq<bool>|
            {
                &&& flags.len() == before.len()
                &&& forall|i: int|
                    0 <= i < flags.len() ==> pred.ensures((&before[i],), #[trigger] flags[i])
                &&& r@ == #[trigger] state::picked(before, flags, true)
                &&& state.sessions@ == state::picked(before, flags, false)
            };
        let f = targeted(user@, optional(*service));
        let g = untargeted(user@, optional(*service));
        assert forall|i: int| 0 <= i < before.len() implies #[trigger] flags[i] == f(
            before[i]@,
        ) by {
            assert(pred.ensures((&before[i],), flags[i]));
        }
        state::lemma_picked_is_kept(before, flags, true, f);
        state::lemma_picked_is_kept(before, flags, false, g);
    }
    r
}

/// Tearing down takes exactly the sessions asked for: none of another user, and
/// with a service named none of another service; all others stay.
pub proof fn law_down_takes_only_targets(
    sessions: Seq<SessionView>,
    user: Seq<char>,
    service: Option<Seq<char>>,
    i: int,
)
    requires
        0 <= i < sessions.len(),
    ensures
        state::kept(sessions, targeted(user, service)).contains(sessions[i]) == is_target(
            sessions[i],
            user,
            service,
        ),
        state::kept(sessions, untargeted(user, service)).contains(sessions[i]) == !is_target(
            sessions[i],
            user,
            service,
        ),
{
    let f = targeted(user, service);
    let g = untargeted(user, service);
    state::lemma_kept(sessions, f);
    state::lemma_kept(sessions, g);
    if f(sessions[i]) {
        state::lemma_kept_contains(sessions, f, i);
    } else {
        state::lemma_kept_contains(sessions, g, i);
    }
}

/// Register with the bastion: the port that the pair has there. The exchange and
/// the decoder are as for `bastion_client::register`.
pub fn register_with_bastion(
    endpoint: &BastionEndpoint,
    user: &str,
    service: &str,
    exchange: impl Fn(&BastionEndpoint, &Vec<u8>) -> Result<Vec<u8>, String>,
    decode: impl Fn(&Vec<u8>) -> Result<RegisterResponse, String>,
) -> (r: Result<u16, CommandError>)
    requires
        forall|wire: Vec<u8>| #[trigger] exchange.requires((endpoint, &wire)),
        forall|body: Vec<u8>| #[trigger] decode.requires((&body,)),
    ensures
        exists|
            wire: Vec<u8>,
            reply: Result<Vec<u8>, String>,
            answer: Result<HttpResponse, ClientError>,
        |
            {
                &&& wire@ == bastion_client::pair_wire(
                    endpoint.host@,
                    "/register"@,
                    user@,
                    service@,
                )
                &&& #[trigger] exchange.ensures((endpoint, &wire), reply)
                &&& #[trigger] bastion_client::posted(reply, answer)
                &&& match answer {
                    Err(e) => r == Err::<u16, CommandError>(CommandError::Registering(e)),
                    Ok(h) => match r {
                        Ok(port) => exists|v: RegisterResponse| #[trigger]
                            decode.ensures((&h.body,), Ok(v)) && v.remote_port == port,
                        Err(e) => e matches CommandError::Registering(ClientError::Decoding(why))
                            && decode.ensures((&h.body,), Err(why)),
                    },
                }
            },
{
    let req = RegisterRequest { user: user.to_owned(), service: service.to_owned() };
    match bastion_client::register(endpoint, &req, exchange, decode) {
        Ok(resp) => Ok(resp.remote_port),
        Err(e) => Err(CommandError::Registering(e)),
    }
}

/// Best-effort bastion deregistration; says what failed but doesn't fail itself
/// so that a flaky bastion doesn't keep stale entries in local state.
pub fn deregister_best_effort(
    endpoint: &BastionEndpoint,
    user: &str,
    service: &str,
    exchange: impl Fn(&BastionEndpoint, &Vec<u8>) -> Result<Vec<u8>, String>,
) -> (r: Option<ClientError>)
    requires
        forall|wire: Vec<u8>| #[trigger] exchange.requires((endpoint, &wire)),
    ensures
        exists|
            wire: Vec<u8>,
            reply: Result<Vec<u8>, String>,
            answer: Result<HttpResponse, ClientError>,
        |
            {
                &&& wire@ == bastion_client::pair_wire(
                    endpoint.host@,
                    "/deregister"@,
                    user@,
                    service@,
                )
                &&& #[trigger] exchange.ensures((endpoint, &wire), reply)
                &&& #[trigger] bastion_client::posted(reply, answer)
                &&& match answer {
                    Err(e) => r == Some(e),
                    Ok(_) => r is None,
                }
            },
{
    let req = DeregisterRequest { user: user.to_owned(), service: service.to_owned() };
    match bastion_client::deregister(endpoint, &req, exchange) {
        Ok(_) => None,
        Err(e) => Some(e),
    }
}

/// The bastion of the project.
pub fn locate_bastion<P: BastionProvisioner>(provisioner: &mut P, ctx: &BastionContext) -> (r:
    Result<InstanceSummary, CommandError>)
    ensures
        exists|found: Result<Option<InstanceSummary>, ProvisionError>|
            {
                &&& #[trigger] P::step(
                    *old(provisioner),
                    Call::FindInstance(
                        bastion_provisioner::resource_name(ctx.project_name@, "-bastion"@),
                        found,
                    ),
                    *final(provisioner),
                )
                &&& match found {
                    Ok(Some(instance)) => r == Ok::<InstanceSummary, CommandError>(instance),
                    Ok(None) => r matches Err(CommandError::NoBastion { name }) && name@
                        == bastion_provisioner::resource_name(ctx.project_name@, "-bastion"@),
                    Err(e) => r == Err::<InstanceSummary, CommandError>(
                        CommandError::Provision(e),
                    ),
                }
            },
{
    let name = ctx.instance_name();
    let found = provisioner.find_instance_by_name(name.as_str());
    assert(P::step(*old(provisioner), Call::FindInstance(name@, found), *provisioner));
    match found {
        Ok(Some(instance)) => Ok(instance),
        Ok(None) => Err(CommandError::NoBastion { name }),
        Err(e) => Err(CommandError::Provision(e)),
    }
}

/// The VPC that the configuration pins and the one that the subnet was found in.
pub struct VpcCheck {
    pub subnet_id: String,
    pub expected_vpc: String,
    pub actual_vpc: Result<String, ProvisionError>,
}

impl VpcCheck {
    /// The subnet was found in the VPC that is pinned.
    pub open spec fn passes(self) -> bool {
        self.actual_vpc matches Ok(vpc) && vpc@ == self.expected_vpc@
    }
}

/// A live init. Prod-safety guard: if the configuration pins a VPC, abort before
/// creating anything when the supplied subnet is in a different one.
pub fn run_guarded_init<
    P: BastionProvisioner,
    F: FnOnce(&String) -> Result<LaunchPlan, ProvisionError>,
>(
    provisioner: &mut P,
    ctx: &BastionContext,
    check: Option<VpcCheck>,
    sg_plan: &SecurityGroupPlan,
    launch_plan_for: F,
) -> (r: Result<InitOutcome, CommandError>)
    requires
        forall|before: P, after: P, id: String| #[trigger]
            P::step(before, Call::EnsureSecurityGroup(*sg_plan, Ok(id)), after)
                ==> launch_plan_for.requires((&id,)),
    ensures
        if check matches Some(c) && !c.passes() {
            &&& *final(provisioner) == *old(provisioner)
            &&& match check->0.actual_vpc {
                Err(e) => r == Err::<InitOutcome, CommandError>(CommandError::Provision(e)),
                Ok(vpc) => r matches Err(CommandError::Vpc(e)) && e.subnet_id@
                    == check->0.subnet_id@ && e.actual_vpc@ == vpc@ && e.expected_vpc@
                    == check->0.expected_vpc@,
            }
        } else {
            exists|calls: Seq<Call>, inner: Result<InitOutcome, ProvisionError>|
                {
                    &&& #[trigger] bastion_provisioner::runs(
                        *old(provisioner),
                        calls,
                        *final(provisioner),
                    )
                    &&& #[trigger] bastion_provisioner::init_script(
                        bastion_provisioner::resource_name(ctx.project_name@, "-bastion"@),
                        *sg_plan,
                        launch_plan_for,
                        calls,
                        inner,
                    )
                    &&& r == (match inner {
                        Ok(out) => Ok::<InitOutcome, CommandError>(out),
                        Err(e) => Err(CommandError::Provision(e)),
                    })
                }
        },
{
    if let Some(c) = check {
        let actual = match c.actual_vpc {
            Ok(vpc) => vpc,
            Err(e) => {
                return Err(CommandError::Provision(e));
            },
        };
        if let Err(e) = aws_bastion_provisioner::verify_vpc_match(
            c.subnet_id.as_str(),
            actual.as_str(),
            c.expected_vpc.as_str(),
        ) {
            return Err(CommandError::Vpc(e));
        }
    }
    match bastion_provisioner::run_init(provisioner, ctx, sg_plan, launch_plan_for) {
        Ok(out) => Ok(out),
        Err(e) => Err(CommandError::Provision(e)),
    }
}

/// Who has a claim on the local port of a forward.
#[derive(Debug, Clone, PartialEq, Eq)]
pub enum ForwardClaim {
    /// No session of the user.
    Free,
    /// A session that has no process.
    Stale { service: String, pid: Option<u32> },
    /// A session with this process, alive or not.
    Owner { service: String, pid: u32 },
}

/// What the recorded sessions say of a local port.
pub open spec fn claimed(owner: Option<SessionView>, claim: ForwardClaim) -> bool {
    match owner {
        None => claim == ForwardClaim::Free,
        Some(s) => if s.pid is None || s.pid == Some(0u32) {
            claim matches ForwardClaim::Stale { service, pid } && service@ == s.service && pid
                == s.pid
        } else {
            claim matches ForwardClaim::Owner { service, pid } && service@ == s.service && Some(pid)
                == s.pid
        },
    }
}

/// Who has a claim on the local port.
pub fn forward_claim(state: &State, user: &str, local_port: u16) -> (r: ForwardClaim)
    ensures
        claimed(state::owner_of(state@, user@, local_port), r),
{
    match state.forward_owner(user, local_port) {
        None => ForwardClaim::Free,
        Some(owner) => match owner.pid {
            None => ForwardClaim::Stale { service: owner.service.clone(), pid: None },
            Some(pid) => if pid == 0 {
                ForwardClaim::Stale { service: owner.service.clone(), pid: Some(pid) }
            } else {
                ForwardClaim::Owner { service: owner.service.clone(), pid }
            },
        },
    }
}

/// Decide whether a `forward_ports` entry can ride on an existing
/// SSM tunnel opened by a sibling session of the same user. Returns:
///   - `Ok(true)`  -> port is already forwarded by a live sibling;
///                    don't open a new tunnel.
///   - `Ok(false)` -> no live owner; the caller should open the tunnel.
///   - `Err(...)`  -> bound by a *dead* sibling whose tunnel we can't
///                    reuse safely.
/// `alive` says whether a process is there.
pub fn check_forward_reuse(
    state: &State,
    user: &str,
    spec: &ForwardPortSpec,
    alive: impl Fn(u32) -> bool,
) -> (r: Result<bool, CommandError>)
    requires
        forall|pid: u32| #[trigger] alive.requires((pid,)),
    ensures
        match state::owner_of(state@, user@, spec.local_port) {
            None => r == Ok::<bool, CommandError>(false),
            Some(s) => match r {
                Ok(reuse) => reuse && s.pid is Some && s.pid != Some(0u32) && alive.ensures(
                    (s.pid->0,),
                    true,
                ),
                Err(e) => {
                    &&& e matches CommandError::StaleForward { local_port, service, pid }
                        && local_port == spec.local_port && service@ == s.service && pid == s.pid
                    &&& s.pid is None || s.pid == Some(0u32) || alive.ensures((s.pid->0,), false)
                },
            },
        },
{
    match forward_claim(state, user, spec.local_port) {
        ForwardClaim::Free => Ok(false),
        ForwardClaim::Stale { service, pid } => Err(
            CommandError::StaleForward { local_port: spec.local_port, service, pid },
        ),
        ForwardClaim::Owner { service, pid } => if alive(pid) {
            Ok(true)
        } else {
            Err(
                CommandError::StaleForward {
                    local_port: spec.local_port,
                    service,
                    pid: Some(pid),
                },
            )
        },
    }
}

/// Configuration for the `up` flow. Inputs come from the CLI args + the
/// loaded `Config`.
#[derive(Debug, Clone)]
pub struct UpRequest {
    pub user: String,
    pub service: String,
    pub region: String,
    /// Port the local service listens on. `None` means worker mode:
    /// no inbound HTTP routing, no bastion registration, no SSH reverse
    /// tunnel. ephemwork just runs `bootstrap_command` then
    /// `run_command` and watches the child process.
    pub local_service_port: Option<u16>,
    pub run_command: String,
    pub health_check_path: Option<String>,
    pub ssh_username: String,
    /// Seconds between keepalive messages of the SSH session.
    pub ssh_keepalive_secs: u64,
    /// Milliseconds that the service has to become healthy.
    pub health_timeout_ms: u64,
    /// Raw `"local:host:remote"` strings from `service.<name>.forward_ports`.
    /// Validated at request build time; opened via SSM by the flow.
    pub forward_ports: Vec<String>,
    /// Optional shell command run before `run_command` (and before any
    /// tunnel is opened). See `ServiceConfig::bootstrap_command`.
    pub bootstrap_command: Option<String>,
}

/// Seconds between keepalive messages of the SSH session.
pub const DEFAULT_SSH_KEEPALIVE_SECS: u64 = 30;

/// Milliseconds that the service has to become healthy.
pub const DEFAULT_HEALTH_TIMEOUT_MS: u64 = 60_000;

/// The request holds what the configuration of its service says, and the
/// defaults.
pub open spec fn drawn_from(
    req: UpRequest,
    cfg: Config,
    svc: ServiceConfig,
    service: Seq<char>,
    user: Seq<char>,
) -> bool {
    &&& req.user@ == user
    &&& req.service@ == service
    &&& req.region@ == cfg.tunnel.region@
    &&& req.local_service_port == svc.port
    &&& req.run_command@ == svc.run_command@
    &&& optional(req.health_check_path) == optional(svc.health_check_path)
    &&& req.ssh_username@ == UpRequest::DEFAULT_SSH_USERNAME@
    &&& req.ssh_keepalive_secs == DEFAULT_SSH_KEEPALIVE_SECS
    &&& req.health_timeout_ms == DEFAULT_HEALTH_TIMEOUT_MS
    &&& text::texts(req.forward_ports@) == text::texts(svc.forward_ports@)
    &&& optional(req.bootstrap_command) == optional(svc.bootstrap_command)
}

/// Every forward can be read.
pub open spec fn forwards_readable(forwards: Seq<String>) -> bool {
    forall|i: int|
        0 <= i < forwards.len() ==> ssm::forward_port((#[trigger] forwards[i])@) is Ok
}

/// The error of the first forward that cannot be read.
pub open spec fn first_unreadable(forwards: Seq<String>, error: ForwardPortError) -> bool {
    exists|at: int|
        {
            &&& 0 <= at < forwards.len()
            &&& forall|i: int|
                0 <= i < at ==> ssm::forward_port((#[trigger] forwards[i])@) is Ok
            &&& ssm::forward_port((#[trigger] forwards[at])@) == Err::<
                (u16, Seq<char>, u16),
                ssm::ForwardFault,
            >(error.fault)
            &&& error.raw@ == forwards[at]@
        }
}

fn copy_option(s: &Option<String>) -> (r: Option<String>)
    ensures
        optional(r) == optional(*s),
{
    match s {
        Some(t) => Some(t.clone()),
        None => None,
    }
}

fn copy_texts(v: &Vec<String>) -> (r: Vec<String>)
    ensures
        r@ == v@,
{
    let mut out: Vec<String> = Vec::new();
    let mut i: usize = 0;
    while i < v.len()
        invariant
            i <= v@.len(),
            out@ == v@.take(i as int),
        decreases v@.len() - i,
    {
        out.push(v[i].clone());
        assert(v@.take(i + 1) =~= v@.take(i as int).push(v@[i as int]));
        i = i + 1;
    }
    assert(v@.take(i as int) =~= v@);
    out
}

impl UpRequest {
    /// Default SSH username for AL2023 EC2 instances.
    pub const DEFAULT_SSH_USERNAME: &'static str = "ec2-user";

    pub fn from_config(cfg: &Config, service: &str, user: &str) -> (r: Result<Self, CommandError>)
        ensures
            match r {
                Ok(req) => exists|at: int|
                    {
                        &&& #[trigger] service_at(cfg.service@, service@, at)
                        &&& drawn_from(req, *cfg, cfg.service@[at].1, service@, user@)
                        &&& forwards_readable(cfg.service@[at].1.forward_ports@)
                    },
                Err(CommandError::Forward(e)) => exists|at: int| #[trigger]
                    service_at(cfg.service@, service@, at) && first_unreadable(
                        cfg.service@[at].1.forward_ports@,
                        e,
                    ),
                Err(e) => {
                    &&& forall|i: int|
                        0 <= i < cfg.service@.len() ==> (#[trigger] cfg.service@[i]).0@ != service@
                    &&& is_unknown_service(cfg.service@, service@, e)
                },
            },
    {
        let svc = match lookup_service(cfg, service) {
            Ok(svc) => svc,
            Err(e) => {
                return Err(e);
            },
        };
        let ghost at = choose|at: int| #[trigger]
            service_at(cfg.service@, service@, at) && cfg.service@[at].1 == *svc;
        // Validate every forward spec early so a typo in ephemwork.toml
        // surfaces before we open any SSM tunnel.
        let mut i: usize = 0;
        while i < svc.forward_ports.len()
            invariant
                i <= svc.forward_ports@.len(),
                service_at(cfg.service@, service@, at),
                cfg.service@[at].1 == *svc,
                forall|j: int|
                    0 <= j < i ==> ssm::forward_port((#[trigger] svc.forward_ports@[j])@) is Ok,
            decreases svc.forward_ports@.len() - i,
        {
            if let Err(e) = ssm::parse_forward_port_spec(svc.forward_ports[i].as_str()) {
                assert(first_unreadable(svc.forward_ports@, e));
                return Err(CommandError::Forward(e));
            }
            i = i + 1;
        }
        Ok(
            Self {
                user: user.to_owned(),
                service: service.to_owned(),
                region: cfg.tunnel.region.clone(),
                local_service_port: svc.port,
                run_command: svc.run_command.clone(),
                health_check_path: copy_option(&svc.health_check_path),
                ssh_username: Self::DEFAULT_SSH_USERNAME.to_owned(),
                ssh_keepalive_secs: DEFAULT_SSH_KEEPALIVE_SECS,
                health_timeout_ms: DEFAULT_HEALTH_TIMEOUT_MS,
                forward_ports: copy_texts(&svc.forward_ports),
                bootstrap_command: copy_option(&svc.bootstrap_command),
            },
        )
    }
}

/// What one `up` invocation has set up.
#[derive(Debug, Clone, PartialEq, Eq)]
pub struct ActiveSession {
    pub user: String,
    pub service: String,
    /// `None` for worker services (no inbound routing).
    pub local_port: Option<u16>,
    /// `None` for worker services (no bastion registration).
    pub remote_port: Option<u16>,
    pub pid: u32,
    /// Endpoint of the control-plane port forward, used for deregistration.
    /// `None` for worker services (no control plane was opened).
    pub cp_endpoint: Option<BastionEndpoint>,
}

impl ActiveSession {
    pub fn header_value(&self) -> (r: String)
        ensures
            r@ == self.user@ + ":"@ + self.service@,
    {
        let mut out = self.user.clone();
        out.append(":");
        out.append(self.service.as_str());
        out
    }

    pub fn header_line(&self) -> (r: String)
        ensures
            r@ == header_text(self.user@ + ":"@ + self.service@),
    {
        header(self.header_value().as_str())
    }
}

/// The header that `up` prints is the one that the bastion routes by, for a user
/// and a service without white space round them and a user in lower case.
pub proof fn law_printed_header_is_routed(user: Seq<char>, service: Seq<char>)
    requires
        text::trimmed(user) == user,
        text::lowered(user) == user,
        text::trimmed(service) == service,
    ensures
        user + ":"@ + service == common::routing_value(user, service),
{
}

/// The status of a user is of the sessions that are recorded under that name.
pub proof fn law_status_is_of_the_user(user: String, state: State, r: StatusOutput)
    requires
        call_ensures(status, (user, &state), r),
    ensures
        r.user@ == user@,
        state::session_views(r.sessions@) == state@.filter(|s: SessionView| s.user == user@),
{
    state::law_kept_is_filtered(state@, state::of_user(user@));
    lemma_same_filter(state@, state::of_user(user@), |s: SessionView| s.user == user@);
}

proof fn lemma_same_filter(
    sessions: Seq<SessionView>,
    g: spec_fn(SessionView) -> bool,
    f: spec_fn(SessionView) -> bool,
)
    requires
        forall|s: SessionView| #[trigger] g(s) == f(s),
    ensures
        sessions.filter(g) == sessions.filter(f),
    decreases sessions.len(),
{
    reveal(Seq::filter);
    if sessions.len() > 0 {
        lemma_same_filter(sessions.drop_last(), g, f);
        assert(g(sessions.last()) == f(sessions.last()));
    }
}

/// The line that is printed of a session.
pub open spec fn line_of(s: SessionView) -> Seq<char> {
    let process = match s.pid {
        Some(pid) => text::decimal(pid as nat),
        None => seq!['?'],
    };
    "\n  "@ + text::padded(s.service, 20) + " local:"@ + text::decimal(s.local_port as nat)
        + " -> bastion:"@ + text::decimal(s.remote_port as nat) + "  pid="@ + process
        + "  since "@ + state::rfc3339_text(s.started_at.0, s.started_at.1)
}

/// The lines of sessions one after another.
pub open spec fn lines_of(sessions: Seq<SessionView>) -> Seq<char>
    decreases sessions.len(),
{
    if sessions.len() == 0 {
        seq![]
    } else {
        lines_of(sessions.drop_last()) + line_of(sessions.last())
    }
}

/// What is printed of a status has a line for the user and one for every session.
pub proof fn law_status_has_a_line_for_each(out: StatusOutput, r: String)
    requires
        call_ensures(render_status, (&out,), r),
    ensures
        out.sessions@.len() == 0 ==> r@ == "no active ephemwork sessions for "@ + out.user@,
        out.sessions@.len() > 0 ==> r@ == "active sessions for "@ + out.user@ + ":"@ + lines_of(
            state::session_views(out.sessions@),
        ),
{
    let views = state::session_views(out.sessions@);
    assert(views.len() == out.sessions@.len());
    if views.len() > 0 {
        lemma_lines("active sessions for "@ + out.user@ + ":"@, views);
    }
}

proof fn lemma_lines(first: Seq<char>, sessions: Seq<SessionView>)
    ensures
        text::joined(
            seq![first] + sessions.map_values(|s: SessionView| session_line(s)),
            "\n"@,
        ) == first + lines_of(sessions),
    decreases sessions.len(),
{
    let f = |s: SessionView| session_line(s);
    let all = seq![first] + sessions.map_values(f);
    if sessions.len() == 0 {
        assert(all =~= seq![first]);
        assert(first + lines_of(sessions) =~= first);
    } else {
        let front = sessions.drop_last();
        lemma_lines(first, front);
        assert(all.drop_last() =~= seq![first] + front.map_values(f));
        assert(all.last() == session_line(sessions.last()));
        reveal_strlit("\n");
        reveal_strlit("  ");
        reveal_strlit("\n  ");
        reveal_strlit("?");
        assert(pid_text(sessions.last().pid) =~= (match sessions.last().pid {
            Some(pid) => text::decimal(pid as nat),
            None => seq!['?'],
        }));
        assert("\n"@ + session_line(sessions.last()) =~= line_of(sessions.last()));
        assert(text::joined(all, "\n"@) =~= first + lines_of(sessions));
    }
}

/// The header line names the routing header, then the value.
pub proof fn law_header_line_names_the_header(
    outcome: UpOutcome,
    a: String,
    session: ActiveSession,
    b: String,
)
    requires
        call_ensures(UpOutcome::header_line, (&outcome,), a),
        call_ensures(ActiveSession::header_line, (&session,), b),
    ensures
        a@ == common::ROUTING_HEADER@ + seq![':', ' '] + outcome.header_value@,
        b@ == common::ROUTING_HEADER@ + seq![':', ' '] + session.user@ + seq![':']
            + session.service@,
{
    reveal_strlit("X-Ephemwork: ");
    reveal_strlit("X-Ephemwork");
    reveal_strlit(":");
    assert("X-Ephemwork: "@ =~= "X-Ephemwork"@ + seq![':', ' ']);
    assert(a@ =~= common::ROUTING_HEADER@ + seq![':', ' '] + outcome.header_value@);
    assert(b@ =~= common::ROUTING_HEADER@ + seq![':', ' '] + session.user@ + seq![':']
        + session.service@);
}

/// A session that is made to be recorded holds what it is made of, each in its place.
pub proof fn law_session_holds_what_it_is_made_of(
    started_at: Timestamp,
    user: &str,
    service: &str,
    local_port: u16,
    remote_port: u16,
    pid: Option<u32>,
    ports: Vec<u16>,
    at: Session,
    now: Session,
)
    requires
        call_ensures(
            session_at,
            (started_at, user, service, local_port, remote_port, pid, ports),
            at,
        ),
        call_ensures(session_for, (user, service, local_port, remote_port, pid, ports), now),
    ensures
        at@.started_at == started_at@,
        at@.user == user@ && now@.user == user@,
        at@.service == service@ && now@.service == service@,
        at@.local_port == local_port && now@.local_port == local_port,
        at@.remote_port == remote_port && now@.remote_port == remote_port,
        at@.pid == pid && now@.pid == pid,
        at@.forward_local_ports == ports@ && now@.forward_local_ports == ports@,
{
}

/// A service is found exactly if one of this name is configured, and it is the first of
/// that name.
pub proof fn law_service_is_found_by_its_name(
    cfg: Config,
    name: &str,
    r: Result<&ServiceConfig, CommandError>,
)
    requires
        call_ensures(lookup_service, (&cfg, name), r),
    ensures
        match r {
            Ok(svc) => exists|at: int|
                {
                    &&& 0 <= at < cfg.service@.len()
                    &&& (#[trigger] cfg.service@[at]).0@ == name@
                    &&& cfg.service@[at].1 == *svc
                    &&& forall|i: int| 0 <= i < at ==> (#[trigger] cfg.service@[i]).0@ != name@
                },
            Err(e) => {
                &&& forall|i: int|
                    0 <= i < cfg.service@.len() ==> (#[trigger] cfg.service@[i]).0@ != name@
                &&& e matches CommandError::UnknownService { service, .. } && service@ == name@
            },
        },
{
    if let Ok(svc) = r {
        let at = choose|at: int| #[trigger]
            service_at(cfg.service@, name@, at) && cfg.service@[at].1 == *svc;
        assert(cfg.service@[at].0@ == name@);
    }
}

/// A request holds what is configured for its service and its tunnel, and goes to the
/// instance as `ec2-user`, with a sign of life every half minute and a minute for the
/// service to become healthy. It is to be had exactly if the service is configured and
/// each of its forwards can be read.
pub proof fn law_request_is_what_is_configured(
    cfg: Config,
    service: &str,
    user: &str,
    r: Result<UpRequest, CommandError>,
)
    requires
        call_ensures(UpRequest::from_config, (&cfg, service, user), r),
    ensures
        match r {
            Ok(req) => exists|at: int|
                {
                    let svc = cfg.service@[at].1;
                    &&& 0 <= at < cfg.service@.len()
                    &&& (#[trigger] cfg.service@[at]).0@ == service@
                    &&& forall|i: int| 0 <= i < at ==> (#[trigger] cfg.service@[i]).0@ != service@
                    &&& req.user@ == user@
                    &&& req.service@ == service@
                    &&& req.region@ == cfg.tunnel.region@
                    &&& req.local_service_port == svc.port
                    &&& req.run_command@ == svc.run_command@
                    &&& same_option(req.health_check_path, svc.health_check_path)
                    &&& same_option(req.bootstrap_command, svc.bootstrap_command)
                    &&& req.ssh_username@ == "ec2-user"@
                    &&& req.ssh_keepalive_secs == 30
                    &&& req.health_timeout_ms == 60000
                    &&& req.forward_ports@.len() == svc.forward_ports@.len()
                    &&& forall|k: int|
                        0 <= k < svc.forward_ports@.len() ==> (#[trigger] req.forward_ports@[k])@
                            == svc.forward_ports@[k]@ && ssm::forward_port(
                            svc.forward_ports@[k]@,
                        ) is Ok
                },
            Err(e) => {
                ||| forall|i: int|
                    0 <= i < cfg.service@.len() ==> (#[trigger] cfg.service@[i]).0@ != service@
                ||| exists|at: int, k: int|
                    {
                        &&& 0 <= at < cfg.service@.len()
                        &&& cfg.service@[at].0@ == service@
                        &&& 0 <= k < cfg.service@[at].1.forward_ports@.len()
                        &&& ssm::forward_port(
                            (#[trigger] cfg.service@[at].1.forward_ports@[k])@,
                        ) is Err
                    }
            },
        },
{
    match r {
        Ok(req) => {
            let at = choose|at: int|
                {
                    &&& #[trigger] service_at(cfg.service@, service@, at)
                    &&& drawn_from(req, cfg, cfg.service@[at].1, service@, user@)
                    &&& forwards_readable(cfg.service@[at].1.forward_ports@)
                };
            let svc = cfg.service@[at].1;
            assert(cfg.service@[at].0@ == service@);
            let a = text::texts(req.forward_ports@);
            let b = text::texts(svc.forward_ports@);
            assert(a.len() == b.len());
            assert forall|k: int| 0 <= k < svc.forward_ports@.len() implies (
            #[trigger] req.forward_ports@[k])@ == svc.forward_ports@[k]@ && ssm::forward_port(
                svc.forward_ports@[k]@,
            ) is Ok by {
                assert(a[k] == b[k]);
                assert(ssm::forward_port(svc.forward_ports@[k]@) is Ok);
            }
        },
        Err(CommandError::Forward(e)) => {
            let at = choose|at: int| #[trigger]
                service_at(cfg.service@, service@, at) && first_unreadable(
                    cfg.service@[at].1.forward_ports@,
                    e,
                );
            let forwards = cfg.service@[at].1.forward_ports@;
            let k = choose|k: int|
                {
                    &&& 0 <= k < forwards.len()
                    &&& forall|i: int|
                        0 <= i < k ==> ssm::forward_port((#[trigger] forwards[i])@) is Ok
                    &&& ssm::forward_port((#[trigger] forwards[k])@) == Err::<
                        (u16, Seq<char>, u16),
                        ssm::ForwardFault,
                    >(e.fault)
                    &&& e.raw@ == forwards[k]@
                };
            assert(ssm::forward_port(cfg.service@[at].1.forward_ports@[k]@) is Err);
        },
        Err(_) => {},
    }
}

/// Both are absent, or hold the same text.
pub open spec fn same_option(a: Option<String>, b: Option<String>) -> bool {
    match (a, b) {
        (None, None) => true,
        (Some(x), Some(y)) => x@ == y@,
        _ => false,
    }
}

/// A port is free if no session of the user has it forwarded; else the first that has
/// is its owner, unless that session has no process, or process zero.
pub proof fn law_claim_is_of_the_first(state: State, user: &str, port: u16, r: ForwardClaim)
    requires
        call_ensures(forward_claim, (&state, user, port), r),
    ensures
        match r {
            ForwardClaim::Free => forall|j: int|
                0 <= j < state@.len() ==> (#[trigger] state@[j]).user != user@
                    || !state@[j].forward_local_ports.contains(port),
            ForwardClaim::Owner { service, pid } => pid != 0 && exists|i: int|
                {
                    &&& 0 <= i < state@.len()
                    &&& (#[trigger] state@[i]).user == user@
                    &&& state@[i].forward_local_ports.contains(port)
                    &&& state@[i].service == service@
                    &&& state@[i].pid == Some(pid)
                    &&& forall|j: int|
                        0 <= j < i ==> (#[trigger] state@[j]).user != user@
                            || !state@[j].forward_local_ports.contains(port)
                },
            ForwardClaim::Stale { service, pid } => (pid is None || pid == Some(0u32)) && exists|
                i: int,
            |
                {
                    &&& 0 <= i < state@.len()
                    &&& (#[trigger] state@[i]).user == user@
                    &&& state@[i].forward_local_ports.contains(port)
                    &&& state@[i].service == service@
                    &&& state@[i].pid == pid
                    &&& forall|j: int|
                        0 <= j < i ==> (#[trigger] state@[j]).user != user@
                            || !state@[j].forward_local_ports.contains(port)
                },
        },
{
    state::lemma_first_owner(state@, user@, port);
}

/// A forward is used again only where the first session that claims its port has a
/// process that is alive, and is to be opened only where no session claims it.
pub proof fn law_forward_is_shared_with_the_living<F: Fn(u32) -> bool>(
    state: State,
    user: &str,
    spec: ForwardPortSpec,
    alive: F,
    r: Result<bool, CommandError>,
)
    requires
        call_ensures(check_forward_reuse, (&state, user, &spec, alive), r),
    ensures
        r == Ok::<bool, CommandError>(false) <==> forall|j: int|
            0 <= j < state@.len() ==> (#[trigger] state@[j]).user != user@
                || !state@[j].forward_local_ports.contains(spec.local_port),
        r == Ok::<bool, CommandError>(true) ==> exists|i: int|
            {
                &&& 0 <= i < state@.len()
                &&& (#[trigger] state@[i]).user == user@
                &&& state@[i].forward_local_ports.contains(spec.local_port)
                &&& state@[i].pid matches Some(pid) && pid != 0 && alive.ensures((pid,), true)
            },
        r matches Err(e) ==> (e matches CommandError::StaleForward { local_port, .. } && local_port
            == spec.local_port),
{
    state::lemma_first_owner(state@, user@, spec.local_port);
}

/// Recording a session puts it behind what was recorded, in place of an earlier one of
/// its user and service; where nothing was recorded it stands alone, and where what was
/// recorded cannot be read or understood nothing is recorded.
pub proof fn law_session_is_recorded<F: Fn(&String) -> Result<State, String>>(
    path: &str,
    read: FileRead,
    session: Session,
    parse: F,
    r: Result<State, LoadError>,
)
    requires
        call_ensures(record_session, (path, read, session, parse), r),
    ensures
        match read {
            FileRead::NotFound => r matches Ok(s) && s@ == seq![session@],
            FileRead::Failed(e) => r is Err,
            FileRead::Contents(s) => if exists|i: int|
                0 <= i < s@.len() && !text::is_white(#[trigger] s@[i]) {
                match r {
                    Ok(after) => exists|before: State| #[trigger]
                        parse.ensures((&s,), Ok(before)) && after@ == before@.filter(
                            |t: SessionView|
                                t.user != session@.user || t.service != session@.service,
                        ).push(session@),
                    Err(_) => exists|cause: String| #[trigger] parse.ensures((&s,), Err(cause)),
                }
            } else {
                r matches Ok(s) && s@ == seq![session@]
            },
        },
{
    state::law_upsert_spares_other_pairs(Seq::empty(), session@);
    reveal(Seq::filter);
    let alone = state::upserted(Seq::<SessionView>::empty(), session@);
    assert(alone =~= seq![session@]);
    if let FileRead::Contents(s) = read {
        if let Ok(after) = r {
            if !text::is_blank(s@) {
                let before = choose|before: State| #[trigger]
                    parse.ensures((&s,), Ok(before)) && after@ == state::upserted(
                        before@,
                        session@,
                    );
                state::law_upsert_spares_other_pairs(before@, session@);
                assert(parse.ensures((&s,), Ok(before)));
            }
        }
    }
}

/// A subnet passes the check exactly if it was found, and in the network that is pinned.
pub proof fn law_vpc_check_passes(check: VpcCheck)
    ensures
        check.passes() <==> exists|vpc: String|
            #[trigger] check.actual_vpc == Ok::<String, ProvisionError>(vpc) && vpc@
                == check.expected_vpc@,
{
    if let Ok(vpc) = check.actual_vpc {
        assert(check.actual_vpc == Ok::<String, ProvisionError>(vpc));
    }
}

/// Registering hands out the port that the reply decodes to, and tells any failure as one
/// of registering.
pub proof fn law_registering_gives_the_port<
    E: Fn(&BastionEndpoint, &Vec<u8>) -> Result<Vec<u8>, String>,
    D: Fn(&Vec<u8>) -> Result<RegisterResponse, String>,
>(
    endpoint: BastionEndpoint,
    user: &str,
    service: &str,
    exchange: E,
    decode: D,
    r: Result<u16, CommandError>,
)
    requires
        call_ensures(register_with_bastion, (&endpoint, user, service, exchange, decode), r),
    ensures
        r matches Ok(port) ==> exists|body: Vec<u8>, v: RegisterResponse| #[trigger]
            decode.ensures((&body,), Ok(v)) && v.remote_port == port,
        r matches Err(e) ==> e is Registering,
        exists|wire: Vec<u8>, reply: Result<Vec<u8>, String>| #[trigger]
            exchange.ensures((&endpoint, &wire), reply) && wire@ == bastion_client::pair_wire(
                endpoint.host@,
                "/register"@,
                user@,
                service@,
            ) && (reply is Err ==> r is Err),
{
    let (wire, reply, answer) = choose|
        wire: Vec<u8>,
        reply: Result<Vec<u8>, String>,
        answer: Result<HttpResponse, ClientError>,
    |
        {
            &&& wire@ == bastion_client::pair_wire(endpoint.host@, "/register"@, user@, service@)
            &&& #[trigger] exchange.ensures((&endpoint, &wire), reply)
            &&& #[trigger] bastion_client::posted(reply, answer)
            &&& match answer {
                Err(e) => r == Err::<u16, CommandError>(CommandError::Registering(e)),
                Ok(h) => match r {
                    Ok(port) => exists|v: RegisterResponse| #[trigger]
                        decode.ensures((&h.body,), Ok(v)) && v.remote_port == port,
                    Err(e) => e matches CommandError::Registering(ClientError::Decoding(why))
                        && decode.ensures((&h.body,), Err(why)),
                },
            }
        };
    assert(exchange.ensures((&endpoint, &wire), reply));
    if let Ok(port) = r {
        let h = answer->Ok_0;
        let v = choose|v: RegisterResponse| #[trigger]
            decode.ensures((&h.body,), Ok(v)) && v.remote_port == port;
        assert(decode.ensures((&h.body,), Ok(v)));
    }
}

/// An init that is guarded goes no further than its check where the subnet was not found,
/// or in another network than the one that is pinned: nothing is called, and the error
/// tells which. With no network pinned, or the right one, the look-up for the project's
/// bastion is the first call.
pub proof fn law_guarded_init_stops_at_its_check<
    P: BastionProvisioner,
    F: FnOnce(&String) -> Result<LaunchPlan, ProvisionError>,
>(
    provisioner: &mut P,
    ctx: BastionContext,
    check: Option<VpcCheck>,
    sg_plan: SecurityGroupPlan,
    launch_plan_for: F,
    r: Result<InitOutcome, CommandError>,
)
    requires
        call_ensures(
            run_guarded_init::<P, F>,
            (provisioner, &ctx, check, &sg_plan, launch_plan_for),
            r,
        ),
    ensures
        check matches Some(c) ==> match c.actual_vpc {
            Err(e) => *final(provisioner) == *old(provisioner) && r == Err::<
                InitOutcome,
                CommandError,
            >(CommandError::Provision(e)),
            Ok(vpc) => vpc@ != c.expected_vpc@ ==> *final(provisioner) == *old(provisioner) && (
            r matches Err(CommandError::Vpc(e)) && e.subnet_id@ == c.subnet_id@ && e.actual_vpc@
                == vpc@ && e.expected_vpc@ == c.expected_vpc@),
        },
        (check matches Some(c) ==> (c.actual_vpc matches Ok(vpc) && vpc@ == c.expected_vpc@))
            ==> exists|calls: Seq<Call>| #[trigger]
            bastion_provisioner::runs(*old(provisioner), calls, *final(provisioner)) && calls.len()
                > 0 && (calls[0] matches Call::FindInstance(name, _) && name == "ephemwork-"@
                + ctx.project_name@ + "-bastion"@),
{
    if (check matches Some(c) ==> (c.actual_vpc matches Ok(vpc) && vpc@ == c.expected_vpc@)) {
        let (calls, inner) = choose|calls: Seq<Call>, inner: Result<InitOutcome, ProvisionError>|
            {
                &&& #[trigger] bastion_provisioner::runs(
                    *old(provisioner),
                    calls,
                    *final(provisioner),
                )
                &&& #[trigger] bastion_provisioner::init_script(
                    bastion_provisioner::resource_name(ctx.project_name@, "-bastion"@),
                    sg_plan,
                    launch_plan_for,
                    calls,
                    inner,
                )
                &&& r == (match inner {
                    Ok(out) => Ok::<InitOutcome, CommandError>(out),
                    Err(e) => Err(CommandError::Provision(e)),
                })
            };
        assert(bastion_provisioner::runs(*old(provisioner), calls, *final(provisioner)));
    }
}

/// The bastion of a project is looked for by one call, with the name of its instance;
/// where there is none, the error tells that name.
pub proof fn law_bastion_is_located_by_its_name<P: BastionProvisioner>(
    provisioner: &mut P,
    ctx: BastionContext,
    r: Result<InstanceSummary, CommandError>,
)
    requires
        call_ensures(locate_bastion::<P>, (provisioner, &ctx), r),
    ensures
        exists|found: Result<Option<InstanceSummary>, ProvisionError>|
            {
                &&& #[trigger] P::step(
                    *old(provisioner),
                    Call::FindInstance("ephemwork-"@ + ctx.project_name@ + "-bastion"@, found),
                    *final(provisioner),
                )
                &&& match found {
                    Ok(Some(i)) => r == Ok::<InstanceSummary, CommandError>(i),
                    Ok(None) => r matches Err(CommandError::NoBastion { name }) && name@
                        == "ephemwork-"@ + ctx.project_name@ + "-bastion"@,
                    Err(e) => r == Err::<InstanceSummary, CommandError>(
                        CommandError::Provision(e),
                    ),
                }
            },
{
}

/// What `down` takes out of a state are the sessions of the user, of the service where one
/// is named; what is left are all others. Both keep their order.
pub proof fn law_down_forgets_the_users_sessions(
    st: &mut State,
    user: &str,
    service: Option<String>,
    r: Vec<Session>,
)
    requires
        call_ensures(down_forget, (st, user, &service), r),
    ensures
        state::session_views(r@) == old(st)@.filter(
            |s: SessionView|
                s.user == user@ && (service matches Some(name) ==> s.service == name@),
        ),
        final(st)@ == old(st)@.filter(
            |s: SessionView|
                s.user != user@ || (service matches Some(name) && s.service != name@),
        ),
{
    let a = targeted(user@, optional(service));
    let b = untargeted(user@, optional(service));
    state::law_kept_is_filtered(old(st)@, a);
    state::law_kept_is_filtered(old(st)@, b);
    lemma_same_filter(
        old(st)@,
        a,
        |s: SessionView| s.user == user@ && (service matches Some(name) ==> s.service == name@),
    );
    lemma_same_filter(
        old(st)@,
        b,
        |s: SessionView| s.user != user@ || (service matches Some(name) && s.service != name@),
    );
}

/// A service that is not configured is told with the names of all that are, in ascending
/// order and with commas between them.
pub proof fn law_unknown_service_lists_the_known(cfg: Config, name: &str, e: CommandError)
    requires
        call_ensures(lookup_service, (&cfg, name), Err(e)),
    ensures
        e matches CommandError::UnknownService { known, .. } && exists|names: Seq<Seq<char>>|
            {
                &&& known@ == #[trigger] text::joined(names, ", "@)
                &&& names.to_multiset() == Seq::new(
                    cfg.service@.len(),
                    |i: int| cfg.service@[i].0@,
                ).to_multiset()
                &&& forall|i: int, j: int|
                    0 <= i < j < names.len() ==> !text::precedes(
                        #[trigger] names[j],
                        #[trigger] names[i],
                    )
            },
{
    let all = service_names(cfg.service@);
    assert(all =~= Seq::new(cfg.service@.len(), |i: int| cfg.service@[i].0@));
    let known = e->known;
    let names = choose|sorted: Seq<Seq<char>>| #[trigger]
        sorted_names(all, sorted) && known@ == text::joined(sorted, ", "@);
    assert forall|i: int, j: int| 0 <= i < j < names.len() implies !text::precedes(
        #[trigger] names[j],
        #[trigger] names[i],
    ) by {
        assert(!text::alphabetical()(names[j], names[i]));
    }
    assert(known@ == text::joined(names, ", "@));
}

/// What goes wrong while a pair is taken out is handed back and nothing else comes of it:
/// there is something exactly if the reply was not one of success.
pub proof fn law_deregistering_is_best_effort<
    E: Fn(&BastionEndpoint, &Vec<u8>) -> Result<Vec<u8>, String>,
>(
    endpoint: BastionEndpoint,
    user: &str,
    service: &str,
    exchange: E,
    r: Option<ClientError>,
)
    requires
        call_ensures(deregister_best_effort, (&endpoint, user, service, exchange), r),
    ensures
        exists|wire: Vec<u8>, reply: Result<Vec<u8>, String>|
            {
                &&& #[trigger] exchange.ensures((&endpoint, &wire), reply)
                &&& wire@ == bastion_client::pair_wire(
                    endpoint.host@,
                    "/deregister"@,
                    user@,
                    service@,
                )
                &&& reply matches Err(e) ==> r == Some(ClientError::Exchange(e))
                &&& r is None <==> exists|h: HttpResponse| #[trigger]
                    bastion_client::posted(reply, Ok(h))
            },
{
    let (wire, reply, answer) = choose|
        wire: Vec<u8>,
        reply: Result<Vec<u8>, String>,
        answer: Result<HttpResponse, ClientError>,
    |
        {
            &&& wire@ == bastion_client::pair_wire(
                endpoint.host@,
                "/deregister"@,
                user@,
                service@,
            )
            &&& #[trigger] exchange.ensures((&endpoint, &wire), reply)
            &&& #[trigger] bastion_client::posted(reply, answer)
            &&& match answer {
                Err(e) => r == Some(e),
                Ok(_) => r is None,
            }
        };
    assert(exchange.ensures((&endpoint, &wire), reply));
    if let Ok(h) = answer {
        assert(bastion_client::posted(reply, Ok(h)));
    }
}

/// Sessions are forgotten where the condition holds, and all others stay; both in their
/// order.
pub proof fn law_forgotten_where_it_holds<F: Fn(&Session) -> bool>(
    st: &mut State,
    pred: F,
    r: Vec<Session>,
)
    requires
        call_ensures(forget_sessions, (st, pred), r),
    ensures
        exists|flags: Seq<bool>|
            {
                &&& flags.len() == old(st).sessions@.len()
                &&& forall|i: int|
                    0 <= i < flags.len() ==> pred.ensures(
                        (&old(st).sessions@[i],),
                        #[trigger] flags[i],
                    )
                &&& r@ == #[trigger] state::flagged(old(st).sessions@, flags, true)
                &&& final(st).sessions@ == state::flagged(old(st).sessions@, flags, false)
            },
{
    let flags = choose|flags: Seq<bool>|
        {
            &&& flags.len() == old(st).sessions@.len()
            &&& forall|i: int|
                0 <= i < flags.len() ==> pred.ensures(
                    (&old(st).sessions@[i],),
                    #[trigger] flags[i],
                )
            &&& r@ == #[trigger] state::picked(old(st).sessions@, flags, true)
            &&& final(st).sessions@ == state::picked(old(st).sessions@, flags, false)
        };
    state::law_picked_by_its_flags(old(st).sessions@, flags, true);
    state::law_picked_by_its_flags(old(st).sessions@, flags, false);
    assert(r@ == state::flagged(old(st).sessions@, flags, true));
}

/// The header value that a command shows is the one that the bastion routes by.
pub proof fn law_header_value_is_the_routed_one(
    user: &str,
    service: &str,
    shown: String,
    routed: String,
)
    requires
        call_ensures(header_value, (user, service), shown),
        call_ensures(common::routing_header_value, (user, service), routed),
    ensures
        shown@ == routed@,
{
}

} // verus!
