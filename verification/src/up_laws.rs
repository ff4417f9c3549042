//! What a whole `up` does, told by its actions and what they gave.

use vstd::prelude::*;
use crate::commands;
use crate::commands::{ActiveSession, UpRequest};
use crate::config::Config;
use crate::ssm;
use crate::state::SessionView;
use crate::text;
use crate::up_flow;
use crate::up_flow::{FlowView, Stage, UpAction, UpEvent, UpFlow};

verus! {

/// An action and what it gave.
pub type Step = (UpAction, UpEvent);

/// Where the flow stands after these steps.
#[verifier::opaque]
pub open spec fn up_state(v: FlowView, done: Seq<Step>) -> FlowView
    decreases done.len(),
{
    if done.len() == 0 {
        v
    } else {
        up_state(v, done.drop_last()).after(done.last().1)
    }
}

/// The steps of a flow so far: each action was the one that was due, and gave what
/// such an action can give.
pub open spec fn up_trace(v: FlowView, done: Seq<Step>) -> bool
    decreases done.len(),
{
    done.len() == 0 || {
        let before = up_state(v, done.drop_last());
        &&& up_trace(v, done.drop_last())
        &&& up_flow::is_due(before, done.last().0)
        &&& before.can_take(done.last().1)
    }
}

/// A flow for the request has taken these steps, and `next` is due.
pub open spec fn up_goes(
    req: UpRequest,
    bastion: Seq<char>,
    done: Seq<Step>,
    next: UpAction,
) -> bool {
    let start = FlowView::start(req, bastion);
    up_trace(start, done) && up_flow::is_due(up_state(start, done), next)
}

/// One of the steps was such a one.
pub open spec fn happened(done: Seq<Step>, f: spec_fn(Step) -> bool) -> bool {
    exists|i: int| 0 <= i < done.len() && f(#[trigger] done[i])
}

/// The plugin was there.
pub open spec fn plugin_seen() -> spec_fn(Step) -> bool {
    |p: Step| p.0 is CheckPlugin && p.1 is Done
}

/// Nothing listened on the local port.
pub open spec fn port_free(port: u16) -> spec_fn(Step) -> bool {
    |p: Step| (p.0 matches UpAction::CheckPortFree { port: q } && q == port) && p.1 is Done
}

/// The bootstrap was run and succeeded.
pub open spec fn bootstrapped(command: Seq<char>) -> spec_fn(Step) -> bool {
    |p: Step|
        (p.0 matches UpAction::RunBootstrap { command: c } && c@ == command) && p.1 is Done
}

/// The bastion was looked for and found to be this instance.
pub open spec fn located(id: Seq<char>) -> spec_fn(Step) -> bool {
    |p: Step| p.0 is LocateBastion && (p.1 matches UpEvent::Instance(Some(i)) && i@ == id)
}

/// A port-forward to this port of the bastion was opened at this local port.
pub open spec fn opened(remote: u16, local: u16) -> spec_fn(Step) -> bool {
    |p: Step|
        (p.0 matches UpAction::OpenPortForward { spec } && spec.remote_port == remote) && p.1
            == UpEvent::Port(local)
}

/// The local port could be reached.
pub open spec fn reachable(port: u16) -> spec_fn(Step) -> bool {
    |p: Step| (p.0 matches UpAction::ReachPort { port: q, .. } && q == port) && p.1 is Done
}

/// The bastion answered the registration with this port.
pub open spec fn registered(port: u16) -> spec_fn(Step) -> bool {
    |p: Step| p.0 is Register && p.1 == UpEvent::Port(port)
}

/// These sessions were recorded.
pub open spec fn loaded(sessions: Seq<SessionView>) -> spec_fn(Step) -> bool {
    |p: Step| p.0 is LoadState && (p.1 matches UpEvent::Sessions(s) && s@ == sessions)
}

/// A forward from the local port to the port of the host was opened.
pub open spec fn forwarded(local: u16, host: Seq<char>, remote: u16) -> spec_fn(Step) -> bool {
    |p: Step|
        (p.0 matches UpAction::OpenRemoteForward { spec } && spec.local_port == local
            && spec.remote_host@ == host && spec.remote_port == remote) && p.1 is Done
}

/// The process was found alive.
pub open spec fn seen_alive(pid: u32) -> spec_fn(Step) -> bool {
    |p: Step| (p.0 matches UpAction::ProbePid { pid: q } && q == pid) && p.1 == UpEvent::Alive(true)
}

/// The service was spawned as this process.
pub open spec fn spawned(pid: u32) -> spec_fn(Step) -> bool {
    |p: Step| p.0 is SpawnService && p.1 == UpEvent::Pid(pid)
}

/// The service was healthy on this port.
pub open spec fn healthy(port: u16) -> spec_fn(Step) -> bool {
    |p: Step| (p.0 matches UpAction::AwaitHealth { port: q, .. } && q == port) && p.1 is Done
}

/// The reverse tunnel from the port of the bastion to the local one stood.
pub open spec fn tunnelled(local: u16, remote: u16) -> spec_fn(Step) -> bool {
    |p: Step|
        (p.0 matches UpAction::OpenReverse { local_port, remote_port, .. } && local_port == local
            && remote_port == remote) && p.1 is Done
}

/// The session was recorded.
pub open spec fn recorded() -> spec_fn(Step) -> bool {
    |p: Step| p.0 is RecordSession && p.1 is Done
}

/// An action did not give what it was for.
pub open spec fn is_bad(event: UpEvent) -> bool {
    ||| event is Failed
    ||| event == UpEvent::Instance(None)
    ||| event == UpEvent::Alive(false)
}

/// A session of the user has this local port forwarded.
pub open spec fn claims(s: SessionView, user: Seq<char>, port: u16) -> bool {
    s.user == user && exists|i: int|
        0 <= i < s.forward_local_ports.len() && #[trigger] s.forward_local_ports[i] == port
}

/// No session of the user has this local port forwarded.
pub open spec fn unclaimed(sessions: Seq<SessionView>, user: Seq<char>, port: u16) -> bool {
    forall|i: int| 0 <= i < sessions.len() ==> !claims(#[trigger] sessions[i], user, port)
}

/// A session of the user that has this local port forwarded has this process.
pub open spec fn claimed_by(
    sessions: Seq<SessionView>,
    user: Seq<char>,
    port: u16,
    pid: u32,
) -> bool {
    exists|i: int|
        0 <= i < sessions.len() && claims(#[trigger] sessions[i], user, port) && sessions[i].pid
            == Some(pid)
}

/// The forward is at hand: it was opened and could be reached, with no session of
/// the user claiming its port; or one that claims it has a process that was found
/// alive.
pub open spec fn at_hand(
    done: Seq<Step>,
    sessions: Seq<SessionView>,
    user: Seq<char>,
    forward: (u16, Seq<char>, u16),
) -> bool {
    ||| {
        &&& unclaimed(sessions, user, forward.0)
        &&& happened(done, forwarded(forward.0, forward.1, forward.2))
        &&& happened(done, reachable(forward.0))
    }
    ||| exists|pid: u32| #[trigger]
        claimed_by(sessions, user, forward.0, pid) && happened(done, seen_alive(pid))
}

/// The forward of the request at this place.
pub open spec fn forward_of(req: UpRequest, k: int) -> (u16, Seq<char>, u16) {
    ssm::forward_port(req.forward_ports@[k]@)->Ok_0
}

/// The local ports of the forwards that were opened, in their order.
pub open spec fn forwarded_ports(done: Seq<Step>) -> Seq<u16>
    decreases done.len(),
{
    if done.len() == 0 {
        seq![]
    } else {
        let rest = forwarded_ports(done.drop_last());
        match done.last() {
            (UpAction::OpenRemoteForward { spec }, UpEvent::Done) => rest.push(spec.local_port),
            _ => rest,
        }
    }
}

proof fn lemma_happened(done: Seq<Step>, p: Step)
    ensures
        forall|f: spec_fn(Step) -> bool| #[trigger]
            happened(done.push(p), f) <==> happened(done, f) || f(p),
{
    assert forall|f: spec_fn(Step) -> bool| #[trigger]
        happened(done.push(p), f) <==> happened(done, f) || f(p) by {
        let all = done.push(p);
        if happened(done, f) {
            let i = choose|i: int| 0 <= i < done.len() && f(#[trigger] done[i]);
            assert(f(all[i]));
        }
        if f(p) {
            assert(f(all[done.len() as int]));
        }
        if happened(all, f) {
            let i = choose|i: int| 0 <= i < all.len() && f(#[trigger] all[i]);
            if i < done.len() {
                assert(f(done[i]));
            }
        }
    }
}

/// The owner of a forward is a session that claims its port, and without an owner
/// there is none.
proof fn lemma_owner(sessions: Seq<SessionView>, user: Seq<char>, port: u16)
    ensures
        match crate::state::owner_of(sessions, user, port) {
            None => unclaimed(sessions, user, port),
            Some(s) => exists|i: int|
                0 <= i < sessions.len() && #[trigger] sessions[i] == s && claims(s, user, port),
        },
    decreases sessions.len(),
{
    if sessions.len() > 0 {
        let rest = sessions.drop_first();
        let first = sessions[0];
        if crate::state::owns(first, user, port) {
            let i = choose|i: int|
                0 <= i < first.forward_local_ports.len() && first.forward_local_ports[i] == port;
            assert(first.forward_local_ports[i] == port);
            assert(claims(first, user, port));
        } else {
            if claims(first, user, port) {
                let i = choose|i: int|
                    0 <= i < first.forward_local_ports.len()
                        && #[trigger] first.forward_local_ports[i] == port;
                assert(first.forward_local_ports.contains(port));
            }
            lemma_owner(rest, user, port);
            match crate::state::owner_of(rest, user, port) {
                None => {
                    assert forall|i: int| 0 <= i < sessions.len() implies !claims(
                        #[trigger] sessions[i],
                        user,
                        port,
                    ) by {
                        if i > 0 {
                            assert(sessions[i] == rest[i - 1]);
                        }
                    }
                },
                Some(s) => {
                    let i = choose|i: int| 0 <= i < rest.len() && #[trigger] rest[i] == s;
                    assert(sessions[i + 1] == s);
                },
            }
        }
    }
}

/// How far a stage is.
spec fn rank(stage: Stage) -> int {
    match stage {
        Stage::Plugin => 0,
        Stage::ServicePort => 1,
        Stage::Bootstrap => 2,
        Stage::Locate => 3,
        Stage::OpenControl => 4,
        Stage::ReachControl => 5,
        Stage::Register => 6,
        Stage::OpenSsh => 7,
        Stage::ReachSsh => 8,
        Stage::LoadState => 9,
        Stage::ProbeOwner | Stage::ForwardPort | Stage::OpenForward | Stage::ReachForward => 10,
        Stage::Spawn => 11,
        Stage::Health => 12,
        Stage::Reverse => 13,
        Stage::Record => 14,
        Stage::Done => 15,
        Stage::Failed => -1,
    }
}

spec fn leaves_bootstrap(v: FlowView, stage: Stage) -> bool {
    stage == (if v.req.local_service_port is Some || v.req.forward_ports@.len() > 0 {
        Stage::Locate
    } else {
        Stage::Spawn
    })
}

spec fn enters_bootstrap(v: FlowView, stage: Stage) -> bool {
    if v.req.bootstrap_command is Some {
        stage is Bootstrap
    } else {
        leaves_bootstrap(v, stage)
    }
}

/// What is due for the forward at hand.
spec fn settled(v: FlowView) -> bool {
    if v.forward >= v.req.forward_ports@.len() {
        v.stage is Spawn
    } else {
        &&& ssm::forward_port(v.raw_forward()) is Ok
        &&& match v.owner() {
            None => if v.req.local_service_port is None {
                v.stage is ForwardPort
            } else {
                v.stage is OpenForward
            },
            Some(s) => v.stage is ProbeOwner && s.pid is Some,
        }
    }
}

/// The flow goes on from `v` to `end`.
spec fn goes_on(v: FlowView, event: UpEvent, end: FlowView) -> bool {
    match v.stage {
        Stage::Plugin => event is Done && end == v.at(end.stage) && (
        if v.req.local_service_port is None {
            enters_bootstrap(v, end.stage)
        } else {
            end.stage is ServicePort
        }),
        Stage::ServicePort => event is Done && end == v.at(end.stage) && enters_bootstrap(
            v,
            end.stage,
        ),
        Stage::Bootstrap => event is Done && end == v.at(end.stage) && leaves_bootstrap(
            v,
            end.stage,
        ),
        Stage::Locate => event matches UpEvent::Instance(Some(id)) && end == (FlowView {
            instance_id: id@,
            ..v
        }).at(
            if v.req.local_service_port is None {
                Stage::LoadState
            } else {
                Stage::OpenControl
            },
        ),
        Stage::OpenControl => event matches UpEvent::Port(p) && end == (FlowView {
            control_port: p,
            ..v
        }).at(Stage::ReachControl),
        Stage::ReachControl => event is Done && end == v.at(Stage::Register),
        Stage::Register => event matches UpEvent::Port(p) && end == (FlowView {
            remote_port: p,
            ..v
        }).at(Stage::OpenSsh),
        Stage::OpenSsh => event matches UpEvent::Port(p) && end == (FlowView {
            ssh_port: p,
            ..v
        }).at(Stage::ReachSsh),
        Stage::ReachSsh => event is Done && end == v.at(Stage::LoadState),
        Stage::LoadState => event matches UpEvent::Sessions(s) && end == (FlowView {
            sessions: s@,
            forward: 0,
            ..v
        }).at(end.stage) && settled(end),
        Stage::ProbeOwner => event == UpEvent::Alive(true) && end == (FlowView {
            forward: v.forward + 1,
            ..v
        }).at(end.stage) && settled(end),
        Stage::ForwardPort => event is Done && end == v.at(Stage::OpenForward),
        Stage::OpenForward => event is Done && end == v.at(Stage::ReachForward),
        Stage::ReachForward => event is Done && end == (FlowView {
            forward: v.forward + 1,
            owned: v.owned.push(v.due().0),
            ..v
        }).at(end.stage) && settled(end),
        Stage::Spawn => event matches UpEvent::Pid(p) && end == (FlowView { pid: p, ..v }).at(
            if v.req.local_service_port is None {
                Stage::Record
            } else if v.req.health_check_path is Some {
                Stage::Health
            } else {
                Stage::Reverse
            },
        ),
        Stage::Health => event is Done && end == v.at(Stage::Reverse),
        Stage::Reverse => event is Done && end == v.at(Stage::Record),
        Stage::Record => event is Done && end == v.at(Stage::Done),
        Stage::Done | Stage::Failed => false,
    }
}

/// Why the forward at hand cannot be had: it cannot be read, or a session without
/// a process claims it.
pub open spec fn hopeless(req: UpRequest, sessions: Seq<SessionView>, k: int) -> bool {
    0 <= k < req.forward_ports@.len() && match ssm::forward_port(req.forward_ports@[k]@) {
        Err(_) => true,
        Ok((local, _, _)) => exists|i: int|
            {
                &&& 0 <= i < sessions.len()
                &&& claims(#[trigger] sessions[i], req.user@, local)
                &&& sessions[i].pid is None || sessions[i].pid == Some(0u32)
            },
    }
}

#[verifier::rlimit(60)]
#[verifier::spinoff_prover]
proof fn lemma_step(v: FlowView, event: UpEvent)
    requires
        v.coherent(),
        v.can_take(event),
    ensures
        v.after(event).coherent(),
        v.after(event).req == v.req,
        v.after(event).bastion == v.bastion,
        is_bad(event) ==> v.after(event).stage is Failed,
        v.after(event).stage !is Failed ==> goes_on(v, event, v.after(event)),
        v.after(event).stage is Failed && !is_bad(event) ==> exists|k: int| #[trigger]
            hopeless(v.req, v.after(event).sessions, k),
        v.after(event).stage is Failed && !is_bad(event) ==> v.stage is LoadState
            || v.stage is ProbeOwner || v.stage is ReachForward,
        v.stage !is LoadState ==> v.after(event).sessions == v.sessions,
        v.stage is LoadState && event is Sessions ==> v.after(event).sessions
            == event->Sessions_0@,
{
    let end = v.after(event);
    if end.stage is Failed && !is_bad(event) {
        let k = end.forward as int;
        match ssm::forward_port(v.req.forward_ports@[k]@) {
            Err(_) => {
                assert(hopeless(v.req, end.sessions, k));
            },
            Ok((local, _, _)) => {
                lemma_owner(end.sessions, v.req.user@, local);
                let s = crate::state::owner_of(end.sessions, v.req.user@, local)->0;
                let i = choose|i: int| 0 <= i < end.sessions.len() && #[trigger] end.sessions[i] == s;
                assert(claims(end.sessions[i], v.req.user@, local));
                assert(hopeless(v.req, end.sessions, k));
            },
        }
    }
}

/// The checks and the bootstrap that the stage relies on have come out well.
spec fn prepared(done: Seq<Step>, v: FlowView) -> bool {
    let n = rank(v.stage);
    let bastion = v.req.local_service_port is Some || v.req.forward_ports@.len() > 0;
    &&& bastion && n > 0 ==> happened(done, plugin_seen())
    &&& v.req.local_service_port matches Some(p) ==> (n > 1 ==> happened(done, port_free(p)))
    &&& v.req.bootstrap_command matches Some(c) ==> (n > 2 ==> happened(done, bootstrapped(c@)))
    &&& n <= 2 ==> forall|i: int|
        0 <= i < done.len() ==> (#[trigger] done[i]).0 is CheckPlugin || done[i].0 is CheckPortFree
    &&& v.stage is Locate ==> bastion
    &&& forall|i: int| 0 <= i < done.len() ==> !is_bad((#[trigger] done[i]).1)
    &&& !bastion ==> n == -1 || n == 2 || n == 11 || n >= 14
}

/// What the stage knows of the bastion came about.
spec fn connected(done: Seq<Step>, v: FlowView) -> bool {
    let n = rank(v.stage);
    let worker = v.req.local_service_port is None;
    &&& !worker || v.req.forward_ports@.len() > 0 ==> (n > 3 ==> happened(
        done,
        located(v.instance_id),
    ))
    &&& !worker && n > 4 ==> happened(done, opened(8443, v.control_port))
    &&& !worker && n > 5 ==> happened(done, reachable(v.control_port))
    &&& !worker && n > 6 ==> happened(done, registered(v.remote_port))
    &&& !worker && n > 7 ==> happened(done, opened(22, v.ssh_port))
    &&& !worker && n > 8 ==> happened(done, reachable(v.ssh_port))
    &&& worker ==> !(n == 1 || 4 <= n <= 8 || n == 12 || n == 13)
}

/// The forwards up to the one at hand are there.
spec fn forwards_stand(done: Seq<Step>, v: FlowView) -> bool {
    let n = rank(v.stage);
    let user = v.req.user@;
    &&& n > 9 && v.req.forward_ports@.len() > 0 ==> happened(done, loaded(v.sessions))
    &&& n > 9 ==> forall|k: int|
        0 <= k < v.forward ==> ssm::forward_port((#[trigger] v.req.forward_ports@[k])@) is Ok
            && at_hand(done, v.sessions, user, forward_of(v.req, k))
    &&& n >= 11 ==> v.forward == v.req.forward_ports@.len()
    &&& n <= 9 ==> v.owned.len() == 0 && v.forward == 0
    &&& forwarded_ports(done) == (if v.stage is ReachForward {
        v.owned.push(v.due().0)
    } else {
        v.owned
    })
    &&& v.stage is OpenForward || v.stage is ForwardPort || v.stage is ReachForward ==> unclaimed(
        v.sessions,
        user,
        v.due().0,
    )
    &&& v.stage is OpenForward && v.req.local_service_port is None ==> happened(
        done,
        port_free(v.due().0),
    )
    &&& v.stage is ForwardPort ==> v.req.local_service_port is None
    &&& v.stage is ReachForward ==> happened(
        done,
        forwarded(v.due().0, v.due().1, v.due().2),
    )
    &&& v.stage is ProbeOwner ==> v.owner() is Some && v.owner()->0.pid is Some && claimed_by(
        v.sessions,
        user,
        v.due().0,
        v.owner()->0.pid->0,
    )
}

/// What the stage knows of the service came about.
spec fn service_runs(done: Seq<Step>, v: FlowView) -> bool {
    let n = rank(v.stage);
    &&& n > 11 ==> happened(done, spawned(v.pid))
    &&& v.req.local_service_port matches Some(p) ==> {
        &&& n > 12 && v.req.health_check_path is Some ==> happened(done, healthy(p))
        &&& n > 13 ==> happened(done, tunnelled(p, v.remote_port))
    }
    &&& n > 14 ==> happened(done, recorded())
}

/// A port that is to be reached was opened by the step before.
spec fn just_opened(done: Seq<Step>, v: FlowView) -> bool {
    match v.stage {
        Stage::ReachControl => done.len() > 0 && opened(8443, v.control_port)(done.last()),
        Stage::ReachSsh => done.len() > 0 && opened(22, v.ssh_port)(done.last()),
        Stage::ReachForward => done.len() > 0 && forwarded(v.due().0, v.due().1, v.due().2)(
            done.last(),
        ),
        Stage::Register => done.len() > 1 && opened(8443, v.control_port)(done[done.len() - 2])
            && reachable(v.control_port)(done.last()),
        Stage::LoadState => v.req.local_service_port is Some ==> done.len() > 1 && opened(
            22,
            v.ssh_port,
        )(done[done.len() - 2]) && reachable(v.ssh_port)(done.last()),
        _ => true,
    }
}

/// The place of an action that comes at most once.
spec fn place(action: UpAction) -> int {
    match action {
        UpAction::CheckPlugin => 0,
        UpAction::RunBootstrap { .. } => 2,
        UpAction::LocateBastion { .. } => 3,
        UpAction::OpenPortForward { spec } => if spec.remote_port == 8443 {
            4
        } else {
            7
        },
        UpAction::Register { .. } => 6,
        UpAction::LoadState => 9,
        UpAction::SpawnService { .. } => 11,
        UpAction::AwaitHealth { .. } => 12,
        UpAction::OpenReverse { .. } => 13,
        UpAction::RecordSession { .. } => 14,
        _ => -2,
    }
}

/// What a step gave is what the flow knows.
spec fn agrees(p: Step, v: FlowView) -> bool {
    match p {
        (UpAction::LocateBastion { .. }, UpEvent::Instance(Some(id))) => id@ == v.instance_id,
        (UpAction::OpenPortForward { spec }, UpEvent::Port(port)) => port == (
        if spec.remote_port == 8443 {
            v.control_port
        } else {
            v.ssh_port
        }),
        (UpAction::Register { .. }, UpEvent::Port(port)) => port == v.remote_port,
        (UpAction::LoadState, UpEvent::Sessions(sessions)) => sessions@ == v.sessions,
        (UpAction::SpawnService { .. }, UpEvent::Pid(pid)) => pid == v.pid,
        _ => true,
    }
}

spec fn once(done: Seq<Step>, v: FlowView) -> bool {
    forall|i: int|
        0 <= i < done.len() ==> place((#[trigger] done[i]).0) < rank(v.stage) && agrees(done[i], v)
}

spec fn holds(done: Seq<Step>, v: FlowView) -> bool {
    v.stage is Failed || {
        &&& once(done, v)
        &&& just_opened(done, v)
        &&& prepared(done, v)
        &&& connected(done, v)
        &&& forwards_stand(done, v)
        &&& service_runs(done, v)
    }
}

#[verifier::rlimit(60)]
#[verifier::spinoff_prover]
proof fn lemma_prepared(done: Seq<Step>, v: FlowView, action: UpAction, event: UpEvent, end: FlowView)
    requires
        v.coherent(),
        prepared(done, v),
        up_flow::is_due(v, action),
        goes_on(v, event, end),
        !is_bad(event),
    ensures
        prepared(done.push((action, event)), end),
{
    lemma_happened(done, (action, event));
}

#[verifier::rlimit(60)]
#[verifier::spinoff_prover]
proof fn lemma_connected(
    done: Seq<Step>,
    v: FlowView,
    action: UpAction,
    event: UpEvent,
    end: FlowView,
)
    requires
        v.coherent(),
        prepared(done, v),
        connected(done, v),
        up_flow::is_due(v, action),
        goes_on(v, event, end),
    ensures
        connected(done.push((action, event)), end),
{
    lemma_happened(done, (action, event));
}

#[verifier::rlimit(60)]
#[verifier::spinoff_prover]
proof fn lemma_service_runs(
    done: Seq<Step>,
    v: FlowView,
    action: UpAction,
    event: UpEvent,
    end: FlowView,
)
    requires
        v.coherent(),
        connected(done, v),
        service_runs(done, v),
        up_flow::is_due(v, action),
        goes_on(v, event, end),
    ensures
        service_runs(done.push((action, event)), end),
{
    lemma_happened(done, (action, event));
}

#[verifier::rlimit(60)]
#[verifier::spinoff_prover]
proof fn lemma_just_opened(
    done: Seq<Step>,
    v: FlowView,
    action: UpAction,
    event: UpEvent,
    end: FlowView,
)
    requires
        v.coherent(),
        connected(done, v),
        just_opened(done, v),
        up_flow::is_due(v, action),
        goes_on(v, event, end),
    ensures
        just_opened(done.push((action, event)), end),
{
    let all = done.push((action, event));
    assert(all.last() == (action, event));
    if done.len() > 0 {
        assert(all[all.len() - 2] == done.last());
    }
}

#[verifier::rlimit(60)]
#[verifier::spinoff_prover]
proof fn lemma_once(
    done: Seq<Step>,
    v: FlowView,
    action: UpAction,
    event: UpEvent,
    end: FlowView,
)
    requires
        v.coherent(),
        connected(done, v),
        once(done, v),
        up_flow::is_due(v, action),
        goes_on(v, event, end),
    ensures
        once(done.push((action, event)), end),
{
    let all = done.push((action, event));
    assert(rank(v.stage) <= rank(end.stage));
    assert(place(action) < rank(end.stage) && agrees((action, event), end));
    assert forall|i: int| 0 <= i < all.len() implies place((#[trigger] all[i]).0) < rank(end.stage)
        && agrees(all[i], end) by {
        if i < done.len() {
            assert(all[i] == done[i]);
        }
    }
}

proof fn lemma_at_hand(
    done: Seq<Step>,
    p: Step,
    sessions: Seq<SessionView>,
    user: Seq<char>,
    forward: (u16, Seq<char>, u16),
)
    requires
        at_hand(done, sessions, user, forward),
    ensures
        at_hand(done.push(p), sessions, user, forward),
{
    lemma_happened(done, p);
}

#[verifier::rlimit(100)]
#[verifier::spinoff_prover]
proof fn lemma_forwards_stand(
    done: Seq<Step>,
    v: FlowView,
    action: UpAction,
    event: UpEvent,
    end: FlowView,
)
    requires
        v.coherent(),
        end.coherent(),
        prepared(done, v),
        forwards_stand(done, v),
        up_flow::is_due(v, action),
        goes_on(v, event, end),
    ensures
        forwards_stand(done.push((action, event)), end),
{
    let p = (action, event);
    let all = done.push(p);
    let user = v.req.user@;
    lemma_happened(done, p);
    assert(all.drop_last() =~= done);
    if rank(end.stage) > 9 {
        assert forall|k: int| 0 <= k < end.forward implies ssm::forward_port(
            (#[trigger] end.req.forward_ports@[k])@,
        ) is Ok && at_hand(all, end.sessions, user, forward_of(end.req, k)) by {
            if rank(v.stage) > 9 && k < v.forward {
                assert(ssm::forward_port(v.req.forward_ports@[k]@) is Ok);
                lemma_at_hand(done, p, v.sessions, user, forward_of(v.req, k));
            } else if v.stage is ReachForward {
                assert(forward_of(v.req, k) == v.due());
                assert(reachable(v.due().0)(p));
            } else if v.stage is ProbeOwner {
                assert(forward_of(v.req, k) == v.due());
                let pid = v.owner()->0.pid->0;
                assert(seen_alive(pid)(p));
                assert(claimed_by(v.sessions, user, v.due().0, pid));
            }
        }
    }
    if end.forward < end.req.forward_ports@.len() && ssm::forward_port(end.raw_forward()) is Ok {
        lemma_owner(end.sessions, user, end.due().0);
        if end.owner() is Some {
            let s = end.owner()->0;
            let i = choose|i: int| 0 <= i < end.sessions.len() && #[trigger] end.sessions[i] == s;
            if s.pid is Some {
                assert(claims(end.sessions[i], user, end.due().0));
                assert(claimed_by(end.sessions, user, end.due().0, s.pid->0));
            }
        }
    }
}

/// All that a flow knows came about in its steps.
proof fn lemma_holds(req: UpRequest, bastion: Seq<char>, done: Seq<Step>)
    requires
        up_trace(FlowView::start(req, bastion), done),
    ensures
        ({
            let v = up_state(FlowView::start(req, bastion), done);
            &&& v.req == req
            &&& v.bastion == bastion
            &&& v.coherent()
            &&& holds(done, v)
        }),
    decreases done.len(),
{
    let start = FlowView::start(req, bastion);
    if done.len() == 0 {
        reveal(up_state);
    } else {
        let before = done.drop_last();
        let (action, event) = done.last();
        let v = up_state(start, before);
        lemma_holds(req, bastion, before);
        assert(up_state(start, done) == v.after(event)) by {
            reveal(up_state);
        }
        assert(done =~= before.push((action, event)));
        lemma_step(v, event);
        let end = v.after(event);
        if end.stage !is Failed {
            lemma_prepared(before, v, action, event, end);
            lemma_connected(before, v, action, event, end);
            lemma_forwards_stand(before, v, action, event, end);
            lemma_service_runs(before, v, action, event, end);
            lemma_just_opened(before, v, action, event, end);
            lemma_once(before, v, action, event, end);
        }
    }
}

/// Every step of a run was taken when it was due.
proof fn lemma_prefix(req: UpRequest, bastion: Seq<char>, done: Seq<Step>, i: int)
    requires
        up_trace(FlowView::start(req, bastion), done),
        0 <= i < done.len(),
    ensures
        up_goes(req, bastion, done.take(i), done[i].0),
    decreases done.len(),
{
    if i == done.len() - 1 {
        assert(done.take(i) =~= done.drop_last());
    } else {
        lemma_prefix(req, bastion, done.drop_last(), i);
        assert(done.drop_last().take(i) =~= done.take(i));
    }
}

proof fn lemma_take(done: Seq<Step>, i: int, f: spec_fn(Step) -> bool)
    requires
        0 <= i <= done.len(),
        happened(done.take(i), f),
    ensures
        happened(done, f),
{
    let j = choose|j: int| 0 <= j < done.take(i).len() && f(#[trigger] done.take(i)[j]);
    assert(f(done[j]));
}

/// The reverse tunnel ends at the port of the request, which was found free, and
/// begins at the port that the bastion answered the registration with. It goes
/// through the forward to the SSH server that was opened and reached, and is opened
/// once the service was spawned and, where there is a path to ask, was healthy on
/// that very port.
pub proof fn law_reverse_tunnel_joins_both_ends(
    req: UpRequest,
    bastion: Seq<char>,
    done: Seq<Step>,
    next: UpAction,
)
    requires
        up_goes(req, bastion, done, next),
        next is OpenReverse,
    ensures
        next matches UpAction::OpenReverse { config, local_port, remote_port } && {
            &&& req.local_service_port == Some(local_port)
            &&& happened(done, port_free(local_port))
            &&& happened(done, registered(remote_port))
            &&& config.host@ == "127.0.0.1"@
            &&& happened(done, opened(22, config.port))
            &&& happened(done, reachable(config.port))
            &&& config.username@ == req.ssh_username@
            &&& config.keepalive_secs == req.ssh_keepalive_secs
            &&& config.auth is Agent
            &&& exists|pid: u32| #[trigger] happened(done, spawned(pid))
            &&& req.health_check_path is Some ==> happened(done, healthy(local_port))
        },
{
    lemma_holds(req, bastion, done);
    let v = up_state(FlowView::start(req, bastion), done);
    assert(happened(done, spawned(v.pid)));
}

/// The record names the user and the service of the request, the process that was
/// spawned and the forwards that were opened, in their order; and both ends of the
/// reverse tunnel that stood, or zero twice for a worker.
pub proof fn law_record_names_the_tunnel(
    req: UpRequest,
    bastion: Seq<char>,
    done: Seq<Step>,
    next: UpAction,
)
    requires
        up_goes(req, bastion, done, next),
        next is RecordSession,
    ensures
        next matches UpAction::RecordSession {
            user,
            service,
            local_port,
            remote_port,
            pid,
            forward_local_ports,
        } && {
            &&& user@ == req.user@
            &&& service@ == req.service@
            &&& happened(done, spawned(pid))
            &&& forward_local_ports@ == forwarded_ports(done)
            &&& match req.local_service_port {
                Some(port) => local_port == port && happened(done, tunnelled(port, remote_port))
                    && happened(done, registered(remote_port)),
                None => local_port == 0 && remote_port == 0,
            }
        },
{
    lemma_holds(req, bastion, done);
}

/// The flow comes to each of these actions at most once: the plugin check, the
/// bootstrap, the look for the bastion, each of the two port-forwards to it, the
/// registration, the loading of the sessions, the spawning, the wait for health, the
/// reverse tunnel and the record.
pub proof fn law_each_comes_once(
    req: UpRequest,
    bastion: Seq<char>,
    done: Seq<Step>,
    i: int,
    j: int,
)
    requires
        up_trace(FlowView::start(req, bastion), done),
        0 <= i < done.len(),
        0 <= j < done.len(),
        match (done[i].0, done[j].0) {
            (UpAction::CheckPlugin, UpAction::CheckPlugin) => true,
            (UpAction::RunBootstrap { .. }, UpAction::RunBootstrap { .. }) => true,
            (UpAction::LocateBastion { .. }, UpAction::LocateBastion { .. }) => true,
            (UpAction::OpenPortForward { spec: a }, UpAction::OpenPortForward { spec: b }) => {
                a.remote_port == b.remote_port
            },
            (UpAction::Register { .. }, UpAction::Register { .. }) => true,
            (UpAction::LoadState, UpAction::LoadState) => true,
            (UpAction::SpawnService { .. }, UpAction::SpawnService { .. }) => true,
            (UpAction::AwaitHealth { .. }, UpAction::AwaitHealth { .. }) => true,
            (UpAction::OpenReverse { .. }, UpAction::OpenReverse { .. }) => true,
            (UpAction::RecordSession { .. }, UpAction::RecordSession { .. }) => true,
            _ => false,
        },
    ensures
        i == j,
{
    lemma_prefix(req, bastion, done, i);
    lemma_prefix(req, bastion, done, j);
    lemma_holds(req, bastion, done.take(i));
    lemma_holds(req, bastion, done.take(j));
    if i < j {
        assert(done.take(j)[i] == done[i]);
    }
    if j < i {
        assert(done.take(i)[j] == done[j]);
    }
}

/// Over a whole run the port that is found free, the one that the reverse tunnel ends
/// at and the one that is recorded are the port of the request, and the tunnel begins
/// at the recorded port.
pub proof fn law_one_port_all_along(
    req: UpRequest,
    bastion: Seq<char>,
    done: Seq<Step>,
    i: int,
    j: int,
)
    requires
        up_trace(FlowView::start(req, bastion), done),
        0 <= i < done.len(),
        0 <= j < done.len(),
        done[i].0 is OpenReverse,
        done[j].0 is RecordSession,
    ensures
        Some(done[i].0->OpenReverse_local_port) == req.local_service_port,
        done[i].0->OpenReverse_local_port == done[j].0->RecordSession_local_port,
        done[i].0->OpenReverse_remote_port == done[j].0->RecordSession_remote_port,
        happened(done, port_free(done[i].0->OpenReverse_local_port)),
{
    lemma_prefix(req, bastion, done, i);
    lemma_prefix(req, bastion, done, j);
    law_reverse_tunnel_joins_both_ends(req, bastion, done.take(i), done[i].0);
    lemma_take(done, i, port_free(done[i].0->OpenReverse_local_port));
    law_record_names_the_tunnel(req, bastion, done.take(j), done[j].0);
    let port = done[j].0->RecordSession_local_port;
    let remote = done[j].0->RecordSession_remote_port;
    let f = tunnelled(port, remote);
    let k = choose|k: int| 0 <= k < done.take(j).len() && f(#[trigger] done.take(j)[k]);
    assert(done.take(j)[k] == done[k]);
    law_each_comes_once(req, bastion, done, i, k);
}

/// The service is spawned with its command, once everything before it was dealt with:
/// the bootstrap ran, the port was free, the pair was registered, and each forward of
/// the request can be read and is at hand.
pub proof fn law_spawned_behind_all_forwards(
    req: UpRequest,
    bastion: Seq<char>,
    done: Seq<Step>,
    next: UpAction,
)
    requires
        up_goes(req, bastion, done, next),
        next is SpawnService,
    ensures
        next->SpawnService_command@ == req.run_command@,
        req.bootstrap_command matches Some(c) ==> happened(done, bootstrapped(c@)),
        req.local_service_port matches Some(p) ==> happened(done, port_free(p)) && exists|q: u16|
            #[trigger] happened(done, registered(q)),
        req.forward_ports@.len() > 0 ==> exists|sessions: Seq<SessionView>|
            {
                &&& #[trigger] happened(done, loaded(sessions))
                &&& forall|k: int|
                    0 <= k < req.forward_ports@.len() ==> {
                        &&& ssm::forward_port((#[trigger] req.forward_ports@[k])@) is Ok
                        &&& at_hand(done, sessions, req.user@, forward_of(req, k))
                    }
            },
        up_state(FlowView::start(req, bastion), done).forward == req.forward_ports@.len(),
{
    lemma_holds(req, bastion, done);
    let v = up_state(FlowView::start(req, bastion), done);
    if req.local_service_port is Some {
        assert(happened(done, registered(v.remote_port)));
    }
    if req.forward_ports@.len() > 0 {
        assert(happened(done, loaded(v.sessions)));
    }
}

/// Every action that goes through AWS names the region of the request, and every
/// forward goes to the instance that was found by the name of the bastion.
pub proof fn law_up_addresses_the_bastion(
    req: UpRequest,
    bastion: Seq<char>,
    done: Seq<Step>,
    next: UpAction,
)
    requires
        up_goes(req, bastion, done, next),
    ensures
        match next {
            UpAction::LocateBastion { region, name } => region@ == req.region@ && name@ == bastion,
            UpAction::OpenPortForward { spec } => {
                &&& spec.region@ == req.region@
                &&& happened(done, located(spec.target@))
                &&& req.local_service_port is Some
                &&& spec.remote_port == (if exists|q: u16| #[trigger] happened(done, registered(q)) {
                    22u16
                } else {
                    8443u16
                })
            },
            UpAction::OpenRemoteForward { spec } => {
                &&& spec.region@ == req.region@
                &&& happened(done, located(spec.target@))
            },
            UpAction::Register { endpoint, request } => {
                &&& endpoint.host@ == "127.0.0.1"@
                &&& happened(done, opened(8443, endpoint.port))
                &&& happened(done, reachable(endpoint.port))
                &&& request.user@ == req.user@
                &&& request.service@ == req.service@
            },
            _ => true,
        },
{
    lemma_holds(req, bastion, done);
    let v = up_state(FlowView::start(req, bastion), done);
    match next {
        UpAction::OpenPortForward { spec } => {
            if v.stage is OpenSsh {
                assert(happened(done, registered(v.remote_port)));
            } else if exists|q: u16| #[trigger] happened(done, registered(q)) {
                let q = choose|q: u16| #[trigger] happened(done, registered(q));
                let f = registered(q);
                let k = choose|k: int| 0 <= k < done.len() && f(#[trigger] done[k]);
                assert(place(done[k].0) < rank(v.stage));
            }
        },
        _ => {},
    }
}

/// It is the turn of the forward at this place: all before it are at hand, and the
/// action is for it.
pub open spec fn is_turn_of(
    req: UpRequest,
    done: Seq<Step>,
    sessions: Seq<SessionView>,
    k: int,
    action: UpAction,
) -> bool {
    &&& happened(done, loaded(sessions))
    &&& 0 <= k < req.forward_ports@.len()
    &&& ssm::forward_port(req.forward_ports@[k]@) is Ok
    &&& forall|j: int|
        0 <= j < k ==> {
            &&& ssm::forward_port((#[trigger] req.forward_ports@[j])@) is Ok
            &&& at_hand(done, sessions, req.user@, forward_of(req, j))
        }
    &&& match action {
        UpAction::OpenRemoteForward { spec } => {
            &&& forward_of(req, k) == (spec.local_port, spec.remote_host@, spec.remote_port)
            &&& unclaimed(sessions, req.user@, spec.local_port)
            &&& req.local_service_port is None ==> happened(done, port_free(spec.local_port))
        },
        UpAction::CheckPortFree { port } => {
            &&& forward_of(req, k).0 == port
            &&& unclaimed(sessions, req.user@, port)
            &&& req.local_service_port is None
        },
        UpAction::ProbePid { pid } => {
            &&& pid != 0
            &&& claimed_by(sessions, req.user@, forward_of(req, k).0, pid)
        },
        _ => false,
    }
}

/// What the flow does for its forwards: it looks at them in their order, and at one
/// only once all before it are at hand. It opens one that no recorded session of the
/// user claims, for a worker once its local port was found free; it looks for the
/// process of a session that claims one, if that session has any.
pub proof fn law_forwards_in_their_order(
    req: UpRequest,
    bastion: Seq<char>,
    done: Seq<Step>,
    next: UpAction,
)
    requires
        up_goes(req, bastion, done, next),
        next is OpenRemoteForward || next is ProbePid || (next is CheckPortFree && exists|
            sessions: Seq<SessionView>,
        | #[trigger]
            happened(done, loaded(sessions))),
    ensures
        exists|sessions: Seq<SessionView>, k: int| #[trigger]
            is_turn_of(req, done, sessions, k, next),
{
    lemma_holds(req, bastion, done);
    let v = up_state(FlowView::start(req, bastion), done);
    if v.stage is ServicePort {
        let sessions = choose|sessions: Seq<SessionView>| #[trigger]
            happened(done, loaded(sessions));
        let f = loaded(sessions);
        let i = choose|i: int| 0 <= i < done.len() && f(#[trigger] done[i]);
        assert(place(done[i].0) < rank(v.stage));
    }
    let k = v.forward as int;
    assert(happened(done, loaded(v.sessions)));
    assert(forward_of(req, k) == v.due());
    assert(is_turn_of(req, done, v.sessions, k, next));
}

/// What comes of an action decides the next: a failure ends the flow, and so does a
/// bastion that is not there or a process that is gone; else the flow goes on to the
/// one action that has to follow.
#[verifier::rlimit(60)]
#[verifier::spinoff_prover]
pub proof fn law_up_what_follows(
    req: UpRequest,
    bastion: Seq<char>,
    done: Seq<Step>,
    last: Step,
    next: UpAction,
)
    requires
        up_goes(req, bastion, done.push(last), next),
    ensures
        is_bad(last.1) ==> next is Abort,
        !is_bad(last.1) ==> match last.0 {
            UpAction::CheckPlugin => match req.local_service_port {
                Some(p) => next == (UpAction::CheckPortFree { port: p }),
                None => if req.bootstrap_command is Some {
                    next is RunBootstrap
                } else {
                    next is LocateBastion
                },
            },
            UpAction::CheckPortFree { port } => if exists|id: Seq<char>| #[trigger]
                happened(done, located(id)) {
                next matches UpAction::OpenRemoteForward { spec } && spec.local_port == port
            } else if req.bootstrap_command is Some {
                next is RunBootstrap
            } else {
                next is LocateBastion
            },
            UpAction::RunBootstrap { .. } => if req.local_service_port is Some
                || req.forward_ports@.len() > 0 {
                next is LocateBastion
            } else {
                next is SpawnService
            },
            UpAction::LocateBastion { .. } => if req.local_service_port is Some {
                next matches UpAction::OpenPortForward { spec } && spec.remote_port == 8443
            } else {
                next is LoadState
            },
            UpAction::OpenPortForward { .. } => next == (UpAction::ReachPort {
                port: last.1->Port_0,
                timeout_secs: 15,
            }),
            UpAction::OpenRemoteForward { spec } => next == (UpAction::ReachPort {
                port: spec.local_port,
                timeout_secs: 15,
            }),
            UpAction::ReachPort { port, .. } => done.len() > 0 && match done.last().0 {
                UpAction::OpenPortForward { spec } => if spec.remote_port == 8443 {
                    next matches UpAction::Register { endpoint, .. } && endpoint.port == port
                } else {
                    next is LoadState
                },
                _ => next is CheckPortFree || next is ProbePid || next is OpenRemoteForward
                    || next is SpawnService || next is Abort,
            },
            UpAction::Register { .. } => next matches UpAction::OpenPortForward { spec }
                && spec.remote_port == 22,
            UpAction::LoadState | UpAction::ProbePid { .. } => next is CheckPortFree
                || next is ProbePid || next is OpenRemoteForward || next is SpawnService
                || next is Abort,
            UpAction::SpawnService { .. } => match (
                req.local_service_port,
                req.health_check_path,
            ) {
                (None, _) => next matches UpAction::RecordSession { pid, .. } && last.1
                    == UpEvent::Pid(pid),
                (Some(_), Some(_)) => next is AwaitHealth,
                (Some(_), None) => next is OpenReverse,
            },
            UpAction::AwaitHealth { .. } => next is OpenReverse,
            UpAction::OpenReverse { .. } => next is RecordSession,
            UpAction::RecordSession { .. } => next is Finish,
            UpAction::Finish | UpAction::Abort { .. } => false,
        },
{
    let start = FlowView::start(req, bastion);
    let all = done.push(last);
    assert(all.drop_last() =~= done);
    assert(all.last() == last);
    let v = up_state(start, done);
    lemma_holds(req, bastion, done);
    lemma_holds(req, bastion, all);
    assert(up_state(start, all) == v.after(last.1)) by {
        reveal(up_state);
    }
    lemma_step(v, last.1);
    if last.0 is CheckPortFree {
        if v.stage is ForwardPort {
            assert(happened(done, located(v.instance_id)));
        } else if exists|id: Seq<char>| #[trigger] happened(done, located(id)) {
            let id = choose|id: Seq<char>| #[trigger] happened(done, located(id));
            let f = located(id);
            let i = choose|i: int| 0 <= i < done.len() && f(#[trigger] done[i]);
            assert(place(done[i].0) < rank(v.stage));
        }
    }
}

/// A run begins with the check for the plugin; without a port and without forwards
/// it needs nothing of the bastion, and begins with the bootstrap or the service.
pub proof fn law_up_begins(req: UpRequest, bastion: Seq<char>, next: UpAction)
    requires
        up_goes(req, bastion, seq![], next),
    ensures
        if req.local_service_port is Some || req.forward_ports@.len() > 0 {
            next is CheckPlugin
        } else if req.bootstrap_command is Some {
            next is RunBootstrap
        } else {
            next is SpawnService
        },
{
    reveal(up_state);
}

/// The flow is given up for one of three reasons only: its last action did not give
/// what it was for, a forward cannot be read, or a session without a process claims
/// one.
pub proof fn law_up_is_given_up_for_a_reason(
    req: UpRequest,
    bastion: Seq<char>,
    done: Seq<Step>,
    next: UpAction,
)
    requires
        up_goes(req, bastion, done, next),
        next is Abort,
    ensures
        done.len() > 0,
        is_bad(done.last().1) || exists|sessions: Seq<SessionView>, k: int|
            happened(done, #[trigger] loaded(sessions)) && #[trigger] hopeless(req, sessions, k),
{
    let start = FlowView::start(req, bastion);
    lemma_holds(req, bastion, done);
    if done.len() == 0 {
        reveal(up_state);
    } else {
        let before = done.drop_last();
        let (action, event) = done.last();
        let v = up_state(start, before);
        lemma_holds(req, bastion, before);
        assert(up_state(start, done) == v.after(event)) by {
            reveal(up_state);
        }
        assert(done =~= before.push((action, event)));
        lemma_step(v, event);
        lemma_happened(before, (action, event));
        if !is_bad(event) {
            let end = v.after(event);
            let k = choose|k: int| #[trigger] hopeless(req, end.sessions, k);
            assert(happened(done, loaded(end.sessions)));
            assert(hopeless(req, end.sessions, k));
        }
    }
}

/// The bootstrap runs its command before anything but the plugin and the port was
/// looked at.
pub proof fn law_bootstrap_before_the_bastion(
    req: UpRequest,
    bastion: Seq<char>,
    done: Seq<Step>,
    next: UpAction,
)
    requires
        up_goes(req, bastion, done, next),
        next is RunBootstrap,
    ensures
        req.bootstrap_command matches Some(c) && c@ == next->RunBootstrap_command@,
        forall|i: int|
            0 <= i < done.len() ==> (#[trigger] done[i]).0 is CheckPlugin
                || done[i].0 is CheckPortFree,
{
    lemma_holds(req, bastion, done);
}

/// The health of the service is asked for on the port and the path of the request,
/// for as long as the request says, four times a second, once the service was
/// spawned.
pub proof fn law_health_is_asked_of_the_service(
    req: UpRequest,
    bastion: Seq<char>,
    done: Seq<Step>,
    next: UpAction,
)
    requires
        up_goes(req, bastion, done, next),
        next is AwaitHealth,
    ensures
        next matches UpAction::AwaitHealth { port, path, timeout_ms, poll_interval_ms } && {
            &&& req.local_service_port == Some(port)
            &&& req.health_check_path matches Some(p) && p@ == path@
            &&& timeout_ms == req.health_timeout_ms
            &&& poll_interval_ms == 250
            &&& exists|pid: u32| #[trigger] happened(done, spawned(pid))
        },
{
    lemma_holds(req, bastion, done);
    let v = up_state(FlowView::start(req, bastion), done);
    assert(happened(done, spawned(v.pid)));
}

/// A worker asks for nothing that only routing needs, and without forwards for
/// nothing of the bastion at all.
pub proof fn law_worker_asks_for_no_routing(
    req: UpRequest,
    bastion: Seq<char>,
    done: Seq<Step>,
    next: UpAction,
)
    requires
        up_goes(req, bastion, done, next),
        req.local_service_port is None,
    ensures
        !(next is OpenPortForward || next is Register || next is AwaitHealth
            || next is OpenReverse),
        req.forward_ports@.len() == 0 ==> next is RunBootstrap || next is SpawnService
            || next is RecordSession || next is Finish || next is Abort,
{
    lemma_holds(req, bastion, done);
}

/// The flow is done only once the session was recorded, and nothing went wrong on the
/// way.
pub proof fn law_up_finishes_recorded(
    req: UpRequest,
    bastion: Seq<char>,
    done: Seq<Step>,
    next: UpAction,
)
    requires
        up_goes(req, bastion, done, next),
        next is Finish,
    ensures
        happened(done, recorded()),
        exists|pid: u32| #[trigger] happened(done, spawned(pid)),
        forall|i: int| 0 <= i < done.len() ==> !is_bad((#[trigger] done[i]).1),
{
    lemma_holds(req, bastion, done);
    let v = up_state(FlowView::start(req, bastion), done);
    assert(happened(done, spawned(v.pid)));
}

/// The session that is handed out when the flow is done is the one that was
/// recorded: its ports are those of the reverse tunnel, its process is the one that
/// was spawned, and its control plane is the forward that the pair was registered
/// through.
pub proof fn law_active_session_is_the_recorded_one(
    req: UpRequest,
    bastion: Seq<char>,
    done: Seq<Step>,
    flow: UpFlow,
    r: ActiveSession,
)
    requires
        up_goes(req, bastion, done, UpAction::Finish),
        flow@ == up_state(FlowView::start(req, bastion), done),
        call_ensures(UpFlow::session, (flow,), r),
    ensures
        r.user@ == req.user@,
        r.service@ == req.service@,
        happened(done, spawned(r.pid)),
        r.local_port == req.local_service_port,
        match req.local_service_port {
            Some(port) => {
                &&& r.remote_port matches Some(q) && happened(done, tunnelled(port, q)) && happened(
                    done,
                    registered(q),
                )
                &&& r.cp_endpoint matches Some(e) && e.host@ == "127.0.0.1"@ && happened(
                    done,
                    opened(8443, e.port),
                )
            },
            None => r.remote_port is None && r.cp_endpoint is None,
        },
{
    lemma_holds(req, bastion, done);
}

/// What each action can give: whether it was done, an instance, a port, the sessions,
/// whether a process is there, or a process; and nothing once the flow is over.
pub proof fn law_up_takes_what_the_action_gives(v: FlowView, action: UpAction, event: UpEvent)
    requires
        v.coherent(),
        up_flow::is_due(v, action),
    ensures
        v.can_take(event) <==> match action {
            UpAction::LocateBastion { .. } => event is Instance || event is Failed,
            UpAction::OpenPortForward { .. } | UpAction::Register { .. } => event is Port
                || event is Failed,
            UpAction::LoadState => event is Sessions || event is Failed,
            UpAction::ProbePid { .. } => event is Alive,
            UpAction::SpawnService { .. } => event is Pid || event is Failed,
            UpAction::Finish | UpAction::Abort { .. } => false,
            _ => event is Done || event is Failed,
        },
{
}

/// What is told of a flow that is given up: the cause as it came, where the look for the
/// bastion, the loading, the spawning, the tunnel or the record failed; else what it was
/// that failed, with the service or the forward that it was for.
#[verifier::rlimit(60)]
#[verifier::spinoff_prover]
pub proof fn law_up_tells_what_failed(
    req: UpRequest,
    bastion: Seq<char>,
    done: Seq<Step>,
    last: Step,
    cause: String,
    next: UpAction,
)
    requires
        up_goes(req, bastion, done.push(last), next),
        last.1 == UpEvent::Failed(cause),
    ensures
        next matches UpAction::Abort { message } && match last.0 {
            UpAction::LocateBastion { .. }
            | UpAction::LoadState
            | UpAction::SpawnService { .. }
            | UpAction::OpenReverse { .. }
            | UpAction::RecordSession { .. } => message@ == cause@,
            UpAction::OpenPortForward { spec } => if spec.remote_port == 8443 {
                message@ == "opening SSM port-forward to bastion control plane"@
            } else {
                message@ == "opening SSM port-forward to bastion SSH"@
            },
            UpAction::Register { .. } => message@ == "registering with bastion control plane"@,
            UpAction::RunBootstrap { .. } => message@ == "bootstrap_command"@,
            UpAction::CheckPlugin => message@ == "session-manager-plugin pre-flight"@,
            UpAction::CheckPortFree { port } => {
                ||| req.local_service_port == Some(port) && message@ == "local port for service "@
                    + text::quoted(req.service@)
                ||| exists|k: int|
                    {
                        &&& 0 <= k < req.forward_ports@.len()
                        &&& forward_of(req, k).0 == port
                        &&& message@ == "forward "@ + (#[trigger] req.forward_ports@[k])@
                            + ": local port in use by an unknown process (no sibling ephemwork session owns it)"@
                    }
            },
            UpAction::ReachPort { port, .. } => {
                ||| happened(done, opened(8443, port)) && message@
                    == "control-plane SSM port-forward never became reachable"@
                ||| happened(done, opened(22, port)) && message@
                    == "SSH SSM port-forward never became reachable"@
                ||| exists|k: int|
                    {
                        &&& 0 <= k < req.forward_ports@.len()
                        &&& forward_of(req, k).0 == port
                        &&& message@ == "forward "@ + (#[trigger] req.forward_ports@[k])@
                            + " never became reachable"@
                    }
            },
            UpAction::OpenRemoteForward { spec } => exists|k: int|
                {
                    &&& 0 <= k < req.forward_ports@.len()
                    &&& message@ == "opening forward "@ + (#[trigger] req.forward_ports@[k])@
                    &&& forward_of(req, k).0 == spec.local_port
                },
            UpAction::AwaitHealth { path, timeout_ms, .. } => message@ == "service "@
                + text::quoted(req.service@) + " never returned 2xx on "@ + path@ + " within "@
                + text::duration_text(timeout_ms),
            _ => true,
        },
{
    let start = FlowView::start(req, bastion);
    let all = done.push(last);
    assert(all.drop_last() =~= done);
    assert(all.last() == last);
    let v = up_state(start, done);
    lemma_holds(req, bastion, done);
    assert(up_state(start, all) == v.after(last.1)) by {
        reveal(up_state);
    }
    if v.stage is OpenForward || v.stage is ForwardPort || v.stage is ReachForward {
        let k = v.forward as int;
        assert(forward_of(req, k) == v.due());
        assert(req.forward_ports@[k]@ == v.raw_forward());
    }
}

/// Where there is no bastion, the name that was looked for is told.
pub proof fn law_up_tells_which_bastion_is_missing(
    req: UpRequest,
    bastion: Seq<char>,
    done: Seq<Step>,
    action: UpAction,
    next: UpAction,
)
    requires
        up_goes(req, bastion, done.push((action, UpEvent::Instance(None))), next),
    ensures
        action is LocateBastion,
        next matches UpAction::Abort { message } && message@
            == "no bastion found (no instance tagged Name="@ + bastion
            + "). Run `ephemwork bastion init --live ...` to provision one."@,
{
    let start = FlowView::start(req, bastion);
    let last = (action, UpEvent::Instance(None));
    let all = done.push(last);
    assert(all.drop_last() =~= done);
    assert(all.last() == last);
    lemma_holds(req, bastion, done);
    assert(up_state(start, all) == up_state(start, done).after(last.1)) by {
        reveal(up_state);
    }
}

/// From the configuration to the actions: a flow for a request that was drawn from it runs
/// the command of the service, asks for its health on its port and path for a minute, ends
/// the tunnel at its port as `ec2-user`, and looks for the bastion in the region of the
/// tunnel.
pub proof fn law_up_does_what_is_configured(
    cfg: Config,
    service: &str,
    user: &str,
    req: UpRequest,
    bastion: Seq<char>,
    done: Seq<Step>,
    next: UpAction,
)
    requires
        call_ensures(UpRequest::from_config, (&cfg, service, user), Ok(req)),
        up_goes(req, bastion, done, next),
    ensures
        exists|at: int|
            {
                let svc = cfg.service@[at].1;
                &&& 0 <= at < cfg.service@.len()
                &&& (#[trigger] cfg.service@[at]).0@ == service@
                &&& match next {
                    UpAction::SpawnService { command } => command@ == svc.run_command@,
                    UpAction::AwaitHealth { port, path, timeout_ms, .. } => svc.port == Some(port)
                        && (svc.health_check_path matches Some(p) && p@ == path@) && timeout_ms
                        == 60000,
                    UpAction::OpenReverse { config, local_port, .. } => svc.port == Some(local_port)
                        && config.username@ == "ec2-user"@ && config.keepalive_secs == 30,
                    UpAction::LocateBastion { region, name } => region@ == cfg.tunnel.region@
                        && name@ == bastion,
                    UpAction::OpenPortForward { spec } => spec.region@ == cfg.tunnel.region@,
                    UpAction::OpenRemoteForward { spec } => spec.region@ == cfg.tunnel.region@,
                    UpAction::RunBootstrap { command } => svc.bootstrap_command matches Some(c)
                        && c@ == command@,
                    UpAction::Register { request, .. } => request.user@ == user@
                        && request.service@ == service@,
                    UpAction::RecordSession { user: u, service: s, .. } => u@ == user@ && s@
                        == service@,
                    _ => true,
                }
            },
{
    commands::law_request_is_what_is_configured(cfg, service, user, Ok(req));
    lemma_holds(req, bastion, done);
}

} // verus!
