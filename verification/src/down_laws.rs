//! What a whole `down` does, told by its actions and what they gave.

use vstd::prelude::*;
use crate::commands;
use crate::down_flow;
use crate::down_flow::{DownAction, DownEvent, DownFlow, DownStage, DownView};
use crate::state;
use crate::state::{Session, SessionView};

verus! {

/// An action and what it gave.
pub type DownStep = (DownAction, DownEvent);

/// What a flow is started with.
pub struct DownInput {
    pub user: Seq<char>,
    pub service: Option<Seq<char>>,
    pub region: Seq<char>,
    pub bastion: Seq<char>,
    pub sessions: Seq<SessionView>,
}

impl DownInput {
    pub open spec fn start(self) -> DownView {
        DownView::start(self.user, self.service, self.region, self.bastion, self.sessions)
    }
}

/// Where the flow stands after these steps.
#[verifier::opaque]
pub open spec fn down_state(v: DownView, done: Seq<DownStep>) -> DownView
    decreases done.len(),
{
    if done.len() == 0 {
        v
    } else {
        down_state(v, done.drop_last()).after(done.last().1)
    }
}

/// The steps of a flow so far: each action was the one that was due, and gave what
/// such an action can give.
pub open spec fn down_trace(v: DownView, done: Seq<DownStep>) -> bool
    decreases done.len(),
{
    done.len() == 0 || {
        let before = down_state(v, done.drop_last());
        &&& down_trace(v, done.drop_last())
        &&& down_flow::is_down_due(before, done.last().0)
        &&& before.can_take(done.last().1)
    }
}

/// A flow that was started so has taken these steps, and `next` is due.
pub open spec fn down_goes(input: DownInput, done: Seq<DownStep>, next: DownAction) -> bool {
    down_trace(input.start(), done) && down_flow::is_down_due(
        down_state(input.start(), done),
        next,
    )
}

/// The session is the user's and, where a service is named, of that service.
pub open spec fn theirs(user: Seq<char>, service: Option<Seq<char>>) -> spec_fn(
    SessionView,
) -> bool {
    |s: SessionView| s.user == user && (service is None || service == Some(s.service))
}

/// The session is another user's, or of another service than the one named.
pub open spec fn not_theirs(user: Seq<char>, service: Option<Seq<char>>) -> spec_fn(
    SessionView,
) -> bool {
    |s: SessionView| s.user != user || (service is Some && service != Some(s.service))
}

/// How many sessions the control plane was told of.
pub open spec fn told(done: Seq<DownStep>) -> nat
    decreases done.len(),
{
    if done.len() == 0 {
        0
    } else {
        told(done.drop_last()) + if done.last().0 is Deregister {
            1nat
        } else {
            0nat
        }
    }
}

/// A port-forward to the control plane was opened at this local port, and the port
/// could be reached.
pub open spec fn control_reached(done: Seq<DownStep>, port: u16) -> bool {
    exists|i: int|
        {
            &&& 0 <= i < done.len() - 1
            &&& (#[trigger] done[i]).0 is OpenPortForward
            &&& done[i].1 == DownEvent::Port(port)
            &&& done[i + 1].0 matches DownAction::ReachPort { port: p, .. } && p == port
            &&& done[i + 1].1 is Done
        }
}

/// The sessions that `down` takes out are the user's, of the service where one is
/// named; it leaves all others. Both keep their order.
pub proof fn law_down_parts_the_sessions(
    sessions: Seq<SessionView>,
    user: Seq<char>,
    service: Option<Seq<char>>,
)
    ensures
        state::kept(sessions, commands::targeted(user, service)) == sessions.filter(
            theirs(user, service),
        ),
        state::kept(sessions, commands::untargeted(user, service)) == sessions.filter(
            not_theirs(user, service),
        ),
    decreases sessions.len(),
{
    reveal(Seq::filter);
    if sessions.len() > 0 {
        law_down_parts_the_sessions(sessions.drop_last(), user, service);
    }
}

/// All that the flow knows came about in its steps.
spec fn stands(input: DownInput, done: Seq<DownStep>, v: DownView) -> bool {
    let theirs = theirs(input.user, input.service);
    let others = not_theirs(input.user, input.service);
    &&& v.coherent()
    &&& v.user == input.user
    &&& v.service == input.service
    &&& v.region == input.region
    &&& v.bastion == input.bastion
    &&& v.targets == input.sessions.filter(theirs)
    &&& match v.stage {
        DownStage::Plugin => done.len() == 0 && told(done) == 0,
        DownStage::Locate => told(done) == 0,
        DownStage::OpenControl => told(done) == 0 && done.len() > 0 && done.last().0
            is LocateBastion && (done.last().1 matches DownEvent::Instance(Some(id)) && id@
            == v.instance_id),
        DownStage::ReachControl => told(done) == 0 && done.len() > 0 && done.last().0
            is OpenPortForward && done.last().1 == DownEvent::Port(v.control_port),
        DownStage::Deregister => told(done) == v.next && control_reached(done, v.control_port),
        DownStage::LoadState => true,
        DownStage::SaveState => done.len() > 0 && done.last().0 is LoadState && (done.last().1
            matches DownEvent::Sessions(s) && v.left == s@.filter(others) && v.removed
            == s@.filter(theirs)),
        DownStage::Done => {
            ||| done.len() == 0 && v.targets.len() == 0 && v.removed.len() == 0
            ||| {
                &&& done.len() > 1
                &&& done.last().0 matches DownAction::SaveState { state }
                &&& done.last().1 is Done
                &&& done[done.len() - 2].0 is LoadState
                &&& done[done.len() - 2].1 matches DownEvent::Sessions(s)
                &&& state@ == s@.filter(others)
                &&& v.removed == s@.filter(theirs)
            }
        },
        DownStage::Failed => done.len() > 0 && (done.last().0 is LoadState || done.last().0
            is SaveState) && (done.last().1 matches DownEvent::Failed(cause) && cause@ == v.error),
    }
}

proof fn lemma_stands_step(
    input: DownInput,
    done: Seq<DownStep>,
    v: DownView,
    action: DownAction,
    event: DownEvent,
)
    requires
        stands(input, done, v),
        down_flow::is_down_due(v, action),
        v.can_take(event),
    ensures
        stands(input, done.push((action, event)), v.after(event)),
{
    let all = done.push((action, event));
    assert(all.drop_last() =~= done);
    assert(all.last() == (action, event));
    if done.len() > 0 {
        assert(all[all.len() - 2] == done.last());
    }
    if event is Sessions {
        law_down_parts_the_sessions(event->Sessions_0@, input.user, input.service);
    }
    if v.stage is ReachControl && event is Done {
        let i = done.len() - 1;
        assert(all[i] == done[i]);
        assert(control_reached(all, v.control_port));
    }
    if v.stage is Deregister {
        let port = v.control_port;
        let i = choose|i: int|
            {
                &&& 0 <= i < done.len() - 1
                &&& (#[trigger] done[i]).0 is OpenPortForward
                &&& done[i].1 == DownEvent::Port(port)
                &&& done[i + 1].0 matches DownAction::ReachPort { port: p, .. } && p == port
                &&& done[i + 1].1 is Done
            };
        assert(all[i] == done[i]);
        assert(all[i + 1] == done[i + 1]);
        assert(control_reached(all, port));
    }
}

proof fn lemma_stands(input: DownInput, done: Seq<DownStep>)
    requires
        down_trace(input.start(), done),
    ensures
        stands(input, done, down_state(input.start(), done)),
    decreases done.len(),
{
    reveal(down_state);
    if done.len() == 0 {
        law_down_parts_the_sessions(input.sessions, input.user, input.service);
    } else {
        let before = done.drop_last();
        lemma_stands(input, before);
        assert(done =~= before.push(done.last()));
        lemma_stands_step(
            input,
            before,
            down_state(input.start(), before),
            done.last().0,
            done.last().1,
        );
    }
}

/// Every action that goes through AWS names the region that the flow was started
/// with. The bastion is looked for by its name, the port-forward goes to the control
/// plane of the instance that was just found, and the port that is waited for is the
/// one that was just opened. The control plane is told, through the port that was
/// opened and reached, of the user's sessions in their order.
pub proof fn law_down_addresses_the_bastion(
    input: DownInput,
    done: Seq<DownStep>,
    next: DownAction,
)
    requires
        down_goes(input, done, next),
    ensures
        match next {
            DownAction::LocateBastion { region, name } => region@ == input.region && name@
                == input.bastion,
            DownAction::OpenPortForward { spec } => {
                &&& spec.region@ == input.region
                &&& spec.remote_port == 8443
                &&& done.len() > 0
                &&& done.last().0 is LocateBastion
                &&& done.last().1 matches DownEvent::Instance(Some(id)) && id@ == spec.target@
            },
            DownAction::ReachPort { port, timeout_secs } => {
                &&& timeout_secs == 10
                &&& done.len() > 0
                &&& done.last().0 is OpenPortForward
                &&& done.last().1 == DownEvent::Port(port)
            },
            DownAction::Deregister { endpoint, request } => {
                let targets = input.sessions.filter(theirs(input.user, input.service));
                &&& endpoint.host@ == "127.0.0.1"@
                &&& control_reached(done, endpoint.port)
                &&& request.user@ == input.user
                &&& told(done) < targets.len()
                &&& request.service@ == targets[told(done) as int].service
            },
            _ => true,
        },
{
    lemma_stands(input, done);
}

/// What comes of an action decides the next. Whatever goes wrong with the bastion,
/// the flow goes on to the local state; only where that cannot be loaded or saved it
/// is given up, with the cause.
pub proof fn law_down_what_follows(
    input: DownInput,
    done: Seq<DownStep>,
    last: DownStep,
    next: DownAction,
)
    requires
        down_goes(input, done.push(last), next),
    ensures
        match (last.0, last.1) {
            (DownAction::CheckPlugin, DownEvent::Done) => next is LocateBastion,
            (DownAction::LocateBastion { .. }, DownEvent::Instance(Some(_))) => next
                is OpenPortForward,
            (DownAction::OpenPortForward { .. }, DownEvent::Port(port)) => next == (
            DownAction::ReachPort { port, timeout_secs: 10 }),
            (DownAction::ReachPort { .. }, DownEvent::Done) => next is Deregister,
            (DownAction::Deregister { .. }, _) => if told(done.push(last)) < input.sessions.filter(
                theirs(input.user, input.service),
            ).len() {
                next is Deregister
            } else {
                next is LoadState
            },
            (DownAction::LoadState, DownEvent::Sessions(s)) => next matches DownAction::SaveState {
                state,
            } && state@ == s@.filter(not_theirs(input.user, input.service)),
            (DownAction::SaveState { .. }, DownEvent::Done) => next is Finish,
            (DownAction::LoadState, DownEvent::Failed(cause)) => next matches DownAction::Abort {
                message,
            } && message@ == cause@,
            (DownAction::SaveState { .. }, DownEvent::Failed(cause)) => next
                matches DownAction::Abort { message } && message@ == cause@,
            _ => next is LoadState,
        },
{
    let start = input.start();
    let all = done.push(last);
    assert(all.drop_last() =~= done);
    assert(all.last() == last);
    assert(down_state(start, all) == down_state(start, done).after(last.1)) by {
        reveal(down_state);
    }
    lemma_stands(input, done);
    lemma_stands(input, all);
}

proof fn lemma_some_theirs(sessions: Seq<SessionView>, f: spec_fn(SessionView) -> bool)
    ensures
        sessions.filter(f).len() > 0 <==> exists|i: int|
            0 <= i < sessions.len() && f(#[trigger] sessions[i]),
    decreases sessions.len(),
{
    reveal(Seq::filter);
    if sessions.len() > 0 {
        let front = sessions.drop_last();
        lemma_some_theirs(front, f);
        if f(sessions.last()) {
            assert(f(sessions[sessions.len() - 1]));
        } else if exists|i: int| 0 <= i < sessions.len() && f(#[trigger] sessions[i]) {
            let i = choose|i: int| 0 <= i < sessions.len() && f(#[trigger] sessions[i]);
            assert(front[i] == sessions[i]);
        }
        if exists|i: int| 0 <= i < front.len() && f(#[trigger] front[i]) {
            let i = choose|i: int| 0 <= i < front.len() && f(#[trigger] front[i]);
            assert(f(sessions[i]));
        }
    }
}

/// A flow with nothing to tear down is through at once; any other begins with the
/// check for the plugin.
pub proof fn law_down_begins(input: DownInput, next: DownAction)
    requires
        down_goes(input, seq![], next),
    ensures
        if exists|i: int|
            0 <= i < input.sessions.len() && theirs(input.user, input.service)(
                #[trigger] input.sessions[i],
            ) {
            next is CheckPlugin
        } else {
            next is Finish
        },
{
    lemma_stands(input, seq![]);
    let f = theirs(input.user, input.service);
    reveal(down_state);
    lemma_some_theirs(input.sessions, f);
}

/// The flow is done only where there was nothing to do, or once what was loaded was
/// saved without the user's sessions; and these are the ones that it gives out as torn
/// down.
pub proof fn law_down_finishes_saved(
    input: DownInput,
    done: Seq<DownStep>,
    flow: DownFlow,
    r: Vec<Session>,
)
    requires
        down_goes(input, done, DownAction::Finish),
        flow@ == down_state(input.start(), done),
        call_ensures(DownFlow::removed, (flow,), r),
    ensures
        done.len() == 0 ==> r@.len() == 0 && input.sessions.filter(
            theirs(input.user, input.service),
        ).len() == 0,
        done.len() > 0 ==> done.len() > 1 && match (done[done.len() - 2], done.last()) {
            (
                (DownAction::LoadState, DownEvent::Sessions(s)),
                (DownAction::SaveState { state }, DownEvent::Done),
            ) => {
                &&& state@ == s@.filter(not_theirs(input.user, input.service))
                &&& state::session_views(r@) == s@.filter(theirs(input.user, input.service))
            },
            _ => false,
        },
{
    lemma_stands(input, done);
    assert(state::session_views(r@).len() == r@.len());
}

/// What each action can give: whether it was done, an instance, a port or the
/// sessions; and nothing once the flow is over.
pub proof fn law_down_takes_what_the_action_gives(
    v: DownView,
    action: DownAction,
    event: DownEvent,
)
    requires
        v.coherent(),
        down_flow::is_down_due(v, action),
    ensures
        v.can_take(event) <==> match action {
            DownAction::LocateBastion { .. } => event is Instance || event is Failed,
            DownAction::OpenPortForward { .. } => event is Port || event is Failed,
            DownAction::LoadState => event is Sessions || event is Failed,
            DownAction::Finish | DownAction::Abort { .. } => false,
            _ => event is Done || event is Failed,
        },
{
}

} // verus!
