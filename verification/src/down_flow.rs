//! The `down` flow, one outside action at a time: tell the bastion, then clear
//! the local state. What the bastion does is best effort: whatever comes of it,
//! the local state is cleared, so that a flaky bastion doesn't keep stale
//! entries there.

use vstd::prelude::*;
use crate::bastion_client::BastionEndpoint;
use crate::commands;
use crate::commands::DEFAULT_CONTROL_PLANE_PORT;
use crate::common::DeregisterRequest;
use crate::ssm::PortForwardSpec;
use crate::state;
use crate::state::{Session, SessionView, State};

verus! {

/// Where the flow stands: the action that is due.
#[derive(Debug, Clone, Copy, PartialEq, Eq, Structural)]
pub enum DownStage {
    Plugin,
    Locate,
    OpenControl,
    ReachControl,
    Deregister,
    LoadState,
    SaveState,
    Done,
    Failed,
}

/// What an action gave.
#[derive(Debug, PartialEq, Eq)]
pub enum DownEvent {
    Done,
    /// The action failed; the text says how.
    Failed(String),
    /// The bastion instance, if there is one.
    Instance(Option<String>),
    /// The local port that was opened.
    Port(u16),
    /// The recorded sessions.
    Sessions(State),
}

/// An action of the flow.
#[derive(Debug, PartialEq, Eq)]
pub enum DownAction {
    /// See that the session-manager-plugin is installed.
    CheckPlugin,
    /// Find the bastion instance by its name.
    LocateBastion { region: String, name: String },
    /// Open an SSM port-forward to the bastion.
    OpenPortForward { spec: PortForwardSpec },
    /// Wait until the local port can be reached.
    ReachPort { port: u16, timeout_secs: u64 },
    /// Take a session's entry out of the control plane.
    Deregister { endpoint: BastionEndpoint, request: DeregisterRequest },
    /// Load the recorded sessions.
    LoadState,
    /// Record these sessions and no others.
    SaveState { state: State },
    /// The sessions are gone.
    Finish,
    /// The flow has failed; the text says how.
    Abort { message: String },
}

/// Seconds that the port-forward may take to become reachable.
pub const DOWN_REACH_TIMEOUT_SECS: u64 = 10;

/// All that the flow knows.
#[verifier::ext_equal]
pub struct DownView {
    pub user: Seq<char>,
    /// The service to tear down; all of the user's where none is named.
    pub service: Option<Seq<char>>,
    pub region: Seq<char>,
    /// Name of the bastion instance.
    pub bastion: Seq<char>,
    /// The sessions to tell the bastion of.
    pub targets: Seq<SessionView>,
    pub stage: DownStage,
    pub instance_id: Seq<char>,
    pub control_port: u16,
    /// The session that is due, by its place.
    pub next: nat,
    /// The sessions that stay.
    pub left: Seq<SessionView>,
    /// The sessions that are taken out.
    pub removed: Seq<SessionView>,
    pub error: Seq<char>,
}

impl DownView {
    pub open spec fn at(self, stage: DownStage) -> DownView {
        DownView { stage, ..self }
    }

    pub open spec fn fail(self, error: Seq<char>) -> DownView {
        DownView { stage: DownStage::Failed, error, ..self }
    }

    /// The session at hand is dealt with, one way or the other.
    pub open spec fn past_target(self) -> DownView {
        (DownView { next: self.next + 1, ..self }).at(
            if self.next + 1 < self.targets.len() {
                DownStage::Deregister
            } else {
                DownStage::LoadState
            },
        )
    }

    /// The action that is due can give this.
    pub open spec fn can_take(self, event: DownEvent) -> bool {
        match self.stage {
            DownStage::Plugin
            | DownStage::ReachControl
            | DownStage::Deregister
            | DownStage::SaveState => event is Done || event is Failed,
            DownStage::Locate => event is Instance || event is Failed,
            DownStage::OpenControl => event is Port || event is Failed,
            DownStage::LoadState => event is Sessions || event is Failed,
            DownStage::Done | DownStage::Failed => false,
        }
    }

    /// Where the flow stands once the action that was due has given `event`.
    pub open spec fn after(self, event: DownEvent) -> DownView {
        match event {
            DownEvent::Failed(cause) => match self.stage {
                DownStage::LoadState | DownStage::SaveState => self.fail(cause@),
                DownStage::Deregister => self.past_target(),
                _ => self.at(DownStage::LoadState),
            },
            DownEvent::Done => match self.stage {
                DownStage::Plugin => self.at(DownStage::Locate),
                DownStage::ReachControl => self.at(DownStage::Deregister),
                DownStage::Deregister => self.past_target(),
                DownStage::SaveState => self.at(DownStage::Done),
                _ => self,
            },
            DownEvent::Instance(None) => self.at(DownStage::LoadState),
            DownEvent::Instance(Some(id)) => (DownView { instance_id: id@, ..self }).at(
                DownStage::OpenControl,
            ),
            DownEvent::Port(port) => (DownView { control_port: port, ..self }).at(
                DownStage::ReachControl,
            ),
            DownEvent::Sessions(sessions) => (DownView {
                left: state::kept(sessions@, commands::untargeted(self.user, self.service)),
                removed: state::kept(sessions@, commands::targeted(self.user, self.service)),
                ..self
            }).at(DownStage::SaveState),
        }
    }

    /// The flow at its start. With nothing to tear down it is through.
    pub open spec fn start(
        user: Seq<char>,
        service: Option<Seq<char>>,
        region: Seq<char>,
        bastion: Seq<char>,
        sessions: Seq<SessionView>,
    ) -> DownView {
        let targets = state::kept(sessions, commands::targeted(user, service));
        DownView {
            user,
            service,
            region,
            bastion,
            targets,
            stage: if targets.len() == 0 {
                DownStage::Done
            } else {
                DownStage::Plugin
            },
            instance_id: Seq::empty(),
            control_port: 0,
            next: 0,
            left: Seq::empty(),
            removed: Seq::empty(),
            error: Seq::empty(),
        }
    }

    /// There is a session to tell of until the last has been told of.
    pub open spec fn coherent(self) -> bool {
        match self.stage {
            DownStage::Plugin
            | DownStage::Locate
            | DownStage::OpenControl
            | DownStage::ReachControl => self.next == 0 && self.targets.len() > 0,
            DownStage::Deregister => self.next < self.targets.len(),
            _ => true,
        }
    }
}

/// `action` is what is due.
pub open spec fn is_down_due(v: DownView, action: DownAction) -> bool {
    match v.stage {
        DownStage::Plugin => action is CheckPlugin,
        DownStage::Locate => action matches DownAction::LocateBastion { region, name } && region@
            == v.region && name@ == v.bastion,
        DownStage::OpenControl => action matches DownAction::OpenPortForward { spec }
            && spec.target@ == v.instance_id && spec.remote_port == DEFAULT_CONTROL_PLANE_PORT
            && spec.region@ == v.region,
        DownStage::ReachControl => action == (DownAction::ReachPort {
            port: v.control_port,
            timeout_secs: DOWN_REACH_TIMEOUT_SECS,
        }),
        DownStage::Deregister => action matches DownAction::Deregister { endpoint, request }
            && endpoint.host@ == "127.0.0.1"@ && endpoint.port == v.control_port && request.user@
            == v.user && request.service@ == v.targets[v.next as int].service,
        DownStage::LoadState => action is LoadState,
        DownStage::SaveState => action matches DownAction::SaveState { state } && state@ == v.left,
        DownStage::Done => action is Finish,
        DownStage::Failed => action matches DownAction::Abort { message } && message@ == v.error,
    }
}

/// The `down` flow of one user.
pub struct DownFlow {
    user: String,
    service: Option<String>,
    region: String,
    bastion: String,
    targets: Vec<Session>,
    stage: DownStage,
    instance_id: String,
    control_port: u16,
    next: usize,
    left: State,
    removed: Vec<Session>,
    error: String,
}

impl View for DownFlow {
    type V = DownView;

    closed spec fn view(&self) -> DownView {
        DownView {
            user: self.user@,
            service: commands::optional(self.service),
            region: self.region@,
            bastion: self.bastion@,
            targets: state::session_views(self.targets@),
            stage: self.stage,
            instance_id: self.instance_id@,
            control_port: self.control_port,
            next: self.next as nat,
            left: self.left@,
            removed: state::session_views(self.removed@),
            error: self.error@,
        }
    }
}

impl DownFlow {
    #[verifier::type_invariant]
    spec fn is_coherent(self) -> bool {
        self@.coherent()
    }

    /// The flow that tears down the user's sessions, or those of one service,
    /// among the recorded ones.
    pub fn start(
        user: &str,
        service: Option<String>,
        region: &str,
        bastion: &str,
        sessions: &State,
    ) -> (r: Self)
        ensures
            r@ == DownView::start(
                user@,
                commands::optional(service),
                region@,
                bastion@,
                sessions@,
            ),
    {
        let targets = commands::down_candidates(sessions, user, &service);
        let stage = if targets.len() == 0 {
            DownStage::Done
        } else {
            DownStage::Plugin
        };
        let removed: Vec<Session> = Vec::new();
        assert(state::session_views(removed@) =~= Seq::empty());
        DownFlow {
            user: user.to_owned(),
            service,
            region: region.to_owned(),
            bastion: bastion.to_owned(),
            targets,
            stage,
            instance_id: String::new(),
            control_port: 0,
            next: 0,
            left: State::default(),
            removed,
            error: String::new(),
        }
    }

    /// Where the flow stands.
    pub fn stage(&self) -> (r: DownStage)
        ensures
            r == self@.stage,
    {
        self.stage
    }

    fn past_target(self) -> (r: Self)
        requires
            self@.stage is Deregister,
        ensures
            r@ == self@.past_target(),
    {
        proof {
            use_type_invariant(&self);
        }
        assert(self.next < self.targets.len());
        let next: usize = self.next + 1;
        let stage = if next < self.targets.len() {
            DownStage::Deregister
        } else {
            DownStage::LoadState
        };
        DownFlow { next, stage, ..self }
    }

    /// Whether the action that is due can give this.
    pub fn accepts(&self, event: &DownEvent) -> (r: bool)
        ensures
            r == self@.can_take(*event),
    {
        let failed = match event {
            DownEvent::Failed(_) => true,
            _ => false,
        };
        match self.stage {
            DownStage::Locate => failed || match event {
                DownEvent::Instance(_) => true,
                _ => false,
            },
            DownStage::OpenControl => failed || match event {
                DownEvent::Port(_) => true,
                _ => false,
            },
            DownStage::LoadState => failed || match event {
                DownEvent::Sessions(_) => true,
                _ => false,
            },
            DownStage::Done | DownStage::Failed => false,
            _ => failed || match event {
                DownEvent::Done => true,
                _ => false,
            },
        }
    }

    /// Takes what the action that was due has given.
    pub fn advance(self, event: DownEvent) -> (r: Self)
        requires
            self@.can_take(event),
        ensures
            r@ == self@.after(event),
    {
        proof {
            use_type_invariant(&self);
        }
        match event {
            DownEvent::Failed(cause) => match self.stage {
                DownStage::LoadState | DownStage::SaveState => DownFlow {
                    stage: DownStage::Failed,
                    error: cause,
                    ..self
                },
                DownStage::Deregister => self.past_target(),
                _ => DownFlow { stage: DownStage::LoadState, ..self },
            },
            DownEvent::Done => match self.stage {
                DownStage::Plugin => DownFlow { stage: DownStage::Locate, ..self },
                DownStage::ReachControl => DownFlow { stage: DownStage::Deregister, ..self },
                DownStage::Deregister => self.past_target(),
                DownStage::SaveState => DownFlow { stage: DownStage::Done, ..self },
                _ => self,
            },
            DownEvent::Instance(None) => DownFlow { stage: DownStage::LoadState, ..self },
            DownEvent::Instance(Some(id)) => DownFlow {
                instance_id: id,
                stage: DownStage::OpenControl,
                ..self
            },
            DownEvent::Port(port) => DownFlow {
                control_port: port,
                stage: DownStage::ReachControl,
                ..self
            },
            DownEvent::Sessions(sessions) => {
                let mut left = sessions;
                let removed = commands::down_forget(&mut left, self.user.as_str(), &self.service);
                DownFlow { left, removed, stage: DownStage::SaveState, ..self }
            },
        }
    }

    /// The action that is due.
    pub fn action(&self) -> (r: DownAction)
        ensures
            is_down_due(self@, r),
    {
        proof {
            use_type_invariant(self);
        }
        match self.stage {
            DownStage::Plugin => DownAction::CheckPlugin,
            DownStage::Locate => DownAction::LocateBastion {
                region: self.region.clone(),
                name: self.bastion.clone(),
            },
            DownStage::OpenControl => DownAction::OpenPortForward {
                spec: PortForwardSpec {
                    target: self.instance_id.clone(),
                    remote_port: DEFAULT_CONTROL_PLANE_PORT,
                    region: self.region.clone(),
                },
            },
            DownStage::ReachControl => DownAction::ReachPort {
                port: self.control_port,
                timeout_secs: DOWN_REACH_TIMEOUT_SECS,
            },
            DownStage::Deregister => {
                assert(self@.targets[self.next as int] == self.targets@[self.next as int]@);
                DownAction::Deregister {
                    endpoint: BastionEndpoint::new("127.0.0.1", self.control_port),
                    request: DeregisterRequest {
                        user: self.user.clone(),
                        service: self.targets[self.next].service.clone(),
                    },
                }
            },
            DownStage::LoadState => DownAction::LoadState,
            DownStage::SaveState => DownAction::SaveState { state: self.left.clone() },
            DownStage::Done => DownAction::Finish,
            DownStage::Failed => DownAction::Abort { message: self.error.clone() },
        }
    }

    /// The sessions that were torn down, once the flow is through.
    pub fn removed(self) -> (r: Vec<Session>)
        requires
            self@.stage is Done,
        ensures
            state::session_views(r@) == self@.removed,
    {
        self.removed
    }
}

/// How many actions there are still to come at the most.
pub open spec fn down_actions_left(v: DownView) -> int {
    match v.stage {
        DownStage::Plugin => v.targets.len() as int + 6,
        DownStage::Locate => v.targets.len() as int + 5,
        DownStage::OpenControl => v.targets.len() as int + 4,
        DownStage::ReachControl => v.targets.len() as int + 3,
        DownStage::Deregister => v.targets.len() - v.next + 2,
        DownStage::LoadState => 2,
        DownStage::SaveState => 1,
        DownStage::Done | DownStage::Failed => 0,
    }
}

/// The flow comes to an end: every action leaves fewer to come, whatever it
/// gives. It stays coherent, and is about the same sessions.
pub proof fn law_down_ends(v: DownView, event: DownEvent)
    requires
        v.coherent(),
        v.can_take(event),
    ensures
        0 <= down_actions_left(v.after(event)) < down_actions_left(v),
        v.after(event).coherent(),
        v.after(event).user == v.user,
        v.after(event).service == v.service,
        v.after(event).targets == v.targets,
{
}

/// Where the flow stands after these events.
pub open spec fn down_run(v: DownView, events: Seq<DownEvent>) -> DownView
    decreases events.len(),
{
    if events.len() == 0 {
        v
    } else {
        down_run(v, events.drop_last()).after(events.last())
    }
}

/// Each event is one that the action that was due can give.
pub open spec fn down_possible(v: DownView, events: Seq<DownEvent>) -> bool
    decreases events.len(),
{
    events.len() == 0 || (down_possible(v, events.drop_last()) && down_run(
        v,
        events.drop_last(),
    ).can_take(events.last()))
}

/// The sessions that were recorded at one of the events were parted into those
/// that stay and those that are taken out.
pub open spec fn parted_at(v: DownView, events: Seq<DownEvent>, i: int) -> bool {
    0 <= i < events.len() && (events[i] matches DownEvent::Sessions(sessions) && v.left
        == state::kept(sessions@, commands::untargeted(v.user, v.service)) && v.removed
        == state::kept(sessions@, commands::targeted(v.user, v.service)))
}

/// The local state is cleared whatever becomes of the bastion. A flow that had
/// something to tear down ends well only once exactly the sessions asked for
/// have been taken out of what was recorded, and fails only where the recorded
/// state could not be loaded or saved.
pub proof fn law_down_clears_whatever_the_bastion_does(v: DownView, events: Seq<DownEvent>)
    requires
        v.stage is Plugin,
        v.coherent(),
        down_possible(v, events),
    ensures
        down_run(v, events).user == v.user,
        down_run(v, events).service == v.service,
        down_run(v, events).stage is SaveState || down_run(v, events).stage is Done ==> exists|
            i: int,
        | #[trigger] parted_at(down_run(v, events), events, i),
        down_run(v, events).stage is Failed ==> events.len() > 0 && (down_run(
            v,
            events.drop_last(),
        ).stage is LoadState || down_run(v, events.drop_last()).stage is SaveState),
    decreases events.len(),
{
    if events.len() > 0 {
        let before = events.drop_last();
        law_down_clears_whatever_the_bastion_does(v, before);
        let mid = down_run(v, before);
        let end = down_run(v, events);
        if end.stage is SaveState {
            assert(parted_at(end, events, events.len() - 1));
        } else if end.stage is Done {
            let i = choose|i: int| #[trigger] parted_at(mid, before, i);
            assert(before[i] == events[i]);
            assert(parted_at(end, events, i));
        }
    }
}

/// Once the control plane can be reached, every session to tear down has its
/// turn there, also where an earlier one could not be taken out; then the local
/// state is cleared.
pub proof fn law_every_target_has_its_turn(v: DownView, events: Seq<DownEvent>)
    requires
        v.stage is Deregister,
        v.next == 0,
        v.coherent(),
        events.len() <= v.targets.len(),
        forall|i: int| 0 <= i < events.len() ==> (#[trigger] events[i]) is Done || events[i] is Failed,
    ensures
        down_run(v, events) == (DownView { next: events.len(), ..v }).at(
            if events.len() < v.targets.len() {
                DownStage::Deregister
            } else {
                DownStage::LoadState
            },
        ),
        down_possible(v, events),
    decreases events.len(),
{
    if events.len() > 0 {
        law_every_target_has_its_turn(v, events.drop_last());
        assert(events.last() == events[events.len() - 1]);
    }
}

/// A flow that finds nothing to tear down does nothing.
pub proof fn law_nothing_to_tear_down(
    user: Seq<char>,
    service: Option<Seq<char>>,
    region: Seq<char>,
    bastion: Seq<char>,
    sessions: Seq<SessionView>,
)
    requires
        state::kept(sessions, commands::targeted(user, service)).len() == 0,
    ensures
        DownView::start(user, service, region, bastion, sessions).stage is Done,
        DownView::start(user, service, region, bastion, sessions).removed == Seq::<
            SessionView,
        >::empty(),
{
}

} // verus!
