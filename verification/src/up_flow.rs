//! The `up` flow, one outside action at a time: which comes next, and what is
//! made of what it gave. Launches the local service and bridges it to the
//! bastion.
//!
//! Worker services (no inbound port) skip the inbound-routing path: no SSH
//! reverse forward, no ALB rule, no bastion control-plane registration. They may
//! still open outbound SSM forwards through the bastion (e.g. so the worker can
//! query staging RDS). With no forwards, a worker is a pure local spawn.

use vstd::prelude::*;
use vstd::slice::slice_to_vec;
use crate::bastion_client::BastionEndpoint;
use crate::commands;
use crate::commands::{ActiveSession, ForwardClaim, UpRequest, DEFAULT_CONTROL_PLANE_PORT};
use crate::common::RegisterRequest;
use crate::ssm;
use crate::ssm::{ForwardPortSpec, PortForwardSpec, RemoteHostForwardSpec};
use crate::state;
use crate::state::{SessionView, State};
use crate::text;
use crate::tunnel::{SshAuth, SshConfig};

verus! {

/// Where the flow stands: the action that is due.
#[derive(Debug, Clone, Copy, PartialEq, Eq, Structural)]
pub enum Stage {
    Plugin,
    ServicePort,
    Bootstrap,
    Locate,
    OpenControl,
    ReachControl,
    Register,
    OpenSsh,
    ReachSsh,
    LoadState,
    ProbeOwner,
    ForwardPort,
    OpenForward,
    ReachForward,
    Spawn,
    Health,
    Reverse,
    Record,
    Done,
    Failed,
}

/// What an action gave.
#[derive(Debug, PartialEq, Eq)]
pub enum UpEvent {
    Done,
    /// The action failed; the text says how.
    Failed(String),
    /// The bastion instance, if there is one.
    Instance(Option<String>),
    /// The local port that was opened, or the port that was registered.
    Port(u16),
    /// The recorded sessions.
    Sessions(State),
    /// Whether the process is there.
    Alive(bool),
    /// The process of the service.
    Pid(u32),
}

/// An action of the flow. Times are in seconds where nothing else is said.
#[derive(Debug, PartialEq, Eq)]
pub enum UpAction {
    /// See that the session-manager-plugin is installed: every port-forward
    /// would otherwise just time out with no hint.
    CheckPlugin,
    /// See that nothing listens on the local port.
    CheckPortFree { port: u16 },
    /// Run the project-supplied bootstrap.
    RunBootstrap { command: String },
    /// Find the bastion instance by its name.
    LocateBastion { region: String, name: String },
    /// Open an SSM port-forward to the bastion.
    OpenPortForward { spec: PortForwardSpec },
    /// Wait until the local port can be reached.
    ReachPort { port: u16, timeout_secs: u64 },
    /// Register with the control plane.
    Register { endpoint: BastionEndpoint, request: RegisterRequest },
    /// Load the recorded sessions.
    LoadState,
    /// See whether the process is there.
    ProbePid { pid: u32 },
    /// Open an SSM forward through the bastion to a remote host.
    OpenRemoteForward { spec: RemoteHostForwardSpec },
    /// Spawn the local service.
    SpawnService { command: String },
    /// Wait until the service is healthy.
    AwaitHealth { port: u16, path: String, timeout_ms: u64, poll_interval_ms: u64 },
    /// Open the reverse SSH tunnel.
    OpenReverse { config: SshConfig, local_port: u16, remote_port: u16 },
    /// Record the session.
    RecordSession {
        user: String,
        service: String,
        local_port: u16,
        remote_port: u16,
        pid: u32,
        forward_local_ports: Vec<u16>,
    },
    /// The service is up.
    Finish,
    /// The flow has failed; the text says how.
    Abort { message: String },
}

/// Seconds that a port-forward may take to become reachable.
pub const REACH_TIMEOUT_SECS: u64 = 15;

/// Milliseconds between two looks at the health of the service.
pub const HEALTH_POLL_MS: u64 = 250;

/// Port of the bastion's SSH server.
pub const SSH_PORT: u16 = 22;

/// All that the flow knows.
#[verifier::ext_equal]
pub struct FlowView {
    pub req: UpRequest,
    /// Name of the bastion instance.
    pub bastion: Seq<char>,
    pub stage: Stage,
    pub instance_id: Seq<char>,
    pub control_port: u16,
    pub remote_port: u16,
    pub ssh_port: u16,
    pub sessions: Seq<SessionView>,
    /// The forward that is due, by its place.
    pub forward: nat,
    /// Local ports of the forwards that this flow opened.
    pub owned: Seq<u16>,
    pub pid: u32,
    pub error: Seq<char>,
}

impl FlowView {
    pub open spec fn is_worker(self) -> bool {
        self.req.local_service_port is None
    }

    /// The flow needs the bastion.
    pub open spec fn needs_bastion(self) -> bool {
        !self.is_worker() || self.req.forward_ports@.len() > 0
    }

    pub open spec fn at(self, stage: Stage) -> FlowView {
        FlowView { stage, ..self }
    }

    pub open spec fn fail(self, error: Seq<char>) -> FlowView {
        FlowView { stage: Stage::Failed, error, ..self }
    }

    /// The text of the forward that is due.
    pub open spec fn raw_forward(self) -> Seq<char> {
        self.req.forward_ports@[self.forward as int]@
    }

    /// The forward that is due.
    pub open spec fn due(self) -> (u16, Seq<char>, u16) {
        ssm::forward_port(self.raw_forward())->Ok_0
    }

    /// The session of the user that claims the local port of the forward that is
    /// due.
    pub open spec fn owner(self) -> Option<SessionView> {
        state::owner_of(self.sessions, self.req.user@, self.due().0)
    }

    /// Project-supplied bootstrap runs before any tunnel is opened so a
    /// credential-fetch failure aborts before we touch AWS.
    pub open spec fn to_bootstrap(self) -> FlowView {
        if self.req.bootstrap_command is Some {
            self.at(Stage::Bootstrap)
        } else {
            self.past_bootstrap()
        }
    }

    pub open spec fn past_bootstrap(self) -> FlowView {
        if self.needs_bastion() {
            self.at(Stage::Locate)
        } else {
            self.at(Stage::Spawn)
        }
    }

    /// What is due for the forward at hand: it is opened, unless a session of
    /// the same user claims its port; then the process of that session is looked
    /// for. Behind the last forward the service is spawned.
    pub open spec fn settle(self) -> FlowView {
        if self.forward >= self.req.forward_ports@.len() {
            self.at(Stage::Spawn)
        } else {
            match ssm::forward_port(self.raw_forward()) {
                Err(fault) => self.fail(ssm::fault_text(self.raw_forward(), fault)),
                Ok(_) => match self.owner() {
                    None => if self.is_worker() {
                        self.at(Stage::ForwardPort)
                    } else {
                        self.at(Stage::OpenForward)
                    },
                    Some(s) => if s.pid is None || s.pid == Some(0u32) {
                        self.fail(commands::stale_text(self.due().0, s.service, s.pid))
                    } else {
                        self.at(Stage::ProbeOwner)
                    },
                },
            }
        }
    }

    pub open spec fn past_spawn(self) -> FlowView {
        if self.is_worker() {
            self.at(Stage::Record)
        } else if self.req.health_check_path is Some {
            self.at(Stage::Health)
        } else {
            self.at(Stage::Reverse)
        }
    }

    /// What is printed when the action that is due fails with a cause.
    pub open spec fn failure(self, cause: Seq<char>) -> Seq<char> {
        match self.stage {
            Stage::Plugin => "session-manager-plugin pre-flight"@,
            Stage::ServicePort => "local port for service "@ + text::quoted(self.req.service@),
            Stage::Bootstrap => "bootstrap_command"@,
            Stage::OpenControl => "opening SSM port-forward to bastion control plane"@,
            Stage::ReachControl => "control-plane SSM port-forward never became reachable"@,
            Stage::Register => "registering with bastion control plane"@,
            Stage::OpenSsh => "opening SSM port-forward to bastion SSH"@,
            Stage::ReachSsh => "SSH SSM port-forward never became reachable"@,
            Stage::ForwardPort => "forward "@ + self.raw_forward()
                + ": local port in use by an unknown process (no sibling ephemwork session owns it)"@,
            Stage::OpenForward => "opening forward "@ + self.raw_forward(),
            Stage::ReachForward => "forward "@ + self.raw_forward() + " never became reachable"@,
            Stage::Health => "service "@ + text::quoted(self.req.service@)
                + " never returned 2xx on "@ + self.req.health_check_path->0@ + " within "@
                + text::duration_text(self.req.health_timeout_ms),
            _ => cause,
        }
    }

    /// The action that is due can give this.
    pub open spec fn can_take(self, event: UpEvent) -> bool {
        match self.stage {
            Stage::Plugin
            | Stage::ServicePort
            | Stage::Bootstrap
            | Stage::ReachControl
            | Stage::ReachSsh
            | Stage::ForwardPort
            | Stage::OpenForward
            | Stage::ReachForward
            | Stage::Health
            | Stage::Reverse
            | Stage::Record => event is Done || event is Failed,
            Stage::Locate => event is Instance || event is Failed,
            Stage::OpenControl | Stage::Register | Stage::OpenSsh => event is Port
                || event is Failed,
            Stage::LoadState => event is Sessions || event is Failed,
            Stage::ProbeOwner => event is Alive,
            Stage::Spawn => event is Pid || event is Failed,
            Stage::Done | Stage::Failed => false,
        }
    }

    /// Where the flow stands once the action that was due has given `event`.
    pub open spec fn after(self, event: UpEvent) -> FlowView {
        match event {
            UpEvent::Failed(cause) => self.fail(self.failure(cause@)),
            UpEvent::Done => match self.stage {
                Stage::Plugin => if self.is_worker() {
                    self.to_bootstrap()
                } else {
                    self.at(Stage::ServicePort)
                },
                Stage::ServicePort => self.to_bootstrap(),
                Stage::Bootstrap => self.past_bootstrap(),
                Stage::ReachControl => self.at(Stage::Register),
                Stage::ReachSsh => self.at(Stage::LoadState),
                Stage::ForwardPort => self.at(Stage::OpenForward),
                Stage::OpenForward => self.at(Stage::ReachForward),
                Stage::ReachForward => (FlowView {
                    forward: self.forward + 1,
                    owned: self.owned.push(self.due().0),
                    ..self
                }).settle(),
                Stage::Health => self.at(Stage::Reverse),
                Stage::Reverse => self.at(Stage::Record),
                Stage::Record => self.at(Stage::Done),
                _ => self,
            },
            UpEvent::Instance(None) => self.fail(commands::no_bastion_text(self.bastion)),
            UpEvent::Instance(Some(id)) => (FlowView { instance_id: id@, ..self }).at(
                if self.is_worker() {
                    Stage::LoadState
                } else {
                    Stage::OpenControl
                },
            ),
            UpEvent::Port(port) => match self.stage {
                Stage::OpenControl => (FlowView { control_port: port, ..self }).at(
                    Stage::ReachControl,
                ),
                Stage::Register => (FlowView { remote_port: port, ..self }).at(Stage::OpenSsh),
                _ => (FlowView { ssh_port: port, ..self }).at(Stage::ReachSsh),
            },
            UpEvent::Sessions(sessions) => (FlowView {
                sessions: sessions@,
                forward: 0,
                ..self
            }).settle(),
            UpEvent::Alive(alive) => if alive {
                (FlowView { forward: self.forward + 1, ..self }).settle()
            } else {
                self.fail(
                    commands::stale_text(
                        self.due().0,
                        self.owner()->0.service,
                        self.owner()->0.pid,
                    ),
                )
            },
            UpEvent::Pid(pid) => (FlowView { pid, ..self }).past_spawn(),
        }
    }

    /// The flow is at the start.
    pub open spec fn start(req: UpRequest, bastion: Seq<char>) -> FlowView {
        let fresh = FlowView {
            req,
            bastion,
            stage: Stage::Plugin,
            instance_id: Seq::empty(),
            control_port: 0,
            remote_port: 0,
            ssh_port: 0,
            sessions: Seq::empty(),
            forward: 0,
            owned: Seq::empty(),
            pid: 0,
            error: Seq::empty(),
        };
        if fresh.needs_bastion() {
            fresh
        } else {
            fresh.to_bootstrap()
        }
    }

    /// The forward that is due is there where the stage needs it, and so is
    /// whatever else the stage draws on.
    pub open spec fn coherent(self) -> bool {
        &&& self.forward <= self.req.forward_ports@.len()
        &&& match self.stage {
            Stage::ProbeOwner
            | Stage::ForwardPort
            | Stage::OpenForward
            | Stage::ReachForward => {
                &&& self.forward < self.req.forward_ports@.len()
                &&& ssm::forward_port(self.raw_forward()) is Ok
                &&& self.stage is ProbeOwner ==> (self.owner() matches Some(s) && s.pid is Some
                    && s.pid != Some(0u32))
            },
            Stage::Bootstrap => self.req.bootstrap_command is Some,
            Stage::Health => self.req.health_check_path is Some && !self.is_worker(),
            Stage::ServicePort | Stage::Reverse => !self.is_worker(),
            _ => true,
        }
    }
}

/// The `up` flow of one service.
pub struct UpFlow {
    req: UpRequest,
    bastion: String,
    stage: Stage,
    instance_id: String,
    control_port: u16,
    remote_port: u16,
    ssh_port: u16,
    sessions: State,
    forward: usize,
    owned: Vec<u16>,
    pid: u32,
    error: String,
}

impl View for UpFlow {
    type V = FlowView;

    closed spec fn view(&self) -> FlowView {
        FlowView {
            req: self.req,
            bastion: self.bastion@,
            stage: self.stage,
            instance_id: self.instance_id@,
            control_port: self.control_port,
            remote_port: self.remote_port,
            ssh_port: self.ssh_port,
            sessions: self.sessions@,
            forward: self.forward as nat,
            owned: self.owned@,
            pid: self.pid,
            error: self.error@,
        }
    }
}

/// `action` is what is due.
pub open spec fn is_due(v: FlowView, action: UpAction) -> bool {
    match v.stage {
        Stage::Plugin => action is CheckPlugin,
        Stage::ServicePort => action == (UpAction::CheckPortFree {
            port: v.req.local_service_port->0,
        }),
        Stage::Bootstrap => action matches UpAction::RunBootstrap { command } && command@
            == v.req.bootstrap_command->0@,
        Stage::Locate => action matches UpAction::LocateBastion { region, name } && region@
            == v.req.region@ && name@ == v.bastion,
        Stage::OpenControl => opens_port(v, action, DEFAULT_CONTROL_PLANE_PORT),
        Stage::ReachControl => action == (UpAction::ReachPort {
            port: v.control_port,
            timeout_secs: REACH_TIMEOUT_SECS,
        }),
        Stage::Register => action matches UpAction::Register { endpoint, request }
            && endpoint.host@ == "127.0.0.1"@ && endpoint.port == v.control_port && request.user@
            == v.req.user@ && request.service@ == v.req.service@,
        Stage::OpenSsh => opens_port(v, action, SSH_PORT),
        Stage::ReachSsh => action == (UpAction::ReachPort {
            port: v.ssh_port,
            timeout_secs: REACH_TIMEOUT_SECS,
        }),
        Stage::LoadState => action is LoadState,
        Stage::ProbeOwner => action == (UpAction::ProbePid { pid: v.owner()->0.pid->0 }),
        Stage::ForwardPort => action == (UpAction::CheckPortFree { port: v.due().0 }),
        Stage::OpenForward => action matches UpAction::OpenRemoteForward { spec } && spec.target@
            == v.instance_id && spec.local_port == v.due().0 && spec.remote_host@ == v.due().1
            && spec.remote_port == v.due().2 && spec.region@ == v.req.region@,
        Stage::ReachForward => action == (UpAction::ReachPort {
            port: v.due().0,
            timeout_secs: REACH_TIMEOUT_SECS,
        }),
        Stage::Spawn => action matches UpAction::SpawnService { command } && command@
            == v.req.run_command@,
        Stage::Health => action matches UpAction::AwaitHealth {
            port,
            path,
            timeout_ms,
            poll_interval_ms,
        } && Some(port) == v.req.local_service_port && path@ == v.req.health_check_path->0@
            && timeout_ms == v.req.health_timeout_ms && poll_interval_ms == HEALTH_POLL_MS,
        Stage::Reverse => action matches UpAction::OpenReverse { config, local_port, remote_port }
            && config.host@ == "127.0.0.1"@ && config.port == v.ssh_port && config.username@
            == v.req.ssh_username@ && config.auth is Agent && config.keepalive_secs
            == v.req.ssh_keepalive_secs && Some(local_port) == v.req.local_service_port
            && remote_port == v.remote_port,
        Stage::Record => action matches UpAction::RecordSession {
            user,
            service,
            local_port,
            remote_port,
            pid,
            forward_local_ports,
        } && user@ == v.req.user@ && service@ == v.req.service@ && (if v.is_worker() {
            local_port == 0 && remote_port == 0
        } else {
            Some(local_port) == v.req.local_service_port && remote_port == v.remote_port
        }) && pid == v.pid && forward_local_ports@ == v.owned,
        Stage::Done => action is Finish,
        Stage::Failed => action matches UpAction::Abort { message } && message@ == v.error,
    }
}

/// `action` opens a port-forward to this port of the bastion.
pub open spec fn opens_port(v: FlowView, action: UpAction, port: u16) -> bool {
    action matches UpAction::OpenPortForward { spec } && spec.target@ == v.instance_id
        && spec.remote_port == port && spec.region@ == v.req.region@
}

impl UpFlow {
    #[verifier::type_invariant]
    spec fn is_coherent(self) -> bool {
        self@.coherent()
    }

    /// The flow of a request at its start.
    pub fn start(req: UpRequest, bastion: &str) -> (r: Self)
        ensures
            r@ == FlowView::start(req, bastion@),
    {
        let needs_bastion = req.local_service_port.is_some() || req.forward_ports.len() > 0;
        let fresh = UpFlow {
            req,
            bastion: bastion.to_owned(),
            stage: Stage::Plugin,
            instance_id: String::new(),
            control_port: 0,
            remote_port: 0,
            ssh_port: 0,
            sessions: State::default(),
            forward: 0,
            owned: Vec::new(),
            pid: 0,
            error: String::new(),
        };
        if needs_bastion {
            fresh
        } else {
            fresh.to_bootstrap()
        }
    }

    /// Where the flow stands.
    pub fn stage(&self) -> (r: Stage)
        ensures
            r == self@.stage,
    {
        self.stage
    }

    fn at(self, stage: Stage) -> (r: Self)
        requires
            self@.at(stage).coherent(),
        ensures
            r@ == self@.at(stage),
    {
        UpFlow { stage, ..self }
    }

    fn fail(self, error: String) -> (r: Self)
        ensures
            r@ == self@.fail(error@),
    {
        proof {
            use_type_invariant(&self);
        }
        UpFlow { stage: Stage::Failed, error, ..self }
    }

    fn to_bootstrap(self) -> (r: Self)
        ensures
            r@ == self@.to_bootstrap(),
    {
        proof {
            use_type_invariant(&self);
        }
        if self.req.bootstrap_command.is_some() {
            self.at(Stage::Bootstrap)
        } else {
            self.past_bootstrap()
        }
    }

    fn past_bootstrap(self) -> (r: Self)
        ensures
            r@ == self@.past_bootstrap(),
    {
        proof {
            use_type_invariant(&self);
        }
        if self.req.local_service_port.is_some() || self.req.forward_ports.len() > 0 {
            self.at(Stage::Locate)
        } else {
            self.at(Stage::Spawn)
        }
    }

    fn settle(self) -> (r: Self)
        ensures
            r@ == self@.settle(),
    {
        proof {
            use_type_invariant(&self);
        }
        if self.forward >= self.req.forward_ports.len() {
            return self.at(Stage::Spawn);
        }
        let spec = match ssm::parse_forward_port_spec(
            self.req.forward_ports[self.forward].as_str(),
        ) {
            Ok(spec) => spec,
            Err(e) => {
                return self.fail(e.message());
            },
        };
        match commands::forward_claim(&self.sessions, self.req.user.as_str(), spec.local_port) {
            ForwardClaim::Free => if self.req.local_service_port.is_none() {
                self.at(Stage::ForwardPort)
            } else {
                self.at(Stage::OpenForward)
            },
            ForwardClaim::Stale { service, pid } => self.fail(
                commands::stale_message(spec.local_port, service.as_str(), pid),
            ),
            ForwardClaim::Owner { .. } => self.at(Stage::ProbeOwner),
        }
    }

    fn past_spawn(self) -> (r: Self)
        ensures
            r@ == self@.past_spawn(),
    {
        proof {
            use_type_invariant(&self);
        }
        if self.req.local_service_port.is_none() {
            self.at(Stage::Record)
        } else if self.req.health_check_path.is_some() {
            self.at(Stage::Health)
        } else {
            self.at(Stage::Reverse)
        }
    }

    /// The forward that is due.
    fn due(&self) -> (r: Option<ForwardPortSpec>)
        ensures
            self@.forward < self@.req.forward_ports@.len() && ssm::forward_port(
                self@.raw_forward(),
            ) is Ok ==> (r matches Some(spec) && ssm::is_forward(spec, self@.due())),
    {
        if self.forward >= self.req.forward_ports.len() {
            return None;
        }
        match ssm::parse_forward_port_spec(self.req.forward_ports[self.forward].as_str()) {
            Ok(spec) => Some(spec),
            Err(_) => None,
        }
    }

    /// The claim on the local port of the forward that is due.
    fn claim(&self, spec: &ForwardPortSpec) -> (r: ForwardClaim)
        ensures
            commands::claimed(
                state::owner_of(self@.sessions, self@.req.user@, spec.local_port),
                r,
            ),
    {
        commands::forward_claim(&self.sessions, self.req.user.as_str(), spec.local_port)
    }

    /// What is printed when the action that is due fails.
    fn failure(&self, cause: String) -> (r: String)
        ensures
            r@ == self@.failure(cause@),
    {
        proof {
            use_type_invariant(self);
        }
        match self.stage {
            Stage::Plugin => "session-manager-plugin pre-flight".to_owned(),
            Stage::ServicePort => {
                let mut out = "local port for service ".to_owned();
                out.append(text::quote(self.req.service.as_str()).as_str());
                out
            },
            Stage::Bootstrap => "bootstrap_command".to_owned(),
            Stage::OpenControl => "opening SSM port-forward to bastion control plane".to_owned(),
            Stage::ReachControl => {
                "control-plane SSM port-forward never became reachable".to_owned()
            },
            Stage::Register => "registering with bastion control plane".to_owned(),
            Stage::OpenSsh => "opening SSM port-forward to bastion SSH".to_owned(),
            Stage::ReachSsh => "SSH SSM port-forward never became reachable".to_owned(),
            Stage::ForwardPort => {
                let mut out = "forward ".to_owned();
                out.append(self.req.forward_ports[self.forward].as_str());
                out.append(
                    ": local port in use by an unknown process (no sibling ephemwork session owns it)",
                );
                out
            },
            Stage::OpenForward => {
                let mut out = "opening forward ".to_owned();
                out.append(self.req.forward_ports[self.forward].as_str());
                out
            },
            Stage::ReachForward => {
                let mut out = "forward ".to_owned();
                out.append(self.req.forward_ports[self.forward].as_str());
                out.append(" never became reachable");
                out
            },
            Stage::Health => {
                let mut out = "service ".to_owned();
                out.append(text::quote(self.req.service.as_str()).as_str());
                out.append(" never returned 2xx on ");
                if let Some(path) = &self.req.health_check_path {
                    out.append(path.as_str());
                }
                out.append(" within ");
                out.append(text::show_duration(self.req.health_timeout_ms).as_str());
                out
            },
            _ => cause,
        }
    }

    /// Whether the action that is due can give this.
    pub fn accepts(&self, event: &UpEvent) -> (r: bool)
        ensures
            r == self@.can_take(*event),
    {
        let failed = match event {
            UpEvent::Failed(_) => true,
            _ => false,
        };
        match self.stage {
            Stage::Locate => failed || match event {
                UpEvent::Instance(_) => true,
                _ => false,
            },
            Stage::OpenControl | Stage::Register | Stage::OpenSsh => failed || match event {
                UpEvent::Port(_) => true,
                _ => false,
            },
            Stage::LoadState => failed || match event {
                UpEvent::Sessions(_) => true,
                _ => false,
            },
            Stage::ProbeOwner => match event {
                UpEvent::Alive(_) => true,
                _ => false,
            },
            Stage::Spawn => failed || match event {
                UpEvent::Pid(_) => true,
                _ => false,
            },
            Stage::Done | Stage::Failed => false,
            _ => failed || match event {
                UpEvent::Done => true,
                _ => false,
            },
        }
    }

    /// Takes what the action that was due has given.
    pub fn advance(self, event: UpEvent) -> (r: Self)
        requires
            self@.can_take(event),
        ensures
            r@ == self@.after(event),
    {
        proof {
            use_type_invariant(&self);
        }
        match event {
            UpEvent::Failed(cause) => {
                let error = self.failure(cause);
                self.fail(error)
            },
            UpEvent::Done => self.advance_done(),
            UpEvent::Instance(None) => {
                let error = commands::no_bastion_message(self.bastion.as_str());
                self.fail(error)
            },
            UpEvent::Instance(Some(id)) => {
                let stage = if self.req.local_service_port.is_none() {
                    Stage::LoadState
                } else {
                    Stage::OpenControl
                };
                UpFlow { instance_id: id, stage, ..self }
            },
            UpEvent::Port(port) => match self.stage {
                Stage::OpenControl => UpFlow {
                    control_port: port,
                    stage: Stage::ReachControl,
                    ..self
                },
                Stage::Register => UpFlow { remote_port: port, stage: Stage::OpenSsh, ..self },
                _ => UpFlow { ssh_port: port, stage: Stage::ReachSsh, ..self },
            },
            UpEvent::Sessions(sessions) => {
                let loaded = UpFlow { sessions, forward: 0, ..self };
                loaded.settle()
            },
            UpEvent::Alive(alive) => if alive {
                assert(self.forward < self.req.forward_ports.len());
                let next: usize = self.forward + 1;
                let passed = UpFlow { forward: next, stage: Stage::LoadState, ..self };
                assert(passed@.settle() == (FlowView {
                    forward: (self@.forward + 1) as nat,
                    ..self@
                }).settle());
                passed.settle()
            } else {
                let error = match self.due() {
                    Some(spec) => match self.claim(&spec) {
                        ForwardClaim::Owner { service, pid } => commands::stale_message(
                            spec.local_port,
                            service.as_str(),
                            Some(pid),
                        ),
                        _ => String::new(),
                    },
                    None => String::new(),
                };
                self.fail(error)
            },
            UpEvent::Pid(pid) => {
                let spawned = UpFlow { pid, ..self };
                spawned.past_spawn()
            },
        }
    }

    /// Takes that the action that was due is done.
    fn advance_done(self) -> (r: Self)
        requires
            self@.can_take(UpEvent::Done),
        ensures
            r@ == self@.after(UpEvent::Done),
    {
        proof {
            use_type_invariant(&self);
        }
        match self.stage {
            Stage::Plugin => if self.req.local_service_port.is_none() {
                self.to_bootstrap()
            } else {
                self.at(Stage::ServicePort)
            },
            Stage::ServicePort => self.to_bootstrap(),
            Stage::Bootstrap => self.past_bootstrap(),
            Stage::ReachControl => self.at(Stage::Register),
            Stage::ReachSsh => self.at(Stage::LoadState),
            Stage::ForwardPort => self.at(Stage::OpenForward),
            Stage::OpenForward => self.at(Stage::ReachForward),
            Stage::ReachForward => {
                let ghost before = self@;
                assert(self.forward < self.req.forward_ports.len());
                let next: usize = self.forward + 1;
                let opened = self.due();
                let mut owned: Vec<u16> = slice_to_vec(self.owned.as_slice());
                if let Some(spec) = opened {
                    owned.push(spec.local_port);
                }
                let flow = UpFlow { forward: next, owned, stage: Stage::LoadState, ..self };
                assert(flow@.settle() == (FlowView {
                    forward: (before.forward + 1) as nat,
                    owned: before.owned.push(before.due().0),
                    ..before
                }).settle());
                flow.settle()
            },
            Stage::Health => self.at(Stage::Reverse),
            Stage::Reverse => self.at(Stage::Record),
            Stage::Record => self.at(Stage::Done),
            _ => self,
        }
    }

    fn bastion_port(&self, remote_port: u16) -> (r: UpAction)
        ensures
            opens_port(self@, r, remote_port),
    {
        UpAction::OpenPortForward {
            spec: PortForwardSpec {
                target: self.instance_id.clone(),
                remote_port,
                region: self.req.region.clone(),
            },
        }
    }

    /// The action that is due.
    pub fn action(&self) -> (r: UpAction)
        ensures
            is_due(self@, r),
    {
        proof {
            use_type_invariant(self);
        }
        let service_port: u16 = match self.req.local_service_port {
            Some(p) => p,
            None => 0,
        };
        match self.stage {
            Stage::Plugin => UpAction::CheckPlugin,
            Stage::ServicePort => UpAction::CheckPortFree { port: service_port },
            Stage::Bootstrap => UpAction::RunBootstrap {
                command: match &self.req.bootstrap_command {
                    Some(c) => c.clone(),
                    None => String::new(),
                },
            },
            Stage::Locate => UpAction::LocateBastion {
                region: self.req.region.clone(),
                name: self.bastion.clone(),
            },
            Stage::OpenControl => self.bastion_port(DEFAULT_CONTROL_PLANE_PORT),
            Stage::ReachControl => UpAction::ReachPort {
                port: self.control_port,
                timeout_secs: REACH_TIMEOUT_SECS,
            },
            Stage::Register => UpAction::Register {
                endpoint: BastionEndpoint::new("127.0.0.1", self.control_port),
                request: RegisterRequest {
                    user: self.req.user.clone(),
                    service: self.req.service.clone(),
                },
            },
            Stage::OpenSsh => self.bastion_port(SSH_PORT),
            Stage::ReachSsh => UpAction::ReachPort {
                port: self.ssh_port,
                timeout_secs: REACH_TIMEOUT_SECS,
            },
            Stage::LoadState => UpAction::LoadState,
            Stage::ProbeOwner => match self.due() {
                Some(spec) => match self.claim(&spec) {
                    ForwardClaim::Owner { pid, .. } => UpAction::ProbePid { pid },
                    _ => UpAction::LoadState,
                },
                None => UpAction::LoadState,
            },
            Stage::ForwardPort => match self.due() {
                Some(spec) => UpAction::CheckPortFree { port: spec.local_port },
                None => UpAction::LoadState,
            },
            Stage::OpenForward => match self.due() {
                Some(spec) => UpAction::OpenRemoteForward {
                    spec: RemoteHostForwardSpec {
                        target: self.instance_id.clone(),
                        remote_host: spec.remote_host,
                        remote_port: spec.remote_port,
                        local_port: spec.local_port,
                        region: self.req.region.clone(),
                    },
                },
                None => UpAction::LoadState,
            },
            Stage::ReachForward => match self.due() {
                Some(spec) => UpAction::ReachPort {
                    port: spec.local_port,
                    timeout_secs: REACH_TIMEOUT_SECS,
                },
                None => UpAction::LoadState,
            },
            Stage::Spawn => UpAction::SpawnService { command: self.req.run_command.clone() },
            Stage::Health => UpAction::AwaitHealth {
                port: service_port,
                path: match &self.req.health_check_path {
                    Some(p) => p.clone(),
                    None => String::new(),
                },
                timeout_ms: self.req.health_timeout_ms,
                poll_interval_ms: HEALTH_POLL_MS,
            },
            Stage::Reverse => UpAction::OpenReverse {
                config: SshConfig {
                    host: "127.0.0.1".to_owned(),
                    port: self.ssh_port,
                    username: self.req.ssh_username.clone(),
                    auth: SshAuth::Agent,
                    keepalive_secs: self.req.ssh_keepalive_secs,
                },
                local_port: service_port,
                remote_port: self.remote_port,
            },
            Stage::Record => UpAction::RecordSession {
                user: self.req.user.clone(),
                service: self.req.service.clone(),
                // Zero ports in the recorded state mark a worker.
                local_port: service_port,
                remote_port: if self.req.local_service_port.is_some() {
                    self.remote_port
                } else {
                    0
                },
                pid: self.pid,
                forward_local_ports: slice_to_vec(self.owned.as_slice()),
            },
            Stage::Done => UpAction::Finish,
            Stage::Failed => UpAction::Abort { message: self.error.clone() },
        }
    }

    /// What the flow has set up, once it is through.
    pub fn session(self) -> (r: ActiveSession)
        requires
            self@.stage is Done,
        ensures
            r.user == self@.req.user,
            r.service == self@.req.service,
            r.local_port == self@.req.local_service_port,
            r.remote_port == (if self@.is_worker() {
                None
            } else {
                Some(self@.remote_port)
            }),
            r.pid == self@.pid,
            self@.is_worker() ==> r.cp_endpoint is None,
            !self@.is_worker() ==> (r.cp_endpoint matches Some(e) && e.host@ == "127.0.0.1"@
                && e.port == self@.control_port),
    {
        let worker = self.req.local_service_port.is_none();
        ActiveSession {
            local_port: self.req.local_service_port,
            remote_port: if worker {
                None
            } else {
                Some(self.remote_port)
            },
            pid: self.pid,
            cp_endpoint: if worker {
                None
            } else {
                Some(BastionEndpoint::new("127.0.0.1", self.control_port))
            },
            user: self.req.user,
            service: self.req.service,
        }
    }
}

/// How many actions there are still to come at the most.
pub open spec fn actions_left(v: FlowView) -> int {
    let all = v.req.forward_ports@.len() as int;
    let here = 6 + 4 * (all - v.forward);
    let base = 6 + 4 * all;
    match v.stage {
        Stage::Plugin => base + 10,
        Stage::ServicePort => base + 9,
        Stage::Bootstrap => base + 8,
        Stage::Locate => base + 7,
        Stage::OpenControl => base + 6,
        Stage::ReachControl => base + 5,
        Stage::Register => base + 4,
        Stage::OpenSsh => base + 3,
        Stage::ReachSsh => base + 2,
        Stage::LoadState => base + 1,
        Stage::ProbeOwner | Stage::ForwardPort => here,
        Stage::OpenForward => here - 1,
        Stage::ReachForward => here - 2,
        Stage::Spawn => 5,
        Stage::Health => 4,
        Stage::Reverse => 3,
        Stage::Record => 2,
        Stage::Done | Stage::Failed => 0,
    }
}

/// The flow comes to an end: every action leaves fewer to come, whatever it
/// gives. It stays coherent, and works on one and the same request.
pub proof fn law_up_ends(v: FlowView, event: UpEvent)
    requires
        v.coherent(),
        v.can_take(event),
    ensures
        0 <= actions_left(v.after(event)) < actions_left(v),
        v.after(event).coherent(),
        v.after(event).req == v.req,
        v.after(event).bastion == v.bastion,
{
}

/// Inbound routing: all that has to do with the control plane and the reverse
/// tunnel.
pub open spec fn routes_inbound(stage: Stage) -> bool {
    stage is ServicePort || stage is OpenControl || stage is ReachControl || stage is Register
        || stage is OpenSsh || stage is ReachSsh || stage is Health || stage is Reverse
}

/// A worker never registers, opens no reverse tunnel and waits for no health.
pub proof fn law_worker_never_routes(v: FlowView, event: UpEvent)
    requires
        v.is_worker(),
        !routes_inbound(v.stage),
        v.can_take(event),
    ensures
        !routes_inbound(v.after(event).stage),
        !routes_inbound(FlowView::start(v.req, v.bastion).stage),
{
}

/// The actions of a worker that has no forwards.
pub open spec fn is_local(stage: Stage) -> bool {
    stage is Bootstrap || stage is Spawn || stage is Record || stage is Done || stage is Failed
}

/// A worker without forwards never touches the bastion: it bootstraps, spawns
/// and records.
pub proof fn law_worker_without_forwards_stays_local(v: FlowView, event: UpEvent)
    requires
        v.is_worker(),
        v.req.forward_ports@.len() == 0,
        is_local(v.stage),
        v.can_take(event),
    ensures
        is_local(v.after(event).stage),
        is_local(FlowView::start(v.req, v.bastion).stage),
{
}

/// What comes before the bootstrap.
pub open spec fn before_bootstrap(stage: Stage) -> bool {
    stage is Plugin || stage is ServicePort
}

/// Where there is a bootstrap, nothing but the checks of the machine itself
/// comes before it: no tunnel is opened and no service spawned until it has
/// succeeded.
pub proof fn law_bootstrap_comes_first(v: FlowView, event: UpEvent)
    requires
        v.req.bootstrap_command is Some,
        before_bootstrap(v.stage) || v.stage is Bootstrap,
        v.can_take(event),
    ensures
        ({
            let start = FlowView::start(v.req, v.bastion).stage;
            before_bootstrap(start) || start is Bootstrap
        }),
        before_bootstrap(v.stage) ==> before_bootstrap(v.after(event).stage) || v.after(
            event,
        ).stage is Bootstrap || v.after(event).stage is Failed,
        v.stage is Bootstrap && event is Failed ==> v.after(event).stage is Failed,
{
}

/// The forwards that are recorded as the flow's own are exactly those that it
/// opened and could reach; one that a live session of the user has is passed
/// over.
pub proof fn law_owned_ports_were_opened(v: FlowView, event: UpEvent)
    requires
        v.can_take(event),
    ensures
        v.after(event).owned == (if v.stage is ReachForward && event is Done {
            v.owned.push(v.due().0)
        } else {
            v.owned
        }),
        v.stage is ProbeOwner && event == UpEvent::Alive(true) ==> v.after(event).forward
            == v.forward + 1,
{
}

/// A forward whose port another session of the user claims is never opened
/// while that session lives, and not either when it is gone.
pub proof fn law_claimed_forward_is_not_opened(v: FlowView, event: UpEvent)
    requires
        v.stage is ProbeOwner,
        v.coherent(),
        v.can_take(event),
        v.after(event).stage is OpenForward || v.after(event).stage is ForwardPort,
    ensures
        v.after(event).forward == v.forward + 1,
        v.after(event).owner() is None,
{
}

/// The service is reported up only once its session is recorded, and it is
/// recorded only once it is spawned and, unless it is a worker, the reverse
/// tunnel stands.
pub proof fn law_up_is_reported_last(v: FlowView, event: UpEvent)
    requires
        v.coherent(),
        v.can_take(event),
    ensures
        v.after(event).stage is Done ==> v.stage is Record && event is Done,
        v.after(event).stage is Record ==> (if v.is_worker() {
            v.stage is Spawn
        } else {
            v.stage is Reverse
        }),
        v.after(event).stage is Reverse ==> v.stage is Health || (v.stage is Spawn
            && v.req.health_check_path is None),
        v.after(event).stage is Health ==> v.stage is Spawn,
{
}

/// The port that the bastion answered is the one that the reverse tunnel and
/// the record are about: nothing but the registration sets it.
pub proof fn law_registered_port_is_kept(v: FlowView, event: UpEvent)
    requires
        v.can_take(event),
    ensures
        v.after(event).remote_port == (if v.stage is Register && event is Port {
            event->Port_0
        } else {
            v.remote_port
        }),
        v.after(event).pid == (if v.stage is Spawn && event is Pid {
            event->Pid_0
        } else {
            v.pid
        }),
{
}

/// Where the flow stands after these events.
#[verifier::opaque]
pub open spec fn up_run(v: FlowView, events: Seq<UpEvent>) -> FlowView
    decreases events.len(),
{
    if events.len() == 0 {
        v
    } else {
        up_run(v, events.drop_last()).after(events.last())
    }
}

/// Each event is one that the action that was due can give.
pub open spec fn up_possible(v: FlowView, events: Seq<UpEvent>) -> bool
    decreases events.len(),
{
    events.len() == 0 || (up_possible(v, events.drop_last()) && up_run(
        v,
        events.drop_last(),
    ).can_take(events.last()))
}

/// At this event the bastion answered the registration with this port.
pub open spec fn answered_at(v: FlowView, events: Seq<UpEvent>, i: int, port: u16) -> bool {
    0 <= i < events.len() && events[i] == UpEvent::Port(port) && up_run(
        v,
        events.take(i),
    ).stage is Register
}

/// At this event the service was spawned as this process.
pub open spec fn spawned_at(v: FlowView, events: Seq<UpEvent>, i: int, pid: u32) -> bool {
    0 <= i < events.len() && events[i] == UpEvent::Pid(pid) && up_run(
        v,
        events.take(i),
    ).stage is Spawn
}

/// The local ports of the forwards that were opened and could be reached.
pub open spec fn reached(v: FlowView, events: Seq<UpEvent>) -> Seq<u16>
    decreases events.len(),
{
    if events.len() == 0 {
        seq![]
    } else {
        let before = up_run(v, events.drop_last());
        let ports = reached(v, events.drop_last());
        if before.stage is ReachForward && events.last() is Done {
            ports.push(before.due().0)
        } else {
            ports
        }
    }
}

/// The service has been spawned.
pub open spec fn past_spawning(stage: Stage) -> bool {
    stage is Health || stage is Reverse || stage is Record || stage is Done
}

/// The pair has been registered, unless the flow is that of a worker.
pub open spec fn past_registering(stage: Stage) -> bool {
    stage is OpenSsh || stage is ReachSsh || stage is LoadState || stage is ProbeOwner
        || stage is ForwardPort || stage is OpenForward || stage is ReachForward || stage is Spawn
        || past_spawning(stage)
}

/// One step keeps what is recorded, or takes it from the event.
#[verifier::rlimit(40)]
proof fn lemma_record_step(v: FlowView, event: UpEvent)
    requires
        v.coherent(),
        v.can_take(event),
    ensures
        ({
            let end = v.after(event);
            &&& end.coherent()
            &&& end.req == v.req
            &&& end.bastion == v.bastion
            &&& end.owned == (if v.stage is ReachForward && event is Done {
                v.owned.push(v.due().0)
            } else {
                v.owned
            })
            &&& past_registering(end.stage) && !end.is_worker() ==> ({
                ||| v.stage is Register && event == UpEvent::Port(end.remote_port)
                ||| past_registering(v.stage) && v.remote_port == end.remote_port
            })
            &&& past_spawning(end.stage) ==> ({
                ||| v.stage is Spawn && event == UpEvent::Pid(end.pid)
                ||| past_spawning(v.stage) && v.pid == end.pid
            })
        }),
{
}

/// What a whole run records is what came of its actions: the port is the one that
/// the bastion answered at the registration, the process is the one that was
/// spawned, and the forwards are exactly those that were opened and could be
/// reached, in their order.
#[verifier::rlimit(40)]
#[verifier::spinoff_prover]
pub proof fn law_record_is_what_came_about(req: UpRequest, bastion: Seq<char>, events: Seq<UpEvent>)
    requires
        up_possible(FlowView::start(req, bastion), events),
    ensures
        ({
            let start = FlowView::start(req, bastion);
            let end = up_run(start, events);
            &&& end.coherent()
            &&& end.req == req
            &&& end.bastion == bastion
            &&& end.owned == reached(start, events)
            &&& past_registering(end.stage) && !end.is_worker() ==> exists|i: int| #[trigger]
                answered_at(start, events, i, end.remote_port)
            &&& past_spawning(end.stage) ==> exists|i: int| #[trigger]
                spawned_at(start, events, i, end.pid)
        }),
    decreases events.len(),
{
    let start = FlowView::start(req, bastion);
    let end = up_run(start, events);
    if events.len() == 0 {
        reveal(up_run);
    } else {
        let front = events.drop_last();
        let mid = up_run(start, front);
        let last = events.last();
        let n = events.len() - 1;
        law_record_is_what_came_about(req, bastion, front);
        lemma_record_step(mid, last);
        assert(end == mid.after(last)) by {
            reveal(up_run);
        }
        assert(events.take(n) =~= front);
        assert(events[n] == last);
        if past_registering(end.stage) && !end.is_worker() {
            if mid.stage is Register && last is Port {
                assert(answered_at(start, events, n, end.remote_port));
            } else {
                let i = choose|i: int| #[trigger] answered_at(start, front, i, mid.remote_port);
                assert(front.take(i) =~= events.take(i));
                assert(answered_at(start, events, i, end.remote_port));
            }
        }
        if past_spawning(end.stage) {
            if mid.stage is Spawn && last is Pid {
                assert(spawned_at(start, events, n, end.pid));
            } else {
                let i = choose|i: int| #[trigger] spawned_at(start, front, i, mid.pid);
                assert(front.take(i) =~= events.take(i));
                assert(spawned_at(start, events, i, end.pid));
            }
        }
    }
}

} // verus!
