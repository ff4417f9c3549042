//! The configuration of a project and the identity of its user.

use vstd::prelude::*;
use crate::files;
use crate::text;

verus! {

/// Name of the configuration file.
pub const CONFIG_FILE: &'static str = "ephemwork.toml";

#[derive(Debug, PartialEq, Eq)]
pub struct Config {
    pub tunnel: TunnelConfig,
    /// The services under their names, none twice: see `named_once`.
    pub service: Vec<(String, ServiceConfig)>,
}

#[derive(Debug, PartialEq, Eq)]
pub struct TunnelConfig {
    /// The `type` of the tunnel.
    pub kind: String,
    pub region: String,
    pub instance_type: String,
    /// Project identifier. All bastion AWS resources are named
    /// `ephemwork-{project_name}-bastion[-suffix]` so two projects in the
    /// same AWS account never collide and re-running `bastion init` is
    /// idempotent (the existing instance is reused).
    pub project_name: String,
    /// If set, `bastion init --live` looks up the supplied `--subnet-id`
    /// before creating anything and aborts when the subnet's VPC doesn't
    /// match. Pin this to the staging VPC ID so a misfired init with prod
    /// values cannot accidentally provision a bastion in prod.
    pub expected_vpc_id: Option<String>,
}

#[derive(Debug, PartialEq, Eq)]
pub struct ServiceConfig {
    /// Port the local service listens on. When set, ephemwork tunnels
    /// X-Ephemwork-tagged staging traffic to `127.0.0.1:<port>` via the
    /// bastion. Omit for a "worker" service that doesn't receive HTTP, e.g. a
    /// local SQS poller.
    pub port: Option<u16>,
    pub build_command: Option<String>,
    pub run_command: String,
    pub health_check_path: Option<String>,
    /// Outbound forwards opened through the bastion via SSM's
    /// `AWS-StartPortForwardingSessionToRemoteHost` document. Each entry is
    /// `"local_port:remote_host:remote_port"`. The local service can then
    /// reach VPC-private services (staging RDS, ElastiCache, internal APIs)
    /// at `127.0.0.1:<local_port>`.
    pub forward_ports: Vec<String>,
    /// Optional shell command run before `run_command` on every
    /// `ephemwork up`. Use it to hydrate env files (e.g. fetch staging
    /// credentials from Secrets Manager into `.env.staging`), apply
    /// migrations, or anything else the local service needs in place
    /// before it starts. Runs via `sh -c` and inherits ephemwork's env;
    /// a non-zero exit aborts the up flow before any tunnel is opened.
    pub bootstrap_command: Option<String>,
}

/// What is wrong with a service.
#[derive(Debug, Clone, Copy, PartialEq, Eq)]
pub enum ServiceFault {
    ZeroPort,
    EmptyRunCommand,
    ForwardsWithoutPort,
}

/// Why there is no configuration to work with.
#[derive(Debug, Clone, PartialEq, Eq)]
pub enum ConfigError {
    Missing { dir: String },
    /// The text says what failed.
    Reading { path: String, cause: String },
    /// The text says what failed.
    Parsing { path: String, cause: String },
    EmptyType,
    EmptyRegion,
    EmptyInstanceType,
    EmptyProjectName,
    UnsafeProjectName { name: String },
    NoServices,
    Service { name: String, fault: ServiceFault },
}

impl ConfigError {
    pub open spec fn text(self) -> Seq<char> {
        match self {
            ConfigError::Missing { dir } => "no ephemwork.toml in "@ + dir@
                + "; copy ephemwork.toml.example to get started"@,
            ConfigError::Reading { path, .. } => "reading "@ + path@,
            ConfigError::Parsing { path, .. } => "parsing "@ + path@,
            ConfigError::EmptyType => "tunnel.type must not be empty"@,
            ConfigError::EmptyRegion => "tunnel.region must not be empty"@,
            ConfigError::EmptyInstanceType => "tunnel.instance_type must not be empty"@,
            ConfigError::EmptyProjectName => "tunnel.project_name must not be empty"@,
            ConfigError::UnsafeProjectName { name } =>
                "tunnel.project_name must be ASCII alnum + `-_` (got "@ + text::quoted(name@)
                + ")"@,
            ConfigError::NoServices => "at least one [service.<name>] entry is required"@,
            ConfigError::Service { name, fault } => "service."@ + name@ + (match fault {
                ServiceFault::ZeroPort =>
                    ": port=0 is not valid; omit `port` for a worker service"@,
                ServiceFault::EmptyRunCommand => ": run_command must not be empty"@,
                ServiceFault::ForwardsWithoutPort =>
                    ": forward_ports requires `port` (worker services don't open SSM tunnels — run an HTTP service alongside to share its tunnels)"@,
            }),
        }
    }

    /// The error in words.
    pub fn message(&self) -> (r: String)
        ensures
            r@ == self.text(),
    {
        match self {
            ConfigError::Missing { dir } => {
                let mut out = "no ephemwork.toml in ".to_owned();
                out.append(dir.as_str());
                out.append("; copy ephemwork.toml.example to get started");
                out
            },
            ConfigError::Reading { path, .. } => {
                let mut out = "reading ".to_owned();
                out.append(path.as_str());
                out
            },
            ConfigError::Parsing { path, .. } => {
                let mut out = "parsing ".to_owned();
                out.append(path.as_str());
                out
            },
            ConfigError::EmptyType => "tunnel.type must not be empty".to_owned(),
            ConfigError::EmptyRegion => "tunnel.region must not be empty".to_owned(),
            ConfigError::EmptyInstanceType => "tunnel.instance_type must not be empty".to_owned(),
            ConfigError::EmptyProjectName => "tunnel.project_name must not be empty".to_owned(),
            ConfigError::UnsafeProjectName { name } => {
                let mut out = "tunnel.project_name must be ASCII alnum + `-_` (got ".to_owned();
                out.append(text::quote(name.as_str()).as_str());
                out.append(")");
                out
            },
            ConfigError::NoServices => {
                "at least one [service.<name>] entry is required".to_owned()
            },
            ConfigError::Service { name, fault } => {
                let mut out = "service.".to_owned();
                out.append(name.as_str());
                match fault {
                    ServiceFault::ZeroPort => {
                        out.append(": port=0 is not valid; omit `port` for a worker service");
                    },
                    ServiceFault::EmptyRunCommand => {
                        out.append(": run_command must not be empty");
                    },
                    ServiceFault::ForwardsWithoutPort => {
                        out.append(
                            ": forward_ports requires `port` (worker services don't open SSM tunnels — run an HTTP service alongside to share its tunnels)",
                        );
                    },
                }
                out
            },
        }
    }
}

/// A character that may stand in the name of a project.
pub open spec fn is_name_char(c: char) -> bool {
    ('a' <= c <= 'z') || ('A' <= c <= 'Z') || ('0' <= c <= '9') || c == '-' || c == '_'
}

/// Nothing but characters that may stand in the name of a project.
pub open spec fn is_safe_name(s: Seq<char>) -> bool {
    forall|i: int| 0 <= i < s.len() ==> is_name_char(#[trigger] s[i])
}

fn safe_name(s: &str) -> (r: bool)
    ensures
        r == is_safe_name(s@),
{
    let cs = text::chars_of(s);
    let mut i: usize = 0;
    while i < cs.len()
        invariant
            i <= cs@.len(),
            cs@ == s@,
            forall|j: int| 0 <= j < i ==> is_name_char(#[trigger] cs@[j]),
        decreases cs@.len() - i,
    {
        let c = cs[i];
        if !(('a' <= c && c <= 'z') || ('A' <= c && c <= 'Z') || ('0' <= c && c <= '9') || c == '-'
            || c == '_') {
            assert(!is_name_char(s@[i as int]));
            return false;
        }
        i = i + 1;
    }
    true
}

impl ServiceConfig {
    /// The first thing wrong with a service, if anything is.
    pub open spec fn fault(self) -> Option<ServiceFault> {
        if self.port == Some(0u16) {
            Some(ServiceFault::ZeroPort)
        } else if text::is_blank(self.run_command@) {
            Some(ServiceFault::EmptyRunCommand)
        } else if self.port is None && self.forward_ports@.len() > 0 {
            Some(ServiceFault::ForwardsWithoutPort)
        } else {
            None
        }
    }

    fn find_fault(&self) -> (r: Option<ServiceFault>)
        ensures
            r == self.fault(),
    {
        if let Some(0) = self.port {
            return Some(ServiceFault::ZeroPort);
        }
        if text::blank(self.run_command.as_str()) {
            return Some(ServiceFault::EmptyRunCommand);
        }
        if self.port.is_none() && self.forward_ports.len() > 0 {
            return Some(ServiceFault::ForwardsWithoutPort);
        }
        None
    }
}

impl TunnelConfig {
    /// The first thing wrong with the tunnel, if anything is.
    pub open spec fn faulted(self, error: ConfigError) -> bool {
        if text::is_blank(self.kind@) {
            error == ConfigError::EmptyType
        } else if text::is_blank(self.region@) {
            error == ConfigError::EmptyRegion
        } else if text::is_blank(self.instance_type@) {
            error == ConfigError::EmptyInstanceType
        } else if text::is_blank(self.project_name@) {
            error == ConfigError::EmptyProjectName
        } else {
            &&& !is_safe_name(self.project_name@)
            &&& error matches ConfigError::UnsafeProjectName { name } && name@ == self.project_name@
        }
    }

    /// Nothing is wrong with the tunnel.
    pub open spec fn sound(self) -> bool {
        &&& !text::is_blank(self.kind@)
        &&& !text::is_blank(self.region@)
        &&& !text::is_blank(self.instance_type@)
        &&& !text::is_blank(self.project_name@)
        &&& is_safe_name(self.project_name@)
    }
}

impl Config {
    /// No two services have the same name.
    pub open spec fn named_once(self) -> bool {
        forall|i: int, j: int|
            0 <= i < j < self.service@.len() ==> (#[trigger] self.service@[i]).0@ != (
            #[trigger] self.service@[j]).0@
    }

    /// Nothing is wrong with the configuration.
    pub open spec fn sound(self) -> bool {
        &&& self.tunnel.sound()
        &&& self.service@.len() > 0
        &&& forall|i: int|
            0 <= i < self.service@.len() ==> (#[trigger] self.service@[i]).1.fault() is None
    }

    /// The error that a configuration with a fault gives: the first fault, the
    /// tunnel before the services and the services in their order.
    pub open spec fn faulted(self, error: ConfigError) -> bool {
        if !self.tunnel.sound() {
            self.tunnel.faulted(error)
        } else if self.service@.len() == 0 {
            error == ConfigError::NoServices
        } else {
            exists|at: int|
                {
                    &&& 0 <= at < self.service@.len()
                    &&& forall|i: int|
                        0 <= i < at ==> (#[trigger] self.service@[i]).1.fault() is None
                    &&& #[trigger] self.service@[at].1.fault() matches Some(fault) && (
                    error matches ConfigError::Service { name, fault: f } && name@
                        == self.service@[at].0@ && f == fault)
                }
        }
    }

    /// Configuration of the directory that the program runs in. The arguments
    /// are the file system: whether a file is there and what it holds, or what
    /// failed; and the parser of TOML, which gives the value, with no service
    /// twice, or says why it cannot.
    pub fn load(
        present: impl Fn(&String) -> bool,
        read: impl Fn(&String) -> Result<String, String>,
        parse: impl Fn(&String) -> Result<Config, String>,
    ) -> (r: Result<Self, ConfigError>)
        requires
            forall|s: String| #[trigger] present.requires((&s,)),
            forall|s: String| #[trigger] read.requires((&s,)),
            forall|s: String| #[trigger] parse.requires((&s,)),
            forall|s: String, config: Config| #[trigger]
                parse.ensures((&s,), Ok(config)) ==> config.named_once(),
        ensures
            match r {
                Ok(config) => config.sound() && config.named_once() && exists|path: String, content: String|
                    {
                        &&& path@ == files::below("."@, CONFIG_FILE@)
                        &&& present.ensures((&path,), true)
                        &&& #[trigger] read.ensures((&path,), Ok(content))
                        &&& parse.ensures((&content,), Ok(config))
                    },
                Err(ConfigError::Missing { dir }) => dir@ == "."@ && exists|path: String|
                    path@ == files::below("."@, CONFIG_FILE@) && #[trigger] present.ensures(
                        (&path,),
                        false,
                    ),
                Err(ConfigError::Reading { path, cause }) => {
                    &&& path@ == files::below("."@, CONFIG_FILE@)
                    &&& present.ensures((&path,), true)
                    &&& read.ensures((&path,), Err(cause))
                },
                Err(ConfigError::Parsing { path, cause }) => {
                    &&& path@ == files::below("."@, CONFIG_FILE@)
                    &&& present.ensures((&path,), true)
                    &&& exists|content: String| #[trigger]
                        read.ensures((&path,), Ok(content)) && parse.ensures(
                            (&content,),
                            Err(cause),
                        )
                },
                Err(e) => exists|path: String, content: String, config: Config|
                    {
                        &&& path@ == files::below("."@, CONFIG_FILE@)
                        &&& present.ensures((&path,), true)
                        &&& #[trigger] read.ensures((&path,), Ok(content))
                        &&& #[trigger] parse.ensures((&content,), Ok(config))
                        &&& !config.sound()
                        &&& config.faulted(e)
                    },
            },
    {
        let path = match find_config_in(".", present) {
            Ok(p) => p,
            Err(e) => {
                return Err(e);
            },
        };
        let content = match read(&path) {
            Ok(s) => s,
            Err(cause) => {
                return Err(ConfigError::Reading { path, cause });
            },
        };
        let config = match parse(&content) {
            Ok(c) => c,
            Err(cause) => {
                return Err(ConfigError::Parsing { path, cause });
            },
        };
        assert(read.ensures((&path,), Ok(content)));
        assert(parse.ensures((&content,), Ok(config)));
        match config.validate() {
            Ok(_) => Ok(config),
            Err(e) => Err(e),
        }
    }

    pub fn validate(&self) -> (r: Result<(), ConfigError>)
        ensures
            r is Ok <==> self.sound(),
            r matches Err(e) ==> self.faulted(e),
    {
        if text::blank(self.tunnel.kind.as_str()) {
            return Err(ConfigError::EmptyType);
        }
        if text::blank(self.tunnel.region.as_str()) {
            return Err(ConfigError::EmptyRegion);
        }
        if text::blank(self.tunnel.instance_type.as_str()) {
            return Err(ConfigError::EmptyInstanceType);
        }
        if text::blank(self.tunnel.project_name.as_str()) {
            return Err(ConfigError::EmptyProjectName);
        }
        if !safe_name(self.tunnel.project_name.as_str()) {
            return Err(
                ConfigError::UnsafeProjectName { name: self.tunnel.project_name.clone() },
            );
        }
        if self.service.len() == 0 {
            return Err(ConfigError::NoServices);
        }
        let mut i: usize = 0;
        while i < self.service.len()
            invariant
                i <= self.service@.len(),
                self.tunnel.sound(),
                self.service@.len() > 0,
                forall|j: int|
                    0 <= j < i ==> (#[trigger] self.service@[j]).1.fault() is None,
            decreases self.service@.len() - i,
        {
            let svc = &self.service[i].1;
            match svc.find_fault() {
                Some(fault) => {
                    assert(self.service@[i as int].1.fault() is Some);
                    return Err(ConfigError::Service { name: self.service[i].0.clone(), fault });
                },
                None => {},
            }
            i = i + 1;
        }
        Ok(())
    }
}

/// The path of the configuration file in `dir`, where it is there.
pub fn find_config_in(dir: &str, present: impl Fn(&String) -> bool) -> (r: Result<
    String,
    ConfigError,
>)
    requires
        forall|s: String| #[trigger] present.requires((&s,)),
    ensures
        match r {
            Ok(path) => path@ == files::below(dir@, CONFIG_FILE@) && present.ensures((&path,), true),
            Err(e) => e matches ConfigError::Missing { dir: d } && d@ == dir@ && (exists|path: String|
                path@ == files::below(dir@, CONFIG_FILE@) && #[trigger] present.ensures(
                    (&path,),
                    false,
                )),
        },
{
    let path = files::join_path(dir, CONFIG_FILE);
    if present(&path) {
        Ok(path)
    } else {
        assert(present.ensures((&path,), false));
        Err(ConfigError::Missing { dir: dir.to_owned() })
    }
}

/// Why there is no user.
#[derive(Debug, Clone, PartialEq, Eq)]
pub enum UserError {
    /// Asking git failed; the text says how.
    Git(String),
    /// Git has no e-mail address.
    EmailNotSet,
    /// The e-mail address has nothing before its `@`.
    NoIdentity,
}

impl UserError {
    pub open spec fn text(self) -> Seq<char> {
        match self {
            UserError::Git(e) => e@,
            UserError::EmailNotSet => "git user.email not set; configure it or set EPHEMWORK_USER"@,
            UserError::NoIdentity =>
                "could not derive a user identity from git user.email; set EPHEMWORK_USER"@,
        }
    }

    /// The error in words.
    pub fn message(&self) -> (r: String)
        ensures
            r@ == self.text(),
    {
        match self {
            UserError::Git(e) => e.clone(),
            UserError::EmailNotSet => {
                "git user.email not set; configure it or set EPHEMWORK_USER".to_owned()
            },
            UserError::NoIdentity => {
                "could not derive a user identity from git user.email; set EPHEMWORK_USER".to_owned()
            },
        }
    }
}

/// The part of an e-mail address before its first `@`, without white space
/// round it; all of it where it has none.
pub open spec fn local_part(email: Seq<char>) -> Seq<char> {
    text::trimmed(text::split_on(email, '@')[0])
}

/// The user of an e-mail address.
pub fn user_of_email(email: &str) -> (r: Result<String, UserError>)
    ensures
        match r {
            Ok(user) => user@ == local_part(email@) && user@.len() > 0,
            Err(e) => e == UserError::NoIdentity && local_part(email@).len() == 0,
        },
{
    let cs = text::chars_of(email);
    let n: usize = text::position(cs.as_slice(), '@');
    let local = vstd::slice::slice_subrange(cs.as_slice(), 0, n);
    proof {
        assert(local@ =~= email@.take(n as int));
        if n == email@.len() {
            assert(email@.take(n as int) =~= email@);
        }
        assert(text::split_on(email@, '@')[0] == local@);
    }
    let user = text::trim(local);
    if user.len() == 0 {
        return Err(UserError::NoIdentity);
    }
    Ok(text::string_of(user))
}

/// The e-mail address that `git config user.email` printed, where it
/// succeeded.
pub fn email_from_git(success: bool, stdout: &[u8]) -> (r: Result<String, UserError>)
    ensures
        match r {
            Ok(email) => success && email@ == text::trimmed(text::lossy(stdout@)),
            Err(e) => !success && e == UserError::EmailNotSet,
        },
{
    if !success {
        return Err(UserError::EmailNotSet);
    }
    Ok(text::trim_str(text::utf8_lossy(stdout).as_str()))
}

/// Identity used in the `X-Ephemwork: <user>:<service>` header.
///
/// Resolution order:
///   1. the explicit override, where it is not blank
///   2. local part of the e-mail address that git has, which is asked only then
pub fn resolve_user(
    env_override: Option<String>,
    git_email: impl FnOnce() -> Result<String, UserError>,
) -> (r: Result<String, UserError>)
    requires
        (env_override matches Some(u) && !text::is_blank(u@)) || git_email.requires(()),
    ensures
        if env_override matches Some(u) && !text::is_blank(u@) {
            r matches Ok(user) && user@ == text::trimmed(env_override->0@)
        } else {
            exists|email: Result<String, UserError>|
                {
                    &&& #[trigger] git_email.ensures((), email)
                    &&& match email {
                        Err(e) => r == Err::<String, UserError>(e),
                        Ok(s) => match r {
                            Ok(user) => user@ == local_part(s@) && user@.len() > 0,
                            Err(e) => e == UserError::NoIdentity && local_part(s@).len() == 0,
                        },
                    }
                }
        },
{
    if let Some(u) = env_override {
        if !text::blank(u.as_str()) {
            return Ok(text::trim_str(u.as_str()));
        }
    }
    match git_email() {
        Err(e) => Err(e),
        Ok(email) => user_of_email(email.as_str()),
    }
}

/// The text is more than white space.
pub open spec fn says_something(s: Seq<char>) -> bool {
    exists|i: int| 0 <= i < s.len() && !text::is_white(#[trigger] s[i])
}

/// A configuration passes exactly if it says what kind of tunnel, which region, which
/// kind of instance and which project, the project in letters, digits, dashes and
/// underscores; and has a service, each with a command, with no port zero, and with
/// forwards only beside a port.
pub proof fn law_config_passes(config: Config, r: Result<(), ConfigError>)
    requires
        call_ensures(Config::validate, (&config,), r),
    ensures
        r is Ok <==> {
            &&& says_something(config.tunnel.kind@)
            &&& says_something(config.tunnel.region@)
            &&& says_something(config.tunnel.instance_type@)
            &&& says_something(config.tunnel.project_name@)
            &&& forall|i: int|
                0 <= i < config.tunnel.project_name@.len() ==> name_chars().contains(
                    #[trigger] config.tunnel.project_name@[i],
                )
            &&& config.service@.len() > 0
            &&& forall|i: int|
                0 <= i < config.service@.len() ==> {
                    let svc = (#[trigger] config.service@[i]).1;
                    &&& svc.port != Some(0u16)
                    &&& says_something(svc.run_command@)
                    &&& svc.port is None ==> svc.forward_ports@.len() == 0
                }
        },
{
    let name = config.tunnel.project_name@;
    assert forall|i: int| 0 <= i < name.len() implies is_name_char(#[trigger] name[i])
        == name_chars().contains(name[i]) by {
        lemma_name_char(name[i]);
    }
}

/// The characters of a project's name.
pub open spec fn name_chars() -> Seq<char> {
    "abcdefghijklmnopqrstuvwxyzABCDEFGHIJKLMNOPQRSTUVWXYZ0123456789-_"@
}

proof fn lemma_name_char(c: char)
    ensures
        is_name_char(c) <==> name_chars().contains(c),
{
    reveal_strlit("abcdefghijklmnopqrstuvwxyzABCDEFGHIJKLMNOPQRSTUVWXYZ0123456789-_");
    let all = name_chars();
    assert(forall|k: int| 0 <= k < 26 ==> #[trigger] all[k] as u32 == 97 + k);
    assert(forall|k: int| 26 <= k < 52 ==> #[trigger] all[k] as u32 == 65 + k - 26);
    assert(forall|k: int| 52 <= k < 62 ==> #[trigger] all[k] as u32 == 48 + k - 52);
    assert(all[62] == '-' && all[63] == '_' && all.len() == 64);
    if 'a' <= c <= 'z' {
        assert(all[c as u32 - 97] == c);
    } else if 'A' <= c <= 'Z' {
        assert(all[c as u32 - 65 + 26] == c);
    } else if '0' <= c <= '9' {
        assert(all[c as u32 - 48 + 52] == c);
    }
}

/// What is wrong with a configuration is told in this order: the kind of tunnel, the
/// region, the kind of instance, the project and its letters; then that there is no
/// service; then the first service that has a fault, by its name.
pub proof fn law_config_fault_is_the_first(config: Config, e: ConfigError)
    requires
        call_ensures(Config::validate, (&config,), Err(e)),
    ensures
        ({
            let t = config.tunnel;
            let kind = says_something(t.kind@);
            let region = says_something(t.region@);
            let instance = says_something(t.instance_type@);
            let project = says_something(t.project_name@);
            let safe = forall|i: int|
                0 <= i < t.project_name@.len() ==> name_chars().contains(
                    #[trigger] t.project_name@[i],
                );
            match e {
                ConfigError::EmptyType => !kind,
                ConfigError::EmptyRegion => kind && !region,
                ConfigError::EmptyInstanceType => kind && region && !instance,
                ConfigError::EmptyProjectName => kind && region && instance && !project,
                ConfigError::UnsafeProjectName { name } => kind && region && instance && project
                    && !safe && name@ == t.project_name@,
                ConfigError::NoServices => kind && region && instance && project && safe
                    && config.service@.len() == 0,
                ConfigError::Service { name, fault } => kind && region && instance && project
                    && safe && exists|at: int|
                    {
                        &&& 0 <= at < config.service@.len()
                        &&& (#[trigger] config.service@[at]).0@ == name@
                        &&& fault_of(config.service@[at].1, fault)
                        &&& forall|i: int|
                            0 <= i < at ==> {
                                let svc = (#[trigger] config.service@[i]).1;
                                &&& svc.port != Some(0u16)
                                &&& says_something(svc.run_command@)
                                &&& svc.port is None ==> svc.forward_ports@.len() == 0
                            }
                    },
                _ => false,
            }
        }),
{
    let name = config.tunnel.project_name@;
    assert forall|i: int| 0 <= i < name.len() implies is_name_char(#[trigger] name[i])
        == name_chars().contains(name[i]) by {
        lemma_name_char(name[i]);
    }
    assert(config.faulted(e));
    if config.tunnel.sound() && config.service@.len() > 0 {
        let at = choose|at: int|
            {
                &&& 0 <= at < config.service@.len()
                &&& forall|i: int|
                    0 <= i < at ==> (#[trigger] config.service@[i]).1.fault() is None
                &&& #[trigger] config.service@[at].1.fault() matches Some(fault) && (
                e matches ConfigError::Service { name, fault: f } && name@
                    == config.service@[at].0@ && f == fault)
            };
        assert(fault_of(config.service@[at].1, e->Service_fault));
        assert forall|i: int| 0 <= i < at implies ({
            let svc = (#[trigger] config.service@[i]).1;
            &&& svc.port != Some(0u16)
            &&& says_something(svc.run_command@)
            &&& svc.port is None ==> svc.forward_ports@.len() == 0
        }) by {
            assert(config.service@[i].1.fault() is None);
        }
    }
}

/// The service has this fault: a port of zero before all, then no command, then
/// forwards without a port.
pub open spec fn fault_of(svc: ServiceConfig, fault: ServiceFault) -> bool {
    match fault {
        ServiceFault::ZeroPort => svc.port == Some(0u16),
        ServiceFault::EmptyRunCommand => svc.port != Some(0u16) && !says_something(
            svc.run_command@,
        ),
        ServiceFault::ForwardsWithoutPort => says_something(svc.run_command@) && svc.port is None
            && svc.forward_ports@.len() > 0,
    }
}

/// The user of an address is what stands before its first `@`, without white space round
/// it; an address without one is the user as a whole, and one with nothing there names
/// nobody.
pub proof fn law_user_stands_before_the_at(
    name: Seq<char>,
    domain: Seq<char>,
    email: &str,
    r: Result<String, UserError>,
)
    requires
        !name.contains('@'),
        email@ == name + seq!['@'] + domain || email@ == name,
        call_ensures(user_of_email, (email,), r),
    ensures
        match r {
            Ok(user) => says_something(name) && user@ == text::trimmed(name),
            Err(e) => !says_something(name) && e is NoIdentity,
        },
{
    assert forall|i: int| 0 <= i < name.len() implies #[trigger] name[i] != '@' by {
        assert(name.contains(name[i]) || name[i] != '@');
    }
    if email@ == name {
        text::lemma_split_on_last(name, '@');
    } else {
        text::lemma_split_on(name, '@', domain);
    }
    text::lemma_trimmed_empty(name);
}

/// The user is the one that the environment names, if it names any, without white space
/// round it; else the one of git's address; and what git says is wrong is passed on.
pub proof fn law_user_is_resolved<F: FnOnce() -> Result<String, UserError>>(
    named: Option<String>,
    git_email: F,
    r: Result<String, UserError>,
)
    requires
        call_ensures(resolve_user, (named, git_email), r),
    ensures
        named matches Some(u) ==> (says_something(u@) ==> (r matches Ok(user) && user@
            == text::trimmed(u@))),
        (named matches Some(u) ==> !says_something(u@)) ==> exists|email: Result<
            String,
            UserError,
        >| #[trigger]
            git_email.ensures((), email) && match email {
                Err(e) => r == Err::<String, UserError>(e),
                Ok(s) => match r {
                    Ok(user) => user@.len() > 0 && user@ == local_part(s@),
                    Err(e) => e is NoIdentity && local_part(s@).len() == 0,
                },
            },
{
}

/// Git's address counts only if git says that it went well, and then without white space
/// round it.
pub proof fn law_git_address(success: bool, stdout: &[u8], r: Result<String, UserError>)
    requires
        call_ensures(email_from_git, (success, stdout), r),
    ensures
        r is Ok <==> success,
        r matches Ok(email) ==> email@ == text::trimmed(text::lossy(stdout@)),
        r matches Err(e) ==> e is EmailNotSet,
{
}

/// The configuration of a directory is the file `ephemwork.toml` in it.
pub proof fn law_config_file(dir: Seq<char>)
    requires
        dir.len() > 0,
        dir.last() != '/',
    ensures
        files::below(dir, CONFIG_FILE@) == dir + "/ephemwork.toml"@,
{
    reveal_strlit("/");
    reveal_strlit("ephemwork.toml");
    reveal_strlit("/ephemwork.toml");
    assert(files::below(dir, CONFIG_FILE@) =~= dir + "/ephemwork.toml"@);
}

} // verus!
