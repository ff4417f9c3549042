//! What the messages of errors tell.

use vstd::prelude::*;
use crate::aws_bastion_provisioner::VpcMismatch;
use crate::bastion_client::ClientError;
use crate::bastion_provisioner::ProvisionError;
use crate::commands::CommandError;
use crate::config::ConfigError;
use crate::files::LoadError;
use crate::http::RequestError;
use crate::registry::RangeExhausted;
use crate::runner::{HealthError, PortError, Unreachable};
use crate::ssm::{ForwardFault, ForwardPortError};
use crate::text;

verus! {

/// The message holds this text.
pub open spec fn tells(message: Seq<char>, part: Seq<char>) -> bool {
    exists|a: Seq<char>, b: Seq<char>| message == #[trigger] (a + part + b)
}

pub(crate) proof fn lemma_tells(message: Seq<char>, a: Seq<char>, part: Seq<char>, b: Seq<char>)
    requires
        message =~= a + part + b,
    ensures
        tells(message, part),
{
    assert(message == a + part + b);
}

/// The message of a command that came to nothing tells what it is about: the service that
/// is not known and those that are, the forward that a session claims with its port and
/// its process, the bastion that is not there. What another part has to say is passed on.
pub proof fn law_command_error_tells(e: CommandError, r: String)
    requires
        call_ensures(CommandError::message, (&e,), r),
    ensures
        match e {
            CommandError::UnknownService { service, known } => tells(r@, service@) && tells(
                r@,
                known@,
            ),
            CommandError::StaleForward { local_port, service, pid } => {
                &&& tells(r@, text::decimal(local_port as nat))
                &&& tells(r@, text::quoted(service@))
                &&& tells(r@, service@)
                &&& pid matches Some(p) ==> tells(r@, text::decimal(p as nat))
            },
            CommandError::NoBastion { name } => tells(r@, name@),
            CommandError::Provision(inner) => forall|m: String| #[trigger]
                call_ensures(ProvisionError::message, (&inner,), m) ==> r@ == m@,
            CommandError::Vpc(inner) => forall|m: String| #[trigger]
                call_ensures(VpcMismatch::message, (&inner,), m) ==> r@ == m@,
            CommandError::Forward(inner) => forall|m: String| #[trigger]
                call_ensures(ForwardPortError::message, (&inner,), m) ==> r@ == m@,
            CommandError::Registering(_) => true,
        },
{
    let none = Seq::<char>::empty();
    match e {
        CommandError::UnknownService { service, known } => {
            lemma_tells(
                r@,
                "service '"@,
                service@,
                "' not found in ephemwork.toml; known: "@ + known@,
            );
            lemma_tells(
                r@,
                "service '"@ + service@ + "' not found in ephemwork.toml; known: "@,
                known@,
                none,
            );
        },
        CommandError::StaleForward { local_port, service, pid } => {
            let port = text::decimal(local_port as nat);
            let process = crate::commands::option_text(pid);
            let w1 = "local port "@;
            let w2 = " is recorded as owned by sibling session "@;
            let w3 = " (pid "@;
            let w4 = "), but that process is no longer running. Run `ephemwork down "@;
            let w5 = "` to clear the stale entry, then retry."@;
            let quoted = text::quoted(service@);
            assert(r@ == w1 + port + w2 + quoted + w3 + process + w4 + service@ + w5);
            lemma_tells(
                r@,
                w1,
                port,
                w2 + quoted + w3 + process + w4 + service@ + w5,
            );
            lemma_tells(
                r@,
                w1 + port + w2,
                quoted,
                w3 + process + w4 + service@ + w5,
            );
            lemma_tells(
                r@,
                w1 + port + w2 + quoted + w3 + process + w4,
                service@,
                w5,
            );
            if let Some(p) = pid {
                lemma_tells(
                    r@,
                    w1 + port + w2 + quoted + w3 + "Some("@,
                    text::decimal(p as nat),
                    ")"@ + w4 + service@ + w5,
                );
            }
        },
        CommandError::NoBastion { name } => {
            lemma_tells(
                r@,
                "no bastion found (no instance tagged Name="@,
                name@,
                "). Run `ephemwork bastion init --live ...` to provision one."@,
            );
        },
        _ => {},
    }
}

/// A subnet in the wrong network is told with both networks.
pub proof fn law_vpc_mismatch_tells(e: VpcMismatch, r: String)
    requires
        call_ensures(VpcMismatch::message, (&e,), r),
    ensures
        tells(r@, e.subnet_id@),
        tells(r@, " is in "@ + e.actual_vpc@),
        tells(r@, "expected_vpc_id = "@ + e.expected_vpc@),
{
    let a = "refusing to provision: subnet "@;
    let c = " but ephemwork.toml pins tunnel.expected_vpc_id = "@;
    let d = ". Aborting before any AWS resource is created."@;
    lemma_tells(r@, a, e.subnet_id@, " is in "@ + e.actual_vpc@ + c + e.expected_vpc@ + d);
    lemma_tells(r@, a + e.subnet_id@, " is in "@ + e.actual_vpc@, c + e.expected_vpc@ + d);
    reveal_strlit(" but ephemwork.toml pins tunnel.expected_vpc_id = ");
    reveal_strlit("expected_vpc_id = ");
    let front = c.take(c.len() - 18);
    assert(c =~= front + "expected_vpc_id = "@);
    lemma_tells(
        r@,
        a + e.subnet_id@ + " is in "@ + e.actual_vpc@ + front,
        "expected_vpc_id = "@ + e.expected_vpc@,
        d,
    );
}

/// A range that is exhausted is told with both its ends and how many sessions hold it.
pub proof fn law_exhausted_tells(e: RangeExhausted, r: String)
    requires
        call_ensures(RangeExhausted::message, (&e,), r),
    ensures
        tells(
            r@,
            text::decimal(e.range.start as nat) + "..="@ + text::decimal(e.range.end as nat),
        ),
        tells(r@, text::decimal(e.active as nat) + " active sessions"@),
{
    let range = text::decimal(e.range.start as nat) + "..="@ + text::decimal(e.range.end as nat);
    let n = text::decimal(e.active as nat);
    reveal_strlit(" active sessions)");
    reveal_strlit(" active sessions");
    assert(" active sessions)"@ =~= " active sessions"@ + seq![')']);
    lemma_tells(r@, "port range "@, range, " exhausted ("@ + n + " active sessions)"@);
    lemma_tells(
        r@,
        "port range "@ + range + " exhausted ("@,
        n + " active sessions"@,
        seq![')'],
    );
}

/// What is wrong with a port is told with the port, and how long was waited for it.
pub proof fn law_port_errors_tell(
    e: PortError,
    r: String,
    late: Unreachable,
    m: String,
    health: HealthError,
    h: String,
)
    requires
        call_ensures(PortError::message, (&e,), r),
        call_ensures(Unreachable::message, (&late,), m),
        call_ensures(HealthError::message, (&health,), h),
    ensures
        match e {
            PortError::InUse { port } => tells(r@, "local port "@ + text::decimal(port as nat)),
            PortError::Probing { port, .. } => tells(
                r@,
                "127.0.0.1:"@ + text::decimal(port as nat),
            ),
        },
        tells(m@, "127.0.0.1:"@ + text::decimal(late.port as nat)),
        tells(m@, text::duration_text(late.timeout_ms)),
        match health {
            HealthError::Status(code) => tells(h@, text::decimal(code as nat)),
            HealthError::Attempt(cause) => h@ == cause@,
            HealthError::TimedOut => true,
        },
{
    let none = Seq::<char>::empty();
    reveal_strlit("127.0.0.1:");
    reveal_strlit("probing 127.0.0.1:");
    reveal_strlit("port 127.0.0.1:");
    assert("probing 127.0.0.1:"@ =~= "probing 127.0.0.1:"@.take(8) + "127.0.0.1:"@);
    assert("port 127.0.0.1:"@ =~= "port 127.0.0.1:"@.take(5) + "127.0.0.1:"@);
    match e {
        PortError::InUse { port } => {
            let d = text::decimal(port as nat);
            let part = "local port "@ + d;
            lemma_tells(r@, none, part, r@.skip(part.len() as int));
        },
        PortError::Probing { port, .. } => {
            lemma_tells(
                r@,
                "probing 127.0.0.1:"@.take(8),
                "127.0.0.1:"@ + text::decimal(port as nat),
                none,
            );
        },
    }
    let port = text::decimal(late.port as nat);
    let time = text::duration_text(late.timeout_ms);
    lemma_tells(
        m@,
        "port 127.0.0.1:"@.take(5),
        "127.0.0.1:"@ + port,
        " did not become reachable within "@ + time,
    );
    lemma_tells(
        m@,
        "port 127.0.0.1:"@ + port + " did not become reachable within "@,
        time,
        none,
    );
    if let HealthError::Status(code) = health {
        lemma_tells(h@, "health check returned status "@, text::decimal(code as nat), none);
    }
}

/// A file that could not be read or understood is told with what it is and where.
pub proof fn law_load_error_tells(e: LoadError, r: String)
    requires
        call_ensures(LoadError::message, (&e,), r),
    ensures
        match e {
            LoadError::Reading { what, path, .. } => tells(r@, what@) && tells(r@, path@) && tells(
                r@,
                "reading "@,
            ),
            LoadError::Parsing { what, path, .. } => tells(r@, what@) && tells(r@, path@) && tells(
                r@,
                "parsing "@,
            ),
        },
{
    let none = Seq::<char>::empty();
    let (verb, what, path) = match e {
        LoadError::Reading { what, path, .. } => ("reading "@, what@, path@),
        LoadError::Parsing { what, path, .. } => ("parsing "@, what@, path@),
    };
    lemma_tells(r@, verb, what, " "@ + path);
    lemma_tells(r@, verb + what + " "@, path, none);
    lemma_tells(r@, none, verb, what + " "@ + path);
}

/// What is wrong with a configuration is told with the directory, the file, the project or
/// the service that it is about.
pub proof fn law_config_error_tells(e: ConfigError, r: String)
    requires
        call_ensures(ConfigError::message, (&e,), r),
    ensures
        match e {
            ConfigError::Missing { dir } => tells(r@, dir@),
            ConfigError::Reading { path, .. } => tells(r@, path@),
            ConfigError::Parsing { path, .. } => tells(r@, path@),
            ConfigError::UnsafeProjectName { name } => tells(r@, text::quoted(name@)),
            ConfigError::Service { name, .. } => tells(r@, "service."@ + name@),
            _ => true,
        },
{
    let none = Seq::<char>::empty();
    match e {
        ConfigError::Missing { dir } => {
            lemma_tells(
                r@,
                "no ephemwork.toml in "@,
                dir@,
                "; copy ephemwork.toml.example to get started"@,
            );
        },
        ConfigError::Reading { path, .. } => {
            lemma_tells(r@, "reading "@, path@, none);
        },
        ConfigError::Parsing { path, .. } => {
            lemma_tells(r@, "parsing "@, path@, none);
        },
        ConfigError::UnsafeProjectName { name } => {
            lemma_tells(
                r@,
                "tunnel.project_name must be ASCII alnum + `-_` (got "@,
                text::quoted(name@),
                ")"@,
            );
        },
        ConfigError::Service { name, .. } => {
            let part = "service."@ + name@;
            lemma_tells(r@, none, part, r@.skip(part.len() as int));
        },
        _ => {},
    }
}

/// A refusal of the bastion is told with its status and its words; what went wrong with the
/// exchange is passed on.
pub proof fn law_client_error_tells(e: ClientError, r: String)
    requires
        call_ensures(ClientError::message, (&e,), r),
    ensures
        match e {
            ClientError::Exchange(cause) => r@ == cause@,
            ClientError::Refused { status, body } => tells(
                r@,
                text::decimal(status as nat) + ": "@ + body@,
            ),
            _ => true,
        },
{
    if let ClientError::Refused { status, body } = e {
        lemma_tells(
            r@,
            "bastion returned status "@,
            text::decimal(status as nat) + ": "@ + body@,
            Seq::<char>::empty(),
        );
    }
}

/// A request that was cut off or too large is told with how many bytes there were.
pub proof fn law_request_error_tells(e: RequestError, r: String)
    requires
        call_ensures(RequestError::message, (&e,), r),
    ensures
        match e {
            RequestError::Truncated { bytes } => tells(r@, text::decimal(bytes as nat)),
            RequestError::Oversized { cap } => tells(r@, text::decimal(cap as nat)),
            RequestError::Io(cause) => tells(r@, cause@),
            _ => true,
        },
{
    let none = Seq::<char>::empty();
    match e {
        RequestError::Truncated { bytes } => {
            lemma_tells(
                r@,
                "request truncated after "@,
                text::decimal(bytes as nat),
                " bytes (no header terminator)"@,
            );
        },
        RequestError::Oversized { cap } => {
            lemma_tells(r@, "request exceeded "@, text::decimal(cap as nat), " bytes"@);
        },
        RequestError::Io(cause) => {
            lemma_tells(r@, "socket I/O: "@, cause@, none);
        },
        _ => {},
    }
}

/// A location that is none of S3, and a forward that cannot be read, are told as they were
/// given; what AWS has to say is passed on.
pub proof fn law_plan_errors_tell(
    e: ProvisionError,
    r: String,
    forward: ForwardPortError,
    m: String,
)
    requires
        call_ensures(ProvisionError::message, (&e,), r),
        call_ensures(ForwardPortError::message, (&forward,), m),
    ensures
        match e {
            ProvisionError::NotAnS3Uri { uri } => tells(r@, text::quoted(uri@)),
            ProvisionError::Outside(cause) => r@ == cause@,
            ProvisionError::EmptyAlbSecurityGroup => true,
        },
        tells(m@, text::quoted(forward.raw@)),
{
    let none = Seq::<char>::empty();
    if let ProvisionError::NotAnS3Uri { uri } = e {
        lemma_tells(
            r@,
            "bastion_binary_s3_uri must be an s3:// URL, got "@,
            text::quoted(uri@),
            none,
        );
    }
    let raw = text::quoted(forward.raw@);
    match forward.fault {
        ForwardFault::LocalPort => {
            lemma_tells(m@, "local port in "@, raw, none);
        },
        ForwardFault::RemotePort => {
            lemma_tells(m@, "remote port in "@, raw, none);
        },
        _ => {
            let a = "forward_port "@;
            lemma_tells(m@, a, raw, m@.skip((a + raw).len() as int));
        },
    }
}

} // verus!
