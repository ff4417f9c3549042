//! SSM Session Manager port forwarding.
//!
//! Sessions are driven through `aws ssm start-session`, the supported way to
//! drive the `session-manager-plugin` (a separate binary that maintains the
//! websocket). Here stands what is handed to that command.

use vstd::prelude::*;
use crate::text;

verus! {

/// Inputs needed to forward `localhost:<allocated>` -> `target:remote_port`
/// through SSM Session Manager.
#[derive(Debug, Clone, PartialEq, Eq)]
pub struct PortForwardSpec {
    pub target: String,
    pub remote_port: u16,
    pub region: String,
}

/// Inputs for forwarding `localhost:local_port` -> `remote_host:remote_port`
/// *through* the bastion instance via SSM's
/// `AWS-StartPortForwardingSessionToRemoteHost` document. Used to give the
/// laptop outbound reach into VPC-private services like staging RDS without
/// any SSH involvement (SSM handles multiplexing).
#[derive(Debug, Clone, PartialEq, Eq)]
pub struct RemoteHostForwardSpec {
    pub target: String,
    pub remote_host: String,
    pub remote_port: u16,
    pub local_port: u16,
    pub region: String,
}

/// `"local:host:port"` as used in `service.<name>.forward_ports`.
#[derive(Debug, Clone, PartialEq, Eq)]
pub struct ForwardPortSpec {
    pub local_port: u16,
    pub remote_host: String,
    pub remote_port: u16,
}

/// The arguments of a session that runs a document with parameters.
pub open spec fn session_args(
    region: Seq<char>,
    target: Seq<char>,
    document: Seq<char>,
    parameters: Seq<char>,
) -> Seq<Seq<char>> {
    seq![
        "ssm"@,
        "start-session"@,
        "--region"@,
        region,
        "--target"@,
        target,
        "--document-name"@,
        document,
        "--parameters"@,
        parameters,
    ]
}

/// The parameters of a port forward.
pub open spec fn port_parameters(remote_port: u16, local_port: u16) -> Seq<char> {
    "portNumber=[\""@ + text::decimal(remote_port as nat) + "\"],localPortNumber=[\""@
        + text::decimal(local_port as nat) + "\"]"@
}

/// The parameters of a forward to a remote host.
pub open spec fn remote_host_parameters(
    host: Seq<char>,
    remote_port: u16,
    local_port: u16,
) -> Seq<char> {
    "host=[\""@ + host + "\"],"@ + port_parameters(remote_port, local_port)
}

fn session(region: &str, target: &str, document: &str, parameters: String) -> (r: Vec<String>)
    ensures
        text::texts(r@) == session_args(region@, target@, document@, parameters@),
{
    let out: Vec<String> = vec![
        "ssm".to_owned(),
        "start-session".to_owned(),
        "--region".to_owned(),
        region.to_owned(),
        "--target".to_owned(),
        target.to_owned(),
        "--document-name".to_owned(),
        document.to_owned(),
        "--parameters".to_owned(),
        parameters,
    ];
    assert(text::texts(out@) =~= session_args(region@, target@, document@, parameters@));
    out
}

fn push_port_parameters(out: &mut String, remote_port: u16, local_port: u16)
    ensures
        final(out)@ == old(out)@ + port_parameters(remote_port, local_port),
{
    out.append("portNumber=[\"");
    text::push_decimal(out, remote_port as u64);
    out.append("\"],localPortNumber=[\"");
    text::push_decimal(out, local_port as u64);
    out.append("\"]");
    assert(out@ =~= old(out)@ + port_parameters(remote_port, local_port));
}

/// Build the `aws ssm start-session` argv for a port forward.
pub fn build_start_session_args(spec: &PortForwardSpec, local_port: u16) -> (r: Vec<String>)
    ensures
        text::texts(r@) == session_args(
            spec.region@,
            spec.target@,
            "AWS-StartPortForwardingSession"@,
            port_parameters(spec.remote_port, local_port),
        ),
{
    let mut parameters = String::new();
    push_port_parameters(&mut parameters, spec.remote_port, local_port);
    assert(parameters@ =~= port_parameters(spec.remote_port, local_port));
    session(
        spec.region.as_str(),
        spec.target.as_str(),
        "AWS-StartPortForwardingSession",
        parameters,
    )
}

/// Build the argv for forwarding through the bastion to a remote host.
pub fn build_remote_host_session_args(spec: &RemoteHostForwardSpec) -> (r: Vec<String>)
    ensures
        text::texts(r@) == session_args(
            spec.region@,
            spec.target@,
            "AWS-StartPortForwardingSessionToRemoteHost"@,
            remote_host_parameters(spec.remote_host@, spec.remote_port, spec.local_port),
        ),
{
    let mut parameters = "host=[\"".to_owned();
    parameters.append(spec.remote_host.as_str());
    parameters.append("\"],");
    push_port_parameters(&mut parameters, spec.remote_port, spec.local_port);
    session(
        spec.region.as_str(),
        spec.target.as_str(),
        "AWS-StartPortForwardingSessionToRemoteHost",
        parameters,
    )
}

/// What is wrong with a forward.
#[derive(Debug, Clone, Copy, PartialEq, Eq)]
pub enum ForwardFault {
    NotThreeParts,
    LocalPort,
    EmptyHost,
    RemotePort,
    ZeroPort,
}

/// A forward that cannot be read.
#[derive(Debug, Clone, PartialEq, Eq)]
pub struct ForwardPortError {
    pub raw: String,
    pub fault: ForwardFault,
}

/// What is printed of a forward that cannot be read.
pub open spec fn fault_text(raw: Seq<char>, fault: ForwardFault) -> Seq<char> {
    match fault {
        ForwardFault::NotThreeParts => "forward_port "@ + text::quoted(raw)
            + " must have the form 'local:host:remote' (3 parts separated by ':')"@,
        ForwardFault::LocalPort => "local port in "@ + text::quoted(raw),
        ForwardFault::EmptyHost => "forward_port "@ + text::quoted(raw) + " has empty remote host"@,
        ForwardFault::RemotePort => "remote port in "@ + text::quoted(raw),
        ForwardFault::ZeroPort => "forward_port "@ + text::quoted(raw) + " has port 0"@,
    }
}

impl ForwardPortError {
    pub open spec fn text(self) -> Seq<char> {
        fault_text(self.raw@, self.fault)
    }

    /// The error in words.
    pub fn message(&self) -> (r: String)
        ensures
            r@ == self.text(),
    {
        let raw = text::quote(self.raw.as_str());
        let mut out = match self.fault {
            ForwardFault::LocalPort => "local port in ".to_owned(),
            ForwardFault::RemotePort => "remote port in ".to_owned(),
            _ => "forward_port ".to_owned(),
        };
        out.append(raw.as_str());
        match self.fault {
            ForwardFault::NotThreeParts => {
                out.append(" must have the form 'local:host:remote' (3 parts separated by ':')");
            },
            ForwardFault::EmptyHost => {
                out.append(" has empty remote host");
            },
            ForwardFault::ZeroPort => {
                out.append(" has port 0");
            },
            _ => {},
        }
        out
    }
}

/// The forward that a text denotes: a port, a host and a port between colons,
/// the host not blank and neither port zero.
pub open spec fn forward_port(raw: Seq<char>) -> Result<(u16, Seq<char>, u16), ForwardFault> {
    let parts = text::split_on(raw, ':');
    if parts.len() != 3 {
        Err(ForwardFault::NotThreeParts)
    } else {
        match text::number(parts[0], u16::MAX as nat) {
            None => Err(ForwardFault::LocalPort),
            Some(local) => if text::is_blank(parts[1]) {
                Err(ForwardFault::EmptyHost)
            } else {
                match text::number(parts[2], u16::MAX as nat) {
                    None => Err(ForwardFault::RemotePort),
                    Some(remote) => if local == 0 || remote == 0 {
                        Err(ForwardFault::ZeroPort)
                    } else {
                        Ok((local as u16, text::trimmed(parts[1]), remote as u16))
                    },
                }
            },
        }
    }
}

/// `spec` is the forward.
pub open spec fn is_forward(spec: ForwardPortSpec, forward: (u16, Seq<char>, u16)) -> bool {
    spec.local_port == forward.0 && spec.remote_host@ == forward.1 && spec.remote_port == forward.2
}

/// Parse `"local:host:port"` as used in `service.<name>.forward_ports`.
pub fn parse_forward_port_spec(raw: &str) -> (r: Result<ForwardPortSpec, ForwardPortError>)
    ensures
        match forward_port(raw@) {
            Ok(forward) => r matches Ok(spec) && is_forward(spec, forward),
            Err(fault) => r matches Err(e) && e.raw@ == raw@ && e.fault == fault,
        },
{
    let cs = text::chars_of(raw);
    let parts = text::split(cs.as_slice(), ':');
    let ghost all = text::views(parts@);
    if parts.len() != 3 {
        return Err(ForwardPortError { raw: raw.to_owned(), fault: ForwardFault::NotThreeParts });
    }
    assert(all[0] == parts@[0]@ && all[1] == parts@[1]@ && all[2] == parts@[2]@);
    let local_port: u16 = match text::parse_number(parts[0], u16::MAX as u64) {
        Some(n) => n as u16,
        None => {
            return Err(ForwardPortError { raw: raw.to_owned(), fault: ForwardFault::LocalPort });
        },
    };
    let host = text::trim(parts[1]);
    proof {
        text::lemma_trimmed_empty(parts@[1]@);
    }
    if host.len() == 0 {
        return Err(ForwardPortError { raw: raw.to_owned(), fault: ForwardFault::EmptyHost });
    }
    let remote_port: u16 = match text::parse_number(parts[2], u16::MAX as u64) {
        Some(n) => n as u16,
        None => {
            return Err(ForwardPortError { raw: raw.to_owned(), fault: ForwardFault::RemotePort });
        },
    };
    if local_port == 0 || remote_port == 0 {
        return Err(ForwardPortError { raw: raw.to_owned(), fault: ForwardFault::ZeroPort });
    }
    Ok(ForwardPortSpec { local_port, remote_host: text::string_of(host), remote_port })
}

/// A forward as it is written in a configuration.
pub open spec fn forward_text(local_port: u16, host: Seq<char>, remote_port: u16) -> Seq<char> {
    text::decimal(local_port as nat) + seq![':'] + host + seq![':'] + text::decimal(
        remote_port as nat,
    )
}

/// A forward written down with its ports and its host reads back as them, for
/// every host without a colon that is not blank and for all ports but zero.
pub proof fn law_forward_reads_back(local_port: u16, host: Seq<char>, remote_port: u16)
    requires
        local_port != 0,
        remote_port != 0,
        !text::is_blank(host),
        forall|i: int| 0 <= i < host.len() ==> #[trigger] host[i] != ':',
    ensures
        forward_port(forward_text(local_port, host, remote_port)) == Ok::<
            (u16, Seq<char>, u16),
            ForwardFault,
        >((local_port, text::trimmed(host), remote_port)),
{
    let l = text::decimal(local_port as nat);
    let r = text::decimal(remote_port as nat);
    let s = forward_text(local_port, host, remote_port);
    text::lemma_decimal(local_port as nat);
    text::lemma_decimal(remote_port as nat);
    assert forall|i: int| 0 <= i < l.len() implies #[trigger] l[i] != ':' by {
        assert(text::is_digit(l[i]));
    }
    assert forall|i: int| 0 <= i < r.len() implies #[trigger] r[i] != ':' by {
        assert(text::is_digit(r[i]));
    }
    let rest = host + seq![':'] + r;
    assert(s =~= l + seq![':'] + rest);
    text::lemma_split_on(l, ':', rest);
    text::lemma_split_on(host, ':', r);
    text::lemma_split_on_last(r, ':');
    assert(text::split_on(s, ':') =~= seq![l, host, r]);
    text::law_number_of_decimal(local_port as nat, u16::MAX as nat);
    text::law_number_of_decimal(remote_port as nat, u16::MAX as nat);
}

/// The arguments of a session name the region, the instance, the kind of forward and
/// its parameters, each behind its flag; and the ports are on their own sides.
pub proof fn law_session_names_both_ends(
    spec: PortForwardSpec,
    local_port: u16,
    r: Vec<String>,
)
    requires
        call_ensures(build_start_session_args, (&spec, local_port), r),
    ensures
        r@.len() == 10,
        r@[0]@ == "ssm"@,
        r@[1]@ == "start-session"@,
        r@[2]@ == "--region"@ && r@[3]@ == spec.region@,
        r@[4]@ == "--target"@ && r@[5]@ == spec.target@,
        r@[6]@ == "--document-name"@ && r@[7]@ == "AWS-StartPortForwardingSession"@,
        r@[8]@ == "--parameters"@,
        r@[9]@ == "portNumber=[\""@ + text::decimal(spec.remote_port as nat)
            + "\"],localPortNumber=[\""@ + text::decimal(local_port as nat) + "\"]"@,
{
    lemma_ten(r@);
}

/// The arguments of a session to a remote host name the host besides.
pub proof fn law_remote_session_names_the_host(spec: RemoteHostForwardSpec, r: Vec<String>)
    requires
        call_ensures(build_remote_host_session_args, (&spec,), r),
    ensures
        r@.len() == 10,
        r@[0]@ == "ssm"@,
        r@[1]@ == "start-session"@,
        r@[2]@ == "--region"@ && r@[3]@ == spec.region@,
        r@[4]@ == "--target"@ && r@[5]@ == spec.target@,
        r@[6]@ == "--document-name"@ && r@[7]@ == "AWS-StartPortForwardingSessionToRemoteHost"@,
        r@[8]@ == "--parameters"@,
        r@[9]@ == "host=[\""@ + spec.remote_host@ + "\"],"@ + ("portNumber=[\""@ + text::decimal(
            spec.remote_port as nat,
        ) + "\"],localPortNumber=[\""@ + text::decimal(spec.local_port as nat) + "\"]"@),
{
    lemma_ten(r@);
}

proof fn lemma_ten(r: Seq<String>)
    requires
        text::texts(r).len() == 10,
    ensures
        r.len() == 10,
        forall|i: int| 0 <= i < 10 ==> (#[trigger] r[i])@ == text::texts(r)[i],
{
}

/// A forward is a local port, a host and a port of the host, with colons between them:
/// it reads as these three exactly if both ports are numbers from 1 to 65535 and the
/// host is more than white space, which is taken off it. Else the fault is the first
/// thing that is wrong, from the left, and a port of zero the last.
pub proof fn law_forward_reads(a: Seq<char>, host: Seq<char>, b: Seq<char>)
    requires
        !a.contains(':'),
        !host.contains(':'),
        !b.contains(':'),
    ensures
        ({
            let raw = a + seq![':'] + (host + seq![':'] + b);
            let local = text::number(a, 65535);
            let remote = text::number(b, 65535);
            let named = exists|i: int|
                0 <= i < host.len() && !text::is_white(#[trigger] host[i]);
            match forward_port(raw) {
                Ok((l, h, r)) => {
                    &&& local == Some(l as nat) && l > 0
                    &&& remote == Some(r as nat) && r > 0
                    &&& named && h == text::trimmed(host)
                },
                Err(fault) => {
                    &&& local is None <==> fault is LocalPort
                    &&& local is Some && !named <==> fault is EmptyHost
                    &&& local is Some && named && remote is None <==> fault is RemotePort
                    &&& fault is ZeroPort ==> local == Some(0nat) || remote == Some(0nat)
                    &&& fault !is NotThreeParts
                },
            }
        }),
{
    let tail = host + seq![':'] + b;
    lemma_without(a);
    lemma_without(host);
    lemma_without(b);
    text::lemma_split_on(a, ':', tail);
    text::lemma_split_on(host, ':', b);
    text::lemma_split_on_last(b, ':');
    let parts = text::split_on(a + seq![':'] + tail, ':');
    assert(parts =~= seq![a, host, b]);
}

proof fn lemma_without(s: Seq<char>)
    requires
        !s.contains(':'),
    ensures
        forall|i: int| 0 <= i < s.len() ==> #[trigger] s[i] != ':',
{
    assert forall|i: int| 0 <= i < s.len() implies #[trigger] s[i] != ':' by {
        assert(s.contains(s[i]) || s[i] != ':');
    }
}

/// What reads as a forward has two colons, and a text with any other number of them is
/// told so.
pub proof fn law_forward_has_two_colons(raw: Seq<char>)
    ensures
        forward_port(raw) == Err::<(u16, Seq<char>, u16), ForwardFault>(
            ForwardFault::NotThreeParts,
        ) <==> raw.filter(|c: char| c == ':').len() != 2,
{
    lemma_colons(raw);
}

proof fn lemma_colons(s: Seq<char>)
    ensures
        text::split_on(s, ':').len() == s.filter(|c: char| c == ':').len() + 1,
    decreases s.len(),
{
    let is_colon = |c: char| c == ':';
    let f = text::other_than(':');
    text::lemma_span(s, f);
    let n = text::span(s, f) as int;
    if n >= s.len() {
        lemma_no_colon(s);
    } else {
        let rest = s.skip(n + 1);
        lemma_colons(rest);
        lemma_no_colon(s.take(n));
        assert(s =~= s.take(n) + seq![':'] + rest);
        let head = s.take(n) + seq![':'];
        Seq::filter_distributes_over_add(head, rest, is_colon);
        assert(head.filter(is_colon).len() == 1) by {
            reveal(Seq::filter);
            assert(head.drop_last() =~= s.take(n));
            assert(head.last() == ':');
        }
        assert(s =~= head + rest);
    }
}

proof fn lemma_no_colon(s: Seq<char>)
    requires
        forall|i: int| 0 <= i < s.len() ==> text::other_than(':')(#[trigger] s[i]),
    ensures
        s.filter(|c: char| c == ':').len() == 0,
    decreases s.len(),
{
    reveal(Seq::filter);
    if s.len() > 0 {
        assert(text::other_than(':')(s[s.len() - 1]));
        assert forall|i: int| 0 <= i < s.drop_last().len() implies text::other_than(':')(
            #[trigger] s.drop_last()[i],
        ) by {
            assert(text::other_than(':')(s[i]));
        }
        lemma_no_colon(s.drop_last());
    }
}

} // verus!
