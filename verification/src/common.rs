//! Wire types shared between the laptop and the bastion control plane, and the
//! JSON that carries them.

use vstd::prelude::*;
use crate::text;

verus! {

#[derive(Debug, Clone, PartialEq, Eq)]
pub struct RegisterRequest {
    pub user: String,
    pub service: String,
}

#[derive(Debug, Clone, PartialEq, Eq)]
pub struct RegisterResponse {
    /// Port allocated on the bastion that the laptop should reverse-forward to.
    pub remote_port: u16,
}

#[derive(Debug, Clone, PartialEq, Eq)]
pub struct DeregisterRequest {
    pub user: String,
    pub service: String,
}

#[derive(Debug, Clone, PartialEq, Eq)]
pub struct ErrorResponse {
    pub error: String,
}

/// Header that staging traffic carries to be routed to a developer's tunnel.
pub const ROUTING_HEADER: &'static str = "X-Ephemwork";

/// The header value of a pair: the user in lower case, the service as it is
/// spelled, neither with white space round it.
pub open spec fn routing_value(user: Seq<char>, service: Seq<char>) -> Seq<char> {
    text::lowered(text::trimmed(user)) + ":"@ + text::trimmed(service)
}

/// Build the header value for a (user, service) pair. User is lower-cased so
/// the bastion can match deterministically; service casing is preserved.
pub fn routing_header_value(user: &str, service: &str) -> (r: String)
    ensures
        r@ == routing_value(user@, service@),
{
    let user = text::trim_str(user);
    let service = text::trim_str(service);
    let mut out = text::to_lower(user.as_str());
    out.append(":");
    out.append(service.as_str());
    out
}

/// White space round a user or a service makes no difference to the header
/// value, so that the bastion can match it.
pub proof fn law_header_ignores_margins(user: Seq<char>, service: Seq<char>)
    ensures
        routing_value(text::trimmed(user), text::trimmed(service)) == routing_value(user, service),
{
    text::lemma_trimmed_idempotent(user);
    text::lemma_trimmed_idempotent(service);
}

/// Capitals of a user in ASCII make no difference to the header value.
pub proof fn law_header_ignores_case_of_user(user: Seq<char>, service: Seq<char>)
    requires
        vstd::utf8::is_ascii_chars(user),
    ensures
        routing_value(text::ascii_upper(user), service) == routing_value(user, service),
{
    text::lemma_upper(user);
}

/// The lower-case hexadecimal digit of value `d`.
pub open spec fn hex_digit(d: int) -> char {
    if d < 10 {
        text::digit(d)
    } else {
        ((87 + d) as u32) as char
    }
}

/// A character inside a JSON string: quotes, backslashes and control
/// characters behind a backslash, every other as it is.
pub open spec fn json_char(c: char) -> Seq<char> {
    let v = c as u32;
    if c == '"' {
        seq!['\\', '"']
    } else if c == '\\' {
        seq!['\\', '\\']
    } else if v == 0x08 {
        seq!['\\', 'b']
    } else if v == 0x09 {
        seq!['\\', 't']
    } else if v == 0x0a {
        seq!['\\', 'n']
    } else if v == 0x0c {
        seq!['\\', 'f']
    } else if v == 0x0d {
        seq!['\\', 'r']
    } else if v < 0x20 {
        seq!['\\', 'u', '0', '0', hex_digit(v as int / 16), hex_digit(v as int % 16)]
    } else {
        seq![c]
    }
}

/// The characters of `s` one after another, each by [`json_char`].
pub open spec fn json_chars(s: Seq<char>) -> Seq<char>
    decreases s.len(),
{
    if s.len() == 0 {
        seq![]
    } else {
        json_chars(s.drop_last()) + json_char(s.last())
    }
}

/// A JSON string.
pub open spec fn json_text(s: Seq<char>) -> Seq<char> {
    seq!['"'] + json_chars(s) + seq!['"']
}

/// `serde_json::to_string` on a string: the string between double quotes, with
/// quotes, backslashes and control characters escaped and nothing else.
#[verifier::external_body]
pub(crate) fn json_string(s: &str) -> (r: String)
    ensures
        r@ == json_text(s@),
{
    serde_json::to_string(s).expect("a string always serializes")
}

/// `{"user":...,"service":...}`.
pub open spec fn pair_json(user: Seq<char>, service: Seq<char>) -> Seq<char> {
    "{\"user\":"@ + json_text(user) + ",\"service\":"@ + json_text(service) + "}"@
}

/// `{"remote_port":...}`.
pub open spec fn port_json(port: u16) -> Seq<char> {
    "{\"remote_port\":"@ + text::decimal(port as nat) + "}"@
}

/// `{"error":...}`.
pub open spec fn error_json(message: Seq<char>) -> Seq<char> {
    "{\"error\":"@ + json_text(message) + "}"@
}

fn pair_to_json(user: &str, service: &str) -> (r: String)
    ensures
        r@ == pair_json(user@, service@),
{
    let mut out = "{\"user\":".to_owned();
    out.append(json_string(user).as_str());
    out.append(",\"service\":");
    out.append(json_string(service).as_str());
    out.append("}");
    out
}

impl RegisterRequest {
    /// The request as JSON.
    pub fn to_json(&self) -> (r: String)
        ensures
            r@ == pair_json(self.user@, self.service@),
    {
        pair_to_json(self.user.as_str(), self.service.as_str())
    }
}

impl DeregisterRequest {
    /// The request as JSON.
    pub fn to_json(&self) -> (r: String)
        ensures
            r@ == pair_json(self.user@, self.service@),
    {
        pair_to_json(self.user.as_str(), self.service.as_str())
    }
}

impl RegisterResponse {
    /// The response as JSON.
    pub fn to_json(&self) -> (r: String)
        ensures
            r@ == port_json(self.remote_port),
    {
        let mut out = "{\"remote_port\":".to_owned();
        text::push_decimal(&mut out, self.remote_port as u64);
        out.append("}");
        out
    }
}

impl ErrorResponse {
    /// The response as JSON.
    pub fn to_json(&self) -> (r: String)
        ensures
            r@ == error_json(self.error@),
    {
        let mut out = "{\"error\":".to_owned();
        out.append(json_string(self.error.as_str()).as_str());
        out.append("}");
        out
    }
}

/// The header value of a pair, where neither the user nor the service has white space
/// at its ends and the user is in lower case already, is the user, a colon and the
/// service as they are.
pub proof fn law_header_value_spells_the_pair(
    user: &str,
    service: &str,
    r: String,
)
    requires
        call_ensures(routing_header_value, (user, service), r),
        vstd::utf8::is_ascii_chars(user@),
        forall|i: int| 0 <= i < user@.len() ==> !('A' <= #[trigger] user@[i] <= 'Z'),
        user@.len() > 0 ==> !text::is_white(user@[0]) && !text::is_white(user@.last()),
        service@.len() > 0 ==> !text::is_white(service@[0]) && !text::is_white(service@.last()),
    ensures
        r@ == user@ + seq![':'] + service@,
{
    reveal_strlit(":");
    lemma_no_margins(user@);
    lemma_no_margins(service@);
    assert(text::ascii_lower(user@) =~= user@);
    assert(r@ =~= user@ + seq![':'] + service@);
}

proof fn lemma_no_margins(s: Seq<char>)
    requires
        s.len() > 0 ==> !text::is_white(s[0]) && !text::is_white(s.last()),
    ensures
        text::trimmed(s) == s,
{
    text::lemma_span_unique(s, text::white(), 0);
    assert(s.skip(0) =~= s);
}

/// Two pairs in such a spelling, with no colon in their users, that have the same header
/// value are the same pair.
pub proof fn law_header_value_tells_pairs_apart(
    user: Seq<char>,
    service: Seq<char>,
    other_user: Seq<char>,
    other_service: Seq<char>,
)
    requires
        !text::lowered(text::trimmed(user)).contains(':'),
        !text::lowered(text::trimmed(other_user)).contains(':'),
        routing_value(user, service) == routing_value(other_user, other_service),
    ensures
        text::lowered(text::trimmed(user)) == text::lowered(text::trimmed(other_user)),
        text::trimmed(service) == text::trimmed(other_service),
{
    reveal_strlit(":");
    let a = text::lowered(text::trimmed(user));
    let b = text::lowered(text::trimmed(other_user));
    let x = routing_value(user, service);
    if a.len() < b.len() {
        assert(x[a.len() as int] == ':');
        assert(x[a.len() as int] == b[a.len() as int]);
        assert(b.contains(':'));
    }
    if b.len() < a.len() {
        assert(x[b.len() as int] == ':');
        assert(x[b.len() as int] == a[b.len() as int]);
        assert(a.contains(':'));
    }
    assert(a =~= x.take(a.len() as int));
    assert(b =~= x.take(a.len() as int));
    assert(text::trimmed(service) =~= x.skip(a.len() as int + 1));
    assert(text::trimmed(other_service) =~= x.skip(a.len() as int + 1));
}

} // verus!
