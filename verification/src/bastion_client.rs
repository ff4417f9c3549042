//! Tiny HTTP client for the bastion control plane.
//!
//! Hand-rolled HTTP/1.0 because the only operations are JSON POST to known
//! endpoints. What goes over the wire and what is made of the reply stands
//! here; the exchange itself is handed in.

use vstd::prelude::*;
use vstd::slice::slice_subrange;
use vstd::slice::slice_to_vec;
use crate::common;
use crate::common::{DeregisterRequest, RegisterRequest, RegisterResponse};
use crate::http;
use crate::text;

verus! {

/// Where the laptop sends control-plane requests.
#[derive(Debug, Clone, PartialEq, Eq)]
pub struct BastionEndpoint {
    pub host: String,
    pub port: u16,
}

impl BastionEndpoint {
    pub fn new(host: &str, port: u16) -> (r: Self)
        ensures
            r.host@ == host@,
            r.port == port,
    {
        Self { host: host.to_owned(), port }
    }
}

/// Seconds that connecting, writing and reading may take.
pub const DEFAULT_TIMEOUT_SECS: u64 = 10;

/// A response taken apart.
#[derive(Debug, Clone, PartialEq, Eq)]
pub struct HttpResponse {
    pub status: u16,
    pub body: Vec<u8>,
}

/// Why a request to the bastion came to nothing.
#[derive(Debug, Clone, PartialEq, Eq)]
pub enum ClientError {
    /// The exchange failed; the text says how.
    Exchange(String),
    NoTerminator,
    HeadNotUtf8,
    MissingStatusLine,
    MissingStatusCode,
    BadStatusCode,
    /// The bastion refused; the text is the body of its response.
    Refused { status: u16, body: String },
    /// The body of the response did not decode; the text says why.
    Decoding(String),
}

impl ClientError {
    pub open spec fn text(self) -> Seq<char> {
        match self {
            ClientError::Exchange(e) => e@,
            ClientError::NoTerminator => "malformed http response: no header terminator"@,
            ClientError::HeadNotUtf8 => "response head was not valid UTF-8"@,
            ClientError::MissingStatusLine => "missing status line"@,
            ClientError::MissingStatusCode => "missing status code"@,
            ClientError::BadStatusCode => "parsing status code"@,
            ClientError::Refused { status, body } => "bastion returned status "@ + text::decimal(
                status as nat,
            ) + ": "@ + body@,
            ClientError::Decoding(_) => "decoding register response"@,
        }
    }

    /// The error in words.
    pub fn message(&self) -> (r: String)
        ensures
            r@ == self.text(),
    {
        match self {
            ClientError::Exchange(e) => e.clone(),
            ClientError::NoTerminator => "malformed http response: no header terminator".to_owned(),
            ClientError::HeadNotUtf8 => "response head was not valid UTF-8".to_owned(),
            ClientError::MissingStatusLine => "missing status line".to_owned(),
            ClientError::MissingStatusCode => "missing status code".to_owned(),
            ClientError::BadStatusCode => "parsing status code".to_owned(),
            ClientError::Refused { status, body } => {
                let mut out = "bastion returned status ".to_owned();
                text::push_decimal(&mut out, *status as u64);
                out.append(": ");
                out.append(body.as_str());
                out
            },
            ClientError::Decoding(_) => "decoding register response".to_owned(),
        }
    }
}

/// The head of a JSON POST, with the empty line that ends it.
pub open spec fn request_head(host: Seq<char>, path: Seq<char>, length: nat) -> Seq<char> {
    "POST "@ + path + " HTTP/1.0\r\nHost: "@ + host
        + "\r\nContent-Type: application/json\r\nContent-Length: "@ + text::decimal(length)
        + "\r\nConnection: close\r\n\r\n"@
}

/// The wire bytes of a JSON POST.
pub open spec fn request_wire(host: Seq<char>, path: Seq<char>, body: Seq<u8>) -> Seq<u8> {
    vstd::utf8::encode_utf8(request_head(host, path, body.len())) + body
}

/// Pure constructor for the wire bytes of a JSON POST.
pub fn build_request(host: &str, path: &str, body: &[u8]) -> (r: Vec<u8>)
    ensures
        r@ == request_wire(host@, path@, body@),
{
    let mut head = "POST ".to_owned();
    head.append(path);
    head.append(" HTTP/1.0\r\nHost: ");
    head.append(host);
    head.append("\r\nContent-Type: application/json\r\nContent-Length: ");
    text::push_decimal(&mut head, body.len() as u64);
    head.append("\r\nConnection: close\r\n\r\n");
    let mut out: Vec<u8> = slice_to_vec(head.as_str().as_bytes());
    http::append_bytes(&mut out, body);
    out
}

/// The status of a response and where its body starts.
pub open spec fn dissect(raw: Seq<u8>) -> Result<(u16, int), ClientError> {
    match http::find_from(raw, http::crlf_crlf(), 0) {
        None => Err(ClientError::NoTerminator),
        Some(end) => if !vstd::utf8::valid_utf8(raw.take(end)) {
            Err(ClientError::HeadNotUtf8)
        } else {
            match text::first_line(vstd::utf8::decode_utf8(raw.take(end))) {
                None => Err(ClientError::MissingStatusLine),
                Some(line) => if text::words(line).len() < 2 {
                    Err(ClientError::MissingStatusCode)
                } else {
                    match text::number(text::words(line)[1], u16::MAX as nat) {
                        None => Err(ClientError::BadStatusCode),
                        Some(status) => Ok((status as u16, end + 4)),
                    }
                },
            }
        },
    }
}

/// What a response comes to: its status and its body, or what is wrong with it.
pub open spec fn taken_apart(raw: Seq<u8>, answer: Result<HttpResponse, ClientError>) -> bool {
    match dissect(raw) {
        Err(e) => answer == Err::<HttpResponse, ClientError>(e),
        Ok((status, start)) => answer matches Ok(h) && h.status == status && h.body@ == raw.skip(
            start,
        ),
    }
}

/// Takes a response apart. The head ends at the first empty line; the body is
/// all that follows.
pub fn parse_response(raw: &[u8]) -> (r: Result<HttpResponse, ClientError>)
    ensures
        taken_apart(raw@, r),
{
    let total: usize = raw.len();
    let end: usize = match find_double_crlf(raw) {
        Some(p) => p,
        None => {
            return Err(ClientError::NoTerminator);
        },
    };
    let head_bytes = slice_subrange(raw, 0, end);
    assert(head_bytes@ == raw@.take(end as int));
    let head = match text::utf8(head_bytes) {
        Some(s) => s,
        None => {
            return Err(ClientError::HeadNotUtf8);
        },
    };
    let chars = text::chars_of(head);
    if chars.len() == 0 {
        return Err(ClientError::MissingStatusLine);
    }
    let lines = text::split_lines(chars.as_slice());
    assert(text::views(lines@)[0] == lines@[0]@);
    let words = text::split_words(lines[0]);
    if words.len() < 2 {
        return Err(ClientError::MissingStatusCode);
    }
    assert(text::views(words@)[1] == words@[1]@);
    match text::parse_number(words[1], u16::MAX as u64) {
        None => Err(ClientError::BadStatusCode),
        Some(status) => {
            let rest = slice_subrange(raw, end + 4, total);
            assert(rest@ == raw@.skip(end + 4));
            Ok(HttpResponse { status: status as u16, body: slice_to_vec(rest) })
        },
    }
}

/// Where the first empty line stands that CRLF ends.
pub fn find_double_crlf(raw: &[u8]) -> (r: Option<usize>)
    ensures
        r matches Some(p) ==> http::find_from(raw@, http::crlf_crlf(), 0) == Some(p as int) && p + 4
            <= raw@.len(),
        r is None ==> http::find_from(raw@, http::crlf_crlf(), 0) is None,
{
    let crlf: [u8; 4] = [13, 10, 13, 10];
    assert(crlf@ =~= http::crlf_crlf());
    http::find(raw, &crlf)
}

/// What a POST comes to: the response, where there is one of a status from
/// 200 up to 299.
pub open spec fn posted(
    reply: Result<Vec<u8>, String>,
    answer: Result<HttpResponse, ClientError>,
) -> bool {
    match reply {
        Err(e) => answer == Err::<HttpResponse, ClientError>(ClientError::Exchange(e)),
        Ok(raw) => match dissect(raw@) {
            Err(e) => answer == Err::<HttpResponse, ClientError>(e),
            Ok((status, start)) => if 200 <= status < 300 {
                answer matches Ok(h) && h.status == status && h.body@ == raw@.skip(start)
            } else {
                answer matches Err(ClientError::Refused { status: s, body }) && s == status && body@
                    == text::lossy(raw@.skip(start))
            },
        },
    }
}

/// Makes a response of the bytes that came back from a POST, or says why there
/// is none.
pub fn accept_reply(reply: Result<Vec<u8>, String>) -> (r: Result<HttpResponse, ClientError>)
    ensures
        posted(reply, r),
{
    let raw = match reply {
        Ok(raw) => raw,
        Err(e) => {
            return Err(ClientError::Exchange(e));
        },
    };
    let parsed = match parse_response(raw.as_slice()) {
        Ok(p) => p,
        Err(e) => {
            return Err(e);
        },
    };
    if parsed.status < 200 || parsed.status >= 300 {
        return Err(
            ClientError::Refused {
                status: parsed.status,
                body: text::utf8_lossy(parsed.body.as_slice()),
            },
        );
    }
    Ok(parsed)
}

/// What goes over the wire to register or deregister a pair.
pub open spec fn pair_wire(
    host: Seq<char>,
    path: Seq<char>,
    user: Seq<char>,
    service: Seq<char>,
) -> Seq<u8> {
    request_wire(host, path, vstd::utf8::encode_utf8(common::pair_json(user, service)))
}

/// Registers a pair. The exchange sends bytes to the endpoint and gives what
/// came back until the peer closed, or says what failed; the decoder turns the
/// body of the response into its JSON value, or says why it cannot.
pub fn register(
    endpoint: &BastionEndpoint,
    req: &RegisterRequest,
    exchange: impl Fn(&BastionEndpoint, &Vec<u8>) -> Result<Vec<u8>, String>,
    decode: impl Fn(&Vec<u8>) -> Result<RegisterResponse, String>,
) -> (r: Result<RegisterResponse, ClientError>)
    requires
        forall|wire: Vec<u8>| #[trigger] exchange.requires((endpoint, &wire)),
        forall|body: Vec<u8>| #[trigger] decode.requires((&body,)),
    ensures
        exists|
            wire: Vec<u8>,
            reply: Result<Vec<u8>, String>,
            answer: Result<HttpResponse, ClientError>,
        |
            {
                &&& wire@ == pair_wire(endpoint.host@, "/register"@, req.user@, req.service@)
                &&& #[trigger] exchange.ensures((endpoint, &wire), reply)
                &&& #[trigger] posted(reply, answer)
                &&& match answer {
                    Err(e) => r == Err::<RegisterResponse, ClientError>(e),
                    Ok(h) => match r {
                        Ok(v) => decode.ensures((&h.body,), Ok(v)),
                        Err(e) => e matches ClientError::Decoding(why) && decode.ensures(
                            (&h.body,),
                            Err(why),
                        ),
                    },
                }
            },
{
    let body = req.to_json();
    let wire = build_request(endpoint.host.as_str(), "/register", body.as_str().as_bytes());
    let reply = exchange(endpoint, &wire);
    assert(exchange.ensures((endpoint, &wire), reply));
    let ghost replied = reply;
    let answer = accept_reply(reply);
    assert(posted(replied, answer));
    match answer {
        Err(e) => Err(e),
        Ok(h) => match decode(&h.body) {
            Ok(v) => Ok(v),
            Err(why) => Err(ClientError::Decoding(why)),
        },
    }
}

/// Deregisters a pair. The exchange is as for [`register`]; what the body of
/// the response holds does not matter.
pub fn deregister(
    endpoint: &BastionEndpoint,
    req: &DeregisterRequest,
    exchange: impl Fn(&BastionEndpoint, &Vec<u8>) -> Result<Vec<u8>, String>,
) -> (r: Result<(), ClientError>)
    requires
        forall|wire: Vec<u8>| #[trigger] exchange.requires((endpoint, &wire)),
    ensures
        exists|
            wire: Vec<u8>,
            reply: Result<Vec<u8>, String>,
            answer: Result<HttpResponse, ClientError>,
        |
            {
                &&& wire@ == pair_wire(endpoint.host@, "/deregister"@, req.user@, req.service@)
                &&& #[trigger] exchange.ensures((endpoint, &wire), reply)
                &&& #[trigger] posted(reply, answer)
                &&& match answer {
                    Err(e) => r == Err::<(), ClientError>(e),
                    Ok(_) => r is Ok,
                }
            },
{
    let body = req.to_json();
    let wire = build_request(endpoint.host.as_str(), "/deregister", body.as_str().as_bytes());
    let reply = exchange(endpoint, &wire);
    assert(exchange.ensures((endpoint, &wire), reply));
    let ghost replied = reply;
    let answer = accept_reply(reply);
    assert(posted(replied, answer));
    match answer {
        Err(e) => Err(e),
        Ok(_) => Ok(()),
    }
}

/// A request goes out as a POST to the path, with its host, its kind and its length, that
/// the connection is to be closed, an empty line and its body.
pub proof fn law_request_goes_out(host: &str, path: &str, body: &[u8], r: Vec<u8>)
    requires
        call_ensures(build_request, (host, path, body), r),
    ensures
        r@ == vstd::utf8::encode_utf8(
            "POST "@ + path@ + " HTTP/1.0\r\nHost: "@ + host@
                + "\r\nContent-Type: application/json\r\nContent-Length: "@ + text::decimal(
                body@.len(),
            ) + "\r\nConnection: close\r\n\r\n"@,
        ) + body@,
{
}

/// A reply is taken exactly if it came and its status is from 200 to 299; a reply of any
/// other status is a refusal of that status.
pub proof fn law_reply_of_success_is_taken(
    reply: Result<Vec<u8>, String>,
    raw: Result<HttpResponse, ClientError>,
    r: Result<HttpResponse, ClientError>,
)
    requires
        call_ensures(accept_reply, (reply,), r),
        reply matches Ok(bytes) ==> taken_apart(bytes@, raw),
    ensures
        match reply {
            Err(e) => r == Err::<HttpResponse, ClientError>(ClientError::Exchange(e)),
            Ok(_) => match raw {
                Err(e) => r == Err::<HttpResponse, ClientError>(e),
                Ok(h) => if 200 <= h.status <= 299 {
                    r matches Ok(got) && got.status == h.status && got.body@ == h.body@
                } else {
                    r matches Err(ClientError::Refused { status, .. }) && status == h.status
                },
            },
        },
{
}

} // verus!
