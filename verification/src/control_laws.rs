//! What the control plane does with its requests, from the bytes that the client sends
//! to the port that a pair gets.

use vstd::prelude::*;
use crate::bastion_client;
use crate::bastion_client::{BastionEndpoint, ClientError};
use crate::common;
use crate::common::{DeregisterRequest, RegisterRequest, RegisterResponse};
use crate::handlers;
use crate::handlers::Route;
use crate::http;
use crate::http::{ParseError, Request, Response};
use crate::json_laws;
use crate::json_laws::Scalar;
use crate::registry;
use crate::registry::{PortRange, RangeExhausted};
use crate::text;
use crate::text_laws;
use crate::wire;

verus! {

/// The fields that name a pair.
pub open spec fn pair_fields(user: Seq<char>, service: Seq<char>) -> Seq<(Seq<char>, Scalar)> {
    seq![
        (seq!['u', 's', 'e', 'r'], Scalar::Text(user)),
        (seq!['s', 'e', 'r', 'v', 'i', 'c', 'e'], Scalar::Text(service)),
    ]
}

/// The fields of a JSON object in these bytes.
pub open spec fn fields_in(body: Seq<u8>) -> Option<Seq<(Seq<char>, Scalar)>> {
    match json_laws::read_object(vstd::utf8::decode_utf8(body)) {
        Some((fields, rest)) => if vstd::utf8::valid_utf8(body) && rest.len() == 0 {
            Some(fields)
        } else {
            None
        },
        None => None,
    }
}

proof fn lemma_fields(json: Seq<char>, fields: Seq<(Seq<char>, Scalar)>)
    requires
        json_laws::read_object(json) == Some((fields, Seq::<char>::empty())),
    ensures
        fields_in(vstd::utf8::encode_utf8(json)) == Some(fields),
{
    vstd::utf8::encode_utf8_valid_utf8(json);
    vstd::utf8::encode_utf8_decode_utf8(json);
}

/// The server takes these bytes for a request of this route with these fields.
pub open spec fn understood(
    sent: Seq<u8>,
    asked: Route,
    fields: Seq<(Seq<char>, Scalar)>,
) -> bool {
    forall|answer: Result<Request, ParseError>| #[trigger]
        http::parsed(sent, answer) ==> (answer matches Ok(q) && handlers::route_of(
            q.method@,
            q.path@,
        ) == asked && fields_in(q.body@) == Some(fields))
}

proof fn lemma_understood(
    host: Seq<char>,
    path: Seq<char>,
    user: Seq<char>,
    service: Seq<char>,
    asked: Route,
)
    requires
        wire::one_line(host),
        wire::one_word(path),
        bastion_client::pair_wire(host, path, user, service).len() <= usize::MAX,
        handlers::route_of("POST"@, path) == asked,
    ensures
        understood(
            bastion_client::pair_wire(host, path, user, service),
            asked,
            pair_fields(user, service),
        ),
{
    let json = common::pair_json(user, service);
    let body = vstd::utf8::encode_utf8(json);
    json_laws::law_pair_reads_back(user, service);
    lemma_fields(json, pair_fields(user, service));
    let sent = bastion_client::pair_wire(host, path, user, service);
    assert forall|answer: Result<Request, ParseError>| #[trigger]
        http::parsed(sent, answer) implies (answer matches Ok(q) && handlers::route_of(
        q.method@,
        q.path@,
    ) == asked && fields_in(q.body@) == Some(pair_fields(user, service))) by {
        wire::law_request_reads_back(host, path, body, answer);
    }
}

/// What the client sends to register a pair, the server understands as the registration
/// of that user and that service; and what the client makes of the reply is the error of
/// the exchange, a refusal, or what the body decodes to.
pub proof fn law_registration_is_understood<
    E: Fn(&BastionEndpoint, &Vec<u8>) -> Result<Vec<u8>, String>,
    D: Fn(&Vec<u8>) -> Result<RegisterResponse, String>,
>(
    endpoint: BastionEndpoint,
    req: RegisterRequest,
    exchange: E,
    decode: D,
    r: Result<RegisterResponse, ClientError>,
)
    requires
        wire::one_line(endpoint.host@),
        call_ensures(bastion_client::register, (&endpoint, &req, exchange, decode), r),
    ensures
        exists|sent: Vec<u8>, reply: Result<Vec<u8>, String>|
            {
                &&& #[trigger] exchange.ensures((&endpoint, &sent), reply)
                &&& understood(sent@, Route::Register, pair_fields(req.user@, req.service@))
                &&& reply matches Err(e) ==> r == Err::<RegisterResponse, ClientError>(
                    ClientError::Exchange(e),
                )
                &&& r matches Ok(v) ==> reply is Ok && exists|body: Vec<u8>| #[trigger]
                    decode.ensures((&body,), Ok(v))
            },
{
    let (sent, reply, answer) = choose|
        sent: Vec<u8>,
        reply: Result<Vec<u8>, String>,
        answer: Result<bastion_client::HttpResponse, ClientError>,
    |
        {
            &&& sent@ == bastion_client::pair_wire(
                endpoint.host@,
                "/register"@,
                req.user@,
                req.service@,
            )
            &&& #[trigger] exchange.ensures((&endpoint, &sent), reply)
            &&& #[trigger] bastion_client::posted(reply, answer)
            &&& match answer {
                Err(e) => r == Err::<RegisterResponse, ClientError>(e),
                Ok(h) => match r {
                    Ok(v) => decode.ensures((&h.body,), Ok(v)),
                    Err(e) => e matches ClientError::Decoding(why) && decode.ensures(
                        (&h.body,),
                        Err(why),
                    ),
                },
            }
        };
    reveal_strlit("/register");
    law_four_routes("POST"@, "/register"@);
    assert(sent@.len() == sent.len());
    lemma_understood(endpoint.host@, "/register"@, req.user@, req.service@, Route::Register);
    assert(exchange.ensures((&endpoint, &sent), reply));
}

/// What the client sends to take a pair out, the server understands so; and the client
/// is through exactly if the reply is one of success.
pub proof fn law_deregistration_is_understood<
    E: Fn(&BastionEndpoint, &Vec<u8>) -> Result<Vec<u8>, String>,
>(endpoint: BastionEndpoint, req: DeregisterRequest, exchange: E, r: Result<(), ClientError>)
    requires
        wire::one_line(endpoint.host@),
        call_ensures(bastion_client::deregister, (&endpoint, &req, exchange), r),
    ensures
        exists|sent: Vec<u8>, reply: Result<Vec<u8>, String>|
            {
                &&& #[trigger] exchange.ensures((&endpoint, &sent), reply)
                &&& understood(sent@, Route::Deregister, pair_fields(req.user@, req.service@))
                &&& reply matches Err(e) ==> r == Err::<(), ClientError>(ClientError::Exchange(e))
                &&& r is Ok <==> exists|h: bastion_client::HttpResponse| #[trigger]
                    bastion_client::posted(reply, Ok(h))
            },
{
    let (sent, reply, answer) = choose|
        sent: Vec<u8>,
        reply: Result<Vec<u8>, String>,
        answer: Result<bastion_client::HttpResponse, ClientError>,
    |
        {
            &&& sent@ == bastion_client::pair_wire(
                endpoint.host@,
                "/deregister"@,
                req.user@,
                req.service@,
            )
            &&& #[trigger] exchange.ensures((&endpoint, &sent), reply)
            &&& #[trigger] bastion_client::posted(reply, answer)
            &&& match answer {
                Err(e) => r == Err::<(), ClientError>(e),
                Ok(_) => r is Ok,
            }
        };
    reveal_strlit("/deregister");
    law_four_routes("POST"@, "/deregister"@);
    assert(sent@.len() == sent.len());
    lemma_understood(endpoint.host@, "/deregister"@, req.user@, req.service@, Route::Deregister);
    assert(exchange.ensures((&endpoint, &sent), reply));
    if let Ok(h) = answer {
        assert(bastion_client::posted(reply, Ok(h)));
    }
}

/// The four routes, each by its method and its path; any other method or path is none of
/// them.
pub proof fn law_four_routes(method: Seq<char>, path: Seq<char>)
    ensures
        handlers::route_of(method, path) is Healthz <==> method == "GET"@ && path == "/healthz"@,
        handlers::route_of(method, path) is Snapshot <==> method == "GET"@ && path == "/snapshot"@,
        handlers::route_of(method, path) is Register <==> method == "POST"@ && path
            == "/register"@,
        handlers::route_of(method, path) is Deregister <==> method == "POST"@ && path
            == "/deregister"@,
{
    reveal_strlit("POST");
    reveal_strlit("GET");
    reveal_strlit("/healthz");
    reveal_strlit("/snapshot");
    reveal_strlit("/register");
    reveal_strlit("/deregister");
    assert("POST"@.len() != "GET"@.len());
    assert("/healthz"@.len() != "/snapshot"@.len());
    assert("/deregister"@.len() != "/register"@.len());
}

/// Some pair has this port.
pub open spec fn has_port(ports: Map<Seq<char>, u16>, port: u16) -> bool {
    exists|k: Seq<char>| #[trigger] ports.dom().contains(k) && ports[k] == port
}

/// The text is more than white space.
pub open spec fn says_something(s: Seq<char>) -> bool {
    exists|i: int| 0 <= i < s.len() && !text::is_white(#[trigger] s[i])
}

/// A registration is answered with the port that the pair, as it was named, now has:
/// the one it had, or the lowest of the range that no other pair has. It is refused with
/// 400 exactly if it does not decode or one of its names is blank, and with 503 exactly
/// if the pair is new and every port of the range is some other pair's.
pub proof fn law_registration_is_answered(
    range: PortRange,
    before: Map<Seq<char>, u16>,
    decoded: Result<RegisterRequest, String>,
    response: Response,
    after: Map<Seq<char>, u16>,
)
    requires
        handlers::register_answered(range, before, decoded, response, after),
    ensures
        response.content_type@ == "application/json"@,
        response.status == 400 <==> (decoded matches Ok(p) ==> !(says_something(p.user@)
            && says_something(p.service@))),
        response.status == 200 || response.status == 400 || response.status == 503,
        decoded matches Err(e) ==> fields_in(response.body@) == Some(
            seq![(seq!['e', 'r', 'r', 'o', 'r'], Scalar::Text(e@))],
        ),
        response.status != 200 ==> after == before,
        decoded matches Ok(p) ==> {
            let name = registry::composite((p.user@, p.service@));
            &&& response.status == 200 ==> {
                &&& after.dom().contains(name)
                &&& fields_in(response.body@) == Some(
                    seq![
                        (
                            seq!['r', 'e', 'm', 'o', 't', 'e', '_', 'p', 'o', 'r', 't'],
                            Scalar::Number(after[name] as nat),
                        ),
                    ],
                )
                &&& before.dom().contains(name) ==> after == before
                &&& !before.dom().contains(name) ==> {
                    let port = after[name];
                    &&& range.start <= port <= range.end
                    &&& after == before.insert(name, port)
                    &&& forall|k: Seq<char>| #[trigger] before.dom().contains(k) ==> before[k] != port
                    &&& forall|q: u16|
                        range.start <= q < port ==> #[trigger] has_port(before, q)
                }
            }
            &&& response.status == 503 ==> !before.dom().contains(name) && forall|q: u16|
                range.start <= q <= range.end ==> #[trigger] has_port(before, q)
        },
{
    match decoded {
        Err(e) => {
            json_laws::law_error_reads_back(e@);
            lemma_fields(
                common::error_json(e@),
                seq![(seq!['e', 'r', 'r', 'o', 'r'], Scalar::Text(e@))],
            );
        },
        Ok(p) => {
            if says_something(p.user@) && says_something(p.service@) {
                let name = registry::composite((p.user@, p.service@));
                let answer = choose|answer: Result<u16, RangeExhausted>|
                    {
                        &&& #[trigger] registry::registration(range, before, name, answer, after)
                        &&& match answer {
                            Ok(port) => handlers::answers_json(
                                response,
                                200,
                                "OK"@,
                                common::port_json(port),
                            ),
                            Err(e) => handlers::answers_json(
                                response,
                                503,
                                "Service Unavailable"@,
                                common::error_json(e.text()),
                            ),
                        }
                    };
                if let Ok(port) = answer {
                    json_laws::law_port_reads_back(port);
                    lemma_fields(
                        common::port_json(port),
                        seq![
                            (
                                seq!['r', 'e', 'm', 'o', 't', 'e', '_', 'p', 'o', 'r', 't'],
                                Scalar::Number(port as nat),
                            ),
                        ],
                    );
                    assert(after[name] == port);
                }
                law_new_pair_gets_the_lowest_free_port(range, before, name, answer, after);
            }
        },
    }
}

/// A new pair gets the lowest port of the range that no pair has, and none only where
/// every port of the range is taken; a pair that has a port keeps it, and no other pair
/// is touched.
pub proof fn law_new_pair_gets_the_lowest_free_port(
    range: PortRange,
    before: Map<Seq<char>, u16>,
    name: Seq<char>,
    answer: Result<u16, RangeExhausted>,
    after: Map<Seq<char>, u16>,
)
    requires
        registry::registration(range, before, name, answer, after),
    ensures
        before.dom().contains(name) ==> answer == Ok::<u16, RangeExhausted>(before[name]) && after
            == before,
        !before.dom().contains(name) ==> match answer {
            Ok(port) => {
                &&& range.start <= port <= range.end
                &&& after == before.insert(name, port)
                &&& forall|k: Seq<char>| #[trigger] before.dom().contains(k) ==> before[k] != port
                &&& forall|q: u16|
                    range.start <= q < port ==> #[trigger] has_port(before, q)
            },
            Err(_) => after == before && forall|q: u16|
                range.start <= q <= range.end ==> #[trigger] has_port(before, q),
        },
{
    if !before.dom().contains(name) {
        match answer {
            Ok(port) => {
                assert forall|k: Seq<char>| #[trigger] before.dom().contains(k) implies before[k]
                    != port by {
                    assert(!registry::taken(before, port as int));
                }
                assert forall|q: u16| range.start <= q < port implies #[trigger] has_port(before, q) by {
                    assert(registry::taken(before, q as int));
                }
            },
            Err(_) => {
                assert forall|q: u16| range.start <= q <= range.end implies #[trigger] has_port(before, q) by {
                    assert(range.has(q as int));
                    assert(registry::taken(before, q as int));
                }
            },
        }
    }
}

/// A range holds both its ends and what lies between; the one that is used where none is
/// asked for has the ten thousand ports from ten thousand on.
pub proof fn law_port_range(range: PortRange, port: u16, r: bool, usual: PortRange)
    requires
        call_ensures(PortRange::contains, (&range, port), r),
        call_ensures(registry::default_port_range, (), usual),
    ensures
        r <==> range.start <= port && port <= range.end,
        usual.start == 10000,
        usual.end == 19999,
{
}

/// A pair is filed under its user and its service with a slash between them, where the
/// user has no slash of its own.
pub proof fn law_pair_is_filed_with_a_slash(user: Seq<char>, service: Seq<char>)
    requires
        !user.contains('/'),
    ensures
        registry::composite((user, service)) == user + seq!['/'] + service,
{
    assert(registry::composite((user, service)) =~= user + seq!['/'] + service);
}

/// Taking a pair out leaves every other as it is, and is answered with success whether
/// the pair was there or not; a request that does not decode is refused, and changes
/// nothing.
pub proof fn law_deregistration_is_answered(
    before: Map<Seq<char>, u16>,
    decoded: Result<DeregisterRequest, String>,
    response: Response,
    after: Map<Seq<char>, u16>,
    k: Seq<char>,
)
    requires
        handlers::deregister_answered(before, decoded, response, after),
    ensures
        match decoded {
            Ok(p) => {
                let name = registry::composite((p.user@, p.service@));
                &&& response.status == 200
                &&& !after.dom().contains(name)
                &&& k != name ==> after.dom().contains(k) == before.dom().contains(k)
                &&& k != name && before.dom().contains(k) ==> after[k] == before[k]
            },
            Err(e) => {
                &&& response.status == 400
                &&& after == before
                &&& fields_in(response.body@) == Some(
                    seq![(seq!['e', 'r', 'r', 'o', 'r'], Scalar::Text(e@))],
                )
            },
        },
{
    if let Err(e) = decoded {
        json_laws::law_error_reads_back(e@);
        lemma_fields(
            common::error_json(e@),
            seq![(seq!['e', 'r', 'r', 'o', 'r'], Scalar::Text(e@))],
        );
    }
}

/// The fields of an entry of the snapshot.
pub open spec fn entry_fields(entry: ((Seq<char>, Seq<char>), u16)) -> Seq<(Seq<char>, Scalar)> {
    pair_fields(entry.0.0, entry.0.1).push(
        (
            seq!['r', 'e', 'm', 'o', 't', 'e', '_', 'p', 'o', 'r', 't'],
            Scalar::Number(entry.1 as nat),
        ),
    )
}

/// Objects with commas between them, up to a closing bracket.
pub open spec fn read_objects(s: Seq<char>) -> Option<
    (Seq<Seq<(Seq<char>, Scalar)>>, Seq<char>),
>
    decreases s.len(),
{
    match json_laws::read_object(s) {
        Some((fields, rest)) => if rest.len() > 0 && rest[0] == ']' {
            Some((seq![fields], rest.skip(1)))
        } else if 0 < rest.len() <= s.len() && rest[0] == ',' {
            match read_objects(rest.skip(1)) {
                Some((more, rest)) => Some((seq![fields] + more, rest)),
                None => None,
            }
        } else {
            None
        },
        None => None,
    }
}

/// An array of objects.
pub open spec fn read_array(s: Seq<char>) -> Option<Seq<Seq<(Seq<char>, Scalar)>>> {
    if s == seq!['[', ']'] {
        Some(seq![])
    } else if s.len() > 0 && s[0] == '[' {
        match read_objects(s.skip(1)) {
            Some((objects, rest)) => if rest.len() == 0 {
                Some(objects)
            } else {
                None
            },
            None => None,
        }
    } else {
        None
    }
}

proof fn lemma_entry_text(entry: ((Seq<char>, Seq<char>), u16), rest: Seq<char>)
    ensures
        ({
            let third = seq!['"'] + seq!['r', 'e', 'm', 'o', 't', 'e', '_', 'p', 'o', 'r', 't']
                + seq!['"', ':'] + text::decimal(entry.1 as nat) + (seq!['}'] + rest);
            let second = seq!['"'] + seq!['s', 'e', 'r', 'v', 'i', 'c', 'e'] + seq!['"', ':']
                + common::json_text(entry.0.1) + (seq![','] + third);
            let first = seq!['"'] + seq!['u', 's', 'e', 'r'] + seq!['"', ':'] + common::json_text(
                entry.0.0,
            ) + (seq![','] + second);
            handlers::entry_json(entry) + rest == seq!['{'] + first
        }),
        handlers::entry_json(entry).len() > 0,
{
    reveal_strlit("{\"user\":");
    reveal_strlit(",\"service\":");
    reveal_strlit(",\"remote_port\":");
    reveal_strlit("}");
    let third = seq!['"'] + seq!['r', 'e', 'm', 'o', 't', 'e', '_', 'p', 'o', 'r', 't'] + seq![
        '"',
        ':',
    ] + text::decimal(entry.1 as nat) + (seq!['}'] + rest);
    let second = seq!['"'] + seq!['s', 'e', 'r', 'v', 'i', 'c', 'e'] + seq!['"', ':']
        + common::json_text(entry.0.1) + (seq![','] + third);
    let first = seq!['"'] + seq!['u', 's', 'e', 'r'] + seq!['"', ':'] + common::json_text(
        entry.0.0,
    ) + (seq![','] + second);
    assert(handlers::entry_json(entry) + rest =~= seq!['{'] + first);
}

#[verifier::rlimit(40)]
#[verifier::spinoff_prover]
proof fn lemma_entry(entry: ((Seq<char>, Seq<char>), u16), rest: Seq<char>)
    ensures
        json_laws::read_object(handlers::entry_json(entry) + rest) == Some(
            (entry_fields(entry), rest),
        ),
        handlers::entry_json(entry).len() > 0,
{
    let (pair, port) = entry;
    let (user, service) = pair;
    let name1 = seq!['u', 's', 'e', 'r'];
    let name2 = seq!['s', 'e', 'r', 'v', 'i', 'c', 'e'];
    let name3 = seq!['r', 'e', 'm', 'o', 't', 'e', '_', 'p', 'o', 'r', 't'];
    let field1 = (name1, Scalar::Text(user));
    let field2 = (name2, Scalar::Text(service));
    let field3 = (name3, Scalar::Number(port as nat));
    let end = seq!['}'] + rest;
    let third = seq!['"'] + name3 + seq!['"', ':'] + text::decimal(port as nat) + end;
    let second = seq!['"'] + name2 + seq!['"', ':'] + common::json_text(service) + (seq![',']
        + third);
    let first = seq!['"'] + name1 + seq!['"', ':'] + common::json_text(user) + (seq![',']
        + second);
    lemma_entry_text(entry, rest);
    json_laws::law_number_reads_back(port as u64, end);
    json_laws::lemma_last_field(
        name3,
        text::decimal(port as nat),
        Scalar::Number(port as nat),
        rest,
    );
    json_laws::lemma_text(service, seq![','] + third);
    json_laws::lemma_field_before(
        name2,
        common::json_text(service),
        Scalar::Text(service),
        third,
        seq![field3],
        rest,
    );
    json_laws::lemma_text(user, seq![','] + second);
    json_laws::lemma_field_before(
        name1,
        common::json_text(user),
        Scalar::Text(user),
        second,
        seq![field2] + seq![field3],
        rest,
    );
    assert((seq!['{'] + first).skip(1) =~= first);
    assert(seq![field1] + (seq![field2] + seq![field3]) =~= entry_fields(entry));
}

#[verifier::rlimit(40)]
#[verifier::spinoff_prover]
proof fn lemma_entries(entries: Seq<((Seq<char>, Seq<char>), u16)>)
    requires
        entries.len() > 0,
    ensures
        read_objects(
            text::joined(
                entries.map_values(|e: ((Seq<char>, Seq<char>), u16)| handlers::entry_json(e)),
                ","@,
            ) + "]"@,
        ) == Some(
            (
                entries.map_values(|e: ((Seq<char>, Seq<char>), u16)| entry_fields(e)),
                Seq::<char>::empty(),
            ),
        ),
    decreases entries.len(),
{
    let f = |e: ((Seq<char>, Seq<char>), u16)| handlers::entry_json(e);
    let g = |e: ((Seq<char>, Seq<char>), u16)| entry_fields(e);
    reveal_strlit(",");
    reveal_strlit("]");
    let first = entries[0];
    let others = entries.skip(1);
    let texts = entries.map_values(f);
    assert(texts =~= seq![handlers::entry_json(first)] + others.map_values(f));
    text_laws::law_joining_from_the_front(
        handlers::entry_json(first),
        others.map_values(f),
        ","@,
    );
    let whole = text::joined(texts, ","@) + "]"@;
    assert(entries.map_values(g) =~= seq![entry_fields(first)] + others.map_values(g));
    if others.len() == 0 {
        assert(texts =~= seq![handlers::entry_json(first)]);
        let rest = "]"@;
        lemma_entry(first, rest);
        assert(rest.skip(1) =~= Seq::<char>::empty());
        assert(entries.map_values(g) =~= seq![entry_fields(first)]);
    } else {
        lemma_entries(others);
        let tail = text::joined(others.map_values(f), ","@) + "]"@;
        let rest = seq![','] + tail;
        assert(whole =~= handlers::entry_json(first) + rest);
        lemma_entry(first, rest);
        assert(rest.skip(1) =~= tail);
    }
}

/// A snapshot lists the pairs with their ports, each with its user, its service and its
/// port, in their order and nothing else.
pub proof fn law_snapshot_reads_back(entries: Seq<((Seq<char>, Seq<char>), u16)>)
    ensures
        read_array(handlers::snapshot_json(entries)) == Some(
            Seq::new(entries.len(), |i: int| entry_fields(entries[i])),
        ),
{
    let f = |e: ((Seq<char>, Seq<char>), u16)| handlers::entry_json(e);
    let g = |e: ((Seq<char>, Seq<char>), u16)| entry_fields(e);
    let whole = handlers::snapshot_json(entries);
    reveal_strlit("[");
    reveal_strlit("]");
    assert(entries.map_values(g) =~= Seq::new(
        entries.len(),
        |i: int| entry_fields(entries[i]),
    ));
    if entries.len() == 0 {
        assert(whole =~= seq!['[', ']']);
        assert(entries.map_values(g) =~= seq![]);
    } else {
        let inner = text::joined(entries.map_values(f), ","@) + "]"@;
        lemma_entries(entries);
        assert(whole =~= seq!['['] + inner);
        assert(whole.skip(1) =~= inner);
        lemma_begins_with_brace(entries);
        assert(whole[1] == '{');
    }
}

proof fn lemma_begins_with_brace(entries: Seq<((Seq<char>, Seq<char>), u16)>)
    requires
        entries.len() > 0,
    ensures
        ({
            let inner = text::joined(
                entries.map_values(|e: ((Seq<char>, Seq<char>), u16)| handlers::entry_json(e)),
                ","@,
            );
            inner.len() > 0 && inner[0] == '{'
        }),
    decreases entries.len(),
{
    let f = |e: ((Seq<char>, Seq<char>), u16)| handlers::entry_json(e);
    let texts = entries.map_values(f);
    reveal_strlit("{\"user\":");
    if entries.len() > 1 {
        lemma_begins_with_brace(entries.drop_last());
        assert(texts.drop_last() =~= entries.drop_last().map_values(f));
    }
}

/// The length of a body is told by the field of that name, in capitals or small letters,
/// and no other field tells it.
pub proof fn law_length_field(name: Seq<char>, value: Seq<char>)
    requires
        !name.contains(':'),
    ensures
        http::length_field(name + seq![':'] + value) == (if name.len() == 14 && forall|i: int|
            0 <= i < 14 ==> text_laws::one_letter(#[trigger] name[i], "content-length"@[i]) {
            Some(text::number(text::trimmed(value), usize::MAX as nat))
        } else {
            None
        }),
        http::length_field(name) is None,
{
    let line = name + seq![':'] + value;
    let f = text::other_than(':');
    assert forall|i: int| 0 <= i < name.len() implies f(#[trigger] name[i]) by {
        assert(name.contains(name[i]) || name[i] != ':');
    }
    assert forall|i: int| 0 <= i < name.len() implies f(#[trigger] line[i]) by {
        assert(line[i] == name[i]);
        assert(f(name[i]));
    }
    assert(line[name.len() as int] == ':');
    text::lemma_span_unique(line, f, name.len());
    text::lemma_span_unique(name, f, name.len());
    assert(line.take(name.len() as int) =~= name);
    assert(line.skip(name.len() as int + 1) =~= value);
    reveal_strlit("content-length");
    text_laws::lemma_same_letters(name, "content-length"@);
}

/// The length that the fields tell is that of the last of them, and none is told where
/// one of them cannot be read; without any it is zero.
pub proof fn law_last_length_counts(lines: Seq<Seq<char>>)
    ensures
        http::declared_length(lines) is None <==> exists|i: int|
            0 <= i < lines.len() && http::length_field(#[trigger] lines[i]) == Some(None::<nat>),
        http::declared_length(lines) matches Some(n) ==> {
            ||| n == 0 && forall|i: int|
                0 <= i < lines.len() ==> http::length_field(#[trigger] lines[i]) is None
            ||| exists|i: int|
                {
                    &&& 0 <= i < lines.len()
                    &&& http::length_field(#[trigger] lines[i]) == Some(Some(n))
                    &&& forall|j: int|
                        i < j < lines.len() ==> http::length_field(#[trigger] lines[j]) is None
                }
        },
    decreases lines.len(),
{
    if lines.len() > 0 {
        let front = lines.drop_last();
        let last = lines.len() - 1;
        law_last_length_counts(front);
        assert(forall|i: int| 0 <= i < last ==> front[i] == lines[i]);
        assert(lines[last] == lines.last());
        match http::declared_length(front) {
            None => {
                let i = choose|i: int|
                    0 <= i < front.len() && http::length_field(#[trigger] front[i]) == Some(
                        None::<nat>,
                    );
                assert(http::length_field(lines[i]) == Some(None::<nat>));
            },
            Some(n) => {
                assert forall|i: int| 0 <= i < last implies http::length_field(
                    #[trigger] lines[i],
                ) != Some(None::<nat>) by {
                    assert(http::length_field(front[i]) != Some(None::<nat>));
                }
                if http::length_field(lines.last()) is None {
                    if exists|i: int|
                        {
                            &&& 0 <= i < front.len()
                            &&& http::length_field(#[trigger] front[i]) == Some(Some(n))
                            &&& forall|j: int|
                                i < j < front.len() ==> http::length_field(#[trigger] front[j])
                                    is None
                        } {
                        let i = choose|i: int|
                            {
                                &&& 0 <= i < front.len()
                                &&& http::length_field(#[trigger] front[i]) == Some(Some(n))
                                &&& forall|j: int|
                                    i < j < front.len() ==> http::length_field(#[trigger] front[j])
                                        is None
                            };
                        assert(http::length_field(lines[i]) == Some(Some(n)));
                        assert forall|j: int| i < j < lines.len() implies http::length_field(
                            #[trigger] lines[j],
                        ) is None by {
                            if j < last {
                                assert(http::length_field(front[j]) is None);
                            }
                        }
                    } else {
                        assert forall|i: int| 0 <= i < lines.len() implies http::length_field(
                            #[trigger] lines[i],
                        ) is None by {
                            if i < last {
                                assert(http::length_field(front[i]) is None);
                            }
                        }
                    }
                } else if http::length_field(lines.last()) is Some {
                    assert(http::length_field(lines[last]) == http::length_field(lines.last()));
                }
            },
        }
    }
}

/// Two line ends of carriage return and line feed stand here.
pub open spec fn empty_line_at(raw: Seq<u8>, q: int) -> bool {
    0 <= q && q + 4 <= raw.len() && raw[q] == 13 && raw[q + 1] == 10 && raw[q + 2] == 13 && raw[q
        + 3] == 10
}

/// Two line feeds stand here.
pub open spec fn bare_line_at(raw: Seq<u8>, q: int) -> bool {
    0 <= q && q + 2 <= raw.len() && raw[q] == 10 && raw[q + 1] == 10
}

/// The head of a request ends at the first empty line that is ended by carriage returns
/// and line feeds, or, without one, at the first that is ended by line feeds alone; and
/// the body begins behind it.
pub proof fn law_head_ends_at_the_empty_line(raw: &[u8], r: Option<(usize, usize)>)
    requires
        call_ensures(http::find_header_terminator, (raw,), r),
    ensures
        match r {
            Some((end, start)) => {
                ||| {
                    &&& start == end + 4
                    &&& empty_line_at(raw@, end as int)
                    &&& forall|q: int| 0 <= q < end ==> !#[trigger] empty_line_at(raw@, q)
                }
                ||| {
                    &&& start == end + 2
                    &&& bare_line_at(raw@, end as int)
                    &&& forall|q: int| 0 <= q < end ==> !#[trigger] bare_line_at(raw@, q)
                    &&& forall|q: int| !#[trigger] empty_line_at(raw@, q)
                }
            },
            None => {
                &&& forall|q: int| !#[trigger] empty_line_at(raw@, q)
                &&& forall|q: int| !#[trigger] bare_line_at(raw@, q)
            },
        },
{
    let a = http::crlf_crlf();
    let b = http::lf_lf();
    http::lemma_find_from(raw@, a, 0);
    http::lemma_find_from(raw@, b, 0);
    assert forall|q: int| #[trigger]
        empty_line_at(raw@, q) == http::stands_at(raw@, a, q) by {
        lemma_lines_at(raw@, q);
    }
    assert forall|q: int| #[trigger] bare_line_at(raw@, q) == http::stands_at(raw@, b, q) by {
        lemma_lines_at(raw@, q);
    }
}

proof fn lemma_lines_at(raw: Seq<u8>, q: int)
    ensures
        empty_line_at(raw, q) == http::stands_at(raw, http::crlf_crlf(), q),
        bare_line_at(raw, q) == http::stands_at(raw, http::lf_lf(), q),
{
    let a = http::crlf_crlf();
    let b = http::lf_lf();
    if 0 <= q && q + 4 <= raw.len() {
        let s = raw.subrange(q, q + 4);
        assert(s[0] == raw[q] && s[1] == raw[q + 1] && s[2] == raw[q + 2] && s[3] == raw[q + 3]);
        if empty_line_at(raw, q) {
            assert(s =~= a);
        }
    }
    if 0 <= q && q + 2 <= raw.len() {
        let s = raw.subrange(q, q + 2);
        assert(s[0] == raw[q] && s[1] == raw[q + 1]);
        if bare_line_at(raw, q) {
            assert(s =~= b);
        }
    }
}

/// A request that parses has the first two words of its first line for method and path,
/// and for body what follows its head, as far as its fields tell and the bytes go.
pub proof fn law_request_parses(raw: &[u8], q: Request)
    requires
        call_ensures(http::parse_request, (raw,), Ok(q)),
    ensures
        http::terminator(raw@) matches Some((end, start)) && vstd::utf8::valid_utf8(raw@.take(end))
            && {
            let lines = text::header_lines(vstd::utf8::decode_utf8(raw@.take(end)));
            let left = raw@.len() - start;
            &&& text::words(lines[0]).len() >= 2
            &&& q.method@ == text::words(lines[0])[0]
            &&& q.path@ == text::words(lines[0])[1]
            &&& http::declared_length(lines.skip(1)) matches Some(n) && q.body@.len() == (if n
                <= left {
                n as int
            } else {
                left
            })
            &&& q.body@ == raw@.subrange(start, start + q.body@.len())
        },
{
    let (end, start) = http::terminator(raw@)->0;
    let lines = text::header_lines(vstd::utf8::decode_utf8(raw@.take(end)));
    assert(lines.len() > 0);
    assert(lines.drop_first() =~= lines.skip(1));
    http::lemma_find_from(raw@, http::crlf_crlf(), 0);
    http::lemma_find_from(raw@, http::lf_lf(), 0);
    assert(q.body@ =~= raw@.subrange(start, start + q.body@.len()));
}

/// What a connection has given is cut off above sixty-four kilobytes: a piece that takes
/// it beyond that, or to it without ending the request, is refused as too large, and no
/// other piece is.
pub proof fn law_request_is_capped(
    buf: Seq<u8>,
    chunk: Vec<u8>,
    answer: Option<Result<Request, http::RequestError>>,
)
    requires
        http::fed(buf, Ok(chunk), answer),
        chunk@.len() > 0,
    ensures
        buf.len() + chunk@.len() > 65536 ==> (answer matches Some(
            Err(http::RequestError::Oversized { cap }),
        ) && cap == 65536),
        answer matches Some(Err(http::RequestError::Oversized { .. })) ==> buf.len() + chunk@.len()
            >= 65536,
        answer is None ==> buf.len() + chunk@.len() < 65536,
{
}

/// A reply that is taken apart has the number that is the second word of its first line for
/// status, and what follows its head for body. It is not to be had without an end of its
/// head, with a head that is no UTF-8, or without such a number.
pub proof fn law_reply_is_taken_apart(
    raw: &[u8],
    r: Result<bastion_client::HttpResponse, ClientError>,
)
    requires
        call_ensures(bastion_client::parse_response, (raw,), r),
    ensures
        match r {
            Ok(h) => exists|end: int|
                {
                    &&& #[trigger] empty_line_at(raw@, end)
                    &&& forall|q: int| 0 <= q < end ==> !#[trigger] empty_line_at(raw@, q)
                    &&& vstd::utf8::valid_utf8(raw@.take(end))
                    &&& ({
                        let head = vstd::utf8::decode_utf8(raw@.take(end));
                        let words = text::words(text::header_lines(head)[0]);
                        &&& words.len() >= 2
                        &&& text::number(words[1], 65535) == Some(h.status as nat)
                    })
                    &&& h.body@ == raw@.skip(end + 4)
                },
            Err(ClientError::NoTerminator) => forall|q: int| !#[trigger] empty_line_at(raw@, q),
            Err(ClientError::HeadNotUtf8) => exists|end: int| #[trigger]
                empty_line_at(raw@, end) && !vstd::utf8::valid_utf8(raw@.take(end)),
            Err(ClientError::MissingStatusLine) => empty_line_at(raw@, 0),
            Err(ClientError::MissingStatusCode) => exists|end: int| #[trigger]
                empty_line_at(raw@, end) && text::words(
                    text::header_lines(vstd::utf8::decode_utf8(raw@.take(end)))[0],
                ).len() < 2,
            Err(ClientError::BadStatusCode) => exists|end: int| #[trigger]
                empty_line_at(raw@, end) && text::number(
                    text::words(
                        text::header_lines(vstd::utf8::decode_utf8(raw@.take(end)))[0],
                    )[1],
                    65535,
                ) is None,
            Err(_) => false,
        },
{
    let a = http::crlf_crlf();
    http::lemma_find_from(raw@, a, 0);
    assert forall|q: int| #[trigger] empty_line_at(raw@, q) == http::stands_at(raw@, a, q) by {
        lemma_lines_at(raw@, q);
    }
    if let Some(end) = http::find_from(raw@, a, 0) {
        assert(empty_line_at(raw@, end));
        if vstd::utf8::valid_utf8(raw@.take(end)) {
            let head = vstd::utf8::decode_utf8(raw@.take(end));
            if head.len() == 0 {
                vstd::utf8::decode_utf8_encode_utf8(raw@.take(end));
                assert(raw@.take(end).len() == 0) by {
                    assert(vstd::utf8::encode_utf8(Seq::<char>::empty()).len() == 0);
                    assert(head =~= Seq::<char>::empty());
                }
                assert(end == 0);
            }
        }
    }
}

/// A connection that closes has given nothing, or a head without an end, or a request that
/// is then taken as it is.
pub proof fn law_closed_connection_is_judged(
    reader: http::RequestReader,
    r: Result<Request, http::RequestError>,
)
    requires
        call_ensures(http::RequestReader::finish, (&reader,), r),
    ensures
        reader@.len() == 0 <==> r == Err::<Request, http::RequestError>(
            http::RequestError::EmptyConnection,
        ),
        r matches Err(http::RequestError::Truncated { .. }) <==> reader@.len() > 0
            && http::terminator(reader@) is None,
        r matches Ok(q) ==> http::parsed(reader@, Ok(q)),
        r matches Err(http::RequestError::Malformed(e)) ==> http::parsed(reader@, Err(e)),
        !(r matches Err(http::RequestError::Oversized { .. })),
        !(r matches Err(http::RequestError::Io(_))),
{
}

/// The registry's file is where it is asked for, else in the bastion's own directory.
pub proof fn law_registry_file(asked: Option<String>, r: String)
    requires
        call_ensures(registry::default_registry_path, (asked,), r),
    ensures
        asked matches Some(path) ==> r@ == path@,
        asked is None ==> r@ == "/var/lib/ephemwork/registry.json"@,
{
}

/// A read that fails ends the request with its cause; one that gives nothing, because the
/// peer has closed, ends it with what has come.
pub proof fn law_read_that_ends_a_request(
    buf: Seq<u8>,
    read: Result<Vec<u8>, String>,
    answer: Option<Result<Request, http::RequestError>>,
)
    requires
        http::fed(buf, read, answer),
    ensures
        read matches Err(e) ==> answer == Some(
            Err::<Request, http::RequestError>(http::RequestError::Io(e)),
        ),
        read matches Ok(chunk) ==> (chunk@.len() == 0 ==> (answer matches Some(a) && match a {
            Ok(q) => http::parsed(buf, Ok(q)),
            Err(http::RequestError::EmptyConnection) => buf.len() == 0,
            Err(http::RequestError::Truncated { .. }) => buf.len() > 0 && http::terminator(buf)
                is None,
            Err(http::RequestError::Malformed(e)) => http::parsed(buf, Err(e)),
            Err(_) => false,
        })),
{
}

/// The reason that goes with the status of an answer to a registration, and the words for a
/// name that is blank.
pub proof fn law_registration_is_answered_in_words(
    range: PortRange,
    before: Map<Seq<char>, u16>,
    decoded: Result<RegisterRequest, String>,
    response: Response,
    after: Map<Seq<char>, u16>,
)
    requires
        handlers::register_answered(range, before, decoded, response, after),
    ensures
        response.status == 200 ==> response.reason@ == "OK"@,
        response.status == 400 ==> response.reason@ == "Bad Request"@,
        response.status == 503 ==> response.reason@ == "Service Unavailable"@,
        decoded matches Ok(p) ==> (!(says_something(p.user@) && says_something(p.service@))
            ==> fields_in(response.body@) == Some(
            seq![
                (
                    seq!['e', 'r', 'r', 'o', 'r'],
                    Scalar::Text("user and service must be non-empty"@),
                ),
            ],
        )),
{
    let words = "user and service must be non-empty"@;
    json_laws::law_error_reads_back(words);
    lemma_fields(
        common::error_json(words),
        seq![(seq!['e', 'r', 'r', 'o', 'r'], Scalar::Text(words))],
    );
    if let Ok(p) = decoded {
        if says_something(p.user@) && says_something(p.service@) {
            let name = registry::composite((p.user@, p.service@));
            let answer = choose|answer: Result<u16, RangeExhausted>|
                {
                    &&& #[trigger] registry::registration(range, before, name, answer, after)
                    &&& match answer {
                        Ok(port) => handlers::answers_json(
                            response,
                            200,
                            "OK"@,
                            common::port_json(port),
                        ),
                        Err(e) => handlers::answers_json(
                            response,
                            503,
                            "Service Unavailable"@,
                            common::error_json(e.text()),
                        ),
                    }
                };
            assert(registry::registration(range, before, name, answer, after));
        }
    }
}

/// While a request is read, the first length among its fields that can be read says how
/// much is to come; without one nothing is.
pub proof fn law_first_readable_length_counts(lines: Seq<Seq<char>>)
    ensures
        ({
            let n = http::early_length(lines);
            ||| n == 0 && forall|i: int|
                0 <= i < lines.len() ==> !(http::length_field(
                    text::strip_end(#[trigger] lines[i], text::equal_to('\r')),
                ) matches Some(Some(_)))
            ||| exists|i: int|
                {
                    &&& 0 <= i < lines.len()
                    &&& http::length_field(
                        text::strip_end(#[trigger] lines[i], text::equal_to('\r')),
                    ) == Some(Some(n))
                    &&& forall|j: int|
                        0 <= j < i ==> !(http::length_field(
                            text::strip_end(#[trigger] lines[j], text::equal_to('\r')),
                        ) matches Some(Some(_)))
                }
        }),
    decreases lines.len(),
{
    if lines.len() > 0 {
        let rest = lines.drop_first();
        let n = http::early_length(lines);
        let f = text::equal_to('\r');
        if http::length_field(text::strip_end(lines[0], f)) matches Some(Some(_)) {
            assert(http::length_field(text::strip_end(lines[0], f)) == Some(Some(n)));
        } else {
            law_first_readable_length_counts(rest);
            assert(forall|i: int| 0 < i < lines.len() ==> rest[i - 1] == #[trigger] lines[i]);
            if exists|i: int|
                {
                    &&& 0 <= i < rest.len()
                    &&& http::length_field(text::strip_end(#[trigger] rest[i], f)) == Some(Some(n))
                    &&& forall|j: int|
                        0 <= j < i ==> !(http::length_field(
                            text::strip_end(#[trigger] rest[j], f),
                        ) matches Some(Some(_)))
                } {
                let i = choose|i: int|
                    {
                        &&& 0 <= i < rest.len()
                        &&& http::length_field(text::strip_end(#[trigger] rest[i], f)) == Some(
                            Some(n),
                        )
                        &&& forall|j: int|
                            0 <= j < i ==> !(http::length_field(
                                text::strip_end(#[trigger] rest[j], f),
                            ) matches Some(Some(_)))
                    };
                assert(lines[i + 1] == rest[i]);
                assert forall|j: int| 0 <= j < i + 1 implies !(http::length_field(
                    text::strip_end(#[trigger] lines[j], f),
                ) matches Some(Some(_))) by {
                    if j > 0 {
                        assert(lines[j] == rest[j - 1]);
                    }
                }
            } else {
                assert forall|j: int| 0 <= j < lines.len() implies !(http::length_field(
                    text::strip_end(#[trigger] lines[j], f),
                ) matches Some(Some(_))) by {
                    if j > 0 {
                        assert(lines[j] == rest[j - 1]);
                    }
                }
            }
        }
    }
}

/// A request is complete as soon as there is, behind the end of its head, as much as was
/// said to come.
pub proof fn law_request_is_complete(buf: Seq<u8>)
    ensures
        http::complete(buf) <==> (http::terminator(buf) matches Some((_, start)) && buf.len()
            >= start + http::early_length(http::early_lines(buf, start))),
{
}

} // verus!
