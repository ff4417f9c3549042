//! Pure routing/handler logic. Given a `Request` and a mutable `Registry`,
//! produce a `Response`. No I/O.

use vstd::prelude::*;
use crate::common;
use crate::common::{DeregisterRequest, ErrorResponse, RegisterRequest, RegisterResponse};
use crate::http::{Request, Response};
use crate::registry;
use crate::registry::{Key, PortRange, RangeExhausted, Registry};
use crate::text;

verus! {

/// Hook the bastion calls after every successful mutation so the nginx
/// reloader can rewrite its upstream map.
pub trait MutationListener: Sized {
    /// How a listener that has heard of the registry differs from what it was:
    /// in any way, where an implementation does not say.
    open spec fn heard(before: Self, registry: Registry, after: Self) -> bool {
        true
    }

    fn on_change(&mut self, registry: &Registry)
        ensures
            Self::heard(*old(self), *registry, *final(self)),
    ;
}

/// A listener that does nothing.
pub struct NoopListener;

impl MutationListener for NoopListener {
    open spec fn heard(before: Self, registry: Registry, after: Self) -> bool {
        after == before
    }

    fn on_change(&mut self, registry: &Registry) {
    }
}

/// What a request asks for.
pub enum Route {
    Healthz,
    Register,
    Deregister,
    Snapshot,
    Unknown,
}

/// The routes of the control plane. Method and path are compared as they are.
pub open spec fn route_of(method: Seq<char>, path: Seq<char>) -> Route {
    if method == "GET"@ && path == "/healthz"@ {
        Route::Healthz
    } else if method == "POST"@ && path == "/register"@ {
        Route::Register
    } else if method == "POST"@ && path == "/deregister"@ {
        Route::Deregister
    } else if method == "GET"@ && path == "/snapshot"@ {
        Route::Snapshot
    } else {
        Route::Unknown
    }
}

/// A JSON response of this status, reason and text.
pub open spec fn answers_json(
    response: Response,
    status: u16,
    reason: Seq<char>,
    json: Seq<char>,
) -> bool {
    &&& response.status == status
    &&& response.reason@ == reason
    &&& response.content_type@ == "application/json"@
    &&& response.body@ == vstd::utf8::encode_utf8(json)
}

/// The response to a registration, and the registry that it leaves: a body
/// that does not decode and a blank name are refused, a full range is reported,
/// and otherwise the port is answered.
pub open spec fn register_answered(
    range: PortRange,
    before: Map<Seq<char>, u16>,
    decoded: Result<RegisterRequest, String>,
    response: Response,
    after: Map<Seq<char>, u16>,
) -> bool {
    match decoded {
        Err(e) => after == before && answers_json(
            response,
            400,
            "Bad Request"@,
            common::error_json(e@),
        ),
        Ok(p) => if text::is_blank(p.user@) || text::is_blank(p.service@) {
            after == before && answers_json(
                response,
                400,
                "Bad Request"@,
                common::error_json("user and service must be non-empty"@),
            )
        } else {
            exists|answer: Result<u16, RangeExhausted>|
                {
                    &&& #[trigger] registry::registration(
                        range,
                        before,
                        registry::composite((p.user@, p.service@)),
                        answer,
                        after,
                    )
                    &&& match answer {
                        Ok(port) => answers_json(response, 200, "OK"@, common::port_json(port)),
                        Err(e) => answers_json(
                            response,
                            503,
                            "Service Unavailable"@,
                            common::error_json(e.text()),
                        ),
                    }
                }
        },
    }
}

/// The response to a deregistration, and the registry that it leaves.
pub open spec fn deregister_answered(
    before: Map<Seq<char>, u16>,
    decoded: Result<DeregisterRequest, String>,
    response: Response,
    after: Map<Seq<char>, u16>,
) -> bool {
    match decoded {
        Err(e) => after == before && answers_json(
            response,
            400,
            "Bad Request"@,
            common::error_json(e@),
        ),
        Ok(p) => after == before.remove(registry::composite((p.user@, p.service@)))
            && answers_json(response, 200, "OK"@, "{}"@),
    }
}

/// The listener is told exactly when `told`, and once.
pub open spec fn notified<L: MutationListener>(
    told: bool,
    before: L,
    registry: Registry,
    after: L,
) -> bool {
    if told {
        L::heard(before, registry, after)
    } else {
        after == before
    }
}

/// One entry of a snapshot.
pub open spec fn entry_json(entry: ((Seq<char>, Seq<char>), u16)) -> Seq<char> {
    "{\"user\":"@ + common::json_text(entry.0.0) + ",\"service\":"@ + common::json_text(entry.0.1)
        + ",\"remote_port\":"@ + text::decimal(entry.1 as nat) + "}"@
}

/// A snapshot.
pub open spec fn snapshot_json(entries: Seq<((Seq<char>, Seq<char>), u16)>) -> Seq<char> {
    "["@ + text::joined(
        entries.map_values(|e: ((Seq<char>, Seq<char>), u16)| entry_json(e)),
        ","@,
    ) + "]"@
}

/// The response that lists the registry.
pub open spec fn snapshot_answered(ports: Map<Seq<char>, u16>, response: Response) -> bool {
    exists|list: Seq<(Seq<char>, u16)>|
        {
            &&& #[trigger] registry::listing(ports, list)
            &&& answers_json(response, 200, "OK"@, snapshot_json(registry::as_pairs(list)))
        }
}

/// The route of a request.
fn find_route(request: &Request) -> (r: Route)
    ensures
        r == route_of(request.method@, request.path@),
{
    let get = text::same(request.method.as_str(), "GET");
    let post = text::same(request.method.as_str(), "POST");
    let path = request.path.as_str();
    proof {
        reveal_strlit("GET");
        reveal_strlit("POST");
        assert("GET"@[0] != "POST"@[0]);
    }
    if get && text::same(path, "/healthz") {
        Route::Healthz
    } else if post && text::same(path, "/register") {
        Route::Register
    } else if post && text::same(path, "/deregister") {
        Route::Deregister
    } else if get && text::same(path, "/snapshot") {
        Route::Snapshot
    } else {
        Route::Unknown
    }
}

/// Answers a request and brings the registry up to date. The decoders turn the
/// body of a registration or a deregistration into its JSON value, or say why
/// they cannot.
pub fn route<L: MutationListener>(
    request: &Request,
    registry: &mut Registry,
    listener: &mut L,
    decode_register: impl Fn(&Vec<u8>) -> Result<RegisterRequest, String>,
    decode_deregister: impl Fn(&Vec<u8>) -> Result<DeregisterRequest, String>,
) -> (response: Response)
    requires
        decode_register.requires((&request.body,)),
        decode_deregister.requires((&request.body,)),
    ensures
        final(registry).ports() == old(registry).ports(),
        match route_of(request.method@, request.path@) {
            Route::Healthz => {
                &&& response.status == 200
                &&& response.reason@ == "OK"@
                &&& response.content_type@ == "text/plain"@
                &&& response.body@ == vstd::utf8::encode_utf8("ok"@)
                &&& *final(registry) == *old(registry)
                &&& *final(listener) == *old(listener)
            },
            Route::Register => exists|decoded: Result<RegisterRequest, String>|
                {
                    &&& #[trigger] decode_register.ensures((&request.body,), decoded)
                    &&& register_answered(
                        old(registry).ports(),
                        old(registry)@,
                        decoded,
                        response,
                        final(registry)@,
                    )
                    &&& notified(
                        response.status == 200,
                        *old(listener),
                        *final(registry),
                        *final(listener),
                    )
                },
            Route::Deregister => exists|decoded: Result<DeregisterRequest, String>|
                {
                    &&& #[trigger] decode_deregister.ensures((&request.body,), decoded)
                    &&& deregister_answered(old(registry)@, decoded, response, final(registry)@)
                    &&& notified(
                        final(registry)@ != old(registry)@,
                        *old(listener),
                        *final(registry),
                        *final(listener),
                    )
                },
            Route::Snapshot => {
                &&& snapshot_answered(old(registry)@, response)
                &&& *final(registry) == *old(registry)
                &&& *final(listener) == *old(listener)
            },
            Route::Unknown => {
                &&& answers_json(
                    response,
                    404,
                    "Not Found"@,
                    common::error_json("no such route"@),
                )
                &&& *final(registry) == *old(registry)
                &&& *final(listener) == *old(listener)
            },
        },
{
    match find_route(request) {
        Route::Healthz => Response::text(200, "OK", "ok".as_bytes()),
        Route::Register => handle_register(decode_register(&request.body), registry, listener),
        Route::Deregister => handle_deregister(
            decode_deregister(&request.body),
            registry,
            listener,
        ),
        Route::Snapshot => handle_snapshot(registry),
        Route::Unknown => json_error(404, "Not Found", "no such route"),
    }
}

/// Answers a registration whose body decoded to `decoded`.
pub fn handle_register<L: MutationListener>(
    decoded: Result<RegisterRequest, String>,
    registry: &mut Registry,
    listener: &mut L,
) -> (response: Response)
    ensures
        final(registry).ports() == old(registry).ports(),
        register_answered(
            old(registry).ports(),
            old(registry)@,
            decoded,
            response,
            final(registry)@,
        ),
        notified(response.status == 200, *old(listener), *final(registry), *final(listener)),
{
    let parsed = match decoded {
        Ok(v) => v,
        Err(e) => {
            return json_error(400, "Bad Request", e.as_str());
        },
    };
    if text::blank(parsed.user.as_str()) || text::blank(parsed.service.as_str()) {
        return json_error(400, "Bad Request", "user and service must be non-empty");
    }
    match registry.register(&Key::new(parsed.user.as_str(), parsed.service.as_str())) {
        Ok(remote_port) => {
            listener.on_change(registry);
            let body = (RegisterResponse { remote_port }).to_json();
            Response::json(200, "OK", body.as_str().as_bytes())
        },
        Err(e) => json_error(503, "Service Unavailable", e.message().as_str()),
    }
}

/// Answers a deregistration whose body decoded to `decoded`.
pub fn handle_deregister<L: MutationListener>(
    decoded: Result<DeregisterRequest, String>,
    registry: &mut Registry,
    listener: &mut L,
) -> (response: Response)
    ensures
        final(registry).ports() == old(registry).ports(),
        deregister_answered(old(registry)@, decoded, response, final(registry)@),
        notified(
            final(registry)@ != old(registry)@,
            *old(listener),
            *final(registry),
            *final(listener),
        ),
{
    let parsed = match decoded {
        Ok(v) => v,
        Err(e) => {
            return json_error(400, "Bad Request", e.as_str());
        },
    };
    let key = Key::new(parsed.user.as_str(), parsed.service.as_str());
    let removed = registry.deregister(&key);
    if removed.is_some() {
        assert(old(registry)@.dom().contains(registry::composite(key@)));
        assert(!registry@.dom().contains(registry::composite(key@)));
        listener.on_change(registry);
    } else {
        assert(registry@ =~= old(registry)@);
    }
    Response::json(200, "OK", "{}".as_bytes())
}

/// Answers with every pair and its port.
pub fn handle_snapshot(registry: &Registry) -> (response: Response)
    ensures
        snapshot_answered(registry@, response),
{
    let entries = registry.snapshot();
    let ghost pairs = registry::snapshot_view(entries@);
    let ghost texts = pairs.map_values(|e: ((Seq<char>, Seq<char>), u16)| entry_json(e));
    let mut parts: Vec<String> = Vec::new();
    let mut i: usize = 0;
    while i < entries.len()
        invariant
            i <= entries@.len(),
            pairs == registry::snapshot_view(entries@),
            texts == pairs.map_values(|e: ((Seq<char>, Seq<char>), u16)| entry_json(e)),
            text::texts(parts@) == texts.take(i as int),
        decreases entries@.len() - i,
    {
        let ghost before = parts@;
        let mut part = "{\"user\":".to_owned();
        part.append(common::json_string(entries[i].0.user.as_str()).as_str());
        part.append(",\"service\":");
        part.append(common::json_string(entries[i].0.service.as_str()).as_str());
        part.append(",\"remote_port\":");
        text::push_decimal(&mut part, entries[i].1 as u64);
        part.append("}");
        assert(part@ == texts[i as int]);
        parts.push(part);
        assert(text::texts(parts@) == text::texts(before).push(part@));
        assert(texts.take(i + 1) == texts.take(i as int).push(texts[i as int]));
        i = i + 1;
    }
    assert(texts.take(i as int) == texts);
    let mut body = "[".to_owned();
    body.append(text::join(&parts, ",").as_str());
    body.append("]");
    Response::json(200, "OK", body.as_str().as_bytes())
}

fn json_error(status: u16, reason: &str, message: &str) -> (response: Response)
    ensures
        answers_json(response, status, reason@, common::error_json(message@)),
{
    let body = (ErrorResponse { error: message.to_owned() }).to_json();
    Response::json(status, reason, body.as_str().as_bytes())
}

/// A registration that is refused leaves the registry as it was.
pub proof fn law_refused_registration_changes_nothing(
    range: PortRange,
    before: Map<Seq<char>, u16>,
    decoded: Result<RegisterRequest, String>,
    response: Response,
    after: Map<Seq<char>, u16>,
)
    requires
        register_answered(range, before, decoded, response, after),
        response.status != 200,
    ensures
        after == before,
        response.status == 400 || response.status == 503,
{
}

/// A pair that is registered twice gets the same response twice, and the second
/// registration changes nothing.
pub proof fn law_repeated_registration_answers_the_same(
    range: PortRange,
    before: Map<Seq<char>, u16>,
    request: RegisterRequest,
    first: Response,
    between: Map<Seq<char>, u16>,
    second: Response,
    after: Map<Seq<char>, u16>,
)
    requires
        register_answered(range, before, Ok(request), first, between),
        register_answered(range, between, Ok(request), second, after),
        first.status == 200,
    ensures
        after == between,
        second.status == 200,
        second.body@ == first.body@,
{
}

/// Deregistering a pair that was not there before its registration gives back
/// the registry as it was.
pub proof fn law_deregistration_undoes_registration(
    range: PortRange,
    before: Map<Seq<char>, u16>,
    request: RegisterRequest,
    first: Response,
    between: Map<Seq<char>, u16>,
    reversal: DeregisterRequest,
    second: Response,
    after: Map<Seq<char>, u16>,
)
    requires
        !before.dom().contains(registry::composite((request.user@, request.service@))),
        register_answered(range, before, Ok(request), first, between),
        first.status == 200,
        reversal.user@ == request.user@,
        reversal.service@ == request.service@,
        deregister_answered(between, Ok(reversal), second, after),
    ensures
        after == before,
        second.status == 200,
{
    assert(after =~= before);
}

/// Deregistering a pair again changes nothing and is answered the same.
pub proof fn law_deregistration_is_idempotent(
    before: Map<Seq<char>, u16>,
    request: DeregisterRequest,
    first: Response,
    between: Map<Seq<char>, u16>,
    second: Response,
    after: Map<Seq<char>, u16>,
)
    requires
        deregister_answered(before, Ok(request), first, between),
        deregister_answered(between, Ok(request), second, after),
    ensures
        after == between,
        second.status == first.status,
        second.body@ == first.body@,
{
    assert(after =~= between);
}

/// The listener is told of every registration that succeeds, of every pair that is taken
/// out, and of nothing else; it is told once, and of the registry as it then is.
pub proof fn law_listener_is_told_of_changes<L: MutationListener>(
    registering: Result<RegisterRequest, String>,
    registry: &mut Registry,
    listener: &mut L,
    registered: Response,
    leaving: Result<DeregisterRequest, String>,
    other_registry: &mut Registry,
    other_listener: &mut L,
    left: Response,
)
    requires
        call_ensures(handle_register::<L>, (registering, registry, listener), registered),
        call_ensures(handle_deregister::<L>, (leaving, other_registry, other_listener), left),
    ensures
        registered.status == 200 ==> L::heard(
            *old(listener),
            *final(registry),
            *final(listener),
        ),
        registered.status != 200 ==> *final(listener) == *old(listener) && final(registry)@ == old(registry)@,
        leaving matches Ok(p) ==> if old(other_registry)@.dom().contains(
            registry::composite((p.user@, p.service@)),
        ) {
            L::heard(*old(other_listener), *final(other_registry), *final(other_listener))
        } else {
            *final(other_listener) == *old(other_listener) && final(other_registry)@ == old(other_registry)@
        },
        leaving is Err ==> *final(other_listener) == *old(other_listener) && final(other_registry)@ == old(other_registry)@,
{
    if registered.status != 200 {
        law_refused_registration_changes_nothing(
            old(registry).ports(),
            old(registry)@,
            registering,
            registered,
            final(registry)@,
        );
    }
    if let Ok(p) = leaving {
        let name = registry::composite((p.user@, p.service@));
        if old(other_registry)@.dom().contains(name) {
            assert(!final(other_registry)@.dom().contains(name));
        } else {
            assert(final(other_registry)@ =~= old(other_registry)@);
        }
    }
}

/// A look at the health is answered with `ok`, a look at the registry with its listing,
/// and anything that is no route with 404; none of them changes anything. No request
/// changes the range of the ports.
pub proof fn law_looking_changes_nothing<
    L: MutationListener,
    D: Fn(&Vec<u8>) -> Result<RegisterRequest, String>,
    E: Fn(&Vec<u8>) -> Result<DeregisterRequest, String>,
>(
    request: Request,
    registry: &mut Registry,
    listener: &mut L,
    decode_register: D,
    decode_deregister: E,
    response: Response,
)
    requires
        call_ensures(
            route::<L>,
            (&request, registry, listener, decode_register, decode_deregister),
            response,
        ),
    ensures
        final(registry).ports() == old(registry).ports(),
        request.method@ != "POST"@ ==> *final(registry) == *old(registry) && *final(listener)
            == *old(listener),
        request.method@ == "GET"@ && request.path@ == "/healthz"@ ==> response.status == 200
            && response.content_type@ == "text/plain"@ && response.body@
            == vstd::utf8::encode_utf8(seq!['o', 'k']),
        request.method@ == "GET"@ && request.path@ == "/snapshot"@ ==> response.status == 200
            && response.content_type@ == "application/json"@,
        !(request.method@ == "GET"@ && (request.path@ == "/healthz"@ || request.path@
            == "/snapshot"@)) && !(request.method@ == "POST"@ && (request.path@ == "/register"@
            || request.path@ == "/deregister"@)) ==> response.status == 404 && *final(registry)
            == *old(registry) && *final(listener) == *old(listener),
{
    reveal_strlit("GET");
    reveal_strlit("POST");
    reveal_strlit("ok");
    reveal_strlit("/healthz");
    reveal_strlit("/snapshot");
    assert("GET"@.len() != "POST"@.len());
    assert("/healthz"@.len() != "/snapshot"@.len());
    assert("ok"@ =~= seq!['o', 'k']);
}

} // verus!
