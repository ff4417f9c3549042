use ephemwork::bastion_client::{register, BastionEndpoint, ClientError};
use ephemwork::bastion_protocol;
use ephemwork::common::{
    routing_header_value, DeregisterRequest, ErrorResponse, RegisterRequest, RegisterResponse,
    ROUTING_HEADER,
};

fn text(v: &serde_json::Value, name: &str) -> Result<String, String> {
    v.get(name)
        .and_then(|f| f.as_str())
        .map(|s| s.to_string())
        .ok_or(format!("missing field `{name}`"))
}

fn pair(json: &str) -> Result<(String, String), String> {
    let v: serde_json::Value = serde_json::from_str(json).map_err(|e| e.to_string())?;
    Ok((text(&v, "user")?, text(&v, "service")?))
}

fn response(json: &str) -> Result<RegisterResponse, String> {
    let v: serde_json::Value = serde_json::from_str(json).map_err(|e| e.to_string())?;
    match v.get("remote_port").and_then(|p| p.as_u64()) {
        Some(p) => Ok(RegisterResponse {
            remote_port: p as u16,
        }),
        None => Err("missing field `remote_port`".to_string()),
    }
}

#[test]
fn lib_register_request_round_trips() {
    let r = RegisterRequest {
        user: "matheus".into(),
        service: "api".into(),
    };
    let json = r.to_json();
    let (user, service) = pair(&json).unwrap();
    let back = RegisterRequest { user, service };
    assert_eq!(r, back);
}

#[test]
fn lib_register_response_round_trips() {
    let r = RegisterResponse { remote_port: 9001 };
    let json = r.to_json();
    let back = response(&json).unwrap();
    assert_eq!(r, back);
}

#[test]
fn lib_deregister_request_round_trips() {
    let r = DeregisterRequest {
        user: "matheus".into(),
        service: "api".into(),
    };
    let json = r.to_json();
    let (user, service) = pair(&json).unwrap();
    let back = DeregisterRequest { user, service };
    assert_eq!(r, back);
}

#[test]
fn bastion_protocol_register_request_round_trips() {
    let r = bastion_protocol::RegisterRequest {
        user: "matheus".into(),
        service: "api".into(),
    };
    let (user, service) = pair(&r.to_json()).unwrap();
    assert_eq!(r, bastion_protocol::RegisterRequest { user, service });
}

#[test]
fn bastion_protocol_register_response_round_trips() {
    let r = bastion_protocol::RegisterResponse { remote_port: 9001 };
    assert_eq!(r, response(&r.to_json()).unwrap());
}

#[test]
fn bastion_protocol_deregister_request_round_trips() {
    let r = bastion_protocol::DeregisterRequest {
        user: "matheus".into(),
        service: "api".into(),
    };
    let (user, service) = pair(&r.to_json()).unwrap();
    assert_eq!(r, bastion_protocol::DeregisterRequest { user, service });
}

#[test]
fn header_value_lowercases_user_only() {
    assert_eq!(routing_header_value("Matheus", "API-v2"), "matheus:API-v2");
}

#[test]
fn lib_header_value_trims_whitespace() {
    assert_eq!(routing_header_value("  alice ", "  api "), "alice:api");
}

#[test]
fn header_value_knows_letters_beyond_ascii() {
    assert_eq!(routing_header_value("ÄRGER\u{2003}", "\u{a0}Öl"), "ärger:Öl");
    assert_eq!(ROUTING_HEADER, "X-Ephemwork");
}

#[test]
fn json_texts_are_exact() {
    let r = RegisterRequest {
        user: "a\"b\\c".into(),
        service: "x\ny\u{1}\u{7f}é".into(),
    };
    assert_eq!(
        r.to_json(),
        "{\"user\":\"a\\\"b\\\\c\",\"service\":\"x\\ny\\u0001\u{7f}é\"}"
    );
    assert_eq!(
        RegisterResponse { remote_port: 0 }.to_json(),
        "{\"remote_port\":0}"
    );
    assert_eq!(
        ErrorResponse {
            error: "no".into()
        }
        .to_json(),
        "{\"error\":\"no\"}"
    );
}

#[test]
fn every_control_character_survives_json() {
    let all: String = (0u32..0x80).filter_map(char::from_u32).collect();
    let r = DeregisterRequest {
        user: all.clone(),
        service: "\u{8}\u{c}\t\r".into(),
    };
    assert_eq!(pair(&r.to_json()), Ok((all, "\u{8}\u{c}\t\r".to_string())));
}

#[test]
fn margins_make_no_difference_to_the_header() {
    for (user, service) in [(" Ann\t", "api "), ("\u{2003}Bob", "\nWeb")] {
        assert_eq!(
            routing_header_value(user, service),
            routing_header_value(user.trim(), service.trim())
        );
    }
}

/// What registering comes to when the bastion answers with this JSON.
fn registered(json: &str) -> Result<RegisterResponse, ClientError> {
    let reply = format!("HTTP/1.0 200 OK\r\n\r\n{json}").into_bytes();
    register(
        &BastionEndpoint::new("127.0.0.1", 1),
        &RegisterRequest {
            user: "matheus".into(),
            service: "api".into(),
        },
        |_: &BastionEndpoint, _: &Vec<u8>| Ok(reply.clone()),
        |body: &Vec<u8>| response(std::str::from_utf8(body).unwrap()),
    )
}

#[test]
fn lib_register_response_rejects_missing_field() {
    assert!(response("{}").is_err());
    assert!(matches!(registered("{}"), Err(ClientError::Decoding(_))));
}

#[test]
fn bastion_protocol_register_response_rejects_missing_field() {
    let result: Result<bastion_protocol::RegisterResponse, ClientError> = registered("{}");
    assert!(result.is_err());
    assert_eq!(
        registered("{\"remote_port\":9001}"),
        Ok(bastion_protocol::RegisterResponse { remote_port: 9001 })
    );
}
