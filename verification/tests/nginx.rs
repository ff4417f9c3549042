use ephemwork::bastion_client::parse_response;
use ephemwork::bastion_protocol::{DeregisterRequest, RegisterRequest};
use ephemwork::files::FileRead;
use ephemwork::handlers::{route, NoopListener};
use ephemwork::http::read_request;
use ephemwork::nginx::{render_config, CONFIG_HEAD, CONFIG_TAIL};
use ephemwork::registry::{Key, PortRange, Registry};

fn decode_register(body: &Vec<u8>) -> Result<RegisterRequest, String> {
    let v: serde_json::Value = serde_json::from_slice(body).map_err(|e| e.to_string())?;
    Ok(RegisterRequest {
        user: v["user"].as_str().ok_or("user")?.to_string(),
        service: v["service"].as_str().ok_or("service")?.to_string(),
    })
}

fn decode_deregister(_: &Vec<u8>) -> Result<DeregisterRequest, String> {
    Err("not asked for".into())
}

#[test]
fn end_to_end_register_then_persist_and_render_nginx() {
    let mut registry = Registry::with_range(PortRange {
        start: 10_000,
        end: 10_010,
    });
    let body = RegisterRequest {
        user: "matheus".into(),
        service: "api".into(),
    }
    .to_json();
    let wire = format!(
        "POST /register HTTP/1.0\r\nHost: x\r\nContent-Type: application/json\r\nContent-Length: {}\r\nConnection: close\r\n\r\n{body}",
        body.len()
    );
    let request = read_request(vec![Ok(wire.into_bytes())]).unwrap();
    let response = route(
        &request,
        &mut registry,
        &mut NoopListener,
        decode_register,
        decode_deregister,
    );
    let got = parse_response(&response.to_wire()).unwrap();
    assert_eq!(got.status, 200);
    let v: serde_json::Value = serde_json::from_slice(&got.body).unwrap();
    assert_eq!(v["remote_port"], 10_000);

    let saved = FileRead::Contents(registry.to_json());
    let reloaded = Registry::load("registry.json", saved, |s: &String| {
        let v: serde_json::Value = serde_json::from_str(s).map_err(|e| e.to_string())?;
        let number = |v: &serde_json::Value| v.as_u64().unwrap() as u16;
        let entries = v["entries"].as_object().ok_or("no entries")?;
        Ok(Registry::restore(
            PortRange {
                start: number(&v["range"]["start"]),
                end: number(&v["range"]["end"]),
            },
            entries.iter().map(|(name, port)| (name.clone(), number(port))).collect(),
        ))
    })
    .unwrap();
    assert_eq!(reloaded.len(), 1);

    let rendered = render_config(&reloaded.snapshot());
    assert!(rendered.contains("matheus:api"), "rendered config should map the registered key, got:\n{rendered}");
    assert!(rendered.contains("127.0.0.1:10000"), "rendered config should target the allocated port:\n{rendered}");
}

#[test]
fn the_configuration_is_head_entries_tail() {
    assert_eq!(
        render_config(&vec![]),
        format!("{CONFIG_HEAD}{CONFIG_TAIL}")
    );
    let entries = vec![
        (Key::new(" Ann", "Api "), 1),
        (Key::new("b\"c", "d\\e"), 65535),
    ];
    assert_eq!(
        render_config(&entries),
        format!(
            "{CONFIG_HEAD}    \"ann:Api\" 127.0.0.1:1;\n    \"b\\\"c:d\\\\e\" 127.0.0.1:65535;\n{CONFIG_TAIL}"
        )
    );
}
