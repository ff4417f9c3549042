use ephemwork::config::{
    email_from_git, find_config_in, resolve_user, user_of_email, Config, ConfigError,
    ServiceConfig, ServiceFault, TunnelConfig, UserError, CONFIG_FILE,
};

fn text(t: &toml::Value, name: &str) -> Result<String, String> {
    optional(t, name)?.ok_or(format!("missing field `{name}`"))
}

fn optional(t: &toml::Value, name: &str) -> Result<Option<String>, String> {
    match t.get(name) {
        None => Ok(None),
        Some(v) => match v.as_str() {
            Some(s) => Ok(Some(s.to_string())),
            None => Err(format!("`{name}` is no string")),
        },
    }
}

fn service_of(t: &toml::Value) -> Result<ServiceConfig, String> {
    let mut forward_ports = Vec::new();
    if let Some(list) = t.get("forward_ports").and_then(|l| l.as_array()) {
        for entry in list {
            forward_ports.push(entry.as_str().ok_or("no string")?.to_string());
        }
    }
    Ok(ServiceConfig {
        port: t.get("port").and_then(|p| p.as_integer()).map(|p| p as u16),
        build_command: optional(t, "build_command")?,
        run_command: text(t, "run_command")?,
        health_check_path: optional(t, "health_check_path")?,
        forward_ports,
        bootstrap_command: optional(t, "bootstrap_command")?,
    })
}

fn from_toml_str(s: &str) -> Result<Config, String> {
    let doc: toml::Value = toml::from_str(s).map_err(|e| e.to_string())?;
    let tunnel = doc.get("tunnel").ok_or("missing field `tunnel`")?;
    let mut service = Vec::new();
    if let Some(table) = doc.get("service").and_then(|t| t.as_table()) {
        for (name, value) in table {
            service.push((name.clone(), service_of(value)?));
        }
    }
    Ok(Config {
        tunnel: TunnelConfig {
            kind: text(tunnel, "type")?,
            region: text(tunnel, "region")?,
            instance_type: text(tunnel, "instance_type")?,
            project_name: text(tunnel, "project_name")?,
            expected_vpc_id: optional(tunnel, "expected_vpc_id")?,
        },
        service,
    })
}

fn service<'a>(cfg: &'a Config, name: &str) -> &'a ServiceConfig {
    &cfg.service.iter().find(|(n, _)| n == name).unwrap().1
}

fn valid_toml() -> &'static str {
    r#"
[tunnel]
type = "ec2"
region = "us-east-1"
instance_type = "t4g.nano"
project_name = "demo"

[service.api]
port = 8000
run_command = "uvicorn app.main:app"
health_check_path = "/health"

[service.front-end]
port = 5173
build_command = "npm install"
run_command = "npm run dev"
"#
}

#[test]
fn parses_and_validates_minimal_config() {
    let cfg = from_toml_str(valid_toml()).unwrap();
    assert_eq!(cfg.tunnel.region, "us-east-1");
    assert_eq!(cfg.tunnel.kind, "ec2");
    assert_eq!(service(&cfg, "api").port, Some(8000));
    assert_eq!(service(&cfg, "api").health_check_path.as_deref(), Some("/health"));
    assert_eq!(service(&cfg, "front-end").build_command.as_deref(), Some("npm install"));
    assert!(service(&cfg, "front-end").health_check_path.is_none());
    // expected_vpc_id is optional; the minimal config doesn't set it.
    assert!(cfg.tunnel.expected_vpc_id.is_none());
    cfg.validate().unwrap();
}

#[test]
fn parses_optional_expected_vpc_id() {
    let toml = r#"
[tunnel]
type = "ec2"
region = "us-east-1"
instance_type = "t4g.nano"
project_name = "demo"
expected_vpc_id = "vpc-0123abc"

[service.api]
port = 8000
run_command = "x"
"#;
    let cfg = from_toml_str(toml).unwrap();
    assert_eq!(cfg.tunnel.expected_vpc_id.as_deref(), Some("vpc-0123abc"));
    cfg.validate().unwrap();
}

#[test]
fn validate_rejects_empty_services() {
    let toml = r#"
[tunnel]
type = "ec2"
region = "us-east-1"
instance_type = "t4g.nano"
project_name = "demo"
"#;
    let cfg = from_toml_str(toml).unwrap();
    let err = cfg.validate().unwrap_err().message();
    assert!(err.contains("at least one"), "got: {err}");
}

#[test]
fn config_validate_rejects_zero_port() {
    // 0 is reserved as a "wrong way to opt into worker mode" — the
    // intended way is to omit the port field entirely.
    let toml = r#"
[tunnel]
type = "ec2"
region = "us-east-1"
instance_type = "t4g.nano"
project_name = "demo"

[service.api]
port = 0
run_command = "x"
"#;
    let cfg = from_toml_str(toml).unwrap();
    let err = cfg.validate().unwrap_err().message();
    assert!(err.contains("omit `port`"), "got: {err}");
}

#[test]
fn parses_worker_service_with_no_port() {
    let toml = r#"
[tunnel]
type = "ec2"
region = "us-east-1"
instance_type = "t4g.nano"
project_name = "demo"

[service.engine-worker]
run_command = "uv run python -m app.lambdas.run_local engine_worker"
"#;
    let cfg = from_toml_str(toml).unwrap();
    assert_eq!(service(&cfg, "engine-worker").port, None);
    cfg.validate().unwrap();
}

#[test]
fn validate_rejects_worker_with_forward_ports() {
    let toml = r#"
[tunnel]
type = "ec2"
region = "us-east-1"
instance_type = "t4g.nano"
project_name = "demo"

[service.engine-worker]
run_command = "x"
forward_ports = ["5432:db.example.com:5432"]
"#;
    let cfg = from_toml_str(toml).unwrap();
    let err = cfg.validate().unwrap_err().message();
    assert!(err.contains("forward_ports requires `port`"), "got: {err}");
}

#[test]
fn validate_rejects_empty_run_command() {
    let toml = r#"
[tunnel]
type = "ec2"
region = "us-east-1"
instance_type = "t4g.nano"
project_name = "demo"

[service.api]
port = 8000
run_command = "   "
"#;
    let cfg = from_toml_str(toml).unwrap();
    let err = cfg.validate().unwrap_err().message();
    assert!(err.contains("run_command"), "got: {err}");
}

#[test]
fn validate_rejects_empty_tunnel_field() {
    let toml = r#"
[tunnel]
type = ""
region = "us-east-1"
instance_type = "t4g.nano"
project_name = "demo"

[service.api]
port = 8000
run_command = "x"
"#;
    let cfg = from_toml_str(toml).unwrap();
    let err = cfg.validate().unwrap_err().message();
    assert!(err.contains("tunnel.type"), "got: {err}");
}

#[test]
fn validate_rejects_missing_project_name() {
    // project_name is required by the schema; absence fails parsing.
    let toml = r#"
[tunnel]
type = "ec2"
region = "us-east-1"
instance_type = "t4g.nano"

[service.api]
port = 8000
run_command = "x"
"#;
    assert!(from_toml_str(toml).is_err());
}

#[test]
fn validate_rejects_unsafe_project_name() {
    let toml = r#"
[tunnel]
type = "ec2"
region = "us-east-1"
instance_type = "t4g.nano"
project_name = "moto cred"

[service.api]
port = 8000
run_command = "x"
"#;
    let cfg = from_toml_str(toml).unwrap();
    let err = cfg.validate().unwrap_err().message();
    assert!(err.contains("project_name"), "got: {err}");
}

#[test]
fn parse_fails_on_missing_required_field() {
    let toml = r#"
[tunnel]
type = "ec2"

[service.api]
port = 8000
run_command = "x"
"#;
    assert!(from_toml_str(toml).is_err());
}

#[test]
fn resolve_user_prefers_env_override() {
    let user = resolve_user(Some("matheus".into()), || {
        panic!("git should not be invoked when env override is set")
    })
    .unwrap();
    assert_eq!(user, "matheus");
}

#[test]
fn resolve_user_trims_env_override() {
    let user = resolve_user(Some("  alice  ".into()), || unreachable!()).unwrap();
    assert_eq!(user, "alice");
}

#[test]
fn resolve_user_falls_through_blank_env_override() {
    let user = resolve_user(Some("   ".into()), || Ok("bob@example.com".into())).unwrap();
    assert_eq!(user, "bob");
}

#[test]
fn resolve_user_uses_email_local_part() {
    let user = resolve_user(None, || Ok("Matheus.Silva@example.com".into())).unwrap();
    assert_eq!(user, "Matheus.Silva");
}

#[test]
fn resolve_user_handles_email_without_at() {
    // git config can return values without an @ sign; treat the whole string as the local part.
    let user = resolve_user(None, || Ok("plainuser".into())).unwrap();
    assert_eq!(user, "plainuser");
}

#[test]
fn resolve_user_errors_on_blank_email() {
    let err = resolve_user(None, || Ok("".into())).unwrap_err().message();
    assert!(err.contains("user identity"), "got: {err}");
}

#[test]
fn resolve_user_propagates_git_failure() {
    let err = resolve_user(None, || Err(UserError::Git("git not installed".into())))
        .unwrap_err()
        .message();
    assert!(err.contains("git not installed"), "got: {err}");
}

#[test]
fn find_config_errors_when_missing() {
    let err = find_config_in("/tmp/empty", |_: &String| false)
        .unwrap_err()
        .message();
    assert!(err.contains("no ephemwork.toml"), "got: {err}");
}

#[test]
fn find_config_returns_path_when_present() {
    let path = find_config_in("/tmp/project", |p: &String| {
        p == "/tmp/project/ephemwork.toml"
    })
    .unwrap();
    assert_eq!(path, format!("/tmp/project/{CONFIG_FILE}"));
}

#[test]
fn loading_stops_at_the_first_failure() {
    let load = |present: bool, read: Result<String, String>| {
        Config::load(
            |_: &String| present,
            |_: &String| read.clone(),
            |s: &String| from_toml_str(s),
        )
    };
    assert!(matches!(
        load(false, Ok(valid_toml().into())),
        Err(ConfigError::Missing { .. })
    ));
    let err = load(true, Err("denied".into())).unwrap_err();
    assert!(matches!(err, ConfigError::Reading { .. }));
    assert!(err.message().starts_with("reading "), "got: {}", err.message());
    let err = load(true, Ok("not toml".into())).unwrap_err();
    assert!(matches!(err, ConfigError::Parsing { .. }));
    assert!(err.message().starts_with("parsing "), "got: {}", err.message());
    let cfg = load(true, Ok(valid_toml().into())).unwrap();
    assert_eq!(cfg, from_toml_str(valid_toml()).unwrap());
    // What is read is validated too.
    assert_eq!(
        load(true, Ok(valid_toml().replace("t4g.nano", " "))).unwrap_err(),
        ConfigError::EmptyInstanceType
    );
}

fn changed(change: impl FnOnce(&mut Config)) -> ConfigError {
    let mut cfg = from_toml_str(valid_toml()).unwrap();
    change(&mut cfg);
    cfg.validate().unwrap_err()
}

#[test]
fn every_fault_has_its_error() {
    assert_eq!(changed(|c| c.tunnel.kind = "\t".into()), ConfigError::EmptyType);
    assert_eq!(changed(|c| c.tunnel.region = "".into()), ConfigError::EmptyRegion);
    assert_eq!(
        changed(|c| c.tunnel.instance_type = " ".into()),
        ConfigError::EmptyInstanceType
    );
    assert_eq!(
        changed(|c| c.tunnel.project_name = " ".into()),
        ConfigError::EmptyProjectName
    );
    assert_eq!(
        changed(|c| c.tunnel.project_name = "démo".into()),
        ConfigError::UnsafeProjectName {
            name: "démo".into()
        }
    );
    assert_eq!(changed(|c| c.service.clear()), ConfigError::NoServices);
    let service = |fault| ConfigError::Service {
        name: "api".into(),
        fault,
    };
    assert_eq!(
        changed(|c| c.service[0].1.port = Some(0)),
        service(ServiceFault::ZeroPort)
    );
    assert_eq!(
        changed(|c| c.service[0].1.run_command = "\n".into()),
        service(ServiceFault::EmptyRunCommand)
    );
    assert_eq!(
        changed(|c| {
            c.service[0].1.port = None;
            c.service[0].1.forward_ports = vec!["1:a:2".into()];
        }),
        service(ServiceFault::ForwardsWithoutPort)
    );
    assert!(service(ServiceFault::EmptyRunCommand).message().contains("api"));
}

#[test]
fn project_names_may_hold_letters_digits_dash_and_underscore() {
    let mut cfg = from_toml_str(valid_toml()).unwrap();
    cfg.tunnel.project_name = "aZ09-_".into();
    cfg.validate().unwrap();
}

#[test]
fn users_come_from_before_the_at_sign() {
    assert_eq!(user_of_email("a@b@c"), Ok("a".to_string()));
    assert_eq!(user_of_email("@b"), Err(UserError::NoIdentity));
    assert_eq!(user_of_email("  @b"), Err(UserError::NoIdentity));
    assert_eq!(email_from_git(true, b" a@b.c\n"), Ok("a@b.c".to_string()));
    assert_eq!(email_from_git(true, b"\n"), Ok(String::new()));
    assert_eq!(email_from_git(false, b"a@b.c"), Err(UserError::EmailNotSet));
    assert_eq!(
        email_from_git(true, b"\xffa@b"),
        Ok("\u{fffd}a@b".to_string())
    );
    assert!(UserError::EmailNotSet.message().contains("user.email"));
}
