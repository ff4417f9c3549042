use ephemwork::tunnel::{SshAuth, SshConfig, SshFault};

fn cfg() -> SshConfig {
    SshConfig {
        host: "127.0.0.1".into(),
        port: 22,
        username: "ec2-user".into(),
        auth: SshAuth::Agent,
        keepalive_secs: 30,
    }
}

#[test]
fn validate_accepts_minimal_agent_config() {
    cfg().validate().unwrap();
}

#[test]
fn validate_accepts_keyfile_config() {
    let mut c = cfg();
    c.auth = SshAuth::KeyFile {
        private_key: "/home/me/.ssh/id_rsa".into(),
        passphrase: None,
    };
    c.validate().unwrap();
}

#[test]
fn validate_rejects_empty_host() {
    let mut c = cfg();
    c.host = "".into();
    let err = c.validate().unwrap_err().message();
    assert!(err.contains("host"), "got: {err}");
}

#[test]
fn tunnel_validate_rejects_zero_port() {
    let mut c = cfg();
    c.port = 0;
    let err = c.validate().unwrap_err().message();
    assert!(err.contains("port"), "got: {err}");
}

#[test]
fn validate_rejects_empty_username() {
    let mut c = cfg();
    c.username = "".into();
    let err = c.validate().unwrap_err().message();
    assert!(err.contains("username"), "got: {err}");
}

#[test]
fn validate_rejects_empty_keyfile_path() {
    let mut c = cfg();
    c.auth = SshAuth::KeyFile {
        private_key: String::new(),
        passphrase: None,
    };
    let err = c.validate().unwrap_err().message();
    assert!(err.contains("key path"), "got: {err}");
}

#[test]
fn faults_are_found_in_order() {
    let mut c = SshConfig {
        host: "".into(),
        port: 0,
        username: "".into(),
        auth: SshAuth::KeyFile {
            private_key: "".into(),
            passphrase: Some("x".into()),
        },
        keepalive_secs: 0,
    };
    assert_eq!(c.validate(), Err(SshFault::EmptyHost));
    c.host = " ".into();
    assert_eq!(c.validate(), Err(SshFault::EmptyHost));
    c.host = "h".into();
    assert_eq!(c.validate(), Err(SshFault::ZeroPort));
    c.port = 1;
    assert_eq!(c.validate(), Err(SshFault::EmptyUsername));
    c.username = "u".into();
    assert_eq!(c.validate(), Err(SshFault::EmptyKeyPath));
    c.auth = SshAuth::Agent;
    assert_eq!(c.validate(), Ok(()));
}
