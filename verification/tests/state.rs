use ephemwork::files::{FileRead, LoadError};
use ephemwork::state::{
    default_state_path, Session, State, Timestamp, FIRST_SECOND, LAST_SECOND,
};

fn fixed_time() -> Timestamp {
    // 2026-05-08 12:00:00 UTC
    Timestamp::new(1_778_241_600, 0).unwrap()
}

fn sample(user: &str, service: &str, port: u16) -> Session {
    Session {
        user: user.into(),
        service: service.into(),
        started_at: fixed_time(),
        local_port: port,
        remote_port: 9000 + port,
        pid: Some(1234),
        forward_local_ports: Vec::new(),
    }
}

#[test]
fn upsert_replaces_existing_session() {
    let mut state = State::default();
    state.upsert(sample("alice", "api", 8000));
    let mut updated = sample("alice", "api", 9999);
    updated.remote_port = 22222;
    state.upsert(updated.clone());
    assert_eq!(state.sessions.len(), 1);
    assert_eq!(state.sessions[0], updated);
}

#[test]
fn upsert_keeps_distinct_services() {
    let mut state = State::default();
    state.upsert(sample("alice", "api", 8000));
    state.upsert(sample("alice", "worker", 8001));
    assert_eq!(state.sessions.len(), 2);
}

#[test]
fn upsert_keeps_distinct_users() {
    let mut state = State::default();
    state.upsert(sample("alice", "api", 8000));
    state.upsert(sample("bob", "api", 8000));
    assert_eq!(state.sessions.len(), 2);
}

#[test]
fn remove_where_returns_removed() {
    let mut state = State::default();
    state.upsert(sample("alice", "api", 8000));
    state.upsert(sample("alice", "worker", 8001));
    let removed = state.remove_where(|s: &Session| s.service == "api");
    assert_eq!(removed.len(), 1);
    assert_eq!(removed[0].service, "api");
    assert_eq!(state.sessions.len(), 1);
    assert_eq!(state.sessions[0].service, "worker");
}

#[test]
fn for_user_filters() {
    let mut state = State::default();
    state.upsert(sample("alice", "api", 8000));
    state.upsert(sample("bob", "api", 8001));
    let alice = state.for_user("alice");
    assert_eq!(alice.len(), 1);
    assert_eq!(alice[0].user, "alice");
}

/// The state that stands in a text as JSON.
fn parse(text: &String) -> Result<State, String> {
    let v: serde_json::Value = serde_json::from_str(text).map_err(|e| e.to_string())?;
    let number = |v: &serde_json::Value| v.as_u64().map(|n| n as u16).ok_or("not a number");
    let word = |v: &serde_json::Value| v.as_str().map(|s| s.to_string()).ok_or("not a text");
    let mut sessions = Vec::new();
    for s in v["sessions"].as_array().unwrap_or(&Vec::new()) {
        let time: chrono::DateTime<chrono::Utc> =
            word(&s["started_at"])?.parse().map_err(|_| "not a time")?;
        let mut forwards = Vec::new();
        for port in s["forward_local_ports"].as_array().unwrap_or(&Vec::new()) {
            forwards.push(number(port)?);
        }
        sessions.push(Session {
            user: word(&s["user"])?,
            service: word(&s["service"])?,
            started_at: Timestamp::new(time.timestamp(), time.timestamp_subsec_nanos()).unwrap(),
            local_port: number(&s["local_port"])?,
            remote_port: number(&s["remote_port"])?,
            pid: s["pid"].as_u64().map(|n| n as u32),
            forward_local_ports: forwards,
        });
    }
    Ok(State { sessions })
}

#[test]
fn load_missing_returns_empty() {
    let state = State::load("nope.json", FileRead::NotFound, parse).unwrap();
    assert!(state.sessions.is_empty());
}

#[test]
fn load_empty_file_returns_empty() {
    let state = State::load("empty.json", FileRead::Contents("".into()), parse).unwrap();
    assert!(state.sessions.is_empty());
}

#[test]
fn state_load_malformed_file_errors() {
    let err = State::load("bad.json", FileRead::Contents("{not json".into()), parse).unwrap_err();
    assert!(matches!(err, LoadError::Parsing { .. }));
    assert_eq!(err.message(), "parsing state file bad.json");
}

/// Reads a state file that holds this text.
fn loaded(text: &str) -> Result<State, LoadError> {
    State::load("s.json", FileRead::Contents(text.into()), parse)
}

#[test]
fn loading_parses_what_is_there() {
    assert_eq!(loaded("{}"), Ok(State::default()));
    assert_eq!(loaded("{\"sessions\": [], \"more\": 1}"), Ok(State::default()));
    // A file of blanks holds nothing either.
    assert_eq!(loaded(" \n"), Ok(State::default()));
    let err = State::load("s.json", FileRead::Failed("denied".into()), parse).unwrap_err();
    assert_eq!(err.message(), "reading state file s.json");

    // A session written by an earlier version names neither process nor forwards.
    let text = "{\"sessions\": [{\"remote_port\": 17000, \"local_port\": 8000, \"started_at\": \"2026-05-08T14:00:00+02:00\", \"service\": \"api\", \"user\": \"alice\"}]}";
    let mut want = sample("alice", "api", 8000);
    want.pid = None;
    assert_eq!(loaded(text).unwrap().sessions, vec![want]);
}

#[test]
fn the_state_file_is_json_as_it_is_laid_out() {
    let mut state = State::default();
    assert_eq!(state.to_json(), "{\n  \"sessions\": []\n}");
    state.upsert(sample("alice", "api", 8000));
    let mut other = sample("b\"ob", "web", 8001);
    other.pid = None;
    other.started_at = Timestamp::new(1_778_241_600, 120_000_000).unwrap();
    other.forward_local_ports = vec![5432, 6379];
    state.upsert(other);
    let text = state.to_json();
    assert_eq!(
        text,
        "{\n  \"sessions\": [\n    {\n      \"user\": \"alice\",\n      \"service\": \"api\",\n      \"started_at\": \"2026-05-08T12:00:00Z\",\n      \"local_port\": 8000,\n      \"remote_port\": 17000,\n      \"pid\": 1234,\n      \"forward_local_ports\": []\n    },\n    {\n      \"user\": \"b\\\"ob\",\n      \"service\": \"web\",\n      \"started_at\": \"2026-05-08T12:00:00.120Z\",\n      \"local_port\": 8001,\n      \"remote_port\": 17001,\n      \"pid\": null,\n      \"forward_local_ports\": [\n        5432,\n        6379\n      ]\n    }\n  ]\n}"
    );
    let v: serde_json::Value = serde_json::from_str(&text).unwrap();
    assert_eq!(v["sessions"][1]["user"], "b\"ob");
    assert_eq!(v["sessions"][1]["forward_local_ports"][1], 6379);
}

#[test]
fn a_saved_state_is_reloaded_as_it_was() {
    let mut state = State::default();
    state.upsert(sample("alice", "api", 8000));
    let reloaded = loaded(&state.to_json()).unwrap();
    assert_eq!(reloaded, state);
}

#[test]
fn any_state_that_is_saved_loads_back() {
    let earliest = chrono::DateTime::<chrono::Utc>::MIN_UTC;
    let latest = chrono::DateTime::<chrono::Utc>::MAX_UTC;
    let times = [
        (0, 0),
        (-1, 999_999_999),
        (1_778_241_600, 1),
        (1_778_241_600, 120_000),
        (1_778_241_600, 999_999_000),
        // A leap second, and years of more or fewer than four digits.
        (1_483_228_799, 1_500_000_000),
        (253_402_300_800, 0),
        (-62_167_219_201, 5),
        (-99_999_999_999, 0),
        (earliest.timestamp(), earliest.timestamp_subsec_nanos()),
        (latest.timestamp(), latest.timestamp_subsec_nanos()),
    ];
    let mut state = State::default();
    for (i, (secs, nanos)) in times.into_iter().enumerate() {
        let mut s = sample("a/\u{1F600}\n\\", &i.to_string(), i as u16);
        s.started_at = Timestamp::new(secs, nanos).unwrap();
        s.pid = if i % 2 == 0 { None } else { Some(u32::MAX) };
        s.forward_local_ports = vec![65_535; i];
        let mut one = State::default();
        one.upsert(s.clone());
        assert_eq!(loaded(&one.to_json()).unwrap(), one);
        state.upsert(s);
    }
    assert_eq!(loaded(&state.to_json()).unwrap(), state);
}

#[test]
fn what_the_parser_says_of_a_state_is_kept() {
    let text = FileRead::Contents("{}".to_string());
    let err = State::load("p", text, |_: &String| Err("missing field".to_string()));
    assert_eq!(
        err.unwrap_err(),
        LoadError::Parsing {
            what: "state file",
            path: "p".into(),
            cause: "missing field".into()
        }
    );
}

#[test]
fn times_are_those_of_the_calendar() {
    let ends = [
        chrono::DateTime::<chrono::Utc>::MIN_UTC.timestamp(),
        chrono::DateTime::<chrono::Utc>::MAX_UTC.timestamp(),
    ];
    assert_eq!(ends, [FIRST_SECOND, LAST_SECOND]);
    let nanos = [0, 1, 999_999_999, 1_000_000_000, 1_999_999_999, 2_000_000_000, u32::MAX];
    let mut secs = vec![0, 58, 59, 60, -1, -2, -61, 119, i64::MIN, i64::MAX];
    for end in ends {
        secs.extend([end - 1, end, end + 1]);
    }
    for s in secs {
        for n in nanos {
            let known = chrono::DateTime::from_timestamp(s, n);
            let t = Timestamp::new(s, n);
            assert_eq!(t.is_some(), known.is_some(), "{s} {n}");
            if let (Some(t), Some(known)) = (t, known) {
                assert_eq!((t.secs(), t.nanos()), (s, n));
                assert_eq!(t.to_rfc3339(), known.to_rfc3339());
                assert_eq!(
                    serde_json::Value::from(t.to_text()),
                    serde_json::to_value(known).unwrap()
                );
            }
        }
    }
}

#[test]
fn default_state_path_respects_override() {
    let path = default_state_path(Some("/tmp/ephem-test".into()), Some("/home/me".into()));
    assert_eq!(path.as_deref(), Some("/tmp/ephem-test/state.json"));
}

#[test]
fn default_state_path_falls_back_to_home() {
    let path = default_state_path(None, Some("/home/me".into()));
    assert_eq!(path.as_deref(), Some("/home/me/.ephemwork/state.json"));
    assert_eq!(default_state_path(None, None), None);
}

#[test]
fn recording_keeps_one_session_of_a_pair() {
    let mut state = State::default();
    for port in [1, 2, 3] {
        state.upsert(sample("alice", "api", port));
        state.upsert(sample("bob", "api", port));
    }
    assert_eq!(
        state.sessions,
        vec![sample("alice", "api", 3), sample("bob", "api", 3)]
    );
}

#[test]
fn removal_loses_nothing() {
    let all: Vec<Session> = (0..6).map(|p| sample("u", &format!("s{p}"), p)).collect();
    let mut state = State {
        sessions: all.clone(),
    };
    let removed = state.remove_where(|s: &Session| s.local_port % 2 == 0);
    assert_eq!(removed, vec![all[0].clone(), all[2].clone(), all[4].clone()]);
    assert_eq!(
        state.sessions,
        vec![all[1].clone(), all[3].clone(), all[5].clone()]
    );
}

#[test]
fn a_forward_belongs_to_its_users_session() {
    let mut owner = sample("alice", "api", 1);
    owner.forward_local_ports = vec![5432, 6379];
    let state = State {
        sessions: vec![sample("alice", "web", 2), owner.clone()],
    };
    assert_eq!(state.forward_owner("alice", 6379), Some(&owner));
    assert_eq!(state.forward_owner("alice", 1), None);
    assert_eq!(state.forward_owner("bob", 6379), None);
}

#[test]
fn timestamps_print_as_chrono_prints_them() {
    for (secs, nanos) in [(0i64, 0u32), (1_778_241_600, 5), (-1, 500_000_000), (253_402_300_800, 0)] {
        let t = Timestamp::new(secs, nanos).unwrap();
        assert_eq!((t.secs(), t.nanos()), (secs, nanos));
        assert_eq!(
            t.to_rfc3339(),
            chrono::DateTime::from_timestamp(secs, nanos).unwrap().to_rfc3339()
        );
    }
    assert_eq!(fixed_time().to_rfc3339(), "2026-05-08T12:00:00+00:00");
}

#[test]
fn timestamps_are_moments_that_chrono_knows() {
    let known = |s: i64, n: u32| chrono::DateTime::from_timestamp(s, n).is_some();
    for secs in [
        i64::MIN,
        -8_334_601_228_801,
        -8_334_601_228_800,
        8_210_266_876_799,
        8_210_266_876_800,
        i64::MAX,
        59,
        58,
    ] {
        for nanos in [0, 999_999_999, 1_000_000_000, 1_999_999_999, 2_000_000_000, u32::MAX] {
            assert_eq!(
                Timestamp::new(secs, nanos).is_some(),
                known(secs, nanos),
                "{secs} {nanos}"
            );
        }
    }
}

#[test]
fn the_clock_gives_a_moment_of_this_age() {
    // After the start of the year 2020 and before that of 2200.
    let now = Timestamp::now();
    assert!(now.secs() > 1_577_836_800 && now.secs() < 7_258_118_400);
}
