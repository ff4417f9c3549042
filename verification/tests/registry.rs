use ephemwork::files::{FileRead, LoadError};
use ephemwork::registry::{default_port_range, Key, PortRange, Registry};

fn small_range() -> PortRange {
    PortRange {
        start: 10_000,
        end: 10_002,
    }
}

/// The registry that stands in a text as JSON.
fn parse(s: &String) -> Result<Registry, String> {
    let v: serde_json::Value = serde_json::from_str(s).map_err(|e| e.to_string())?;
    let number = |v: &serde_json::Value| v.as_u64().map(|n| n as u16).ok_or("not a number");
    let range = PortRange {
        start: number(&v["range"]["start"])?,
        end: number(&v["range"]["end"])?,
    };
    let mut entries = Vec::new();
    for (name, port) in v["entries"].as_object().ok_or("no entries")? {
        entries.push((name.clone(), number(port)?));
    }
    Ok(Registry::restore(range, entries))
}

#[test]
fn register_allocates_lowest_free_port() {
    let mut r = Registry::with_range(small_range());
    assert_eq!(r.register(&Key::new("alice", "api")).unwrap(), 10_000);
    assert_eq!(r.register(&Key::new("bob", "api")).unwrap(), 10_001);
    assert_eq!(r.register(&Key::new("alice", "worker")).unwrap(), 10_002);
}

#[test]
fn register_is_idempotent_per_key() {
    let mut r = Registry::with_range(small_range());
    let p1 = r.register(&Key::new("alice", "api")).unwrap();
    let p2 = r.register(&Key::new("alice", "api")).unwrap();
    assert_eq!(p1, p2);
    assert_eq!(r.len(), 1);
}

#[test]
fn deregister_frees_the_port_for_reuse() {
    let mut r = Registry::with_range(small_range());
    let p1 = r.register(&Key::new("alice", "api")).unwrap();
    assert_eq!(r.deregister(&Key::new("alice", "api")), Some(p1));
    let p2 = r.register(&Key::new("bob", "api")).unwrap();
    assert_eq!(p1, p2, "freed port should be reused");
}

#[test]
fn deregister_returns_none_when_absent() {
    let mut r = Registry::with_range(small_range());
    assert_eq!(r.deregister(&Key::new("ghost", "api")), None);
}

#[test]
fn register_errors_when_range_exhausted() {
    let mut r = Registry::with_range(small_range());
    r.register(&Key::new("a", "x")).unwrap();
    r.register(&Key::new("b", "x")).unwrap();
    r.register(&Key::new("c", "x")).unwrap();
    let err = r.register(&Key::new("d", "x")).unwrap_err().message();
    assert!(err.contains("exhausted"), "got: {err}");
    assert_eq!(err, "port range 10000..=10002 exhausted (3 active sessions)");
}

#[test]
fn lookup_returns_assigned_port() {
    let mut r = Registry::with_range(small_range());
    let p = r.register(&Key::new("alice", "api")).unwrap();
    assert_eq!(r.lookup(&Key::new("alice", "api")), Some(p));
    assert_eq!(r.lookup(&Key::new("alice", "worker")), None);
}

#[test]
fn snapshot_is_stable_and_complete() {
    let mut r = Registry::with_range(small_range());
    r.register(&Key::new("alice", "api")).unwrap();
    r.register(&Key::new("bob", "api")).unwrap();
    let snap = r.snapshot();
    assert_eq!(snap.len(), 2);
    // The entries are sorted by composite key.
    assert_eq!(snap[0].0, Key::new("alice", "api"));
    assert_eq!(snap[1].0, Key::new("bob", "api"));
}

#[test]
fn save_and_load_round_trip() {
    let mut r = Registry::with_range(small_range());
    r.register(&Key::new("alice", "api")).unwrap();
    r.register(&Key::new("bob", "worker")).unwrap();
    let saved = r.to_json();

    let loaded = Registry::load("nested/registry.json", FileRead::Contents(saved), parse).unwrap();
    assert_eq!(loaded.len(), 2);
    assert_eq!(loaded.lookup(&Key::new("alice", "api")), Some(10_000));
    assert_eq!(loaded.lookup(&Key::new("bob", "worker")), Some(10_001));
    assert_eq!(loaded.range(), small_range());
    assert_eq!(loaded, r);
}

#[test]
fn load_missing_file_returns_default() {
    let r = Registry::load("nope.json", FileRead::NotFound, parse).unwrap();
    assert!(r.is_empty());
    assert_eq!(r.range(), default_port_range());
    assert_eq!(
        default_port_range(),
        PortRange {
            start: 10_000,
            end: 19_999
        }
    );
}

#[test]
fn registry_load_malformed_file_errors() {
    let bad = FileRead::Contents("{not json".to_string());
    let err = Registry::load("bad.json", bad, parse).unwrap_err();
    assert!(matches!(err, LoadError::Parsing { .. }));
    assert_eq!(err.message(), "parsing registry bad.json");
}

#[test]
fn registry_load_reports_what_cannot_be_read() {
    let gone = FileRead::Failed("permission denied".to_string());
    let err = Registry::load("/var/x.json", gone, parse).unwrap_err();
    assert_eq!(err.message(), "reading registry /var/x.json");
    let blank = FileRead::Contents(" \n\t".to_string());
    assert_eq!(Registry::load("b", blank, parse).unwrap(), Registry::default());
}

#[test]
fn port_range_contains_is_inclusive() {
    let r = PortRange { start: 10, end: 20 };
    assert!(r.contains(10));
    assert!(r.contains(20));
    assert!(!r.contains(9));
    assert!(!r.contains(21));
}

#[test]
fn an_empty_range_has_no_port_to_give() {
    let mut r = Registry::with_range(PortRange { start: 5, end: 4 });
    assert_eq!(
        r.register(&Key::new("a", "b")).unwrap_err().message(),
        "port range 5..=4 exhausted (0 active sessions)"
    );
    let mut top = Registry::with_range(PortRange {
        start: 65_535,
        end: 65_535,
    });
    assert_eq!(top.register(&Key::new("a", "b")), Ok(65_535));
    assert!(top.register(&Key::new("b", "b")).is_err());
}

#[test]
fn a_gap_is_filled_before_the_end() {
    let mut r = Registry::with_range(small_range());
    for user in ["a", "b", "c"] {
        r.register(&Key::new(user, "x")).unwrap();
    }
    r.deregister(&Key::new("b", "x"));
    assert_eq!(r.register(&Key::new("z", "x")), Ok(10_001));
    // Nobody else's port moved.
    assert_eq!(r.lookup(&Key::new("a", "x")), Some(10_000));
    assert_eq!(r.lookup(&Key::new("c", "x")), Some(10_002));
}

#[test]
fn a_slash_in_a_name_belongs_to_its_name() {
    let mut r = Registry::with_range(small_range());
    assert_eq!(r.register(&Key::new("a/b", "c")), Ok(10_000));
    assert_eq!(r.register(&Key::new("a", "b/c")), Ok(10_001));
    assert_eq!(r.register(&Key::new("a\\sb", "c")), Ok(10_002));
    assert_eq!(r.len(), 3);
    assert_eq!(r.lookup(&Key::new("a/b", "c")), Some(10_000));
    assert_eq!(r.lookup(&Key::new("a", "b/c")), Some(10_001));
    let pairs: Vec<Key> = r.snapshot().into_iter().map(|(k, _)| k).collect();
    assert_eq!(pairs.len(), 3);
    assert!(pairs.contains(&Key::new("a/b", "c")));
    assert!(pairs.contains(&Key::new("a", "b/c")));
    assert!(pairs.contains(&Key::new("a\\sb", "c")));
    // Taking one back leaves the other.
    assert_eq!(r.deregister(&Key::new("a/b", "c")), Some(10_000));
    assert_eq!(r.lookup(&Key::new("a", "b/c")), Some(10_001));
}

#[test]
fn a_saved_registry_is_json_in_the_order_of_its_names() {
    let mut r = Registry::with_range(small_range());
    assert_eq!(
        r.to_json(),
        "{\n  \"range\": {\n    \"start\": 10000,\n    \"end\": 10002\n  },\n  \"entries\": {}\n}"
    );
    r.register(&Key::new("bob", "api")).unwrap();
    r.register(&Key::new("alice", "a \"b\"")).unwrap();
    let text = r.to_json();
    assert_eq!(
        text,
        "{\n  \"range\": {\n    \"start\": 10000,\n    \"end\": 10002\n  },\n  \"entries\": {\n    \"alice/a \\\"b\\\"\": 10001,\n    \"bob/api\": 10000\n  }\n}"
    );
    let v: serde_json::Value = serde_json::from_str(&text).unwrap();
    assert_eq!(v["range"]["end"], 10_002);
    assert_eq!(v["entries"]["bob/api"], 10_000);
    assert_eq!(v["entries"]["alice/a \"b\""], 10_001);
}

#[test]
fn what_is_saved_loads_back() {
    for users in [vec![], vec!["a"], vec!["z", "a/b", "\u{1F600}\n\t\\", ""]] {
        let mut r = Registry::default();
        for user in users {
            r.register(&Key::new(user, "svc/\"1\"")).unwrap();
        }
        let back = Registry::load("p", FileRead::Contents(r.to_json()), parse).unwrap();
        assert_eq!(back, r);
        assert_eq!(back.to_json(), r.to_json());
    }
}

#[test]
fn what_the_parser_says_is_wrong_is_kept() {
    let text = FileRead::Contents("{}".to_string());
    let err = Registry::load("p", text, |_: &String| Err("duplicate field".to_string()));
    assert_eq!(
        err.unwrap_err(),
        LoadError::Parsing {
            what: "registry",
            path: "p".into(),
            cause: "duplicate field".into()
        }
    );
}

#[test]
fn a_name_without_slash_in_the_user_is_plain() {
    for (user, service, name) in [
        ("alice", "api", "alice/api"),
        ("a\\b", "c", "a\\b/c"),
        ("\\s", "x/y", "\\s/x/y"),
        ("", "", "/"),
    ] {
        let mut r = Registry::default();
        r.register(&Key::new(user, service)).unwrap();
        assert_eq!(r.entries(), &vec![(name.to_string(), 10_000)]);
        let old = Registry::restore(small_range(), vec![(name.to_string(), 7)]);
        assert_eq!(old.lookup(&Key::new(user, service)), Some(7));
        assert_eq!(old.snapshot(), vec![(Key::new(user, service), 7)]);
    }
    let mut r = Registry::default();
    r.register(&Key::new("a/b", "c/d")).unwrap();
    assert!(!r.entries()[0].0.contains('/'));
    assert_eq!(r.snapshot(), vec![(Key::new("a/b", "c/d"), 10_000)]);
    // A name that no pair is filed under is left out.
    for odd in ["odd", "a\\sb", "a\\", "a\\x"] {
        let r = Registry::restore(small_range(), vec![(odd.to_string(), 7)]);
        assert_eq!(r.snapshot(), vec![]);
        assert_eq!(r.len(), 1);
    }
}

#[test]
fn a_pair_keeps_its_port_whatever_others_do() {
    let mut r = Registry::with_range(small_range());
    r.register(&Key::new("a", "x")).unwrap();
    assert_eq!(r.register(&Key::new("b", "x")), Ok(10_001));
    r.deregister(&Key::new("a", "x"));
    r.register(&Key::new("c", "x")).unwrap();
    r.register(&Key::new("d", "x")).unwrap();
    assert!(r.register(&Key::new("e", "x")).is_err());
    r.deregister(&Key::new("c", "x"));
    assert_eq!(r.register(&Key::new("b", "x")), Ok(10_001));
    assert_eq!(r.snapshot().len(), r.len());
    assert_eq!(
        r.snapshot(),
        vec![(Key::new("b", "x"), 10_001), (Key::new("d", "x"), 10_002)]
    );
}

#[test]
fn restore_takes_the_last_of_a_name_and_the_snapshot_skips_names_without_a_slash() {
    let r = Registry::restore(
        small_range(),
        vec![
            ("b/x".to_string(), 1),
            ("odd".to_string(), 2),
            ("a/x".to_string(), 3),
            ("b/x".to_string(), 4),
        ],
    );
    assert_eq!(r.len(), 3);
    assert_eq!(
        r.entries(),
        &vec![
            ("a/x".to_string(), 3),
            ("b/x".to_string(), 4),
            ("odd".to_string(), 2)
        ]
    );
    assert_eq!(
        r.snapshot(),
        vec![(Key::new("a", "x"), 3), (Key::new("b", "x"), 4)]
    );
}

#[test]
fn the_registry_is_kept_where_it_is_asked_for() {
    assert_eq!(
        ephemwork::registry::default_registry_path(None),
        "/var/lib/ephemwork/registry.json"
    );
    assert_eq!(
        ephemwork::registry::default_registry_path(Some("/tmp/r.json".into())),
        "/tmp/r.json"
    );
}
