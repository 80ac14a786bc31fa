use fff::path::{join, normalized, same_path, starts_with, stem_with_extension, strip_prefix};
use fff::routing::{
    loaded, LoadError, ReadOutcome, RootEntry, RoutingTable, SerializableRing, WorkerEntry,
};

fn make_entry(index: u32, slugs: &[&str]) -> WorkerEntry {
    let mut e = WorkerEntry::new(index, format!("worker-{index}.sock"), 1000 + index);
    for s in slugs {
        e.push_root((*s).to_string(), format!("/test/{s}"));
    }
    e
}

fn entry_with_roots(index: u32, roots: &[(&str, &str)]) -> WorkerEntry {
    let mut e = WorkerEntry::new(index, format!("worker-{index}.sock"), 1000 + index);
    for (slug, base) in roots {
        e.push_root((*slug).to_string(), (*base).to_string());
    }
    e
}

fn slugs(e: &WorkerEntry) -> Vec<&str> {
    e.roots.iter().map(|r| r.slug.as_str()).collect()
}

#[test]
fn entries_for_worker_counts_slugs() {
    let mut rt = RoutingTable::new();
    rt.workers.insert(0, make_entry(0, &["a", "b", "c"]));
    rt.workers.insert(1, make_entry(1, &[]));

    assert_eq!(rt.entries_for_worker(0), 3);
    assert_eq!(rt.entries_for_worker(1), 0);
    assert_eq!(rt.entries_for_worker(99), 0);
    assert_eq!(rt.worker_count(), 2);
}

#[test]
fn containing_root_matches_ancestor() {
    let mut rt = RoutingTable::new();
    rt.workers
        .insert(0, entry_with_roots(0, &[("parent", "/home/me/proj")]));

    let hit = rt.containing_root("/home/me/proj/src/lib");
    assert_eq!(
        hit,
        Some((0, "parent".to_string(), "/home/me/proj".to_string()))
    );
}

#[test]
fn containing_root_matches_exact_path() {
    let mut rt = RoutingTable::new();
    rt.workers.insert(0, entry_with_roots(0, &[("p", "/a/b")]));
    assert_eq!(
        rt.containing_root("/a/b"),
        Some((0, "p".into(), "/a/b".into()))
    );
}

#[test]
fn containing_root_respects_component_boundary() {
    let mut rt = RoutingTable::new();
    rt.workers
        .insert(0, entry_with_roots(0, &[("p", "/foo/bar")]));
    // /foo/barbaz is NOT under /foo/bar.
    assert_eq!(rt.containing_root("/foo/barbaz"), None);
}

#[test]
fn containing_root_picks_longest_prefix() {
    let mut rt = RoutingTable::new();
    rt.workers.insert(
        0,
        entry_with_roots(0, &[("shallow", "/a"), ("deep", "/a/b/c")]),
    );
    let hit = rt.containing_root("/a/b/c/d");
    assert_eq!(hit, Some((0, "deep".to_string(), "/a/b/c".to_string())));
}

#[test]
fn containing_root_skips_empty_base_path() {
    let mut rt = RoutingTable::new();
    rt.workers.insert(0, entry_with_roots(0, &[("legacy", "")]));
    assert_eq!(rt.containing_root("/anything"), None);
}

#[test]
fn containing_root_none_when_unrelated() {
    let mut rt = RoutingTable::new();
    rt.workers.insert(0, entry_with_roots(0, &[("p", "/x/y")]));
    assert_eq!(rt.containing_root("/m/n"), None);
}

#[test]
fn containing_root_looks_at_every_worker() {
    let mut rt = RoutingTable::new();
    rt.workers.insert(0, entry_with_roots(0, &[("a", "/a")]));
    rt.workers.insert(3, entry_with_roots(3, &[("ab", "/a/b")]));
    rt.workers.insert(7, entry_with_roots(7, &[("x", "/x")]));
    assert_eq!(
        rt.containing_root("/a/b/c"),
        Some((3, "ab".into(), "/a/b".into()))
    );
}

fn read(outcome: ReadOutcome<String, u8>) -> Result<RoutingTable, LoadError<String, u8>> {
    loaded(outcome)
}

#[test]
fn load_returns_default_when_absent() {
    let rt = match read(ReadOutcome::Absent) {
        Ok(rt) => rt,
        Err(_) => panic!("expected a table"),
    };
    assert!(rt.workers.is_empty());
    assert!(rt.ring_state.nodes.is_empty());
}

#[test]
fn what_cannot_be_loaded_is_an_error() {
    match read(ReadOutcome::Failed("denied".to_string())) {
        Err(LoadError::Read(e)) => assert_eq!(e, "denied"),
        _ => panic!("expected the error of the reading"),
    }
    match read(ReadOutcome::NotATable(7)) {
        Err(LoadError::InvalidData(d)) => assert_eq!(d, 7),
        _ => panic!("expected invalid data"),
    }
}

#[test]
fn load_migrates_legacy_root_slugs() {
    let mut raw = RoutingTable::new();
    raw.ring_state = SerializableRing {
        nodes: vec![(100, 0)],
    };
    raw.workers.insert(
        0,
        WorkerEntry {
            index: 0,
            socket_path: "worker-0.sock".into(),
            pid: 1000,
            roots: vec![],
            legacy_root_slugs: vec!["legacyslug1".into(), "legacyslug2".into()],
        },
    );
    let rt = match read(ReadOutcome::Table(raw)) {
        Ok(rt) => rt,
        Err(_) => panic!("expected a table"),
    };
    assert_eq!(rt.ring_state.nodes, vec![(100, 0)]);
    let entry = &rt.workers[&0];
    assert!(entry.legacy_root_slugs.is_empty());
    assert_eq!(entry.roots.len(), 2);
    assert_eq!(entry.roots[0].slug, "legacyslug1");
    assert_eq!(
        entry.roots[0].base_path, "",
        "legacy entries hydrate with empty base_path"
    );
    assert_eq!(entry.roots[1].slug, "legacyslug2");
}

#[test]
fn migrating_twice_is_migrating_once() {
    let mut e = make_entry(0, &[]);
    e.legacy_root_slugs = vec!["old".into()];
    e.migrate_legacy();
    assert_eq!(slugs(&e), vec!["old"]);
    assert!(e.legacy_root_slugs.is_empty());
    e.migrate_legacy();
    assert_eq!(slugs(&e), vec!["old"]);
}

#[test]
fn migration_keeps_entries_that_have_roots() {
    let mut e = make_entry(0, &["new"]);
    e.legacy_root_slugs = vec!["old".into()];
    e.migrate_legacy();
    assert_eq!(slugs(&e), vec!["new"]);
}

#[test]
fn a_pushed_root_is_held_and_a_removed_one_is_not() {
    let mut e = make_entry(0, &["a"]);
    e.push_root("b".into(), "/test/b".into());
    assert!(e.contains_slug("b"));
    assert!(e.remove_slug("b"));
    assert!(!e.contains_slug("b"));
    assert_eq!(slugs(&e), vec!["a"]);
}

#[test]
fn removing_an_absent_slug_changes_nothing() {
    let mut e = make_entry(0, &["a", "b"]);
    assert!(!e.remove_slug("c"));
    assert_eq!(slugs(&e), vec!["a", "b"]);
}

#[test]
fn a_duplicate_holds_the_same() {
    let e = make_entry(4, &["a", "b"]);
    let d = e.duplicate();
    assert_eq!(d.index, 4);
    assert_eq!(d.pid, 1004);
    assert_eq!(d.socket_path, "worker-4.sock");
    assert_eq!(slugs(&d), vec!["a", "b"]);
    let r = RootEntry {
        slug: "s".into(),
        base_path: "/s".into(),
    };
    assert_eq!(r.clone().base_path, "/s");
}

#[test]
fn a_new_table_is_empty() {
    let rt = RoutingTable::new();
    assert_eq!(rt.worker_count(), 0);
    let SerializableRing { nodes } = rt.ring_state;
    assert!(nodes.is_empty());
}

// ── Paths ───────────────────────────────────────────────────────────────────

#[test]
fn paths_are_compared_by_component() {
    assert!(starts_with("/a/b", "/a"));
    assert!(starts_with("/a/b", "/a/b"));
    assert!(starts_with("/a//b/./c", "/a/b/"));
    assert!(!starts_with("/ab", "/a"));
    assert!(!starts_with("a/b", "/a"));
    assert!(!starts_with("/a", "/a/b"));
    assert!(starts_with("a", ""));
    assert!(same_path("/a//b/", "/a/./b"));
    assert!(!same_path("/a/b", "a/b"));
    assert!(!same_path("/a/../b", "/b"));
}

#[test]
fn joining_takes_an_absolute_path_as_it_is() {
    assert_eq!(join("/a", "b"), "/a/b");
    assert_eq!(join("/a/", "b"), "/a/b");
    assert_eq!(join("/a", "/b"), "/b");
    assert_eq!(join("", "b"), "b");
}

#[test]
fn the_normal_text_has_no_idle_parts() {
    assert_eq!(normalized("/a//b/./c/"), "/a/b/c");
    assert_eq!(normalized("a/./b"), "a/b");
    assert_eq!(normalized("./a"), "./a");
    assert_eq!(normalized("/"), "/");
    assert_eq!(normalized("/ä/ß"), "/ä/ß");
}

#[test]
fn a_prefix_is_stripped_where_it_is_one() {
    assert_eq!(strip_prefix("/a/b/c", "/a"), Some("b/c".to_string()));
    assert_eq!(strip_prefix("/a/b", "/a/b"), Some("".to_string()));
    assert_eq!(strip_prefix("/ab", "/a"), None);
}

#[test]
fn what_is_left_keeps_its_text() {
    let rest = |p: &str, base: &str| strip_prefix(p, base).unwrap();
    for (p, base, left) in [
        ("/r/a//b", "/r", "a//b"),
        ("/r//a/./b/.", "/r/", "a/./b"),
        ("/r/./.hidden", "/r", ".hidden"),
        ("/r/../a", "/r", "../a"),
        ("/r/a/", "//r/.", "a"),
        ("//a", "/", "a"),
        ("./a", ".", "a"),
        ("/a/", "", "/a"),
        ("//", "", "/"),
        (".//a/", "", ".//a"),
        ("/r/./", "/r", ""),
        ("", "", ""),
    ] {
        assert_eq!(rest(p, base), left, "{p} below {base}");
        assert_eq!(std::path::Path::new(p).strip_prefix(base).unwrap().to_str(), Some(left));
        assert!(same_path(&join(base, left), p), "{p} below {base}");
    }
}

#[test]
fn an_extension_follows_the_last_dot() {
    assert_eq!(stem_with_extension("a.lock", "lock"), Some("a".into()));
    assert_eq!(stem_with_extension("a.b.lock", "lock"), Some("a.b".into()));
    assert_eq!(stem_with_extension("a.sock", "lock"), None);
    assert_eq!(stem_with_extension(".lock", "lock"), None);
    assert_eq!(stem_with_extension("lock", "lock"), None);
    assert_eq!(stem_with_extension("..", ""), None);
    assert_eq!(stem_with_extension("a.", ""), Some("a".into()));
    assert_eq!(stem_with_extension("", ""), None);
}
