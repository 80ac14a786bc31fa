use fff::config::{McpConfig, McpRoot};
use fff::disk::CanonicalPaths;
use fff::listing::{
    build_list_roots, configured_roots_from_mcp, find_name, root_path_gone, roots_to_evict,
    PathStat,
};
use fff::master::ConfiguredRoot;
use fff::types::{HealthReport, RootHealth, WorkerHealth};

fn health_root(slug: &str, base_path: &str, last_access_age_sec: Option<u64>) -> RootHealth {
    RootHealth {
        slug: slug.into(),
        base_path: base_path.into(),
        indexed_files: None,
        last_scan_age_sec: None,
        watcher_backlog: None,
        dirty_count: None,
        last_access_age_sec,
    }
}

// One worker (index 7) holding the given roots.
fn health_report(roots: Vec<RootHealth>) -> HealthReport {
    HealthReport {
        master_pid: 1,
        uptime_sec: 0,
        workers: vec![WorkerHealth {
            index: 7,
            pid: 100,
            socket_path: "w.sock".into(),
            roots,
        }],
    }
}

#[test]
fn evicts_root_idle_past_ttl() {
    let report = health_report(vec![health_root("idle", "/proj/idle", Some(7200))]);
    let evict = roots_to_evict(&report, &Vec::new(), 3600, |_| false);
    assert_eq!(evict, vec![(7, "idle".to_string())]);
}

#[test]
fn keeps_root_queried_within_ttl() {
    let report = health_report(vec![health_root("hot", "/proj/hot", Some(60))]);
    let evict = roots_to_evict(&report, &Vec::new(), 3600, |_| false);
    assert!(evict.is_empty());
}

#[test]
fn evicts_path_gone_root_regardless_of_idle() {
    // Queried seconds ago, but its path is gone → evicted immediately.
    let report = health_report(vec![health_root("gone", "/proj/gone", Some(0))]);
    let evict = roots_to_evict(&report, &Vec::new(), 3600, |bp| bp == "/proj/gone");
    assert_eq!(evict, vec![(7, "gone".to_string())]);
}

#[test]
fn never_evicts_configured_root() {
    // Idle AND path-gone, but configured → exempt from both.
    let configured: Vec<String> = vec!["cfg".to_string()];
    let report = health_report(vec![health_root("cfg", "/proj/cfg", Some(99999))]);
    let evict = roots_to_evict(&report, &configured, 3600, |_| true);
    assert!(evict.is_empty());
}

#[test]
fn ttl_zero_keeps_idle_but_evicts_path_gone() {
    // ttl=0 disables idle-age eviction only: the long-idle root is kept, but
    // the path-gone root (queried seconds ago) is still reaped.
    let report = health_report(vec![
        health_root("idle", "/proj/idle", Some(99999)),
        health_root("gone", "/proj/gone", Some(0)),
    ]);
    let evict = roots_to_evict(&report, &Vec::new(), 0, |bp| bp == "/proj/gone");
    assert_eq!(evict, vec![(7, "gone".to_string())]);
}

#[test]
fn a_root_of_unknown_age_stays() {
    let report = health_report(vec![health_root("new", "/proj/new", None)]);
    assert!(roots_to_evict(&report, &Vec::new(), 1, |_| false).is_empty());
}

#[test]
fn a_root_as_old_as_the_limit_goes() {
    let report = health_report(vec![
        health_root("before", "/before", Some(3599)),
        health_root("at", "/at", Some(3600)),
    ]);
    let evict = roots_to_evict(&report, &Vec::new(), 3600, |_| false);
    assert_eq!(evict, vec![(7, "at".to_string())]);
}

fn configured(name: Option<&str>, path: &str, default: bool) -> ConfiguredRoot {
    ConfiguredRoot {
        name: name.map(|n| n.to_string()),
        path: path.to_string(),
        default,
    }
}

#[test]
fn build_list_roots_unions_configured_and_live() {
    let configured_roots = vec![
        configured(Some("app"), "/tmp/fff-cfg-app", true),
        configured(Some("lib"), "/tmp/fff-cfg-lib", false),
    ];
    let live = vec!["/tmp/fff-live-only".to_string()];

    let roots = build_list_roots(&configured_roots, &live, &CanonicalPaths::new());

    assert_eq!(roots.len(), 3);
    // Default-first, configured carry name/default.
    assert_eq!(roots[0].base_path, "/tmp/fff-cfg-app");
    assert_eq!(roots[0].name.as_deref(), Some("app"));
    assert!(roots[0].default);
    assert_eq!(roots[1].name.as_deref(), Some("lib"));
    assert!(!roots[1].default);
    // Live-only is anonymous and non-default.
    assert_eq!(roots[2].base_path, "/tmp/fff-live-only");
    assert_eq!(roots[2].name, None);
    assert!(!roots[2].default);
}

#[test]
fn build_list_roots_dedups_configured_that_is_also_live() {
    let tmp = tempfile::tempdir().unwrap();
    let raw = tmp.path().to_string_lossy().into_owned();
    let canon = tmp
        .path()
        .canonicalize()
        .unwrap()
        .to_string_lossy()
        .into_owned();
    let mut disk = CanonicalPaths::new();
    disk.record(&raw, &canon);

    let configured_roots = vec![configured(Some("app"), &canon, true)];
    let live = vec![raw.clone()];

    let roots = build_list_roots(&configured_roots, &live, &disk);

    assert_eq!(roots.len(), 1, "de-dup by canonical path");
    assert_eq!(roots[0].name.as_deref(), Some("app"));
    assert!(roots[0].default, "configured entry wins");
}

#[test]
fn build_list_roots_empty_config_single_live() {
    let roots = build_list_roots(
        &Vec::new(),
        &vec!["/tmp/fff-live-solo".to_string()],
        &CanonicalPaths::new(),
    );

    assert_eq!(roots.len(), 1);
    assert_eq!(roots[0].base_path, "/tmp/fff-live-solo");
    assert_eq!(roots[0].name, None);
    assert!(!roots[0].default);
}

#[test]
fn a_live_root_behind_a_link_is_listed_once() {
    let mut disk = CanonicalPaths::new();
    disk.record("/link", "/real");
    disk.record("/real", "/real");
    let roots = build_list_roots(
        &Vec::new(),
        &vec!["/link".to_string(), "/real".to_string()],
        &disk,
    );
    assert_eq!(roots.len(), 1);
    assert_eq!(roots[0].base_path, "/real");
}

fn mcp(default: Option<&str>, roots: &[(Option<&str>, &str)]) -> McpConfig {
    McpConfig {
        default: default.map(|d| d.to_string()),
        roots: roots
            .iter()
            .map(|(n, p)| McpRoot {
                path: p.to_string(),
                name: n.map(|n| n.to_string()),
                ignore: vec![],
            })
            .collect(),
    }
}

#[test]
fn configured_roots_come_default_first_and_once() {
    let cfg = mcp(
        Some("lib"),
        &[(Some("app"), "/app"), (Some("lib"), "/lib"), (None, "/app")],
    );
    let roots = configured_roots_from_mcp(&cfg, &CanonicalPaths::new());
    let seen: Vec<(Option<&str>, &str, bool)> = roots
        .iter()
        .map(|r| (r.name.as_deref(), r.path.as_str(), r.default))
        .collect();
    assert_eq!(
        seen,
        vec![(Some("lib"), "/lib", true), (Some("app"), "/app", false)]
    );
}

#[test]
fn a_configured_path_has_its_name() {
    let cfg = mcp(None, &[(Some("app"), "/link"), (None, "/anon")]);
    let mut disk = CanonicalPaths::new();
    disk.record("/link", "/real");
    assert_eq!(find_name(&cfg, "/real", &disk), Some("app".to_string()));
    assert_eq!(find_name(&cfg, "/anon", &disk), None);
    assert_eq!(find_name(&cfg, "/other", &disk), None);
}

#[test]
fn a_root_is_gone_with_its_path_or_its_tree() {
    assert!(root_path_gone(PathStat::NotFound, false, false));
    assert!(!root_path_gone(PathStat::Unclear, true, false));
    assert!(!root_path_gone(PathStat::Present, false, false));
    assert!(!root_path_gone(PathStat::Present, true, true));
    assert!(root_path_gone(PathStat::Present, true, false));
}
