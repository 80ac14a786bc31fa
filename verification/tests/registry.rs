use fff::config::{McpConfig, McpConfigError, McpRoot};
use fff::disk::CanonicalPaths;
use fff::lifecycle::{
    build_registry, content_indexing, index_root, log_level_notice, name_for_path,
    resolve_defaults, start_path, watchdog_exits, watchdog_interval_ms, watchdog_needed,
    ClientSettings, LogLevelNotice,
};
use fff::config::FffConfig;
use fff::registry::RootRegistry;
use fff::types::SearchResponse;

// Links under /t lead to /real.
fn disk() -> CanonicalPaths {
    let mut d = CanonicalPaths::new();
    for p in [
        "",
        "/a",
        "/b",
        "/c",
        "/repo_a",
        "/repo_a/src",
        "/repo_b",
        "/repo",
        "/repo/inner",
        "/repo/inner/x",
        "/outer",
        "/outer/inner",
        "/outer/inner/src/x.rs",
        "/other",
        "/primary",
        "/secondary",
        "/alpha",
    ] {
        d.record(&format!("/t{p}"), &format!("/real{p}"));
        d.record(&format!("/real{p}"), &format!("/real{p}"));
    }
    d
}

fn s(x: &str) -> String {
    x.to_string()
}

#[test]
fn registry_default_only_when_no_extra_roots() {
    let reg = RootRegistry::new("/t", Vec::new(), &disk());
    let all = reg.all();
    assert_eq!(all.len(), 1);
    assert!(all[0].1, "the one entry must be the default");
}

#[test]
fn registry_dedupes_extra_roots_against_default() {
    let reg = RootRegistry::new("/t/a", vec![s("/t/a"), s("/t/b"), s("/t/b")], &disk());
    let all = reg.all();
    assert_eq!(all.len(), 2);
    assert!(all[0].1);
    assert!(!all[1].1);
    assert_eq!(all[1].0, "/real/b");
}

#[test]
fn registry_canonicalizes_relative_paths() {
    let reg = RootRegistry::new("/t/a", vec![], &disk());
    assert!(reg.default_root().starts_with('/'));
    assert_eq!(reg.default_root(), "/real/a");
}

#[test]
fn registry_all_returns_default_first() {
    let reg = RootRegistry::new("/t/a", vec![s("/t/b"), s("/t/c")], &disk());
    let all = reg.all();
    assert_eq!(all.len(), 3);
    assert!(all[0].1);
    assert_eq!(all[0].0, "/real/a");
    assert_eq!(all[1].0, "/real/b");
    assert_eq!(all[2].0, "/real/c");
}

#[test]
fn root_for_path_under_registered_root() {
    let reg = RootRegistry::new("/t/repo_a", vec![s("/t/repo_b")], &disk());
    assert_eq!(reg.root_for_path("/t/repo_a/src", &disk()), "/real/repo_a");
}

#[test]
fn root_for_path_longest_prefix_wins() {
    let reg = RootRegistry::new("/t/repo", vec![s("/t/repo/inner")], &disk());
    assert_eq!(
        reg.root_for_path("/t/repo/inner/x", &disk()),
        "/real/repo/inner"
    );
}

#[test]
fn root_for_path_unmatched_falls_back_to_default() {
    let reg = RootRegistry::new("/t/repo_a", vec![], &disk());
    assert_eq!(
        reg.root_for_path("/tmp/definitely_not_under_repo_a", &disk()),
        "/real/repo_a"
    );
}

#[test]
fn is_default_matches_canonicalized_default() {
    let tmp = tempfile::TempDir::new().unwrap();
    let raw = tmp.path().to_str().unwrap();
    let mut d = CanonicalPaths::new();
    d.record(raw, tmp.path().canonicalize().unwrap().to_str().unwrap());
    let reg = RootRegistry::new(raw, vec![], &d);
    assert!(reg.is_default(raw, &d));
}

#[test]
fn resolve_name_finds_default_when_named() {
    let reg = RootRegistry::with_named("/t/a", Some("primary".into()), Vec::new(), &disk());
    let got = reg.resolve_name("primary").expect("default by name");
    assert_eq!(got, "/real/a");
    assert_eq!(reg.default_name(), Some("primary"));
}

#[test]
fn resolve_name_finds_additional_named_root() {
    let reg = RootRegistry::with_named(
        "/t/a",
        None,
        vec![(Some("bee".into()), s("/t/b"))],
        &disk(),
    );
    let got = reg.resolve_name("bee").expect("by name");
    assert_eq!(got, "/real/b");
}

#[test]
fn resolve_name_returns_none_for_unknown_name() {
    let reg = RootRegistry::with_named("/t/a", None, Vec::new(), &disk());
    assert!(reg.resolve_name("nope").is_none());
}

#[test]
fn all_with_names_reports_default_name_when_present() {
    let reg = RootRegistry::with_named(
        "/t/a",
        Some("primary".into()),
        vec![(Some("bee".into()), s("/t/b"))],
        &disk(),
    );
    let all = reg.all_with_names();
    assert_eq!(all.len(), 2);
    assert_eq!(all[0].0, Some("primary"));
    assert!(all[0].2);
    assert_eq!(all[1].0, Some("bee"));
    assert!(!all[1].2);
}

#[test]
fn registry_lists_default_then_additional() {
    let reg = RootRegistry::new("/t/a", vec![s("/t/b")], &disk());
    let all = reg.all();
    assert_eq!(all.len(), 2);
    assert_eq!(all[0].0, "/real/a");
    assert!(all[0].1);
    assert_eq!(all[1].0, "/real/b");
    assert!(!all[1].1);

    assert!(reg.is_default("/t/a", &disk()));
    assert!(!reg.is_default("/t/b", &disk()));
}

fn mcp(default: Option<&str>, roots: &[(Option<&str>, &str)]) -> McpConfig {
    McpConfig {
        default: default.map(s),
        roots: roots
            .iter()
            .map(|(n, p)| McpRoot {
                path: s(p),
                name: n.map(s),
                ignore: vec![],
            })
            .collect(),
    }
}

fn named(cfg: &McpConfig) -> Vec<(Option<String>, String)> {
    cfg.roots
        .iter()
        .map(|r| (r.name.clone(), r.path.clone()))
        .collect()
}

#[test]
fn config_default_by_name_selects_root() {
    let cfg = mcp(
        Some("primary"),
        &[
            (Some("primary"), "/t/primary"),
            (Some("secondary"), "/t/secondary"),
        ],
    );
    cfg.validate().unwrap();
    let default_path = cfg.default_path().expect("has default");
    assert_eq!(default_path, "/t/primary");

    let reg = RootRegistry::with_named(&default_path, Some("primary".into()), named(&cfg), &disk());
    let all = reg.all_with_names();
    assert_eq!(all.len(), 2, "default + 1 additional after dedupe");
    assert_eq!(all[0].0, Some("primary"));
    assert!(all[0].2);
    assert_eq!(all[1].0, Some("secondary"));
    assert!(!all[1].2);

    // Name lookup resolves both.
    assert_eq!(reg.resolve_name("primary").unwrap(), "/real/primary");
    assert_eq!(reg.resolve_name("secondary").unwrap(), "/real/secondary");
    assert!(reg.resolve_name("not-a-root").is_none());
}

#[test]
fn config_default_as_absolute_path_anonymous() {
    let cfg = mcp(Some("/t/alpha"), &[(None, "/t/alpha")]);
    cfg.validate().unwrap();
    assert_eq!(cfg.default_path(), Some(s("/t/alpha")));

    // No declared name → registry's default has no name.
    let reg = RootRegistry::with_named("/t/alpha", None, Vec::new(), &disk());
    let all = reg.all_with_names();
    assert_eq!(all.len(), 1);
    assert!(all[0].0.is_none());
}

#[test]
fn config_plus_cli_extras_merge_and_dedupe() {
    let cfg = mcp(None, &[(Some("ay"), "/t/a"), (None, "/t/b")]);
    let mut extras = named(&cfg);
    extras.push((None, s("/t/c")));
    extras.push((None, s("/t/b")));

    let reg = RootRegistry::with_named("/t/a", Some("ay".into()), extras, &disk());
    let all = reg.all_with_names();
    // default(a) + b + c — second b deduped, default-a deduped out of extras.
    assert_eq!(all.len(), 3);
    assert_eq!(all[0].1, "/real/a");
    assert_eq!(all[1].1, "/real/b");
    assert_eq!(all[2].1, "/real/c");
}

#[test]
fn config_default_unknown_name_rejected_at_load() {
    let cfg = mcp(Some("phantom"), &[(Some("ay"), "/tmp/whatever")]);
    let err = cfg.validate().expect_err("must fail");
    assert!(matches!(err, McpConfigError::UnresolvedDefault { .. }));
}

#[test]
fn registry_path_resolution_matches_longest_prefix() {
    let reg = RootRegistry::new(
        "/t/outer",
        vec![s("/t/outer/inner"), s("/t/other")],
        &disk(),
    );
    let resolved = reg.root_for_path("/t/outer/inner/src/x.rs", &disk());
    assert_eq!(
        resolved, "/real/outer/inner",
        "longest prefix (inner) wins over outer"
    );

    let fallback = reg.root_for_path("/tmp/definitely_not_under_outer_or_other", &disk());
    assert_eq!(
        fallback, "/real/outer",
        "unmatched path must fall back to the default"
    );
}

// ── Start-up of a client ────────────────────────────────────────────────────

#[test]
fn the_registry_takes_names_from_the_config() {
    let cfg = mcp(None, &[(Some("ay"), "/t/a"), (None, "/t/b")]);
    assert_eq!(name_for_path(&cfg, "/real/a", &disk()), Some(s("ay")));
    assert_eq!(name_for_path(&cfg, "/real/b", &disk()), None);
    let reg = build_registry("/real/a", &vec![s("/t/c")], &cfg, &disk());
    let all = reg.all_with_names();
    assert_eq!(
        all,
        vec![
            (Some("ay"), "/real/a", true),
            (None, "/real/b", false),
            (None, "/real/c", false),
        ]
    );
}

#[test]
fn arguments_go_before_the_config() {
    let args = ClientSettings {
        log_level: None,
        log_file: None,
        max_cached_files: Some(3),
        no_watch: false,
        no_warmup: true,
    };
    let mut cfg = FffConfig::default();
    cfg.log.level = s("debug");
    cfg.index.max_cached_files = Some(9);
    cfg.index.no_watch = true;
    let r = resolve_defaults(args, &cfg, s("/log"));
    assert_eq!(r.log_level.as_deref(), Some("debug"));
    assert_eq!(r.log_file.as_deref(), Some("/log"));
    assert_eq!(r.max_cached_files, Some(3));
    assert!(r.no_watch);
    assert!(r.no_warmup);
}

#[test]
fn a_client_starts_where_it_is_told_to() {
    let cfg = mcp(Some("/cfg"), &[]);
    assert_eq!(start_path(Some(s("/arg")), &cfg, s("/cwd")), "/arg");
    assert_eq!(start_path(None, &cfg, s("/cwd")), "/cfg");
    assert_eq!(start_path(None, &McpConfig::default(), s("/cwd")), "/cwd");
}

#[test]
fn a_repository_is_indexed_from_its_top() {
    assert_eq!(index_root(s("/r/sub"), Some(Some(s("/r")))), "/r");
    assert_eq!(index_root(s("/r/sub"), Some(None)), "/r/sub");
    assert_eq!(index_root(s("/r/sub"), None), "/r/sub");
}

#[test]
fn contents_are_indexed_unless_refused() {
    assert!(content_indexing(true, false, true));
    assert!(!content_indexing(false, true, false));
    assert!(content_indexing(false, false, false));
    assert!(!content_indexing(false, false, true));
}

#[test]
fn a_client_ends_with_its_parent_or_when_idle() {
    assert!(watchdog_needed(1, false));
    assert!(watchdog_needed(0, true));
    assert!(!watchdog_needed(0, false));
    assert!(watchdog_exits(Some(false), 0, 0, 0));
    assert!(!watchdog_exits(Some(true), 0, 1000, 0));
    assert!(watchdog_exits(None, 10, 20, 10));
    assert!(!watchdog_exits(None, 10, 19, 10));
    assert!(!watchdog_exits(None, 10, 5, 10));
}

#[test]
fn only_a_debug_build_changes_the_watchdog() {
    assert_eq!(watchdog_interval_ms(false, Some("7")), 60_000);
    assert_eq!(watchdog_interval_ms(true, Some("7")), 7);
    assert_eq!(watchdog_interval_ms(true, None), 60_000);
}

#[test]
fn a_change_of_the_log_filter_is_told() {
    assert!(matches!(
        log_level_notice(Ok(SearchResponse::Ack)),
        LogLevelNotice::Changed
    ));
    assert!(matches!(
        log_level_notice(Ok(SearchResponse::Error("bad".into()))),
        LogLevelNotice::Failed(_)
    ));
    assert!(matches!(
        log_level_notice(Ok(SearchResponse::RecentFiles(vec![]))),
        LogLevelNotice::Odd(_)
    ));
}
