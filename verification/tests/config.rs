use fff::config::{
    config_path, ttl_override, FffConfig, IndexConfig, McpConfig, McpConfigError, McpRoot,
    TtlOverride, WorkerConfig,
};
use fff::disk::CanonicalPaths;

fn mcp_from(table: &toml::Table) -> McpConfig {
    let text = |v: Option<&toml::Value>| v.and_then(|v| v.as_str()).map(|s| s.to_string());
    let mut roots = Vec::new();
    if let Some(list) = table.get("roots").and_then(|v| v.as_array()) {
        for entry in list {
            let entry = entry.as_table().unwrap();
            roots.push(McpRoot {
                path: text(entry.get("path")).unwrap(),
                name: text(entry.get("name")),
                ignore: vec![],
            });
        }
    }
    McpConfig {
        default: text(table.get("default")),
        roots,
    }
}

fn parse(body: &str) -> toml::Table {
    body.parse::<toml::Table>().unwrap()
}

#[test]
fn worker_config_defaults() {
    let c = WorkerConfig::default();
    assert_eq!(c.n_min, 1);
    assert_eq!(c.n_max, 4);
    assert_eq!(c.roots_per_worker_max, 8);
    assert_eq!(c.idle_ttl_secs, 300);
}

#[test]
fn resolved_idle_root_ttl_uses_default_when_unset() {
    // No env override ⇒ config value, then the 6h default.
    let unset = IndexConfig::default();
    assert_eq!(
        unset.resolved_idle_root_ttl_secs(None),
        IndexConfig::DEFAULT_IDLE_ROOT_TTL_SECS
    );
    assert_eq!(IndexConfig::DEFAULT_IDLE_ROOT_TTL_SECS, 6 * 60 * 60);
    let set = IndexConfig {
        idle_root_ttl_secs: Some(0),
        ..Default::default()
    };
    assert_eq!(set.resolved_idle_root_ttl_secs(None), 0);
}

#[test]
fn the_environment_overrides_the_idle_time() {
    let set = IndexConfig {
        idle_root_ttl_secs: Some(5),
        ..Default::default()
    };
    assert_eq!(set.resolved_idle_root_ttl_secs(Some("77")), 77);
    assert_eq!(set.resolved_idle_root_ttl_secs(Some("+8")), 8);
    assert_eq!(set.resolved_idle_root_ttl_secs(Some("soon")), 5);
    assert!(matches!(ttl_override(None), TtlOverride::Unset));
    assert!(matches!(ttl_override(Some("9")), TtlOverride::Secs(9)));
    assert!(matches!(ttl_override(Some("-9")), TtlOverride::Invalid));
    assert!(matches!(
        ttl_override(Some("18446744073709551615")),
        TtlOverride::Secs(u64::MAX)
    ));
    assert!(matches!(
        ttl_override(Some("18446744073709551616")),
        TtlOverride::Invalid
    ));
}

#[test]
fn mcp_section_parses_roots_and_default() {
    let body = r#"
[mcp]
default = "fff"

[[mcp.roots]]
name = "fff"
path = "/tmp/fff"

[[mcp.roots]]
path = "/tmp/anon"
"#;
    let table = parse(body);
    let mcp = mcp_from(table.get("mcp").unwrap().as_table().unwrap());
    assert_eq!(mcp.roots.len(), 2);
    assert_eq!(mcp.default.as_deref(), Some("fff"));
    mcp.validate().unwrap();
    assert_eq!(mcp.default_path(), Some("/tmp/fff".to_string()));
}

#[test]
fn mcp_default_as_absolute_path_resolves() {
    let cfg = mcp_from(&parse("default = \"/tmp/x\"\n"));
    cfg.validate().unwrap();
    assert_eq!(cfg.default_path(), Some("/tmp/x".to_string()));
}

#[test]
fn mcp_missing_section_is_empty() {
    let cfg = FffConfig::default();
    assert!(cfg.mcp.roots.is_empty());
    assert!(cfg.mcp.default.is_none());
}

#[test]
fn mcp_duplicate_names_rejected() {
    let cfg = mcp_from(&parse(
        "[[roots]]\nname = \"a\"\npath = \"/tmp/a\"\n\n[[roots]]\nname = \"a\"\npath = \"/tmp/b\"\n",
    ));
    match cfg.validate().unwrap_err() {
        McpConfigError::DuplicateName(n) => assert_eq!(n, "a"),
        other => panic!("expected DuplicateName, got {other:?}"),
    }
}

#[test]
fn mcp_default_unknown_name_rejected() {
    let cfg = mcp_from(&parse(
        "default = \"ghost\"\n\n[[roots]]\nname = \"real\"\npath = \"/tmp/real\"\n",
    ));
    match cfg.validate().unwrap_err() {
        McpConfigError::UnresolvedDefault(v) => assert_eq!(v, "ghost"),
        other => panic!("expected UnresolvedDefault, got {other:?}"),
    }
}

/// A name is looked for before a default is taken for a path.
#[test]
fn a_valid_default_selects_one_path() {
    let cfg = mcp_from(&parse(
        "default = \"/a\"\n\n[[roots]]\nname = \"/a\"\npath = \"/tmp/real\"\n",
    ));
    cfg.validate().unwrap();
    assert_eq!(cfg.default_path(), Some("/tmp/real".to_string()));
    assert!(cfg.is_name("/a"));
    assert!(!cfg.is_name("/b"));
    assert_eq!(McpConfig::default().default_path(), None);
}

#[test]
fn mcp_ignore_for_matches_containing_root() {
    let mut disk = CanonicalPaths::new();
    disk.record("/link/proj", "/real/proj");
    disk.record("/link/proj/src/deep", "/real/proj/src/deep");

    let mut cfg = McpConfig::default();
    cfg.roots.push(McpRoot {
        path: "/link/proj".into(),
        name: None,
        ignore: vec!["target/".into()],
    });

    // A sub-path resolves to the containing root's patterns.
    assert_eq!(
        cfg.ignore_for("/link/proj/src/deep", &disk),
        vec!["target/".to_string()]
    );
    // An unrelated path matches nothing.
    assert!(cfg.ignore_for("/nonexistent/unrelated", &disk).is_empty());
}

#[test]
fn the_deepest_root_gives_the_patterns() {
    let disk = CanonicalPaths::new();
    let mut cfg = McpConfig::default();
    for (path, pattern) in [("/a", "x"), ("/a/b", "y")] {
        cfg.roots.push(McpRoot {
            path: path.into(),
            name: None,
            ignore: vec![pattern.into()],
        });
    }
    assert_eq!(cfg.ignore_for("/a/b/c", &disk), vec!["y".to_string()]);
    assert_eq!(cfg.ignore_for("/a/c", &disk), vec!["x".to_string()]);
}

#[test]
fn the_config_file_stands_in_the_config_directory() {
    assert_eq!(
        config_path(Some("/x"), Some("/home/me"), None),
        "/x/fff/config.toml"
    );
    assert_eq!(
        config_path(None, Some("/home/me"), None),
        "/home/me/.config/fff/config.toml"
    );
}

#[test]
fn the_innermost_root_decides_even_without_patterns() {
    let mut cfg = McpConfig::default();
    cfg.roots.push(McpRoot {
        path: "/nonexistent-fff/a".into(),
        name: None,
        ignore: vec!["x/".into()],
    });
    cfg.roots.push(McpRoot {
        path: "/nonexistent-fff/a/b".into(),
        name: None,
        ignore: vec![],
    });
    let disk = CanonicalPaths::new();
    assert!(cfg.ignore_for("/nonexistent-fff/a/b/c", &disk).is_empty());
    assert_eq!(
        cfg.ignore_for("/nonexistent-fff/a/c", &disk),
        vec!["x/".to_string()]
    );
}
