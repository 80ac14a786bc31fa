use fff::config::{FffConfig, McpRoot};
use fff::disk::CanonicalPaths;
use fff::protocol::{
    BasePathParams, RecordAccessParams, RequestEnvelope, BAD_REQUEST, INTERNAL, PROTOCOL_MISMATCH,
};
use fff::query::{dispatch_request, DispatchPlan, GrepMode, IndexQuery};
use fff::session::{
    connect_reply, connect_root, first_json, first_request, load_reply, log_level_reply,
    next_json, next_request, recorded_path, result_count, singleton_request, FirstStep, JsonFirst,
    JsonStep, SessionStep,
};
use fff::types::{
    FindOptions, GrepOptions, SearchRequest, SearchResponse, WireGrepFileMatches, WireGrepMatch,
    WireGrepMode, WireGrepResponse,
};
use fff::verbs;
use fff::worker::{
    accessed_path, collect_health, worker_lock, ConnectRequest, DropPlan, InitStep, LoadedRoot, OrphanWatch,
    WorkerLock, WorkerState,
};
use serde_json::Value;

fn root(slug: &str, base: &str, last_access_ms: u64) -> LoadedRoot<u32> {
    LoadedRoot {
        slug: slug.into(),
        base_path: base.into(),
        canonical_base: base.into(),
        state: 0,
        last_access_ms,
        loaded_at_ms: 0,
    }
}

fn worker(roots: Vec<LoadedRoot<u32>>) -> WorkerState<u32> {
    let mut w = WorkerState::new(0, FffConfig::default());
    for r in roots {
        w.root_loaded(r);
    }
    w
}

fn connect(slug: &str, path: &str) -> ConnectRequest {
    ConnectRequest {
        slug: slug.into(),
        base_path: path.into(),
        canonical: path.into(),
    }
}

#[test]
fn a_loaded_root_serves_what_it_contains() {
    let mut w = worker(vec![root("a", "/a", 1), root("ab", "/a/b", 2)]);
    assert_eq!(w.resolve_loaded("a", "/a", 10), Some(0));
    assert_eq!(w.resolve_loaded("x", "/a/b/c", 11), Some(1));
    assert_eq!(w.resolve_loaded("x", "/a/c", 12), Some(0));
    assert_eq!(w.resolve_loaded("x", "/ab", 13), None);
    assert_eq!(w.roots[0].last_access_ms, 12);
    assert_eq!(w.roots[1].last_access_ms, 11);
}

#[test]
fn a_root_is_loaded_once_its_turn_has_come() {
    let disk = CanonicalPaths::new();
    let mut w = worker(vec![root("a", "/a", 1)]);
    w.config.index.no_watch = true;
    w.config.mcp.roots.push(McpRoot {
        path: "/b".into(),
        name: None,
        ignore: vec!["target/".into()],
    });
    let req = connect("b", "/b");
    assert!(matches!(
        w.get_or_init(&req, false, &vec![true], 5, &disk),
        InitStep::Gate
    ));
    match w.get_or_init(&req, true, &vec![true], 5, &disk) {
        InitStep::Load { args, evicted } => {
            assert_eq!(args.base_path, "/b");
            assert!(args.no_watch && !args.no_warmup);
            assert_eq!(args.ignore, vec!["target/".to_string()]);
            assert_eq!(args.frecency_db_path, None);
            assert_eq!(evicted, None);
        }
        _ => panic!("expected a load"),
    }
    assert!(matches!(
        w.get_or_init(&connect("a", "/a"), true, &vec![true], 5, &disk),
        InitStep::Ready(0)
    ));
}

#[test]
fn a_full_worker_evicts_the_root_unused_longest() {
    let disk = CanonicalPaths::new();
    let mut w = worker(vec![
        root("a", "/a", 30),
        root("b", "/b", 10),
        root("c", "/c", 20),
    ]);
    w.config.worker.roots_per_worker_max = 3;
    // The oldest has a connection.
    match w.get_or_init(&connect("d", "/d"), true, &vec![true, false, true], 40, &disk) {
        InitStep::Load { evicted, .. } => assert_eq!(evicted.as_deref(), Some("c")),
        _ => panic!("expected a load"),
    }
    assert_eq!(w.roots.len(), 2);
    assert_eq!(w.find("c"), None);
    // No root can go: the worker grows.
    w.config.worker.roots_per_worker_max = 2;
    match w.get_or_init(&connect("d", "/d"), true, &vec![false, false], 40, &disk) {
        InitStep::Load { evicted, .. } => assert_eq!(evicted, None),
        _ => panic!("expected a load"),
    }
    assert_eq!(w.roots.len(), 2);
    assert_eq!(w.evict_lru(&vec![true, true]), Some("b".to_string()));
}

#[test]
fn loading_a_slug_again_replaces_it() {
    let mut w = worker(vec![root("a", "/a", 1)]);
    w.root_loaded(root("a", "/a2", 2));
    assert_eq!(w.roots.len(), 1);
    assert_eq!(w.roots[0].base_path, "/a2");
    w.touch_last_access(0, 9);
    assert_eq!(w.roots[0].last_access_ms, 9);
}

#[test]
fn a_dropped_root_is_merged_into_its_parent() {
    let mut w = worker(vec![root("p", "/p", 1), root("c", "/p/c", 2)]);
    assert_eq!(
        w.drop_plan("c", "p"),
        DropPlan::Merge {
            child: 1,
            parent: 0
        }
    );
    assert_eq!(w.drop_plan("c", "q"), DropPlan::ParentMissing);
    assert_eq!(w.drop_plan("x", "p"), DropPlan::Nothing);
    assert_eq!(w.drop_root("c").unwrap().base_path, "/p/c");
    assert!(w.drop_root("c").is_none());
    assert_eq!(w.find("c"), None);
    assert_eq!(w.find("p"), Some(0));
}

#[test]
fn health_tells_whole_seconds() {
    let mut w = worker(vec![root("a", "/a", 1500)]);
    w.roots[0].loaded_at_ms = 500;
    let mut snapshot = w.health_snapshot();
    let h = collect_health(vec![(snapshot.remove(0), (Some(12), None))], 3499);
    let r = &h.roots[0];
    assert_eq!(r.slug, "a");
    assert_eq!(r.indexed_files, Some(12));
    assert_eq!(r.dirty_count, None);
    assert_eq!(r.watcher_backlog, None);
    assert_eq!(r.last_scan_age_sec, Some(2));
    assert_eq!(r.last_access_age_sec, Some(1));
}

#[test]
fn accesses_are_counted_in_the_root() {
    assert_eq!(accessed_path("/a", "src/x.rs"), "/a/src/x.rs");
    assert_eq!(accessed_path("/a", "/b/x.rs"), "/b/x.rs");
}

#[test]
fn an_orphan_gives_up_after_the_grace() {
    let mut w = OrphanWatch::new();
    // Never saw a master.
    assert!(!w.tick(true, false, 0, 60));
    assert!(!w.tick(true, false, 1000, 60));
    // Saw one, then lost it.
    assert!(!w.tick(false, false, 1000, 60));
    assert!(!w.tick(true, false, 2000, 60));
    assert!(!w.tick(true, false, 2059, 60));
    assert!(w.tick(true, false, 2060, 60));
    // It comes back in time.
    assert!(!w.tick(false, false, 2060, 60));
    assert!(!w.tick(true, false, 2070, 60));
    assert_eq!(w.dead_since, Some(2070));
}

#[test]
fn a_worker_left_behind_counts_without_having_seen_a_master() {
    let mut w = OrphanWatch::new();
    assert!(!w.tick(true, true, 5, 10));
    assert!(w.tick(true, true, 15, 10));
}

// ── Connections ─────────────────────────────────────────────────────────────

#[test]
fn a_connection_starts_with_a_root() {
    assert!(matches!(
        first_request(Some(SearchRequest::Connect {
            base_path: "/a".into()
        })),
        FirstStep::Load { .. }
    ));
    assert!(matches!(
        first_request(Some(SearchRequest::Health)),
        FirstStep::Health
    ));
    assert!(matches!(
        first_request(Some(SearchRequest::DropRoot {
            slug: "a".into(),
            merge_into_slug: "b".into()
        })),
        FirstStep::Drop { .. }
    ));
    assert!(matches!(
        first_request(Some(SearchRequest::GetGitStatus {
            include_clean: true
        })),
        FirstStep::Close
    ));
    assert!(matches!(first_request(None), FirstStep::Close));
    assert!(matches!(load_reply(Ok(())), (SearchResponse::Ack, true)));
    assert!(matches!(
        load_reply(Err("no".into())),
        (SearchResponse::Error(_), false)
    ));
}

#[test]
fn a_root_is_named_once() {
    match next_request(Some(SearchRequest::Connect {
        base_path: "/a".into(),
    })) {
        SessionStep::ReplyAndClose(SearchResponse::Error(m)) => {
            assert_eq!(m, "unexpected Connect after handshake");
        }
        _ => panic!("expected a refusal"),
    }
    match next_request(Some(SearchRequest::DropRoot {
        slug: "a".into(),
        merge_into_slug: "b".into(),
    })) {
        SessionStep::ReplyAndClose(SearchResponse::Error(m)) => {
            assert_eq!(m, "unexpected DropRoot mid-session");
        }
        _ => panic!("expected a refusal"),
    }
    assert!(matches!(
        next_request(Some(SearchRequest::RecordAccess { path: "p".into() })),
        SessionStep::Record { .. }
    ));
    assert!(matches!(
        next_request(Some(SearchRequest::SetLogLevel {
            level: "debug".into()
        })),
        SessionStep::SetLogLevel { .. }
    ));
    assert!(matches!(
        next_request(Some(SearchRequest::ListDirectories { limit: 1 })),
        SessionStep::Dispatch(_)
    ));
    assert!(matches!(next_request(None), SessionStep::Close));
}

#[test]
fn a_single_root_engine_has_nothing_to_drop() {
    assert!(matches!(
        singleton_request(Some(SearchRequest::DropRoot {
            slug: "a".into(),
            merge_into_slug: "b".into()
        })),
        SessionStep::Acknowledge
    ));
    match dispatch_request(SearchRequest::Connect {
        base_path: "/a".into(),
    }) {
        DispatchPlan::Reply(SearchResponse::Error(m)) => {
            assert_eq!(m, "Connect is not supported in singleton mode");
        }
        _ => panic!("expected a refusal"),
    }
    assert!(matches!(
        dispatch_request(SearchRequest::Health),
        DispatchPlan::Query(IndexQuery::Health)
    ));
    assert!(matches!(log_level_reply(Ok(())), SearchResponse::Ack));
    assert!(matches!(
        log_level_reply(Err("bad".into())),
        SearchResponse::Error(_)
    ));
}

#[test]
fn a_json_connection_starts_with_connect_or_health() {
    let env = |verb: &str| RequestEnvelope::new(verb, Value::Null);
    assert!(matches!(
        first_json(Some(env(verbs::CONNECT))),
        JsonFirst::Connect(_)
    ));
    assert!(matches!(
        first_json(Some(env(verbs::HEALTH))),
        JsonFirst::Health
    ));
    let refusal = |f: JsonFirst| match f {
        JsonFirst::ReplyAndClose(e) => {
            let e = e.error.unwrap();
            (e.code, e.message)
        }
        _ => panic!("expected a refusal"),
    };
    assert_eq!(
        refusal(first_json(Some(env(verbs::GREP)))),
        (
            BAD_REQUEST.to_string(),
            "first JSON message must be 'connect' or 'health'".to_string()
        )
    );
    assert_eq!(
        refusal(first_json(None)),
        (
            BAD_REQUEST.to_string(),
            "malformed JSON envelope".to_string()
        )
    );
    let mut old = env(verbs::CONNECT);
    old.protocol_version = 9;
    assert_eq!(refusal(first_json(Some(old))).0, PROTOCOL_MISMATCH);
}

#[test]
fn a_json_connection_goes_on_after_an_unknown_verb() {
    let env = |verb: &str| RequestEnvelope::new(verb, Value::Null);
    assert!(matches!(
        next_json(Some(env(verbs::RECORD_ACCESS))),
        JsonStep::Record(_)
    ));
    assert!(matches!(
        next_json(Some(env(verbs::GREP))),
        JsonStep::Search(_, _)
    ));
    match next_json(Some(env("dance"))) {
        JsonStep::Reply(e) => assert_eq!(e.error.unwrap().message, "unknown verb 'dance'"),
        _ => panic!("expected a refusal"),
    }
    assert!(matches!(next_json(None), JsonStep::ReplyAndClose(_)));
    assert_eq!(
        recorded_path(Ok(RecordAccessParams { path: "p".into() })),
        Some("p".to_string())
    );
    assert_eq!(recorded_path(Err("bad".into())), None);
}

#[test]
fn a_json_connect_names_its_root() {
    let env = RequestEnvelope::new(verbs::CONNECT, Value::Null);
    let params = BasePathParams {
        base_path: "/a".into(),
    };
    assert_eq!(connect_root(&env, Ok(params)).unwrap(), "/a");
    let refusal = connect_root(&env, Err("missing".into())).unwrap_err();
    assert_eq!(
        refusal.error.unwrap().message,
        "invalid params for verb 'connect': missing"
    );
    assert!(connect_reply(Ok(())).is_ok());
    let refusal = connect_reply(Err("gone".into())).unwrap_err();
    assert_eq!(refusal.error.unwrap().code, INTERNAL);
}

#[test]
fn results_are_counted_by_match() {
    let m = WireGrepMatch {
        line_number: 1,
        col: 0,
        line_text: "x".into(),
        match_byte_offsets: vec![(0, 1)],
        is_definition: false,
        context_before: vec![],
        context_after: vec![],
    };
    let file = |n: usize| WireGrepFileMatches {
        path: "p".into(),
        size: 1,
        git_status: None,
        frecency_score: 0,
        matches: vec![m.clone(); n],
    };
    let resp = SearchResponse::GrepResults(WireGrepResponse {
        matches: vec![file(2), file(3)],
        total_files_searched: 2,
        total_files: 2,
        files_with_matches: 2,
        next_file_offset: 0,
        regex_fallback_error: None,
    });
    assert_eq!(result_count(&resp), Some(5));
    assert_eq!(result_count(&SearchResponse::Ack), Some(0));
    assert_eq!(result_count(&SearchResponse::Error("e".into())), Some(0));
}

#[test]
fn searches_ask_the_index_with_the_options_of_the_request() {
    let options = GrepOptions {
        mode: WireGrepMode::Regex,
        page_limit: 7,
        before_context: 2,
        ..GrepOptions::default()
    };
    match dispatch_request(SearchRequest::Grep {
        query: "fn main".into(),
        options,
    }) {
        DispatchPlan::Query(q) => {
            assert!(q.waits_for_index());
            match q {
                IndexQuery::Grep { query, options } => {
                    assert_eq!(query, "fn main");
                    assert_eq!(options.mode, GrepMode::Regex);
                    assert_eq!(options.page_limit, 7);
                    assert_eq!(options.before_context, 2);
                    assert_eq!(options.max_file_size, 10 * 1024 * 1024);
                    assert!(options.smart_case);
                }
                _ => panic!("expected a content search"),
            }
        }
        _ => panic!("expected a query"),
    }
}

#[test]
fn a_search_without_constraints_has_empty_ones() {
    let ask = |constraints: Option<String>| match dispatch_request(SearchRequest::MultiGrep {
        patterns: vec!["a".into(), "b".into()],
        constraints,
        options: GrepOptions::default(),
    }) {
        DispatchPlan::Query(IndexQuery::MultiGrep {
            patterns,
            constraints,
            options,
        }) => {
            assert_eq!(patterns, vec!["a".to_string(), "b".to_string()]);
            assert_eq!(options.mode, GrepMode::PlainText);
            constraints
        }
        _ => panic!("expected a search for several patterns"),
    };
    assert_eq!(ask(None), "");
    assert_eq!(ask(Some("*.rs".into())), "*.rs");
}

#[test]
fn a_file_search_asks_for_its_page() {
    match dispatch_request(SearchRequest::FindFiles {
        query: "main".into(),
        options: FindOptions {
            current_file: Some("src/lib.rs".into()),
            offset: 40,
            ..FindOptions::default()
        },
    }) {
        DispatchPlan::Query(q) => {
            assert!(!q.waits_for_index());
            match q {
                IndexQuery::FindFiles { query, options } => {
                    assert_eq!(query, "main");
                    assert_eq!(options.current_file.as_deref(), Some("src/lib.rs"));
                    assert_eq!(options.project_path, None);
                    assert_eq!(options.pagination.offset, 40);
                    assert_eq!(options.pagination.limit, 20);
                    assert_eq!(options.combo_boost_score_multiplier, 3);
                    assert_eq!(options.min_combo_count, 2);
                }
                _ => panic!("expected a file search"),
            }
        }
        _ => panic!("expected a query"),
    }
}

#[test]
fn one_worker_per_index_runs() {
    assert_eq!(worker_lock(true, false), WorkerLock::Created);
    assert_eq!(worker_lock(false, true), WorkerLock::TakeOver);
    assert_eq!(worker_lock(false, false), WorkerLock::AlreadyRunning);
}
