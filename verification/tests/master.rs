use fff::config::WorkerConfig;
use fff::disk::CanonicalPaths;
use fff::frontdesk::{
    collect_health, handshake_reply, health_answer, plan_json, worker_health, worker_socket_reply,
    JsonPlan, MasterPlan,
};
use fff::listing::build_list_roots;
use fff::master::{is_same_tree, subsumes, MasterState, RootRequest, RouteStep, SaveReport};
use fff::protocol::{RequestEnvelope, BAD_REQUEST, PROTOCOL_MISMATCH, PROTOCOL_VERSION};
use fff::routing::{RoutingTable, SerializableRing, WorkerEntry};
use fff::supervise::{
    lock_step, probe_list, recover, stop_poll, CrashStep, LockStep, StopPlan, StopPoll,
    RESTART_WINDOW_NS, STOP_GRACE_MS,
};
use fff::types::{HealthResponse, MasterRequest, MasterResponse, SearchResponse};
use fff::verbs;
use serde_json::Value;
use std::collections::HashMap;

fn entry(index: u32, roots: &[(&str, &str)]) -> WorkerEntry {
    let mut e = WorkerEntry::new(index, format!("worker-{index}.sock"), 1000 + index);
    for (slug, base) in roots {
        e.push_root(slug.to_string(), base.to_string());
    }
    e
}

fn state(workers: Vec<WorkerEntry>) -> MasterState {
    let mut routing = RoutingTable::new();
    let mut next = 0;
    for w in workers {
        next = next.max(w.index + 1);
        routing.workers.insert(w.index, w);
    }
    MasterState::new(
        WorkerConfig::default(),
        routing,
        next,
        HashMap::new(),
        Vec::new(),
        Vec::new(),
    )
}

fn ask(slug: &str, path: &str, tree: Option<&str>) -> RootRequest {
    RootRequest {
        slug: slug.into(),
        canonical: path.into(),
        working_tree: tree.map(|t| t.into()),
    }
}

fn serves(ms: &MasterState, worker: u32, slug: &str) -> bool {
    ms.routing
        .workers
        .get(&worker)
        .is_some_and(|e| e.contains_slug(slug))
}

#[test]
fn a_known_root_goes_to_its_worker() {
    let ms = state(vec![entry(0, &[("a", "/a")]), entry(1, &[("b", "/b")])]);
    assert!(matches!(
        ms.resolve_worker(&ask("b", "/b", None)),
        RouteStep::Routed(1)
    ));
    assert_eq!(ms.routed_worker("a"), Some(0));
    assert_eq!(ms.routed_worker("c"), None);
}

#[test]
fn a_path_inside_a_root_goes_there_within_one_tree() {
    let ms = state(vec![entry(2, &[("a", "/a")])]);
    let req = ask("sub", "/a/sub", Some("/a"));
    match ms.resolve_worker(&req) {
        RouteStep::CheckTree { worker, base_path } => {
            assert_eq!((worker, base_path.as_str()), (2, "/a"));
        }
        _ => panic!("expected a look at the working tree"),
    }
    assert!(matches!(
        ms.tree_resolved(&req, 2, &Some("/a/".into())),
        RouteStep::Routed(2)
    ));
    assert!(matches!(
        ms.tree_resolved(&req, 2, &Some("/b".into())),
        RouteStep::AskRing
    ));
    assert!(matches!(
        ms.tree_resolved(&req, 2, &None),
        RouteStep::AskRing
    ));
}

#[test]
fn trees_are_the_same_by_path() {
    assert!(is_same_tree(&None, &None));
    assert!(!is_same_tree(&None, &Some("/a".into())));
    assert!(is_same_tree(&Some("/a/".into()), &Some("/a".into())));
    assert!(!subsumes(&Some("/a/wt".into()), &Some("/a".into())));
    assert!(subsumes(&Some("/a".into()), &Some("/a".into())));
}

#[test]
fn a_new_root_is_placed_and_found_again() {
    let mut ms = state(vec![entry(0, &[("a", "/a")]), entry(1, &[])]);
    ms.idle_since.insert(1, 5);
    let req = ask("b", "/b", None);
    assert!(matches!(ms.resolve_worker(&req), RouteStep::AskRing));
    match ms.ring_answered(&req, Some(1), false) {
        RouteStep::Placed {
            worker,
            contained,
            scale_out,
        } => {
            assert_eq!(worker, 1);
            assert!(contained.is_empty());
            assert_eq!(scale_out, None);
        }
        _ => panic!("expected a placement"),
    }
    assert!(serves(&ms, 1, "b"));
    assert!(serves(&ms, 0, "a"));
    assert!(!ms.idle_since.contains_key(&1));
    assert!(matches!(ms.resolve_worker(&req), RouteStep::Routed(1)));
    // Another ring answer does not move it.
    assert!(matches!(
        ms.ring_answered(&req, Some(0), false),
        RouteStep::Routed(1)
    ));
    assert!(!serves(&ms, 0, "b"));
}

#[test]
fn an_empty_ring_is_asked_again_under_the_latch() {
    let mut ms = state(vec![]);
    let req = ask("a", "/a", None);
    assert!(matches!(
        ms.ring_answered(&req, None, false),
        RouteStep::LatchAndAskRing
    ));
    assert!(matches!(
        ms.ring_answered(&req, None, true),
        RouteStep::Spawn(0)
    ));
    assert_eq!(ms.next_index, 1);
    assert!(matches!(
        ms.spawn_finished(&req, 0, false),
        RouteStep::Refused
    ));
    ms.register_worker(
        0,
        "worker-0.sock".into(),
        Some(77),
        SerializableRing {
            nodes: vec![(1, 0)],
        },
    );
    assert!(matches!(
        ms.spawn_finished(&req, 0, true),
        RouteStep::Placed { worker: 0, .. }
    ));
    assert!(serves(&ms, 0, "a"));
    assert_eq!(ms.routing.ring_state.nodes, vec![(1, 0)]);
    assert_eq!(ms.children.get(&0), Some(&Some(77)));
    assert_eq!(ms.routing.workers[&0].pid, 77);
}

#[test]
fn a_full_worker_calls_for_another() {
    let roots: Vec<(String, String)> = (0..7).map(|i| (format!("s{i}"), format!("/s{i}"))).collect();
    let refs: Vec<(&str, &str)> = roots.iter().map(|(a, b)| (a.as_str(), b.as_str())).collect();
    let mut ms = state(vec![entry(0, &refs)]);
    match ms.ring_answered(&ask("s7", "/s7", None), Some(0), false) {
        RouteStep::Placed { scale_out, .. } => assert_eq!(scale_out, Some(1)),
        _ => panic!("expected a placement"),
    }
    assert_eq!(ms.next_index, 2);
    assert_eq!(ms.routing.entries_for_worker(0), 8);
}

#[test]
fn there_are_never_more_workers_than_allowed() {
    let mut ms = state(vec![entry(0, &[]), entry(1, &[]), entry(2, &[]), entry(3, &[])]);
    ms.config.roots_per_worker_max = 1;
    match ms.ring_answered(&ask("a", "/a", None), Some(0), false) {
        RouteStep::Placed { scale_out, .. } => assert_eq!(scale_out, None),
        _ => panic!("expected a placement"),
    }
}

#[test]
fn a_parent_learns_of_the_roots_it_contains() {
    let mut ms = state(vec![
        entry(0, &[("child", "/p/child"), ("old", "")]),
        entry(1, &[("q", "/q")]),
    ]);
    match ms.ring_answered(&ask("p", "/p", None), Some(1), false) {
        RouteStep::Placed { contained, .. } => {
            assert_eq!(
                contained,
                vec![(0, "child".to_string(), "/p/child".to_string())]
            );
        }
        _ => panic!("expected a placement"),
    }
}

#[test]
fn an_evicted_root_is_served_by_nobody() {
    let mut ms = state(vec![entry(0, &[("a", "/a"), ("b", "/b")]), entry(1, &[("c", "/c")])]);
    ms.handle_evicted_root("c", 42);
    assert_eq!(ms.routed_worker("c"), None);
    assert!(serves(&ms, 0, "a") && serves(&ms, 0, "b"));
    assert_eq!(ms.idle_since.get(&1), Some(&42));
    assert_eq!(ms.idle_since.get(&0), None);
    // The idle time runs from the first eviction.
    ms.handle_evicted_root("c", 43);
    assert_eq!(ms.idle_since.get(&1), Some(&42));
}

#[test]
fn failed_writes_are_counted() {
    let mut ms = state(vec![]);
    assert!(matches!(ms.persist_routing(false), SaveReport::Warn(1)));
    assert!(matches!(ms.persist_routing(false), SaveReport::Warn(2)));
    assert!(matches!(ms.persist_routing(false), SaveReport::Alarm(3)));
    assert!(matches!(ms.persist_routing(true), SaveReport::Saved));
    assert!(matches!(ms.persist_routing(false), SaveReport::Warn(1)));
}

#[test]
fn enough_workers_are_kept() {
    let mut ms = state(vec![entry(4, &[])]);
    assert_eq!(ms.ensure_min_workers(1), None);
    assert_eq!(ms.ensure_min_workers(2), Some(5));
    assert_eq!(ms.alloc_index(), 6);
    assert_eq!(ms.next_index, 7);
}

// ── Supervision ─────────────────────────────────────────────────────────────

#[test]
fn one_master_holds_the_lock() {
    assert_eq!(lock_step(true, false, false), LockStep::Acquired);
    assert_eq!(lock_step(false, false, false), LockStep::AlreadyRunning);
    assert_eq!(lock_step(false, true, false), LockStep::RemoveStaleAndRetry);
    assert_eq!(lock_step(false, true, true), LockStep::Refused);
}

#[test]
fn a_restart_keeps_the_living() {
    let ms = state(vec![entry(0, &[("a", "/a")]), entry(2, &[]), entry(5, &[])]);
    let mut probes = probe_list(&ms.routing);
    probes.sort();
    assert_eq!(probes, vec![(0, 1000), (2, 1002), (5, 1005)]);
    let r = recover(ms.routing, &vec![0, 2]);
    assert_eq!(r.routing.worker_count(), 2);
    assert!(r.routing.workers[&0].contains_slug("a"));
    assert_eq!(r.adopted.get(&2), Some(&1002));
    assert_eq!(r.dead, vec![5]);
    assert_eq!(r.next_index, 6);
    assert_eq!(recover(RoutingTable::new(), &vec![]).next_index, 0);
}

#[test]
fn a_worker_is_restarted_three_times_per_window() {
    let mut ms = state(vec![entry(0, &[("a", "/a")])]);
    let second: u64 = 1_000_000_000;
    for (i, backoff_ms) in [100u64, 200, 400].into_iter().enumerate() {
        let attempt = i as u32 + 1;
        assert_eq!(
            ms.worker_crashed(0, second * i as u64),
            CrashStep::Respawn {
                attempt,
                backoff_ms
            }
        );
        assert!(serves(&ms, 0, "a"));
    }
    assert_eq!(ms.worker_crashed(0, second * 4), CrashStep::Remove);
    assert_eq!(ms.routing.worker_count(), 0);
}

#[test]
fn a_new_window_counts_afresh() {
    let mut ms = state(vec![entry(0, &[])]);
    for t in 0..3 {
        ms.worker_crashed(0, t);
    }
    assert_eq!(
        ms.worker_crashed(0, RESTART_WINDOW_NS + 1),
        CrashStep::Respawn {
            attempt: 1,
            backoff_ms: 100
        }
    );
}

#[test]
fn only_own_workers_are_killed() {
    let mut ms = state(vec![entry(0, &[]), entry(1, &[]), entry(2, &[])]);
    ms.children.insert(0, Some(50));
    ms.children.insert(2, None);
    ms.adopted_pids.insert(1, 60);
    assert_eq!(
        ms.stop_plan(0),
        StopPlan::Terminate {
            pid: 50,
            escalate: true
        }
    );
    assert_eq!(
        ms.stop_plan(1),
        StopPlan::Terminate {
            pid: 60,
            escalate: false
        }
    );
    assert_eq!(ms.stop_plan(2), StopPlan::Nothing);
    assert_eq!(ms.stop_plan(9), StopPlan::Nothing);
    assert_eq!(ms.shutdown_pids(), vec![50, 60]);
    ms.worker_stopped(0, SerializableRing { nodes: vec![] });
    assert_eq!(ms.stop_plan(0), StopPlan::Nothing);
    assert_eq!(ms.routing.worker_count(), 2);
    ms.adopted_died(1);
    assert_eq!(ms.stop_plan(1), StopPlan::Nothing);
    ms.respawn_failed(2);
    assert_eq!(ms.routing.worker_count(), 0);
}

#[test]
fn a_stopping_worker_has_its_grace() {
    assert_eq!(stop_poll(0, false), StopPoll::Gone);
    assert_eq!(stop_poll(STOP_GRACE_MS - 1, true), StopPoll::WaitMore);
    assert_eq!(stop_poll(STOP_GRACE_MS, true), StopPoll::Kill);
}

#[test]
fn workers_without_roots_end_after_their_time() {
    let mut ms = state(vec![entry(0, &[("a", "/a")]), entry(1, &[]), entry(2, &[])]);
    ms.idle_since.insert(0, 0);
    ms.idle_since.insert(2, 10);
    assert_eq!(ms.idle_workers(110, 100), vec![2]);
    assert_eq!(ms.idle_since.get(&0), None);
    assert_eq!(ms.idle_since.get(&1), Some(&110));
    ms.idle_worker_stopped(2);
    assert_eq!(ms.idle_since.get(&2), None);
}

// ── Requests ────────────────────────────────────────────────────────────────

const ROOT: &str = "/tmp/fff-dual-read-test-root";

fn state_with_root() -> MasterState {
    state(vec![entry(0, &[("root", ROOT)])])
}

#[test]
fn json_handshake_returns_handshake_result() {
    let ms = state_with_root();
    let env = RequestEnvelope::new(verbs::HANDSHAKE, Value::Null);
    assert!(matches!(plan_json(Ok(env)), JsonPlan::Handshake(_)));
    match ms.resolve_worker(&ask("root", ROOT, None)) {
        RouteStep::Routed(0) => {}
        _ => panic!("expected worker 0"),
    }
    let result = handshake_reply(Some(("worker-0.sock".into(), 0))).unwrap();
    assert_eq!(result.worker_index, 0);
    assert_eq!(result.worker_socket, "worker-0.sock");
}

#[test]
fn json_handshake_version_mismatch_refuses_loud() {
    let mut env = RequestEnvelope::new(verbs::HANDSHAKE, Value::Null);
    env.protocol_version = PROTOCOL_VERSION + 1;
    let resp = match plan_json(Ok(env)) {
        JsonPlan::Reply(resp) => resp,
        _ => panic!("expected a refusal"),
    };
    assert!(!resp.ok);
    assert!(
        resp.result.is_none(),
        "must not return a worker socket on skew"
    );
    let err = resp.error.unwrap();
    assert_eq!(err.code, PROTOCOL_MISMATCH);
    assert_eq!(err.engine_version, Some(PROTOCOL_VERSION));
    assert_eq!(err.client_version, Some(PROTOCOL_VERSION + 1));
}

#[test]
fn json_health_returns_health_report() {
    let env = RequestEnvelope::new(verbs::HEALTH, Value::Null);
    assert!(matches!(plan_json(Ok(env)), JsonPlan::Health));
    assert!(state(vec![]).health_targets().is_empty());
    let report = collect_health(77, 3, vec![]);
    assert_eq!((report.master_pid, report.uptime_sec), (77, 3));
    assert!(report.workers.is_empty());
}

#[test]
fn json_unknown_verb_is_bad_request() {
    let env = RequestEnvelope::new("not_a_real_verb", Value::Null);
    let resp = match plan_json(Ok(env)) {
        JsonPlan::Reply(resp) => resp,
        _ => panic!("expected a refusal"),
    };
    assert!(!resp.ok);
    let err = resp.error.unwrap();
    assert_eq!(err.code, BAD_REQUEST);
    assert!(err.message.contains("unsupported master verb"));
    assert!(err.message.contains("not_a_real_verb"));
}

#[test]
fn json_list_roots_returns_live_base_path() {
    let env = RequestEnvelope::new(verbs::LIST_ROOTS, Value::Null);
    assert!(matches!(plan_json(Ok(env)), JsonPlan::ListRoots));
    let ms = state_with_root();
    let roots = build_list_roots(&ms.configured_roots, &ms.live_paths(), &CanonicalPaths::new());
    assert_eq!(roots.len(), 1);
    assert_eq!(roots[0].name, None);
    assert!(!roots[0].default);
    assert_eq!(roots[0].base_path, ROOT);
}

#[test]
fn an_unreadable_envelope_is_a_bad_request() {
    match plan_json(Err("eof".into())) {
        JsonPlan::Reply(resp) => {
            let err = resp.error.unwrap();
            assert_eq!(err.code, BAD_REQUEST);
            assert_eq!(err.message, "malformed request envelope: eof");
        }
        _ => panic!("expected a refusal"),
    }
}

#[test]
fn without_a_worker_a_handshake_is_refused() {
    match worker_socket_reply(None) {
        MasterResponse::Error(m) => assert_eq!(m, "no workers available"),
        _ => panic!("expected an error"),
    }
    let refusal = handshake_reply(None).unwrap_err();
    assert_eq!(refusal.error.unwrap().message, "no workers available");
    assert!(matches!(
        worker_socket_reply(Some(("w".into(), 3))),
        MasterResponse::WorkerSocket {
            worker_index: 3,
            ..
        }
    ));
}

#[test]
fn each_binary_request_has_its_plan() {
    let ms = state_with_root();
    assert!(matches!(
        ms.plan_request(MasterRequest::Handshake {
            base_path: ROOT.into()
        }),
        MasterPlan::Resolve { .. }
    ));
    assert!(matches!(
        ms.plan_request(MasterRequest::RouteInfo {
            base_path: ROOT.into()
        }),
        MasterPlan::RouteInfo { .. }
    ));
    match ms.plan_request(MasterRequest::ListWorkers) {
        MasterPlan::Reply(MasterResponse::WorkerList { workers }) => {
            assert_eq!(workers.len(), 1);
            assert_eq!(workers[0].root_count(), 1);
            assert_eq!(workers[0].roots[0].base_path, ROOT);
        }
        _ => panic!("expected a list"),
    }
    match ms.plan_request(MasterRequest::WorkerStatus { index: 4 }) {
        MasterPlan::Reply(MasterResponse::Error(m)) => assert_eq!(m, "worker-4 not found"),
        _ => panic!("expected an error"),
    }
    assert!(matches!(
        ms.plan_request(MasterRequest::StopWorker { index: 4 }),
        MasterPlan::Stop { index: 4 }
    ));
    assert!(matches!(
        ms.plan_request(MasterRequest::EvictedRoot { slug: "s".into() }),
        MasterPlan::Evict { .. }
    ));
    assert!(matches!(
        ms.plan_request(MasterRequest::Health),
        MasterPlan::CollectHealth
    ));
    match ms.route_info_reply(Some(0)) {
        MasterResponse::WorkerInfo(info) => assert_eq!((info.index, info.pid), (0, 1000)),
        _ => panic!("expected a worker"),
    }
    match ms.route_info_reply(None) {
        MasterResponse::Error(m) => assert_eq!(m, "ring is empty"),
        _ => panic!("expected an error"),
    }
}

#[test]
fn a_health_report_lists_workers_in_order() {
    let part = |i: u32| worker_health(i, 10 + i, format!("w{i}"), Err("down".into()));
    let report = collect_health(1, 2, vec![part(3), part(0), part(2)]);
    let seen: Vec<u32> = report.workers.iter().map(|w| w.index).collect();
    assert_eq!(seen, vec![0, 2, 3]);
    assert!(report.workers[0].roots.is_empty());
    assert!(health_answer(SearchResponse::Health(HealthResponse { roots: vec![] }), "").is_ok());
    assert_eq!(
        health_answer(SearchResponse::Error("no".into()), "").unwrap_err(),
        "no"
    );
    assert_eq!(
        health_answer(SearchResponse::Ack, "Ack").unwrap_err(),
        "unexpected response: Ack"
    );
}

#[test]
fn the_last_workers_stay() {
    let mut ms = state(vec![entry(0, &[])]);
    ms.idle_since.insert(0, 0);
    assert_eq!(ms.idle_workers(1000, 100), Vec::<u32>::new());
    let mut ms = state(vec![entry(0, &[]), entry(1, &[]), entry(2, &[])]);
    for i in 0..3 {
        ms.idle_since.insert(i, 0);
    }
    ms.config.n_min = 2;
    assert_eq!(ms.idle_workers(1000, 100).len(), 1);
    ms.config.n_min = 0;
    assert_eq!(ms.idle_workers(1000, 100).len(), 3);
}

#[test]
fn the_status_names_the_worker_that_serves() {
    let ms = state(vec![entry(0, &[]), entry(1, &[("p", "/p")]), entry(2, &[])]);
    let index = |resp: MasterResponse| match resp {
        MasterResponse::WorkerInfo(info) => info.index,
        _ => panic!("expected a worker"),
    };
    let tree = Some("/p".to_string());
    // A route counts before the ring.
    let resp = ms.route_info(&ask("p", "/p", Some("/p")), &None, Some(0));
    assert_eq!(index(resp), 1);
    // So does a root around it, in the same working tree.
    let inner = ask("q", "/p/q", Some("/p"));
    assert_eq!(index(ms.route_info(&inner, &tree, Some(2))), 1);
    // In another working tree, or outside of every root, the ring decides.
    let other = ask("q", "/p/q", Some("/p/q"));
    assert_eq!(index(ms.route_info(&other, &tree, Some(2))), 2);
    let outside = ask("x", "/x", None);
    assert_eq!(index(ms.route_info(&outside, &None, Some(0))), 0);
    match ms.route_info(&outside, &None, None) {
        MasterResponse::Error(m) => assert_eq!(m, "ring is empty"),
        _ => panic!("expected an error"),
    }
}

#[test]
fn a_new_index_is_taken_for_a_full_worker_only() {
    let mut ms = state(vec![entry(0, &[("a", "/a")])]);
    assert!(!ms.needs_index(&ask("b", "/b", None), 0));
    ms.config.roots_per_worker_max = 2;
    assert!(ms.needs_index(&ask("b", "/b", None), 0));
    assert!(!ms.needs_index(&ask("a", "/a", None), 0));
    assert!(!ms.needs_index(&ask("b", "/b", None), 9));
    ms.config.n_max = 1;
    assert!(!ms.needs_index(&ask("b", "/b", None), 0));
}
