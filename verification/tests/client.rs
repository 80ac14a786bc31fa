use fff::client::{
    check_health, check_worker_socket, connect_ack, connect_step, ensure_master_running,
    find_engine_bin, handshake_result_from_envelope, search_with_recovery, ConnectStep,
    EnsureAction, EnsureEvent, HealthProbe, HealthStatus, RecoveryAction, RecoveryEvent,
    QUERY_READ_TIMEOUT_SECS,
};
use fff::disk::CanonicalPaths;
use fff::handlers::GREP_READINESS_TIMEOUT_MS;
use fff::pool::{
    canonicalize_key, is_connection_error, search_with_retry, ConnectionPool, RetryAction,
    RetryEvent,
};
use fff::protocol::{
    HandshakeResult, ResponseEnvelope, ResponseError, PROTOCOL_MISMATCH, PROTOCOL_VERSION,
};
use fff::types::{
    FindOptions, GrepOptions, HealthResponse, MasterResponse, SearchRequest, SearchResponse,
    WireDirEntry, WireGitFile, WireGrepResponse, WireSearchResult, WorkerInfo,
};
use fff::verbs;
use fff::wire::{
    envelope_to_request, params_kind, responseenvelope_to_searchresponse, result_kind,
    searchrequest_to_envelope, searchresponse_to_wire, VerbParams, WireResult,
};
use fff::codec::IpcError;
use fff::protocol::RequestEnvelope;
use serde_json::Value;
use std::time::Duration;

#[test]
fn query_read_timeout_exceeds_engine_cold_start_wait() {
    // Queries wait for the first scan up to GREP_READINESS_TIMEOUT (30s). The
    // client query read timeout must exceed it or slow cold-start queries fail.
    assert!(Duration::from_secs(QUERY_READ_TIMEOUT_SECS) >= Duration::from_secs(30));
    assert!(
        Duration::from_secs(QUERY_READ_TIMEOUT_SECS)
            > Duration::from_millis(GREP_READINESS_TIMEOUT_MS)
    );
}

fn ok_envelope() -> ResponseEnvelope {
    ResponseEnvelope {
        protocol_version: PROTOCOL_VERSION,
        ok: true,
        result: Some(Value::Null),
        error: None,
    }
}

fn error_envelope_with(code: &str, message: &str) -> ResponseEnvelope {
    ResponseEnvelope {
        protocol_version: PROTOCOL_VERSION,
        ok: false,
        result: None,
        error: Some(ResponseError {
            code: code.into(),
            message: message.into(),
            engine_version: None,
            client_version: None,
        }),
    }
}

fn file(path: &str) -> WireSearchResult {
    WireSearchResult {
        path: path.into(),
        score: 100,
        git_status: Some(0),
        frecency_score: 100,
    }
}

fn grep_page(total_files: usize) -> WireGrepResponse {
    WireGrepResponse {
        matches: vec![],
        total_files_searched: 7,
        total_files,
        files_with_matches: 0,
        next_file_offset: 0,
        regex_fallback_error: None,
    }
}

#[test]
fn find_files_response_decodes_to_search_results() {
    let decoded = Ok(WireResult::Files(vec![file("src/main.rs")]));
    match responseenvelope_to_searchresponse(verbs::FIND_FILES, ok_envelope(), decoded) {
        SearchResponse::SearchResults(v) => {
            assert_eq!(v.len(), 1);
            assert_eq!(v[0].path, "src/main.rs");
        }
        other => panic!("expected SearchResults, got {other:?}"),
    }
}

#[test]
fn grep_response_decodes_to_grep_results() {
    let decoded = Ok(WireResult::Grep(grep_page(9)));
    match responseenvelope_to_searchresponse(verbs::GREP, ok_envelope(), decoded) {
        SearchResponse::GrepResults(w) => assert_eq!(w.total_files, 9),
        other => panic!("expected GrepResults, got {other:?}"),
    }
}

#[test]
fn grep_request_maps_to_grep_verb_and_params() {
    let req = SearchRequest::Grep {
        query: "needle".into(),
        options: GrepOptions::default(),
    };
    let env = searchrequest_to_envelope(req, "").unwrap();
    assert_eq!(env.verb, verbs::GREP);
    match env.params {
        VerbParams::Grep(params) => assert_eq!(params.query, "needle"),
        _ => panic!("expected grep parameters"),
    }
}

fn same_request(a: &SearchRequest, b: &SearchRequest) -> bool {
    format!("{a:?}") == format!("{b:?}")
}

#[test]
fn searches_survive_the_wire() {
    let searches = [
        SearchRequest::Grep {
            query: "q".into(),
            options: GrepOptions::default(),
        },
        SearchRequest::FindFiles {
            query: "q".into(),
            options: FindOptions::default(),
        },
        SearchRequest::MultiGrep {
            patterns: vec!["a".into(), "b".into()],
            constraints: Some("*.rs".into()),
            options: GrepOptions::default(),
        },
        SearchRequest::ListRecentFiles {
            limit: 3,
            dirty_only: true,
        },
        SearchRequest::GetGitStatus {
            include_clean: false,
        },
        SearchRequest::ListDirectories { limit: 4 },
    ];
    for req in searches {
        let out = searchrequest_to_envelope(req.clone(), "").unwrap();
        assert!(params_kind(out.verb).is_some());
        let env = RequestEnvelope::new(out.verb, Value::Null);
        match envelope_to_request(&env, Ok(out.params)) {
            Ok(back) => assert!(same_request(&req, &back)),
            Err(e) => panic!("refused: {e:?}"),
        }
    }
}

#[test]
fn other_requests_have_no_verb() {
    let req = SearchRequest::RecordAccess { path: "p".into() };
    match searchrequest_to_envelope(req, "RecordAccess") {
        Err(IpcError::Protocol(m)) => assert_eq!(
            m,
            "request not supported on the JSON search path: RecordAccess"
        ),
        _ => panic!("expected a protocol error"),
    }
    let env = RequestEnvelope::new("dance", Value::Null);
    match envelope_to_request(&env, Ok(VerbParams::Empty)) {
        Err(e) => assert_eq!(e.error.unwrap().message, "unknown verb 'dance'"),
        Ok(_) => panic!("expected a refusal"),
    }
}

#[test]
fn results_survive_the_wire() {
    let cases = [
        (verbs::GREP, SearchResponse::GrepResults(grep_page(1))),
        (verbs::MULTI_GREP, SearchResponse::GrepResults(grep_page(2))),
        (
            verbs::FIND_FILES,
            SearchResponse::SearchResults(vec![file("a")]),
        ),
        (
            verbs::LIST_RECENT_FILES,
            SearchResponse::RecentFiles(vec![file("b")]),
        ),
        (
            verbs::GET_GIT_STATUS,
            SearchResponse::GitStatus(vec![WireGitFile {
                path: "c".into(),
                status: "modified".into(),
                frecency_score: 1,
            }]),
        ),
        (
            verbs::LIST_DIRECTORIES,
            SearchResponse::Directories(vec![WireDirEntry {
                path: "d".into(),
                max_frecency: 2,
            }]),
        ),
        (
            verbs::HEALTH,
            SearchResponse::Health(HealthResponse { roots: vec![] }),
        ),
    ];
    for (verb, resp) in cases {
        assert!(result_kind(verb).is_some());
        let sent = format!("{resp:?}");
        let wire = match searchresponse_to_wire(resp) {
            Ok(w) => w,
            Err(_) => panic!("no result for {verb}"),
        };
        let back = responseenvelope_to_searchresponse(verb, ok_envelope(), Ok(wire));
        assert_eq!(format!("{back:?}"), sent);
    }
}

#[test]
fn failures_reach_the_caller_as_errors() {
    match searchresponse_to_wire(SearchResponse::Error("boom".into())) {
        Err(e) => assert_eq!((e.code.as_str(), e.message.as_str()), ("INTERNAL", "boom")),
        Ok(_) => panic!("an error carries no result"),
    }
    let refused = error_envelope_with("INTERNAL", "boom");
    match responseenvelope_to_searchresponse(verbs::GREP, refused, Err(String::new())) {
        SearchResponse::Error(m) => assert!(m.contains("boom")),
        other => panic!("expected Error, got {other:?}"),
    }
}

#[test]
fn handshake_mismatch_fails_loud() {
    let env = ResponseEnvelope {
        protocol_version: PROTOCOL_VERSION + 1,
        ok: false,
        result: None,
        error: Some(ResponseError {
            code: PROTOCOL_MISMATCH.to_string(),
            message: "engine speaks 2, client sent 1".into(),
            engine_version: Some(PROTOCOL_VERSION + 1),
            client_version: Some(PROTOCOL_VERSION),
        }),
    };
    let msg = handshake_result_from_envelope(env, Err(String::new())).unwrap_err();
    assert!(
        msg.contains("protocol mismatch"),
        "mismatch must be explicit, got: {msg}"
    );
    assert_eq!(
        msg,
        "fff-engine protocol mismatch (engine Some(2), client Some(1)): engine speaks 2, client sent 1"
    );
}

fn handshake() -> HandshakeResult {
    HandshakeResult {
        worker_socket: "/run/fff/worker-0.sock".into(),
        worker_index: 0,
    }
}

#[test]
fn each_handshake_answer_has_its_outcome() {
    let refused = error_envelope_with("INTERNAL", "no worker");
    assert_eq!(
        handshake_result_from_envelope(refused, Ok(handshake())).unwrap_err(),
        "master handshake error [INTERNAL]: no worker"
    );
    let mut bare = error_envelope_with("INTERNAL", "");
    bare.error = None;
    assert_eq!(
        handshake_result_from_envelope(bare, Ok(handshake())).unwrap_err(),
        "master handshake failed without an error body"
    );
    let mut empty = ok_envelope();
    empty.result = None;
    assert_eq!(
        handshake_result_from_envelope(empty, Ok(handshake())).unwrap_err(),
        "master handshake ok response missing result"
    );
    assert_eq!(
        handshake_result_from_envelope(ok_envelope(), Err("bad".into())).unwrap_err(),
        "malformed handshake result: bad"
    );
    let mut skewed = ok_envelope();
    skewed.protocol_version = 2;
    assert_eq!(
        handshake_result_from_envelope(skewed, Ok(handshake())).unwrap_err(),
        "fff-engine protocol mismatch (engine Some(2), client Some(1)): handshake answered in another version"
    );
    let ok = handshake_result_from_envelope(ok_envelope(), Ok(handshake())).unwrap();
    assert_eq!(ok.worker_socket, "/run/fff/worker-0.sock");
}

#[test]
fn a_worker_socket_must_be_the_expected_one() {
    let good = check_worker_socket(handshake(), "/run//fff/worker-0.sock", "x", "y").unwrap();
    assert_eq!(good, "/run/fff/worker-0.sock");
    assert_eq!(
        check_worker_socket(handshake(), "/run/fff/worker-1.sock", "a", "b").unwrap_err(),
        "master returned unexpected worker socket path: a (expected b)"
    );
}

#[test]
fn a_rejected_connect_tells_why() {
    assert!(connect_ack(ok_envelope()).is_ok());
    assert_eq!(
        connect_ack(error_envelope_with("INTERNAL", "no such root")).unwrap_err(),
        "worker Connect rejected: no such root"
    );
    let mut bare = error_envelope_with("INTERNAL", "");
    bare.error = None;
    assert_eq!(
        connect_ack(bare).unwrap_err(),
        "worker Connect rejected: worker Connect rejected"
    );
}

#[test]
fn without_a_master_the_roots_own_engine_serves() {
    assert!(matches!(connect_step(Ok(()), true), ConnectStep::Handshake));
    assert!(matches!(
        connect_step(Err("e".into()), true),
        ConnectStep::Legacy
    ));
    match connect_step(Err("e".into()), false) {
        ConnectStep::Fail(m) => assert_eq!(m, "e"),
        _ => panic!("expected a failure"),
    }
}

#[test]
fn one_client_starts_the_master() {
    let step = |e| ensure_master_running(e, "/bin/fff-engine");
    let socket = |exists, ours, accepts| EnsureEvent::Socket {
        exists,
        ours,
        accepts,
    };
    assert!(matches!(step(socket(true, true, true)), EnsureAction::Ready));
    assert!(matches!(
        step(socket(true, false, true)),
        EnsureAction::CheckLock
    ));
    assert!(matches!(
        step(EnsureEvent::Lock {
            exists: true,
            stale: false
        }),
        EnsureAction::Wait
    ));
    assert!(matches!(
        step(EnsureEvent::Lock {
            exists: true,
            stale: true
        }),
        EnsureAction::TakeLock { remove_stale: true }
    ));
    assert!(matches!(
        step(EnsureEvent::Lock {
            exists: false,
            stale: false
        }),
        EnsureAction::TakeLock {
            remove_stale: false
        }
    ));
    assert!(matches!(
        step(EnsureEvent::Race { won: true }),
        EnsureAction::Start
    ));
    assert!(matches!(
        step(EnsureEvent::Race { won: false }),
        EnsureAction::Wait
    ));
    assert!(matches!(
        step(EnsureEvent::Started(Ok(()))),
        EnsureAction::Wait
    ));
    match step(EnsureEvent::Started(Err("not found".into()))) {
        EnsureAction::Fail(m) => assert_eq!(
            m,
            "failed to start fff-engine --master (/bin/fff-engine): not found"
        ),
        _ => panic!("expected a failure"),
    }
    assert!(matches!(
        step(EnsureEvent::Waited(Ok(()))),
        EnsureAction::Ready
    ));
    assert!(matches!(
        step(EnsureEvent::Waited(Err("late".into()))),
        EnsureAction::Fail(_)
    ));
}

#[test]
fn a_failed_search_is_sent_once_more() {
    assert!(matches!(
        search_with_recovery(RecoveryEvent::First(Ok(SearchResponse::Ack))),
        RecoveryAction::Return(SearchResponse::Ack)
    ));
    assert!(matches!(
        search_with_recovery(RecoveryEvent::First(Err("io".into()))),
        RecoveryAction::Respawn
    ));
    assert!(matches!(
        search_with_recovery(RecoveryEvent::Respawned(Ok(()))),
        RecoveryAction::SearchAgain
    ));
    for (event, text) in [
        (
            RecoveryEvent::Respawned(Err("x".into())),
            "fff-engine recovery failed: x",
        ),
        (
            RecoveryEvent::Second(Err("x".into())),
            "fff-engine unavailable after recovery: x",
        ),
    ] {
        match search_with_recovery(event) {
            RecoveryAction::Return(resp) => {
                assert!(is_connection_error(&resp));
                match resp {
                    SearchResponse::Error(m) => assert_eq!(m, text),
                    other => panic!("expected Error, got {other:?}"),
                }
            }
            _ => panic!("expected an answer"),
        }
    }
}

#[test]
fn health_is_told_from_what_answers() {
    let info = WorkerInfo {
        index: 0,
        socket_path: "s".into(),
        roots: vec![],
        pid: 1,
    };
    assert!(matches!(
        check_health(HealthProbe::Answered(Some(MasterResponse::WorkerInfo(info)))),
        HealthStatus::Healthy
    ));
    assert!(matches!(
        check_health(HealthProbe::Answered(Some(MasterResponse::Error(
            "none".into()
        )))),
        HealthStatus::Healthy
    ));
    for (probe, text) in [
        (HealthProbe::CloneFailed, "clone failed"),
        (HealthProbe::SendFailed, "send failed"),
        (HealthProbe::Answered(None), "unexpected response"),
        (
            HealthProbe::NoMaster {
                master: "/m".into(),
                legacy: Some(Err("refused".into())),
            },
            "refused",
        ),
    ] {
        match check_health(probe) {
            HealthStatus::ConnRefused(m) => assert_eq!(m, text),
            other => panic!("expected ConnRefused, got {other:?}"),
        }
    }
    match check_health(HealthProbe::NoMaster {
        master: "/m".into(),
        legacy: None,
    }) {
        HealthStatus::NotStarted(p) => assert_eq!(p, "/m"),
        other => panic!("expected NotStarted, got {other:?}"),
    }
}

#[test]
fn the_engine_is_looked_for_next_to_the_program() {
    let dirs = vec![("/t/deps".to_string(), false), ("/t".to_string(), true)];
    assert_eq!(find_engine_bin(&dirs), "/t/fff-engine");
    assert_eq!(find_engine_bin(&vec![]), "fff-engine");
}

// ── Pool ────────────────────────────────────────────────────────────────────

#[test]
fn canonicalize_key_falls_back_when_path_missing() {
    let missing = "/this/path/does/not/exist/at/all";
    let key = canonicalize_key(missing, &CanonicalPaths::new());
    assert_eq!(key, missing);
}

#[test]
fn canonicalize_key_resolves_existing_path() {
    let tmp = tempfile::tempdir().expect("tempdir");
    let real = tmp.path().canonicalize().expect("canonicalize tempdir");
    let raw = tmp.path().to_str().unwrap();
    let mut disk = CanonicalPaths::new();
    disk.record(raw, real.to_str().unwrap());
    assert_eq!(canonicalize_key(raw, &disk), real.to_str().unwrap());
}

#[test]
fn invalidate_drops_only_named_entry() {
    let disk = CanonicalPaths::new();
    let mut pool: ConnectionPool<u32> = ConnectionPool::new();
    pool.insert("/repo/a", 1, &disk);
    pool.insert("/repo/b", 2, &disk);
    assert_eq!(pool.len(), 2);

    pool.invalidate("/repo/a", &disk);
    assert_eq!(pool.len(), 1);
    assert!(pool.lookup("/repo/b").is_some());
    assert!(pool.lookup("/repo/a").is_none());
}

#[test]
fn insert_caches_per_canonicalized_key() {
    let tmp = tempfile::tempdir().expect("tempdir");
    let canon = tmp.path().canonicalize().expect("canonicalize");
    let raw = tmp.path().join(".");
    let raw = raw.to_str().unwrap();
    let canon = canon.to_str().unwrap();
    let mut disk = CanonicalPaths::new();
    disk.record(raw, canon);
    disk.record(canon, canon);
    let mut pool: ConnectionPool<u32> = ConnectionPool::new();
    pool.insert(raw, 1, &disk);

    assert!(pool.lookup(canon).is_some(), "canonical lookup must hit");
    assert_eq!(pool.len(), 1);
    pool.insert(canon, 2, &disk);
    assert_eq!(pool.len(), 1);
    assert_eq!(pool.lookup(canon), Some(&2));
}

#[test]
fn is_connection_error_classifies_ipc_messages() {
    assert!(is_connection_error(&SearchResponse::Error(
        "IPC error: broken pipe".into()
    )));
    assert!(is_connection_error(&SearchResponse::Error(
        "fff-engine unavailable after recovery".into()
    )));
    assert!(!is_connection_error(&SearchResponse::Error(
        "no such file".into()
    )));
    assert!(!is_connection_error(&SearchResponse::Ack));
}

#[test]
fn a_lost_connection_is_replaced_once() {
    let lost = || SearchResponse::Error("Connection reset".into());
    assert!(matches!(
        search_with_retry(RetryEvent::Connected(Ok(())), false),
        RetryAction::Call
    ));
    assert!(matches!(
        search_with_retry(RetryEvent::Answered(lost()), false),
        RetryAction::Reconnect
    ));
    assert!(matches!(
        search_with_retry(RetryEvent::Answered(lost()), true),
        RetryAction::Return(SearchResponse::Error(_))
    ));
    assert!(matches!(
        search_with_retry(RetryEvent::Answered(SearchResponse::Ack), false),
        RetryAction::Return(SearchResponse::Ack)
    ));
}
