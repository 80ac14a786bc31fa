use fff::ctl::{
    cmd_list, cmd_list_workers, cmd_paths, cmd_status, cmd_worker_status, listed_workers, Daemon,
    JsonDoc, LegacyLock, Line, PathsInfo, Report, StatusQuery,
};
use fff::ctl_clean::{
    cmd_clean, discover_daemons, frecency_dirs, owner_slug, CleanScan, FrecencyDir, LockFile,
    LockInfo, OwnedFile,
};
use fff::ctl_stop::{
    cmd_stop, live_daemons, stop_daemon, ExitAction, ExitEvent, OneStop, StopAction, StopEvent,
    StopResult,
};
use fff::routing::{RootEntry, RoutingTable, WorkerEntry};
use fff::types::{MasterResponse, WorkerInfo};

fn worker(index: u32, pid: u32, roots: &[(&str, &str)]) -> WorkerInfo {
    WorkerInfo {
        index,
        socket_path: format!("/tmp/fff/worker-{index}.sock"),
        roots: roots
            .iter()
            .map(|(slug, base)| RootEntry {
                slug: slug.to_string(),
                base_path: base.to_string(),
            })
            .collect(),
        pid,
    }
}

fn daemon(slug: &str, pid: u32, alive: bool, base: Option<&str>) -> Daemon {
    Daemon {
        slug: slug.into(),
        pid,
        alive,
        base_path: base.map(|b| b.into()),
        lockfile_path: format!("/c/locks/{slug}.lock"),
    }
}

// Lines for the error stream start with an exclamation mark.
fn lines(r: &Report) -> Vec<String> {
    assert!(r.doc.is_none());
    r.lines
        .iter()
        .map(|l| match l {
            Line::Stdout(s) => s.clone(),
            Line::Stderr(s) => format!("!{s}"),
        })
        .collect()
}

fn doc(r: Report) -> JsonDoc {
    assert!(r.lines.is_empty());
    r.doc.unwrap()
}

fn error_doc(r: Report) -> String {
    match doc(r) {
        JsonDoc::Error(e) => e,
        _ => panic!("expected an error"),
    }
}

#[test]
fn workers_are_listed_with_their_roots() {
    let ws = vec![worker(0, 100, &[("abc", "/path/a"), ("old", "")]), worker(12, 7, &[])];
    let r = cmd_list(false, Some(ws.clone()), 12345, &vec![]);
    assert_eq!(r.exit, 0);
    assert_eq!(
        lines(&r),
        vec![
            "master PID: 12345  workers: 2",
            "INDEX   PID      ROOTS     SOCKET",
            "0       100      2         /tmp/fff/worker-0.sock",
            "       /path/a  (slug: abc)",
            "       <unknown>  (slug: old)",
            "12      7        0         /tmp/fff/worker-12.sock",
        ]
    );
    let r = cmd_list_workers(
        false,
        Some(MasterResponse::WorkerList {
            workers: ws.clone(),
        }),
    );
    assert_eq!(lines(&r).len(), 5);
    match doc(cmd_list(true, Some(ws), 12345, &vec![])) {
        JsonDoc::ListMaster {
            master_pid,
            worker_count,
            workers,
        } => {
            assert_eq!((master_pid, worker_count), (12345, 2));
            assert_eq!(workers[0].roots[0].slug, "abc");
        }
        _ => panic!("expected the master's list"),
    }
}

#[test]
fn daemons_are_listed_without_a_master() {
    let ds = vec![
        daemon("abc", 41046, true, Some("/path/a")),
        daemon("xyz", 41047, false, None),
    ];
    let r = cmd_list(false, None, 0, &ds);
    assert_eq!(
        lines(&r),
        vec![
            "!Note: master not running, showing legacy per-root daemon list",
            "PID         STATE    SLUG              BASE-PATH",
            "41046       live     abc               /path/a",
            "41047       stale    xyz               <unknown>",
        ]
    );
    match doc(cmd_list(true, None, 0, &ds)) {
        JsonDoc::ListLegacy(v) => {
            assert_eq!((v[0].pid, v[0].live), (41046, true));
            assert_eq!(v[0].base_path.as_deref(), Some("/path/a"));
            assert_eq!((v[1].slug.as_str(), v[1].live), ("xyz", false));
            assert_eq!(v[1].base_path, None);
        }
        _ => panic!("expected a list of daemons"),
    }
    assert!(matches!(
        doc(cmd_list(true, None, 0, &vec![])),
        JsonDoc::ListNone
    ));
    assert_eq!(
        lines(&cmd_list(false, None, 0, &vec![])),
        vec![
            "!Note: master not running, showing legacy per-root daemon list",
            "No fff-engine daemons running.",
        ]
    );
}

#[test]
fn failures_of_the_master_are_told() {
    let r = cmd_list_workers(false, None);
    assert_eq!((lines(&r), r.exit), (vec!["!master not running".to_string()], 1));
    let r = cmd_worker_status(false, Some(MasterResponse::Error("worker-3 not found".into())));
    assert_eq!(
        (lines(&r), r.exit),
        (vec!["!master error: worker-3 not found".to_string()], 1)
    );
    let r = cmd_worker_status(false, Some(MasterResponse::Ack));
    assert_eq!(lines(&r), vec!["!unexpected response"]);
    assert_eq!(error_doc(cmd_list_workers(true, None)), "master not running");
    assert_eq!(
        error_doc(cmd_list_workers(true, Some(MasterResponse::Error("no".into())))),
        "no"
    );
    assert!(listed_workers(Some(MasterResponse::Ack)).is_none());
    assert!(listed_workers(None).is_none());
    let list = MasterResponse::WorkerList { workers: vec![] };
    assert!(listed_workers(Some(list)).is_some());
}

#[test]
fn one_worker_is_shown() {
    let info = worker(3, 9, &[("abc", "/a")]);
    let r = cmd_worker_status(false, Some(MasterResponse::WorkerInfo(info)));
    assert_eq!(
        lines(&r),
        vec![
            "worker-3: pid=9 roots=1",
            "  socket: /tmp/fff/worker-3.sock",
            "  /a  (slug: abc)",
        ]
    );
}

#[test]
fn the_paths_of_a_root_are_shown() {
    let p = || PathsInfo {
        base_path: "/tmp".into(),
        slug: "tmp-abc".into(),
        socket: "/c/sockets/tmp-abc.sock".into(),
        lockfile: "/c/locks/tmp-abc.lock".into(),
        frecency: "/d/frecency/tmp-abc".into(),
        log: "/c/logs/tmp-abc.log".into(),
        master_sock: "/c/master.sock".into(),
        master_lock: "/c/master.lock".into(),
        routing: "/c/routing.json".into(),
    };
    assert_eq!(
        lines(&cmd_paths(false, p())),
        vec![
            "base_path     : /tmp",
            "slug          : tmp-abc",
            "socket        : /c/sockets/tmp-abc.sock",
            "lockfile      : /c/locks/tmp-abc.lock",
            "frecency      : /d/frecency/tmp-abc",
            "log           : /c/logs/tmp-abc.log",
            "master.sock   : /c/master.sock",
            "master.lock   : /c/master.lock",
            "routing.json  : /c/routing.json",
        ]
    );
    assert!(matches!(doc(cmd_paths(true, p())), JsonDoc::Paths(_)));
}

fn query() -> StatusQuery {
    StatusQuery {
        base_path: "/r".into(),
        slug: "r-1".into(),
        socket: "/c/sockets/r-1.sock".into(),
    }
}

fn lock(alive: bool) -> Option<LegacyLock> {
    Some(LegacyLock {
        pid: 5,
        alive,
        path: "/c/locks/r-1.lock".into(),
    })
}

#[test]
fn the_status_of_a_root_comes_from_the_master() {
    let info = || Some(MasterResponse::WorkerInfo(worker(1, 2, &[("a", "/a")])));
    let r = cmd_status(false, query(), info(), None);
    assert_eq!(
        lines(&r),
        vec![
            "Route for /r: worker-1 (pid=2, roots=1)",
            "  socket: /tmp/fff/worker-1.sock",
        ]
    );
    let miss = || Some(MasterResponse::Error("ring is empty".into()));
    let r = cmd_status(false, query(), miss(), None);
    assert_eq!((lines(&r), r.exit), (vec!["/r → ring is empty".to_string()], 0));
    match doc(cmd_status(true, query(), miss(), None)) {
        JsonDoc::StatusMiss { base_path, error } => {
            assert_eq!((base_path.as_str(), error.as_str()), ("/r", "ring is empty"));
        }
        _ => panic!("expected a miss"),
    }
}

#[test]
fn the_status_of_a_root_comes_from_its_lock_file_else() {
    let r = cmd_status(false, query(), None, lock(true));
    assert_eq!(
        lines(&r),
        vec![
            "fff-engine for /r is running (singleton).",
            "  PID: 5  lock: /c/locks/r-1.lock",
        ]
    );
    let r = cmd_status(false, query(), Some(MasterResponse::Ack), lock(false));
    assert_eq!(
        (lines(&r), r.exit),
        (
            vec!["!fff-engine for /r is NOT running (stale PID 5).".to_string()],
            1
        )
    );
    let r = cmd_status(false, query(), None, None);
    assert_eq!(
        (lines(&r), r.exit),
        (
            vec!["!fff-engine for /r is NOT running (no lockfile).".to_string()],
            1
        )
    );
    match doc(cmd_status(true, query(), None, lock(true))) {
        JsonDoc::StatusHit { base_path, worker } => {
            assert_eq!(base_path, "/r");
            assert_eq!((worker.index, worker.pid), (0, 5));
            assert_eq!(worker.socket_path, "/c/sockets/r-1.sock");
            assert_eq!(worker.roots[0].slug, "r-1");
        }
        _ => panic!("expected a hit"),
    }
    match doc(cmd_status(true, query(), None, lock(false))) {
        JsonDoc::StatusMiss { error, .. } => assert_eq!(error, "stale PID 5"),
        _ => panic!("expected a miss"),
    }
}

// ── Stopping ────────────────────────────────────────────────────────────────

#[test]
fn a_daemon_is_killed_when_its_time_is_over() {
    let looked = |waited_ms, timeout_ms, alive| {
        stop_daemon(ExitEvent::Looked {
            waited_ms,
            timeout_ms,
            alive,
        })
    };
    let failure = |a: ExitAction| match a {
        ExitAction::Finish(Err(e)) => e,
        _ => panic!("expected a failure"),
    };
    assert!(matches!(
        stop_daemon(ExitEvent::Terminated(Ok(()))),
        ExitAction::Look
    ));
    assert_eq!(
        failure(stop_daemon(ExitEvent::Terminated(Err("EPERM".into())))),
        "SIGTERM failed: EPERM"
    );
    assert!(matches!(looked(0, 5000, true), ExitAction::Sleep(50)));
    assert!(matches!(
        looked(100, 5000, false),
        ExitAction::Finish(Ok(()))
    ));
    assert!(matches!(looked(5000, 5000, true), ExitAction::Kill));
    assert_eq!(
        failure(looked(0, 0, true)),
        "did not exit; --timeout 0 disables SIGKILL"
    );
    assert!(matches!(
        stop_daemon(ExitEvent::Killed(Ok(()))),
        ExitAction::Finish(Ok(()))
    ));
    assert_eq!(
        failure(stop_daemon(ExitEvent::Killed(Err("ESRCH".into())))),
        "SIGKILL failed: ESRCH"
    );
}

fn finished(a: StopAction) -> Report {
    match a {
        StopAction::Finish(r) => r,
        _ => panic!("expected the end"),
    }
}

#[test]
fn everything_is_stopped_through_the_master() {
    let asked = StopEvent::Asked {
        base_path: None,
        all: true,
    };
    assert!(matches!(cmd_stop(false, asked), StopAction::ReadMasterLock));
    assert!(matches!(
        cmd_stop(false, StopEvent::MasterLock(Some(8))),
        StopAction::SignalMaster(8)
    ));
    match cmd_stop(false, StopEvent::MasterSignalled { pid: 8, sent: true }) {
        StopAction::WatchMaster(r) => {
            assert_eq!(lines(&r), vec!["Sent SIGTERM to master pid=8"]);
        }
        _ => panic!("expected to watch the master"),
    }
    let looked = |waited_ms, timeout_ms, alive| {
        cmd_stop(
            false,
            StopEvent::MasterLooked {
                waited_ms,
                timeout_ms,
                alive,
            },
        )
    };
    assert!(matches!(looked(0, 100, true), StopAction::SleepOnMaster(50)));
    assert!(matches!(looked(50, 100, false), StopAction::Exit(0)));
    assert!(matches!(looked(100, 100, true), StopAction::KillMaster));
    assert!(matches!(looked(0, 0, true), StopAction::Exit(0)));
}

#[test]
fn without_a_master_daemons_are_stopped_one_by_one() {
    assert!(matches!(
        cmd_stop(false, StopEvent::MasterLock(None)),
        StopAction::StopDaemons
    ));
    let ds = vec![
        daemon("a", 1, true, Some("/a")),
        daemon("b", 2, false, None),
        daemon("c", 3, true, None),
    ];
    let live = live_daemons(ds);
    let slugs: Vec<&str> = live.iter().map(|d| d.slug.as_str()).collect();
    assert_eq!(slugs, vec!["a", "c"]);
    let results = || {
        vec![
            StopResult {
                daemon: daemon("a", 1, true, Some("/a")),
                outcome: Ok(()),
            },
            StopResult {
                daemon: daemon("c", 3, true, None),
                outcome: Err("SIGTERM failed: x".into()),
            },
        ]
    };
    let r = finished(cmd_stop(false, StopEvent::DaemonsStopped(results())));
    assert_eq!(r.exit, 1);
    assert_eq!(
        lines(&r),
        vec![
            "Stopped PID 1 (/a)",
            "!Failed to stop PID 3 (slug=c): SIGTERM failed: x",
        ]
    );
    let r = finished(cmd_stop(true, StopEvent::DaemonsStopped(results())));
    assert_eq!(error_doc(r), "stopped 1 daemon(s), 1 failure(s)");
    let r = finished(cmd_stop(false, StopEvent::DaemonsStopped(vec![])));
    assert_eq!((lines(&r), r.exit), (vec!["No live daemons to stop.".to_string()], 0));
    let mut good = results();
    good.pop();
    let r = finished(cmd_stop(true, StopEvent::DaemonsStopped(good)));
    assert!(matches!(doc(r), JsonDoc::StopOk { stopped: 1 }));
}

#[test]
fn what_serves_one_root_is_stopped() {
    let asked = StopEvent::Asked {
        base_path: Some("/r".into()),
        all: false,
    };
    assert!(matches!(cmd_stop(false, asked), StopAction::AskRoute(_)));
    let routed = StopEvent::Routed {
        base_path: "/r".into(),
        answer: Some(MasterResponse::WorkerInfo(worker(4, 1, &[]))),
    };
    assert!(matches!(
        cmd_stop(false, routed),
        StopAction::StopWorker { index: 4, .. }
    ));
    let stopped = |answer| StopEvent::WorkerStopped {
        base_path: "/r".into(),
        index: 4,
        answer,
    };
    let r = finished(cmd_stop(false, stopped(Some(MasterResponse::Ack))));
    assert_eq!(lines(&r), vec!["Stopped worker-4 for /r"]);
    assert!(matches!(
        cmd_stop(false, stopped(None)),
        StopAction::StopOne(_)
    ));
    let one = |result| StopEvent::OneStopped {
        base_path: "/r".into(),
        result,
    };
    let r = finished(cmd_stop(false, one(OneStop::NotRunning)));
    assert_eq!((lines(&r), r.exit), (vec!["!No live daemon for /r".to_string()], 1));
    let r = finished(cmd_stop(
        false,
        one(OneStop::Done {
            pid: 6,
            outcome: Ok(()),
        }),
    ));
    assert_eq!((lines(&r), r.exit), (vec!["Stopped PID 6".to_string()], 0));
    let r = finished(cmd_stop(
        true,
        one(OneStop::Done {
            pid: 6,
            outcome: Err("e".into()),
        }),
    ));
    assert_eq!(error_doc(r), "Failed: e");
}

#[test]
fn stopping_needs_a_root_or_all() {
    let asked = StopEvent::Asked {
        base_path: None,
        all: false,
    };
    let r = finished(cmd_stop(false, asked));
    assert_eq!(
        (lines(&r), r.exit),
        (vec!["!Specify a base-path or pass --all.".to_string()], 2)
    );
}

// ── Cleaning up ─────────────────────────────────────────────────────────────

#[test]
fn daemons_are_found_by_lock_file() {
    let file = |name: &str, pid: Option<u32>| LockFile {
        name: name.into(),
        lock: pid.map(|pid| LockInfo {
            pid,
            alive: pid < 10,
            base_path: None,
        }),
    };
    let ds = discover_daemons(
        "/c/locks",
        vec![
            file("b.lock", Some(1)),
            file("a.lock", Some(20)),
            file("broken.lock", None),
            file("c.sock", Some(3)),
            file("B.lock", Some(4)),
        ],
    );
    let seen: Vec<(&str, u32, bool, &str)> = ds
        .iter()
        .map(|d| (d.slug.as_str(), d.pid, d.alive, d.lockfile_path.as_str()))
        .collect();
    assert_eq!(
        seen,
        vec![
            ("B", 4, true, "/c/locks/B.lock"),
            ("a", 20, false, "/c/locks/a.lock"),
            ("b", 1, true, "/c/locks/b.lock"),
        ]
    );
    assert_eq!(owner_slug("a-1.sock", "sock"), Some("a-1".to_string()));
    assert_eq!(owner_slug("a-1.lock", "sock"), None);
}

fn owned(name: &str, owner_alive: bool) -> OwnedFile {
    OwnedFile {
        name: name.into(),
        owner_alive,
    }
}

fn history(name: &str, referenced: bool) -> FrecencyDir {
    FrecencyDir {
        name: name.into(),
        referenced,
    }
}

fn scan(master_alive: bool) -> CleanScan {
    CleanScan {
        master_alive,
        routing: Some("/c/routing.json".into()),
        master_socket: None,
        master_lock: Some("/c/master.lock".into()),
        workers_dir: "/c/workers".into(),
        worker_files: vec!["worker-0.sock".into(), "notes.txt".into()],
        daemons: vec![daemon("a", 1, true, None), daemon("b", 2, false, None)],
        socket_dir: "/c/sockets".into(),
        sockets: vec![owned("a.sock", true), owned("b.sock", false)],
        log_dir: "/c/logs".into(),
        logs: vec![owned("b.log", false), owned("b.txt", false)],
        frecency_dir: "/d/frecency".into(),
        frecency: vec![history("a", true), history("z", false)],
    }
}

#[test]
fn what_the_dead_left_is_removed() {
    let plan = cmd_clean(false, false, &scan(false));
    assert_eq!(
        lines(&plan.report),
        vec![
            "removing routing table: /c/routing.json",
            "removing master lockfile: /c/master.lock",
            "removing worker artifact: /c/workers/worker-0.sock",
            "removing stale lockfile: /c/locks/b.lock (PID 2 dead)",
            "removing orphan socket: /c/sockets/b.sock",
            "removing orphan log: /c/logs/b.log",
            "removing unreferenced frecency dir: /d/frecency/z",
            "Removed: 3 master artifact(s), 1 lockfile(s), 1 socket(s), 1 log(s), 1 frecency dir(s)",
        ]
    );
    assert_eq!(
        plan.remove,
        vec![
            "/c/routing.json",
            "/c/master.lock",
            "/c/workers/worker-0.sock",
            "/c/locks/b.lock",
            "/c/sockets/b.sock",
            "/c/logs/b.log",
        ]
    );
    assert_eq!(plan.remove_dirs, vec!["/d/frecency/z"]);
}

#[test]
fn directories_are_counted_where_there_are_any() {
    let mut found = scan(false);
    found.frecency = vec![history("a", true)];
    let plan = cmd_clean(false, false, &found);
    let said = lines(&plan.report);
    assert_eq!(
        said[said.len() - 1],
        "Removed: 3 master artifact(s), 1 lockfile(s), 1 socket(s), 1 log(s)"
    );
    assert!(plan.remove_dirs.is_empty());
}

#[test]
fn a_dry_run_removes_nothing() {
    let plan = cmd_clean(true, false, &scan(false));
    assert!(plan.remove.is_empty());
    assert!(plan.remove_dirs.is_empty());
    let said = lines(&plan.report);
    assert_eq!(said[0], "would remove routing table: /c/routing.json");
    assert_eq!(
        said[7],
        "Would remove: 3 master artifact(s), 1 lockfile(s), 1 socket(s), 1 log(s), 1 frecency dir(s)"
    );
    let plan = cmd_clean(true, true, &scan(false));
    match doc(plan.report) {
        JsonDoc::Clean { removed, dry_run } => {
            assert_eq!(removed.len(), 7);
            assert!(dry_run);
        }
        _ => panic!("expected a clean-up"),
    }
}

#[test]
fn a_live_master_keeps_its_files() {
    let plan = cmd_clean(false, false, &scan(true));
    let said = lines(&plan.report);
    assert_eq!(
        said[0],
        "Note: master is running; skipping master artifacts (use `fffctl stop --all` first)."
    );
    assert_eq!(said[1], "removing stale lockfile: /c/locks/b.lock (PID 2 dead)");
    assert_eq!(
        plan.remove,
        vec!["/c/locks/b.lock", "/c/sockets/b.sock", "/c/logs/b.log"]
    );
}

#[test]
fn a_disk_with_only_an_unreferenced_history_is_cleaned() {
    let scan = CleanScan {
        master_alive: false,
        routing: None,
        master_socket: None,
        master_lock: None,
        workers_dir: "/c/workers".into(),
        worker_files: vec![],
        daemons: vec![],
        socket_dir: "/c/sockets".into(),
        sockets: vec![],
        log_dir: "/c/logs".into(),
        logs: vec![],
        frecency_dir: "/d/frecency".into(),
        frecency: frecency_dirs(
            "/d/frecency",
            vec!["old".into()],
            &vec![],
            &RoutingTable::new(),
            None,
        ),
    };
    let plan = cmd_clean(false, true, &scan);
    assert!(plan.remove.is_empty());
    assert_eq!(plan.remove_dirs, vec!["/d/frecency/old"]);
    match doc(plan.report) {
        JsonDoc::Clean { removed, .. } => assert_eq!(removed, vec!["/d/frecency/old"]),
        _ => panic!("expected a clean-up"),
    }
}

#[test]
fn a_history_is_kept_for_daemons_workers_and_settings() {
    let mut routing = RoutingTable::new();
    let mut entry = WorkerEntry::new(0, "worker-0.sock".into(), 7);
    entry.push_root("served".into(), "/p".into());
    routing.workers.insert(0, entry);
    let daemons = vec![daemon("live", 1, true, None), daemon("stale", 2, false, None)];
    let names = ["live", "stale", "served", "shared", "old"];
    let dirs = frecency_dirs(
        "/d/frecency",
        names.iter().map(|n| n.to_string()).collect(),
        &daemons,
        &routing,
        Some("/d/frecency/shared/db"),
    );
    let kept: Vec<bool> = dirs.iter().map(|d| d.referenced).collect();
    assert_eq!(kept, vec![true, true, true, true, false]);
}
