//! Stopping daemons.

use crate::ctl::{doc_report, error_report, line_report, Daemon, JsonDoc, Line, Report};
use crate::text::decimal;
use crate::types::MasterResponse;
use vstd::prelude::*;

verus! {

/// How long to sleep between looks at a process that is to exit.
pub const EXIT_POLL_MS: u64 = 50;

/// What happened while a daemon is being stopped.
pub enum ExitEvent {
    /// The request to terminate was sent, or could not be.
    Terminated(Result<(), String>),
    /// So long after that request the process is alive or not.
    Looked { waited_ms: u64, timeout_ms: u64, alive: bool },
    /// The process was killed, or could not be.
    Killed(Result<(), String>),
}

/// What to do next with a daemon that is being stopped.
pub enum ExitAction {
    Look,
    Sleep(u64),
    Kill,
    Finish(Result<(), String>),
}

/// A daemon fails to stop, with this text.
pub open spec fn fails_with(a: ExitAction, text: Seq<char>) -> bool {
    a matches ExitAction::Finish(Err(e)) && e@ == text
}

/// Stops a daemon: it is asked to terminate, is given time to exit, and is killed
/// when that is over. Without any time it is not killed.
pub fn stop_daemon(event: ExitEvent) -> (r: ExitAction)
    ensures
        match event {
            ExitEvent::Terminated(Err(e)) => fails_with(r, "SIGTERM failed: "@ + e@),
            ExitEvent::Terminated(Ok(_)) => r == ExitAction::Look,
            ExitEvent::Looked { waited_ms, timeout_ms, alive } => if waited_ms < timeout_ms {
                if alive {
                    r == ExitAction::Sleep(EXIT_POLL_MS)
                } else {
                    r == ExitAction::Finish(Ok(()))
                }
            } else if timeout_ms == 0 {
                fails_with(r, "did not exit; --timeout 0 disables SIGKILL"@)
            } else {
                r == ExitAction::Kill
            },
            ExitEvent::Killed(Err(e)) => fails_with(r, "SIGKILL failed: "@ + e@),
            ExitEvent::Killed(Ok(_)) => r == ExitAction::Finish(Ok(())),
        },
{
    match event {
        ExitEvent::Terminated(Err(e)) => ExitAction::Finish(
            Err(String::from_str("SIGTERM failed: ").concat(e.as_str())),
        ),
        ExitEvent::Terminated(Ok(_)) => ExitAction::Look,
        ExitEvent::Looked { waited_ms, timeout_ms, alive } => {
            if waited_ms < timeout_ms {
                if alive {
                    ExitAction::Sleep(EXIT_POLL_MS)
                } else {
                    ExitAction::Finish(Ok(()))
                }
            } else if timeout_ms == 0 {
                ExitAction::Finish(
                    Err(String::from_str("did not exit; --timeout 0 disables SIGKILL")),
                )
            } else {
                ExitAction::Kill
            }
        },
        ExitEvent::Killed(Err(e)) => ExitAction::Finish(
            Err(String::from_str("SIGKILL failed: ").concat(e.as_str())),
        ),
        ExitEvent::Killed(Ok(_)) => ExitAction::Finish(Ok(())),
    }
}

/// How stopping one daemon went.
pub struct StopResult {
    pub daemon: Daemon,
    pub outcome: Result<(), String>,
}

/// How stopping the daemon of one root went.
pub enum OneStop {
    /// No live process holds the root's lock file.
    NotRunning,
    Done { pid: u32, outcome: Result<(), String> },
}

/// What happened while daemons are being stopped.
pub enum StopEvent {
    Asked { base_path: Option<String>, all: bool },
    /// The process that holds the master's lock file, where it is alive.
    MasterLock(Option<u32>),
    /// The master was asked to terminate, or could not be.
    MasterSignalled { pid: u32, sent: bool },
    /// So long after that request the master is alive or not.
    MasterLooked { waited_ms: u64, timeout_ms: u64, alive: bool },
    /// The single-root daemons that lived were stopped, one by one.
    DaemonsStopped(Vec<StopResult>),
    /// The master told the worker of a root.
    Routed { base_path: String, answer: Option<MasterResponse> },
    /// The master answered the request to stop a worker.
    WorkerStopped { base_path: String, index: u32, answer: Option<MasterResponse> },
    /// The root's own daemon was stopped.
    OneStopped { base_path: String, result: OneStop },
}

/// What to do next.
pub enum StopAction {
    ReadMasterLock,
    SignalMaster(u32),
    /// Print this and watch the master.
    WatchMaster(Report),
    SleepOnMaster(u64),
    KillMaster,
    StopDaemons,
    AskRoute(String),
    StopWorker { base_path: String, index: u32 },
    StopOne(String),
    Finish(Report),
    /// End without a further word.
    Exit(i32),
}

/// How a stopped daemon is called.
pub open spec fn daemon_label(d: Daemon) -> Seq<char> {
    match d.base_path {
        Some(p) => p@,
        None => "slug="@ + d.slug@,
    }
}

/// What is said of a daemon that was to be stopped.
pub open spec fn stop_line(s: StopResult) -> crate::ctl::LineView {
    let who = crate::text::decimal_text(s.daemon.pid as nat) + " ("@ + daemon_label(s.daemon)
        + ")"@;
    match s.outcome {
        Ok(_) => (false, "Stopped PID "@ + who),
        Err(e) => (true, "Failed to stop PID "@ + who + ": "@ + e@),
    }
}

/// How many were stopped.
pub open spec fn stopped_count(results: Seq<StopResult>) -> nat
    decreases results.len(),
{
    if results.len() == 0 {
        0
    } else {
        stopped_count(results.drop_last()) + if results.last().outcome is Ok {
            1nat
        } else {
            0nat
        }
    }
}

/// How many were not.
pub open spec fn failed_count(results: Seq<StopResult>) -> nat {
    (results.len() - stopped_count(results)) as nat
}

/// What is said once the single-root daemons were stopped.
pub open spec fn all_stopped(r: Report, json: bool, results: Seq<StopResult>) -> bool {
    let exit = if failed_count(results) > 0 {
        1int
    } else {
        0int
    };
    if results.len() == 0 {
        if json {
            crate::ctl::shows(r, JsonDoc::StopOk { stopped: 0 }, 0)
        } else {
            crate::ctl::says(r, seq![(false, "No live daemons to stop."@)], 0)
        }
    } else if !json {
        crate::ctl::says(r, results.map_values(|s: StopResult| stop_line(s)), exit)
    } else if failed_count(results) > 0 {
        crate::ctl::shows_error(
            r,
            "stopped "@ + crate::text::decimal_text(stopped_count(results)) + " daemon(s), "@
                + crate::text::decimal_text(failed_count(results)) + " failure(s)"@,
            1,
        )
    } else {
        crate::ctl::shows(
            r,
            JsonDoc::StopOk { stopped: stopped_count(results) as usize },
            0,
        )
    }
}

fn stop_text(s: &StopResult) -> (r: Line)
    ensures
        crate::ctl::line_view(r) == stop_line(*s),
{
    let label = match &s.daemon.base_path {
        Some(p) => p.clone(),
        None => String::from_str("slug=").concat(s.daemon.slug.as_str()),
    };
    let who = decimal(s.daemon.pid as u64).concat(" (").concat(label.as_str()).concat(")");
    match &s.outcome {
        Ok(_) => Line::Stdout(String::from_str("Stopped PID ").concat(who.as_str())),
        Err(e) => Line::Stderr(
            String::from_str("Failed to stop PID ").concat(who.as_str()).concat(": ").concat(
                e.as_str(),
            ),
        ),
    }
}

fn report_all(json: bool, results: &Vec<StopResult>) -> (r: Report)
    ensures
        all_stopped(r, json, results@),
{
    if results.len() == 0 {
        if json {
            return doc_report(JsonDoc::StopOk { stopped: 0 }, 0);
        }
        return line_report(Line::Stdout(String::from_str("No live daemons to stop.")), 0);
    }
    let mut lines: Vec<Line> = Vec::new();
    let mut stopped: usize = 0;
    let mut i: usize = 0;
    let ghost said = results@.map_values(|s: StopResult| stop_line(s));
    assert(crate::ctl::line_views(lines@) =~= said.take(0));
    assert(results@.take(0) =~= Seq::empty());
    while i < results.len()
        invariant
            i <= results@.len(),
            said == results@.map_values(|s: StopResult| stop_line(s)),
            crate::ctl::line_views(lines@) == said.take(i as int),
            stopped == stopped_count(results@.take(i as int)),
            stopped <= i,
        decreases results.len() - i,
    {
        assert(results@.take(i + 1).drop_last() =~= results@.take(i as int));
        assert(results@.take(i + 1).last() == results@[i as int]);
        let ghost before = crate::ctl::line_views(lines@);
        lines.push(stop_text(&results[i]));
        assert(crate::ctl::line_views(lines@) =~= before.push(said[i as int]));
        assert(said.take(i + 1) =~= before.push(said[i as int]));
        if results[i].outcome.is_ok() {
            stopped = stopped + 1;
        }
        i = i + 1;
    }
    assert(results@.take(i as int) =~= results@);
    assert(said.take(i as int) =~= said);
    let failures: usize = results.len() - stopped;
    if json {
        if failures > 0 {
            let text = String::from_str("stopped ").concat(
                decimal(stopped as u64).as_str(),
            ).concat(" daemon(s), ").concat(decimal(failures as u64).as_str()).concat(
                " failure(s)",
            );
            return doc_report(JsonDoc::Error(text), 1);
        }
        return doc_report(JsonDoc::StopOk { stopped }, 0);
    }
    let exit: i32 = if failures > 0 {
        1
    } else {
        0
    };
    Report { lines, doc: None, exit }
}

/// One daemon was stopped: a document, or a line.
pub open spec fn one_stopped(r: Report, json: bool, line: Seq<char>) -> bool {
    if json {
        crate::ctl::shows(r, JsonDoc::StopOk { stopped: 1 }, 0)
    } else {
        crate::ctl::says(r, seq![(false, line)], 0)
    }
}

fn report_one(json: bool, line: String) -> (r: Report)
    ensures
        one_stopped(r, json, line@),
{
    if json {
        doc_report(JsonDoc::StopOk { stopped: 1 }, 0)
    } else {
        line_report(Line::Stdout(line), 0)
    }
}

/// Stops everything, or what serves one root. Everything is stopped through the
/// master, which hands the request on to its workers; a master that is still alive
/// when its time is over is killed, unless it was given no time. Without a master
/// the single-root daemons are stopped one by one. What serves one root is stopped
/// by the master where it knows the root's worker.
pub fn cmd_stop(json: bool, event: StopEvent) -> (r: StopAction)
    ensures
        match event {
            StopEvent::Asked { base_path, all } => if all {
                r == StopAction::ReadMasterLock
            } else {
                match base_path {
                    Some(p) => r == StopAction::AskRoute(p),
                    None => r matches StopAction::Finish(report) && crate::ctl::fails(
                        report,
                        json,
                        "Specify a base-path or pass --all."@,
                        "Specify a base-path or pass --all."@,
                        2,
                    ),
                }
            },
            StopEvent::MasterLock(Some(pid)) => r == StopAction::SignalMaster(pid),
            StopEvent::MasterLock(None) => r == StopAction::StopDaemons,
            StopEvent::MasterSignalled { pid, sent } => if sent {
                r matches StopAction::WatchMaster(report) && one_stopped(
                    report,
                    json,
                    "Sent SIGTERM to master pid="@ + crate::text::decimal_text(pid as nat),
                )
            } else {
                r == StopAction::StopDaemons
            },
            StopEvent::MasterLooked { waited_ms, timeout_ms, alive } => if !alive || timeout_ms
                == 0 {
                r == StopAction::Exit(0)
            } else if waited_ms < timeout_ms {
                r == StopAction::SleepOnMaster(EXIT_POLL_MS)
            } else {
                r == StopAction::KillMaster
            },
            StopEvent::DaemonsStopped(results) => r matches StopAction::Finish(report)
                && all_stopped(report, json, results@),
            StopEvent::Routed { base_path, answer } => match answer {
                Some(MasterResponse::WorkerInfo(info)) => r == (StopAction::StopWorker {
                    base_path,
                    index: info.index,
                }),
                _ => r == StopAction::StopOne(base_path),
            },
            StopEvent::WorkerStopped { base_path, index, answer } => if answer == Some(
                MasterResponse::Ack,
            ) {
                r matches StopAction::Finish(report) && one_stopped(
                    report,
                    json,
                    "Stopped worker-"@ + crate::text::decimal_text(index as nat) + " for "@
                        + base_path@,
                )
            } else {
                r == StopAction::StopOne(base_path)
            },
            StopEvent::OneStopped { base_path, result } => r matches StopAction::Finish(report)
                && match result {
                OneStop::NotRunning => crate::ctl::fails(
                    report,
                    json,
                    "No live daemon for "@ + base_path@,
                    "No live daemon for "@ + base_path@,
                    1,
                ),
                OneStop::Done { pid, outcome: Ok(_) } => one_stopped(
                    report,
                    json,
                    "Stopped PID "@ + crate::text::decimal_text(pid as nat),
                ),
                OneStop::Done { pid, outcome: Err(e) } => crate::ctl::fails(
                    report,
                    json,
                    "Failed: "@ + e@,
                    "Failed: "@ + e@,
                    1,
                ),
            },
        },
{
    match event {
        StopEvent::Asked { base_path, all } => {
            if all {
                return StopAction::ReadMasterLock;
            }
            match base_path {
                Some(p) => StopAction::AskRoute(p),
                None => StopAction::Finish(
                    error_report(
                        json,
                        "Specify a base-path or pass --all.",
                        "Specify a base-path or pass --all.",
                        2,
                    ),
                ),
            }
        },
        StopEvent::MasterLock(Some(pid)) => StopAction::SignalMaster(pid),
        StopEvent::MasterLock(None) => StopAction::StopDaemons,
        StopEvent::MasterSignalled { pid, sent } => {
            if sent {
                let line = String::from_str("Sent SIGTERM to master pid=").concat(
                    decimal(pid as u64).as_str(),
                );
                StopAction::WatchMaster(report_one(json, line))
            } else {
                StopAction::StopDaemons
            }
        },
        StopEvent::MasterLooked { waited_ms, timeout_ms, alive } => {
            if !alive || timeout_ms == 0 {
                StopAction::Exit(0)
            } else if waited_ms < timeout_ms {
                StopAction::SleepOnMaster(EXIT_POLL_MS)
            } else {
                StopAction::KillMaster
            }
        },
        StopEvent::DaemonsStopped(results) => StopAction::Finish(report_all(json, &results)),
        StopEvent::Routed { base_path, answer } => match answer {
            Some(MasterResponse::WorkerInfo(info)) => StopAction::StopWorker {
                base_path,
                index: info.index,
            },
            _ => StopAction::StopOne(base_path),
        },
        StopEvent::WorkerStopped { base_path, index, answer } => match answer {
            Some(MasterResponse::Ack) => {
                let line = String::from_str("Stopped worker-").concat(
                    decimal(index as u64).as_str(),
                ).concat(" for ").concat(base_path.as_str());
                StopAction::Finish(report_one(json, line))
            },
            _ => StopAction::StopOne(base_path),
        },
        StopEvent::OneStopped { base_path, result } => match result {
            OneStop::NotRunning => {
                let text = String::from_str("No live daemon for ").concat(base_path.as_str());
                StopAction::Finish(error_report(json, text.as_str(), text.as_str(), 1))
            },
            OneStop::Done { pid, outcome: Ok(_) } => {
                let line = String::from_str("Stopped PID ").concat(decimal(pid as u64).as_str());
                StopAction::Finish(report_one(json, line))
            },
            OneStop::Done { pid: _, outcome: Err(e) } => {
                let text = String::from_str("Failed: ").concat(e.as_str());
                StopAction::Finish(error_report(json, text.as_str(), text.as_str(), 1))
            },
        },
    }
}

/// The daemons that live, to be stopped one by one.
pub open spec fn living(daemons: Seq<Daemon>) -> Seq<Daemon>
    decreases daemons.len(),
{
    if daemons.len() == 0 {
        Seq::empty()
    } else if daemons.last().alive {
        living(daemons.drop_last()).push(daemons.last())
    } else {
        living(daemons.drop_last())
    }
}

/// The daemons that live.
pub fn live_daemons(daemons: Vec<Daemon>) -> (r: Vec<Daemon>)
    ensures
        r@ == living(daemons@),
{
    let mut rest = daemons;
    let mut r: Vec<Daemon> = Vec::new();
    while rest.len() > 0
        invariant
            living(daemons@) == living(rest@) + r@.reverse(),
        decreases rest.len(),
    {
        let ghost before = rest@;
        let ghost tail = r@;
        if let Some(d) = rest.pop() {
            if d.alive {
                r.push(d);
                assert(r@.reverse() =~= seq![d] + tail.reverse());
                assert(living(before) + tail.reverse() =~= living(rest@) + r@.reverse());
            }
        }
    }
    assert(living(daemons@) =~= r@.reverse());
    let mut kept: Vec<Daemon> = Vec::new();
    let ghost all = r@;
    while r.len() > 0
        invariant
            r@.len() <= all.len(),
            r@ == all.take(r@.len() as int),
            kept@ == all.reverse().take(all.len() - r@.len()),
        decreases r.len(),
    {
        if let Some(d) = r.pop() {
            kept.push(d);
            assert(kept@ =~= all.reverse().take(all.len() - r@.len()));
            assert(r@ =~= all.take(r@.len() as int));
        }
    }
    assert(kept@ =~= all.reverse());
    kept
}

/// Every daemon that lives is stopped, in order, and no other.
pub proof fn law_the_living_are_stopped(daemons: Seq<Daemon>)
    ensures
        living(daemons) == daemons.filter(|d: Daemon| d.alive),
        forall|i: int|
            0 <= i < daemons.len() && (#[trigger] daemons[i]).alive ==> living(daemons).contains(
                daemons[i],
            ),
        forall|k: int|
            0 <= k < living(daemons).len() ==> (#[trigger] living(daemons)[k]).alive
                && daemons.contains(living(daemons)[k]),
    decreases daemons.len(),
{
    reveal(Seq::filter);
    if daemons.len() > 0 {
        let front = daemons.drop_last();
        law_the_living_are_stopped(front);
        let before = living(front);
        let all = living(daemons);
        assert forall|i: int| 0 <= i < daemons.len() && (#[trigger] daemons[i]).alive implies all.contains(
            daemons[i],
        ) by {
            if i < front.len() {
                assert(front[i] == daemons[i]);
                assert(before.contains(front[i]));
                let k = choose|k: int| 0 <= k < before.len() && before[k] == front[i];
                assert(all[k] == daemons[i]);
            } else {
                assert(all[before.len() as int] == daemons[i]);
            }
        }
        assert forall|k: int| 0 <= k < all.len() implies (#[trigger] all[k]).alive
            && daemons.contains(all[k]) by {
            if k < before.len() {
                assert(all[k] == before[k]);
                assert(front.contains(before[k]));
                let i = choose|i: int| 0 <= i < front.len() && front[i] == before[k];
                assert(daemons[i] == all[k]);
            } else {
                assert(daemons[daemons.len() - 1] == all[k]);
            }
        }
    }
}

proof fn lemma_stopped_count(results: Seq<StopResult>)
    ensures
        stopped_count(results) == results.filter(|s: StopResult| s.outcome is Ok).len(),
        stopped_count(results) <= results.len(),
        stopped_count(results) == results.len() <==> forall|i: int|
            0 <= i < results.len() ==> (#[trigger] results[i]).outcome is Ok,
    decreases results.len(),
{
    reveal(Seq::filter);
    if results.len() > 0 {
        let front = results.drop_last();
        lemma_stopped_count(front);
        if stopped_count(results) == results.len() {
            assert forall|i: int| 0 <= i < results.len() implies (
            #[trigger] results[i]).outcome is Ok by {
                if i < front.len() {
                    assert(front[i].outcome is Ok);
                }
            }
        }
        if forall|i: int| 0 <= i < results.len() ==> (#[trigger] results[i]).outcome is Ok {
            assert forall|i: int| 0 <= i < front.len() implies (#[trigger] front[i]).outcome is Ok by {
                assert(results[i].outcome is Ok);
            }
            assert(results[results.len() - 1].outcome is Ok);
        }
    }
}

/// Stopping daemons fails exactly where one of them could not be stopped, and the
/// exit code tells. Each daemon has a line of its own, for the error stream where
/// it could not be stopped; a document tells how many were.
pub proof fn law_what_stopping_tells(r: crate::ctl::Report, json: bool, results: Seq<StopResult>)
    requires
        all_stopped(r, json, results),
    ensures
        r.exit == if exists|i: int|
            0 <= i < results.len() && (#[trigger] results[i]).outcome is Err {
            1int
        } else {
            0int
        },
        !json && results.len() > 0 ==> r.lines@.len() == results.len() && forall|i: int|
            0 <= i < results.len() ==> (((#[trigger] r.lines@[i]) is Stderr)
                <==> results[i].outcome is Err),
        json && r.exit == 0 ==> (r.doc matches Some(JsonDoc::StopOk { stopped }) && stopped
            == results.len() as usize),
        json && r.exit == 1 ==> (r.doc matches Some(JsonDoc::Error(_))),
{
    lemma_stopped_count(results);
    if failed_count(results) == 0 {
        assert forall|i: int| 0 <= i < results.len() implies !((
        #[trigger] results[i]).outcome is Err) by {
            assert(results[i].outcome is Ok);
        }
    } else {
        let i = choose|i: int| 0 <= i < results.len() && !((#[trigger] results[i]).outcome is Ok);
        assert(results[i].outcome is Err);
    }
    if !json && results.len() > 0 {
        let said = results.map_values(|s: StopResult| stop_line(s));
        assert(crate::ctl::line_views(r.lines@).len() == said.len());
        assert forall|i: int| 0 <= i < results.len() implies (((#[trigger] r.lines@[i]) is Stderr)
            <==> results[i].outcome is Err) by {
            assert(crate::ctl::line_views(r.lines@)[i] == said[i]);
        }
    }
}

/// What is said of a daemon that was to be stopped: its process and its root, and
/// where it could not be stopped, why.
pub proof fn law_what_is_said_of_a_daemon(s: StopResult)
    ensures
        ({
            let root = match s.daemon.base_path {
                Some(p) => p@,
                None => "slug="@ + s.daemon.slug@,
            };
            let who = crate::text::decimal_text(s.daemon.pid as nat) + " ("@ + root + ")"@;
            &&& s.outcome is Ok ==> stop_line(s) == (false, "Stopped PID "@ + who)
            &&& s.outcome matches Err(e) ==> stop_line(s) == (
                true,
                "Failed to stop PID "@ + who + ": "@ + e@,
            )
        }),
{
}

/// A daemon that was stopped is told of without an error.
pub proof fn law_one_stopped_daemon_is_told(r: crate::ctl::Report, json: bool, line: Seq<char>)
    requires
        one_stopped(r, json, line),
    ensures
        r.exit == 0,
        json ==> r.lines@.len() == 0 && r.doc == Some(JsonDoc::StopOk { stopped: 1 }),
        !json ==> r.doc is None && r.lines@.len() == 1 && (r.lines@[0] matches Line::Stdout(t) && t@
            == line),
{
    if !json {
        let views = crate::ctl::line_views(r.lines@);
        assert(views.len() == r.lines@.len());
        assert(views[0] == crate::ctl::line_view(r.lines@[0]));
    }
}

/// A process that is to exit is looked at twenty times a second.
pub proof fn law_how_often_an_exit_is_looked_for()
    ensures
        EXIT_POLL_MS == 50,
{
}

/// A daemon that fails to stop is told with the reason.
pub proof fn law_a_failed_stop_is_told(a: ExitAction, text: Seq<char>)
    requires
        fails_with(a, text),
    ensures
        a matches ExitAction::Finish(Err(e)) && e@ == text,
{
}

} // verus!
