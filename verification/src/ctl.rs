//! What the command line tool reports: lists, status and cleaning up.

use crate::routing::RootEntry;
use crate::text::{decimal, pad_right};
use crate::types::{MasterResponse, WorkerInfo};
use vstd::prelude::*;

verus! {

/// A line of output.
#[derive(Debug)]
pub enum Line {
    Stdout(String),
    Stderr(String),
}

/// A document printed in place of lines.
pub enum JsonDoc {
    ListMaster { master_pid: u32, worker_count: usize, workers: Vec<WorkerInfo> },
    ListLegacy(Vec<LegacyEntry>),
    ListNone,
    Workers(Vec<WorkerInfo>),
    Worker(WorkerInfo),
    StatusHit { base_path: String, worker: WorkerInfo },
    StatusMiss { base_path: String, error: String },
    Paths(PathsInfo),
    StopOk { stopped: usize },
    Clean { removed: Vec<String>, dry_run: bool },
    Error(String),
}

/// What a command prints, and its exit code.
pub struct Report {
    pub lines: Vec<Line>,
    pub doc: Option<JsonDoc>,
    pub exit: i32,
}

/// A single-root daemon, as its lock file tells.
#[derive(Debug)]
pub struct Daemon {
    pub slug: String,
    pub pid: u32,
    pub alive: bool,
    pub base_path: Option<String>,
    pub lockfile_path: String,
}

/// A single-root daemon in a document.
#[derive(Debug)]
pub struct LegacyEntry {
    pub pid: u32,
    pub live: bool,
    pub slug: String,
    pub base_path: Option<String>,
}

/// Where everything of a root is.
pub struct PathsInfo {
    pub base_path: String,
    pub slug: String,
    pub socket: String,
    pub lockfile: String,
    pub frecency: String,
    pub log: String,
    pub master_sock: String,
    pub master_lock: String,
    pub routing: String,
}

/// A line: whether it goes to the error stream, and its text.
pub type LineView = (bool, Seq<char>);

pub open spec fn line_view(l: Line) -> LineView {
    match l {
        Line::Stdout(s) => (false, s@),
        Line::Stderr(s) => (true, s@),
    }
}

pub open spec fn line_views(lines: Seq<Line>) -> Seq<LineView> {
    lines.map_values(|l: Line| line_view(l))
}

/// A report of lines alone.
pub open spec fn says(r: Report, lines: Seq<LineView>, exit: int) -> bool {
    &&& line_views(r.lines@) == lines
    &&& r.doc is None
    &&& r.exit == exit
}

/// A report of one document alone.
pub open spec fn shows(r: Report, doc: JsonDoc, exit: int) -> bool {
    &&& r.lines@.len() == 0
    &&& r.doc == Some(doc)
    &&& r.exit == exit
}

/// A report of an error document with this text.
pub open spec fn shows_error(r: Report, text: Seq<char>, exit: int) -> bool {
    &&& r.lines@.len() == 0
    &&& r.doc matches Some(JsonDoc::Error(m)) && m@ == text
    &&& r.exit == exit
}

/// An error, as a document or as a line for the error stream.
pub open spec fn fails(r: Report, json: bool, doc_text: Seq<char>, line: Seq<char>, exit: int) -> bool {
    if json {
        shows_error(r, doc_text, exit)
    } else {
        says(r, seq![(true, line)], exit)
    }
}

/// A report of one document.
pub fn doc_report(doc: JsonDoc, exit: i32) -> (r: Report)
    ensures
        shows(r, doc, exit as int),
{
    Report { lines: Vec::new(), doc: Some(doc), exit }
}

/// A report of one line.
pub fn line_report(line: Line, exit: i32) -> (r: Report)
    ensures
        says(r, seq![line_view(line)], exit as int),
{
    let mut lines: Vec<Line> = Vec::new();
    let ghost v = line_view(line);
    lines.push(line);
    assert(line_views(lines@) =~= seq![v]);
    Report { lines, doc: None, exit }
}

/// An error, as a document or as a line.
pub fn error_report(json: bool, doc_text: &str, line: &str, exit: i32) -> (r: Report)
    ensures
        fails(r, json, doc_text@, line@, exit as int),
{
    if json {
        doc_report(JsonDoc::Error(String::from_str(doc_text)), exit)
    } else {
        line_report(Line::Stderr(String::from_str(line)), exit)
    }
}

fn push_line(lines: &mut Vec<Line>, line: Line)
    ensures
        line_views(final(lines)@) == line_views(old(lines)@).push(line_view(line)),
{
    let ghost before = line_views(lines@);
    let ghost v = line_view(line);
    lines.push(line);
    assert(line_views(lines@) =~= before.push(v));
}

/// The heading above workers.
pub open spec fn worker_heading() -> Seq<char> {
    crate::text::padded("INDEX"@, 6) + "  "@ + crate::text::padded("PID"@, 7) + "  "@
        + crate::text::padded("ROOTS"@, 8) + "  SOCKET"@
}

fn worker_heading_line() -> (r: String)
    ensures
        r@ == worker_heading(),
{
    pad_right("INDEX", 6).concat("  ").concat(pad_right("PID", 7).as_str()).concat("  ").concat(
        pad_right("ROOTS", 8).as_str(),
    ).concat("  SOCKET")
}

/// The line of a worker.
pub open spec fn worker_line(w: WorkerInfo) -> Seq<char> {
    crate::text::padded(crate::text::decimal_text(w.index as nat), 6) + "  "@ + crate::text::padded(
        crate::text::decimal_text(w.pid as nat),
        7,
    ) + "  "@ + crate::text::padded(crate::text::decimal_text(w.roots@.len()), 8) + "  "@
        + w.socket_path@
}

fn worker_text(w: &WorkerInfo) -> (r: String)
    ensures
        r@ == worker_line(*w),
{
    pad_right(decimal(w.index as u64).as_str(), 6).concat("  ").concat(
        pad_right(decimal(w.pid as u64).as_str(), 7).as_str(),
    ).concat("  ").concat(pad_right(decimal(w.root_count() as u64).as_str(), 8).as_str()).concat(
        "  ",
    ).concat(w.socket_path.as_str())
}

/// The base path of a root as shown.
pub open spec fn shown_path(root: RootEntry) -> Seq<char> {
    if root.base_path@.len() == 0 {
        "<unknown>"@
    } else {
        root.base_path@
    }
}

/// The line of a root under its worker.
pub open spec fn root_line(indent: Seq<char>, root: RootEntry) -> Seq<char> {
    indent + shown_path(root) + "  (slug: "@ + root.slug@ + ")"@
}

/// The lines of roots.
pub open spec fn root_lines(indent: Seq<char>, roots: Seq<RootEntry>) -> Seq<LineView>
    decreases roots.len(),
{
    if roots.len() == 0 {
        Seq::empty()
    } else {
        root_lines(indent, roots.drop_last()).push((false, root_line(indent, roots.last())))
    }
}

fn push_roots(lines: &mut Vec<Line>, indent: &str, roots: &Vec<RootEntry>)
    ensures
        line_views(final(lines)@) == line_views(old(lines)@) + root_lines(indent@, roots@),
{
    let ghost start = line_views(lines@);
    let mut i: usize = 0;
    assert(roots@.take(0) =~= Seq::empty());
    assert(start + root_lines(indent@, roots@.take(0)) =~= start);
    while i < roots.len()
        invariant
            i <= roots@.len(),
            line_views(lines@) == start + root_lines(indent@, roots@.take(i as int)),
        decreases roots.len() - i,
    {
        assert(roots@.take(i + 1).drop_last() =~= roots@.take(i as int));
        assert(roots@.take(i + 1).last() == roots@[i as int]);
        let root = &roots[i];
        let shown = if root.base_path.unicode_len() == 0 {
            "<unknown>"
        } else {
            root.base_path.as_str()
        };
        let text = String::from_str(indent).concat(shown).concat("  (slug: ").concat(
            root.slug.as_str(),
        ).concat(")");
        push_line(lines, Line::Stdout(text));
        assert(line_views(lines@) =~= start + root_lines(indent@, roots@.take(i + 1)));
        i = i + 1;
    }
    assert(roots@.take(i as int) =~= roots@);
}

/// The lines of workers, each with its roots below.
pub open spec fn worker_lines(workers: Seq<WorkerInfo>) -> Seq<LineView>
    decreases workers.len(),
{
    if workers.len() == 0 {
        Seq::empty()
    } else {
        worker_lines(workers.drop_last()).push((false, worker_line(workers.last())))
            + root_lines("       "@, workers.last().roots@)
    }
}

fn push_workers(lines: &mut Vec<Line>, workers: &Vec<WorkerInfo>)
    ensures
        line_views(final(lines)@) == line_views(old(lines)@) + worker_lines(workers@),
{
    let ghost start = line_views(lines@);
    let mut i: usize = 0;
    assert(workers@.take(0) =~= Seq::empty());
    assert(start + worker_lines(workers@.take(0)) =~= start);
    while i < workers.len()
        invariant
            i <= workers@.len(),
            line_views(lines@) == start + worker_lines(workers@.take(i as int)),
        decreases workers.len() - i,
    {
        assert(workers@.take(i + 1).drop_last() =~= workers@.take(i as int));
        assert(workers@.take(i + 1).last() == workers@[i as int]);
        push_line(lines, Line::Stdout(worker_text(&workers[i])));
        push_roots(lines, "       ", &workers[i].roots);
        assert(line_views(lines@) =~= start + worker_lines(workers@.take(i + 1)));
        i = i + 1;
    }
    assert(workers@.take(i as int) =~= workers@);
}

/// The heading above daemons.
pub open spec fn daemon_heading() -> Seq<char> {
    crate::text::padded("PID"@, 10) + "  "@ + crate::text::padded("STATE"@, 7) + "  "@
        + crate::text::padded("SLUG"@, 16) + "  BASE-PATH"@
}

/// Whether a daemon lives, as text.
pub open spec fn state_text(alive: bool) -> Seq<char> {
    if alive {
        "live"@
    } else {
        "stale"@
    }
}

/// The line of a daemon.
pub open spec fn daemon_line(d: Daemon) -> Seq<char> {
    crate::text::padded(crate::text::decimal_text(d.pid as nat), 10) + "  "@ + crate::text::padded(
        state_text(d.alive),
        7,
    ) + "  "@ + crate::text::padded(d.slug@, 16) + "  "@ + (match d.base_path {
        Some(p) => p@,
        None => "<unknown>"@,
    })
}

/// The lines of daemons.
pub open spec fn daemon_lines(daemons: Seq<Daemon>) -> Seq<LineView>
    decreases daemons.len(),
{
    if daemons.len() == 0 {
        Seq::empty()
    } else {
        daemon_lines(daemons.drop_last()).push((false, daemon_line(daemons.last())))
    }
}

fn push_daemons(lines: &mut Vec<Line>, daemons: &Vec<Daemon>)
    ensures
        line_views(final(lines)@) == line_views(old(lines)@) + daemon_lines(daemons@),
{
    let ghost start = line_views(lines@);
    let mut i: usize = 0;
    assert(daemons@.take(0) =~= Seq::empty());
    assert(start + daemon_lines(daemons@.take(0)) =~= start);
    while i < daemons.len()
        invariant
            i <= daemons@.len(),
            line_views(lines@) == start + daemon_lines(daemons@.take(i as int)),
        decreases daemons.len() - i,
    {
        assert(daemons@.take(i + 1).drop_last() =~= daemons@.take(i as int));
        assert(daemons@.take(i + 1).last() == daemons@[i as int]);
        let d = &daemons[i];
        let state = if d.alive {
            "live"
        } else {
            "stale"
        };
        let base = match &d.base_path {
            Some(p) => p.as_str(),
            None => "<unknown>",
        };
        let text = pad_right(decimal(d.pid as u64).as_str(), 10).concat("  ").concat(
            pad_right(state, 7).as_str(),
        ).concat("  ").concat(pad_right(d.slug.as_str(), 16).as_str()).concat("  ").concat(base);
        push_line(lines, Line::Stdout(text));
        assert(line_views(lines@) =~= start + daemon_lines(daemons@.take(i + 1)));
        i = i + 1;
    }
    assert(daemons@.take(i as int) =~= daemons@);
}

/// A daemon as shown in a document.
pub open spec fn is_entry(e: LegacyEntry, d: Daemon) -> bool {
    &&& e.pid == d.pid
    &&& e.live == d.alive
    &&& e.slug == d.slug
    &&& crate::config::text_view(e.base_path) == crate::config::text_view(d.base_path)
}

/// The workers that a master's answer lists.
pub fn listed_workers(answer: Option<MasterResponse>) -> (r: Option<Vec<WorkerInfo>>)
    ensures
        r == match answer {
            Some(MasterResponse::WorkerList { workers }) => Some(workers),
            _ => None,
        },
{
    match answer {
        Some(MasterResponse::WorkerList { workers }) => Some(workers),
        _ => None,
    }
}

/// The lines of a list of a master's workers.
pub open spec fn master_list_lines(master_pid: u32, workers: Seq<WorkerInfo>) -> Seq<LineView> {
    seq![
        (
            false,
            "master PID: "@ + crate::text::decimal_text(master_pid as nat) + "  workers: "@
                + crate::text::decimal_text(workers.len()),
        ),
        (false, worker_heading()),
    ] + worker_lines(workers)
}

/// The lines of a list of single-root daemons.
pub open spec fn daemon_list_lines(daemons: Seq<Daemon>) -> Seq<LineView> {
    let note = (true, "Note: master not running, showing legacy per-root daemon list"@);
    if daemons.len() == 0 {
        seq![note, (false, "No fff-engine daemons running."@)]
    } else {
        seq![note, (false, daemon_heading())] + daemon_lines(daemons)
    }
}

/// Lists what runs: the master and its workers, or single-root daemons where
/// there is no master.
pub fn cmd_list(
    json: bool,
    workers: Option<Vec<WorkerInfo>>,
    master_pid: u32,
    daemons: &Vec<Daemon>,
) -> (r: Report)
    ensures
        match workers {
            Some(ws) => if json {
                shows(
                    r,
                    JsonDoc::ListMaster {
                        master_pid,
                        worker_count: ws@.len() as usize,
                        workers: ws,
                    },
                    0,
                )
            } else {
                says(r, master_list_lines(master_pid, ws@), 0)
            },
            None => if !json {
                says(r, daemon_list_lines(daemons@), 0)
            } else if daemons@.len() == 0 {
                shows(r, JsonDoc::ListNone, 0)
            } else {
                &&& r.lines@.len() == 0
                &&& r.exit == 0
                &&& r.doc matches Some(JsonDoc::ListLegacy(entries)) && {
                    &&& entries@.len() == daemons@.len()
                    &&& forall|i: int|
                        0 <= i < daemons@.len() ==> is_entry(#[trigger] entries@[i], daemons@[i])
                }
            },
        },
{
    if let Some(ws) = workers {
        if json {
            let worker_count: usize = ws.len();
            return doc_report(JsonDoc::ListMaster { master_pid, worker_count, workers: ws }, 0);
        }
        let mut lines: Vec<Line> = Vec::new();
        let summary = String::from_str("master PID: ").concat(
            decimal(master_pid as u64).as_str(),
        ).concat("  workers: ").concat(decimal(ws.len() as u64).as_str());
        push_line(&mut lines, Line::Stdout(summary));
        push_line(&mut lines, Line::Stdout(worker_heading_line()));
        push_workers(&mut lines, &ws);
        assert(line_views(lines@) =~= master_list_lines(master_pid, ws@));
        return Report { lines, doc: None, exit: 0 };
    }
    if json {
        if daemons.len() == 0 {
            return doc_report(JsonDoc::ListNone, 0);
        }
        let mut entries: Vec<LegacyEntry> = Vec::new();
        let mut i: usize = 0;
        while i < daemons.len()
            invariant
                i <= daemons@.len(),
                entries@.len() == i,
                forall|j: int| 0 <= j < i ==> is_entry(#[trigger] entries@[j], daemons@[j]),
            decreases daemons.len() - i,
        {
            let d = &daemons[i];
            entries.push(
                LegacyEntry {
                    pid: d.pid,
                    live: d.alive,
                    slug: d.slug.clone(),
                    base_path: d.base_path.clone(),
                },
            );
            i = i + 1;
        }
        return doc_report(JsonDoc::ListLegacy(entries), 0);
    }
    let mut lines: Vec<Line> = Vec::new();
    push_line(
        &mut lines,
        Line::Stderr(
            String::from_str("Note: master not running, showing legacy per-root daemon list"),
        ),
    );
    if daemons.len() == 0 {
        push_line(&mut lines, Line::Stdout(String::from_str("No fff-engine daemons running.")));
    } else {
        let heading = pad_right("PID", 10).concat("  ").concat(pad_right("STATE", 7).as_str()).concat(
            "  ",
        ).concat(pad_right("SLUG", 16).as_str()).concat("  BASE-PATH");
        push_line(&mut lines, Line::Stdout(heading));
        push_daemons(&mut lines, daemons);
    }
    assert(line_views(lines@) =~= daemon_list_lines(daemons@));
    Report { lines, doc: None, exit: 0 }
}

/// The failure of a request to the master: its error, no master, or an answer
/// that makes no sense.
pub open spec fn master_failure(r: Report, json: bool, answer: Option<MasterResponse>) -> bool {
    match answer {
        Some(MasterResponse::Error(e)) => fails(r, json, e@, "master error: "@ + e@, 1),
        None => fails(r, json, "master not running"@, "master not running"@, 1),
        _ => fails(r, json, "unexpected response"@, "unexpected response"@, 1),
    }
}

fn report_master_failure(json: bool, answer: Option<MasterResponse>) -> (r: Report)
    ensures
        master_failure(r, json, answer),
{
    match answer {
        Some(MasterResponse::Error(e)) => {
            let line = String::from_str("master error: ").concat(e.as_str());
            error_report(json, e.as_str(), line.as_str(), 1)
        },
        None => error_report(json, "master not running", "master not running", 1),
        _ => error_report(json, "unexpected response", "unexpected response", 1),
    }
}

/// Lists the master's workers.
pub fn cmd_list_workers(json: bool, answer: Option<MasterResponse>) -> (r: Report)
    ensures
        match answer {
            Some(MasterResponse::WorkerList { workers }) => if json {
                shows(r, JsonDoc::Workers(workers), 0)
            } else {
                says(r, seq![(false, worker_heading())] + worker_lines(workers@), 0)
            },
            _ => master_failure(r, json, answer),
        },
{
    match answer {
        Some(MasterResponse::WorkerList { workers }) => {
            if json {
                return doc_report(JsonDoc::Workers(workers), 0);
            }
            let mut lines: Vec<Line> = Vec::new();
            push_line(&mut lines, Line::Stdout(worker_heading_line()));
            push_workers(&mut lines, &workers);
            assert(line_views(lines@) =~= seq![(false, worker_heading())] + worker_lines(workers@));
            Report { lines, doc: None, exit: 0 }
        },
        other => report_master_failure(json, other),
    }
}

/// The lines about one worker.
pub open spec fn worker_status_lines(info: WorkerInfo) -> Seq<LineView> {
    seq![
        (
            false,
            "worker-"@ + crate::text::decimal_text(info.index as nat) + ": pid="@
                + crate::text::decimal_text(info.pid as nat) + " roots="@
                + crate::text::decimal_text(info.roots@.len()),
        ),
        (false, "  socket: "@ + info.socket_path@),
    ] + root_lines("  "@, info.roots@)
}

/// Shows one worker.
pub fn cmd_worker_status(json: bool, answer: Option<MasterResponse>) -> (r: Report)
    ensures
        match answer {
            Some(MasterResponse::WorkerInfo(info)) => if json {
                shows(r, JsonDoc::Worker(info), 0)
            } else {
                says(r, worker_status_lines(info), 0)
            },
            _ => master_failure(r, json, answer),
        },
{
    match answer {
        Some(MasterResponse::WorkerInfo(info)) => {
            if json {
                return doc_report(JsonDoc::Worker(info), 0);
            }
            let mut lines: Vec<Line> = Vec::new();
            let first = String::from_str("worker-").concat(decimal(info.index as u64).as_str()).concat(
                ": pid=",
            ).concat(decimal(info.pid as u64).as_str()).concat(" roots=").concat(
                decimal(info.root_count() as u64).as_str(),
            );
            push_line(&mut lines, Line::Stdout(first));
            push_line(
                &mut lines,
                Line::Stdout(String::from_str("  socket: ").concat(info.socket_path.as_str())),
            );
            push_roots(&mut lines, "  ", &info.roots);
            assert(line_views(lines@) =~= worker_status_lines(info));
            Report { lines, doc: None, exit: 0 }
        },
        other => report_master_failure(json, other),
    }
}

/// The lines about where everything of a root is.
pub open spec fn path_lines(p: PathsInfo) -> Seq<LineView> {
    seq![
        (false, "base_path     : "@ + p.base_path@),
        (false, "slug          : "@ + p.slug@),
        (false, "socket        : "@ + p.socket@),
        (false, "lockfile      : "@ + p.lockfile@),
        (false, "frecency      : "@ + p.frecency@),
        (false, "log           : "@ + p.log@),
        (false, "master.sock   : "@ + p.master_sock@),
        (false, "master.lock   : "@ + p.master_lock@),
        (false, "routing.json  : "@ + p.routing@),
    ]
}

/// Shows where everything of a root is.
pub fn cmd_paths(json: bool, paths: PathsInfo) -> (r: Report)
    ensures
        if json {
            shows(r, JsonDoc::Paths(paths), 0)
        } else {
            says(r, path_lines(paths), 0)
        },
{
    if json {
        return doc_report(JsonDoc::Paths(paths), 0);
    }
    let mut lines: Vec<Line> = Vec::new();
    let p = &paths;
    push_line(
        &mut lines,
        Line::Stdout(String::from_str("base_path     : ").concat(p.base_path.as_str())),
    );
    push_line(&mut lines, Line::Stdout(String::from_str("slug          : ").concat(p.slug.as_str())));
    push_line(
        &mut lines,
        Line::Stdout(String::from_str("socket        : ").concat(p.socket.as_str())),
    );
    push_line(
        &mut lines,
        Line::Stdout(String::from_str("lockfile      : ").concat(p.lockfile.as_str())),
    );
    push_line(
        &mut lines,
        Line::Stdout(String::from_str("frecency      : ").concat(p.frecency.as_str())),
    );
    push_line(&mut lines, Line::Stdout(String::from_str("log           : ").concat(p.log.as_str())));
    push_line(
        &mut lines,
        Line::Stdout(String::from_str("master.sock   : ").concat(p.master_sock.as_str())),
    );
    push_line(
        &mut lines,
        Line::Stdout(String::from_str("master.lock   : ").concat(p.master_lock.as_str())),
    );
    push_line(
        &mut lines,
        Line::Stdout(String::from_str("routing.json  : ").concat(p.routing.as_str())),
    );
    assert(line_views(lines@) =~= path_lines(paths));
    Report { lines, doc: None, exit: 0 }
}

/// What the lock file of a root's own daemon tells.
#[derive(Debug)]
pub struct LegacyLock {
    pub pid: u32,
    pub alive: bool,
    pub path: String,
}

/// A root as `cmd_status` asks for it.
pub struct StatusQuery {
    pub base_path: String,
    pub slug: String,
    /// The socket of the root's own daemon.
    pub socket: String,
}

/// A worker that stands for a root's own daemon.
pub open spec fn is_singleton(w: WorkerInfo, q: StatusQuery, pid: u32) -> bool {
    &&& w.index == 0
    &&& w.socket_path == q.socket
    &&& w.pid == pid
    &&& w.roots@.len() == 1
    &&& w.roots@[0].slug == q.slug
    &&& w.roots@[0].base_path == q.base_path
}

/// A document about a root that nothing serves.
pub open spec fn misses(r: Report, q: StatusQuery, text: Seq<char>, exit: int) -> bool {
    &&& r.lines@.len() == 0
    &&& r.exit == exit
    &&& r.doc matches Some(JsonDoc::StatusMiss { base_path, error }) && base_path == q.base_path
        && error@ == text
}

/// What the master says of a root: its worker, or why it has none. Other
/// answers say nothing.
pub open spec fn route_told(
    r: Report,
    json: bool,
    q: StatusQuery,
    answer: MasterResponse,
) -> bool {
    match answer {
        MasterResponse::WorkerInfo(info) => if json {
            shows(r, JsonDoc::StatusHit { base_path: q.base_path, worker: info }, 0)
        } else {
            says(
                r,
                seq![
                    (
                        false,
                        "Route for "@ + q.base_path@ + ": worker-"@ + crate::text::decimal_text(
                            info.index as nat,
                        ) + " (pid="@ + crate::text::decimal_text(info.pid as nat) + ", roots="@
                            + crate::text::decimal_text(info.roots@.len()) + ")"@,
                    ),
                    (false, "  socket: "@ + info.socket_path@),
                ],
                0,
            )
        },
        MasterResponse::Error(e) => if json {
            misses(r, q, e@, 0)
        } else {
            says(r, seq![(false, q.base_path@ + " → "@ + e@)], 0)
        },
        _ => true,
    }
}

/// What the lock file says of a root.
pub open spec fn lock_told(r: Report, json: bool, q: StatusQuery, lock: Option<LegacyLock>) -> bool {
    match lock {
        Some(l) => if l.alive {
            if json {
                &&& r.lines@.len() == 0
                &&& r.exit == 0
                &&& r.doc matches Some(JsonDoc::StatusHit { base_path, worker }) && base_path
                    == q.base_path && is_singleton(worker, q, l.pid)
            } else {
                says(
                    r,
                    seq![
                        (false, "fff-engine for "@ + q.base_path@ + " is running (singleton)."@),
                        (
                            false,
                            "  PID: "@ + crate::text::decimal_text(l.pid as nat) + "  lock: "@
                                + l.path@,
                        ),
                    ],
                    0,
                )
            }
        } else if json {
            misses(r, q, "stale PID "@ + crate::text::decimal_text(l.pid as nat), 1)
        } else {
            says(
                r,
                seq![
                    (
                        true,
                        "fff-engine for "@ + q.base_path@ + " is NOT running (stale PID "@
                            + crate::text::decimal_text(l.pid as nat) + ")."@,
                    ),
                ],
                1,
            )
        },
        None => if json {
            misses(r, q, "no lockfile"@, 1)
        } else {
            says(
                r,
                seq![
                    (true, "fff-engine for "@ + q.base_path@ + " is NOT running (no lockfile)."@),
                ],
                1,
            )
        },
    }
}

/// The master has something to say of the root.
pub open spec fn tells_route(answer: Option<MasterResponse>) -> bool {
    answer is Some && (answer->0 is WorkerInfo || answer->0 is Error)
}

/// Shows which worker serves a root; without word from the master, what the lock
/// file of the root's own daemon tells.
pub fn cmd_status(
    json: bool,
    q: StatusQuery,
    answer: Option<MasterResponse>,
    lock: Option<LegacyLock>,
) -> (r: Report)
    ensures
        if tells_route(answer) {
            route_told(r, json, q, answer->0)
        } else {
            lock_told(r, json, q, lock)
        },
{
    match answer {
        Some(MasterResponse::WorkerInfo(info)) => {
            if json {
                return doc_report(
                    JsonDoc::StatusHit { base_path: q.base_path, worker: info },
                    0,
                );
            }
            let mut lines: Vec<Line> = Vec::new();
            let first = String::from_str("Route for ").concat(q.base_path.as_str()).concat(
                ": worker-",
            ).concat(decimal(info.index as u64).as_str()).concat(" (pid=").concat(
                decimal(info.pid as u64).as_str(),
            ).concat(", roots=").concat(decimal(info.root_count() as u64).as_str()).concat(")");
            let ghost f = first@;
            push_line(&mut lines, Line::Stdout(first));
            let second = String::from_str("  socket: ").concat(info.socket_path.as_str());
            let ghost s = second@;
            push_line(&mut lines, Line::Stdout(second));
            assert(line_views(lines@) =~= seq![(false, f), (false, s)]);
            return Report { lines, doc: None, exit: 0 };
        },
        Some(MasterResponse::Error(e)) => {
            if json {
                return doc_report(JsonDoc::StatusMiss { base_path: q.base_path, error: e }, 0);
            }
            return line_report(
                Line::Stdout(q.base_path.clone().concat(" → ").concat(e.as_str())),
                0,
            );
        },
        _ => {},
    }
    match lock {
        Some(l) => {
            if l.alive {
                if json {
                    let mut roots: Vec<RootEntry> = Vec::new();
                    roots.push(RootEntry { slug: q.slug, base_path: q.base_path.clone() });
                    let worker = WorkerInfo { index: 0, socket_path: q.socket, roots, pid: l.pid };
                    return doc_report(JsonDoc::StatusHit { base_path: q.base_path, worker }, 0);
                }
                let mut lines: Vec<Line> = Vec::new();
                let first = String::from_str("fff-engine for ").concat(q.base_path.as_str()).concat(
                    " is running (singleton).",
                );
                let ghost f = first@;
                push_line(&mut lines, Line::Stdout(first));
                let second = String::from_str("  PID: ").concat(decimal(l.pid as u64).as_str()).concat(
                    "  lock: ",
                ).concat(l.path.as_str());
                let ghost s = second@;
                push_line(&mut lines, Line::Stdout(second));
                assert(line_views(lines@) =~= seq![(false, f), (false, s)]);
                return Report { lines, doc: None, exit: 0 };
            }
            if json {
                let error = String::from_str("stale PID ").concat(decimal(l.pid as u64).as_str());
                return doc_report(JsonDoc::StatusMiss { base_path: q.base_path, error }, 1);
            }
            line_report(
                Line::Stderr(
                    String::from_str("fff-engine for ").concat(q.base_path.as_str()).concat(
                        " is NOT running (stale PID ",
                    ).concat(decimal(l.pid as u64).as_str()).concat(")."),
                ),
                1,
            )
        },
        None => {
            if json {
                return doc_report(
                    JsonDoc::StatusMiss {
                        base_path: q.base_path,
                        error: String::from_str("no lockfile"),
                    },
                    1,
                );
            }
            line_report(
                Line::Stderr(
                    String::from_str("fff-engine for ").concat(q.base_path.as_str()).concat(
                        " is NOT running (no lockfile).",
                    ),
                ),
                1,
            )
        },
    }
}

/// Every root has a line of its own, in order, with its path and its slug.
pub proof fn law_every_root_has_a_line(indent: Seq<char>, roots: Seq<RootEntry>)
    ensures
        root_lines(indent, roots).len() == roots.len(),
        forall|i: int|
            0 <= i < roots.len() ==> {
                let l = #[trigger] root_lines(indent, roots)[i];
                &&& !l.0
                &&& l.1 == indent + (if roots[i].base_path@.len() == 0 {
                    "<unknown>"@
                } else {
                    roots[i].base_path@
                }) + "  (slug: "@ + roots[i].slug@ + ")"@
            },
    decreases roots.len(),
{
    if roots.len() > 0 {
        law_every_root_has_a_line(indent, roots.drop_last());
        let front = roots.drop_last();
        assert forall|i: int| 0 <= i < front.len() implies #[trigger] root_lines(indent, roots)[i]
            == root_lines(indent, front)[i] by {}
    }
}

/// Every worker has a line of its own, and right below it a line for each of its
/// roots, in order.
pub proof fn law_every_worker_has_its_lines(workers: Seq<WorkerInfo>, i: int) -> (at: int)
    requires
        0 <= i < workers.len(),
    ensures
        0 <= at,
        at + workers[i].roots@.len() < worker_lines(workers).len(),
        worker_lines(workers)[at] == (false, worker_line(workers[i])),
        worker_lines(workers).subrange(at + 1, at + 1 + workers[i].roots@.len()) == root_lines(
            "       "@,
            workers[i].roots@,
        ),
    decreases workers.len(),
{
    let front = workers.drop_last();
    let before = worker_lines(front);
    let all = worker_lines(workers);
    let roots = workers[i].roots@;
    law_every_root_has_a_line("       "@, roots);
    if i < front.len() {
        assert(front[i] == workers[i]);
        let at = law_every_worker_has_its_lines(front, i);
        assert(all[at] == before[at]);
        assert(all.subrange(at + 1, at + 1 + roots.len()) =~= before.subrange(
            at + 1,
            at + 1 + roots.len(),
        ));
        at
    } else {
        let at = before.len() as int;
        assert(all.subrange(at + 1, at + 1 + roots.len()) =~= root_lines("       "@, roots));
        at
    }
}

/// The lines of workers are as many as there are workers and roots.
pub proof fn law_how_many_lines_workers_have(workers: Seq<WorkerInfo>)
    ensures
        worker_lines(workers).len() == workers.fold_left(
            0int,
            |n: int, w: WorkerInfo| n + 1 + w.roots@.len(),
        ),
    decreases workers.len(),
{
    if workers.len() > 0 {
        law_how_many_lines_workers_have(workers.drop_last());
        law_every_root_has_a_line("       "@, workers.last().roots@);
    }
}

/// The line of a worker tells its index, its process, how many roots it serves and
/// its socket, in this order.
pub proof fn law_what_a_worker_line_tells(w: WorkerInfo)
    ensures
        worker_line(w) == crate::text::padded(crate::text::decimal_text(w.index as nat), 6) + "  "@
            + crate::text::padded(crate::text::decimal_text(w.pid as nat), 7) + "  "@
            + crate::text::padded(crate::text::decimal_text(w.roots@.len()), 8) + "  "@
            + w.socket_path@,
{
}

/// Every daemon has a line of its own, in order, which tells whether it lives.
pub proof fn law_every_daemon_has_a_line(daemons: Seq<Daemon>)
    ensures
        daemon_lines(daemons).len() == daemons.len(),
        forall|i: int|
            0 <= i < daemons.len() ==> {
                let d = daemons[i];
                let l = #[trigger] daemon_lines(daemons)[i];
                &&& !l.0
                &&& l.1 == crate::text::padded(crate::text::decimal_text(d.pid as nat), 10) + "  "@
                    + crate::text::padded(
                    if d.alive {
                        "live"@
                    } else {
                        "stale"@
                    },
                    7,
                ) + "  "@ + crate::text::padded(d.slug@, 16) + "  "@ + (match d.base_path {
                    Some(p) => p@,
                    None => "<unknown>"@,
                })
            },
    decreases daemons.len(),
{
    if daemons.len() > 0 {
        let front = daemons.drop_last();
        law_every_daemon_has_a_line(front);
        assert forall|i: int| 0 <= i < front.len() implies #[trigger] daemon_lines(daemons)[i]
            == daemon_lines(front)[i] by {}
    }
}

/// A list of daemons holds a line for each of them below a note and a heading.
pub proof fn law_what_a_list_holds(daemons: Seq<Daemon>, master_pid: u32, workers: Seq<WorkerInfo>)
    ensures
        daemons.len() > 0 ==> daemon_list_lines(daemons).skip(2) == daemon_lines(daemons),
        daemon_list_lines(daemons)[0].0,
        master_list_lines(master_pid, workers).skip(2) == worker_lines(workers),
        master_list_lines(master_pid, workers)[0] == (
            false,
            "master PID: "@ + crate::text::decimal_text(master_pid as nat) + "  workers: "@
                + crate::text::decimal_text(workers.len()),
        ),
{
    assert(daemons.len() > 0 ==> daemon_list_lines(daemons).skip(2) =~= daemon_lines(daemons));
    assert(master_list_lines(master_pid, workers).skip(2) =~= worker_lines(workers));
}

/// A document lists each daemon as it is.
pub proof fn law_what_an_entry_tells(e: LegacyEntry, d: Daemon)
    requires
        is_entry(e, d),
    ensures
        e.pid == d.pid,
        e.live == d.alive,
        e.slug@ == d.slug@,
        d.base_path is None ==> e.base_path is None,
        d.base_path matches Some(p) ==> (e.base_path matches Some(q) && q@ == p@),
{
}

/// The word of the master counts before the lock file. A root that the master has a
/// word on, or whose own daemon lives, is reported without an error; else the
/// report is an error, for the error stream.
pub proof fn law_what_a_status_tells(
    r: Report,
    json: bool,
    q: StatusQuery,
    answer: Option<MasterResponse>,
    lock: Option<LegacyLock>,
)
    requires
        if tells_route(answer) {
            route_told(r, json, q, answer->0)
        } else {
            lock_told(r, json, q, lock)
        },
    ensures
        r.exit == 0 <==> (answer matches Some(MasterResponse::WorkerInfo(_))) || (
        answer matches Some(MasterResponse::Error(_))) || (lock matches Some(l) && l.alive),
        r.exit == 0 || r.exit == 1,
        json <==> r.doc is Some,
        json ==> r.lines@.len() == 0,
        !json && r.exit == 1 ==> r.lines@.len() == 1 && r.lines@[0] is Stderr,
        !json && r.exit == 0 ==> r.lines@.len() > 0 && forall|i: int|
            0 <= i < r.lines@.len() ==> (#[trigger] r.lines@[i]) is Stdout,
        json ==> (answer matches Some(MasterResponse::WorkerInfo(info)) ==> r.doc == Some(
            JsonDoc::StatusHit { base_path: q.base_path, worker: info },
        )),
{
    let views = line_views(r.lines@);
    assert(views.len() == r.lines@.len());
    assert forall|i: int| 0 <= i < r.lines@.len() implies #[trigger] views[i] == line_view(
        r.lines@[i],
    ) by {}
    if !json {
        assert forall|i: int| 0 <= i < r.lines@.len() implies (((#[trigger] r.lines@[i]) is Stderr)
            <==> views[i].0) by {
            assert(views[i] == line_view(r.lines@[i]));
        }
    }
}

/// A report of lines prints these lines, each to its stream, and ends with this
/// code.
pub proof fn law_what_a_report_prints(r: Report, lines: Seq<LineView>, exit: int)
    requires
        says(r, lines, exit),
    ensures
        r.exit == exit,
        r.doc is None,
        r.lines@.len() == lines.len(),
        forall|i: int|
            0 <= i < lines.len() ==> match #[trigger] r.lines@[i] {
                Line::Stdout(t) => !lines[i].0 && t@ == lines[i].1,
                Line::Stderr(t) => lines[i].0 && t@ == lines[i].1,
            },
{
    let views = line_views(r.lines@);
    assert(views.len() == r.lines@.len());
    assert forall|i: int| 0 <= i < lines.len() implies match #[trigger] r.lines@[i] {
        Line::Stdout(t) => !lines[i].0 && t@ == lines[i].1,
        Line::Stderr(t) => lines[i].0 && t@ == lines[i].1,
    } by {
        assert(views[i] == line_view(r.lines@[i]));
    }
}

/// A report of a document prints nothing else.
pub proof fn law_what_a_document_report_prints(r: Report, doc: JsonDoc, exit: int)
    requires
        shows(r, doc, exit),
    ensures
        r.exit == exit,
        r.doc == Some(doc),
        r.lines@.len() == 0,
{
}

/// An error is told once: in a document, or on the error stream.
pub proof fn law_how_errors_are_told(
    r: Report,
    json: bool,
    doc_text: Seq<char>,
    line: Seq<char>,
    exit: int,
)
    requires
        fails(r, json, doc_text, line, exit),
    ensures
        r.exit == exit,
        json ==> r.lines@.len() == 0 && (r.doc matches Some(JsonDoc::Error(m)) && m@ == doc_text),
        !json ==> r.doc is None && r.lines@.len() == 1 && (r.lines@[0] matches Line::Stderr(t) && t@
            == line),
{
    if !json {
        law_what_a_report_prints(r, seq![(true, line)], exit);
    }
}

/// A request that the master did not answer as asked fails with code one, and tells
/// what the master said, or that there is none.
pub proof fn law_what_a_failed_request_tells(r: Report, json: bool, answer: Option<MasterResponse>)
    requires
        master_failure(r, json, answer),
    ensures
        r.exit == 1,
        json && (answer matches Some(MasterResponse::Error(_))) ==> (
        r.doc matches Some(JsonDoc::Error(m)) && m@ == answer->0->Error_0@),
        !json && (answer matches Some(MasterResponse::Error(_))) ==> (r.lines@.len() == 1 && (
        r.lines@[0] matches Line::Stderr(t) && t@ == "master error: "@ + answer->0->Error_0@)),
        json && answer is None ==> (r.doc matches Some(JsonDoc::Error(m)) && m@
            == "master not running"@),
{
    match answer {
        Some(MasterResponse::Error(e)) => {
            law_how_errors_are_told(r, json, e@, "master error: "@ + e@, 1);
        },
        None => {
            law_how_errors_are_told(r, json, "master not running"@, "master not running"@, 1);
        },
        _ => {
            law_how_errors_are_told(r, json, "unexpected response"@, "unexpected response"@, 1);
        },
    }
}

/// Every place of a root is shown on a line of its own, behind what it is.
pub proof fn law_every_place_is_shown(p: PathsInfo)
    ensures
        path_lines(p).len() == 9,
        path_lines(p)[0] == (false, "base_path     : "@ + p.base_path@),
        path_lines(p)[1] == (false, "slug          : "@ + p.slug@),
        path_lines(p)[2] == (false, "socket        : "@ + p.socket@),
        path_lines(p)[3] == (false, "lockfile      : "@ + p.lockfile@),
        path_lines(p)[4] == (false, "frecency      : "@ + p.frecency@),
        path_lines(p)[5] == (false, "log           : "@ + p.log@),
        path_lines(p)[6] == (false, "master.sock   : "@ + p.master_sock@),
        path_lines(p)[7] == (false, "master.lock   : "@ + p.master_lock@),
        path_lines(p)[8] == (false, "routing.json  : "@ + p.routing@),
{
}

/// The status of a worker tells its index, process, number of roots and socket, and
/// then each of its roots.
pub proof fn law_what_a_worker_status_tells(info: WorkerInfo)
    ensures
        worker_status_lines(info).len() == 2 + info.roots@.len(),
        worker_status_lines(info)[0] == (
            false,
            "worker-"@ + crate::text::decimal_text(info.index as nat) + ": pid="@
                + crate::text::decimal_text(info.pid as nat) + " roots="@
                + crate::text::decimal_text(info.roots@.len()),
        ),
        worker_status_lines(info)[1] == (false, "  socket: "@ + info.socket_path@),
        worker_status_lines(info).skip(2) == root_lines("  "@, info.roots@),
{
    law_every_root_has_a_line("  "@, info.roots@);
    assert(worker_status_lines(info).skip(2) =~= root_lines("  "@, info.roots@));
}

/// A daemon of one root is shown as a worker with that root alone.
pub proof fn law_a_lone_daemon_is_shown_as_a_worker(w: WorkerInfo, q: StatusQuery, pid: u32)
    requires
        is_singleton(w, q, pid),
    ensures
        w.pid == pid,
        w.socket_path@ == q.socket@,
        w.roots@.len() == 1,
        w.roots@[0].slug@ == q.slug@,
        w.roots@[0].base_path@ == q.base_path@,
{
}

/// The worker that the master names for a root is shown, with its index, process,
/// roots and socket; so is why the master has none; and without the master, what
/// the lock file tells.
pub proof fn law_what_a_status_says(
    r: Report,
    q: StatusQuery,
    answer: Option<MasterResponse>,
    lock: Option<LegacyLock>,
)
    requires
        if tells_route(answer) {
            route_told(r, false, q, answer->0)
        } else {
            lock_told(r, false, q, lock)
        },
    ensures
        answer matches Some(MasterResponse::WorkerInfo(info)) ==> r.lines@.len() == 2 && (
        r.lines@[0] matches Line::Stdout(t) && t@ == "Route for "@ + q.base_path@ + ": worker-"@
            + crate::text::decimal_text(info.index as nat) + " (pid="@ + crate::text::decimal_text(
            info.pid as nat,
        ) + ", roots="@ + crate::text::decimal_text(info.roots@.len()) + ")"@) && (
        r.lines@[1] matches Line::Stdout(t) && t@ == "  socket: "@ + info.socket_path@),
        answer is None && lock is None ==> r.lines@.len() == 1 && (
        r.lines@[0] matches Line::Stderr(t) && t@ == "fff-engine for "@ + q.base_path@
            + " is NOT running (no lockfile)."@),
        answer is None ==> (lock matches Some(l) ==> !l.alive ==> r.lines@.len() == 1 && (
        r.lines@[0] matches Line::Stderr(t) && t@ == "fff-engine for "@ + q.base_path@
            + " is NOT running (stale PID "@ + crate::text::decimal_text(l.pid as nat) + ")."@)),
        answer is None ==> (lock matches Some(l) ==> l.alive ==> r.lines@.len() == 2 && (
        r.lines@[0] matches Line::Stdout(t) && t@ == "fff-engine for "@ + q.base_path@
            + " is running (singleton)."@) && (r.lines@[1] matches Line::Stdout(t) && t@
            == "  PID: "@ + crate::text::decimal_text(l.pid as nat) + "  lock: "@ + l.path@)),
{
    let views = line_views(r.lines@);
    assert(views.len() == r.lines@.len());
    assert forall|i: int| 0 <= i < r.lines@.len() implies #[trigger] views[i] == line_view(
        r.lines@[i],
    ) by {}
    if r.lines@.len() > 0 {
        assert(views[0] == line_view(r.lines@[0]));
    }
    if r.lines@.len() > 1 {
        assert(views[1] == line_view(r.lines@[1]));
    }
}

/// The headings name the columns in the order of the lines below them.
pub proof fn law_what_headings_name()
    ensures
        worker_heading() == crate::text::padded("INDEX"@, 6) + "  "@ + crate::text::padded(
            "PID"@,
            7,
        ) + "  "@ + crate::text::padded("ROOTS"@, 8) + "  SOCKET"@,
        daemon_heading() == crate::text::padded("PID"@, 10) + "  "@ + crate::text::padded(
            "STATE"@,
            7,
        ) + "  "@ + crate::text::padded("SLUG"@, 16) + "  BASE-PATH"@,
{
}

/// A document about a root that nothing serves names the root and says why.
pub proof fn law_what_a_miss_tells(r: Report, q: StatusQuery, text: Seq<char>, exit: int)
    requires
        misses(r, q, text, exit),
    ensures
        r.exit == exit,
        r.lines@.len() == 0,
        r.doc matches Some(JsonDoc::StatusMiss { base_path, error }) && base_path@ == q.base_path@
            && error@ == text,
{
}

} // verus!
