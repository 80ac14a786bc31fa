//! The messages that clients, master and workers exchange.

use crate::routing::RootEntry;
use vstd::prelude::*;

verus! {

/// What a client asks of the master.
#[derive(Debug, Clone)]
pub enum MasterRequest {
    /// Which worker socket serves this root?
    Handshake { base_path: String },
    /// Every worker and its roots.
    ListWorkers,
    /// One worker, by index.
    WorkerStatus { index: u32 },
    /// Stop one worker.
    StopWorker { index: u32 },
    /// A worker dropped this root; nothing is sent back.
    EvictedRoot { slug: String },
    /// Where would this root go? Changes nothing.
    RouteInfo { base_path: String },
    /// Freshness of every root of every worker.
    Health,
}

/// What the master answers.
#[derive(Debug, Clone)]
pub enum MasterResponse {
    WorkerSocket { path: String, worker_index: u32 },
    WorkerList { workers: Vec<WorkerInfo> },
    WorkerInfo(WorkerInfo),
    Ack,
    Error(String),
    HealthReport(HealthReport),
}

/// One worker as reported to clients.
#[derive(Debug, Clone)]
pub struct WorkerInfo {
    pub index: u32,
    pub socket_path: String,
    pub roots: Vec<RootEntry>,
    pub pid: u32,
}

impl WorkerInfo {
    /// How many roots the worker serves.
    pub fn root_count(&self) -> (n: usize)
        ensures
            n == self.roots@.len(),
    {
        self.roots.len()
    }
}

/// What a client asks of a worker.
#[derive(Debug, Clone)]
pub enum SearchRequest {
    Grep { query: String, options: GrepOptions },
    FindFiles { query: String, options: FindOptions },
    MultiGrep { patterns: Vec<String>, constraints: Option<String>, options: GrepOptions },
    /// Counts an access; nothing is sent back.
    RecordAccess { path: String },
    /// Changes the log filter of the daemon.
    SetLogLevel { level: String },
    ListRecentFiles { limit: usize, dirty_only: bool },
    GetGitStatus { include_clean: bool },
    ListDirectories { limit: usize },
    /// The first message of a connection: the root it is about.
    Connect { base_path: String },
    /// Freshness of every root of this worker.
    Health,
    /// Drop a root, merging its access history into another one.
    DropRoot { slug: String, merge_into_slug: String },
}

/// What a worker answers.
#[derive(Debug, Clone)]
pub enum SearchResponse {
    SearchResults(Vec<WireSearchResult>),
    GrepResults(WireGrepResponse),
    Error(String),
    Ack,
    RecentFiles(Vec<WireSearchResult>),
    GitStatus(Vec<WireGitFile>),
    Directories(Vec<WireDirEntry>),
    Health(HealthResponse),
}

/// One page of content matches.
#[derive(Debug, Clone)]
pub struct WireGrepResponse {
    pub matches: Vec<WireGrepFileMatches>,
    pub total_files_searched: usize,
    pub total_files: usize,
    pub files_with_matches: usize,
    pub next_file_offset: usize,
    pub regex_fallback_error: Option<String>,
}

/// The matches of one file.
#[derive(Debug, Clone)]
pub struct WireGrepFileMatches {
    pub path: String,
    pub size: u64,
    pub git_status: Option<u32>,
    pub frecency_score: i32,
    pub matches: Vec<WireGrepMatch>,
}

/// One matching line.
#[derive(Debug, Clone)]
pub struct WireGrepMatch {
    pub line_number: u64,
    pub col: usize,
    pub line_text: String,
    /// Byte offsets of each match in `line_text`.
    pub match_byte_offsets: Vec<(u32, u32)>,
    pub is_definition: bool,
    pub context_before: Vec<String>,
    pub context_after: Vec<String>,
}

/// One file of a ranked list.
#[derive(Debug, Clone)]
pub struct WireSearchResult {
    pub path: String,
    pub score: i32,
    pub git_status: Option<u32>,
    pub frecency_score: i32,
}

/// One file with its git status as a label.
#[derive(Debug, Clone)]
pub struct WireGitFile {
    pub path: String,
    pub status: String,
    pub frecency_score: i32,
}

/// One directory with the peak score of its files.
#[derive(Debug, Clone)]
pub struct WireDirEntry {
    pub path: String,
    pub max_frecency: i32,
}

/// How to search file contents.
#[derive(Debug, Clone, Copy)]
pub struct GrepOptions {
    pub max_file_size: u64,
    pub max_matches_per_file: usize,
    pub smart_case: bool,
    pub file_offset: usize,
    pub page_limit: usize,
    pub mode: WireGrepMode,
    pub time_budget_ms: u64,
    pub before_context: usize,
    pub after_context: usize,
    pub classify_definitions: bool,
    pub trim_whitespace: bool,
}

/// How a pattern is read.
#[derive(Debug, Clone, Copy, PartialEq, Eq, Structural)]
pub enum WireGrepMode {
    PlainText,
    Regex,
    Fuzzy,
}

/// The options of a grep that names none.
pub open spec fn default_grep_options() -> GrepOptions {
    GrepOptions {
        max_file_size: 10485760,
        max_matches_per_file: 10,
        smart_case: true,
        file_offset: 0,
        page_limit: 50,
        mode: WireGrepMode::PlainText,
        time_budget_ms: 0,
        before_context: 0,
        after_context: 0,
        classify_definitions: false,
        trim_whitespace: true,
    }
}

impl Default for GrepOptions {
    fn default() -> (r: Self)
        ensures
            r == default_grep_options(),
    {
        GrepOptions {
            max_file_size: 10 * 1024 * 1024,
            max_matches_per_file: 10,
            smart_case: true,
            file_offset: 0,
            page_limit: 50,
            mode: WireGrepMode::PlainText,
            time_budget_ms: 0,
            before_context: 0,
            after_context: 0,
            classify_definitions: false,
            trim_whitespace: true,
        }
    }
}

/// How to search file names.
#[derive(Debug, Clone)]
pub struct FindOptions {
    pub max_threads: usize,
    pub current_file: Option<String>,
    pub combo_boost_score_multiplier: i32,
    pub min_combo_count: u32,
    pub offset: usize,
    pub limit: usize,
}

/// The options of a file search that names none.
pub open spec fn default_find_options() -> FindOptions {
    FindOptions {
        max_threads: 0,
        current_file: None,
        combo_boost_score_multiplier: 3,
        min_combo_count: 2,
        offset: 0,
        limit: 20,
    }
}

impl Default for FindOptions {
    fn default() -> (r: Self)
        ensures
            r == default_find_options(),
    {
        FindOptions {
            max_threads: 0,
            current_file: None,
            combo_boost_score_multiplier: 3,
            min_combo_count: 2,
            offset: 0,
            limit: 20,
        }
    }
}

/// Freshness of one root. `None` means not measured.
#[derive(Debug, Clone)]
pub struct RootHealth {
    pub slug: String,
    pub base_path: String,
    pub indexed_files: Option<u64>,
    pub last_scan_age_sec: Option<u64>,
    pub watcher_backlog: Option<u64>,
    pub dirty_count: Option<u64>,
    /// Seconds since the root was last queried.
    pub last_access_age_sec: Option<u64>,
}

/// Freshness of every root of one worker.
#[derive(Debug, Clone)]
pub struct HealthResponse {
    pub roots: Vec<RootHealth>,
}

/// One worker's part of a report.
#[derive(Debug, Clone)]
pub struct WorkerHealth {
    pub index: u32,
    pub pid: u32,
    pub socket_path: String,
    pub roots: Vec<RootHealth>,
}

/// Freshness of every worker, collected by the master.
#[derive(Debug, Clone)]
pub struct HealthReport {
    pub master_pid: u32,
    pub uptime_sec: u64,
    pub workers: Vec<WorkerHealth>,
}

/// A search that names no options looks at files of ten mebibytes at most, takes
/// fifty files and ten matches of each, in plain text; a search for names takes
/// twenty files.
pub proof fn law_what_is_searched_by_default()
    ensures
        default_grep_options().max_file_size == 10485760,
        default_grep_options().max_matches_per_file == 10,
        default_grep_options().page_limit == 50,
        default_grep_options().file_offset == 0,
        default_grep_options().smart_case,
        default_grep_options().mode is PlainText,
        default_grep_options().time_budget_ms == 0,
        default_grep_options().before_context == 0,
        default_grep_options().after_context == 0,
        !default_grep_options().classify_definitions,
        default_grep_options().trim_whitespace,
        default_find_options().limit == 20,
        default_find_options().offset == 0,
        default_find_options().max_threads == 0,
        default_find_options().current_file is None,
        default_find_options().combo_boost_score_multiplier == 3,
        default_find_options().min_combo_count == 2,
{
}

} // verus!
