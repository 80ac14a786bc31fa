//! What a search asks of the index.

use crate::types::{FindOptions, GrepOptions, SearchRequest, SearchResponse, WireGrepMode};
use vstd::prelude::*;

verus! {

/// How the index reads a pattern.
#[derive(Debug, Clone, Copy, PartialEq, Eq, Structural)]
pub enum GrepMode {
    PlainText,
    Regex,
    Fuzzy,
}

/// How the index searches file contents.
#[derive(Debug, Clone, Copy)]
pub struct GrepSearchOptions {
    pub max_file_size: u64,
    pub max_matches_per_file: usize,
    pub smart_case: bool,
    pub file_offset: usize,
    pub page_limit: usize,
    pub mode: GrepMode,
    pub time_budget_ms: u64,
    pub before_context: usize,
    pub after_context: usize,
    pub classify_definitions: bool,
    pub trim_whitespace: bool,
}

/// Which part of a ranked list is wanted.
#[derive(Debug, Clone, Copy)]
pub struct PaginationArgs {
    pub offset: usize,
    pub limit: usize,
}

/// How the index searches file names.
#[derive(Debug)]
pub struct FuzzySearchOptions {
    pub max_threads: usize,
    pub current_file: Option<String>,
    pub project_path: Option<String>,
    pub combo_boost_score_multiplier: i32,
    pub min_combo_count: u32,
    pub pagination: PaginationArgs,
}

/// A question to the index, answered with the handler of the same name.
#[derive(Debug)]
pub enum IndexQuery {
    Grep { query: String, options: GrepSearchOptions },
    MultiGrep { patterns: Vec<String>, constraints: String, options: GrepSearchOptions },
    FindFiles { query: String, options: FuzzySearchOptions },
    ListRecentFiles { limit: usize, dirty_only: bool },
    GetGitStatus { include_clean: bool },
    ListDirectories { limit: usize },
    Health,
}

/// The mode of the index that a mode of a message stands for.
pub open spec fn core_mode(mode: WireGrepMode) -> GrepMode {
    match mode {
        WireGrepMode::PlainText => GrepMode::PlainText,
        WireGrepMode::Regex => GrepMode::Regex,
        WireGrepMode::Fuzzy => GrepMode::Fuzzy,
    }
}

pub fn wire_mode_to_grep_mode(mode: WireGrepMode) -> (r: GrepMode)
    ensures
        r == core_mode(mode),
{
    match mode {
        WireGrepMode::PlainText => GrepMode::PlainText,
        WireGrepMode::Regex => GrepMode::Regex,
        WireGrepMode::Fuzzy => GrepMode::Fuzzy,
    }
}

/// The options of a content search as the index takes them.
pub open spec fn core_grep_options(o: GrepOptions) -> GrepSearchOptions {
    GrepSearchOptions {
        max_file_size: o.max_file_size,
        max_matches_per_file: o.max_matches_per_file,
        smart_case: o.smart_case,
        file_offset: o.file_offset,
        page_limit: o.page_limit,
        mode: core_mode(o.mode),
        time_budget_ms: o.time_budget_ms,
        before_context: o.before_context,
        after_context: o.after_context,
        classify_definitions: o.classify_definitions,
        trim_whitespace: o.trim_whitespace,
    }
}

pub fn to_core_grep_options(options: &GrepOptions) -> (r: GrepSearchOptions)
    ensures
        r == core_grep_options(*options),
{
    GrepSearchOptions {
        max_file_size: options.max_file_size,
        max_matches_per_file: options.max_matches_per_file,
        smart_case: options.smart_case,
        file_offset: options.file_offset,
        page_limit: options.page_limit,
        mode: wire_mode_to_grep_mode(options.mode),
        time_budget_ms: options.time_budget_ms,
        before_context: options.before_context,
        after_context: options.after_context,
        classify_definitions: options.classify_definitions,
        trim_whitespace: options.trim_whitespace,
    }
}

/// The options of a search for file names as the index takes them. No project
/// path is given: the index knows its root.
pub open spec fn core_find_options(o: FindOptions) -> FuzzySearchOptions {
    FuzzySearchOptions {
        max_threads: o.max_threads,
        current_file: o.current_file,
        project_path: None,
        combo_boost_score_multiplier: o.combo_boost_score_multiplier,
        min_combo_count: o.min_combo_count,
        pagination: PaginationArgs { offset: o.offset, limit: o.limit },
    }
}

pub fn to_core_find_options(options: FindOptions) -> (r: FuzzySearchOptions)
    ensures
        r == core_find_options(options),
{
    FuzzySearchOptions {
        max_threads: options.max_threads,
        current_file: options.current_file,
        project_path: None,
        combo_boost_score_multiplier: options.combo_boost_score_multiplier,
        min_combo_count: options.min_combo_count,
        pagination: PaginationArgs { offset: options.offset, limit: options.limit },
    }
}

impl IndexQuery {
    /// Content searches wait for the first scan: before it ends their results are
    /// partial and do not look it.
    pub fn waits_for_index(&self) -> (r: bool)
        ensures
            r == (self is Grep || self is MultiGrep),
    {
        match self {
            IndexQuery::Grep { .. } => true,
            IndexQuery::MultiGrep { .. } => true,
            _ => false,
        }
    }
}

/// What a search comes to.
pub enum DispatchPlan {
    /// Ask the index.
    Query(IndexQuery),
    /// Answer with this.
    Reply(SearchResponse),
}

/// The question that a search is to the index. A search for several patterns
/// without constraints has empty ones.
pub open spec fn asks(req: SearchRequest, q: IndexQuery) -> bool {
    match req {
        SearchRequest::Grep { query, options } => q == (IndexQuery::Grep {
            query,
            options: core_grep_options(options),
        }),
        SearchRequest::MultiGrep { patterns, constraints, options } => q matches IndexQuery::MultiGrep {
            patterns: p,
            constraints: c,
            options: o,
        } && {
            &&& p == patterns
            &&& c@ == match constraints {
                Some(text) => text@,
                None => ""@,
            }
            &&& o == core_grep_options(options)
        },
        SearchRequest::FindFiles { query, options } => q == (IndexQuery::FindFiles {
            query,
            options: core_find_options(options),
        }),
        SearchRequest::ListRecentFiles { limit, dirty_only } => q == (IndexQuery::ListRecentFiles {
            limit,
            dirty_only,
        }),
        SearchRequest::GetGitStatus { include_clean } => q == (IndexQuery::GetGitStatus {
            include_clean,
        }),
        SearchRequest::ListDirectories { limit } => q == (IndexQuery::ListDirectories { limit }),
        SearchRequest::Health => q is Health,
        _ => false,
    }
}

/// Searches and health are questions to the index; a root cannot be named here.
pub fn dispatch_request(req: SearchRequest) -> (r: DispatchPlan)
    requires
        !(req is RecordAccess),
        !(req is SetLogLevel),
        !(req is DropRoot),
    ensures
        match r {
            DispatchPlan::Reply(resp) => req is Connect && crate::wire::is_failure(
                resp,
                "Connect is not supported in singleton mode"@,
            ),
            DispatchPlan::Query(q) => asks(req, q),
        },
{
    match req {
        SearchRequest::Grep { query, options } => DispatchPlan::Query(
            IndexQuery::Grep { query, options: to_core_grep_options(&options) },
        ),
        SearchRequest::MultiGrep { patterns, constraints, options } => {
            let constraints = match constraints {
                Some(text) => text,
                None => String::from_str(""),
            };
            DispatchPlan::Query(
                IndexQuery::MultiGrep {
                    patterns,
                    constraints,
                    options: to_core_grep_options(&options),
                },
            )
        },
        SearchRequest::FindFiles { query, options } => DispatchPlan::Query(
            IndexQuery::FindFiles { query, options: to_core_find_options(options) },
        ),
        SearchRequest::ListRecentFiles { limit, dirty_only } => DispatchPlan::Query(
            IndexQuery::ListRecentFiles { limit, dirty_only },
        ),
        SearchRequest::GetGitStatus { include_clean } => DispatchPlan::Query(
            IndexQuery::GetGitStatus { include_clean },
        ),
        SearchRequest::ListDirectories { limit } => DispatchPlan::Query(
            IndexQuery::ListDirectories { limit },
        ),
        SearchRequest::Health => DispatchPlan::Query(IndexQuery::Health),
        SearchRequest::Connect { .. }
        | SearchRequest::RecordAccess { .. }
        | SearchRequest::SetLogLevel { .. }
        | SearchRequest::DropRoot { .. } => DispatchPlan::Reply(
            SearchResponse::Error(String::from_str("Connect is not supported in singleton mode")),
        ),
    }
}

/// A content search is handed to the index as it was asked for: every option keeps
/// its value, and the mode its meaning.
pub proof fn law_grep_options_are_handed_on(o: GrepOptions)
    ensures
        ({
            let c = core_grep_options(o);
            &&& c.max_file_size == o.max_file_size
            &&& c.max_matches_per_file == o.max_matches_per_file
            &&& c.smart_case == o.smart_case
            &&& c.file_offset == o.file_offset
            &&& c.page_limit == o.page_limit
            &&& c.time_budget_ms == o.time_budget_ms
            &&& c.before_context == o.before_context
            &&& c.after_context == o.after_context
            &&& c.classify_definitions == o.classify_definitions
            &&& c.trim_whitespace == o.trim_whitespace
            &&& c.mode is PlainText <==> o.mode is PlainText
            &&& c.mode is Regex <==> o.mode is Regex
            &&& c.mode is Fuzzy <==> o.mode is Fuzzy
        }),
{
}

/// A search for file names is handed to the index as it was asked for.
pub proof fn law_find_options_are_handed_on(o: FindOptions)
    ensures
        ({
            let c = core_find_options(o);
            &&& c.max_threads == o.max_threads
            &&& c.current_file == o.current_file
            &&& c.project_path is None
            &&& c.combo_boost_score_multiplier == o.combo_boost_score_multiplier
            &&& c.min_combo_count == o.min_combo_count
            &&& c.pagination.offset == o.offset
            &&& c.pagination.limit == o.limit
        }),
{
}

/// The index is asked the question of the request, with what the request holds.
pub proof fn law_the_index_is_asked_the_same(req: SearchRequest, q: IndexQuery)
    requires
        asks(req, q),
    ensures
        req matches SearchRequest::Grep { query, options } ==> (q matches IndexQuery::Grep {
            query: asked,
            options: o,
        } && asked@ == query@ && o == core_grep_options(options)),
        req matches SearchRequest::MultiGrep { patterns, constraints, options } ==> (
        q matches IndexQuery::MultiGrep { patterns: p, constraints: c, options: o } && p@
            == patterns@ && o == core_grep_options(options) && (constraints matches Some(t) ==> c@
            == t@) && (constraints is None ==> c@.len() == 0)),
        req matches SearchRequest::FindFiles { query, options } ==> (
        q matches IndexQuery::FindFiles { query: asked, options: o } && asked@ == query@ && o
            == core_find_options(options)),
        req matches SearchRequest::ListRecentFiles { limit, dirty_only } ==> q == (
        IndexQuery::ListRecentFiles { limit, dirty_only }),
        req matches SearchRequest::GetGitStatus { include_clean } ==> q == (
        IndexQuery::GetGitStatus { include_clean }),
        req matches SearchRequest::ListDirectories { limit } ==> q == (
        IndexQuery::ListDirectories { limit }),
        req is Health <==> q is Health,
{
    reveal_strlit("");
}

} // verus!
