//! What a search of the index is answered with.

use crate::git::{format_git_status_opt, is_modified_status};
use crate::order::top_positions;
use crate::text::same;
use crate::types::{
    HealthResponse, RootHealth, SearchResponse, WireDirEntry, WireGitFile, WireGrepFileMatches,
    WireGrepMatch, WireGrepResponse, WireSearchResult,
};
use vstd::prelude::*;

verus! {

/// How long a content search waits for the first scan, in milliseconds.
pub const GREP_READINESS_TIMEOUT_MS: u64 = 30_000;

/// How often it looks, in milliseconds.
pub const GREP_READINESS_POLL_MS: u64 = 20;

/// How old the git statuses of an index may be, in milliseconds.
pub const GIT_STATUS_TTL_MS: u64 = 3000;

/// One file of the index.
pub struct FileRecord {
    pub path: String,
    pub size: u64,
    pub deleted: bool,
    pub git_status: Option<u32>,
    /// Its access and modification scores together.
    pub frecency: i32,
}

/// One directory of the index.
pub struct DirRecord {
    pub path: String,
    pub max_frecency: i32,
}

/// One page of a content search. A match names its file by position in `files`.
pub struct GrepPage {
    pub files: Vec<FileRecord>,
    pub matches: Vec<(usize, WireGrepMatch)>,
    pub total_files_searched: usize,
    pub total_files: usize,
    pub files_with_matches: usize,
    pub next_file_offset: usize,
    pub regex_fallback_error: Option<String>,
}

/// What a query of the index came to.
pub enum Outcome<T> {
    Done(T),
    /// The index is not there yet.
    NotReady,
    /// The query failed with this text.
    Failed(String),
    /// The task that ran it did not end well.
    Crashed(String),
}

/// What can be seen of an index.
#[derive(Debug, Clone, Copy, PartialEq, Eq, Structural)]
pub enum PickerState {
    Unreadable,
    Absent,
    Scanning,
    Ready,
}

/// Whether a content search goes on now: once the index is ready, at the latest
/// after the timeout. An index that is not there is not waited for.
pub fn search_may_start(picker: PickerState, waited_ms: u64) -> (r: bool)
    ensures
        r == (!(picker is Scanning) || waited_ms >= GREP_READINESS_TIMEOUT_MS),
{
    match picker {
        PickerState::Scanning => waited_ms >= GREP_READINESS_TIMEOUT_MS,
        _ => true,
    }
}

/// Whether git statuses are read anew before they are listed.
pub fn needs_git_refresh(last_refresh_ms: Option<u64>, now_ms: u64) -> (r: bool)
    ensures
        r == match last_refresh_ms {
            None => true,
            Some(t) => crate::supervise::elapsed(now_ms, t) >= GIT_STATUS_TTL_MS,
        },
{
    match last_refresh_ms {
        None => true,
        Some(t) => {
            let age: u64 = if now_ms >= t {
                now_ms - t
            } else {
                0
            };
            age >= GIT_STATUS_TTL_MS
        },
    }
}

/// The text of a query that gave nothing.
pub open spec fn failure_text<T>(outcome: Outcome<T>) -> Seq<char> {
    match outcome {
        Outcome::Done(_) => Seq::empty(),
        Outcome::NotReady => "File picker not yet initialized"@,
        Outcome::Failed(e) => e@,
        Outcome::Crashed(e) => "spawn_blocking join error: "@ + e@,
    }
}

/// The value of a query, or the error to answer with.
fn settled<T>(outcome: Outcome<T>) -> (r: Result<T, SearchResponse>)
    ensures
        match outcome {
            Outcome::Done(t) => r == Ok::<T, SearchResponse>(t),
            _ => r matches Err(e) && crate::wire::is_failure(e, failure_text(outcome)),
        },
{
    match outcome {
        Outcome::Done(t) => Ok(t),
        Outcome::NotReady => Err(
            SearchResponse::Error(String::from_str("File picker not yet initialized")),
        ),
        Outcome::Failed(e) => Err(SearchResponse::Error(e)),
        Outcome::Crashed(e) => Err(
            SearchResponse::Error(
                String::from_str("spawn_blocking join error: ").concat(e.as_str()),
            ),
        ),
    }
}

/// The matches of file `f`, in order.
pub open spec fn matches_of(matches: Seq<(usize, WireGrepMatch)>, f: int) -> Seq<WireGrepMatch>
    decreases matches.len(),
{
    if matches.len() == 0 {
        Seq::empty()
    } else {
        let front = matches_of(matches.drop_last(), f);
        if matches.last().0 == f {
            front.push(matches.last().1)
        } else {
            front
        }
    }
}

/// The positions below `n` of files that have matches, in order.
pub open spec fn matching_files(matches: Seq<(usize, WireGrepMatch)>, n: nat) -> Seq<int>
    decreases n,
{
    if n == 0 {
        Seq::empty()
    } else {
        let front = matching_files(matches, (n - 1) as nat);
        if matches_of(matches, n - 1).len() > 0 {
            front.push(n - 1)
        } else {
            front
        }
    }
}

/// What is told of a file with matches.
pub open spec fn is_file_matches(
    w: WireGrepFileMatches,
    file: FileRecord,
    matches: Seq<WireGrepMatch>,
) -> bool {
    &&& w.path == file.path
    &&& w.size == file.size
    &&& w.git_status == file.git_status
    &&& w.frecency_score == file.frecency
    &&& w.matches@ == matches
}

/// The matches of a page, file by file: files in order, without those that have
/// no match, and the matches of a file in order.
pub open spec fn is_projection(
    r: Seq<WireGrepFileMatches>,
    files: Seq<FileRecord>,
    matches: Seq<(usize, WireGrepMatch)>,
) -> bool {
    let hits = matching_files(matches, files.len());
    &&& r.len() == hits.len()
    &&& forall|k: int|
        0 <= k < hits.len() ==> is_file_matches(
            #[trigger] r[k],
            files[hits[k]],
            matches_of(matches, hits[k]),
        )
}

/// Every match names a file of the page.
pub open spec fn matches_in_range(matches: Seq<(usize, WireGrepMatch)>, n: nat) -> bool {
    forall|i: int| 0 <= i < matches.len() ==> (#[trigger] matches[i]).0 < n
}

/// Groups the matches of a page by file.
pub fn project_grep_result(files: &Vec<FileRecord>, matches: Vec<(usize, WireGrepMatch)>) -> (r: Vec<
    WireGrepFileMatches,
>)
    requires
        matches_in_range(matches@, files@.len()),
    ensures
        is_projection(r@, files@, matches@),
{
    let ghost all = matches@;
    let mut buckets: Vec<Vec<WireGrepMatch>> = Vec::new();
    let mut f: usize = 0;
    while f < files.len()
        invariant
            f <= files@.len(),
            buckets@.len() == f,
            forall|k: int| 0 <= k < f ==> (#[trigger] buckets@[k])@.len() == 0,
        decreases files.len() - f,
    {
        buckets.push(Vec::new());
        f = f + 1;
    }
    // Taken from the back, so each bucket holds its matches in reverse.
    let mut rest = matches;
    assert(all.skip(all.len() as int) =~= Seq::empty());
    assert forall|k: int| 0 <= k < buckets@.len() implies (#[trigger] buckets@[k])@ == matches_of(
        all.skip(all.len() as int),
        k,
    ).reverse() by {
        assert(buckets@[k]@ =~= matches_of(all.skip(all.len() as int), k).reverse());
    }
    while rest.len() > 0
        invariant
            rest@.len() <= all.len(),
            rest@ == all.take(rest@.len() as int),
            matches_in_range(all, files@.len()),
            buckets@.len() == files@.len(),
            forall|k: int|
                0 <= k < buckets@.len() ==> (#[trigger] buckets@[k])@ == matches_of(
                    all.skip(rest@.len() as int),
                    k,
                ).reverse(),
        decreases rest.len(),
    {
        let ghost n = rest@.len() as int;
        let ghost before = buckets@;
        if let Some((at, m)) = rest.pop() {
            assert(all[n - 1] == (at, m));
            let bucket = &mut buckets[at];
            bucket.push(m);
            assert(rest@ =~= all.take(n - 1));
            assert(all.skip(n - 1) =~= seq![(at, m)] + all.skip(n));
            assert forall|k: int| 0 <= k < buckets@.len() implies (#[trigger] buckets@[k])@ == matches_of(
                all.skip(n - 1),
                k,
            ).reverse() by {
                lemma_matches_of_cons((at, m), all.skip(n), k);
                assert(before[k]@ == matches_of(all.skip(n), k).reverse());
                assert(buckets@[k]@ =~= matches_of(all.skip(n - 1), k).reverse());
            }
        }
    }
    assert(all.skip(0) =~= all);
    let mut r: Vec<WireGrepFileMatches> = Vec::new();
    let mut i: usize = 0;
    while i < files.len()
        invariant
            i <= files@.len(),
            buckets@.len() == files@.len(),
            forall|k: int|
                i <= k < buckets@.len() ==> (#[trigger] buckets@[k])@ == matches_of(all, k).reverse(),
            is_projection_upto(r@, files@, all, i as nat),
        decreases files.len() - i,
    {
        let mut taken: Vec<WireGrepMatch> = Vec::new();
        let ghost want = matches_of(all, i as int);
        assert(buckets@[i as int]@ == want.reverse());
        buckets.set_and_swap(i, &mut taken);
        assert(taken@ == want.reverse());
        let ordered = reversed(taken);
        assert(ordered@ =~= want);
        let ghost hits = matching_files(all, i as nat);
        if ordered.len() > 0 {
            let file = &files[i];
            r.push(
                WireGrepFileMatches {
                    path: file.path.clone(),
                    size: file.size,
                    git_status: file.git_status,
                    frecency_score: file.frecency,
                    matches: ordered,
                },
            );
        }
        i = i + 1;
        assert(is_projection_upto(r@, files@, all, i as nat)) by {
            let next = matching_files(all, i as nat);
            assert forall|k: int| 0 <= k < next.len() implies is_file_matches(
                #[trigger] r@[k],
                files@[next[k]],
                matches_of(all, next[k]),
            ) by {
                if k < hits.len() {
                    assert(next[k] == hits[k]);
                }
            }
        }
    }
    r
}

spec fn is_projection_upto(
    r: Seq<WireGrepFileMatches>,
    files: Seq<FileRecord>,
    matches: Seq<(usize, WireGrepMatch)>,
    n: nat,
) -> bool {
    let hits = matching_files(matches, n);
    &&& r.len() == hits.len()
    &&& forall|k: int|
        0 <= k < hits.len() ==> is_file_matches(
            #[trigger] r[k],
            files[hits[k]],
            matches_of(matches, hits[k]),
        )
}

proof fn lemma_matches_of_cons(
    first: (usize, WireGrepMatch),
    rest: Seq<(usize, WireGrepMatch)>,
    f: int,
)
    ensures
        matches_of(seq![first] + rest, f) == (if first.0 == f {
            seq![first.1] + matches_of(rest, f)
        } else {
            matches_of(rest, f)
        }),
    decreases rest.len(),
{
    let all = seq![first] + rest;
    if rest.len() == 0 {
        assert(all =~= seq![first]);
        assert(all.drop_last() =~= Seq::empty());
        assert(matches_of(all.drop_last(), f) =~= Seq::empty());
        assert(matches_of(all, f) =~= (if first.0 == f {
            seq![first.1] + matches_of(rest, f)
        } else {
            matches_of(rest, f)
        }));
    } else {
        lemma_matches_of_cons(first, rest.drop_last(), f);
        assert(all.drop_last() =~= seq![first] + rest.drop_last());
        assert(all.last() == rest.last());
        assert(matches_of(all, f) =~= (if first.0 == f {
            seq![first.1] + matches_of(rest, f)
        } else {
            matches_of(rest, f)
        }));
    }
}

/// The same items in reverse order.
fn reversed<T>(items: Vec<T>) -> (r: Vec<T>)
    ensures
        r@ == items@.reverse(),
{
    let ghost all = items@;
    let mut rest = items;
    let mut r: Vec<T> = Vec::new();
    while rest.len() > 0
        invariant
            rest@.len() + r@.len() == all.len(),
            rest@ == all.take(rest@.len() as int),
            forall|k: int| 0 <= k < r@.len() ==> #[trigger] r@[k] == all[all.len() - 1 - k],
        decreases rest.len(),
    {
        let ghost n = rest@.len() as int;
        if let Some(x) = rest.pop() {
            r.push(x);
        }
        assert(rest@ =~= all.take(n - 1));
    }
    assert(r@ =~= all.reverse());
    r
}

/// A page as it is sent.
pub open spec fn is_page(w: WireGrepResponse, page: GrepPage) -> bool {
    &&& is_projection(w.matches@, page.files@, page.matches@)
    &&& w.total_files_searched == page.total_files_searched
    &&& w.total_files == page.total_files
    &&& w.files_with_matches == page.files_with_matches
    &&& w.next_file_offset == page.next_file_offset
    &&& w.regex_fallback_error == page.regex_fallback_error
}

/// The answer to a content search.
pub fn handle_grep(outcome: Outcome<GrepPage>) -> (r: SearchResponse)
    requires
        outcome matches Outcome::Done(page) ==> matches_in_range(page.matches@, page.files@.len()),
    ensures
        match outcome {
            Outcome::Done(page) => r matches SearchResponse::GrepResults(w) && is_page(w, page),
            _ => crate::wire::is_failure(r, failure_text(outcome)),
        },
{
    match settled(outcome) {
        Ok(page) => SearchResponse::GrepResults(
            WireGrepResponse {
                matches: project_grep_result(&page.files, page.matches),
                total_files_searched: page.total_files_searched,
                total_files: page.total_files,
                files_with_matches: page.files_with_matches,
                next_file_offset: page.next_file_offset,
                regex_fallback_error: page.regex_fallback_error,
            },
        ),
        Err(e) => e,
    }
}

/// The answer to a content search for several patterns.
pub fn handle_multi_grep(outcome: Outcome<GrepPage>) -> (r: SearchResponse)
    requires
        outcome matches Outcome::Done(page) ==> matches_in_range(page.matches@, page.files@.len()),
    ensures
        match outcome {
            Outcome::Done(page) => r matches SearchResponse::GrepResults(w) && is_page(w, page),
            _ => crate::wire::is_failure(r, failure_text(outcome)),
        },
{
    handle_grep(outcome)
}

/// What is told of a file with this score.
pub open spec fn is_result(w: WireSearchResult, file: FileRecord, score: i32) -> bool {
    &&& w.path == file.path
    &&& w.score == score
    &&& w.git_status == file.git_status
    &&& w.frecency_score == file.frecency
}

fn result_for(file: &FileRecord, score: i32) -> (r: WireSearchResult)
    ensures
        is_result(r, *file, score),
{
    WireSearchResult {
        path: file.path.clone(),
        score,
        git_status: file.git_status,
        frecency_score: file.frecency,
    }
}

/// The smaller of two lengths.
pub open spec fn shorter(a: nat, b: nat) -> nat {
    if a < b {
        a
    } else {
        b
    }
}

/// The answer to a search for file names: each file found with its score, in
/// the order of the search.
pub fn handle_find_files(outcome: Outcome<(Vec<FileRecord>, Vec<i32>)>) -> (r: SearchResponse)
    ensures
        match outcome {
            Outcome::Done(found) => r matches SearchResponse::SearchResults(v) && {
                &&& v@.len() == shorter(found.0@.len(), found.1@.len())
                &&& forall|i: int|
                    0 <= i < v@.len() ==> is_result(#[trigger] v@[i], found.0@[i], found.1@[i])
            },
            _ => crate::wire::is_failure(r, failure_text(outcome)),
        },
{
    match settled(outcome) {
        Ok((files, scores)) => {
            let mut v: Vec<WireSearchResult> = Vec::new();
            let mut i: usize = 0;
            while i < files.len() && i < scores.len()
                invariant
                    i <= files@.len(),
                    i <= scores@.len(),
                    v@.len() == i,
                    forall|j: int|
                        0 <= j < i ==> is_result(#[trigger] v@[j], files@[j], scores@[j]),
                decreases files.len() - i,
            {
                v.push(result_for(&files[i], scores[i]));
                i = i + 1;
            }
            SearchResponse::SearchResults(v)
        },
        Err(e) => e,
    }
}

/// A file that is listed as recent: there, with a score, and modified where
/// only modified files are asked for.
pub open spec fn is_recent(file: FileRecord, dirty_only: bool) -> bool {
    &&& !file.deleted
    &&& file.frecency > 0
    &&& dirty_only ==> (file.git_status matches Some(s) && crate::git::is_modified(s))
}

/// The scores of files.
pub open spec fn file_scores(files: Seq<FileRecord>) -> Seq<i32> {
    files.map_values(|f: FileRecord| f.frecency)
}

/// Which files are recent.
pub open spec fn recent_flags(files: Seq<FileRecord>, dirty_only: bool) -> Seq<bool> {
    files.map_values(|f: FileRecord| is_recent(f, dirty_only))
}

/// The list holds the best recent files, by descending score.
pub open spec fn lists_recent(
    v: Seq<WireSearchResult>,
    files: Seq<FileRecord>,
    limit: usize,
    dirty_only: bool,
) -> bool {
    exists|p: Seq<usize>| #[trigger]
        crate::order::is_top(file_scores(files), recent_flags(files, dirty_only), limit as int, p)
            && v.len() == p.len() && forall|i: int|
            0 <= i < p.len() ==> is_result(
                #[trigger] v[i],
                files[p[i] as int],
                files[p[i] as int].frecency,
            )
}

fn is_dirty(status: Option<u32>) -> (r: bool)
    ensures
        r == (status matches Some(s) && crate::git::is_modified(s)),
{
    match status {
        Some(s) => is_modified_status(s),
        None => false,
    }
}

/// The answer to a request for recent files: the best `limit` of them.
pub fn handle_list_recent_files(
    outcome: Outcome<Vec<FileRecord>>,
    limit: usize,
    dirty_only: bool,
) -> (r: SearchResponse)
    ensures
        match outcome {
            Outcome::Done(files) => r matches SearchResponse::RecentFiles(v) && lists_recent(
                v@,
                files@,
                limit,
                dirty_only,
            ),
            _ => crate::wire::is_failure(r, failure_text(outcome)),
        },
{
    let files = match settled(outcome) {
        Ok(f) => f,
        Err(e) => return e,
    };
    let mut scores: Vec<i32> = Vec::new();
    let mut wanted: Vec<bool> = Vec::new();
    let mut i: usize = 0;
    while i < files.len()
        invariant
            i <= files@.len(),
            scores@.len() == i,
            wanted@.len() == i,
            forall|j: int| 0 <= j < i ==> #[trigger] scores@[j] == files@[j].frecency,
            forall|j: int| 0 <= j < i ==> #[trigger] wanted@[j] == is_recent(files@[j], dirty_only),
        decreases files.len() - i,
    {
        let f = &files[i];
        scores.push(f.frecency);
        wanted.push(!f.deleted && f.frecency > 0 && (!dirty_only || is_dirty(f.git_status)));
        i = i + 1;
    }
    assert(scores@ =~= file_scores(files@));
    assert(wanted@ =~= recent_flags(files@, dirty_only));
    let p = top_positions(&scores, &wanted, limit);
    let mut v: Vec<WireSearchResult> = Vec::new();
    let mut k: usize = 0;
    while k < p.len()
        invariant
            k <= p@.len(),
            crate::order::distinct_positions(p@, files@.len() as int),
            v@.len() == k,
            forall|j: int|
                0 <= j < k ==> is_result(
                    #[trigger] v@[j],
                    files@[p@[j] as int],
                    files@[p@[j] as int].frecency,
                ),
        decreases p.len() - k,
    {
        let at: usize = p[k];
        assert(at < files@.len());
        v.push(result_for(&files[at], files[at].frecency));
        k = k + 1;
    }
    assert(lists_recent(v@, files@, limit, dirty_only));
    SearchResponse::RecentFiles(v)
}

/// A listed git status: path, label and score.
pub type GitLine = (Seq<char>, Seq<char>, i32);

/// The git status of files, in order: of files that are there, with a status,
/// and clean ones only where these are asked for.
pub open spec fn git_lines(files: Seq<FileRecord>, include_clean: bool) -> Seq<GitLine>
    decreases files.len(),
{
    if files.len() == 0 {
        Seq::empty()
    } else {
        let front = git_lines(files.drop_last(), include_clean);
        let f = files.last();
        let label = crate::git::status_label(f.git_status);
        if !f.deleted && (include_clean || (f.git_status is Some && label != "clean"@)) {
            front.push((f.path@, label, f.frecency))
        } else {
            front
        }
    }
}

pub open spec fn git_views(v: Seq<WireGitFile>) -> Seq<GitLine> {
    v.map_values(|w: WireGitFile| (w.path@, w.status@, w.frecency_score))
}

/// The answer to a request for git statuses.
pub fn handle_get_git_status(outcome: Outcome<Vec<FileRecord>>, include_clean: bool) -> (r: SearchResponse)
    ensures
        match outcome {
            Outcome::Done(files) => r matches SearchResponse::GitStatus(v) && git_views(v@)
                == git_lines(files@, include_clean),
            _ => crate::wire::is_failure(r, failure_text(outcome)),
        },
{
    let files = match settled(outcome) {
        Ok(f) => f,
        Err(e) => return e,
    };
    let mut v: Vec<WireGitFile> = Vec::new();
    let mut i: usize = 0;
    assert(files@.take(0) =~= Seq::empty());
    assert(git_views(v@) =~= Seq::<GitLine>::empty());
    while i < files.len()
        invariant
            i <= files@.len(),
            git_views(v@) == git_lines(files@.take(i as int), include_clean),
        decreases files.len() - i,
    {
        assert(files@.take(i + 1).drop_last() =~= files@.take(i as int));
        assert(files@.take(i + 1).last() == files@[i as int]);
        let f = &files[i];
        if !f.deleted && (f.git_status.is_some() || include_clean) {
            if let Some(label) = format_git_status_opt(f.git_status) {
                if include_clean || !same(label, "clean") {
                    let ghost before = git_views(v@);
                    v.push(
                        WireGitFile {
                            path: f.path.clone(),
                            status: String::from_str(label),
                            frecency_score: f.frecency,
                        },
                    );
                    assert(git_views(v@) =~= before.push((f.path@, label@, f.frecency)));
                }
            }
        }
        i = i + 1;
    }
    assert(files@.take(i as int) =~= files@);
    SearchResponse::GitStatus(v)
}

/// The scores of directories.
pub open spec fn dir_scores(dirs: Seq<DirRecord>) -> Seq<i32> {
    dirs.map_values(|d: DirRecord| d.max_frecency)
}

/// Which directories are listed: all but the root itself.
pub open spec fn dir_flags(dirs: Seq<DirRecord>) -> Seq<bool> {
    dirs.map_values(|d: DirRecord| d.path@.len() > 0)
}

/// The list holds the best directories, by descending score.
pub open spec fn lists_directories(v: Seq<WireDirEntry>, dirs: Seq<DirRecord>, limit: usize) -> bool {
    exists|p: Seq<usize>| #[trigger]
        crate::order::is_top(dir_scores(dirs), dir_flags(dirs), limit as int, p) && v.len()
            == p.len() && forall|i: int|
            0 <= i < p.len() ==> (#[trigger] v[i]) == (WireDirEntry {
                path: dirs[p[i] as int].path,
                max_frecency: dirs[p[i] as int].max_frecency,
            })
}

/// The answer to a request for directories: the best `limit` of them.
pub fn handle_list_directories(outcome: Outcome<Vec<DirRecord>>, limit: usize) -> (r: SearchResponse)
    ensures
        match outcome {
            Outcome::Done(dirs) => r matches SearchResponse::Directories(v) && lists_directories(
                v@,
                dirs@,
                limit,
            ),
            _ => crate::wire::is_failure(r, failure_text(outcome)),
        },
{
    let dirs = match settled(outcome) {
        Ok(d) => d,
        Err(e) => return e,
    };
    let mut scores: Vec<i32> = Vec::new();
    let mut wanted: Vec<bool> = Vec::new();
    let mut i: usize = 0;
    while i < dirs.len()
        invariant
            i <= dirs@.len(),
            scores@.len() == i,
            wanted@.len() == i,
            forall|j: int| 0 <= j < i ==> #[trigger] scores@[j] == dirs@[j].max_frecency,
            forall|j: int| 0 <= j < i ==> #[trigger] wanted@[j] == (dirs@[j].path@.len() > 0),
        decreases dirs.len() - i,
    {
        scores.push(dirs[i].max_frecency);
        wanted.push(dirs[i].path.unicode_len() > 0);
        i = i + 1;
    }
    assert(scores@ =~= dir_scores(dirs@));
    assert(wanted@ =~= dir_flags(dirs@));
    let p = top_positions(&scores, &wanted, limit);
    let mut v: Vec<WireDirEntry> = Vec::new();
    let mut k: usize = 0;
    while k < p.len()
        invariant
            k <= p@.len(),
            crate::order::distinct_positions(p@, dirs@.len() as int),
            v@.len() == k,
            forall|j: int|
                0 <= j < k ==> (#[trigger] v@[j]) == (WireDirEntry {
                    path: dirs@[p@[j] as int].path,
                    max_frecency: dirs@[p@[j] as int].max_frecency,
                }),
        decreases p.len() - k,
    {
        let at: usize = p[k];
        assert(at < dirs@.len());
        v.push(
            WireDirEntry { path: dirs[at].path.clone(), max_frecency: dirs[at].max_frecency },
        );
        k = k + 1;
    }
    assert(lists_directories(v@, dirs@, limit));
    SearchResponse::Directories(v)
}

/// How many files are there and modified.
pub open spec fn dirty_total(files: Seq<FileRecord>) -> nat
    decreases files.len(),
{
    if files.len() == 0 {
        0
    } else {
        let f = files.last();
        dirty_total(files.drop_last()) + (if !f.deleted && (f.git_status matches Some(s)
            && crate::git::is_modified(s)) {
            1nat
        } else {
            0nat
        })
    }
}

/// How many files are there and modified.
pub fn dirty_count(files: &Vec<FileRecord>) -> (n: u64)
    ensures
        n == dirty_total(files@),
{
    let mut n: u64 = 0;
    let mut i: usize = 0;
    assert(files@.take(0) =~= Seq::empty());
    while i < files.len()
        invariant
            i <= files@.len(),
            n <= i,
            n == dirty_total(files@.take(i as int)),
        decreases files.len() - i,
    {
        assert(files@.take(i + 1).drop_last() =~= files@.take(i as int));
        assert(files@.take(i + 1).last() == files@[i as int]);
        if !files[i].deleted && is_dirty(files[i].git_status) {
            n = n + 1;
        }
        i = i + 1;
    }
    assert(files@.take(i as int) =~= files@);
    n
}

/// How many files a root has indexed and how many are modified, where its index
/// could be read.
pub fn read_picker_freshness(outcome: Outcome<(u64, Vec<FileRecord>)>) -> (r: (
    Option<u64>,
    Option<u64>,
))
    ensures
        match outcome {
            Outcome::Done(index) => r == (Some(index.0), Some(dirty_total(index.1@) as u64)),
            _ => r == (None::<u64>, None::<u64>),
        },
{
    match outcome {
        Outcome::Done((indexed, files)) => (Some(indexed), Some(dirty_count(&files))),
        _ => (None, None),
    }
}

/// The answer to a health request of a single-root engine. `outcome` holds the
/// number of indexed files and the files.
pub fn handle_health(
    outcome: Outcome<(u64, Vec<FileRecord>)>,
    slug: String,
    base_path: String,
) -> (r: SearchResponse)
    ensures
        match outcome {
            Outcome::Done(index) => r matches SearchResponse::Health(h) && h.roots@.len() == 1
                && h.roots@[0] == (RootHealth {
                slug,
                base_path,
                indexed_files: Some(index.0),
                last_scan_age_sec: None,
                watcher_backlog: None,
                dirty_count: Some(dirty_total(index.1@) as u64),
                last_access_age_sec: None,
            }),
            _ => crate::wire::is_failure(r, failure_text(outcome)),
        },
{
    match settled(outcome) {
        Ok((indexed, files)) => {
            let mut roots: Vec<RootHealth> = Vec::new();
            roots.push(
                RootHealth {
                    slug,
                    base_path,
                    indexed_files: Some(indexed),
                    last_scan_age_sec: None,
                    watcher_backlog: None,
                    dirty_count: Some(dirty_count(&files)),
                    last_access_age_sec: None,
                },
            );
            SearchResponse::Health(HealthResponse { roots })
        },
        Err(e) => e,
    }
}

proof fn lemma_matches_of_is_a_filter(matches: Seq<(usize, WireGrepMatch)>, f: int)
    ensures
        matches_of(matches, f) == matches.filter(|m: (usize, WireGrepMatch)| m.0 == f).map_values(
            |m: (usize, WireGrepMatch)| m.1,
        ),
    decreases matches.len(),
{
    reveal(Seq::filter);
    let of_file = |m: (usize, WireGrepMatch)| m.0 == f;
    let content = |m: (usize, WireGrepMatch)| m.1;
    if matches.len() > 0 {
        lemma_matches_of_is_a_filter(matches.drop_last(), f);
    }
    assert(matches_of(matches, f) =~= matches.filter(of_file).map_values(content));
}

proof fn lemma_filter_splits(matches: Seq<(usize, WireGrepMatch)>, n: int)
    ensures
        matches.filter(|m: (usize, WireGrepMatch)| m.0 < n + 1).len() == matches.filter(
            |m: (usize, WireGrepMatch)| m.0 < n,
        ).len() + matches.filter(|m: (usize, WireGrepMatch)| m.0 == n).len(),
    decreases matches.len(),
{
    reveal(Seq::filter);
    if matches.len() > 0 {
        lemma_filter_splits(matches.drop_last(), n);
    }
}

proof fn lemma_filter_all(matches: Seq<(usize, WireGrepMatch)>, n: int)
    ensures
        matches_in_range(matches, n as nat) && n >= 0 ==> matches.filter(
            |m: (usize, WireGrepMatch)| m.0 < n,
        ).len() == matches.len(),
        matches.filter(|m: (usize, WireGrepMatch)| m.0 < 0).len() == 0,
    decreases matches.len(),
{
    reveal(Seq::filter);
    if matches.len() > 0 {
        lemma_filter_all(matches.drop_last(), n);
        if matches_in_range(matches, n as nat) && n >= 0 {
            assert forall|i: int| 0 <= i < matches.len() - 1 implies (
            #[trigger] matches.drop_last()[i]).0 < n by {
                assert(matches[i].0 < n);
            }
            assert(matches[matches.len() - 1].0 < n);
        }
    }
}

proof fn lemma_total_of_projection(
    w: Seq<WireGrepFileMatches>,
    files: Seq<FileRecord>,
    matches: Seq<(usize, WireGrepMatch)>,
    n: nat,
)
    requires
        is_projection_upto(w, files, matches, n),
    ensures
        w.fold_left(0int, |sum: int, e: WireGrepFileMatches| sum + e.matches@.len())
            == matches.filter(|m: (usize, WireGrepMatch)| m.0 < n).len(),
    decreases n,
{
    let sum = |sum: int, e: WireGrepFileMatches| sum + e.matches@.len();
    if n == 0 {
        lemma_filter_all(matches, 0);
    } else {
        let k = n - 1;
        let hits = matching_files(matches, n);
        let before = matching_files(matches, k as nat);
        lemma_filter_splits(matches, k);
        lemma_matches_of_is_a_filter(matches, k);
        if matches_of(matches, k).len() > 0 {
            let front = w.drop_last();
            assert forall|i: int| 0 <= i < before.len() implies is_file_matches(
                #[trigger] front[i],
                files[before[i]],
                matches_of(matches, before[i]),
            ) by {
                assert(front[i] == w[i]);
                assert(hits[i] == before[i]);
            }
            lemma_total_of_projection(front, files, matches, k as nat);
            assert(is_file_matches(
                w[w.len() - 1],
                files[hits[w.len() - 1]],
                matches_of(matches, hits[w.len() - 1]),
            ));
            assert(w.fold_left(0int, sum) == front.fold_left(0int, sum) + w.last().matches@.len());
        } else {
            lemma_total_of_projection(w, files, matches, k as nat);
        }
    }
}

proof fn lemma_matching_files(matches: Seq<(usize, WireGrepMatch)>, n: nat)
    ensures
        forall|a: int, b: int|
            0 <= a < b < matching_files(matches, n).len() ==> matching_files(matches, n)[a]
                < matching_files(matches, n)[b],
        forall|k: int|
            0 <= k < matching_files(matches, n).len() ==> 0 <= #[trigger] matching_files(
                matches,
                n,
            )[k] < n,
        forall|f: int|
            0 <= f < n ==> (#[trigger] matching_files(matches, n).contains(f) <==> matches_of(
                matches,
                f,
            ).len() > 0),
    decreases n,
{
    if n > 0 {
        let k = (n - 1) as nat;
        lemma_matching_files(matches, k);
        let front = matching_files(matches, k);
        let all = matching_files(matches, n);
        assert forall|f: int| 0 <= f < n implies (#[trigger] all.contains(f) <==> matches_of(
            matches,
            f,
        ).len() > 0) by {
            if f < k {
                assert(front.contains(f) <==> matches_of(matches, f).len() > 0);
                if front.contains(f) {
                    let i = choose|i: int| 0 <= i < front.len() && front[i] == f;
                    assert(all[i] == f);
                }
                if all.contains(f) {
                    let i = choose|i: int| 0 <= i < all.len() && all[i] == f;
                    assert(front[i] == f);
                }
            } else if matches_of(matches, f).len() > 0 {
                assert(all[front.len() as int] == f);
            }
        }
    }
}

proof fn lemma_file_has_matches(matches: Seq<(usize, WireGrepMatch)>, f: int)
    ensures
        matches_of(matches, f).len() > 0 <==> exists|i: int|
            0 <= i < matches.len() && (#[trigger] matches[i]).0 == f,
    decreases matches.len(),
{
    if matches.len() > 0 {
        let front = matches.drop_last();
        lemma_file_has_matches(front, f);
        if matches_of(front, f).len() > 0 {
            let i = choose|i: int| 0 <= i < front.len() && (#[trigger] front[i]).0 == f;
            assert(matches[i].0 == f);
        } else if matches_of(matches, f).len() > 0 {
            assert(matches[matches.len() - 1].0 == f);
        }
        if exists|i: int| 0 <= i < matches.len() && (#[trigger] matches[i]).0 == f {
            let i = choose|i: int| 0 <= i < matches.len() && (#[trigger] matches[i]).0 == f;
            if i < front.len() {
                assert(front[i].0 == f);
            }
        }
    }
}

/// No match of a page is lost, invented or moved: the answer has an entry for
/// exactly the files that are matched, in the order of the page; the matches of an
/// entry are those that the page has for its file, in order; and all entries
/// together have as many matches as the page.
pub proof fn law_every_match_is_answered_with_its_file(page: GrepPage, w: WireGrepResponse)
    requires
        matches_in_range(page.matches@, page.files@.len()),
        is_page(w, page),
    ensures
        exists|p: Seq<int>|
            #![trigger p.len()]
            {
                &&& p.len() == w.matches@.len()
                &&& forall|a: int, b: int| 0 <= a < b < p.len() ==> p[a] < p[b]
                &&& forall|f: int|
                    0 <= f < page.files@.len() ==> (#[trigger] p.contains(f) <==> exists|i: int|
                        0 <= i < page.matches@.len() && (#[trigger] page.matches@[i]).0 == f)
                &&& forall|k: int|
                    0 <= k < p.len() ==> {
                        let f = #[trigger] p[k];
                        &&& 0 <= f < page.files@.len()
                        &&& w.matches@[k].path@ == page.files@[f].path@
                        &&& w.matches@[k].size == page.files@[f].size
                        &&& w.matches@[k].git_status == page.files@[f].git_status
                        &&& w.matches@[k].frecency_score == page.files@[f].frecency
                        &&& w.matches@[k].matches@ == page.matches@.filter(
                            |m: (usize, WireGrepMatch)| m.0 == f,
                        ).map_values(|m: (usize, WireGrepMatch)| m.1)
                    }
            },
        w.matches@.fold_left(0int, |sum: int, e: WireGrepFileMatches| sum + e.matches@.len())
            == page.matches@.len(),
        w.total_files_searched == page.total_files_searched,
        w.total_files == page.total_files,
        w.files_with_matches == page.files_with_matches,
        w.next_file_offset == page.next_file_offset,
        w.regex_fallback_error == page.regex_fallback_error,
{
    let n = page.files@.len();
    let all = page.matches@;
    let p = matching_files(all, n);
    lemma_matching_files(all, n);
    assert(p.len() == w.matches@.len());
    assert forall|f: int| 0 <= f < n implies (#[trigger] p.contains(f) <==> exists|i: int|
        0 <= i < all.len() && (#[trigger] all[i]).0 == f) by {
        lemma_file_has_matches(all, f);
    }
    assert forall|k: int| 0 <= k < p.len() implies {
        let f = #[trigger] p[k];
        &&& 0 <= f < page.files@.len()
        &&& w.matches@[k].path@ == page.files@[f].path@
        &&& w.matches@[k].size == page.files@[f].size
        &&& w.matches@[k].git_status == page.files@[f].git_status
        &&& w.matches@[k].frecency_score == page.files@[f].frecency
        &&& w.matches@[k].matches@ == page.matches@.filter(
            |m: (usize, WireGrepMatch)| m.0 == f,
        ).map_values(|m: (usize, WireGrepMatch)| m.1)
    } by {
        let f = p[k];
        lemma_matches_of_is_a_filter(all, f);
        assert(is_file_matches(w.matches@[k], page.files@[p[k]], matches_of(all, p[k])));
    }
    lemma_total_of_projection(w.matches@, page.files@, all, n);
    lemma_filter_all(all, n as int);
}

/// Every file that was found is answered in its place with its own score.
pub proof fn law_every_found_file_is_answered(
    files: Seq<FileRecord>,
    scores: Seq<i32>,
    v: Seq<WireSearchResult>,
)
    requires
        files.len() == scores.len(),
        v.len() == shorter(files.len(), scores.len()),
        forall|i: int| 0 <= i < v.len() ==> is_result(#[trigger] v[i], files[i], scores[i]),
    ensures
        v.len() == files.len(),
        forall|i: int|
            0 <= i < files.len() ==> {
                &&& (#[trigger] v[i]).path@ == files[i].path@
                &&& v[i].score == scores[i]
                &&& v[i].git_status == files[i].git_status
                &&& v[i].frecency_score == files[i].frecency
            },
{
}

proof fn lemma_git_positions(files: Seq<FileRecord>, include_clean: bool) -> (p: Seq<int>)
    ensures
        p.len() == git_lines(files, include_clean).len(),
        forall|a: int, b: int| 0 <= a < b < p.len() ==> p[a] < p[b],
        forall|k: int|
            0 <= k < p.len() ==> 0 <= #[trigger] p[k] < files.len() && git_lines(
                files,
                include_clean,
            )[k] == (
                files[p[k]].path@,
                crate::git::status_label(files[p[k]].git_status),
                files[p[k]].frecency,
            ),
        forall|i: int|
            0 <= i < files.len() ==> (#[trigger] p.contains(i) <==> !files[i].deleted && (
            include_clean || (files[i].git_status matches Some(s) && s & 19335 != 0))),
    decreases files.len(),
{
    if files.len() == 0 {
        Seq::empty()
    } else {
        let front = files.drop_last();
        let q = lemma_git_positions(front, include_clean);
        let last = files.len() - 1;
        let f = files.last();
        crate::git::law_what_labels_stand_for(f.git_status);
        let shown = !f.deleted && (include_clean || (f.git_status matches Some(s) && s & 19335
            != 0));
        let p = if shown {
            q.push(last)
        } else {
            q
        };
        assert forall|i: int| 0 <= i < files.len() implies (#[trigger] p.contains(i)
            <==> !files[i].deleted && (include_clean || (files[i].git_status matches Some(s) && s
            & 19335 != 0))) by {
            if i < last {
                assert(front[i] == files[i]);
                assert(q.contains(i) <==> !front[i].deleted && (include_clean || (
                front[i].git_status matches Some(s) && s & 19335 != 0)));
                if q.contains(i) {
                    let k = choose|k: int| 0 <= k < q.len() && q[k] == i;
                    assert(p[k] == i);
                }
                if p.contains(i) {
                    let k = choose|k: int| 0 <= k < p.len() && p[k] == i;
                    assert(q[k] == i);
                }
            } else if shown {
                assert(p[q.len() as int] == i);
            }
        }
        p
    }
}

/// The git status tells of exactly the files that are there and, unless clean
/// ones are asked for, have a status with one of the labelled flags: in the order
/// of the index, each with its own path, label and score.
pub proof fn law_git_status_tells_of_every_change(
    files: Seq<FileRecord>,
    include_clean: bool,
    v: Seq<WireGitFile>,
)
    requires
        git_views(v) == git_lines(files, include_clean),
    ensures
        exists|p: Seq<int>|
            #![trigger p.len()]
            {
                &&& p.len() == v.len()
                &&& forall|a: int, b: int| 0 <= a < b < p.len() ==> p[a] < p[b]
                &&& forall|i: int|
                    0 <= i < files.len() ==> (#[trigger] p.contains(i) <==> !files[i].deleted && (
                    include_clean || (files[i].git_status matches Some(s) && s & 19335 != 0)))
                &&& forall|k: int|
                    0 <= k < p.len() ==> {
                        &&& 0 <= #[trigger] p[k] < files.len()
                        &&& v[k].path@ == files[p[k]].path@
                        &&& v[k].status@ == crate::git::status_label(files[p[k]].git_status)
                        &&& v[k].frecency_score == files[p[k]].frecency
                        &&& !include_clean ==> v[k].status@ != "clean"@
                    }
            },
{
    let p = lemma_git_positions(files, include_clean);
    assert(git_views(v).len() == v.len());
    assert(p.len() == v.len());
    assert forall|k: int| 0 <= k < p.len() implies {
        &&& 0 <= #[trigger] p[k] < files.len()
        &&& v[k].path@ == files[p[k]].path@
        &&& v[k].status@ == crate::git::status_label(files[p[k]].git_status)
        &&& v[k].frecency_score == files[p[k]].frecency
        &&& !include_clean ==> v[k].status@ != "clean"@
    } by {
        assert(git_views(v)[k] == (v[k].path@, v[k].status@, v[k].frecency_score));
        assert(p.contains(p[k]));
        crate::git::law_what_labels_stand_for(files[p[k]].git_status);
    }
}

/// Positions that are wanted and scored, the best first: as many as there are, up
/// to the limit.
proof fn lemma_top_count(scores: Seq<i32>, wanted: Seq<bool>, limit: int, p: Seq<usize>)
    requires
        crate::order::is_top(scores, wanted, limit, p),
        scores.len() == wanted.len(),
        scores.len() <= usize::MAX,
    ensures
        ({
            let all = Set::new(|q: int| 0 <= q < wanted.len() && wanted[q]);
            &&& all.finite()
            &&& p.len() == if limit < all.len() {
                limit
            } else {
                all.len() as int
            }
        }),
{
    let n = wanted.len() as int;
    let all = Set::new(|q: int| 0 <= q < wanted.len() && wanted[q]);
    let range = vstd::set_lib::set_int_range(0, n);
    vstd::set_lib::lemma_int_range(0, n);
    assert(all.subset_of(range));
    vstd::set_lib::lemma_set_subset_finite(range, all);
    let ints = p.map_values(|x: usize| x as int);
    assert forall|i: int, j: int| 0 <= i < ints.len() && 0 <= j < ints.len() && i != j implies ints[i]
        != ints[j] by {
        if i < j {
            assert(p[i] != p[j]);
        } else {
            assert(p[j] != p[i]);
        }
    }
    ints.unique_seq_to_set();
    assert(ints.to_set().subset_of(all)) by {
        assert forall|x: int| ints.to_set().contains(x) implies all.contains(x) by {
            let i = choose|i: int| 0 <= i < ints.len() && ints[i] == x;
            assert(p[i] < n && wanted[p[i] as int]);
        }
    }
    vstd::set_lib::lemma_len_subset(ints.to_set(), all);
    if p.len() < limit {
        assert(all.subset_of(ints.to_set())) by {
            assert forall|q: int| all.contains(q) implies ints.to_set().contains(q) by {
                assert(wanted[q]);
                assert(p.contains(q as usize));
                let i = choose|i: int| 0 <= i < p.len() && p[i] == q as usize;
                assert(ints[i] == q);
            }
        }
        assert(all =~= ints.to_set());
    }
}

/// The directories that are listed are the best there are: as many as there are
/// with a path of their own, up to the limit, whatever they score; each once with
/// its score, by descending score; and none that is left out scores higher than
/// one that is listed.
pub proof fn law_directories_are_listed_up_to_the_limit(
    dirs: Seq<DirRecord>,
    limit: usize,
    v: Seq<WireDirEntry>,
)
    requires
        lists_directories(v, dirs, limit),
        dirs.len() <= usize::MAX,
    ensures
        ({
            let there = Set::new(|q: int| 0 <= q < dirs.len() && dirs[q].path@.len() > 0).len();
            v.len() == if limit < there {
                limit as nat
            } else {
                there
            }
        }),
        exists|p: Seq<int>|
            #![trigger p.len()]
            {
                &&& p.len() == v.len()
                &&& forall|a: int, b: int| 0 <= a < b < p.len() ==> p[a] != p[b]
                &&& forall|k: int|
                    0 <= k < p.len() ==> {
                        &&& 0 <= #[trigger] p[k] < dirs.len()
                        &&& dirs[p[k]].path@.len() > 0
                        &&& v[k].path@ == dirs[p[k]].path@
                        &&& v[k].max_frecency == dirs[p[k]].max_frecency
                    }
                &&& forall|q: int|
                    0 <= q < dirs.len() && dirs[q].path@.len() > 0 && !#[trigger] p.contains(q)
                        ==> p.len() == limit && forall|k: int|
                        0 <= k < v.len() ==> (#[trigger] v[k]).max_frecency >= dirs[q].max_frecency
            },
        forall|a: int, b: int|
            0 <= a < b < v.len() ==> (#[trigger] v[a]).max_frecency >= (
            #[trigger] v[b]).max_frecency,
{
    let p = choose|p: Seq<usize>| #[trigger]
        crate::order::is_top(dir_scores(dirs), dir_flags(dirs), limit as int, p) && v.len()
            == p.len() && forall|i: int|
            0 <= i < p.len() ==> (#[trigger] v[i]) == (WireDirEntry {
                path: dirs[p[i] as int].path,
                max_frecency: dirs[p[i] as int].max_frecency,
            });
    let scores = dir_scores(dirs);
    let wanted = dir_flags(dirs);
    lemma_top_count(scores, wanted, limit as int, p);
    assert(Set::new(|q: int| 0 <= q < wanted.len() && wanted[q]) =~= Set::new(
        |q: int| 0 <= q < dirs.len() && dirs[q].path@.len() > 0,
    ));
    let ints = p.map_values(|x: usize| x as int);
    assert(ints.len() == v.len());
    assert forall|a: int, b: int| 0 <= a < b < ints.len() implies ints[a] != ints[b] by {
        assert(p[a] != p[b]);
    }
    assert forall|k: int| 0 <= k < ints.len() implies {
        &&& 0 <= #[trigger] ints[k] < dirs.len()
        &&& dirs[ints[k]].path@.len() > 0
        &&& v[k].path@ == dirs[ints[k]].path@
        &&& v[k].max_frecency == dirs[ints[k]].max_frecency
    } by {
        assert(p[k] < scores.len());
        assert(wanted[p[k] as int]);
        assert(v[k].path == dirs[p[k] as int].path);
    }
    assert forall|q: int|
        0 <= q < dirs.len() && dirs[q].path@.len() > 0 && !#[trigger] ints.contains(
            q,
        ) implies ints.len() == limit && forall|k: int|
        0 <= k < v.len() ==> (#[trigger] v[k]).max_frecency >= dirs[q].max_frecency by {
        assert(wanted[q]);
        assert(!p.contains(q as usize)) by {
            if p.contains(q as usize) {
                let i = choose|i: int| 0 <= i < p.len() && p[i] == q as usize;
                assert(ints[i] == q);
            }
        }
        assert forall|k: int| 0 <= k < v.len() implies (#[trigger] v[k]).max_frecency
            >= dirs[q].max_frecency by {
            assert(scores[p[k] as int] >= scores[q]);
        }
    }
    assert forall|a: int, b: int| 0 <= a < b < v.len() implies (#[trigger] v[a]).max_frecency >= (
    #[trigger] v[b]).max_frecency by {
        assert(scores[p[a] as int] >= scores[p[b] as int]);
    }
}

/// The recent files that are listed are the best there are: as many as there are
/// with a score, and modified where only these are asked for, up to the limit; each
/// once with its score, by descending score; and none that is left out scores
/// higher than one that is listed.
pub proof fn law_recent_files_are_listed_up_to_the_limit(
    files: Seq<FileRecord>,
    limit: usize,
    dirty_only: bool,
    v: Seq<WireSearchResult>,
)
    requires
        lists_recent(v, files, limit, dirty_only),
        files.len() <= usize::MAX,
    ensures
        ({
            let there = Set::new(
                |q: int|
                    0 <= q < files.len() && !files[q].deleted && files[q].frecency > 0 && (
                    dirty_only ==> (files[q].git_status matches Some(s) && s & 2435 != 0)),
            ).len();
            v.len() == if limit < there {
                limit as nat
            } else {
                there
            }
        }),
        exists|p: Seq<int>|
            #![trigger p.len()]
            {
                &&& p.len() == v.len()
                &&& forall|a: int, b: int| 0 <= a < b < p.len() ==> p[a] != p[b]
                &&& forall|k: int|
                    0 <= k < p.len() ==> {
                        &&& 0 <= #[trigger] p[k] < files.len()
                        &&& !files[p[k]].deleted
                        &&& files[p[k]].frecency > 0
                        &&& dirty_only ==> (files[p[k]].git_status matches Some(s) && s & 2435 != 0)
                        &&& v[k].path@ == files[p[k]].path@
                        &&& v[k].score == files[p[k]].frecency
                        &&& v[k].git_status == files[p[k]].git_status
                        &&& v[k].frecency_score == files[p[k]].frecency
                    }
                &&& forall|q: int|
                    0 <= q < files.len() && !files[q].deleted && files[q].frecency > 0 && (
                    dirty_only ==> (files[q].git_status matches Some(s) && s & 2435 != 0))
                        && !#[trigger] p.contains(q) ==> p.len() == limit && forall|k: int|
                        0 <= k < v.len() ==> (#[trigger] v[k]).score >= files[q].frecency
            },
        forall|a: int, b: int|
            0 <= a < b < v.len() ==> (#[trigger] v[a]).score >= (#[trigger] v[b]).score,
{
    let p = choose|p: Seq<usize>| #[trigger]
        crate::order::is_top(file_scores(files), recent_flags(files, dirty_only), limit as int, p)
            && v.len() == p.len() && forall|i: int|
            0 <= i < p.len() ==> is_result(
                #[trigger] v[i],
                files[p[i] as int],
                files[p[i] as int].frecency,
            );
    let scores = file_scores(files);
    let wanted = recent_flags(files, dirty_only);
    lemma_top_count(scores, wanted, limit as int, p);
    let shown = |q: int|
        0 <= q < files.len() && !files[q].deleted && files[q].frecency > 0 && (dirty_only ==> (
        files[q].git_status matches Some(s) && s & 2435 != 0));
    assert forall|q: int| 0 <= q < files.len() implies #[trigger] wanted[q] == shown(q) by {
        if let Some(s) = files[q].git_status {
            crate::git::law_modified_is_a_mask(s);
        }
    }
    assert(Set::new(|q: int| 0 <= q < wanted.len() && wanted[q]) =~= Set::new(shown));
    let ints = p.map_values(|x: usize| x as int);
    assert(ints.len() == v.len());
    assert forall|a: int, b: int| 0 <= a < b < ints.len() implies ints[a] != ints[b] by {
        assert(p[a] != p[b]);
    }
    assert forall|k: int| 0 <= k < ints.len() implies {
        &&& 0 <= #[trigger] ints[k] < files.len()
        &&& shown(ints[k])
        &&& v[k].path@ == files[ints[k]].path@
        &&& v[k].score == files[ints[k]].frecency
        &&& v[k].git_status == files[ints[k]].git_status
        &&& v[k].frecency_score == files[ints[k]].frecency
    } by {
        assert(p[k] < scores.len());
        assert(wanted[p[k] as int]);
        assert(is_result(v[k], files[p[k] as int], files[p[k] as int].frecency));
    }
    assert forall|q: int| shown(q) && !#[trigger] ints.contains(q) implies ints.len() == limit
        && forall|k: int| 0 <= k < v.len() ==> (#[trigger] v[k]).score >= files[q].frecency by {
        assert(wanted[q]);
        assert(!p.contains(q as usize)) by {
            if p.contains(q as usize) {
                let i = choose|i: int| 0 <= i < p.len() && p[i] == q as usize;
                assert(ints[i] == q);
            }
        }
        assert forall|k: int| 0 <= k < v.len() implies (#[trigger] v[k]).score
            >= files[q].frecency by {
            assert(scores[p[k] as int] >= scores[q]);
            assert(v[k].score == files[ints[k]].frecency);
        }
    }
    assert forall|a: int, b: int| 0 <= a < b < v.len() implies (#[trigger] v[a]).score >= (
    #[trigger] v[b]).score by {
        assert(scores[p[a] as int] >= scores[p[b] as int]);
        assert(v[a].score == files[ints[a]].frecency);
        assert(v[b].score == files[ints[b]].frecency);
    }
}

/// The files that count as modified are those that are there and have one of the
/// flags of a modified status.
pub proof fn law_modified_files_are_counted(files: Seq<FileRecord>)
    ensures
        dirty_total(files) == files.filter(
            |f: FileRecord| !f.deleted && (f.git_status matches Some(s) && s & 2435 != 0),
        ).len(),
        dirty_total(files) <= files.len(),
    decreases files.len(),
{
    reveal(Seq::filter);
    if files.len() > 0 {
        law_modified_files_are_counted(files.drop_last());
        if let Some(s) = files.last().git_status {
            crate::git::law_modified_is_a_mask(s);
        }
    }
}

/// A query that gave nothing is answered with why: the index is not there yet, or
/// what went wrong.
pub proof fn law_what_a_failed_query_is_answered<T>(outcome: Outcome<T>, r: SearchResponse)
    requires
        outcome !is Done,
        crate::wire::is_failure(r, failure_text(outcome)),
    ensures
        r is Error,
        outcome is NotReady ==> (r matches SearchResponse::Error(m) && m@
            == "File picker not yet initialized"@),
        outcome matches Outcome::Failed(e) ==> (r matches SearchResponse::Error(m) && m@ == e@),
        outcome matches Outcome::Crashed(e) ==> (r matches SearchResponse::Error(m) && m@
            == "spawn_blocking join error: "@ + e@),
{
}

/// A content search waits half a minute for the first scan at most, and git
/// statuses are read anew once they are three seconds old.
pub proof fn law_how_long_queries_wait()
    ensures
        GREP_READINESS_TIMEOUT_MS == 30000,
        GIT_STATUS_TTL_MS == 3000,
        0 < GREP_READINESS_POLL_MS < GREP_READINESS_TIMEOUT_MS,
{
}

} // verus!
