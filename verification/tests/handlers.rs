use fff::git::{INDEX_NEW, WT_DELETED, WT_MODIFIED};
use fff::handlers::{
    dirty_count, handle_find_files, handle_get_git_status, handle_grep, handle_health,
    handle_list_directories, handle_list_recent_files, handle_multi_grep, needs_git_refresh,
    project_grep_result, read_picker_freshness, search_may_start, DirRecord, FileRecord, GrepPage, Outcome, PickerState,
    GIT_STATUS_TTL_MS, GREP_READINESS_TIMEOUT_MS,
};
use fff::order::{pick, sorted_positions, top_positions};
use fff::text::{contains, decimal, lower_contains, pad_right, parse_u64};
use fff::text_order::{is_less, sorted_texts};
use fff::types::{SearchResponse, WireGrepMatch};

fn file(path: &str, frecency: i32, git_status: Option<u32>) -> FileRecord {
    FileRecord {
        path: path.into(),
        size: 10,
        deleted: false,
        git_status,
        frecency,
    }
}

fn deleted(path: &str, frecency: i32) -> FileRecord {
    FileRecord {
        deleted: true,
        ..file(path, frecency, Some(WT_MODIFIED))
    }
}

fn hit(line: u64) -> WireGrepMatch {
    WireGrepMatch {
        line_number: line,
        col: 0,
        line_text: "x".into(),
        match_byte_offsets: vec![(0, 1)],
        is_definition: false,
        context_before: vec![],
        context_after: vec![],
    }
}

#[test]
fn matches_are_grouped_by_file() {
    let files = vec![
        file("a", 1, None),
        file("b", 2, Some(WT_MODIFIED)),
        file("c", 3, None),
    ];
    let r = project_grep_result(&files, vec![(2, hit(7)), (0, hit(1)), (2, hit(5))]);
    let seen: Vec<(&str, Vec<u64>)> = r
        .iter()
        .map(|f| {
            (
                f.path.as_str(),
                f.matches.iter().map(|m| m.line_number).collect(),
            )
        })
        .collect();
    assert_eq!(seen, vec![("a", vec![1]), ("c", vec![7, 5])]);
    assert_eq!(r[1].frecency_score, 3);
    assert_eq!(r[1].size, 10);
}

fn page() -> GrepPage {
    GrepPage {
        files: vec![file("a", 1, None)],
        matches: vec![(0, hit(1))],
        total_files_searched: 2,
        total_files: 3,
        files_with_matches: 1,
        next_file_offset: 4,
        regex_fallback_error: Some("bad regex".into()),
    }
}

#[test]
fn a_page_keeps_its_totals() {
    for resp in [handle_grep(Outcome::Done(page())), handle_multi_grep(Outcome::Done(page()))] {
        match resp {
            SearchResponse::GrepResults(w) => {
                assert_eq!(w.matches.len(), 1);
                assert_eq!(w.total_files_searched, 2);
                assert_eq!(w.total_files, 3);
                assert_eq!(w.files_with_matches, 1);
                assert_eq!(w.next_file_offset, 4);
                assert_eq!(w.regex_fallback_error.as_deref(), Some("bad regex"));
            }
            other => panic!("expected GrepResults, got {other:?}"),
        }
    }
}

fn error_of(resp: SearchResponse) -> String {
    match resp {
        SearchResponse::Error(m) => m,
        other => panic!("expected Error, got {other:?}"),
    }
}

#[test]
fn a_query_that_gives_nothing_is_an_error() {
    assert_eq!(
        error_of(handle_grep(Outcome::NotReady)),
        "File picker not yet initialized"
    );
    assert_eq!(error_of(handle_grep(Outcome::Failed("io".into()))), "io");
    assert_eq!(
        error_of(handle_list_directories(Outcome::Crashed("panic".into()), 1)),
        "spawn_blocking join error: panic"
    );
    assert_eq!(
        error_of(handle_find_files(Outcome::NotReady)),
        "File picker not yet initialized"
    );
    assert_eq!(
        error_of(handle_health(Outcome::NotReady, "s".into(), "/s".into())),
        "File picker not yet initialized"
    );
}

#[test]
fn found_files_keep_their_order() {
    let files = vec![file("b", 1, None), file("a", 2, Some(0))];
    match handle_find_files(Outcome::Done((files, vec![90, 100]))) {
        SearchResponse::SearchResults(v) => {
            let seen: Vec<(&str, i32, i32)> = v
                .iter()
                .map(|r| (r.path.as_str(), r.score, r.frecency_score))
                .collect();
            assert_eq!(seen, vec![("b", 90, 1), ("a", 100, 2)]);
        }
        other => panic!("expected SearchResults, got {other:?}"),
    }
}

fn recent(limit: usize, dirty_only: bool) -> Vec<String> {
    let files = vec![
        file("low", 1, Some(WT_MODIFIED)),
        file("none", 0, Some(WT_MODIFIED)),
        file("high", 9, None),
        deleted("gone", 99),
        file("tie", 1, Some(INDEX_NEW)),
        file("rm", 5, Some(WT_DELETED)),
    ];
    match handle_list_recent_files(Outcome::Done(files), limit, dirty_only) {
        SearchResponse::RecentFiles(v) => v.into_iter().map(|r| r.path).collect(),
        other => panic!("expected RecentFiles, got {other:?}"),
    }
}

#[test]
fn recent_files_come_by_score() {
    assert_eq!(recent(10, false), vec!["high", "rm", "low", "tie"]);
    assert_eq!(recent(2, false), vec!["high", "rm"]);
    assert_eq!(recent(10, true), vec!["low", "tie"]);
    assert!(recent(0, false).is_empty());
}

#[test]
fn git_statuses_are_labelled() {
    let list = |include_clean: bool| {
        let files = vec![
            file("m", 1, Some(WT_MODIFIED)),
            file("c", 2, Some(0)),
            file("u", 3, None),
            deleted("gone", 4),
        ];
        match handle_get_git_status(Outcome::Done(files), include_clean) {
            SearchResponse::GitStatus(v) => v
                .into_iter()
                .map(|f| format!("{} {} {}", f.path, f.status, f.frecency_score))
                .collect::<Vec<String>>(),
            other => panic!("expected GitStatus, got {other:?}"),
        }
    };
    assert_eq!(list(false), vec!["m modified 1"]);
    assert_eq!(list(true), vec!["m modified 1", "c clean 2", "u clean 3"]);
}

#[test]
fn directories_come_by_score() {
    let dirs = vec![
        DirRecord {
            path: "a".into(),
            max_frecency: 1,
        },
        DirRecord {
            path: "b".into(),
            max_frecency: 0,
        },
        DirRecord {
            path: "c".into(),
            max_frecency: 7,
        },
    ];
    match handle_list_directories(Outcome::Done(dirs), 2) {
        SearchResponse::Directories(v) => {
            let seen: Vec<(&str, i32)> =
                v.iter().map(|d| (d.path.as_str(), d.max_frecency)).collect();
            assert_eq!(seen, vec![("c", 7), ("a", 1)]);
        }
        other => panic!("expected Directories, got {other:?}"),
    }
}

#[test]
fn health_counts_modified_files() {
    let files = vec![
        file("m", 1, Some(WT_MODIFIED)),
        file("d", 1, Some(WT_DELETED)),
        file("u", 1, None),
        deleted("gone", 1),
    ];
    assert_eq!(dirty_count(&files), 1);
    match handle_health(Outcome::Done((4, files)), "s".into(), "/s".into()) {
        SearchResponse::Health(h) => {
            assert_eq!(h.roots.len(), 1);
            assert_eq!(h.roots[0].indexed_files, Some(4));
            assert_eq!(h.roots[0].dirty_count, Some(1));
            assert_eq!(h.roots[0].slug, "s");
            assert_eq!(h.roots[0].last_scan_age_sec, None);
        }
        other => panic!("expected Health, got {other:?}"),
    }
}

#[test]
fn a_search_waits_for_the_first_scan() {
    assert!(!search_may_start(PickerState::Scanning, 0));
    assert!(search_may_start(
        PickerState::Scanning,
        GREP_READINESS_TIMEOUT_MS
    ));
    for p in [
        PickerState::Ready,
        PickerState::Absent,
        PickerState::Unreadable,
    ] {
        assert!(search_may_start(p, 0));
    }
}

#[test]
fn git_statuses_are_read_anew_when_old() {
    assert!(needs_git_refresh(None, 0));
    assert!(!needs_git_refresh(Some(10), 10 + GIT_STATUS_TTL_MS - 1));
    assert!(needs_git_refresh(Some(10), 10 + GIT_STATUS_TTL_MS));
    assert!(!needs_git_refresh(Some(10), 5));
}

// ── Texts and orders ────────────────────────────────────────────────────────

#[test]
fn sorting_is_stable() {
    assert_eq!(sorted_positions(&vec![3, 1, 2, 1]), vec![1, 3, 2, 0]);
    assert_eq!(pick(vec!["a", "b", "c"], &vec![2, 0]), vec!["c", "a"]);
    assert_eq!(
        top_positions(&vec![5, 9, 9, 1], &vec![true, true, true, true], 3),
        vec![1, 2, 0]
    );
    assert_eq!(
        top_positions(&vec![5, 9], &vec![true, false], 3),
        vec![0]
    );
}

#[test]
fn texts_are_sorted_by_character() {
    assert!(is_less("a", "ab"));
    assert!(is_less("Z", "a"));
    assert!(is_less("z", "ä"));
    assert!(!is_less("a", "a"));
    assert!(!is_less("b", "ab"));
    let keys: Vec<String> = ["b", "a", "b", ""].iter().map(|s| s.to_string()).collect();
    assert_eq!(sorted_texts(&keys), vec![3, 1, 0, 2]);
}

#[test]
fn numbers_are_read_and_written() {
    assert_eq!(decimal(0), "0");
    assert_eq!(decimal(u64::MAX), "18446744073709551615");
    assert_eq!(pad_right("ab", 4), "ab  ");
    assert_eq!(pad_right("abcd", 2), "abcd");
    assert_eq!(parse_u64("007"), Some(7));
    assert_eq!(parse_u64("+7"), Some(7));
    assert_eq!(parse_u64("+"), None);
    assert_eq!(parse_u64(""), None);
    assert_eq!(parse_u64(" 7"), None);
    assert!(contains("abc", "bc"));
    assert!(contains("abc", ""));
    assert!(!contains("abc", "cb"));
    assert!(lower_contains("ABC", "bc"));
    assert!(!lower_contains("ABC", "BC"));
}

#[test]
fn an_index_that_cannot_be_read_has_no_counts() {
    let files = vec![
        file("a", 1, Some(WT_MODIFIED)),
        file("b", 1, None),
        deleted("c", 1),
    ];
    assert_eq!(
        read_picker_freshness(Outcome::Done((2, files))),
        (Some(2), Some(1))
    );
    assert_eq!(read_picker_freshness(Outcome::NotReady), (None, None));
    assert_eq!(
        read_picker_freshness(Outcome::Failed("poisoned".into())),
        (None, None)
    );
}
