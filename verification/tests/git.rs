use fff::exclude::{
    is_non_code_directory, non_git_ignored_dirs, non_git_repo_overrides, platform_ignored_dirs,
    user_ignore_matcher, Platform,
};
use fff::git::{
    format_git_status, format_git_status_opt, is_modified_status, GitStatusCache, StatusPlan,
    IGNORED, INDEX_DELETED, INDEX_MODIFIED, INDEX_NEW, WT_DELETED, WT_MODIFIED, WT_NEW, WT_RENAMED,
};
use git2::Status;

#[test]
fn the_flags_are_those_of_libgit2() {
    assert_eq!(INDEX_NEW, Status::INDEX_NEW.bits());
    assert_eq!(INDEX_MODIFIED, Status::INDEX_MODIFIED.bits());
    assert_eq!(INDEX_DELETED, Status::INDEX_DELETED.bits());
    assert_eq!(WT_NEW, Status::WT_NEW.bits());
    assert_eq!(WT_MODIFIED, Status::WT_MODIFIED.bits());
    assert_eq!(WT_DELETED, Status::WT_DELETED.bits());
    assert_eq!(WT_RENAMED, Status::WT_RENAMED.bits());
    assert_eq!(IGNORED, Status::IGNORED.bits());
    assert_eq!(0, Status::CURRENT.bits());
}

#[test]
fn each_status_has_its_label() {
    for (status, label) in [
        (None, "clean"),
        (Some(Status::CURRENT), "clean"),
        (Some(Status::WT_NEW), "untracked"),
        (Some(Status::WT_MODIFIED), "modified"),
        (Some(Status::WT_DELETED), "deleted"),
        (Some(Status::WT_RENAMED), "renamed"),
        (Some(Status::INDEX_NEW), "staged_new"),
        (Some(Status::INDEX_MODIFIED), "staged_modified"),
        (Some(Status::INDEX_DELETED), "staged_deleted"),
        (Some(Status::IGNORED), "ignored"),
        (Some(Status::INDEX_NEW | Status::WT_MODIFIED), "modified"),
        (Some(Status::CONFLICTED), "clean"),
    ] {
        let bits = status.map(|s| s.bits());
        assert_eq!(format_git_status(bits), label);
        assert_eq!(format_git_status_opt(bits), Some(label));
    }
}

#[test]
fn five_flags_make_a_status_modified() {
    for s in [
        Status::WT_MODIFIED,
        Status::INDEX_MODIFIED,
        Status::WT_NEW,
        Status::INDEX_NEW,
        Status::WT_RENAMED,
        Status::WT_RENAMED | Status::IGNORED,
    ] {
        assert!(is_modified_status(s.bits()));
    }
    for s in [
        Status::CURRENT,
        Status::WT_DELETED,
        Status::INDEX_DELETED,
        Status::IGNORED,
        Status::INDEX_RENAMED,
    ] {
        assert!(!is_modified_status(s.bits()));
    }
}

fn reported(paths: &[&str], status: Status) -> Vec<(Option<String>, u32)> {
    paths
        .iter()
        .map(|p| (Some(p.to_string()), status.bits()))
        .collect()
}

#[test]
fn lookup_is_case_exact_regardless_of_libgit2_sort_order() {
    // Mixed-case names that sort differently under byte-wise vs
    // case-insensitive comparators.
    let names = [
        "README.md",
        "a_lower.rs",
        "Z_upper.rs",
        "mixed_Case.txt",
        "nested/Inner_File.rs",
    ];
    let cache = GitStatusCache::from_statuses(Some("/repo/"), &reported(&names, Status::WT_MODIFIED));
    for n in names {
        let status = cache.lookup_status(&format!("/repo/{n}"));
        assert!(
            status.is_some(),
            "lookup for {n} returned None; cache holds {} entries",
            cache.statuses_len(),
        );
        assert!(
            Status::from_bits_truncate(status.unwrap()).contains(Status::WT_MODIFIED),
            "expected WT_MODIFIED for {n}, got {status:?}"
        );
    }
    assert_eq!(cache.statuses_len(), names.len());
    assert_eq!(cache.lookup_status("/repo/readme.md"), None);
}

#[test]
fn a_status_is_found_under_every_spelling() {
    let mut cache = GitStatusCache::empty();
    assert_eq!(cache.statuses_len(), 0);
    cache.insert("/r/a", 1);
    cache.insert("/r//b", 2);
    assert_eq!(cache.lookup_status("/r/./a/"), Some(1));
    assert_eq!(cache.lookup_status("/r/b"), Some(2));
    assert_eq!(cache.lookup_status("/r/c"), None);
    cache.insert("/r/a/", 3);
    assert_eq!(cache.lookup_status("/r/a"), Some(3));
    assert_eq!(cache.lookup_status("/r/b"), Some(2));
    assert_eq!(cache.statuses_len(), 2);
}

#[test]
fn what_is_not_text_has_no_status() {
    let mut list = reported(&["a"], Status::WT_NEW);
    list.push((None, Status::WT_MODIFIED.bits()));
    let cache = GitStatusCache::from_statuses(Some("/r"), &list);
    assert_eq!(cache.statuses_len(), 1);
    assert_eq!(GitStatusCache::from_statuses(None, &list).statuses_len(), 0);
}

#[test]
fn paths_are_asked_for_below_the_checkout() {
    let paths = |p: &[&str]| p.iter().map(|s| s.to_string()).collect::<Vec<String>>();
    match GitStatusCache::git_status_for_paths(&paths(&["/r/a/b"]), Some("/r")) {
        Ok(StatusPlan::One(p)) => assert_eq!(p, "a/b"),
        _ => panic!("expected one path"),
    }
    match GitStatusCache::git_status_for_paths(&paths(&["/r/a//b"]), Some("/r")) {
        Ok(StatusPlan::One(p)) => assert_eq!(p, "a//b"),
        _ => panic!("expected one path"),
    }
    match GitStatusCache::git_status_for_paths(&paths(&["/r/a", "/r//b"]), Some("/r/")) {
        Ok(StatusPlan::Many(p)) => assert_eq!(p, vec!["a", "b"]),
        _ => panic!("expected two paths"),
    }
    assert!(matches!(
        GitStatusCache::git_status_for_paths(&paths(&[]), Some("/r")),
        Ok(StatusPlan::Nothing)
    ));
    assert!(matches!(
        GitStatusCache::git_status_for_paths(&paths(&["/x"]), None),
        Ok(StatusPlan::Nothing)
    ));
    assert!(GitStatusCache::git_status_for_paths(&paths(&["/r/a", "/x"]), Some("/r")).is_err());
}

// ── Excluded directories ────────────────────────────────────────────────────

#[test]
fn build_output_is_kept_out_of_plain_directories() {
    let o = non_git_repo_overrides("/proj", Platform::Other).unwrap();
    assert_eq!(o.path().to_str(), Some("/proj"));
    let hidden = non_git_repo_overrides(".proj", Platform::Other).unwrap();
    assert_eq!(hidden.path().to_str(), Some(".proj"));
    for dir in non_git_ignored_dirs() {
        assert!(
            o.matched(format!("/proj/{dir}"), true).is_ignore(),
            "{dir} must be ignored"
        );
        assert!(o.matched(format!("/proj/deep/{dir}"), true).is_ignore());
    }
    assert!(!o.matched("/proj/src", true).is_ignore());
    assert!(!o.matched("/proj/target/other", true).is_ignore());
}

#[test]
fn patterns_of_the_user_are_matched() {
    let patterns = vec!["*.log".to_string(), "gen/".to_string()];
    let m = user_ignore_matcher("/proj", &patterns).unwrap();
    assert_eq!(m.path().to_str(), Some("/proj"));
    assert!(m.matched("/proj/a/b.log", false).is_ignore());
    assert!(m.matched("/proj/gen", true).is_ignore());
    assert!(!m.matched("/proj/a/b.txt", false).is_ignore());
    assert!(user_ignore_matcher("/proj", &vec![]).is_none());
}

#[test]
fn a_bad_pattern_is_skipped() {
    let patterns = vec!["{a".to_string(), "*.log".to_string()];
    let m = user_ignore_matcher("/proj", &patterns).unwrap();
    assert!(m.matched("/proj/b.log", false).is_ignore());
    assert!(!m.matched("/proj/a", false).is_ignore());
}

#[test]
fn non_code_directories_are_told_by_name() {
    let non_code = |path: &str| is_non_code_directory(path, Platform::Other);
    assert!(non_code("/p/node_modules/x"));
    assert!(non_code("/p/target/debug/deps"));
    assert!(!non_code("/p/src"));
}

#[test]
fn a_target_component_is_a_non_code_directory() {
    let non_code = |path: &str| is_non_code_directory(path, Platform::Other);
    assert!(non_code("/p/target"));
    assert!(non_code("target/x"));
    assert!(!non_code("/p/targets"));
    assert!(!non_code("/p/my-target/src"));
    assert!(is_non_code_directory("C:\\p\\target", Platform::Windows));
    assert!(!non_code("C:\\p\\target"));
}

#[test]
fn each_platform_keeps_its_own_directories_out() {
    assert!(platform_ignored_dirs(Platform::Other).is_empty());
    assert!(is_non_code_directory("/Users/me/Library/Caches/x", Platform::MacOs));
    assert!(!is_non_code_directory("/Users/me/Library/Caches/x", Platform::Other));
    assert!(is_non_code_directory(
        "C:\\Users\\me\\AppData\\Local\\x",
        Platform::Windows
    ));
    let o = non_git_repo_overrides("/Users/me", Platform::MacOs).unwrap();
    assert!(o.matched("/Users/me/Library/Containers", true).is_ignore());
    let o = non_git_repo_overrides("/Users/me", Platform::Other).unwrap();
    assert!(!o.matched("/Users/me/Library/Containers", true).is_ignore());
}

#[test]
fn every_recorded_path_is_listed_once() {
    let mut cache = GitStatusCache::empty();
    cache.insert("/w/b.rs", WT_NEW);
    cache.insert("/w/a.rs", WT_MODIFIED);
    cache.insert("/w//b.rs", WT_DELETED);
    let mut all = cache.into_iter();
    all.sort();
    assert_eq!(
        all,
        vec![
            ("/w/a.rs".to_string(), WT_MODIFIED),
            ("/w/b.rs".to_string(), WT_DELETED),
        ]
    );
}

#[test]
fn a_path_is_handed_out_as_it_was_first_recorded() {
    let mut cache = GitStatusCache::empty();
    cache.insert("/w//b.rs", WT_NEW);
    cache.insert("/w/b.rs/", WT_DELETED);
    assert_eq!(cache.lookup_status("/w/./b.rs"), Some(WT_DELETED));
    assert_eq!(cache.into_iter(), vec![("/w//b.rs".to_string(), WT_DELETED)]);
}

#[test]
fn patterns_without_globs_make_empty_rules() {
    let rules = user_ignore_matcher("/w", &vec!["# nothing".to_string(), "  ".to_string()]);
    assert!(rules.is_some_and(|r| r.is_empty()));
}
