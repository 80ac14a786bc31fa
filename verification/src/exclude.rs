//! Which paths are kept out of an index.

use crate::path::{contains_component, swap_char};
use crate::text::contains;
use ignore::gitignore::{Gitignore, GitignoreBuilder};
use ignore::overrides::{Override, OverrideBuilder};
use vstd::prelude::*;

verus! {

/// A builder of override rules of the `ignore` crate.
#[verifier::external_type_specification]
#[verifier::external_body]
pub struct ExOverrideBuilder(OverrideBuilder);

/// Override rules of the `ignore` crate.
#[verifier::external_type_specification]
#[verifier::external_body]
pub struct ExOverride(Override);

/// A builder of ignore rules of the `ignore` crate.
#[verifier::external_type_specification]
#[verifier::external_body]
pub struct ExGitignoreBuilder(GitignoreBuilder);

/// Ignore rules of the `ignore` crate.
#[verifier::external_type_specification]
#[verifier::external_body]
pub struct ExGitignore(Gitignore);

/// The globs that an override builder holds, in order.
pub uninterp spec fn override_builder_globs(b: OverrideBuilder) -> Seq<Seq<char>>;

/// The globs that override rules hold, in order.
pub uninterp spec fn override_globs(o: Override) -> Seq<Seq<char>>;

/// The globs that an ignore builder holds, in order.
pub uninterp spec fn gitignore_builder_globs(b: GitignoreBuilder) -> Seq<Seq<char>>;

/// The globs that ignore rules hold, in order.
pub uninterp spec fn gitignore_globs(g: Gitignore) -> Seq<Seq<char>>;

/// The directory that an override builder's rules are about.
pub uninterp spec fn override_builder_root(b: OverrideBuilder) -> Seq<char>;

/// The directory that override rules are about.
pub uninterp spec fn override_root(o: Override) -> Seq<char>;

/// The directory that an ignore builder's rules are about.
pub uninterp spec fn gitignore_builder_root(b: GitignoreBuilder) -> Seq<char>;

/// The directory that ignore rules are about.
pub uninterp spec fn gitignore_root(g: Gitignore) -> Seq<char>;

/// What a line comes to for an override builder: no glob, one glob, or an error.
pub uninterp spec fn override_line(line: Seq<char>) -> Result<Option<Seq<char>>, ()>;

/// What a line comes to for an ignore builder: no glob, one glob, or an error.
pub uninterp spec fn gitignore_line(line: Seq<char>) -> Result<Option<Seq<char>>, ()>;

/// Whether rules can be made of these override globs.
pub uninterp spec fn overrides_build(globs: Seq<Seq<char>>) -> bool;

/// Whether rules can be made of these ignore globs.
pub uninterp spec fn gitignore_builds(globs: Seq<Seq<char>>) -> bool;

/// A path that begins at the current directory: a lone dot, or a dot and a
/// separator of some system.
pub open spec fn starts_here(path: Seq<char>) -> bool {
    &&& path.len() > 0
    &&& path[0] == '.'
    &&& path.len() > 1 ==> path[1] == '/' || path[1] == '\\'
}

/// The directory of rules with these globs: rules without globs have none.
pub open spec fn rules_root(globs: Seq<Seq<char>>, root: Seq<char>) -> Seq<char> {
    if globs.len() == 0 {
        Seq::empty()
    } else {
        root
    }
}

/// A list of globs with what a line comes to added.
pub open spec fn with_line(globs: Seq<Seq<char>>, line: Result<Option<Seq<char>>, ()>) -> Seq<
    Seq<char>,
> {
    match line {
        Ok(Some(g)) => globs.push(g),
        _ => globs,
    }
}

/// `OverrideBuilder::new`: a builder for rules under a directory, without globs.
/// What becomes of a directory that begins with the current one depends on the
/// system, and is left unsaid.
#[verifier::external_body]
fn new_override_builder(base_path: &str) -> (b: OverrideBuilder)
    ensures
        override_builder_globs(b) == Seq::<Seq<char>>::empty(),
        !starts_here(base_path@) ==> override_builder_root(b) == base_path@,
{
    OverrideBuilder::new(base_path)
}

/// `OverrideBuilder::add`: adds the glob of a line, or fails and adds none. A
/// line that starts with an exclamation mark and ends with a slash is neither
/// blank nor a comment, so its glob is the line.
#[verifier::external_body]
fn add_override(b: &mut OverrideBuilder, line: &str) -> (added: bool)
    ensures
        added == override_line(line@) is Ok,
        override_builder_globs(*final(b)) == with_line(
            override_builder_globs(*old(b)),
            override_line(line@),
        ),
        override_builder_root(*final(b)) == override_builder_root(*old(b)),
        added && line@.len() > 1 && line@[0] == '!' && line@.last() == '/'
            ==> override_builder_globs(*final(b)) == override_builder_globs(*old(b)).push(line@),
{
    b.add(line).is_ok()
}

/// `OverrideBuilder::build`: rules with the globs of the builder, unless they
/// cannot be made. Rules without globs can.
#[verifier::external_body]
fn build_overrides(b: &OverrideBuilder) -> (r: Option<Override>)
    ensures
        r is Some == overrides_build(override_builder_globs(*b)),
        override_builder_globs(*b).len() == 0 ==> r is Some,
        r matches Some(o) ==> override_globs(o) == override_builder_globs(*b),
        r matches Some(o) ==> override_root(o) == rules_root(
            override_builder_globs(*b),
            override_builder_root(*b),
        ),
{
    b.build().ok()
}

/// `GitignoreBuilder::new`: a builder for rules under a directory, without globs.
/// What becomes of a directory that begins with the current one depends on the
/// system, and is left unsaid.
#[verifier::external_body]
fn new_gitignore_builder(base_path: &str) -> (b: GitignoreBuilder)
    ensures
        gitignore_builder_globs(b) == Seq::<Seq<char>>::empty(),
        !starts_here(base_path@) ==> gitignore_builder_root(b) == base_path@,
{
    GitignoreBuilder::new(base_path)
}

/// `GitignoreBuilder::add_line`: adds the glob of a line, if it holds one, or
/// fails and adds none.
#[verifier::external_body]
fn add_ignore_line(b: &mut GitignoreBuilder, line: &str) -> (added: bool)
    ensures
        added == gitignore_line(line@) is Ok,
        gitignore_builder_globs(*final(b)) == with_line(
            gitignore_builder_globs(*old(b)),
            gitignore_line(line@),
        ),
        gitignore_builder_root(*final(b)) == gitignore_builder_root(*old(b)),
{
    b.add_line(None, line).is_ok()
}

/// `GitignoreBuilder::build`: rules with the globs of the builder, unless they
/// cannot be made. Rules without globs can.
#[verifier::external_body]
fn build_gitignore(b: &GitignoreBuilder) -> (r: Option<Gitignore>)
    ensures
        r is Some == gitignore_builds(gitignore_builder_globs(*b)),
        gitignore_builder_globs(*b).len() == 0 ==> r is Some,
        r matches Some(g) ==> gitignore_globs(g) == gitignore_builder_globs(*b),
        r matches Some(g) ==> gitignore_root(g) == rules_root(
            gitignore_builder_globs(*b),
            gitignore_builder_root(*b),
        ),
{
    b.build().ok()
}

/// The systems that differ in what is kept out.
#[derive(Debug, Clone, Copy, PartialEq, Eq, Structural)]
pub enum Platform {
    MacOs,
    Windows,
    Other,
}

/// Directories of generated files, by a part of their path.
pub open spec fn generated_dirs() -> Seq<Seq<char>> {
    seq![
        "node_modules"@,
        "__pycache__"@,
        "venv"@,
        ".venv"@,
        "target/debug"@,
        "target/release"@,
        "target/rust-analyzer"@,
        "target/criterion"@,
    ]
}

/// Directories of the system and its applications, by a part of their path.
pub open spec fn platform_dirs(platform: Platform) -> Seq<Seq<char>> {
    match platform {
        Platform::MacOs => seq![
            "Library/Application Support"@,
            "Library/Caches"@,
            "Library/Group Containers"@,
            "Library/Containers"@,
        ],
        Platform::Windows => seq![
            "bin/Debug"@,
            "bin/Release"@,
            "Program Files"@,
            "Program Files (x86)"@,
            "AppData/Local"@,
            "AppData/Roaming"@,
        ],
        Platform::Other => Seq::empty(),
    }
}

/// Every directory that is kept out.
pub open spec fn ignored_dirs(platform: Platform) -> Seq<Seq<char>> {
    generated_dirs() + platform_dirs(platform)
}

/// A list of texts.
pub open spec fn str_views(v: Seq<&'static str>) -> Seq<Seq<char>> {
    v.map_values(|s: &'static str| s@)
}

/// The line that keeps a directory out wherever it stands.
pub open spec fn dir_line(dir: Seq<char>) -> Seq<char> {
    "!**/"@ + dir + "/"@
}

/// The globs that override lines for these directories come to.
pub open spec fn dir_globs(dirs: Seq<Seq<char>>) -> Seq<Seq<char>>
    decreases dirs.len(),
{
    if dirs.len() == 0 {
        Seq::empty()
    } else {
        with_line(dir_globs(dirs.drop_last()), override_line(dir_line(dirs.last())))
    }
}

/// The globs that these ignore lines come to.
pub open spec fn line_globs(lines: Seq<String>) -> Seq<Seq<char>>
    decreases lines.len(),
{
    if lines.len() == 0 {
        Seq::empty()
    } else {
        with_line(line_globs(lines.drop_last()), gitignore_line(lines.last()@))
    }
}

/// Directories of generated files, by a part of their path.
pub fn non_git_ignored_dirs() -> (r: Vec<&'static str>)
    ensures
        str_views(r@) == generated_dirs(),
{
    let r: Vec<&'static str> = vec![
        "node_modules",
        "__pycache__",
        "venv",
        ".venv",
        "target/debug",
        "target/release",
        "target/rust-analyzer",
        "target/criterion",
    ];
    assert(str_views(r@) =~= generated_dirs());
    r
}

/// Directories of the system and its applications, by a part of their path.
pub fn platform_ignored_dirs(platform: Platform) -> (r: Vec<&'static str>)
    ensures
        str_views(r@) == platform_dirs(platform),
{
    let r: Vec<&'static str> = match platform {
        Platform::MacOs => vec![
            "Library/Application Support",
            "Library/Caches",
            "Library/Group Containers",
            "Library/Containers",
        ],
        Platform::Windows => vec![
            "bin/Debug",
            "bin/Release",
            "Program Files",
            "Program Files (x86)",
            "AppData/Local",
            "AppData/Roaming",
        ],
        Platform::Other => vec![],
    };
    assert(str_views(r@) =~= platform_dirs(platform));
    r
}

fn all_ignored_dirs(platform: Platform) -> (r: Vec<&'static str>)
    ensures
        str_views(r@) == ignored_dirs(platform),
{
    let mut r = non_git_ignored_dirs();
    let mut more = platform_ignored_dirs(platform);
    r.append(&mut more);
    assert(str_views(r@) =~= ignored_dirs(platform));
    r
}

/// Every glob of the list is the line of one of the directories.
pub open spec fn only_dir_lines(globs: Seq<Seq<char>>, dirs: Seq<Seq<char>>) -> bool {
    forall|i: int|
        0 <= i < globs.len() ==> exists|k: int|
            0 <= k < dirs.len() && #[trigger] globs[i] == #[trigger] dir_line(dirs[k])
}

/// Rules that keep generated files out of a directory that is no git
/// repository. A line that the rules do not take is left out. The directory of
/// the rules is the given one, unless that begins with the current directory:
/// the system then decides.
pub fn non_git_repo_overrides(base_path: &str, platform: Platform) -> (r: Option<Override>)
    ensures
        r is Some == overrides_build(dir_globs(ignored_dirs(platform))),
        r matches Some(o) ==> {
            &&& override_globs(o) == dir_globs(ignored_dirs(platform))
            &&& only_dir_lines(override_globs(o), ignored_dirs(platform))
            &&& !starts_here(base_path@) || override_globs(o).len() == 0 ==> override_root(o)
                == rules_root(override_globs(o), base_path@)
        },
{
    let dirs = all_ignored_dirs(platform);
    let ghost all = ignored_dirs(platform);
    let mut b = new_override_builder(base_path);
    let mut i: usize = 0;
    assert(all.take(0) =~= Seq::empty());
    while i < dirs.len()
        invariant
            i <= dirs@.len(),
            str_views(dirs@) == all,
            override_builder_globs(b) == dir_globs(all.take(i as int)),
            only_dir_lines(override_builder_globs(b), all),
            !starts_here(base_path@) ==> override_builder_root(b) == base_path@,
        decreases dirs.len() - i,
    {
        let line = String::from_str("!**/").concat(dirs[i]).concat("/");
        let ghost before = override_builder_globs(b);
        proof {
            assert(all.take(i + 1).drop_last() =~= all.take(i as int));
            assert(all.take(i + 1).last() == all[i as int]);
            assert(str_views(dirs@)[i as int] == dirs@[i as int]@);
            assert(line@ == dir_line(all[i as int]));
            reveal_strlit("!**/");
            reveal_strlit("/");
            assert(line@[0] == '!');
            assert(line@.last() == '/');
        }
        let added = add_override(&mut b, line.as_str());
        proof {
            let after = override_builder_globs(b);
            assert forall|k: int| 0 <= k < after.len() implies exists|m: int|
                0 <= m < all.len() && #[trigger] after[k] == #[trigger] dir_line(all[m]) by {
                if k < before.len() {
                    assert(after[k] == before[k]);
                } else {
                    assert(after[k] == dir_line(all[i as int]));
                }
            }
        }
        i = i + 1;
    }
    assert(all.take(i as int) =~= all);
    build_overrides(&b)
}

/// Rules of the user's own patterns for a directory; none without patterns. A
/// pattern that makes no sense is left out. The directory of the rules is the
/// given one, unless that begins with the current directory: the system then
/// decides.
pub fn user_ignore_matcher(base_path: &str, patterns: &Vec<String>) -> (r: Option<Gitignore>)
    ensures
        r is Some == (patterns@.len() > 0 && gitignore_builds(line_globs(patterns@))),
        patterns@.len() > 0 && line_globs(patterns@).len() == 0 ==> r is Some,
        r matches Some(g) ==> {
            &&& gitignore_globs(g) == line_globs(patterns@)
            &&& !starts_here(base_path@) || gitignore_globs(g).len() == 0 ==> gitignore_root(g)
                == rules_root(gitignore_globs(g), base_path@)
        },
{
    if patterns.len() == 0 {
        return None;
    }
    let mut b = new_gitignore_builder(base_path);
    let mut i: usize = 0;
    assert(patterns@.take(0) =~= Seq::empty());
    while i < patterns.len()
        invariant
            i <= patterns@.len(),
            gitignore_builder_globs(b) == line_globs(patterns@.take(i as int)),
            !starts_here(base_path@) ==> gitignore_builder_root(b) == base_path@,
        decreases patterns.len() - i,
    {
        assert(patterns@.take(i + 1).drop_last() =~= patterns@.take(i as int));
        assert(patterns@.take(i + 1).last() == patterns@[i as int]);
        add_ignore_line(&mut b, patterns[i].as_str());
        i = i + 1;
    }
    assert(patterns@.take(i as int) =~= patterns@);
    build_gitignore(&b)
}

/// A directory as paths of the platform write it.
pub open spec fn native_dir(dir: Seq<char>, platform: Platform) -> Seq<char> {
    if platform is Windows {
        crate::path::swapped(dir, '/', '\\')
    } else {
        dir
    }
}

/// A path of the platform with slashes between its components.
pub open spec fn slashed(path: Seq<char>, platform: Platform) -> Seq<char> {
    if platform is Windows {
        crate::path::swapped(path, '\\', '/')
    } else {
        path
    }
}

/// Some directory that is kept out occurs in the text of the path.
pub open spec fn mentions_ignored_dir(path: Seq<char>, platform: Platform) -> bool {
    exists|i: int|
        0 <= i < ignored_dirs(platform).len() && crate::text::contains_text(
            path,
            native_dir(#[trigger] ignored_dirs(platform)[i], platform),
        )
}

/// Whether a path leads into a directory that is kept out, or into one that is
/// named `target`.
pub fn is_non_code_directory(path: &str, platform: Platform) -> (r: bool)
    ensures
        r == (mentions_ignored_dir(path@, platform) || crate::path::has_component(
            slashed(path@, platform),
            "target"@,
        )),
{
    let dirs = all_ignored_dirs(platform);
    let windows = matches!(platform, Platform::Windows);
    let ghost all = ignored_dirs(platform);
    let mut i: usize = 0;
    while i < dirs.len()
        invariant
            i <= dirs@.len(),
            all == ignored_dirs(platform),
            str_views(dirs@) == all,
            windows == (platform is Windows),
            forall|k: int|
                0 <= k < i ==> !crate::text::contains_text(
                    path@,
                    native_dir(#[trigger] all[k], platform),
                ),
        decreases dirs.len() - i,
    {
        assert(str_views(dirs@)[i as int] == dirs@[i as int]@);
        let dir = if windows {
            swap_char(dirs[i], '/', '\\')
        } else {
            String::from_str(dirs[i])
        };
        if contains(path, dir.as_str()) {
            assert(crate::text::contains_text(path@, native_dir(all[i as int], platform)));
            return true;
        }
        i = i + 1;
    }
    if windows {
        contains_component(swap_char(path, '\\', '/').as_str(), "target")
    } else {
        contains_component(path, "target")
    }
}

/// A path leads into a directory that is kept out wherever one of these stands in
/// it, on every system.
pub proof fn law_generated_directories_are_kept_out(
    before: Seq<char>,
    after: Seq<char>,
    platform: Platform,
)
    ensures
        mentions_ignored_dir(before + "node_modules"@ + after, platform),
        mentions_ignored_dir(before + "__pycache__"@ + after, platform),
        mentions_ignored_dir(before + "venv"@ + after, platform),
        !(platform is Windows) ==> {
            &&& mentions_ignored_dir(before + "target/debug"@ + after, platform)
            &&& mentions_ignored_dir(before + "target/release"@ + after, platform)
            &&& mentions_ignored_dir(before + "target/rust-analyzer"@ + after, platform)
            &&& mentions_ignored_dir(before + "target/criterion"@ + after, platform)
        },
        platform is Windows ==> {
            &&& mentions_ignored_dir(before + "target\\debug"@ + after, platform)
            &&& mentions_ignored_dir(before + "target\\release"@ + after, platform)
            &&& mentions_ignored_dir(before + "Program Files"@ + after, platform)
            &&& mentions_ignored_dir(before + "AppData\\Local"@ + after, platform)
            &&& mentions_ignored_dir(before + "AppData\\Roaming"@ + after, platform)
            &&& mentions_ignored_dir(before + "bin\\Debug"@ + after, platform)
            &&& mentions_ignored_dir(before + "bin\\Release"@ + after, platform)
        },
        platform is MacOs ==> {
            &&& mentions_ignored_dir(before + "Library/Application Support"@ + after, platform)
            &&& mentions_ignored_dir(before + "Library/Caches"@ + after, platform)
            &&& mentions_ignored_dir(before + "Library/Group Containers"@ + after, platform)
            &&& mentions_ignored_dir(before + "Library/Containers"@ + after, platform)
        },
{
    let dirs = ignored_dirs(platform);
    reveal_strlit("node_modules");
    reveal_strlit("__pycache__");
    reveal_strlit("venv");
    reveal_strlit("target/debug");
    reveal_strlit("target/release");
    reveal_strlit("target\\debug");
    reveal_strlit("target\\release");
    reveal_strlit("Program Files");
    reveal_strlit("AppData/Local");
    reveal_strlit("AppData\\Local");
    reveal_strlit("AppData/Roaming");
    reveal_strlit("AppData\\Roaming");
    reveal_strlit("bin/Debug");
    reveal_strlit("bin\\Debug");
    reveal_strlit("bin/Release");
    reveal_strlit("bin\\Release");
    assert(native_dir("node_modules"@, platform) =~= "node_modules"@);
    assert(native_dir("__pycache__"@, platform) =~= "__pycache__"@);
    assert(native_dir("venv"@, platform) =~= "venv"@);
    lemma_mentioned(before, after, platform, 0);
    lemma_mentioned(before, after, platform, 1);
    lemma_mentioned(before, after, platform, 2);
    lemma_mentioned(before, after, platform, 4);
    lemma_mentioned(before, after, platform, 5);
    lemma_mentioned(before, after, platform, 6);
    lemma_mentioned(before, after, platform, 7);
    assert(dirs[0] == "node_modules"@ && dirs[1] == "__pycache__"@ && dirs[2] == "venv"@);
    assert(dirs[4] == "target/debug"@ && dirs[5] == "target/release"@);
    assert(dirs[6] == "target/rust-analyzer"@ && dirs[7] == "target/criterion"@);
    if platform is Windows {
        assert(native_dir("target/debug"@, platform) =~= "target\\debug"@);
        assert(native_dir("target/release"@, platform) =~= "target\\release"@);
        assert(native_dir("Program Files"@, platform) =~= "Program Files"@);
        assert(native_dir("AppData/Local"@, platform) =~= "AppData\\Local"@);
        assert(native_dir("AppData/Roaming"@, platform) =~= "AppData\\Roaming"@);
        assert(native_dir("bin/Debug"@, platform) =~= "bin\\Debug"@);
        assert(native_dir("bin/Release"@, platform) =~= "bin\\Release"@);
        assert(dirs[8] == "bin/Debug"@ && dirs[9] == "bin/Release"@ && dirs[10]
            == "Program Files"@);
        assert(dirs[12] == "AppData/Local"@ && dirs[13] == "AppData/Roaming"@);
        lemma_mentioned(before, after, platform, 8);
        lemma_mentioned(before, after, platform, 9);
        lemma_mentioned(before, after, platform, 10);
        lemma_mentioned(before, after, platform, 12);
        lemma_mentioned(before, after, platform, 13);
    }
    if platform is MacOs {
        assert(dirs[8] == "Library/Application Support"@ && dirs[9] == "Library/Caches"@);
        assert(dirs[10] == "Library/Group Containers"@ && dirs[11] == "Library/Containers"@);
        lemma_mentioned(before, after, platform, 8);
        lemma_mentioned(before, after, platform, 9);
        lemma_mentioned(before, after, platform, 10);
        lemma_mentioned(before, after, platform, 11);
    }
}

proof fn lemma_mentioned(before: Seq<char>, after: Seq<char>, platform: Platform, i: int)
    requires
        0 <= i < ignored_dirs(platform).len(),
    ensures
        mentions_ignored_dir(
            before + native_dir(ignored_dirs(platform)[i], platform) + after,
            platform,
        ),
{
    let dir = native_dir(ignored_dirs(platform)[i], platform);
    crate::text::law_parts_occur(before, dir, after, before);
    assert(crate::text::contains_text(
        before + dir + after,
        native_dir(ignored_dirs(platform)[i], platform),
    ));
}

/// Rules for a plain directory are made of one line for each directory that is
/// kept out, in order, unless the rules refuse the line; a line keeps the directory
/// out wherever it stands.
pub proof fn law_every_ignored_directory_has_a_rule(dirs: Seq<Seq<char>>)
    requires
        forall|i: int|
            0 <= i < dirs.len() ==> override_line(
                "!**/"@ + (#[trigger] dirs[i]) + "/"@,
            ) == Ok::<Option<Seq<char>>, ()>(Some("!**/"@ + dirs[i] + "/"@)),
    ensures
        dir_globs(dirs).len() == dirs.len(),
        forall|i: int|
            0 <= i < dirs.len() ==> #[trigger] dir_globs(dirs)[i] == "!**/"@ + dirs[i] + "/"@,
    decreases dirs.len(),
{
    if dirs.len() > 0 {
        let front = dirs.drop_last();
        assert forall|i: int| 0 <= i < front.len() implies override_line(
            "!**/"@ + (#[trigger] front[i]) + "/"@,
        ) == Ok::<Option<Seq<char>>, ()>(Some("!**/"@ + front[i] + "/"@)) by {
            assert(front[i] == dirs[i]);
        }
        law_every_ignored_directory_has_a_rule(front);
        assert(dirs[dirs.len() - 1] == dirs.last());
    }
}

/// Rules of the user's patterns are made of what each line comes to, in order;
/// lines that come to nothing and lines that make no sense are left out.
pub proof fn law_every_pattern_has_a_rule(lines: Seq<String>, line: String)
    ensures
        line_globs(Seq::<String>::empty()).len() == 0,
        gitignore_line(line@) matches Ok(Some(g)) ==> line_globs(lines.push(line)) == line_globs(
            lines,
        ).push(g),
        !(gitignore_line(line@) matches Ok(Some(_))) ==> line_globs(lines.push(line))
            == line_globs(lines),
{
    assert(lines.push(line).drop_last() =~= lines);
    assert(lines.push(line).last() == line);
}

/// A path leads into a directory that is kept out only where one of these stands in
/// it: the directories of generated files, and those of its own system.
pub proof fn law_only_these_directories_are_kept_out(path: Seq<char>, platform: Platform)
    ensures
        generated_dirs() == seq![
            "node_modules"@,
            "__pycache__"@,
            "venv"@,
            ".venv"@,
            "target/debug"@,
            "target/release"@,
            "target/rust-analyzer"@,
            "target/criterion"@,
        ],
        platform_dirs(Platform::Other).len() == 0,
        platform_dirs(Platform::MacOs) == seq![
            "Library/Application Support"@,
            "Library/Caches"@,
            "Library/Group Containers"@,
            "Library/Containers"@,
        ],
        platform_dirs(Platform::Windows) == seq![
            "bin/Debug"@,
            "bin/Release"@,
            "Program Files"@,
            "Program Files (x86)"@,
            "AppData/Local"@,
            "AppData/Roaming"@,
        ],
        mentions_ignored_dir(path, platform) ==> exists|i: int|
            0 <= i < (generated_dirs() + platform_dirs(platform)).len()
                && crate::text::contains_text(
                path,
                crate::path::swapped(
                    #[trigger] (generated_dirs() + platform_dirs(platform))[i],
                    '/',
                    if platform is Windows {
                        '\\'
                    } else {
                        '/'
                    },
                ),
            ),
{
    if mentions_ignored_dir(path, platform) {
        let dirs = ignored_dirs(platform);
        let i = choose|i: int|
            0 <= i < dirs.len() && crate::text::contains_text(
                path,
                native_dir(#[trigger] dirs[i], platform),
            );
        assert((generated_dirs() + platform_dirs(platform))[i] == dirs[i]);
        assert(crate::path::swapped(dirs[i], '/', '/') =~= dirs[i]);
    }
}

/// On Windows backslashes separate components, elsewhere slashes alone do.
pub proof fn law_what_separates_components(path: Seq<char>)
    ensures
        slashed(path, Platform::Other) == path,
        slashed(path, Platform::MacOs) == path,
        slashed(path, Platform::Windows).len() == path.len(),
        forall|i: int|
            0 <= i < path.len() ==> #[trigger] slashed(path, Platform::Windows)[i] == if path[i]
                == '\\' {
                '/'
            } else {
                path[i]
            },
{
}

/// A list of names stands for their texts, and rules without globs have no
/// directory.
pub proof fn law_what_rules_are_about(
    names: Seq<&'static str>,
    globs: Seq<Seq<char>>,
    root: Seq<char>,
)
    ensures
        str_views(names).len() == names.len(),
        forall|i: int| 0 <= i < names.len() ==> #[trigger] str_views(names)[i] == names[i]@,
        globs.len() > 0 ==> rules_root(globs, root) == root,
        globs.len() == 0 ==> rules_root(globs, root).len() == 0,
{
}

/// A directory begins at the current one where its first component is a lone dot.
pub proof fn law_what_begins_here(rest: Seq<char>, c: char)
    requires
        c != '/' && c != '\\',
    ensures
        starts_here(seq!['.']),
        starts_here(seq!['.', '/'] + rest),
        starts_here(seq!['.', '\\'] + rest),
        !starts_here(seq!['.', c] + rest),
        !starts_here(Seq::empty()),
        c != '.' ==> !starts_here(seq![c] + rest),
{
    assert((seq!['.', c] + rest)[1] == c);
    assert((seq![c] + rest)[0] == c);
    assert((seq!['.', '/'] + rest)[0] == '.' && (seq!['.', '/'] + rest)[1] == '/');
    assert((seq!['.', '\\'] + rest)[0] == '.' && (seq!['.', '\\'] + rest)[1] == '\\');
}

} // verus!
