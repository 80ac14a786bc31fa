//! Git status: what the flags mean, and the status of every path of a checkout.
//! The paths are Unix paths: a slash alone separates components.

use crate::path::{join, normalized, strip_prefix};
use ahash::AHashMap;
use vstd::prelude::*;

verus! {

// The flags of a status word, as libgit2 numbers them.
pub const INDEX_NEW: u32 = 1;
pub const INDEX_MODIFIED: u32 = 2;
pub const INDEX_DELETED: u32 = 4;
pub const WT_NEW: u32 = 128;
pub const WT_MODIFIED: u32 = 256;
pub const WT_DELETED: u32 = 512;
pub const WT_RENAMED: u32 = 2048;
pub const IGNORED: u32 = 16384;

/// A flag is set in a status word.
pub open spec fn has_flag(status: u32, flag: u32) -> bool {
    status & flag == flag
}

/// A status that counts as modified: new or changed in the checkout or the
/// index, or renamed in the checkout.
pub open spec fn is_modified(status: u32) -> bool {
    ||| has_flag(status, WT_MODIFIED)
    ||| has_flag(status, INDEX_MODIFIED)
    ||| has_flag(status, WT_NEW)
    ||| has_flag(status, INDEX_NEW)
    ||| has_flag(status, WT_RENAMED)
}

/// Whether a status counts as modified.
pub fn is_modified_status(status: u32) -> (r: bool)
    ensures
        r == is_modified(status),
{
    status & WT_MODIFIED == WT_MODIFIED || status & INDEX_MODIFIED == INDEX_MODIFIED || status
        & WT_NEW == WT_NEW || status & INDEX_NEW == INDEX_NEW || status & WT_RENAMED == WT_RENAMED
}

/// Any of these flags makes a status modified, and no other flag does.
pub proof fn law_modified_is_a_mask(status: u32)
    ensures
        is_modified(status) == (status & 2435 != 0),
{
    assert((status & 256 == 256 || status & 2 == 2 || status & 128 == 128 || status & 1 == 1
        || status & 2048 == 2048) == (status & 2435 != 0)) by (bit_vector);
}

/// The label of a status. The first flag of this list that is set decides; a
/// path without a status, or with none of these flags, is clean.
pub open spec fn status_label(status: Option<u32>) -> Seq<char> {
    match status {
        None => "clean"@,
        Some(s) => if has_flag(s, WT_NEW) {
            "untracked"@
        } else if has_flag(s, WT_MODIFIED) {
            "modified"@
        } else if has_flag(s, WT_DELETED) {
            "deleted"@
        } else if has_flag(s, WT_RENAMED) {
            "renamed"@
        } else if has_flag(s, INDEX_NEW) {
            "staged_new"@
        } else if has_flag(s, INDEX_MODIFIED) {
            "staged_modified"@
        } else if has_flag(s, INDEX_DELETED) {
            "staged_deleted"@
        } else if has_flag(s, IGNORED) {
            "ignored"@
        } else {
            "clean"@
        },
    }
}

/// What each label stands for: changes of the checkout go before changes of the
/// index, those before being ignored, and only a path without any of these is
/// clean.
pub proof fn law_what_labels_stand_for(status: Option<u32>)
    ensures
        status is None ==> status_label(status) == "clean"@,
        status matches Some(s) ==> {
            &&& s & 128 != 0 ==> status_label(status) == "untracked"@
            &&& s & 128 == 0 && s & 256 != 0 ==> status_label(status) == "modified"@
            &&& s & 384 == 0 && s & 512 != 0 ==> status_label(status) == "deleted"@
            &&& s & 896 == 0 && s & 2048 != 0 ==> status_label(status) == "renamed"@
            &&& s & 2944 == 0 && s & 1 != 0 ==> status_label(status) == "staged_new"@
            &&& s & 2945 == 0 && s & 2 != 0 ==> status_label(status) == "staged_modified"@
            &&& s & 2947 == 0 && s & 4 != 0 ==> status_label(status) == "staged_deleted"@
            &&& s & 2951 == 0 && s & 16384 != 0 ==> status_label(status) == "ignored"@
            &&& (s & 19335 == 0) <==> status_label(status) == "clean"@
        },
{
    reveal_strlit("clean");
    reveal_strlit("untracked");
    reveal_strlit("modified");
    reveal_strlit("deleted");
    reveal_strlit("renamed");
    reveal_strlit("staged_new");
    reveal_strlit("staged_modified");
    reveal_strlit("staged_deleted");
    reveal_strlit("ignored");
    assert("untracked"@.len() == 9 && "clean"@.len() == 5 && "modified"@.len() == 8);
    assert("deleted"@.len() == 7 && "renamed"@.len() == 7 && "staged_new"@.len() == 10);
    assert("staged_modified"@.len() == 15 && "staged_deleted"@.len() == 14);
    assert("ignored"@.len() == 7);
    if let Some(s) = status {
        assert((s & 128 == 128) == (s & 128 != 0)) by (bit_vector);
        assert((s & 256 == 256) == (s & 256 != 0)) by (bit_vector);
        assert((s & 512 == 512) == (s & 512 != 0)) by (bit_vector);
        assert((s & 2048 == 2048) == (s & 2048 != 0)) by (bit_vector);
        assert((s & 1 == 1) == (s & 1 != 0)) by (bit_vector);
        assert((s & 2 == 2) == (s & 2 != 0)) by (bit_vector);
        assert((s & 4 == 4) == (s & 4 != 0)) by (bit_vector);
        assert((s & 16384 == 16384) == (s & 16384 != 0)) by (bit_vector);
        assert((s & 384 == 0) == (s & 128 == 0 && s & 256 == 0)) by (bit_vector);
        assert((s & 896 == 0) == (s & 384 == 0 && s & 512 == 0)) by (bit_vector);
        assert((s & 2944 == 0) == (s & 896 == 0 && s & 2048 == 0)) by (bit_vector);
        assert((s & 2945 == 0) == (s & 2944 == 0 && s & 1 == 0)) by (bit_vector);
        assert((s & 2947 == 0) == (s & 2945 == 0 && s & 2 == 0)) by (bit_vector);
        assert((s & 2951 == 0) == (s & 2947 == 0 && s & 4 == 0)) by (bit_vector);
        assert((s & 19335 == 0) == (s & 2951 == 0 && s & 16384 == 0)) by (bit_vector);
    }
}

/// The label of a status. Every status has one: the flag word of a clean path
/// is empty, and every word contains it.
pub fn format_git_status_opt(status: Option<u32>) -> (r: Option<&'static str>)
    ensures
        r matches Some(label) && label@ == status_label(status),
{
    match status {
        None => Some("clean"),
        Some(s) => if s & WT_NEW == WT_NEW {
            Some("untracked")
        } else if s & WT_MODIFIED == WT_MODIFIED {
            Some("modified")
        } else if s & WT_DELETED == WT_DELETED {
            Some("deleted")
        } else if s & WT_RENAMED == WT_RENAMED {
            Some("renamed")
        } else if s & INDEX_NEW == INDEX_NEW {
            Some("staged_new")
        } else if s & INDEX_MODIFIED == INDEX_MODIFIED {
            Some("staged_modified")
        } else if s & INDEX_DELETED == INDEX_DELETED {
            Some("staged_deleted")
        } else if s & IGNORED == IGNORED {
            Some("ignored")
        } else {
            Some("clean")
        },
    }
}

/// The label of a status, or `unknown`.
pub fn format_git_status(status: Option<u32>) -> (r: &'static str)
    ensures
        r@ == status_label(status),
{
    match format_git_status_opt(status) {
        Some(label) => label,
        None => "unknown",
    }
}

/// `ahash`'s map, by which statuses are found.
#[verifier::external_type_specification]
#[verifier::external_body]
#[verifier::reject_recursive_types(K)]
#[verifier::reject_recursive_types(V)]
#[verifier::reject_recursive_types(S)]
pub struct ExAHashMap<K, V, S>(AHashMap<K, V, S>);

/// `ahash`'s hasher state, carried by its maps.
#[verifier::external_type_specification]
#[verifier::external_body]
pub struct ExRandomState(ahash::RandomState);

/// What a map of statuses holds: a path and its status under each key.
pub uninterp spec fn status_entries(
    m: AHashMap<String, (String, u32), ahash::RandomState>,
) -> Map<Seq<char>, (Seq<char>, u32)>;

/// No path has a status.
pub open spec fn no_statuses() -> Map<Seq<char>, (Seq<char>, u32)> {
    Map::empty()
}

/// `AHashMap::new`: a map that holds nothing.
#[verifier::external_body]
fn new_entries() -> (m: AHashMap<String, (String, u32), ahash::RandomState>)
    ensures
        status_entries(m) == no_statuses(),
{
    AHashMap::new()
}

/// `AHashMap::insert`: the key now has this value, every other key the value it had.
#[verifier::external_body]
fn insert_entry(
    m: &mut AHashMap<String, (String, u32), ahash::RandomState>,
    key: String,
    entry: (String, u32),
)
    ensures
        status_entries(*final(m)) == status_entries(*old(m)).insert(key@, (entry.0@, entry.1)),
{
    m.insert(key, entry);
}

/// `AHashMap::get`: the value of the key, if it has one.
#[verifier::external_body]
fn get_entry<'a>(
    m: &'a AHashMap<String, (String, u32), ahash::RandomState>,
    key: &str,
) -> (r: Option<&'a (String, u32)>)
    ensures
        match r {
            Some(e) => status_entries(*m).contains_key(key@) && status_entries(*m)[key@] == (
                e.0@,
                e.1,
            ),
            None => !status_entries(*m).contains_key(key@),
        },
{
    m.get(key)
}

/// `len` of the standard map inside an `AHashMap`: the number of keys.
#[verifier::external_body]
fn entry_count(m: &AHashMap<String, (String, u32), ahash::RandomState>) -> (n: usize)
    ensures
        n == status_entries(*m).dom().len(),
{
    m.len()
}

/// The keys of a list of entries.
pub open spec fn keys_of(list: Seq<(String, (String, u32))>) -> Seq<Seq<char>> {
    list.map_values(|e: (String, (String, u32))| e.0@)
}

/// The paths and statuses of a list, in order, stand in the map under these keys,
/// which are all that it has, each once.
pub open spec fn listed_under(
    keys: Seq<Seq<char>>,
    list: Seq<(String, u32)>,
    m: Map<Seq<char>, (Seq<char>, u32)>,
) -> bool {
    &&& keys.len() == list.len()
    &&& keys.no_duplicates()
    &&& forall|key: Seq<char>| #[trigger] m.contains_key(key) == keys.contains(key)
    &&& forall|i: int|
        0 <= i < list.len() ==> m[#[trigger] keys[i]] == ((list[i]).0@, list[i].1)
}

/// The list holds every entry of the map once, in any order.
pub open spec fn lists_entries(
    list: Seq<(String, u32)>,
    m: Map<Seq<char>, (Seq<char>, u32)>,
) -> bool {
    exists|keys: Seq<Seq<char>>| #[trigger] listed_under(keys, list, m)
}

/// `AHashMap::into_iter`: every key once with its value, in no particular order.
#[verifier::external_body]
fn into_entries(m: AHashMap<String, (String, u32), ahash::RandomState>) -> (r: Vec<
    (String, (String, u32)),
>)
    ensures
        listed_under(
            keys_of(r@),
            r@.map_values(|e: (String, (String, u32))| e.1),
            status_entries(m),
        ),
{
    m.into_iter().collect()
}

/// The status of every path that git reported. Paths are compared by component,
/// and handed out as they were first recorded.
pub struct GitStatusCache(AHashMap<String, (String, u32), ahash::RandomState>);

/// The entries once a path has a status: a path that had one keeps its text.
pub open spec fn noted(
    m: Map<Seq<char>, (Seq<char>, u32)>,
    path: Seq<char>,
    status: u32,
) -> Map<Seq<char>, (Seq<char>, u32)> {
    let key = crate::path::normal(path);
    let text = if m.contains_key(key) {
        m[key].0
    } else {
        path
    };
    m.insert(key, (text, status))
}

/// Where the questions about single paths go.
pub enum StatusPlan {
    /// There is nothing to ask.
    Nothing,
    /// Ask for this one path, relative to the checkout.
    One(String),
    /// Ask for these paths, relative to the checkout.
    Many(Vec<String>),
}

/// A path lies outside the checkout.
pub struct OutsideWorkdir;

impl GitStatusCache {
    /// The text and the status of each path, under its shortest text.
    pub closed spec fn entries(&self) -> Map<Seq<char>, (Seq<char>, u32)> {
        status_entries(self.0)
    }

    /// Every path stands under its own shortest text.
    pub open spec fn wf(&self) -> bool {
        forall|key: Seq<char>| #[trigger]
            self.entries().contains_key(key) ==> crate::path::normal(self.entries()[key].0) == key
    }

    /// The status of a path, if git reported one.
    pub open spec fn status_of(&self, path: Seq<char>) -> Option<u32> {
        if self.entries().contains_key(crate::path::normal(path)) {
            Some(self.entries()[crate::path::normal(path)].1)
        } else {
            None
        }
    }

    /// No path has a status.
    pub fn empty() -> (r: Self)
        ensures
            r.entries() == no_statuses(),
            r.wf(),
    {
        GitStatusCache(new_entries())
    }

    /// How many paths have a status.
    pub fn statuses_len(&self) -> (n: usize)
        ensures
            n == self.entries().dom().len(),
    {
        entry_count(&self.0)
    }

    /// The status of a path, if git reported one.
    pub fn lookup_status(&self, full_path: &str) -> (r: Option<u32>)
        ensures
            r == self.status_of(full_path@),
    {
        match get_entry(&self.0, normalized(full_path).as_str()) {
            Some(e) => Some(e.1),
            None => None,
        }
    }

    /// Records the status of a path.
    pub fn insert(&mut self, full_path: &str, status: u32)
        ensures
            final(self).entries() == noted(old(self).entries(), full_path@, status),
            old(self).wf() ==> final(self).wf(),
    {
        let key = normalized(full_path);
        let text = match get_entry(&self.0, key.as_str()) {
            Some(e) => e.0.clone(),
            None => String::from_str(full_path),
        };
        insert_entry(&mut self.0, key, (text, status));
    }

    /// Every path that has a status, with it, in no particular order.
    pub fn into_iter(self) -> (r: Vec<(String, u32)>)
        ensures
            lists_entries(r@, self.entries()),
    {
        let all = into_entries(self.0);
        let mut r: Vec<(String, u32)> = Vec::new();
        let mut i: usize = 0;
        while i < all.len()
            invariant
                i <= all@.len(),
                r@.len() == i,
                forall|k: int|
                    0 <= k < i ==> (#[trigger] r@[k]).0@ == all@[k].1.0@ && r@[k].1 == all@[k].1.1,
            decreases all.len() - i,
        {
            r.push((all[i].1.0.clone(), all[i].1.1));
            i = i + 1;
        }
        assert(listed_under(keys_of(all@), r@, self.entries()));
        r
    }

    /// The statuses that git reported for a checkout. An entry whose path is not
    /// text is skipped; of two entries for one path the later counts. A bare
    /// repository has no statuses.
    pub fn from_statuses(workdir: Option<&str>, reported: &Vec<(Option<String>, u32)>) -> (r: Self)
        ensures
            match workdir {
                None => r.entries() == no_statuses(),
                Some(dir) => r.entries() == collected(dir@, reported@),
            },
            r.wf(),
    {
        let mut cache = GitStatusCache::empty();
        if let Some(dir) = workdir {
            let mut i: usize = 0;
            assert(reported@.take(0) =~= Seq::empty());
            while i < reported.len()
                invariant
                    i <= reported@.len(),
                    cache.entries() == collected(dir@, reported@.take(i as int)),
                    cache.wf(),
                decreases reported.len() - i,
            {
                assert(reported@.take(i + 1).drop_last() =~= reported@.take(i as int));
                assert(reported@.take(i + 1).last() == reported@[i as int]);
                if let Some(p) = &reported[i].0 {
                    let full = join(dir, p.as_str());
                    cache.insert(full.as_str(), reported[i].1);
                }
                i = i + 1;
            }
            assert(reported@.take(i as int) =~= reported@);
        }
        cache
    }

    /// How the statuses of given paths are asked for: one path is asked for
    /// directly, several by a path list. Every path must lie in the checkout.
    pub fn git_status_for_paths(paths: &Vec<String>, workdir: Option<&str>) -> (r: Result<
        StatusPlan,
        OutsideWorkdir,
    >)
        ensures
            match (workdir, r) {
                (None, Ok(plan)) => plan is Nothing,
                (Some(dir), Ok(plan)) => planned(plan, paths@, dir@),
                (None, Err(_)) => false,
                (Some(dir), Err(_)) => !all_under(paths@, dir@),
            },
    {
        if paths.len() == 0 {
            return Ok(StatusPlan::Nothing);
        }
        let dir = match workdir {
            Some(d) => d,
            None => return Ok(StatusPlan::Nothing),
        };
        let mut out: Vec<String> = Vec::new();
        let mut i: usize = 0;
        while i < paths.len()
            invariant
                i <= paths@.len(),
                workdir == Some(dir),
                out@.len() == i,
                forall|j: int|
                    0 <= j < i ==> crate::path::under((#[trigger] paths@[j])@, dir@) && out@[j]@
                        == crate::path::rest_below(paths@[j]@, dir@),
            decreases paths.len() - i,
        {
            match strip_prefix(paths[i].as_str(), dir) {
                Some(rel) => {
                    out.push(rel);
                },
                None => {
                    assert(!crate::path::under(paths@[i as int]@, dir@));
                    return Err(OutsideWorkdir);
                },
            }
            i = i + 1;
        }
        if out.len() == 1 {
            assert(crate::path::under(paths@[0]@, dir@));
            let only = out.remove(0);
            return Ok(StatusPlan::One(only));
        }
        Ok(StatusPlan::Many(out))
    }
}

/// Every path lies under a directory.
pub open spec fn all_under(paths: Seq<String>, dir: Seq<char>) -> bool {
    forall|i: int| 0 <= i < paths.len() ==> crate::path::under((#[trigger] paths[i])@, dir)
}

/// The plan asks for exactly these paths.
pub open spec fn planned(plan: StatusPlan, paths: Seq<String>, dir: Seq<char>) -> bool {
    &&& all_under(paths, dir)
    &&& match plan {
        StatusPlan::Nothing => paths.len() == 0,
        StatusPlan::One(rel) => paths.len() == 1 && rel@ == crate::path::rest_below(
            paths[0]@,
            dir,
        ),
        StatusPlan::Many(rels) => {
            &&& paths.len() > 1
            &&& rels@.len() == paths.len()
            &&& forall|i: int|
                0 <= i < paths.len() ==> (#[trigger] rels@[i])@ == crate::path::rest_below(
                    paths[i]@,
                    dir,
                )
        },
    }
}

/// The statuses collected from what git reported.
pub open spec fn collected(dir: Seq<char>, reported: Seq<(Option<String>, u32)>) -> Map<
    Seq<char>,
    (Seq<char>, u32),
>
    decreases reported.len(),
{
    if reported.len() == 0 {
        Map::empty()
    } else {
        let front = collected(dir, reported.drop_last());
        match reported.last().0 {
            Some(p) => noted(front, crate::path::joined(dir, p@), reported.last().1),
            None => front,
        }
    }
}

/// A status recorded for a path is found under every spelling of that path, and
/// the statuses of other paths stay what they were.
pub proof fn law_lookup_finds_what_was_recorded(
    before: GitStatusCache,
    after: GitStatusCache,
    path: Seq<char>,
    status: u32,
    asked: Seq<char>,
)
    requires
        after.entries() == noted(before.entries(), path, status),
    ensures
        after.status_of(asked) == if crate::path::path_eq(asked, path) {
            Some(status)
        } else {
            before.status_of(asked)
        },
{
    crate::path::law_normal_text_identifies_the_path(asked, path);
}

/// Every path that is handed out has the status that it is handed out with, and
/// no two of them are the same path.
pub proof fn law_listed_paths_have_their_status(cache: GitStatusCache, list: Seq<(String, u32)>)
    requires
        cache.wf(),
        lists_entries(list, cache.entries()),
    ensures
        forall|i: int|
            0 <= i < list.len() ==> cache.status_of((#[trigger] list[i]).0@) == Some(list[i].1),
        forall|i: int, j: int|
            0 <= i < j < list.len() ==> !crate::path::path_eq(
                (#[trigger] list[i]).0@,
                (#[trigger] list[j]).0@,
            ),
{
    let keys = choose|keys: Seq<Seq<char>>| #[trigger] listed_under(keys, list, cache.entries());
    assert forall|i: int| 0 <= i < list.len() implies crate::path::normal(
        (#[trigger] list[i]).0@,
    ) == keys[i] && cache.status_of(list[i].0@) == Some(list[i].1) by {
        assert(keys.contains(keys[i]));
        assert(cache.entries().contains_key(keys[i]));
    }
    assert forall|i: int, j: int| 0 <= i < j < list.len() implies !crate::path::path_eq(
        (#[trigger] list[i]).0@,
        (#[trigger] list[j]).0@,
    ) by {
        crate::path::law_normal_text_identifies_the_path(list[i].0@, list[j].0@);
        assert(keys[i] != keys[j]);
    }
}

/// The status of a path is the one that git reported last for it; a path that git
/// did not report has none.
pub proof fn law_every_reported_status_is_found(
    cache: GitStatusCache,
    dir: Seq<char>,
    reported: Seq<(Option<String>, u32)>,
    asked: Seq<char>,
    i: int,
)
    requires
        cache.entries() == collected(dir, reported),
    ensures
        0 <= i < reported.len() && (reported[i].0 matches Some(p) && crate::path::path_eq(
            asked,
            crate::path::joined(dir, p@),
        )) && (forall|j: int|
            i < j < reported.len() ==> !((#[trigger] reported[j]).0 matches Some(q)
                && crate::path::path_eq(asked, crate::path::joined(dir, q@)))) ==> cache.status_of(
            asked,
        ) == Some(reported[i].1),
        (forall|j: int|
            0 <= j < reported.len() ==> !((#[trigger] reported[j]).0 matches Some(q)
                && crate::path::path_eq(asked, crate::path::joined(dir, q@)))) ==> cache.status_of(
            asked,
        ) is None,
{
    lemma_collected(dir, reported, asked, i);
}

proof fn lemma_collected(
    dir: Seq<char>,
    reported: Seq<(Option<String>, u32)>,
    asked: Seq<char>,
    i: int,
)
    ensures
        0 <= i < reported.len() && (reported[i].0 matches Some(p) && crate::path::path_eq(
            asked,
            crate::path::joined(dir, p@),
        )) && (forall|j: int|
            i < j < reported.len() ==> !((#[trigger] reported[j]).0 matches Some(q)
                && crate::path::path_eq(asked, crate::path::joined(dir, q@)))) ==> {
            let m = collected(dir, reported);
            m.contains_key(crate::path::normal(asked)) && m[crate::path::normal(asked)].1
                == reported[i].1
        },
        (forall|j: int|
            0 <= j < reported.len() ==> !((#[trigger] reported[j]).0 matches Some(q)
                && crate::path::path_eq(asked, crate::path::joined(dir, q@)))) ==> !collected(
            dir,
            reported,
        ).contains_key(crate::path::normal(asked)),
    decreases reported.len(),
{
    if reported.len() > 0 {
        let front = reported.drop_last();
        lemma_collected(dir, front, asked, i);
        assert forall|j: int| 0 <= j < front.len() implies #[trigger] front[j] == reported[j] by {}
        if let Some(p) = reported.last().0 {
            crate::path::law_normal_text_identifies_the_path(
                asked,
                crate::path::joined(dir, p@),
            );
        }
        if 0 <= i < front.len() && (forall|j: int|
            i < j < reported.len() ==> !((#[trigger] reported[j]).0 matches Some(q)
                && crate::path::path_eq(asked, crate::path::joined(dir, q@)))) {
            assert(!(reported[reported.len() - 1].0 matches Some(q) && crate::path::path_eq(
                asked,
                crate::path::joined(dir, q@),
            )));
            assert forall|j: int| i < j < front.len() implies !((
            #[trigger] front[j]).0 matches Some(q) && crate::path::path_eq(
                asked,
                crate::path::joined(dir, q@),
            )) by {
                assert(front[j] == reported[j]);
            }
        }
        if forall|j: int|
            0 <= j < reported.len() ==> !((#[trigger] reported[j]).0 matches Some(q)
                && crate::path::path_eq(asked, crate::path::joined(dir, q@))) {
            assert(!(reported[reported.len() - 1].0 matches Some(q) && crate::path::path_eq(
                asked,
                crate::path::joined(dir, q@),
            )));
            assert forall|j: int| 0 <= j < front.len() implies !((
            #[trigger] front[j]).0 matches Some(q) && crate::path::path_eq(
                asked,
                crate::path::joined(dir, q@),
            )) by {
                assert(front[j] == reported[j]);
            }
        }
    }
}

/// Git is asked for every path, in order: what is asked for, taken from the
/// checkout, is the path. One path is asked for by itself, and without paths
/// nothing is asked.
pub proof fn law_git_is_asked_for_every_path(plan: StatusPlan, paths: Seq<String>, dir: Seq<char>)
    requires
        planned(plan, paths, dir),
    ensures
        plan is Nothing <==> paths.len() == 0,
        plan is One <==> paths.len() == 1,
        plan matches StatusPlan::One(rel) ==> crate::path::path_eq(
            crate::path::joined(dir, rel@),
            paths[0]@,
        ),
        plan matches StatusPlan::Many(rels) ==> rels@.len() == paths.len() && forall|i: int|
            0 <= i < paths.len() ==> crate::path::path_eq(
                crate::path::joined(dir, (#[trigger] rels@[i])@),
                paths[i]@,
            ),
{
    match plan {
        StatusPlan::Nothing => {},
        StatusPlan::One(rel) => {
            assert(crate::path::under(paths[0]@, dir));
            crate::path::law_rest_joins_back(paths[0]@, dir);
        },
        StatusPlan::Many(rels) => {
            assert forall|i: int| 0 <= i < paths.len() implies crate::path::path_eq(
                crate::path::joined(dir, (#[trigger] rels@[i])@),
                paths[i]@,
            ) by {
                assert(crate::path::under(paths[i]@, dir));
                crate::path::law_rest_joins_back(paths[i]@, dir);
            }
        },
    }
}

/// Every path that has a status is handed out with it.
pub proof fn law_every_status_is_handed_out(
    cache: GitStatusCache,
    list: Seq<(String, u32)>,
    path: Seq<char>,
)
    requires
        cache.wf(),
        lists_entries(list, cache.entries()),
        cache.status_of(path) is Some,
    ensures
        exists|i: int|
            0 <= i < list.len() && crate::path::path_eq((#[trigger] list[i]).0@, path)
                && list[i].1 == cache.status_of(path)->0,
{
    let keys = choose|keys: Seq<Seq<char>>| #[trigger] listed_under(keys, list, cache.entries());
    let key = crate::path::normal(path);
    assert(cache.entries().contains_key(key));
    assert(keys.contains(key));
    let i = choose|i: int| 0 <= i < keys.len() && keys[i] == key;
    assert(cache.entries()[keys[i]] == (list[i].0@, list[i].1));
    crate::path::law_normal_text_identifies_the_path(list[i].0@, path);
}

/// A path is handed out as it was recorded first.
pub proof fn law_a_path_keeps_its_first_text(
    m: Map<Seq<char>, (Seq<char>, u32)>,
    path: Seq<char>,
    again: Seq<char>,
    status: u32,
    later: u32,
)
    requires
        !m.contains_key(crate::path::normal(path)),
        crate::path::path_eq(again, path),
    ensures
        ({
            let once = noted(m, path, status);
            let twice = noted(once, again, later);
            let key = crate::path::normal(path);
            &&& once.contains_key(key)
            &&& once[key] == (path, status)
            &&& twice[key] == (path, later)
            &&& twice.dom() == once.dom()
        }),
{
    crate::path::law_normal_text_identifies_the_path(again, path);
    let once = noted(m, path, status);
    let twice = noted(once, again, later);
    assert(twice.dom() =~= once.dom());
}

/// Where there are no statuses, no path has one.
pub proof fn law_without_statuses_no_path_has_one(cache: GitStatusCache, path: Seq<char>)
    requires
        cache.entries() == no_statuses(),
    ensures
        cache.status_of(path) is None,
        cache.entries().dom().len() == 0,
{
    assert(no_statuses().dom() =~= Set::<Seq<char>>::empty());
}

} // verus!
