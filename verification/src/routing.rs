//! The routing table: which worker serves which root, and the snapshot of the
//! hash ring that places new roots.

use crate::path::{starts_with, text_len};
use crate::text::same;
use std::collections::HashMap;
use vstd::prelude::*;

verus! {

broadcast use vstd::std_specs::hash::group_hash_axioms;

/// A root as a worker serves it. Entries carried over from tables written
/// before base paths were kept have an empty base path.
#[derive(Debug)]
pub struct RootEntry {
    pub slug: String,
    pub base_path: String,
}

impl Clone for RootEntry {
    fn clone(&self) -> (r: Self)
        ensures
            r == *self,
    {
        RootEntry { slug: self.slug.clone(), base_path: self.base_path.clone() }
    }
}

/// One worker: its process, its socket and the roots it serves.
#[derive(Debug)]
pub struct WorkerEntry {
    pub index: u32,
    pub socket_path: String,
    pub pid: u32,
    pub roots: Vec<RootEntry>,
    /// Slugs as old tables stored them. Read by `migrate_legacy` only.
    pub legacy_root_slugs: Vec<String>,
}

/// Virtual nodes of the hash ring: ring point and worker index, sorted by point.
#[derive(Debug)]
pub struct SerializableRing {
    pub nodes: Vec<(u64, u32)>,
}

/// The ring snapshot and every registered worker, by worker index.
#[derive(Debug)]
pub struct RoutingTable {
    pub ring_state: SerializableRing,
    pub workers: HashMap<u32, WorkerEntry>,
}

/// Some root of the list has this slug.
pub open spec fn has_slug(roots: Seq<RootEntry>, slug: Seq<char>) -> bool {
    exists|i: int| 0 <= i < roots.len() && (#[trigger] roots[i]).slug@ == slug
}

/// The roots with another slug, in order.
pub open spec fn without_slug(roots: Seq<RootEntry>, slug: Seq<char>) -> Seq<RootEntry> {
    roots.filter(|r: RootEntry| r.slug@ != slug)
}

/// The slugs of a list of roots.
pub open spec fn slugs_of(roots: Seq<RootEntry>) -> Seq<Seq<char>> {
    roots.map_values(|r: RootEntry| r.slug@)
}

/// `new` is `old` with the slugs of the old form turned into roots without a
/// base path, unless `old` had roots of its own.
pub open spec fn migrated(new: WorkerEntry, old: WorkerEntry) -> bool {
    &&& new.legacy_root_slugs@.len() == 0
    &&& new.index == old.index
    &&& new.socket_path == old.socket_path
    &&& new.pid == old.pid
    &&& old.roots@.len() > 0 ==> new.roots@ == old.roots@
    &&& old.roots@.len() == 0 ==> {
        &&& slugs_of(new.roots@) == old.legacy_root_slugs@.map_values(|s: String| s@)
        &&& forall|i: int|
            0 <= i < new.roots@.len() ==> (#[trigger] new.roots@[i]).base_path@.len() == 0
    }
}

/// What reading a table from its place gave: nothing there, an error of the
/// reading, a text that is no table, or the table as it was written.
pub enum ReadOutcome<E, D> {
    Absent,
    Failed(E),
    NotATable(D),
    Table(RoutingTable),
}

/// Why there is no table: it could not be read, or the data are invalid.
pub enum LoadError<E, D> {
    Read(E),
    InvalidData(D),
}

/// `new` is `old` with every worker migrated.
pub open spec fn table_migrated(new: RoutingTable, old: RoutingTable) -> bool {
    &&& new.ring_state == old.ring_state
    &&& new.workers@.dom() == old.workers@.dom()
    &&& forall|idx: u32| #[trigger]
        new.workers@.contains_key(idx) ==> migrated(new.workers@[idx], old.workers@[idx])
}

/// The table that was read, migrated; an empty one where there was none.
pub fn loaded<E, D>(read: ReadOutcome<E, D>) -> (r: Result<RoutingTable, LoadError<E, D>>)
    ensures
        match read {
            ReadOutcome::Absent => r matches Ok(t) && t.workers@ == Map::<u32, WorkerEntry>::empty()
                && t.ring_state.nodes@.len() == 0,
            ReadOutcome::Failed(e) => r == Err::<RoutingTable, _>(LoadError::<E, D>::Read(e)),
            ReadOutcome::NotATable(d) => r == Err::<RoutingTable, _>(
                LoadError::<E, D>::InvalidData(d),
            ),
            ReadOutcome::Table(old) => r matches Ok(t) && table_migrated(t, old),
        },
{
    match read {
        ReadOutcome::Absent => Ok(RoutingTable::new()),
        ReadOutcome::Failed(e) => Err(LoadError::Read(e)),
        ReadOutcome::NotATable(d) => Err(LoadError::InvalidData(d)),
        ReadOutcome::Table(old) => {
            let mut table = old;
            table.migrate_legacy();
            Ok(table)
        },
    }
}

impl WorkerEntry {
    /// A worker that serves nothing yet.
    pub fn new(index: u32, socket_path: String, pid: u32) -> (r: Self)
        ensures
            r.index == index,
            r.socket_path == socket_path,
            r.pid == pid,
            r.roots@.len() == 0,
            r.legacy_root_slugs@.len() == 0,
    {
        WorkerEntry {
            index,
            socket_path,
            pid,
            roots: Vec::new(),
            legacy_root_slugs: Vec::new(),
        }
    }

    /// Whether the worker serves the root `slug`.
    pub fn contains_slug(&self, slug: &str) -> (r: bool)
        ensures
            r == has_slug(self.roots@, slug@),
    {
        let mut i: usize = 0;
        while i < self.roots.len()
            invariant
                i <= self.roots.len(),
                forall|j: int| 0 <= j < i ==> (#[trigger] self.roots@[j]).slug@ != slug@,
            decreases self.roots.len() - i,
        {
            if same(self.roots[i].slug.as_str(), slug) {
                return true;
            }
            i = i + 1;
        }
        false
    }

    /// Adds a root at the end.
    pub fn push_root(&mut self, slug: String, base_path: String)
        ensures
            final(self).roots@ == old(self).roots@.push(RootEntry { slug, base_path }),
            final(self).index == old(self).index,
            final(self).socket_path == old(self).socket_path,
            final(self).pid == old(self).pid,
            final(self).legacy_root_slugs@ == old(self).legacy_root_slugs@,
    {
        self.roots.push(RootEntry { slug, base_path });
    }

    /// Removes every root with this slug; tells whether there was one.
    pub fn remove_slug(&mut self, slug: &str) -> (r: bool)
        ensures
            final(self).roots@ == without_slug(old(self).roots@, slug@),
            r == has_slug(old(self).roots@, slug@),
            final(self).index == old(self).index,
            final(self).socket_path == old(self).socket_path,
            final(self).pid == old(self).pid,
            final(self).legacy_root_slugs@ == old(self).legacy_root_slugs@,
    {
        let ghost all = self.roots@;
        let ghost keep = |r: RootEntry| r.slug@ != slug@;
        let before: usize = self.roots.len();
        let mut kept: Vec<RootEntry> = Vec::new();
        let mut i: usize = 0;
        assert(all.take(0).filter(keep) =~= Seq::empty()) by {
            reveal(Seq::filter);
        }
        while i < self.roots.len()
            invariant
                i <= self.roots.len(),
                self.roots@ == all,
                keep == |r: RootEntry| r.slug@ != slug@,
                kept@ == all.take(i as int).filter(keep),
                kept.len() <= i,
                (kept.len() < i) == exists|j: int| 0 <= j < i && (#[trigger] all[j]).slug@ == slug@,
            decreases self.roots.len() - i,
        {
            assert(all.take(i + 1).drop_last() =~= all.take(i as int));
            assert(all.take(i + 1).last() == all[i as int]);
            proof {
                reveal(Seq::filter);
            }
            if !same(self.roots[i].slug.as_str(), slug) {
                kept.push(self.roots[i].clone());
            } else {
                assert(all[i as int].slug@ == slug@);
            }
            i = i + 1;
        }
        assert(all.take(i as int) =~= all);
        let removed = kept.len() != before;
        self.roots = kept;
        removed
    }

    /// Turns the slugs of an old table into roots without a base path, unless
    /// the worker has roots of its own. No slug of the old form remains.
    pub fn migrate_legacy(&mut self)
        ensures
            migrated(*final(self), *old(self)),
    {
        if self.roots.len() == 0 {
            let ghost slugs = self.legacy_root_slugs@;
            let mut roots: Vec<RootEntry> = Vec::new();
            let mut i: usize = 0;
            while i < self.legacy_root_slugs.len()
                invariant
                    i <= self.legacy_root_slugs.len(),
                    self.legacy_root_slugs@ == slugs,
                    roots.len() == i,
                    forall|j: int| 0 <= j < i ==> (#[trigger] roots@[j]).slug@ == slugs[j]@,
                    forall|j: int| 0 <= j < i ==> (#[trigger] roots@[j]).base_path@.len() == 0,
                decreases self.legacy_root_slugs.len() - i,
            {
                roots.push(
                    RootEntry {
                        slug: self.legacy_root_slugs[i].clone(),
                        base_path: String::new(),
                    },
                );
                i = i + 1;
            }
            assert(slugs_of(roots@) =~= slugs.map_values(|s: String| s@));
            self.roots = roots;
        }
        self.legacy_root_slugs = Vec::new();
    }

    /// A second value with the same content.
    pub fn duplicate(&self) -> (r: Self)
        ensures
            r.index == self.index,
            r.socket_path == self.socket_path,
            r.pid == self.pid,
            r.roots@ == self.roots@,
            r.legacy_root_slugs@ == self.legacy_root_slugs@,
    {
        let roots = copy_roots(&self.roots);
        let legacy = self.legacy_root_slugs.clone();
        assert(legacy@ =~= self.legacy_root_slugs@);
        WorkerEntry {
            index: self.index,
            socket_path: self.socket_path.clone(),
            pid: self.pid,
            roots,
            legacy_root_slugs: legacy,
        }
    }
}

/// The same roots in a vector of their own.
pub fn copy_roots(roots: &Vec<RootEntry>) -> (r: Vec<RootEntry>)
    ensures
        r@ == roots@,
{
    let r = roots.clone();
    assert(r@ =~= roots@);
    r
}

/// The keys of a map, in no particular order.
pub fn key_list<V>(m: &HashMap<u32, V>) -> (r: Vec<u32>)
    ensures
        r@.no_duplicates(),
        r@.to_set() == m@.dom(),
        forall|k: u32| #[trigger] r@.contains(k) == m@.contains_key(k),
        r@.len() == m@.dom().len(),
{
    let mut r: Vec<u32> = Vec::new();
    for k in it: m.keys()
        invariant
            r@ == it.seq().unref().take(it.index() as int),
            it.seq() == vstd::std_specs::iter::IteratorSpec::remaining(
                &vstd::std_specs::hash::spec_keys_iter(m),
            ),
    {
        r.push(*k);
        assert(r@ =~= it.seq().unref().take(it.index() + 1));
    }
    proof {
        let keys = vstd::std_specs::iter::IteratorSpec::remaining(
            &vstd::std_specs::hash::spec_keys_iter(m),
        );
        assert(r@ =~= keys.unref());
        assert forall|k: u32| #[trigger] r@.contains(k) == m@.contains_key(k) by {
            assert(r@.to_set().contains(k) == r@.contains(k));
        }
        assert forall|i: int, j: int| 0 <= i < r@.len() && 0 <= j < r@.len() && i != j implies r@[i]
            != r@[j] by {
            assert(keys[i] != keys[j]);
        }
    }
    r
}

impl RoutingTable {
    /// A table without workers.
    pub fn new() -> (r: Self)
        ensures
            r.workers@ == Map::<u32, WorkerEntry>::empty(),
            r.ring_state.nodes@.len() == 0,
    {
        RoutingTable {
            ring_state: SerializableRing { nodes: Vec::new() },
            workers: HashMap::new(),
        }
    }

    /// Position `j` of worker `idx` holds a root.
    pub open spec fn holds(&self, idx: u32, j: int) -> bool {
        self.workers@.contains_key(idx) && 0 <= j < self.workers@[idx].roots@.len()
    }

    /// The root at position `j` of worker `idx`.
    pub open spec fn root(&self, idx: u32, j: int) -> RootEntry {
        self.workers@[idx].roots@[j]
    }

    /// The root at position `j` of worker `idx` has a base path and contains `path`.
    pub open spec fn contains_path(&self, idx: u32, j: int, path: Seq<char>) -> bool {
        &&& self.holds(idx, j)
        &&& self.root(idx, j).base_path@.len() > 0
        &&& crate::path::under(path, self.root(idx, j).base_path@)
    }

    /// Some worker serves the root `slug`.
    pub open spec fn routes(&self, slug: Seq<char>) -> bool {
        exists|idx: u32|
            self.workers@.contains_key(idx) && has_slug(
                (#[trigger] self.workers@[idx]).roots@,
                slug,
            )
    }

    /// The root `hit` stands at position `j` of its worker and contains `path`.
    pub open spec fn hit_at(&self, hit: (u32, String, String), j: int, path: Seq<char>) -> bool {
        &&& self.contains_path(hit.0, j, path)
        &&& self.root(hit.0, j) == (RootEntry { slug: hit.1, base_path: hit.2 })
    }

    /// Worker `idx` serves a root at `base`, and no root that contains `path`
    /// has a longer base path.
    pub open spec fn best_container(&self, idx: u32, base: Seq<char>, path: Seq<char>) -> bool {
        &&& exists|j: int| #[trigger]
            self.contains_path(idx, j, path) && self.root(idx, j).base_path@ == base
        &&& forall|i: int, w: u32| #[trigger]
            self.contains_path(w, i, path) ==> crate::path::byte_len(self.root(w, i).base_path@)
                <= crate::path::byte_len(base)
    }

    /// Worker `idx` serves a root that contains `path`, and no root that contains
    /// it has a longer base path.
    pub open spec fn surrounds_best(&self, idx: u32, path: Seq<char>) -> bool {
        exists|base: Seq<char>| #[trigger] self.best_container(idx, base, path)
    }

    /// One worker alone serves the closest roots around `path`.
    pub open spec fn one_surrounds_best(&self, path: Seq<char>) -> bool {
        forall|a: u32, b: u32| #[trigger]
            self.surrounds_best(a, path) && #[trigger] self.surrounds_best(b, path) ==> a == b
    }

    /// No root contains `path`.
    pub open spec fn none_contains(&self, path: Seq<char>) -> bool {
        forall|i: int, w: u32| !#[trigger] self.contains_path(w, i, path)
    }

    /// `hit` names a root that contains `path`, with a base path of `len` bytes.
    spec fn is_hit(&self, hit: Option<(u32, String, String)>, len: usize, path: Seq<char>) -> bool {
        match hit {
            None => len == 0,
            Some(h) => {
                &&& len == crate::path::byte_len(h.2@)
                &&& exists|j: int| #[trigger] self.hit_at(h, j, path)
            },
        }
    }

    /// Migrates every worker read from an old table.
    pub fn migrate_legacy(&mut self)
        ensures
            table_migrated(*final(self), *old(self)),
    {
        let ghost before = self.workers@;
        let keys = key_list(&self.workers);
        let mut k: usize = 0;
        while k < keys.len()
            invariant
                k <= keys.len(),
                keys@.no_duplicates(),
                forall|x: u32| #[trigger] keys@.contains(x) == before.contains_key(x),
                self.ring_state == old(self).ring_state,
                self.workers@.dom() == before.dom(),
                forall|q: int| 0 <= q < k ==> migrated(self.workers@[#[trigger] keys@[q]], before[keys@[q]]),
                forall|q: int| k <= q < keys@.len() ==> self.workers@[#[trigger] keys@[q]] == before[keys@[q]],
            decreases keys.len() - k,
        {
            let idx: u32 = keys[k];
            assert(keys@.contains(idx));
            match self.workers.remove(&idx) {
                Some(mut entry) => {
                    entry.migrate_legacy();
                    self.workers.insert(idx, entry);
                    assert(self.workers@.dom() =~= before.dom());
                },
                None => {},
            }
            k = k + 1;
        }
        assert forall|idx: u32| #[trigger] self.workers@.contains_key(idx) implies migrated(
            self.workers@[idx],
            before[idx],
        ) by {
            assert(keys@.contains(idx));
        }
    }

    /// How many roots worker `worker_index` serves.
    pub fn entries_for_worker(&self, worker_index: u32) -> (n: usize)
        ensures
            n == if self.workers@.contains_key(worker_index) {
                self.workers@[worker_index].roots@.len()
            } else {
                0
            },
    {
        match self.workers.get(&worker_index) {
            Some(e) => e.roots.len(),
            None => 0,
        }
    }

    /// Whether some worker serves the root `slug`.
    pub fn is_routed(&self, slug: &str) -> (r: bool)
        ensures
            r == self.routes(slug@),
    {
        let keys = key_list(&self.workers);
        let mut k: usize = 0;
        while k < keys.len()
            invariant
                k <= keys.len(),
                forall|x: u32| #[trigger] keys@.contains(x) == self.workers@.contains_key(x),
                forall|q: int|
                    0 <= q < k ==> !has_slug(self.workers@[#[trigger] keys@[q]].roots@, slug@),
            decreases keys.len() - k,
        {
            let idx: u32 = keys[k];
            assert(keys@.contains(idx));
            if let Some(e) = self.workers.get(&idx) {
                if e.contains_slug(slug) {
                    assert(has_slug(self.workers@[idx].roots@, slug@));
                    return true;
                }
            }
            k = k + 1;
        }
        assert forall|idx: u32|
            self.workers@.contains_key(idx) implies !has_slug(
            (#[trigger] self.workers@[idx]).roots@,
            slug@,
        ) by {
            assert(keys@.contains(idx));
        }
        false
    }

    /// How many workers are registered.
    pub fn worker_count(&self) -> (n: usize)
        ensures
            n == self.workers@.len(),
    {
        self.workers.len()
    }

    /// The registered root with the longest base path that contains `canonical`,
    /// as worker index, slug and base path. Roots without a base path never match.
    pub fn containing_root(&self, canonical: &str) -> (r: Option<(u32, String, String)>)
        ensures
            r is None ==> forall|idx: u32, j: int| !#[trigger] self.contains_path(idx, j, canonical@),
            r matches Some(hit) ==> {
                &&& exists|j: int| #[trigger] self.hit_at(hit, j, canonical@)
                &&& forall|i: int, idx2: u32| #[trigger]
                    self.contains_path(idx2, i, canonical@) ==> crate::path::byte_len(
                        self.root(idx2, i).base_path@,
                    ) <= crate::path::byte_len(hit.2@)
            },
    {
        let keys = key_list(&self.workers);
        let mut best: Option<(u32, String, String)> = None;
        let mut best_len: usize = 0;
        let mut k: usize = 0;
        while k < keys.len()
            invariant
                k <= keys.len(),
                forall|x: u32| #[trigger] keys@.contains(x) == self.workers@.contains_key(x),
                self.is_hit(best, best_len, canonical@),
                forall|q: int, j: int|
                    0 <= q < k && #[trigger] self.contains_path(keys@[q], j, canonical@)
                        ==> best is Some && crate::path::byte_len(
                        self.root(keys@[q], j).base_path@,
                    ) <= best_len,
            decreases keys.len() - k,
        {
            let idx: u32 = keys[k];
            assert(keys@.contains(idx));
            match self.workers.get(&idx) {
                Some(entry) => {
                    let mut j: usize = 0;
                    while j < entry.roots.len()
                        invariant
                            j <= entry.roots.len(),
                            k < keys.len(),
                            idx == keys@[k as int],
                            self.workers@.contains_key(idx),
                            *entry == self.workers@[idx],
                            self.is_hit(best, best_len, canonical@),
                            forall|q: int, jj: int|
                                0 <= q < k && #[trigger] self.contains_path(
                                    keys@[q],
                                    jj,
                                    canonical@,
                                ) ==> best is Some && crate::path::byte_len(
                                    self.root(keys@[q], jj).base_path@,
                                ) <= best_len,
                            forall|jj: int|
                                jj < j && #[trigger] self.contains_path(idx, jj, canonical@)
                                    ==> best is Some && crate::path::byte_len(
                                    self.root(idx, jj).base_path@,
                                ) <= best_len,
                        decreases entry.roots.len() - j,
                    {
                        let base = &entry.roots[j].base_path;
                        if base.unicode_len() > 0 {
                            let n: usize = text_len(base.as_str());
                            proof {
                                crate::path::lemma_bytes_iff_chars(base@);
                            }
                            if starts_with(canonical, base.as_str()) && n > best_len {
                                best_len = n;
                                let found = entry.roots[j].clone();
                                assert(self.contains_path(idx, j as int, canonical@));
                                assert(self.root(idx, j as int) == found);
                                let hit = (idx, found.slug, found.base_path);
                                assert(self.hit_at(hit, j as int, canonical@));
                                best = Some(hit);
                            }
                        }
                        j = j + 1;
                    }
                },
                None => {},
            }
            k = k + 1;
        }
        proof {
            assert forall|i: int, idx2: u32| #[trigger] self.contains_path(idx2, i, canonical@) implies best is Some
                && crate::path::byte_len(self.root(idx2, i).base_path@) <= best_len by {
                assert(keys@.contains(idx2));
                let q = choose|q: int| 0 <= q < keys@.len() && keys@[q] == idx2;
                assert(self.contains_path(keys@[q], i, canonical@));
            }
        }
        best
    }
}

/// A pushed root is there.
pub proof fn law_pushed_root_is_contained(roots: Seq<RootEntry>, e: RootEntry)
    ensures
        has_slug(roots.push(e), e.slug@),
{
    assert(roots.push(e)[roots.len() as int] == e);
}

/// A removed root is gone, and every root with another slug stays.
pub proof fn law_removed_slug_is_gone(roots: Seq<RootEntry>, slug: Seq<char>)
    ensures
        !has_slug(without_slug(roots, slug), slug),
        forall|other: Seq<char>|
            other != slug ==> (#[trigger] has_slug(without_slug(roots, slug), other) == has_slug(
                roots,
                other,
            )),
    decreases roots.len(),
{
    let keep = |r: RootEntry| r.slug@ != slug;
    reveal(Seq::filter);
    if roots.len() > 0 {
        let front = roots.drop_last();
        law_removed_slug_is_gone(front, slug);
        let kept = without_slug(front, slug);
        assert forall|other: Seq<char>| other != slug implies (#[trigger] has_slug(
            without_slug(roots, slug),
            other,
        ) == has_slug(roots, other)) by {
            if has_slug(roots, other) {
                let i = choose|i: int| 0 <= i < roots.len() && (#[trigger] roots[i]).slug@ == other;
                if i < front.len() {
                    assert(front[i].slug@ == other);
                    assert(has_slug(kept, other));
                    let j = choose|j: int| 0 <= j < kept.len() && (#[trigger] kept[j]).slug@ == other;
                    assert(without_slug(roots, slug)[j] == kept[j]);
                } else {
                    assert(without_slug(roots, slug) == kept.push(roots.last()));
                    assert(without_slug(roots, slug)[kept.len() as int].slug@ == other);
                }
            }
            if has_slug(without_slug(roots, slug), other) {
                let after = without_slug(roots, slug);
                let j = choose|j: int| 0 <= j < after.len() && (#[trigger] after[j]).slug@ == other;
                if j < kept.len() {
                    assert(kept[j].slug@ == other);
                    assert(has_slug(kept, other));
                    assert(has_slug(front, other));
                    let i = choose|i: int|
                        0 <= i < front.len() && (#[trigger] front[i]).slug@ == other;
                    assert(roots[i].slug@ == other);
                } else {
                    assert(roots[roots.len() - 1].slug@ == other);
                }
            }
        }
        if has_slug(without_slug(roots, slug), slug) {
            let after = without_slug(roots, slug);
            let j = choose|j: int| 0 <= j < after.len() && (#[trigger] after[j]).slug@ == slug;
            if j < kept.len() {
                assert(kept[j].slug@ == slug);
            }
        }
    }
}

/// Where nothing has the slug, removing it changes nothing.
pub proof fn law_removing_an_absent_slug_changes_nothing(roots: Seq<RootEntry>, slug: Seq<char>)
    requires
        !has_slug(roots, slug),
    ensures
        without_slug(roots, slug) == roots,
    decreases roots.len(),
{
    reveal(Seq::filter);
    if roots.len() > 0 {
        assert forall|i: int| 0 <= i < roots.len() - 1 implies (#[trigger] roots.drop_last()[i]).slug@
            != slug by {
            assert(roots[i].slug@ != slug);
        }
        law_removing_an_absent_slug_changes_nothing(roots.drop_last(), slug);
        assert(roots[roots.len() - 1].slug@ != slug);
        assert(roots.drop_last().push(roots.last()) =~= roots);
    }
}

/// Removing a root undoes pushing it, where its slug was new.
pub proof fn law_remove_undoes_push(roots: Seq<RootEntry>, e: RootEntry)
    requires
        !has_slug(roots, e.slug@),
    ensures
        without_slug(roots.push(e), e.slug@) == roots,
{
    reveal(Seq::filter);
    law_removing_an_absent_slug_changes_nothing(roots, e.slug@);
    assert(roots.push(e).drop_last() =~= roots);
}

/// Migrating twice gives the roots of migrating once.
pub proof fn law_migration_is_idempotent(once: WorkerEntry, twice: WorkerEntry, before: WorkerEntry)
    requires
        migrated(once, before),
        migrated(twice, once),
    ensures
        twice.roots@ == once.roots@,
{
    if once.roots@.len() == 0 {
        assert(slugs_of(twice.roots@).len() == 0);
        assert(twice.roots@ =~= once.roots@);
    }
}

/// Some worker serves a root exactly where one of its roots has the slug.
pub proof fn law_what_is_routed(t: RoutingTable, slug: Seq<char>)
    ensures
        t.routes(slug) <==> exists|w: u32, j: int|
            #![trigger t.workers@[w].roots@[j]]
            t.workers@.contains_key(w) && 0 <= j < t.workers@[w].roots@.len()
                && t.workers@[w].roots@[j].slug@ == slug,
{
    if t.routes(slug) {
        let w = choose|w: u32|
            t.workers@.contains_key(w) && has_slug((#[trigger] t.workers@[w]).roots@, slug);
        let roots = t.workers@[w].roots@;
        let j = choose|j: int| 0 <= j < roots.len() && (#[trigger] roots[j]).slug@ == slug;
        assert(t.workers@[w].roots@[j].slug@ == slug);
    }
    if exists|w: u32, j: int|
        #![trigger t.workers@[w].roots@[j]]
        t.workers@.contains_key(w) && 0 <= j < t.workers@[w].roots@.len()
            && t.workers@[w].roots@[j].slug@ == slug {
        let (w, j) = choose|w: u32, j: int|
            #![trigger t.workers@[w].roots@[j]]
            t.workers@.contains_key(w) && 0 <= j < t.workers@[w].roots@.len()
                && t.workers@[w].roots@[j].slug@ == slug;
        assert(has_slug(t.workers@[w].roots@, slug));
    }
}

/// A root that contains a path is found wherever there is one, and it is the
/// closest: no registered root with a base path around the path has a longer one.
pub proof fn law_the_closest_container_is_found(
    t: RoutingTable,
    path: Seq<char>,
    r: Option<(u32, String, String)>,
)
    requires
        r is None ==> forall|idx: u32, j: int| !#[trigger] t.contains_path(idx, j, path),
        r matches Some(hit) ==> {
            &&& exists|j: int| #[trigger] t.hit_at(hit, j, path)
            &&& forall|i: int, idx2: u32| #[trigger]
                t.contains_path(idx2, i, path) ==> crate::path::byte_len(
                    t.root(idx2, i).base_path@,
                ) <= crate::path::byte_len(hit.2@)
        },
    ensures
        forall|w: u32, j: int|
            #![trigger t.workers@[w].roots@[j]]
            t.workers@.contains_key(w) && 0 <= j < t.workers@[w].roots@.len()
                && t.workers@[w].roots@[j].base_path@.len() > 0 && crate::path::under(
                path,
                t.workers@[w].roots@[j].base_path@,
            ) ==> (r matches Some(hit) && crate::path::byte_len(
                t.workers@[w].roots@[j].base_path@,
            ) <= crate::path::byte_len(hit.2@)),
        r matches Some(hit) ==> {
            &&& t.workers@.contains_key(hit.0)
            &&& hit.2@.len() > 0
            &&& crate::path::under(path, hit.2@)
            &&& exists|j: int|
                0 <= j < t.workers@[hit.0].roots@.len() && (
                #[trigger] t.workers@[hit.0].roots@[j]).slug@ == hit.1@
                    && t.workers@[hit.0].roots@[j].base_path@ == hit.2@
        },
{
    assert forall|w: u32, j: int|
        #![trigger t.workers@[w].roots@[j]]
        t.workers@.contains_key(w) && 0 <= j < t.workers@[w].roots@.len()
            && t.workers@[w].roots@[j].base_path@.len() > 0 && crate::path::under(
            path,
            t.workers@[w].roots@[j].base_path@,
        ) implies (r matches Some(hit) && crate::path::byte_len(
        t.workers@[w].roots@[j].base_path@,
    ) <= crate::path::byte_len(hit.2@)) by {
        assert(t.contains_path(w, j, path));
    }
    if let Some(hit) = r {
        let j = choose|j: int| #[trigger] t.hit_at(hit, j, path);
        assert(t.workers@[hit.0].roots@[j] == t.root(hit.0, j));
    }
}

/// A table that is read keeps its ring and every worker with its roots. A worker
/// of an old table, which had slugs alone, has a root without a base path for each
/// of them, in order.
pub proof fn law_reading_a_table_loses_nothing(new: RoutingTable, old: RoutingTable, w: u32)
    requires
        table_migrated(new, old),
    ensures
        new.ring_state == old.ring_state,
        new.workers@.contains_key(w) == old.workers@.contains_key(w),
        old.workers@.contains_key(w) ==> {
            let a = new.workers@[w];
            let b = old.workers@[w];
            &&& a.index == b.index
            &&& a.pid == b.pid
            &&& a.socket_path@ == b.socket_path@
            &&& a.legacy_root_slugs@.len() == 0
            &&& b.roots@.len() > 0 ==> a.roots@ == b.roots@
            &&& b.roots@.len() == 0 ==> a.roots@.len() == b.legacy_root_slugs@.len() && forall|
                i: int,
            |
                0 <= i < a.roots@.len() ==> (#[trigger] a.roots@[i]).slug@
                    == b.legacy_root_slugs@[i]@ && a.roots@[i].base_path@.len() == 0
        },
{
    assert(new.workers@.dom().contains(w) == old.workers@.dom().contains(w));
    if old.workers@.contains_key(w) {
        let a = new.workers@[w];
        let b = old.workers@[w];
        assert(migrated(a, b));
        if b.roots@.len() == 0 {
            assert(slugs_of(a.roots@).len() == a.roots@.len());
            assert forall|i: int| 0 <= i < a.roots@.len() implies (#[trigger] a.roots@[i]).slug@
                == b.legacy_root_slugs@[i]@ by {
                assert(slugs_of(a.roots@)[i] == a.roots@[i].slug@);
            }
        }
    }
}

/// What is left without a slug: every root with another slug, in order, and no
/// root with this one; and a slug is there exactly where some root has it.
pub proof fn law_roots_without_a_slug(roots: Seq<RootEntry>, slug: Seq<char>)
    ensures
        without_slug(roots, slug) == roots.filter(|r: RootEntry| r.slug@ != slug),
        has_slug(roots, slug) <==> roots.filter(|r: RootEntry| r.slug@ != slug).len()
            < roots.len(),
        forall|i: int|
            0 <= i < roots.len() && (#[trigger] roots[i]).slug@ != slug ==> without_slug(
                roots,
                slug,
            ).contains(roots[i]),
    decreases roots.len(),
{
    reveal(Seq::filter);
    if roots.len() > 0 {
        let front = roots.drop_last();
        law_roots_without_a_slug(front, slug);
        lemma_filter_len(front, slug);
        let kept = without_slug(front, slug);
        let all = without_slug(roots, slug);
        if has_slug(front, slug) {
            let i = choose|i: int| 0 <= i < front.len() && (#[trigger] front[i]).slug@ == slug;
            assert(roots[i].slug@ == slug);
        }
        if roots.last().slug@ == slug {
            assert(roots[roots.len() - 1].slug@ == slug);
        }
        if has_slug(roots, slug) && roots.last().slug@ != slug {
            let i = choose|i: int| 0 <= i < roots.len() && (#[trigger] roots[i]).slug@ == slug;
            assert(front[i].slug@ == slug);
        }
        assert forall|i: int| 0 <= i < roots.len() && (#[trigger] roots[i]).slug@ != slug implies all.contains(
            roots[i],
        ) by {
            if i < front.len() {
                assert(front[i] == roots[i]);
                assert(kept.contains(front[i]));
                let k = choose|k: int| 0 <= k < kept.len() && kept[k] == front[i];
                assert(all[k] == roots[i]);
            } else {
                assert(all[kept.len() as int] == roots[i]);
            }
        }
    }
}

proof fn lemma_filter_len(roots: Seq<RootEntry>, slug: Seq<char>)
    ensures
        roots.filter(|r: RootEntry| r.slug@ != slug).len() <= roots.len(),
    decreases roots.len(),
{
    reveal(Seq::filter);
    if roots.len() > 0 {
        lemma_filter_len(roots.drop_last(), slug);
    }
}

} // verus!
