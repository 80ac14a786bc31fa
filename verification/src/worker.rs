//! A worker: the roots that it has loaded, and when it gives up on its master.

use crate::config::FffConfig;
use crate::disk::CanonicalPaths;
use crate::path::{join, starts_with, text_len};
use crate::text::same;
use crate::types::{HealthResponse, RootHealth};
use vstd::prelude::*;

verus! {

/// A loaded root. `S` is the engine's handle on it.
pub struct LoadedRoot<S> {
    pub slug: String,
    pub base_path: String,
    pub canonical_base: String,
    pub state: S,
    /// When it was last asked for, in milliseconds.
    pub last_access_ms: u64,
    /// When it was loaded, in milliseconds.
    pub loaded_at_ms: u64,
}

/// What a worker has loaded.
pub struct WorkerState<S> {
    pub index: u32,
    pub config: FffConfig,
    pub roots: Vec<LoadedRoot<S>>,
}

/// A root that a connection asks for.
pub struct ConnectRequest {
    pub slug: String,
    pub base_path: String,
    pub canonical: String,
}

/// How a root is loaded.
pub struct EffectiveArgs {
    pub base_path: String,
    pub frecency_db_path: Option<String>,
    pub no_watch: bool,
    pub no_warmup: bool,
    pub ignore: Vec<String>,
}

/// How a connection gets its root.
pub enum InitStep {
    /// The root at this position serves it.
    Ready(usize),
    /// Wait for the loads of this root to finish, then ask again.
    Gate,
    /// Load it. A root was evicted to make room, if `evicted` names one.
    Load { args: EffectiveArgs, evicted: Option<String> },
}

/// What dropping a root calls for first.
#[derive(Debug, Clone, Copy, PartialEq, Eq, Structural)]
pub enum DropPlan {
    /// Merge the history of the root at `child` into that at `parent`.
    Merge { child: usize, parent: usize },
    /// The root is here and its parent is not: its history is not merged.
    ParentMissing,
    /// The root is not here.
    Nothing,
}

/// No two roots have the same slug.
pub open spec fn distinct_slugs<S>(roots: Seq<LoadedRoot<S>>) -> bool {
    forall|i: int, j: int|
        0 <= i < j < roots.len() ==> (#[trigger] roots[i]).slug@ != (#[trigger] roots[j]).slug@
}

proof fn lemma_distinct_after_removal<S>(roots: Seq<LoadedRoot<S>>, at: int)
    requires
        0 <= at < roots.len(),
    ensures
        distinct_slugs(roots) ==> distinct_slugs(roots.remove(at)),
{
    if distinct_slugs(roots) {
        let rest = roots.remove(at);
        assert forall|a: int, b: int| 0 <= a < b < rest.len() implies (#[trigger] rest[a]).slug@
            != (#[trigger] rest[b]).slug@ by {
            let x = if a < at {
                a
            } else {
                a + 1
            };
            let y = if b < at {
                b
            } else {
                b + 1
            };
            assert(rest[a] == roots[x]);
            assert(rest[b] == roots[y]);
        }
    }
}

impl<S> WorkerState<S> {
    /// The root at position `i` has this slug.
    pub open spec fn slug_at(&self, i: int, slug: Seq<char>) -> bool {
        0 <= i < self.roots@.len() && self.roots@[i].slug@ == slug
    }

    /// A root with this slug is loaded.
    pub open spec fn has_slug(&self, slug: Seq<char>) -> bool {
        exists|i: int| #[trigger] self.slug_at(i, slug)
    }

    /// No two loaded roots have the same slug.
    pub open spec fn wf(&self) -> bool {
        distinct_slugs(self.roots@)
    }

    /// The root at position `i` contains `path`.
    pub open spec fn covers(&self, i: int, path: Seq<char>) -> bool {
        &&& 0 <= i < self.roots@.len()
        &&& self.roots@[i].canonical_base@.len() > 0
        &&& crate::path::under(path, self.roots@[i].canonical_base@)
    }

    /// The root at position `i` contains `path`, and none with a longer path does.
    pub open spec fn best_cover(&self, i: int, path: Seq<char>) -> bool {
        &&& self.covers(i, path)
        &&& forall|j: int| #[trigger]
            self.covers(j, path) ==> crate::path::byte_len(self.roots@[j].canonical_base@)
                <= crate::path::byte_len(self.roots@[i].canonical_base@)
    }

    /// The root that serves a request for `slug` at `path`: the root itself, or
    /// the closest root around it.
    pub open spec fn serves(&self, i: int, slug: Seq<char>, path: Seq<char>) -> bool {
        if self.has_slug(slug) {
            self.slug_at(i, slug)
        } else {
            self.best_cover(i, path)
        }
    }

    /// Some loaded root serves the request.
    pub open spec fn is_served(&self, slug: Seq<char>, path: Seq<char>) -> bool {
        self.has_slug(slug) || exists|i: int| #[trigger] self.covers(i, path)
    }

    /// The same state, the root at `i` asked for at `now`.
    pub open spec fn touched(&self, old: &Self, i: int, now: u64) -> bool {
        &&& self.index == old.index
        &&& self.config == old.config
        &&& self.roots@ == old.roots@.update(
            i,
            LoadedRoot { last_access_ms: now, ..old.roots@[i] },
        )
    }

    pub fn new(index: u32, config: FffConfig) -> (r: Self)
        ensures
            r.wf(),
            r.index == index,
            r.config == config,
            r.roots@.len() == 0,
    {
        WorkerState { index, config, roots: Vec::new() }
    }

    /// The position of the root with this slug.
    pub fn find(&self, slug: &str) -> (r: Option<usize>)
        ensures
            match r {
                Some(i) => self.slug_at(i as int, slug@),
                None => !self.has_slug(slug@),
            },
    {
        let mut i: usize = 0;
        while i < self.roots.len()
            invariant
                i <= self.roots@.len(),
                forall|j: int| j < i ==> !#[trigger] self.slug_at(j, slug@),
            decreases self.roots.len() - i,
        {
            if same(self.roots[i].slug.as_str(), slug) {
                return Some(i);
            }
            i = i + 1;
        }
        None
    }

    /// Notes that the root at position `i` is asked for.
    pub fn touch_last_access(&mut self, i: usize, now: u64)
        requires
            i < old(self).roots@.len(),
        ensures
            final(self).touched(old(self), i as int, now),
            old(self).wf() ==> final(self).wf(),
    {
        let root = &mut self.roots[i];
        root.last_access_ms = now;
    }

    /// The loaded root that serves a request, and notes that it is asked for.
    pub fn resolve_loaded(&mut self, slug: &str, canonical_req: &str, now: u64) -> (r: Option<usize>)
        ensures
            match r {
                Some(i) => {
                    &&& old(self).serves(i as int, slug@, canonical_req@)
                    &&& final(self).touched(old(self), i as int, now)
                },
                None => !old(self).is_served(slug@, canonical_req@) && *final(self) == *old(self),
            },
            old(self).wf() ==> final(self).wf(),
    {
        if let Some(i) = self.find(slug) {
            assert(self.slug_at(i as int, slug@));
            self.touch_last_access(i, now);
            return Some(i);
        }
        let mut best: Option<usize> = None;
        let mut best_len: usize = 0;
        let mut i: usize = 0;
        while i < self.roots.len()
            invariant
                i <= self.roots@.len(),
                *self == *old(self),
                match best {
                    Some(b) => {
                        &&& self.covers(b as int, canonical_req@)
                        &&& best_len == crate::path::byte_len(self.roots@[b as int].canonical_base@)
                    },
                    None => best_len == 0,
                },
                forall|j: int|
                    j < i && #[trigger] self.covers(j, canonical_req@) ==> best is Some
                        && crate::path::byte_len(self.roots@[j].canonical_base@) <= best_len,
            decreases self.roots.len() - i,
        {
            let base = &self.roots[i].canonical_base;
            let n: usize = text_len(base.as_str());
            proof {
                crate::path::lemma_bytes_iff_chars(base@);
            }
            if starts_with(canonical_req, base.as_str()) && n > best_len {
                best_len = n;
                best = Some(i);
            }
            i = i + 1;
        }
        match best {
            Some(b) => {
                assert(self.best_cover(b as int, canonical_req@));
                self.touch_last_access(b, now);
                Some(b)
            },
            None => None,
        }
    }

    /// The root at `i` can be evicted, and none that can was asked for earlier.
    pub open spec fn is_lru(&self, i: int, idle: Seq<bool>) -> bool {
        &&& 0 <= i < self.roots@.len()
        &&& idle[i]
        &&& forall|j: int|
            0 <= j < self.roots@.len() && #[trigger] idle[j] ==> self.roots@[i].last_access_ms
                <= self.roots@[j].last_access_ms
    }

    /// Evicts the root that was asked for longest ago among those without
    /// connections; `idle` tells which these are. Without one, nothing goes.
    pub fn evict_lru(&mut self, idle: &Vec<bool>) -> (r: Option<String>)
        requires
            idle@.len() == old(self).roots@.len(),
        ensures
            final(self).index == old(self).index,
            final(self).config == old(self).config,
            match r {
                Some(slug) => exists|i: int| #[trigger]
                    old(self).is_lru(i, idle@) && old(self).roots@[i].slug == slug && final(self).roots@ == old(self).roots@.remove(i),
                None => {
                    &&& forall|i: int| 0 <= i < idle@.len() ==> !#[trigger] idle@[i]
                    &&& final(self).roots@ == old(self).roots@
                },
            },
            old(self).wf() ==> final(self).wf(),
    {
        let mut victim: Option<usize> = None;
        let mut i: usize = 0;
        while i < self.roots.len()
            invariant
                i <= self.roots@.len(),
                *self == *old(self),
                idle@.len() == self.roots@.len(),
                match victim {
                    Some(v) => {
                        &&& v < i
                        &&& idle@[v as int]
                        &&& forall|j: int|
                            0 <= j < i && #[trigger] idle@[j]
                                ==> self.roots@[v as int].last_access_ms
                                <= self.roots@[j].last_access_ms
                    },
                    None => forall|j: int| 0 <= j < i ==> !#[trigger] idle@[j],
                },
            decreases self.roots.len() - i,
        {
            if idle[i] {
                victim = match victim {
                    Some(v) => if self.roots[i].last_access_ms < self.roots[v].last_access_ms {
                        Some(i)
                    } else {
                        Some(v)
                    },
                    None => Some(i),
                };
            }
            i = i + 1;
        }
        match victim {
            Some(v) => {
                assert(self.is_lru(v as int, idle@));
                let ghost before = self.roots@;
                let gone = self.roots.remove(v);
                proof {
                    lemma_distinct_after_removal(before, v as int);
                }
                Some(gone.slug)
            },
            None => None,
        }
    }

    /// How a request is loaded.
    pub open spec fn args_for(
        &self,
        args: EffectiveArgs,
        req: ConnectRequest,
        disk: CanonicalPaths,
    ) -> bool {
        &&& args.base_path == req.base_path
        &&& args.frecency_db_path == self.config.frecency.db
        &&& args.no_watch == self.config.index.no_watch
        &&& args.no_warmup == self.config.index.no_warmup
        &&& self.config.mcp.ignores(args.ignore@, req.base_path@, disk)
    }

    /// How a connection gets its root: a loaded root serves it; else, once its
    /// turn has come, it is loaded, and where the worker is full the root that
    /// was asked for longest ago makes room, if one can.
    pub fn get_or_init(
        &mut self,
        req: &ConnectRequest,
        gated: bool,
        idle: &Vec<bool>,
        now: u64,
        disk: &CanonicalPaths,
    ) -> (r: InitStep)
        requires
            idle@.len() == old(self).roots@.len(),
        ensures
            final(self).index == old(self).index,
            final(self).config == old(self).config,
            match r {
                InitStep::Ready(i) => {
                    &&& old(self).serves(i as int, req.slug@, req.canonical@)
                    &&& final(self).touched(old(self), i as int, now)
                },
                InitStep::Gate => {
                    &&& !old(self).is_served(req.slug@, req.canonical@)
                    &&& !gated
                    &&& *final(self) == *old(self)
                },
                InitStep::Load { args, evicted } => {
                    &&& !old(self).is_served(req.slug@, req.canonical@)
                    &&& gated
                    &&& old(self).args_for(args, *req, *disk)
                    &&& Self::made_room(old(self), final(self), idle@, evicted)
                },
            },
            old(self).wf() ==> final(self).wf(),
    {
        if let Some(i) = self.resolve_loaded(req.slug.as_str(), req.canonical.as_str(), now) {
            return InitStep::Ready(i);
        }
        if !gated {
            return InitStep::Gate;
        }
        let args = EffectiveArgs {
            base_path: req.base_path.clone(),
            frecency_db_path: self.config.frecency.db.clone(),
            no_watch: self.config.index.no_watch,
            no_warmup: self.config.index.no_warmup,
            ignore: self.config.mcp.ignore_for(req.base_path.as_str(), disk),
        };
        let mut evicted: Option<String> = None;
        if self.roots.len() as u64 >= self.config.worker.roots_per_worker_max as u64 {
            evicted = self.evict_lru(idle);
        }
        InitStep::Load { args, evicted }
    }

    /// A full worker evicted a root, if one could go; another evicted none.
    pub open spec fn made_room(
        before: &Self,
        after: &Self,
        idle: Seq<bool>,
        evicted: Option<String>,
    ) -> bool {
        let full = before.roots@.len() >= before.config.worker.roots_per_worker_max;
        match evicted {
            Some(slug) => full && exists|i: int| #[trigger]
                before.is_lru(i, idle) && before.roots@[i].slug == slug && after.roots@
                    == before.roots@.remove(i),
            None => {
                &&& full ==> forall|i: int| 0 <= i < idle.len() ==> !#[trigger] idle[i]
                &&& after.roots@ == before.roots@
            },
        }
    }

    /// `root` is among the roots, in place of a root of the same slug.
    pub open spec fn took_in(before: &Self, after: &Self, root: LoadedRoot<S>) -> bool {
        if before.has_slug(root.slug@) {
            exists|i: int| #[trigger]
                before.slug_at(i, root.slug@) && after.roots@ == before.roots@.update(i, root)
        } else {
            after.roots@ == before.roots@.push(root)
        }
    }

    /// A root has been loaded. It takes the place of a root of the same slug.
    pub fn root_loaded(&mut self, root: LoadedRoot<S>)
        ensures
            final(self).index == old(self).index,
            final(self).config == old(self).config,
            Self::took_in(old(self), final(self), root),
            old(self).wf() ==> final(self).wf(),
    {
        match self.find(root.slug.as_str()) {
            Some(i) => {
                assert(self.slug_at(i as int, root.slug@));
                self.roots.set(i, root);
            },
            None => {
                assert forall|j: int| 0 <= j < self.roots@.len() implies (#[trigger] self.roots@[j]).slug@
                    != root.slug@ by {
                    assert(!self.slug_at(j, root.slug@));
                }
                self.roots.push(root);
            },
        }
    }

    /// What dropping the root `slug` in favour of `merge_into_slug` calls for.
    pub fn drop_plan(&self, slug: &str, merge_into_slug: &str) -> (r: DropPlan)
        ensures
            match r {
                DropPlan::Merge { child, parent } => self.slug_at(child as int, slug@)
                    && self.slug_at(parent as int, merge_into_slug@),
                DropPlan::ParentMissing => self.has_slug(slug@) && !self.has_slug(merge_into_slug@),
                DropPlan::Nothing => !self.has_slug(slug@),
            },
    {
        match self.find(slug) {
            None => DropPlan::Nothing,
            Some(child) => {
                assert(self.slug_at(child as int, slug@));
                match self.find(merge_into_slug) {
                    Some(parent) => DropPlan::Merge { child, parent },
                    None => DropPlan::ParentMissing,
                }
            },
        }
    }

    /// Drops the root `slug`, if it is loaded.
    pub fn drop_root(&mut self, slug: &str) -> (r: Option<LoadedRoot<S>>)
        requires
            old(self).wf(),
        ensures
            final(self).wf(),
            final(self).index == old(self).index,
            final(self).config == old(self).config,
            !final(self).has_slug(slug@),
            match r {
                Some(root) => exists|i: int| #[trigger]
                    old(self).slug_at(i, slug@) && root == old(self).roots@[i] && final(self).roots@
                        == old(self).roots@.remove(i),
                None => !old(self).has_slug(slug@) && final(self).roots@ == old(self).roots@,
            },
    {
        match self.find(slug) {
            Some(i) => {
                let ghost before = self.roots@;
                assert(self.slug_at(i as int, slug@));
                let gone = self.roots.remove(i);
                assert forall|j: int| !#[trigger] self.slug_at(j, slug@) by {
                    if 0 <= j < self.roots@.len() {
                        let k = if j < i {
                            j
                        } else {
                            j + 1
                        };
                        assert(self.roots@[j] == before[k]);
                        assert(before[i as int].slug@ == slug@);
                    }
                }
                proof {
                    lemma_distinct_after_removal(before, i as int);
                }
                Some(gone)
            },
            None => None,
        }
    }

    /// What is needed to tell of every loaded root later.
    pub fn health_snapshot(&self) -> (r: Vec<RootSnapshot>)
        ensures
            r@.len() == self.roots@.len(),
            forall|i: int|
                0 <= i < r@.len() ==> #[trigger] r@[i] == (RootSnapshot {
                    slug: self.roots@[i].slug,
                    base_path: self.roots@[i].base_path,
                    last_access_ms: self.roots@[i].last_access_ms,
                    loaded_at_ms: self.roots@[i].loaded_at_ms,
                }),
    {
        let mut r: Vec<RootSnapshot> = Vec::new();
        let mut i: usize = 0;
        while i < self.roots.len()
            invariant
                i <= self.roots@.len(),
                r@.len() == i,
                forall|j: int|
                    0 <= j < i ==> #[trigger] r@[j] == (RootSnapshot {
                        slug: self.roots@[j].slug,
                        base_path: self.roots@[j].base_path,
                        last_access_ms: self.roots@[j].last_access_ms,
                        loaded_at_ms: self.roots@[j].loaded_at_ms,
                    }),
            decreases self.roots.len() - i,
        {
            let root = &self.roots[i];
            r.push(
                RootSnapshot {
                    slug: root.slug.clone(),
                    base_path: root.base_path.clone(),
                    last_access_ms: root.last_access_ms,
                    loaded_at_ms: root.loaded_at_ms,
                },
            );
            i = i + 1;
        }
        r
    }
}

/// A loaded root as it was at one time.
pub struct RootSnapshot {
    pub slug: String,
    pub base_path: String,
    pub last_access_ms: u64,
    pub loaded_at_ms: u64,
}

/// The freshness of roots. Each comes with the number of its indexed and of its
/// modified files, where they could be read.
pub fn collect_health(loaded: Vec<(RootSnapshot, (Option<u64>, Option<u64>))>, now: u64) -> (r: HealthResponse)
    ensures
        r.roots@.len() == loaded@.len(),
        forall|i: int|
            0 <= i < loaded@.len() ==> is_health_of(
                #[trigger] r.roots@[i],
                loaded@[i].0,
                loaded@[i].1,
                now,
            ),
{
    let mut roots: Vec<RootHealth> = Vec::new();
    let mut i: usize = 0;
    while i < loaded.len()
        invariant
            i <= loaded@.len(),
            roots@.len() == i,
            forall|j: int|
                0 <= j < i ==> is_health_of(
                    #[trigger] roots@[j],
                    loaded@[j].0,
                    loaded@[j].1,
                    now,
                ),
        decreases loaded.len() - i,
    {
        let root = &loaded[i].0;
        let counts = loaded[i].1;
        roots.push(
            RootHealth {
                slug: root.slug.clone(),
                base_path: root.base_path.clone(),
                indexed_files: counts.0,
                last_scan_age_sec: Some(age_in_secs(now, root.loaded_at_ms)),
                watcher_backlog: None,
                dirty_count: counts.1,
                last_access_age_sec: Some(age_in_secs(now, root.last_access_ms)),
            },
        );
        i = i + 1;
    }
    HealthResponse { roots }
}

/// Whole seconds from one time to another, both in milliseconds.
pub open spec fn whole_secs(now: u64, since: u64) -> u64 {
    (crate::supervise::elapsed(now, since) / 1000) as u64
}

fn age_in_secs(now: u64, since: u64) -> (r: u64)
    ensures
        r == whole_secs(now, since),
{
    if now >= since {
        (now - since) / 1000
    } else {
        0
    }
}

/// What is told of a loaded root.
pub open spec fn is_health_of(
    h: RootHealth,
    root: RootSnapshot,
    counts: (Option<u64>, Option<u64>),
    now: u64,
) -> bool {
    &&& h.slug == root.slug
    &&& h.base_path == root.base_path
    &&& h.indexed_files == counts.0
    &&& h.last_scan_age_sec == Some(whole_secs(now, root.loaded_at_ms))
    &&& h.watcher_backlog is None
    &&& h.dirty_count == counts.1
    &&& h.last_access_age_sec == Some(whole_secs(now, root.last_access_ms))
}

/// The path that an access is counted for: relative paths are the root's.
pub fn accessed_path(base_path: &str, path: &str) -> (r: String)
    ensures
        r@ == if crate::path::absolute(path@) {
            path@
        } else {
            crate::path::joined(base_path@, path@)
        },
{
    join(base_path, path)
}

/// What a worker does about its lock file.
#[derive(Debug, Clone, Copy, PartialEq, Eq, Structural)]
pub enum WorkerLock {
    /// It has created the file.
    Created,
    /// The owner is gone: remove the file and write it anew.
    TakeOver,
    /// Another worker of this index is running; this one ends without an error.
    AlreadyRunning,
}

/// Two workers of one index never both run: the file is there for one of them.
pub fn worker_lock(created: bool, stale: bool) -> (r: WorkerLock)
    ensures
        r is Created <==> created,
        r is TakeOver <==> !created && stale,
        r is AlreadyRunning <==> !created && !stale,
{
    if created {
        WorkerLock::Created
    } else if stale {
        WorkerLock::TakeOver
    } else {
        WorkerLock::AlreadyRunning
    }
}

/// How often a worker looks for its master, in seconds.
pub const ORPHAN_CHECK_SECS: u64 = 15;

/// How long a worker waits for a master to come back, in seconds.
pub const ORPHAN_GRACE_SECS: u64 = 60;

/// What a worker has seen of its master. Times are in milliseconds.
#[derive(Debug, Clone, Copy, PartialEq, Eq, Structural)]
pub struct OrphanWatch {
    pub seen_master: bool,
    pub dead_since: Option<u64>,
}

/// The watch after a look, and whether the worker gives up. A worker gives up
/// once its master has been gone for the grace period. It counts only where it
/// has seen a master, or was left behind by one.
pub open spec fn watch_step(
    w: OrphanWatch,
    master_gone: bool,
    left_behind: bool,
    now: u64,
    grace_ms: u64,
) -> (OrphanWatch, bool) {
    if !master_gone {
        (OrphanWatch { seen_master: true, dead_since: None }, false)
    } else if !w.seen_master && !left_behind {
        (w, false)
    } else {
        let since = match w.dead_since {
            Some(t) => t,
            None => now,
        };
        (
            OrphanWatch { dead_since: Some(since), ..w },
            crate::supervise::elapsed(now, since) >= grace_ms,
        )
    }
}

impl OrphanWatch {
    /// Nothing seen yet.
    pub fn new() -> (r: Self)
        ensures
            r == (OrphanWatch { seen_master: false, dead_since: None }),
    {
        OrphanWatch { seen_master: false, dead_since: None }
    }

    /// Looks at the master once more; tells whether the worker gives up.
    pub fn tick(&mut self, master_gone: bool, left_behind: bool, now: u64, grace_ms: u64) -> (exit: bool)
        ensures
            (*final(self), exit) == watch_step(*old(self), master_gone, left_behind, now, grace_ms),
    {
        if !master_gone {
            self.seen_master = true;
            self.dead_since = None;
            return false;
        }
        if !self.seen_master && !left_behind {
            return false;
        }
        let since: u64 = match self.dead_since {
            Some(t) => t,
            None => now,
        };
        self.dead_since = Some(since);
        let gone_for: u64 = if now >= since {
            now - since
        } else {
            0
        };
        gone_for >= grace_ms
    }
}

/// A worker that sees its master never gives up then, and starts counting anew.
pub proof fn law_a_live_master_resets_the_watch(
    w: OrphanWatch,
    left_behind: bool,
    now: u64,
    later: u64,
    grace_ms: u64,
)
    requires
        grace_ms > 0,
    ensures
        ({
            let (w1, exit1) = watch_step(w, false, left_behind, now, grace_ms);
            let (w2, exit2) = watch_step(w1, true, left_behind, later, grace_ms);
            &&& !exit1
            &&& !exit2
            &&& w2.dead_since == Some(later)
        }),
{
}

/// A worker that never saw a master and was not left behind never gives up.
pub proof fn law_an_unarmed_worker_stays(w: OrphanWatch, now: u64, grace_ms: u64)
    requires
        !w.seen_master,
    ensures
        watch_step(w, true, false, now, grace_ms) == (w, false),
{
}

/// A worker that loads a root has room for it afterwards, unless a connection
/// uses every root that it has.
pub proof fn law_loading_keeps_within_the_limit<S>(
    before: &WorkerState<S>,
    after: &WorkerState<S>,
    idle: Seq<bool>,
    evicted: Option<String>,
)
    requires
        WorkerState::made_room(before, after, idle, evicted),
        idle.len() == before.roots@.len(),
        before.roots@.len() <= before.config.worker.roots_per_worker_max,
        before.config.worker.roots_per_worker_max > 0,
    ensures
        after.roots@.len() < before.config.worker.roots_per_worker_max || forall|i: int|
            0 <= i < idle.len() ==> !#[trigger] idle[i],
{
}

/// A path under a loaded root is served by a loaded root: nothing is loaded for it.
pub proof fn law_paths_under_a_loaded_root_load_nothing<S>(
    w: WorkerState<S>,
    i: int,
    slug: Seq<char>,
    path: Seq<char>,
)
    requires
        w.covers(i, path),
    ensures
        w.is_served(slug, path),
{
}

/// Once a root is loaded, requests for it are served by it, whatever their path.
pub proof fn law_a_loaded_root_serves_its_slug<S>(
    before: &WorkerState<S>,
    after: &WorkerState<S>,
    root: LoadedRoot<S>,
    i: int,
    path: Seq<char>,
)
    requires
        before.wf(),
        WorkerState::took_in(before, after, root),
        after.serves(i, root.slug@, path),
    ensures
        after.is_served(root.slug@, path),
        after.roots@[i] == root,
{
    let slug = root.slug@;
    if before.has_slug(slug) {
        let at = choose|at: int| #[trigger]
            before.slug_at(at, slug) && after.roots@ == before.roots@.update(at, root);
        assert(after.slug_at(at, slug));
        if i != at {
            assert(before.roots@[i].slug@ == slug);
        }
    } else {
        let at = before.roots@.len() as int;
        assert(after.slug_at(at, slug));
        if i != at {
            assert(before.slug_at(i, slug));
        }
    }
}

/// A request is served by the loaded root of its slug; without one, by the loaded
/// root around its path with the longest path; and by no other.
pub proof fn law_which_loaded_root_serves<S>(
    w: WorkerState<S>,
    i: int,
    slug: Seq<char>,
    path: Seq<char>,
)
    requires
        w.serves(i, slug, path),
    ensures
        0 <= i < w.roots@.len(),
        (exists|j: int| 0 <= j < w.roots@.len() && (#[trigger] w.roots@[j]).slug@ == slug)
            ==> w.roots@[i].slug@ == slug,
        w.roots@[i].slug@ != slug ==> {
            &&& w.roots@[i].canonical_base@.len() > 0
            &&& crate::path::under(path, w.roots@[i].canonical_base@)
            &&& forall|j: int|
                0 <= j < w.roots@.len() && (#[trigger] w.roots@[j]).canonical_base@.len() > 0
                    && crate::path::under(path, w.roots@[j].canonical_base@)
                    ==> crate::path::byte_len(w.roots@[j].canonical_base@)
                    <= crate::path::byte_len(w.roots@[i].canonical_base@)
        },
{
    if exists|j: int| 0 <= j < w.roots@.len() && (#[trigger] w.roots@[j]).slug@ == slug {
        let j = choose|j: int| 0 <= j < w.roots@.len() && (#[trigger] w.roots@[j]).slug@ == slug;
        assert(w.slug_at(j, slug));
    }
    if w.roots@[i].slug@ != slug {
        assert forall|j: int|
            0 <= j < w.roots@.len() && (#[trigger] w.roots@[j]).canonical_base@.len() > 0
                && crate::path::under(path, w.roots@[j].canonical_base@) implies crate::path::byte_len(
            w.roots@[j].canonical_base@,
        ) <= crate::path::byte_len(w.roots@[i].canonical_base@) by {
            assert(w.covers(j, path));
        }
    }
}

/// A root is loaded for a request exactly where no loaded root has its slug and
/// none lies around its path.
pub proof fn law_when_a_request_is_served<S>(w: WorkerState<S>, slug: Seq<char>, path: Seq<char>)
    ensures
        w.is_served(slug, path) <==> exists|j: int|
            0 <= j < w.roots@.len() && ((#[trigger] w.roots@[j]).slug@ == slug || (
            w.roots@[j].canonical_base@.len() > 0 && crate::path::under(
                path,
                w.roots@[j].canonical_base@,
            ))),
{
    if w.has_slug(slug) {
        let j = choose|j: int| #[trigger] w.slug_at(j, slug);
        assert(w.roots@[j].slug@ == slug);
    } else if exists|j: int| #[trigger] w.covers(j, path) {
        let j = choose|j: int| #[trigger] w.covers(j, path);
        assert(w.roots@[j].canonical_base@.len() > 0);
    }
    if exists|j: int|
        0 <= j < w.roots@.len() && ((#[trigger] w.roots@[j]).slug@ == slug || (
        w.roots@[j].canonical_base@.len() > 0 && crate::path::under(
            path,
            w.roots@[j].canonical_base@,
        ))) {
        let j = choose|j: int|
            0 <= j < w.roots@.len() && ((#[trigger] w.roots@[j]).slug@ == slug || (
            w.roots@[j].canonical_base@.len() > 0 && crate::path::under(
                path,
                w.roots@[j].canonical_base@,
            )));
        if w.roots@[j].slug@ == slug {
            assert(w.slug_at(j, slug));
        } else {
            assert(w.covers(j, path));
        }
    }
}

/// Serving a request changes nothing but the time of the root that serves it.
pub proof fn law_serving_notes_the_time_alone<S>(
    before: WorkerState<S>,
    after: WorkerState<S>,
    i: int,
    now: u64,
)
    requires
        after.touched(&before, i, now),
        0 <= i < before.roots@.len(),
    ensures
        after.roots@.len() == before.roots@.len(),
        after.roots@[i].last_access_ms == now,
        after.index == before.index,
        after.config == before.config,
        forall|j: int|
            0 <= j < before.roots@.len() ==> {
                let a = #[trigger] after.roots@[j];
                let b = before.roots@[j];
                &&& a.slug == b.slug
                &&& a.base_path == b.base_path
                &&& a.canonical_base == b.canonical_base
                &&& a.state == b.state
                &&& a.loaded_at_ms == b.loaded_at_ms
                &&& j != i ==> a.last_access_ms == b.last_access_ms
            },
{
}

/// A root makes room only in a full worker and only where no connection uses it;
/// of those it is one that was asked for longest ago. Every other root stays. A
/// full worker keeps all its roots only where connections use every one of them.
pub proof fn law_who_makes_room<S>(
    before: &WorkerState<S>,
    after: &WorkerState<S>,
    idle: Seq<bool>,
    evicted: Option<String>,
)
    requires
        WorkerState::made_room(before, after, idle, evicted),
        idle.len() == before.roots@.len(),
    ensures
        evicted is None ==> after.roots@ == before.roots@,
        before.roots@.len() >= before.config.worker.roots_per_worker_max && (exists|j: int|
            0 <= j < idle.len() && #[trigger] idle[j]) ==> evicted is Some,
        evicted matches Some(slug) ==> {
            &&& before.roots@.len() >= before.config.worker.roots_per_worker_max
            &&& exists|i: int|
                {
                    &&& 0 <= i < before.roots@.len()
                    &&& (#[trigger] before.roots@[i]).slug@ == slug@
                    &&& idle[i]
                    &&& after.roots@ == before.roots@.remove(i)
                    &&& forall|j: int|
                        0 <= j < before.roots@.len() && #[trigger] idle[j]
                            ==> before.roots@[i].last_access_ms <= before.roots@[j].last_access_ms
                }
        },
{
    if let Some(slug) = evicted {
        let i = choose|i: int| #[trigger]
            before.is_lru(i, idle) && before.roots@[i].slug == slug && after.roots@
                == before.roots@.remove(i);
        assert(before.roots@[i].slug@ == slug@);
    }
}

/// A root is loaded at the path that was asked for, with the worker's settings and
/// the patterns that the settings have for that path.
pub proof fn law_how_a_root_is_loaded<S>(
    w: WorkerState<S>,
    args: EffectiveArgs,
    req: ConnectRequest,
    disk: CanonicalPaths,
)
    requires
        w.args_for(args, req, disk),
    ensures
        args.base_path@ == req.base_path@,
        args.no_watch == w.config.index.no_watch,
        args.no_warmup == w.config.index.no_warmup,
        args.frecency_db_path == w.config.frecency.db,
        w.config.mcp.ignores(args.ignore@, req.base_path@, disk),
{
}

/// A loaded root takes the place of a root of the same slug; without one it comes
/// to the others. No other root changes.
pub proof fn law_loading_changes_one_root<S>(
    before: &WorkerState<S>,
    after: &WorkerState<S>,
    root: LoadedRoot<S>,
)
    requires
        WorkerState::took_in(before, after, root),
    ensures
        exists|k: int| 0 <= k < after.roots@.len() && #[trigger] after.roots@[k] == root,
        forall|j: int|
            0 <= j < before.roots@.len() && (#[trigger] before.roots@[j]).slug@ != root.slug@
                ==> after.roots@[j] == before.roots@[j],
        (forall|j: int|
            0 <= j < before.roots@.len() ==> (#[trigger] before.roots@[j]).slug@ != root.slug@)
            <==> after.roots@.len() == before.roots@.len() + 1,
        after.roots@.len() <= before.roots@.len() + 1,
        after.roots@.len() >= before.roots@.len(),
{
    if before.has_slug(root.slug@) {
        let at = choose|at: int| #[trigger]
            before.slug_at(at, root.slug@) && after.roots@ == before.roots@.update(at, root);
        assert(after.roots@[at] == root);
        assert(before.roots@[at].slug@ == root.slug@);
    } else {
        assert forall|j: int| 0 <= j < before.roots@.len() implies (
        #[trigger] before.roots@[j]).slug@ != root.slug@ by {
            assert(!before.slug_at(j, root.slug@));
        }
        assert(after.roots@[before.roots@.len() as int] == root);
    }
}

/// The health of a root tells its own slug and path, what was counted in it, and
/// how many whole seconds have passed since it was loaded and last asked for.
pub proof fn law_what_health_tells(
    h: RootHealth,
    root: RootSnapshot,
    counts: (Option<u64>, Option<u64>),
    now: u64,
)
    requires
        is_health_of(h, root, counts, now),
    ensures
        h.slug@ == root.slug@,
        h.base_path@ == root.base_path@,
        h.indexed_files == counts.0,
        h.dirty_count == counts.1,
        now >= root.last_access_ms ==> (h.last_access_age_sec matches Some(s) && s == (now
            - root.last_access_ms) / 1000),
        now >= root.loaded_at_ms ==> (h.last_scan_age_sec matches Some(s) && s == (now
            - root.loaded_at_ms) / 1000),
        now < root.last_access_ms ==> h.last_access_age_sec == Some(0u64),
        now < root.loaded_at_ms ==> h.last_scan_age_sec == Some(0u64),
{
}

/// A worker that has seen its master, or was left behind by one, gives up once the
/// master has been gone for the grace period without a break, and not before.
pub proof fn law_an_orphan_gives_up_after_the_grace_period(
    w: OrphanWatch,
    left_behind: bool,
    gone_at: u64,
    now: u64,
    grace_ms: u64,
)
    requires
        w.seen_master || left_behind,
        w.dead_since is None,
        gone_at <= now,
        grace_ms > 0,
    ensures
        ({
            let (w1, exit1) = watch_step(w, true, left_behind, gone_at, grace_ms);
            let (w2, exit2) = watch_step(w1, true, left_behind, now, grace_ms);
            &&& !exit1
            &&& exit2 <==> now - gone_at >= grace_ms
            &&& w2 == w1
            &&& w1.seen_master == w.seen_master
        }),
        ORPHAN_GRACE_SECS == 60,
        0 < ORPHAN_CHECK_SECS < ORPHAN_GRACE_SECS,
{
}

/// No two loaded roots have the same slug, so a slug is found at one place at most.
pub proof fn law_a_slug_is_loaded_once<S>(w: WorkerState<S>, i: int, j: int)
    requires
        w.wf(),
        0 <= i < w.roots@.len(),
        0 <= j < w.roots@.len(),
        w.roots@[i].slug@ == w.roots@[j].slug@,
    ensures
        i == j,
{
    if i < j {
        assert(w.roots@[i].slug@ != w.roots@[j].slug@);
    } else if j < i {
        assert(w.roots@[j].slug@ != w.roots@[i].slug@);
    }
}

} // verus!
