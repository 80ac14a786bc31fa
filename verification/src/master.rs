//! The master's state: which worker serves which root, and how a new root is
//! placed, subsumed and evicted.

use crate::config::WorkerConfig;
use crate::path::{same_path, starts_with};
use crate::routing::{key_list, RootEntry, RoutingTable, SerializableRing, WorkerEntry};
use std::collections::HashMap;
use vstd::prelude::*;

verus! {

broadcast use vstd::std_specs::hash::group_hash_axioms;

/// A root of the settings, canonical, with its default flag.
pub struct ConfiguredRoot {
    pub name: Option<String>,
    pub path: String,
    pub default: bool,
}

/// What the master knows. Times are nanoseconds since the master started.
pub struct MasterState {
    pub config: WorkerConfig,
    pub routing: RoutingTable,
    /// Workers started by this master; the process id is absent once it is unknown.
    pub children: HashMap<u32, Option<u32>>,
    /// Process ids of workers found alive at startup.
    pub adopted_pids: HashMap<u32, u32>,
    /// The index of the next worker.
    pub next_index: u32,
    /// Since when a worker has had no roots.
    pub idle_since: HashMap<u32, u64>,
    /// Restarts of a worker in its current window, and the window's start.
    pub restarts: HashMap<u32, (u32, u64)>,
    /// How many times in a row the table could not be written.
    pub save_fail_count: u32,
    pub configured_roots: Vec<ConfiguredRoot>,
    /// Slugs of the configured roots, which are never evicted.
    pub configured_slugs: Vec<String>,
}

/// A root that a client asks for.
pub struct RootRequest {
    pub slug: String,
    /// The canonical base path, or the path as given where it does not resolve.
    pub canonical: String,
    /// The root of the git working tree that the path belongs to.
    pub working_tree: Option<String>,
}

/// What comes of writing the table.
pub enum SaveReport {
    Saved,
    /// Failed this many times in a row, fewer than three.
    Warn(u32),
    /// Failed three times in a row or more.
    Alarm(u32),
}

/// How a request for a root goes on.
pub enum RouteStep {
    /// This worker serves it.
    Routed(u32),
    /// A root of `worker` contains it; which working tree is `base_path` in?
    CheckTree { worker: u32, base_path: String },
    /// Which worker does the ring assign?
    AskRing,
    /// The ring is empty: take the start-up latch and ask once more.
    LatchAndAskRing,
    /// Start a worker under this index.
    Spawn(u32),
    /// The root is placed on `worker`. Roots that it now contains follow, and
    /// the index of a worker to start where `worker` is full.
    Placed { worker: u32, contained: Vec<(u32, String, String)>, scale_out: Option<u32> },
    /// No worker could be had.
    Refused,
}

/// Two working trees are the same, or neither path is in one.
pub open spec fn same_tree(a: Option<String>, b: Option<String>) -> bool {
    match (a, b) {
        (None, None) => true,
        (Some(x), Some(y)) => crate::path::path_eq(x@, y@),
        _ => false,
    }
}

/// Whether two working trees are the same.
pub fn is_same_tree(a: &Option<String>, b: &Option<String>) -> (r: bool)
    ensures
        r == same_tree(*a, *b),
{
    match (a, b) {
        (None, None) => true,
        (Some(x), Some(y)) => same_path(x.as_str(), y.as_str()),
        _ => false,
    }
}

/// A root with a base path under `parent`.
pub open spec fn is_contained(root: RootEntry, parent: Seq<char>) -> bool {
    root.base_path@.len() > 0 && crate::path::under(root.base_path@, parent)
}

/// The roots of one worker under `parent`, with the worker's index.
pub open spec fn contained_in(idx: u32, roots: Seq<RootEntry>, parent: Seq<char>) -> Seq<
    (u32, String, String),
>
    decreases roots.len(),
{
    if roots.len() == 0 {
        Seq::empty()
    } else {
        let front = contained_in(idx, roots.drop_last(), parent);
        if is_contained(roots.last(), parent) {
            front.push((idx, roots.last().slug, roots.last().base_path))
        } else {
            front
        }
    }
}

/// The roots under `parent` of the workers in `keys`, worker by worker.
pub open spec fn contained_roots(
    keys: Seq<u32>,
    workers: Map<u32, WorkerEntry>,
    parent: Seq<char>,
) -> Seq<(u32, String, String)>
    decreases keys.len(),
{
    if keys.len() == 0 {
        Seq::empty()
    } else {
        contained_roots(keys.drop_last(), workers, parent) + contained_in(
            keys.last(),
            workers[keys.last()].roots@,
            parent,
        )
    }
}

/// `keys` lists the keys of a map, each once.
pub open spec fn enumerates<V>(keys: Seq<u32>, m: Map<u32, V>) -> bool {
    keys.no_duplicates() && keys.to_set() == m.dom()
}

/// A worker of this index and socket that serves nothing yet.
pub open spec fn is_new_worker(
    e: WorkerEntry,
    index: u32,
    socket_path: String,
    pid: Option<u32>,
) -> bool {
    &&& e.index == index
    &&& e.socket_path == socket_path
    &&& e.pid == match pid {
        Some(p) => p,
        None => 0,
    }
    &&& e.roots@.len() == 0
    &&& e.legacy_root_slugs@.len() == 0
}

/// The same worker with `root` added.
pub open spec fn with_root(new: WorkerEntry, old: WorkerEntry, root: RootEntry) -> bool {
    &&& new.index == old.index
    &&& new.socket_path == old.socket_path
    &&& new.pid == old.pid
    &&& new.roots@ == old.roots@.push(root)
    &&& new.legacy_root_slugs@ == old.legacy_root_slugs@
}

/// The same worker without the roots of this slug.
pub open spec fn minus_slug(new: WorkerEntry, old: WorkerEntry, slug: Seq<char>) -> bool {
    &&& new.index == old.index
    &&& new.socket_path == old.socket_path
    &&& new.pid == old.pid
    &&& new.roots@ == crate::routing::without_slug(old.roots@, slug)
    &&& new.legacy_root_slugs@ == old.legacy_root_slugs@
}

/// The same workers, none with a root of this slug.
pub open spec fn evicted(
    before: Map<u32, WorkerEntry>,
    after: Map<u32, WorkerEntry>,
    slug: Seq<char>,
) -> bool {
    &&& after.dom() == before.dom()
    &&& forall|k: u32| #[trigger] after.contains_key(k) ==> minus_slug(after[k], before[k], slug)
}

/// Worker `idx` serves the root `slug`.
pub open spec fn serves(workers: Map<u32, WorkerEntry>, idx: u32, slug: Seq<char>) -> bool {
    workers.contains_key(idx) && crate::routing::has_slug(workers[idx].roots@, slug)
}

/// No root is served twice.
pub open spec fn served_once(workers: Map<u32, WorkerEntry>) -> bool {
    &&& forall|a: u32, b: u32, slug: Seq<char>| #[trigger]
        serves(workers, a, slug) && #[trigger] serves(workers, b, slug) ==> a == b
    &&& forall|a: u32| #[trigger]
        workers.contains_key(a) ==> crate::routing::slugs_of(workers[a].roots@).no_duplicates()
}

/// Every worker's index is below the next one.
pub open spec fn indices_below(workers: Map<u32, WorkerEntry>, next: u32) -> bool {
    forall|k: u32| #[trigger] workers.contains_key(k) ==> k < next
}

impl MasterState {
    /// Everything but the routing table's workers, the idle times and the next
    /// index is as in `old`.
    pub open spec fn same_but_workers(&self, old: &Self) -> bool {
        &&& self.config == old.config
        &&& self.routing.ring_state == old.routing.ring_state
        &&& self.children == old.children
        &&& self.adopted_pids == old.adopted_pids
        &&& self.restarts == old.restarts
        &&& self.save_fail_count == old.save_fail_count
        &&& self.configured_roots == old.configured_roots
        &&& self.configured_slugs == old.configured_slugs
    }

    pub fn new(
        config: WorkerConfig,
        routing: RoutingTable,
        next_index: u32,
        adopted_pids: HashMap<u32, u32>,
        configured_roots: Vec<ConfiguredRoot>,
        configured_slugs: Vec<String>,
    ) -> (r: Self)
        ensures
            r.config == config,
            r.routing == routing,
            r.next_index == next_index,
            r.adopted_pids == adopted_pids,
            r.configured_roots == configured_roots,
            r.configured_slugs == configured_slugs,
            r.children@ == Map::<u32, Option<u32>>::empty(),
            r.idle_since@ == Map::<u32, u64>::empty(),
            r.restarts@ == Map::<u32, (u32, u64)>::empty(),
            r.save_fail_count == 0,
    {
        MasterState {
            config,
            routing,
            children: HashMap::new(),
            adopted_pids,
            next_index,
            idle_since: HashMap::new(),
            restarts: HashMap::new(),
            save_fail_count: 0,
            configured_roots,
            configured_slugs,
        }
    }

    /// Counts a write of the table that went well or failed.
    pub fn persist_routing(&mut self, saved: bool) -> (r: SaveReport)
        requires
            saved || old(self).save_fail_count < u32::MAX,
        ensures
            *final(self) == (MasterState {
                save_fail_count: if saved {
                    0
                } else {
                    (old(self).save_fail_count + 1) as u32
                },
                ..*old(self)
            }),
            match r {
                SaveReport::Saved => saved,
                SaveReport::Warn(n) => !saved && n == old(self).save_fail_count + 1 && n < 3,
                SaveReport::Alarm(n) => !saved && n == old(self).save_fail_count + 1 && n >= 3,
            },
    {
        if saved {
            self.save_fail_count = 0;
            return SaveReport::Saved;
        }
        let n: u32 = self.save_fail_count + 1;
        self.save_fail_count = n;
        if n >= 3 {
            SaveReport::Alarm(n)
        } else {
            SaveReport::Warn(n)
        }
    }

    /// Takes the next worker index.
    pub fn alloc_index(&mut self) -> (i: u32)
        requires
            old(self).next_index < u32::MAX,
        ensures
            i == old(self).next_index,
            *final(self) == (MasterState {
                next_index: (old(self).next_index + 1) as u32,
                ..*old(self)
            }),
    {
        let i: u32 = self.next_index;
        self.next_index = i + 1;
        i
    }

    /// The index of a worker to start while there are fewer than `target`.
    pub fn ensure_min_workers(&mut self, target: u32) -> (r: Option<u32>)
        requires
            old(self).routing.workers@.len() < target ==> old(self).next_index < u32::MAX,
        ensures
            r == if old(self).routing.workers@.len() < target {
                Some(old(self).next_index)
            } else {
                None
            },
            *final(self) == (MasterState {
                next_index: if old(self).routing.workers@.len() < target {
                    (old(self).next_index + 1) as u32
                } else {
                    old(self).next_index
                },
                ..*old(self)
            }),
    {
        if self.routing.worker_count() as u64 >= target as u64 {
            return None;
        }
        Some(self.alloc_index())
    }

    /// Registers a worker that has started and listens, with the ring that now
    /// holds it. A worker of that index is replaced, roots and all.
    pub fn register_worker(
        &mut self,
        index: u32,
        socket_path: String,
        pid: Option<u32>,
        ring: SerializableRing,
    )
        ensures
            exists|e: WorkerEntry| #[trigger]
                is_new_worker(e, index, socket_path, pid) && final(self).routing.workers@ == old(self).routing.workers@.insert(index, e),
            final(self).routing.ring_state == ring,
            final(self).children@ == old(self).children@.insert(index, pid),
            final(self).config == old(self).config,
            final(self).adopted_pids == old(self).adopted_pids,
            final(self).next_index == old(self).next_index,
            final(self).idle_since == old(self).idle_since,
            final(self).restarts == old(self).restarts,
            final(self).save_fail_count == old(self).save_fail_count,
            final(self).configured_roots == old(self).configured_roots,
            final(self).configured_slugs == old(self).configured_slugs,
    {
        let known: u32 = match pid {
            Some(p) => p,
            None => 0,
        };
        let entry = WorkerEntry::new(index, socket_path, known);
        let ghost e = entry;
        self.routing.workers.insert(index, entry);
        self.routing.ring_state = ring;
        self.children.insert(index, pid);
        assert(is_new_worker(e, index, socket_path, pid));
    }

    /// A worker that serves the root `slug`.
    pub fn routed_worker(&self, slug: &str) -> (r: Option<u32>)
        ensures
            match r {
                Some(i) => serves(self.routing.workers@, i, slug@),
                None => forall|i: u32| !#[trigger] serves(self.routing.workers@, i, slug@),
            },
    {
        let keys = key_list(&self.routing.workers);
        let mut k: usize = 0;
        while k < keys.len()
            invariant
                k <= keys.len(),
                forall|x: u32| #[trigger] keys@.contains(x) == self.routing.workers@.contains_key(x),
                forall|q: int|
                    0 <= q < k ==> !serves(self.routing.workers@, #[trigger] keys@[q], slug@),
            decreases keys.len() - k,
        {
            let idx: u32 = keys[k];
            assert(keys@.contains(idx));
            if let Some(e) = self.routing.workers.get(&idx) {
                if e.contains_slug(slug) {
                    return Some(idx);
                }
            }
            k = k + 1;
        }
        assert forall|i: u32| !#[trigger] serves(self.routing.workers@, i, slug@) by {
            if self.routing.workers@.contains_key(i) {
                assert(keys@.contains(i));
            }
        }
        None
    }

    /// `step` is how `req` starts: a worker serves the root, or one serves a root
    /// that contains it, or the ring decides.
    pub open spec fn starts_with_step(&self, req: &RootRequest, step: RouteStep) -> bool {
        match step {
            RouteStep::Routed(i) => serves(self.routing.workers@, i, req.slug@),
            RouteStep::CheckTree { worker, base_path } => {
                &&& !self.routing.routes(req.slug@)
                &&& self.routing.best_container(worker, base_path@, req.canonical@)
            },
            RouteStep::AskRing => {
                &&& !self.routing.routes(req.slug@)
                &&& self.routing.none_contains(req.canonical@)
            },
            _ => false,
        }
    }

    /// How a request starts: a worker serves the root, or one serves a root that
    /// contains it, or the ring decides.
    pub fn resolve_worker(&self, req: &RootRequest) -> (r: RouteStep)
        ensures
            self.starts_with_step(req, r),
    {
        if let Some(i) = self.routed_worker(req.slug.as_str()) {
            return RouteStep::Routed(i);
        }
        assert(!self.routing.routes(req.slug@)) by {
            assert forall|i: u32|
                self.routing.workers@.contains_key(i) implies !crate::routing::has_slug(
                (#[trigger] self.routing.workers@[i]).roots@,
                req.slug@,
            ) by {
                assert(!serves(self.routing.workers@, i, req.slug@));
            }
        }
        match self.routing.containing_root(req.canonical.as_str()) {
            Some(hit) => {
                assert(self.routing.best_container(hit.0, hit.2@, req.canonical@)) by {
                    let j = choose|j: int| #[trigger] self.routing.hit_at(hit, j, req.canonical@);
                    assert(self.routing.contains_path(hit.0, j, req.canonical@));
                }
                RouteStep::CheckTree { worker: hit.0, base_path: hit.2 }
            },
            None => RouteStep::AskRing,
        }
    }

    /// A containing root settles the request only where both belong to the same
    /// working tree; another working tree is a checkout of its own.
    pub fn tree_resolved(
        &self,
        req: &RootRequest,
        worker: u32,
        ancestor_tree: &Option<String>,
    ) -> (r: RouteStep)
        ensures
            r == if same_tree(*ancestor_tree, req.working_tree) {
                RouteStep::Routed(worker)
            } else {
                RouteStep::AskRing
            },
    {
        if is_same_tree(ancestor_tree, &req.working_tree) {
            RouteStep::Routed(worker)
        } else {
            RouteStep::AskRing
        }
    }

    /// `worker` is the one that serves `req`, or would: a worker that serves the
    /// root, else that of the closest root around it, where both belong to the
    /// same working tree, else the one that the ring assigns. `container_tree` is
    /// the working tree of that root around it.
    pub open spec fn would_serve(
        &self,
        req: &RootRequest,
        container_tree: Option<String>,
        assigned: Option<u32>,
        worker: Option<u32>,
    ) -> bool {
        if self.routing.routes(req.slug@) {
            worker matches Some(i) && serves(self.routing.workers@, i, req.slug@)
        } else if !self.routing.none_contains(req.canonical@) && same_tree(
            container_tree,
            req.working_tree,
        ) {
            worker matches Some(i) && self.routing.surrounds_best(i, req.canonical@)
        } else {
            worker == assigned
        }
    }

    /// The worker that serves a root, or would. Changes nothing. `container_tree`
    /// is the working tree of the root that `resolve_worker` finds around it.
    pub fn serving_worker(
        &self,
        req: &RootRequest,
        container_tree: &Option<String>,
        assigned: Option<u32>,
    ) -> (r: Option<u32>)
        ensures
            self.would_serve(req, *container_tree, assigned, r),
    {
        match self.resolve_worker(req) {
            RouteStep::Routed(i) => {
                assert(serves(self.routing.workers@, i, req.slug@));
                assert(crate::routing::has_slug(self.routing.workers@[i].roots@, req.slug@));
                assert(self.routing.routes(req.slug@));
                Some(i)
            },
            RouteStep::CheckTree { worker, base_path } => {
                assert(self.routing.best_container(worker, base_path@, req.canonical@));
                assert(!self.routing.none_contains(req.canonical@)) by {
                    let j = choose|j: int| #[trigger]
                        self.routing.contains_path(worker, j, req.canonical@)
                            && self.routing.root(worker, j).base_path@ == base_path@;
                    assert(self.routing.contains_path(worker, j, req.canonical@));
                }
                if is_same_tree(container_tree, &req.working_tree) {
                    assert(self.routing.surrounds_best(worker, req.canonical@));
                    Some(worker)
                } else {
                    assigned
                }
            },
            _ => assigned,
        }
    }

    /// Whether placing one more root on worker `index` calls for another worker.
    pub open spec fn wants_scale_out(&self, index: u32) -> bool {
        &&& self.routing.workers@.contains_key(index)
        &&& self.routing.workers@[index].roots@.len() + 1 >= self.config.roots_per_worker_max
        &&& self.routing.workers@.len() < self.config.n_max
    }

    /// Placing `req` on worker `index` takes an index for another worker.
    pub open spec fn takes_index(&self, req: &RootRequest, index: u32) -> bool {
        !self.routing.routes(req.slug@) && self.wants_scale_out(index)
    }

    /// Whether placing `req` on worker `index` takes an index for another worker.
    pub fn needs_index(&self, req: &RootRequest, index: u32) -> (r: bool)
        ensures
            r == self.takes_index(req, index),
    {
        if self.routing.is_routed(req.slug.as_str()) {
            return false;
        }
        match self.routing.workers.get(&index) {
            Some(e) => e.roots.len() as u128 + 1 >= self.config.roots_per_worker_max as u128 && (
            self.routing.worker_count() as u64) < self.config.n_max as u64,
            None => false,
        }
    }

    /// What placing `req` on worker `index` does. A root that some worker serves
    /// by now stays where it is. Otherwise the worker gets the root, if it is
    /// still registered; it is no longer idle, and a full worker calls for
    /// another one.
    pub open spec fn placed(
        before: &Self,
        after: &Self,
        req: &RootRequest,
        index: u32,
        step: RouteStep,
    ) -> bool {
        if before.routing.routes(req.slug@) {
            &&& after == before
            &&& step matches RouteStep::Routed(i) && serves(before.routing.workers@, i, req.slug@)
        } else {
            let w = before.routing.workers@;
            &&& after.same_but_workers(before)
            &&& after.idle_since@ == before.idle_since@.remove(index)
            &&& w.contains_key(index) ==> exists|e: WorkerEntry| #[trigger]
                with_root(
                    e,
                    w[index],
                    RootEntry { slug: req.slug, base_path: req.canonical },
                ) && after.routing.workers@ == w.insert(index, e)
            &&& !w.contains_key(index) ==> after.routing.workers@ == w
            &&& step matches RouteStep::Placed { worker, contained, scale_out } && {
                &&& worker == index
                &&& exists|keys: Seq<u32>|
                    enumerates(keys, w) && contained@ == #[trigger] contained_roots(
                        keys,
                        w,
                        req.canonical@,
                    )
                &&& scale_out == if before.wants_scale_out(index) {
                    Some(before.next_index)
                } else {
                    None
                }
            }
            &&& after.next_index == before.next_index + (if before.wants_scale_out(index) {
                1int
            } else {
                0int
            })
        }
    }

    /// Collects the roots that `parent` contains, worker by worker.
    fn collect_contained(&self, parent: &str) -> (r: Vec<(u32, String, String)>)
        ensures
            exists|keys: Seq<u32>|
                enumerates(keys, self.routing.workers@) && r@ == #[trigger] contained_roots(
                    keys,
                    self.routing.workers@,
                    parent@,
                ),
    {
        let keys = key_list(&self.routing.workers);
        let ghost w = self.routing.workers@;
        let mut out: Vec<(u32, String, String)> = Vec::new();
        let mut k: usize = 0;
        while k < keys.len()
            invariant
                k <= keys.len(),
                w == self.routing.workers@,
                forall|x: u32| #[trigger] keys@.contains(x) == w.contains_key(x),
                out@ == contained_roots(keys@.take(k as int), w, parent@),
            decreases keys.len() - k,
        {
            let idx: u32 = keys[k];
            assert(keys@.contains(idx));
            if let Some(e) = self.routing.workers.get(&idx) {
                let ghost start = out@;
                let mut j: usize = 0;
                while j < e.roots.len()
                    invariant
                        j <= e.roots.len(),
                        out@ == start + contained_in(idx, e.roots@.take(j as int), parent@),
                    decreases e.roots.len() - j,
                {
                    assert(e.roots@.take(j + 1).drop_last() =~= e.roots@.take(j as int));
                    assert(e.roots@.take(j + 1).last() == e.roots@[j as int]);
                    let root = &e.roots[j];
                    if root.base_path.unicode_len() > 0 && starts_with(
                        root.base_path.as_str(),
                        parent,
                    ) {
                        out.push((idx, root.slug.clone(), root.base_path.clone()));
                    }
                    assert(out@ =~= start + contained_in(idx, e.roots@.take(j + 1), parent@));
                    j = j + 1;
                }
                assert(e.roots@.take(j as int) =~= e.roots@);
            }
            assert(keys@.take(k + 1).drop_last() =~= keys@.take(k as int));
            k = k + 1;
        }
        assert(keys@.take(k as int) =~= keys@);
        assert(enumerates(keys@, w));
        out
    }

    /// Places the requested root on worker `index`.
    fn place(&mut self, req: &RootRequest, index: u32) -> (r: RouteStep)
        requires
            old(self).takes_index(req, index) ==> old(self).next_index < u32::MAX,
        ensures
            Self::placed(old(self), final(self), req, index, r),
    {
        if let Some(i) = self.routed_worker(req.slug.as_str()) {
            assert(crate::routing::has_slug(self.routing.workers@[i].roots@, req.slug@));
            return RouteStep::Routed(i);
        }
        assert(!self.routing.routes(req.slug@)) by {
            assert forall|i: u32|
                self.routing.workers@.contains_key(i) implies !crate::routing::has_slug(
                (#[trigger] self.routing.workers@[i]).roots@,
                req.slug@,
            ) by {
                assert(!serves(self.routing.workers@, i, req.slug@));
            }
        }
        let ghost w = self.routing.workers@;
        let contained = self.collect_contained(req.canonical.as_str());
        let total: usize = self.routing.worker_count();
        let mut full = false;
        if let Some(mut e) = self.routing.workers.remove(&index) {
            e.push_root(req.slug.clone(), req.canonical.clone());
            full = e.roots.len() as u64 >= self.config.roots_per_worker_max as u64 && (total as u64)
                < self.config.n_max as u64;
            let ghost pushed = e;
            self.routing.workers.insert(index, e);
            assert(self.routing.workers@ =~= w.insert(index, pushed));
            assert(with_root(
                pushed,
                w[index],
                RootEntry { slug: req.slug, base_path: req.canonical },
            ));
        } else {
            assert(self.routing.workers@ =~= w);
        }
        self.idle_since.remove(&index);
        let scale_out = if full {
            Some(self.alloc_index())
        } else {
            None
        };
        RouteStep::Placed { worker: index, contained, scale_out }
    }

    /// The ring's answer settles the request. An empty ring is asked once more
    /// under the latch, then a worker is started.
    pub fn ring_answered(
        &mut self,
        req: &RootRequest,
        answer: Option<u32>,
        latched: bool,
    ) -> (r: RouteStep)
        requires
            match answer {
                Some(index) => old(self).takes_index(req, index),
                None => latched,
            } ==> old(self).next_index < u32::MAX,
        ensures
            match answer {
                Some(index) => Self::placed(old(self), final(self), req, index, r),
                None => if latched {
                    &&& r == RouteStep::Spawn(old(self).next_index)
                    &&& *final(self) == (MasterState {
                        next_index: (old(self).next_index + 1) as u32,
                        ..*old(self)
                    })
                } else {
                    r is LatchAndAskRing && *final(self) == *old(self)
                },
            },
    {
        match answer {
            Some(index) => self.place(req, index),
            None => if latched {
                RouteStep::Spawn(self.alloc_index())
            } else {
                RouteStep::LatchAndAskRing
            },
        }
    }

    /// The worker started for this request is up, or could not be started.
    pub fn spawn_finished(&mut self, req: &RootRequest, index: u32, started: bool) -> (r: RouteStep)
        requires
            started && old(self).takes_index(req, index) ==> old(self).next_index < u32::MAX,
        ensures
            if started {
                Self::placed(old(self), final(self), req, index, r)
            } else {
                r is Refused && *final(self) == *old(self)
            },
    {
        if started {
            self.place(req, index)
        } else {
            RouteStep::Refused
        }
    }

    /// A root is dropped: no worker serves it any longer, and a worker left
    /// without roots counts as idle from now on.
    pub fn handle_evicted_root(&mut self, slug: &str, now: u64)
        ensures
            final(self).same_but_workers(old(self)),
            final(self).next_index == old(self).next_index,
            evicted(old(self).routing.workers@, final(self).routing.workers@, slug@),
            final(self).idle_since@ == idle_after(
                old(self).idle_since@,
                final(self).routing.workers@,
                now,
            ),
    {
        let ghost w = self.routing.workers@;
        let ghost idle = self.idle_since@;
        let keys = key_list(&self.routing.workers);
        let mut k: usize = 0;
        while k < keys.len()
            invariant
                k <= keys.len(),
                keys@.no_duplicates(),
                forall|x: u32| #[trigger] keys@.contains(x) == w.contains_key(x),
                self.same_but_workers(old(self)),
                self.next_index == old(self).next_index,
                self.routing.workers@.dom() == w.dom(),
                forall|q: int|
                    0 <= q < k ==> minus_slug(
                        self.routing.workers@[#[trigger] keys@[q]],
                        w[keys@[q]],
                        slug@,
                    ),
                forall|q: int|
                    k <= q < keys@.len() ==> self.routing.workers@[#[trigger] keys@[q]]
                        == w[keys@[q]],
                forall|x: u32|
                    !w.contains_key(x) ==> (#[trigger] self.idle_since@.contains_key(x)
                        == idle.contains_key(x)) && self.idle_since@[x] == idle[x],
                forall|q: int|
                    k <= q < keys@.len() ==> {
                        let x = #[trigger] keys@[q];
                        &&& self.idle_since@.contains_key(x) == idle.contains_key(x)
                        &&& self.idle_since@[x] == idle[x]
                    },
                forall|q: int|
                    0 <= q < k ==> {
                        let x = #[trigger] keys@[q];
                        let empty = self.routing.workers@[x].roots@.len() == 0;
                        &&& self.idle_since@.contains_key(x) == (idle.contains_key(x) || empty)
                        &&& idle.contains_key(x) ==> self.idle_since@[x] == idle[x]
                        &&& !idle.contains_key(x) && empty ==> self.idle_since@[x] == now
                    },
            decreases keys.len() - k,
        {
            let idx: u32 = keys[k];
            assert(keys@.contains(idx));
            if let Some(mut e) = self.routing.workers.remove(&idx) {
                e.remove_slug(slug);
                let empty = e.roots.len() == 0;
                self.routing.workers.insert(idx, e);
                assert(self.routing.workers@.dom() =~= w.dom());
                if empty && !self.idle_since.contains_key(&idx) {
                    self.idle_since.insert(idx, now);
                }
            }
            k = k + 1;
        }
        assert forall|x: u32| #[trigger] self.routing.workers@.contains_key(x) implies minus_slug(
            self.routing.workers@[x],
            w[x],
            slug@,
        ) by {
            assert(keys@.contains(x));
        }
        let ghost want = idle_after(idle, self.routing.workers@, now);
        assert forall|x: u32|
            (#[trigger] self.idle_since@.contains_key(x) == want.contains_key(x)) && (
            want.contains_key(x) ==> self.idle_since@[x] == want[x]) by {
            if w.contains_key(x) {
                assert(keys@.contains(x));
            } else {
                assert(!keys@.contains(x));
            }
        }
        assert(self.idle_since@ =~= want);
    }
}

/// The idle times once every worker without roots has one.
pub open spec fn idle_after(
    idle: Map<u32, u64>,
    workers: Map<u32, WorkerEntry>,
    now: u64,
) -> Map<u32, u64> {
    Map::new(
        |k: u32| idle.contains_key(k) || (workers.contains_key(k) && workers[k].roots@.len() == 0),
        |k: u32|
            if idle.contains_key(k) {
                idle[k]
            } else {
                now
            },
    )
}

/// Whether a contained root is merged into its new parent: only within one
/// working tree.
pub fn subsumes(child_tree: &Option<String>, parent_tree: &Option<String>) -> (r: bool)
    ensures
        r == same_tree(*child_tree, *parent_tree),
{
    is_same_tree(child_tree, parent_tree)
}

/// Placing a root moves no other root, and the worker that got it serves it.
pub proof fn law_placing_moves_no_other_root(
    before: MasterState,
    after: MasterState,
    req: RootRequest,
    index: u32,
    step: RouteStep,
)
    requires
        MasterState::placed(&before, &after, &req, index, step),
    ensures
        forall|w: u32, slug: Seq<char>|
            slug != req.slug@ ==> (#[trigger] serves(after.routing.workers@, w, slug) == serves(
                before.routing.workers@,
                w,
                slug,
            )),
        step is Placed && before.routing.workers@.contains_key(index) ==> serves(
            after.routing.workers@,
            index,
            req.slug@,
        ),
        after.routing.workers@.dom() == before.routing.workers@.dom(),
{
    let w0 = before.routing.workers@;
    let w1 = after.routing.workers@;
    if !before.routing.routes(req.slug@) && w0.contains_key(index) {
        let root = RootEntry { slug: req.slug, base_path: req.canonical };
        let e = choose|e: WorkerEntry| #[trigger]
            with_root(e, w0[index], root) && w1 == w0.insert(index, e);
        crate::routing::law_pushed_root_is_contained(w0[index].roots@, root);
        assert(w1.dom() =~= w0.dom());
        assert forall|w: u32, slug: Seq<char>| slug != req.slug@ implies (#[trigger] serves(w1, w, slug)
            == serves(w0, w, slug)) by {
            if w == index {
                lemma_push_other_slug(w0[index].roots@, root, slug);
            }
        }
    }
}

proof fn lemma_push_other_slug(roots: Seq<RootEntry>, root: RootEntry, slug: Seq<char>)
    requires
        root.slug@ != slug,
    ensures
        crate::routing::has_slug(roots.push(root), slug) == crate::routing::has_slug(roots, slug),
{
    if crate::routing::has_slug(roots, slug) {
        let i = choose|i: int| 0 <= i < roots.len() && (#[trigger] roots[i]).slug@ == slug;
        assert(roots.push(root)[i].slug@ == slug);
    }
    if crate::routing::has_slug(roots.push(root), slug) {
        let i = choose|i: int|
            0 <= i < roots.push(root).len() && (#[trigger] roots.push(root)[i]).slug@ == slug;
        assert(roots[i].slug@ == slug);
    }
}

proof fn lemma_contained_in_positions(idx: u32, roots: Seq<RootEntry>, parent: Seq<char>) -> (p: Seq<
    int,
>)
    ensures
        p.len() == contained_in(idx, roots, parent).len(),
        forall|a: int, b: int| 0 <= a < b < p.len() ==> p[a] < p[b],
        forall|k: int|
            0 <= k < p.len() ==> 0 <= #[trigger] p[k] < roots.len() && contained_in(
                idx,
                roots,
                parent,
            )[k] == (idx, roots[p[k]].slug, roots[p[k]].base_path),
        forall|j: int|
            0 <= j < roots.len() ==> (#[trigger] p.contains(j) <==> is_contained(roots[j], parent)),
    decreases roots.len(),
{
    if roots.len() == 0 {
        Seq::empty()
    } else {
        let q = lemma_contained_in_positions(idx, roots.drop_last(), parent);
        let last = roots.len() - 1;
        let p = if is_contained(roots.last(), parent) {
            q.push(last)
        } else {
            q
        };
        assert forall|j: int| 0 <= j < roots.len() implies (#[trigger] p.contains(j)
            <==> is_contained(roots[j], parent)) by {
            if j < last {
                assert(q.contains(j) <==> is_contained(roots.drop_last()[j], parent));
                if q.contains(j) {
                    let k = choose|k: int| 0 <= k < q.len() && q[k] == j;
                    assert(p[k] == j);
                }
                if p.contains(j) {
                    let k = choose|k: int| 0 <= k < p.len() && p[k] == j;
                    assert(q[k] == j);
                }
            } else if is_contained(roots.last(), parent) {
                assert(p[q.len() as int] == j);
            }
        }
        p
    }
}

proof fn lemma_contained_roots_positions(
    keys: Seq<u32>,
    workers: Map<u32, WorkerEntry>,
    parent: Seq<char>,
) -> (at: Seq<(u32, int)>)
    requires
        keys.no_duplicates(),
    ensures
        at.len() == contained_roots(keys, workers, parent).len(),
        forall|a: int, b: int| 0 <= a < b < at.len() ==> at[a] != at[b],
        forall|k: int|
            0 <= k < at.len() ==> {
                let (w, j) = #[trigger] at[k];
                &&& keys.contains(w)
                &&& 0 <= j < workers[w].roots@.len()
                &&& contained_roots(keys, workers, parent)[k] == (
                    w,
                    workers[w].roots@[j].slug,
                    workers[w].roots@[j].base_path,
                )
            },
        forall|w: u32, j: int| #[trigger]
            at.contains((w, j)) <==> keys.contains(w) && 0 <= j < workers[w].roots@.len()
                && is_contained(workers[w].roots@[j], parent),
    decreases keys.len(),
{
    if keys.len() == 0 {
        Seq::empty()
    } else {
        let front = keys.drop_last();
        let last = keys.last();
        let roots = workers[last].roots@;
        let before = lemma_contained_roots_positions(front, workers, parent);
        let js = lemma_contained_in_positions(last, roots, parent);
        let more = js.map_values(|j: int| (last, j));
        let at = before + more;
        assert forall|w: u32| keys.contains(w) <==> front.contains(w) || w == last by {
            if keys.contains(w) {
                let i = choose|i: int| 0 <= i < keys.len() && keys[i] == w;
                if i < front.len() {
                    assert(front[i] == w);
                }
            }
            if front.contains(w) {
                let i = choose|i: int| 0 <= i < front.len() && front[i] == w;
                assert(keys[i] == w);
            }
            assert(keys[keys.len() - 1] == last);
        }
        assert(!front.contains(last)) by {
            if front.contains(last) {
                let i = choose|i: int| 0 <= i < front.len() && front[i] == last;
                assert(keys[i] == keys[keys.len() - 1]);
            }
        }
        assert forall|a: int, b: int| 0 <= a < b < at.len() implies at[a] != at[b] by {
            if b < before.len() {
                assert(before[a] != before[b]);
            } else if a >= before.len() {
                assert(js[a - before.len()] < js[b - before.len()]);
            } else {
                assert(front.contains(before[a].0));
            }
        }
        assert forall|k: int| 0 <= k < at.len() implies {
            let (w, j) = #[trigger] at[k];
            &&& keys.contains(w)
            &&& 0 <= j < workers[w].roots@.len()
            &&& contained_roots(keys, workers, parent)[k] == (
                w,
                workers[w].roots@[j].slug,
                workers[w].roots@[j].base_path,
            )
        } by {
            if k < before.len() {
                assert(at[k] == before[k]);
            } else {
                assert(at[k] == (last, js[k - before.len()]));
            }
        }
        assert forall|w: u32, j: int| #[trigger]
            at.contains((w, j)) <==> keys.contains(w) && 0 <= j < workers[w].roots@.len()
                && is_contained(workers[w].roots@[j], parent) by {
            if at.contains((w, j)) {
                let k = choose|k: int| 0 <= k < at.len() && at[k] == (w, j);
                if k < before.len() {
                    assert(before[k] == (w, j));
                    assert(before.contains((w, j)));
                } else {
                    assert(js[k - before.len()] == j);
                    assert(js.contains(j));
                }
            }
            if keys.contains(w) && 0 <= j < workers[w].roots@.len() && is_contained(
                workers[w].roots@[j],
                parent,
            ) {
                if w == last {
                    assert(js.contains(j));
                    let k = choose|k: int| 0 <= k < js.len() && js[k] == j;
                    assert(at[before.len() + k] == (w, j));
                } else {
                    assert(before.contains((w, j)));
                    let k = choose|k: int| 0 <= k < before.len() && before[k] == (w, j);
                    assert(at[k] == (w, j));
                }
            }
        }
        at
    }
}

/// A root that is placed learns of exactly the roots under it: of every
/// registered root with a base path under its own, whichever worker serves it,
/// once each, and of nothing else.
pub proof fn law_a_placed_root_takes_in_every_root_under_it(
    before: MasterState,
    after: MasterState,
    req: RootRequest,
    index: u32,
    step: RouteStep,
)
    requires
        MasterState::placed(&before, &after, &req, index, step),
    ensures
        step matches RouteStep::Placed { contained, .. } ==> {
            let workers = before.routing.workers@;
            &&& exists|at: Seq<(u32, int)>|
                #![trigger at.len()]
                {
                    &&& at.len() == contained@.len()
                    &&& forall|a: int, b: int| 0 <= a < b < at.len() ==> at[a] != at[b]
                    &&& forall|k: int|
                        0 <= k < at.len() ==> {
                            let (w, j) = #[trigger] at[k];
                            &&& workers.contains_key(w)
                            &&& 0 <= j < workers[w].roots@.len()
                            &&& contained@[k].0 == w
                            &&& contained@[k].1@ == workers[w].roots@[j].slug@
                            &&& contained@[k].2@ == workers[w].roots@[j].base_path@
                            &&& contained@[k].2@.len() > 0
                            &&& crate::path::under(contained@[k].2@, req.canonical@)
                        }
                }
            &&& forall|w: u32, j: int|
                #![trigger workers[w].roots@[j]]
                workers.contains_key(w) && 0 <= j < workers[w].roots@.len()
                    && workers[w].roots@[j].base_path@.len() > 0 && crate::path::under(
                    workers[w].roots@[j].base_path@,
                    req.canonical@,
                ) ==> contained@.contains(
                    (w, workers[w].roots@[j].slug, workers[w].roots@[j].base_path),
                )
        },
{
    if let RouteStep::Placed { contained, .. } = step {
        let workers = before.routing.workers@;
        let keys = choose|keys: Seq<u32>|
            enumerates(keys, workers) && contained@ == #[trigger] contained_roots(
                keys,
                workers,
                req.canonical@,
            );
        let at = lemma_contained_roots_positions(keys, workers, req.canonical@);
        assert forall|w: u32| keys.contains(w) == #[trigger] workers.contains_key(w) by {
            assert(keys.to_set().contains(w) == keys.contains(w));
        }
        assert(at.len() == contained@.len());
        assert forall|k: int| 0 <= k < at.len() implies {
            let (w, j) = #[trigger] at[k];
            is_contained(workers[w].roots@[j], req.canonical@)
        } by {
            assert(at.contains(at[k]));
            assert(at.contains((at[k].0, at[k].1)));
        }
        assert forall|w: u32, j: int|
            #![trigger workers[w].roots@[j]]
            workers.contains_key(w) && 0 <= j < workers[w].roots@.len()
                && workers[w].roots@[j].base_path@.len() > 0 && crate::path::under(
                workers[w].roots@[j].base_path@,
                req.canonical@,
            ) implies contained@.contains(
            (w, workers[w].roots@[j].slug, workers[w].roots@[j].base_path),
        ) by {
            assert(at.contains((w, j)));
            let k = choose|k: int| 0 <= k < at.len() && at[k] == (w, j);
            assert(contained@[k] == (w, workers[w].roots@[j].slug, workers[w].roots@[j].base_path));
        }
    }
}

/// Another worker is called for exactly where the one that got the root is full
/// with it and more workers are allowed. It has an index that no worker had.
pub proof fn law_a_full_worker_calls_for_another(
    before: MasterState,
    after: MasterState,
    req: RootRequest,
    index: u32,
    step: RouteStep,
)
    requires
        MasterState::placed(&before, &after, &req, index, step),
        indices_below(before.routing.workers@, before.next_index),
    ensures
        step matches RouteStep::Placed { worker, scale_out, .. } ==> {
            let workers = before.routing.workers@;
            &&& worker == index
            &&& scale_out is Some <==> workers.contains_key(index) && workers[index].roots@.len() + 1
                >= before.config.roots_per_worker_max && workers.len() < before.config.n_max
            &&& scale_out matches Some(i) ==> !workers.contains_key(i) && after.next_index == i + 1
            &&& scale_out is None ==> after.next_index == before.next_index
            &&& !after.idle_since@.contains_key(index)
        },
{
}

/// Where no root is served twice, placing a root keeps it so.
pub proof fn law_placing_keeps_roots_served_once(
    before: MasterState,
    after: MasterState,
    req: RootRequest,
    index: u32,
    step: RouteStep,
)
    requires
        MasterState::placed(&before, &after, &req, index, step),
        served_once(before.routing.workers@),
    ensures
        served_once(after.routing.workers@),
{
    let w0 = before.routing.workers@;
    let w1 = after.routing.workers@;
    if !before.routing.routes(req.slug@) && w0.contains_key(index) {
        law_placing_moves_no_other_root(before, after, req, index, step);
        let root = RootEntry { slug: req.slug, base_path: req.canonical };
        let e = choose|e: WorkerEntry| #[trigger]
            with_root(e, w0[index], root) && w1 == w0.insert(index, e);
        assert forall|a: u32, b: u32, slug: Seq<char>| #[trigger] serves(w1, a, slug) && #[trigger] serves(
            w1,
            b,
            slug,
        ) implies a == b by {
            if slug != req.slug@ {
                assert(serves(w0, a, slug) && serves(w0, b, slug));
            } else {
                assert(!(a != index && crate::routing::has_slug(w0[a].roots@, slug)));
                assert(!(b != index && crate::routing::has_slug(w0[b].roots@, slug)));
            }
        }
        assert forall|a: u32| #[trigger] w1.contains_key(a) implies crate::routing::slugs_of(
            w1[a].roots@,
        ).no_duplicates() by {
            if a == index {
                let old_roots = w0[index].roots@;
                assert(!crate::routing::has_slug(old_roots, req.slug@));
                let s0 = crate::routing::slugs_of(old_roots);
                let s1 = crate::routing::slugs_of(w1[a].roots@);
                assert(s1 =~= s0.push(req.slug@));
                assert forall|i: int, j: int| 0 <= i < s1.len() && 0 <= j < s1.len() && i != j implies s1[i]
                    != s1[j] by {
                    if i < s0.len() && j < s0.len() {
                        assert(s0[i] != s0[j]);
                    } else if i < s0.len() {
                        assert(old_roots[i].slug@ != req.slug@);
                    } else {
                        assert(old_roots[j].slug@ != req.slug@);
                    }
                }
            }
        }
    }
}

/// A root asked for again goes to the worker that it was placed on.
pub proof fn law_repeated_request_gets_the_same_worker(
    before: MasterState,
    after: MasterState,
    req: RootRequest,
    index: u32,
    step: RouteStep,
    again: u32,
)
    requires
        MasterState::placed(&before, &after, &req, index, step),
        served_once(before.routing.workers@),
        step is Placed,
        before.routing.workers@.contains_key(index),
        serves(after.routing.workers@, again, req.slug@),
    ensures
        again == index,
{
    law_placing_keeps_roots_served_once(before, after, req, index, step);
    law_placing_moves_no_other_root(before, after, req, index, step);
}

/// The worker named for a root is the one that a request for it then gets:
/// the worker that serves the root, by the first step or because the root has
/// been placed meanwhile; that of the closest root around it in the same working
/// tree, where one worker alone serves the closest ones; and the worker that the
/// ring's answer places it on.
pub proof fn law_the_named_worker_is_the_one_that_serves(
    before: MasterState,
    after: MasterState,
    req: RootRequest,
    container_tree: Option<String>,
    first: RouteStep,
    index: u32,
    step: RouteStep,
    named: Option<u32>,
)
    requires
        served_once(before.routing.workers@),
        before.starts_with_step(&req, first),
        before.would_serve(&req, container_tree, Some(index), named),
    ensures
        first matches RouteStep::Routed(w) ==> named == Some(w),
        first matches RouteStep::CheckTree { worker, .. } ==> same_tree(
            container_tree,
            req.working_tree,
        ) && before.routing.one_surrounds_best(req.canonical@) ==> named == Some(worker),
        MasterState::placed(&before, &after, &req, index, step) ==> {
            &&& step matches RouteStep::Routed(w) ==> named == Some(w)
            &&& step matches RouteStep::Placed { worker, .. } ==> (first is AskRing || !same_tree(
                container_tree,
                req.working_tree,
            )) ==> named == Some(worker)
        },
{
    match first {
        RouteStep::Routed(w) => {
            assert(crate::routing::has_slug(before.routing.workers@[w].roots@, req.slug@));
            assert(before.routing.routes(req.slug@));
            let i = named->0;
            assert(serves(before.routing.workers@, i, req.slug@));
            if let RouteStep::Routed(k) = step {
                if MasterState::placed(&before, &after, &req, index, step) {
                    assert(serves(before.routing.workers@, k, req.slug@));
                }
            }
        },
        RouteStep::CheckTree { worker, base_path } => {
            assert(before.routing.surrounds_best(worker, req.canonical@));
            let j = choose|j: int| #[trigger]
                before.routing.contains_path(worker, j, req.canonical@) && before.routing.root(
                    worker,
                    j,
                ).base_path@ == base_path@;
            assert(before.routing.contains_path(worker, j, req.canonical@));
        },
        _ => {},
    }
}

/// An evicted root is served by nobody; every other root stays where it was.
pub proof fn law_eviction_removes_one_root(
    before: Map<u32, WorkerEntry>,
    after: Map<u32, WorkerEntry>,
    slug: Seq<char>,
)
    requires
        evicted(before, after, slug),
    ensures
        forall|w: u32| !#[trigger] serves(after, w, slug),
        forall|w: u32, other: Seq<char>|
            other != slug ==> (#[trigger] serves(after, w, other) == serves(before, w, other)),
        served_once(before) ==> served_once(after),
{
    assert forall|w: u32| !#[trigger] serves(after, w, slug) by {
        if after.contains_key(w) {
            crate::routing::law_removed_slug_is_gone(before[w].roots@, slug);
        }
    }
    assert forall|w: u32, other: Seq<char>| other != slug implies (#[trigger] serves(after, w, other)
        == serves(before, w, other)) by {
        assert(after.dom().contains(w) == before.dom().contains(w));
        if after.contains_key(w) {
            crate::routing::law_removed_slug_is_gone(before[w].roots@, slug);
            assert(crate::routing::has_slug(
                crate::routing::without_slug(before[w].roots@, slug),
                other,
            ) == crate::routing::has_slug(before[w].roots@, other));
        }
    }
    if served_once(before) {
        assert forall|a: u32, b: u32, s: Seq<char>| #[trigger] serves(after, a, s) && #[trigger] serves(
            after,
            b,
            s,
        ) implies a == b by {
            assert(s != slug);
            assert(serves(before, a, s) && serves(before, b, s));
        }
        assert forall|a: u32| #[trigger] after.contains_key(a) implies crate::routing::slugs_of(
            after[a].roots@,
        ).no_duplicates() by {
            assert(before.dom().contains(a));
            lemma_filter_keeps_slugs_distinct(before[a].roots@, slug);
        }
    }
}

proof fn lemma_filter_keeps_slugs_distinct(roots: Seq<RootEntry>, slug: Seq<char>)
    requires
        crate::routing::slugs_of(roots).no_duplicates(),
    ensures
        crate::routing::slugs_of(crate::routing::without_slug(roots, slug)).no_duplicates(),
    decreases roots.len(),
{
    reveal(Seq::filter);
    let all = crate::routing::slugs_of(roots);
    if roots.len() > 0 {
        let front = roots.drop_last();
        let fs = crate::routing::slugs_of(front);
        assert forall|i: int, j: int| 0 <= i < fs.len() && 0 <= j < fs.len() && i != j implies fs[i]
            != fs[j] by {
            assert(all[i] != all[j]);
        }
        lemma_filter_keeps_slugs_distinct(front, slug);
        let kept = crate::routing::without_slug(front, slug);
        let last = roots.last();
        if last.slug@ != slug {
            let after = crate::routing::without_slug(roots, slug);
            assert(after == kept.push(last));
            let ks = crate::routing::slugs_of(kept);
            let s = crate::routing::slugs_of(after);
            assert(s =~= ks.push(last.slug@));
            assert forall|i: int| 0 <= i < ks.len() implies #[trigger] ks[i] != last.slug@ by {
                if ks[i] == last.slug@ {
                    assert(kept[i].slug@ == last.slug@);
                    assert(crate::routing::has_slug(kept, last.slug@));
                    crate::routing::law_removed_slug_is_gone(front, slug);
                    assert(crate::routing::has_slug(front, last.slug@));
                    let q = choose|q: int| 0 <= q < front.len() && (#[trigger] front[q]).slug@ == last.slug@;
                    assert(all[q] == all[roots.len() - 1]);
                }
            }
        }
    }
}

/// The index of a new worker is no registered worker's index, and registering
/// it keeps every index below the next one.
pub proof fn law_new_indices_are_fresh(workers: Map<u32, WorkerEntry>, next: u32, e: WorkerEntry)
    requires
        indices_below(workers, next),
        next < u32::MAX,
    ensures
        !workers.contains_key(next),
        indices_below(workers.insert(next, e), (next + 1) as u32),
{
}

/// Two paths belong to the same working tree where both have one and it is the
/// same, or where neither has one.
pub proof fn law_when_working_trees_are_the_same(a: Option<String>, b: Option<String>)
    ensures
        same_tree(a, b) == same_tree(b, a),
        same_tree(a, a),
        a is None && b is None ==> same_tree(a, b),
        a is None != b is None ==> !same_tree(a, b),
        a is Some && b is Some ==> (same_tree(a, b) <==> crate::path::path_eq(a->0@, b->0@)),
{
}

/// A request starts with the worker that serves its root, where one does; else with
/// the closest registered root around it, where there is one; else with the ring.
pub proof fn law_how_a_request_starts(state: MasterState, req: RootRequest, step: RouteStep, w: u32, j: int)
    requires
        state.starts_with_step(&req, step),
        state.routing.workers@.contains_key(w),
        0 <= j < state.routing.workers@[w].roots@.len(),
    ensures
        ({
            let root = state.routing.workers@[w].roots@[j];
            &&& root.slug@ == req.slug@ ==> step is Routed
            &&& step matches RouteStep::Routed(i) ==> state.routing.workers@.contains_key(i)
                && exists|k: int|
                0 <= k < state.routing.workers@[i].roots@.len() && (
                #[trigger] state.routing.workers@[i].roots@[k]).slug@ == req.slug@
            &&& root.base_path@.len() > 0 && crate::path::under(req.canonical@, root.base_path@)
                ==> step !is AskRing && (step matches RouteStep::CheckTree { base_path, .. }
                ==> crate::path::byte_len(root.base_path@) <= crate::path::byte_len(base_path@))
            &&& step matches RouteStep::CheckTree { worker, base_path } ==> base_path@.len() > 0
                && crate::path::under(req.canonical@, base_path@)
                && state.routing.workers@.contains_key(worker) && exists|k: int|
                0 <= k < state.routing.workers@[worker].roots@.len() && (
                #[trigger] state.routing.workers@[worker].roots@[k]).base_path@ == base_path@
        }),
{
    let t = state.routing;
    let root = t.workers@[w].roots@[j];
    if root.slug@ == req.slug@ {
        assert(crate::routing::has_slug(t.workers@[w].roots@, req.slug@));
        assert(t.routes(req.slug@));
    }
    if root.base_path@.len() > 0 && crate::path::under(req.canonical@, root.base_path@) {
        assert(t.contains_path(w, j, req.canonical@));
    }
    match step {
        RouteStep::CheckTree { worker, base_path } => {
            let k = choose|k: int| #[trigger]
                t.contains_path(worker, k, req.canonical@) && t.root(worker, k).base_path@
                    == base_path@;
            assert(t.contains_path(worker, k, req.canonical@));
            assert(t.workers@[worker].roots@[k].base_path@ == base_path@);
        },
        RouteStep::Routed(i) => {
            let roots = t.workers@[i].roots@;
            let k = choose|k: int| 0 <= k < roots.len() && (#[trigger] roots[k]).slug@ == req.slug@;
            assert(t.workers@[i].roots@[k].slug@ == req.slug@);
        },
        _ => {},
    }
}

/// The worker that serves a root, or would, is one that has the root; without one,
/// the worker of the closest root around it in the same working tree; without one,
/// the one that the ring assigns.
pub proof fn law_which_worker_would_serve(
    state: MasterState,
    req: RootRequest,
    container_tree: Option<String>,
    assigned: Option<u32>,
    worker: Option<u32>,
    w: u32,
    j: int,
)
    requires
        state.would_serve(&req, container_tree, assigned, worker),
        state.routing.workers@.contains_key(w),
        0 <= j < state.routing.workers@[w].roots@.len(),
    ensures
        ({
            let root = state.routing.workers@[w].roots@[j];
            let around = root.base_path@.len() > 0 && crate::path::under(
                req.canonical@,
                root.base_path@,
            );
            &&& root.slug@ == req.slug@ ==> (worker matches Some(i)
                && state.routing.workers@.contains_key(i) && exists|k: int|
                0 <= k < state.routing.workers@[i].roots@.len() && (
                #[trigger] state.routing.workers@[i].roots@[k]).slug@ == req.slug@)
            &&& !state.routing.routes(req.slug@) && around && same_tree(
                container_tree,
                req.working_tree,
            ) ==> (worker matches Some(i) && state.routing.workers@.contains_key(i) && exists|k: int|
                0 <= k < state.routing.workers@[i].roots@.len() && crate::path::under(
                    req.canonical@,
                    (#[trigger] state.routing.workers@[i].roots@[k]).base_path@,
                ) && crate::path::byte_len(root.base_path@) <= crate::path::byte_len(
                    state.routing.workers@[i].roots@[k].base_path@,
                ))
            &&& !state.routing.routes(req.slug@) && !same_tree(container_tree, req.working_tree)
                ==> worker == assigned
            &&& !state.routing.routes(req.slug@) && state.routing.none_contains(req.canonical@)
                ==> worker == assigned
        }),
{
    let t = state.routing;
    let root = t.workers@[w].roots@[j];
    if root.slug@ == req.slug@ {
        assert(crate::routing::has_slug(t.workers@[w].roots@, req.slug@));
        assert(t.routes(req.slug@));
        let i = worker->0;
        let roots = t.workers@[i].roots@;
        let k = choose|k: int| 0 <= k < roots.len() && (#[trigger] roots[k]).slug@ == req.slug@;
        assert(t.workers@[i].roots@[k].slug@ == req.slug@);
    }
    if !t.routes(req.slug@) && root.base_path@.len() > 0 && crate::path::under(
        req.canonical@,
        root.base_path@,
    ) && same_tree(container_tree, req.working_tree) {
        assert(t.contains_path(w, j, req.canonical@));
        assert(!t.none_contains(req.canonical@));
        let i = worker->0;
        let base = choose|base: Seq<char>| #[trigger] t.best_container(i, base, req.canonical@);
        let k = choose|k: int| #[trigger]
            t.contains_path(i, k, req.canonical@) && t.root(i, k).base_path@ == base;
        assert(t.contains_path(i, k, req.canonical@));
        assert(crate::path::under(req.canonical@, t.workers@[i].roots@[k].base_path@));
    }
}

/// Placing a root adds it at the end of one worker's roots, with its slug and its
/// canonical path, and changes nothing else of any worker. A root that is served
/// already is not placed again.
pub proof fn law_what_placing_changes(
    before: MasterState,
    after: MasterState,
    req: RootRequest,
    index: u32,
    step: RouteStep,
    w: u32,
)
    requires
        MasterState::placed(&before, &after, &req, index, step),
    ensures
        step is Placed <==> !before.routing.routes(req.slug@),
        before.routing.routes(req.slug@) ==> after == before,
        after.routing.workers@.contains_key(w) == before.routing.workers@.contains_key(w),
        before.routing.workers@.contains_key(w) && w != index ==> after.routing.workers@[w]
            == before.routing.workers@[w],
        before.routing.workers@.contains_key(w) ==> {
            let a = after.routing.workers@[w];
            let b = before.routing.workers@[w];
            &&& a.index == b.index
            &&& a.pid == b.pid
            &&& a.socket_path@ == b.socket_path@
            &&& w == index && step is Placed ==> a.roots@.len() == b.roots@.len() + 1
                && a.roots@.drop_last() == b.roots@ && a.roots@.last().slug@ == req.slug@
                && a.roots@.last().base_path@ == req.canonical@
        },
        after.routing.ring_state == before.routing.ring_state,
        after.children == before.children,
        after.adopted_pids == before.adopted_pids,
{
    let w0 = before.routing.workers@;
    let w1 = after.routing.workers@;
    if !before.routing.routes(req.slug@) && w0.contains_key(index) {
        let root = RootEntry { slug: req.slug, base_path: req.canonical };
        let e = choose|e: WorkerEntry| #[trigger]
            with_root(e, w0[index], root) && w1 == w0.insert(index, e);
        assert(e.roots@.drop_last() =~= w0[index].roots@);
    }
}

/// Evicting a root leaves every worker, and of its roots exactly those with another
/// slug, in order.
pub proof fn law_what_eviction_changes(
    before: Map<u32, WorkerEntry>,
    after: Map<u32, WorkerEntry>,
    slug: Seq<char>,
    w: u32,
)
    requires
        evicted(before, after, slug),
    ensures
        after.contains_key(w) == before.contains_key(w),
        before.contains_key(w) ==> {
            &&& after[w].roots@ == before[w].roots@.filter(|r: RootEntry| r.slug@ != slug)
            &&& after[w].index == before[w].index
            &&& after[w].pid == before[w].pid
            &&& after[w].socket_path@ == before[w].socket_path@
        },
{
    assert(after.dom().contains(w) == before.dom().contains(w));
    if before.contains_key(w) {
        assert(minus_slug(after[w], before[w], slug));
        crate::routing::law_roots_without_a_slug(before[w].roots@, slug);
    }
}

/// A worker without roots is idle since the time that was noted, or else from now
/// on; no other worker becomes idle, and no idle time is forgotten.
pub proof fn law_since_when_workers_are_idle(
    idle: Map<u32, u64>,
    workers: Map<u32, WorkerEntry>,
    now: u64,
    k: u32,
)
    ensures
        idle.contains_key(k) ==> idle_after(idle, workers, now).contains_key(k) && idle_after(
            idle,
            workers,
            now,
        )[k] == idle[k],
        !idle.contains_key(k) && workers.contains_key(k) && workers[k].roots@.len() == 0
            ==> idle_after(idle, workers, now).contains_key(k) && idle_after(
            idle,
            workers,
            now,
        )[k] == now,
        !idle.contains_key(k) && !(workers.contains_key(k) && workers[k].roots@.len() == 0)
            ==> !idle_after(idle, workers, now).contains_key(k),
{
}

/// Placing, evicting and reaping touch the workers, their idle times and the next
/// index alone.
pub proof fn law_what_stays_when_workers_change(before: MasterState, after: MasterState)
    requires
        after.same_but_workers(&before),
    ensures
        after.config == before.config,
        after.routing.ring_state == before.routing.ring_state,
        after.children == before.children,
        after.adopted_pids == before.adopted_pids,
        after.restarts == before.restarts,
        after.save_fail_count == before.save_fail_count,
        after.configured_roots == before.configured_roots,
        after.configured_slugs == before.configured_slugs,
{
}

/// A worker that is registered has its index, its socket and its process, and
/// serves nothing yet.
pub proof fn law_a_new_worker_serves_nothing(
    e: WorkerEntry,
    index: u32,
    socket_path: String,
    pid: Option<u32>,
    slug: Seq<char>,
)
    requires
        is_new_worker(e, index, socket_path, pid),
    ensures
        e.index == index,
        e.socket_path@ == socket_path@,
        pid matches Some(p) ==> e.pid == p,
        pid is None ==> e.pid == 0,
        e.roots@.len() == 0,
        !crate::routing::has_slug(e.roots@, slug),
{
}

/// A new index is needed for a root exactly where placing it calls for another
/// worker.
pub proof fn law_when_an_index_is_needed(state: MasterState, req: RootRequest, index: u32)
    ensures
        state.takes_index(&req, index) <==> !state.routing.routes(req.slug@)
            && state.routing.workers@.contains_key(index)
            && state.routing.workers@[index].roots@.len() + 1 >= state.config.roots_per_worker_max
            && state.routing.workers@.len() < state.config.n_max,
{
}

} // verus!
