//! How the master starts, watches, restarts and stops its workers.

use crate::master::MasterState;
use crate::routing::{key_list, RoutingTable, SerializableRing, WorkerEntry};
use std::collections::HashMap;
use vstd::prelude::*;

verus! {

broadcast use vstd::std_specs::hash::group_hash_axioms;

/// Restarts of one worker within a window.
pub const MAX_RESTARTS_PER_WINDOW: u32 = 3;

/// The window, in nanoseconds: 60 seconds.
pub const RESTART_WINDOW_NS: u64 = 60_000_000_000;

/// How long a worker asked to stop may take, in milliseconds.
pub const STOP_GRACE_MS: u64 = 5000;

/// How often a stopping worker is looked at, in milliseconds.
pub const STOP_POLL_MS: u64 = 100;

/// What the attempt to take the master's lock file comes to.
#[derive(Debug, Clone, Copy, PartialEq, Eq, Structural)]
pub enum LockStep {
    Acquired,
    /// The owner is gone: remove the file and try once more.
    RemoveStaleAndRetry,
    /// Another master is running; this one ends without an error.
    AlreadyRunning,
    /// Another master took the lock in between.
    Refused,
}

/// Exactly one process takes the lock. A stale file is removed once.
pub fn lock_step(created: bool, stale: bool, retrying: bool) -> (r: LockStep)
    ensures
        r is Acquired <==> created,
        r is Refused <==> !created && retrying,
        r is RemoveStaleAndRetry <==> !created && !retrying && stale,
        r is AlreadyRunning <==> !created && !retrying && !stale,
{
    if created {
        LockStep::Acquired
    } else if retrying {
        LockStep::Refused
    } else if stale {
        LockStep::RemoveStaleAndRetry
    } else {
        LockStep::AlreadyRunning
    }
}

/// `x` is one of the first `n` numbers of the list.
spec fn among(list: Seq<u32>, n: int, x: u32) -> bool {
    exists|q: int| 0 <= q < n && #[trigger] list[q] == x
}

proof fn lemma_among_next(list: Seq<u32>, n: int)
    requires
        0 <= n < list.len(),
    ensures
        among(list, n + 1, list[n]),
        forall|x: u32| among(list, n, x) ==> #[trigger] among(list, n + 1, x),
{
    assert(list[n] == list[n]);
    assert forall|x: u32| among(list, n, x) implies #[trigger] among(list, n + 1, x) by {
        let q = choose|q: int| 0 <= q < n && #[trigger] list[q] == x;
        assert(list[q] == x);
    }
}

/// The workers of a table and their process ids, to be looked for.
pub fn probe_list(routing: &RoutingTable) -> (r: Vec<(u32, u32)>)
    ensures
        exists|keys: Seq<u32>| #[trigger]
            crate::master::enumerates(keys, routing.workers@) && r@.len() == keys.len() && forall|
                i: int,
            |
                0 <= i < keys.len() ==> (#[trigger] r@[i]) == (
                    keys[i],
                    routing.workers@[keys[i]].pid,
                ),
{
    let keys = key_list(&routing.workers);
    let mut r: Vec<(u32, u32)> = Vec::new();
    let mut k: usize = 0;
    while k < keys.len()
        invariant
            k <= keys.len(),
            r@.len() == k,
            forall|x: u32| #[trigger] keys@.contains(x) == routing.workers@.contains_key(x),
            forall|i: int|
                0 <= i < k ==> (#[trigger] r@[i]) == (keys@[i], routing.workers@[keys@[i]].pid),
        decreases keys.len() - k,
    {
        let idx: u32 = keys[k];
        assert(keys@.contains(idx));
        if let Some(e) = routing.workers.get(&idx) {
            r.push((idx, e.pid));
        }
        k = k + 1;
    }
    assert(crate::master::enumerates(keys@, routing.workers@));
    r
}

/// The table after a restart of the master.
pub struct Recovery {
    /// The workers that answered.
    pub routing: RoutingTable,
    /// Their process ids.
    pub adopted: HashMap<u32, u32>,
    /// The workers that did not answer, to be taken off the ring.
    pub dead: Vec<u32>,
    /// The index of the next worker.
    pub next_index: u32,
}

/// The number after every number of the set: zero for none, and zero again
/// after the largest number there is.
pub open spec fn is_next_index(seen: Set<u32>, next: u32) -> bool {
    if seen == Set::<u32>::empty() {
        next == 0
    } else {
        exists|m: u32| #[trigger]
            seen.contains(m) && (forall|k: u32| #[trigger] seen.contains(k) ==> k <= m) && next
                == if m == u32::MAX {
                0
            } else {
                (m + 1) as u32
            }
    }
}

/// Keeps the workers that are alive and forgets the others. New workers are
/// numbered after every worker of the old table, dead ones included.
pub fn recover(routing: RoutingTable, alive: &Vec<u32>) -> (r: Recovery)
    ensures
        r.routing.ring_state == routing.ring_state,
        forall|k: u32| #[trigger]
            r.routing.workers@.contains_key(k) == (routing.workers@.contains_key(k)
                && alive@.contains(k)),
        forall|k: u32| #[trigger]
            r.routing.workers@.contains_key(k) ==> r.routing.workers@[k] == routing.workers@[k],
        r.adopted@.dom() == r.routing.workers@.dom(),
        forall|k: u32| #[trigger] r.adopted@.contains_key(k) ==> r.adopted@[k] == routing.workers@[k].pid,
        r.dead@.no_duplicates(),
        forall|k: u32| #[trigger]
            r.dead@.contains(k) == (routing.workers@.contains_key(k) && !alive@.contains(k)),
        is_next_index(routing.workers@.dom(), r.next_index),
{
    let ghost before = routing.workers@;
    let keys = key_list(&routing.workers);
    let mut table = routing;
    let mut adopted: HashMap<u32, u32> = HashMap::new();
    let mut dead: Vec<u32> = Vec::new();
    let mut highest: Option<u32> = None;
    let mut k: usize = 0;
    while k < keys.len()
        invariant
            k <= keys.len(),
            keys@.no_duplicates(),
            forall|x: u32| #[trigger] keys@.contains(x) == before.contains_key(x),
            table.ring_state == routing.ring_state,
            forall|x: u32| #[trigger]
                table.workers@.contains_key(x) ==> before.contains_key(x) && table.workers@[x]
                    == before[x],
            forall|q: int|
                k <= q < keys@.len() ==> table.workers@.contains_key(#[trigger] keys@[q]),
            forall|q: int|
                0 <= q < k ==> table.workers@.contains_key(#[trigger] keys@[q]) == alive@.contains(
                    keys@[q],
                ),
            forall|x: u32| #[trigger]
                adopted@.contains_key(x) ==> before.contains_key(x) && alive@.contains(x)
                    && adopted@[x] == before[x].pid,
            forall|q: int|
                0 <= q < k && alive@.contains(#[trigger] keys@[q]) ==> adopted@.contains_key(
                    keys@[q],
                ),
            dead@.no_duplicates(),
            forall|i: int|
                0 <= i < dead@.len() ==> among(keys@, k as int, #[trigger] dead@[i])
                    && !alive@.contains(dead@[i]),
            forall|q: int|
                0 <= q < k && !alive@.contains(#[trigger] keys@[q]) ==> dead@.contains(keys@[q]),
            match highest {
                None => k == 0,
                Some(m) => (exists|q: int| 0 <= q < k && #[trigger] keys@[q] == m) && forall|q: int|
                    0 <= q < k ==> #[trigger] keys@[q] <= m,
            },
        decreases keys.len() - k,
    {
        let idx: u32 = keys[k];
        assert(keys@.contains(idx));
        highest = match highest {
            None => Some(idx),
            Some(m) => if idx > m {
                Some(idx)
            } else {
                Some(m)
            },
        };
        let mut lives = false;
        let mut a: usize = 0;
        while a < alive.len() && !lives
            invariant
                a <= alive.len(),
                lives ==> alive@.contains(idx),
                !lives ==> forall|q: int| 0 <= q < a ==> alive@[q] != idx,
            decreases alive.len() - a,
        {
            if alive[a] == idx {
                lives = true;
            }
            a = a + 1;
        }
        assert(lives == alive@.contains(idx));
        let ghost dead0 = dead@;
        if lives {
            if let Some(e) = table.workers.get(&idx) {
                adopted.insert(idx, e.pid);
            }
        } else {
            table.workers.remove(&idx);
            assert(!dead0.contains(idx)) by {
                if dead0.contains(idx) {
                    let i = choose|i: int| 0 <= i < dead0.len() && dead0[i] == idx;
                    assert(dead0[i] == idx);
                }
            }
            dead.push(idx);
            assert(dead@[dead0.len() as int] == idx);
            assert forall|x: u32| dead0.contains(x) implies #[trigger] dead@.contains(x) by {
                let i = choose|i: int| 0 <= i < dead0.len() && dead0[i] == x;
                assert(dead@[i] == x);
            }
            assert(dead@.contains(idx));
            assert forall|i: int| 0 <= i < dead@.len() implies (i < dead0.len() && dead0[i]
                == #[trigger] dead@[i]) || dead@[i] == idx by {}
        }
        proof {
            lemma_among_next(keys@, k as int);
        }
        k = k + 1;
    }
    let next_index: u32 = match highest {
        None => 0,
        Some(m) => if m == u32::MAX {
            0
        } else {
            m + 1
        },
    };
    proof {
        assert forall|x: u32| #[trigger] table.workers@.contains_key(x) == (before.contains_key(x)
            && alive@.contains(x)) by {
            if before.contains_key(x) {
                assert(keys@.contains(x));
            }
        }
        assert forall|x: u32| adopted@.contains_key(x) == #[trigger] table.workers@.contains_key(x) by {
            if before.contains_key(x) {
                assert(keys@.contains(x));
            }
        }
        assert(adopted@.dom() =~= table.workers@.dom());
        assert forall|x: u32| #[trigger] dead@.contains(x) == (before.contains_key(x)
            && !alive@.contains(x)) by {
            if before.contains_key(x) {
                assert(keys@.contains(x));
            }
            if dead@.contains(x) {
                let i = choose|i: int| 0 <= i < dead@.len() && dead@[i] == x;
                assert(dead@[i] == x);
                assert(among(keys@, k as int, dead@[i]));
                assert(keys@.contains(x));
            }
        }
        if keys@.len() == 0 {
            assert(before.dom() =~= Set::<u32>::empty()) by {
                assert forall|x: u32| !before.contains_key(x) by {
                    assert(!keys@.contains(x));
                }
            }
        } else {
            let m = highest->0;
            assert(keys@.contains(m));
            assert(before.dom().contains(m));
            assert forall|x: u32| #[trigger] before.dom().contains(x) implies x <= m by {
                assert(before.contains_key(x));
                assert(keys@.contains(x));
            }
        }
    }
    Recovery { routing: table, adopted, dead, next_index }
}

/// Time passed since `since`; none where `since` lies ahead.
pub open spec fn elapsed(now: u64, since: u64) -> u64 {
    if now >= since {
        (now - since) as u64
    } else {
        0
    }
}

fn time_since(now: u64, since: u64) -> (r: u64)
    ensures
        r == elapsed(now, since),
{
    if now >= since {
        now - since
    } else {
        0
    }
}

/// What the master does about a worker that ended.
#[derive(Debug, Clone, Copy, PartialEq, Eq, Structural)]
pub enum CrashStep {
    /// Start it again after this pause.
    Respawn { attempt: u32, backoff_ms: u64 },
    /// It ends too often: forget it.
    Remove,
}

/// The restarts counted at time `now`: a window that is over counts none.
pub open spec fn restarts_at(rec: Option<(u32, u64)>, now: u64) -> (u32, u64) {
    match rec {
        None => (0, now),
        Some((count, start)) => if elapsed(now, start) > RESTART_WINDOW_NS {
            (0, now)
        } else {
            (count, start)
        },
    }
}

/// What is done about a worker that ends at `now`, and what is then counted.
pub open spec fn crash_effect(rec: Option<(u32, u64)>, now: u64) -> (CrashStep, Option<(u32, u64)>) {
    let (count, start) = restarts_at(rec, now);
    if count >= MAX_RESTARTS_PER_WINDOW {
        (CrashStep::Remove, None)
    } else {
        (
            CrashStep::Respawn {
                attempt: (count + 1) as u32,
                backoff_ms: if count == 0 {
                    100
                } else if count == 1 {
                    200
                } else {
                    400
                },
            },
            Some(((count + 1) as u32, start)),
        )
    }
}

/// The value under a key, if there is one.
pub open spec fn at<V>(m: Map<u32, V>, k: u32) -> Option<V> {
    if m.contains_key(k) {
        Some(m[k])
    } else {
        None
    }
}

/// What to do to stop a worker.
#[derive(Debug, Clone, Copy, PartialEq, Eq, Structural)]
pub enum StopPlan {
    /// Ask the process to end; kill it if it does not and `escalate` is set.
    Terminate { pid: u32, escalate: bool },
    /// There is no process to ask.
    Nothing,
}

/// What to do while a worker is stopping.
#[derive(Debug, Clone, Copy, PartialEq, Eq, Structural)]
pub enum StopPoll {
    Gone,
    WaitMore,
    Kill,
}

/// A process that is still there after the grace period is killed.
pub fn stop_poll(waited_ms: u64, alive: bool) -> (r: StopPoll)
    ensures
        r is Gone <==> !alive,
        r is WaitMore <==> alive && waited_ms < STOP_GRACE_MS,
        r is Kill <==> alive && waited_ms >= STOP_GRACE_MS,
{
    if !alive {
        StopPoll::Gone
    } else if waited_ms < STOP_GRACE_MS {
        StopPoll::WaitMore
    } else {
        StopPoll::Kill
    }
}

impl MasterState {
    /// A worker started by this master has ended.
    pub fn worker_crashed(&mut self, idx: u32, now: u64) -> (r: CrashStep)
        ensures
            r == crash_effect(at(old(self).restarts@, idx), now).0,
            at(final(self).restarts@, idx) == crash_effect(at(old(self).restarts@, idx), now).1,
            forall|k: u32|
                k != idx ==> #[trigger] at(final(self).restarts@, k) == at(old(self).restarts@, k),
            final(self).children@ == old(self).children@.remove(idx),
            final(self).routing.workers@ == if r is Remove {
                old(self).routing.workers@.remove(idx)
            } else {
                old(self).routing.workers@
            },
            final(self).routing.ring_state == old(self).routing.ring_state,
            final(self).config == old(self).config,
            final(self).adopted_pids == old(self).adopted_pids,
            final(self).next_index == old(self).next_index,
            final(self).idle_since == old(self).idle_since,
            final(self).save_fail_count == old(self).save_fail_count,
            final(self).configured_roots == old(self).configured_roots,
            final(self).configured_slugs == old(self).configured_slugs,
    {
        self.children.remove(&idx);
        let rec: Option<(u32, u64)> = match self.restarts.get(&idx) {
            Some(p) => Some((p.0, p.1)),
            None => None,
        };
        let (count, start): (u32, u64) = match rec {
            None => (0, now),
            Some((c, s)) => if time_since(now, s) > RESTART_WINDOW_NS {
                (0, now)
            } else {
                (c, s)
            },
        };
        if count >= MAX_RESTARTS_PER_WINDOW {
            self.restarts.remove(&idx);
            self.routing.workers.remove(&idx);
            return CrashStep::Remove;
        }
        self.restarts.insert(idx, (count + 1, start));
        let backoff_ms: u64 = if count == 0 {
            100
        } else if count == 1 {
            200
        } else {
            400
        };
        CrashStep::Respawn { attempt: count + 1, backoff_ms }
    }

    /// A worker could not be started again: it is forgotten.
    pub fn respawn_failed(&mut self, idx: u32)
        ensures
            final(self).routing.workers@ == old(self).routing.workers@.remove(idx),
            final(self).routing.ring_state == old(self).routing.ring_state,
            final(self).idle_since == old(self).idle_since,
            final(self).next_index == old(self).next_index,
            final(self).same_but_workers(old(self)),
    {
        self.routing.workers.remove(&idx);
    }

    /// A worker found at startup has ended: it is forgotten, then started anew.
    pub fn adopted_died(&mut self, idx: u32)
        ensures
            final(self).adopted_pids@ == old(self).adopted_pids@.remove(idx),
            final(self).routing.workers@ == old(self).routing.workers@.remove(idx),
            final(self).routing.ring_state == old(self).routing.ring_state,
            final(self).children == old(self).children,
            final(self).config == old(self).config,
            final(self).next_index == old(self).next_index,
            final(self).idle_since == old(self).idle_since,
            final(self).restarts == old(self).restarts,
            final(self).save_fail_count == old(self).save_fail_count,
            final(self).configured_roots == old(self).configured_roots,
            final(self).configured_slugs == old(self).configured_slugs,
    {
        self.adopted_pids.remove(&idx);
        self.routing.workers.remove(&idx);
    }

    /// How worker `index` is stopped. Only a worker started by this master is
    /// killed when it does not end in time.
    pub fn stop_plan(&self, index: u32) -> (r: StopPlan)
        ensures
            r == if self.children@.contains_key(index) {
                match self.children@[index] {
                    Some(pid) => StopPlan::Terminate { pid, escalate: true },
                    None => StopPlan::Nothing,
                }
            } else if self.adopted_pids@.contains_key(index) {
                StopPlan::Terminate { pid: self.adopted_pids@[index], escalate: false }
            } else {
                StopPlan::Nothing
            },
    {
        match self.children.get(&index) {
            Some(child) => match child {
                Some(pid) => StopPlan::Terminate { pid: *pid, escalate: true },
                None => StopPlan::Nothing,
            },
            None => match self.adopted_pids.get(&index) {
                Some(pid) => StopPlan::Terminate { pid: *pid, escalate: false },
                None => StopPlan::Nothing,
            },
        }
    }

    /// Worker `index` has been stopped: nothing of it is left, and the ring no
    /// longer holds it.
    pub fn worker_stopped(&mut self, index: u32, ring: SerializableRing)
        ensures
            final(self).children@ == old(self).children@.remove(index),
            final(self).adopted_pids@ == old(self).adopted_pids@.remove(index),
            final(self).routing.workers@ == old(self).routing.workers@.remove(index),
            final(self).routing.ring_state == ring,
            final(self).config == old(self).config,
            final(self).next_index == old(self).next_index,
            final(self).idle_since == old(self).idle_since,
            final(self).restarts == old(self).restarts,
            final(self).save_fail_count == old(self).save_fail_count,
            final(self).configured_roots == old(self).configured_roots,
            final(self).configured_slugs == old(self).configured_slugs,
    {
        self.children.remove(&index);
        self.adopted_pids.remove(&index);
        self.routing.workers.remove(&index);
        self.routing.ring_state = ring;
    }

    /// Worker `k` has had no roots for at least `ttl`.
    pub open spec fn idle_too_long(&self, k: u32, now: u64, ttl: u64) -> bool {
        &&& self.routing.workers@.contains_key(k)
        &&& self.routing.workers@[k].roots@.len() == 0
        &&& elapsed(
            now,
            if self.idle_since@.contains_key(k) {
                self.idle_since@[k]
            } else {
                now
            },
        ) >= ttl
    }

    /// How many workers there are above the number to keep alive.
    pub open spec fn spare_workers(&self) -> nat {
        if self.routing.workers@.len() > self.config.n_min {
            (self.routing.workers@.len() - self.config.n_min) as nat
        } else {
            0
        }
    }

    /// The workers to stop for want of roots: all that have been idle for too
    /// long, or as many of them as can be spared. A worker found without roots
    /// starts its idle time now; one with roots is not idle.
    pub fn idle_workers(&mut self, now: u64, ttl: u64) -> (r: Vec<u32>)
        ensures
            r@.no_duplicates(),
            r@.len() <= old(self).spare_workers(),
            forall|k: u32| #[trigger] r@.contains(k) ==> old(self).idle_too_long(k, now, ttl),
            r@.len() < old(self).spare_workers() ==> forall|k: u32| #[trigger]
                old(self).idle_too_long(k, now, ttl) ==> r@.contains(k),
            final(self).routing == old(self).routing,
            final(self).next_index == old(self).next_index,
            final(self).same_but_workers(old(self)),
            forall|k: u32| #[trigger]
                at(final(self).idle_since@, k) == if !old(self).routing.workers@.contains_key(k) {
                    at(old(self).idle_since@, k)
                } else if old(self).routing.workers@[k].roots@.len() > 0 {
                    None
                } else if old(self).idle_since@.contains_key(k) {
                    at(old(self).idle_since@, k)
                } else {
                    Some(now)
                },
    {
        let ghost idle = self.idle_since@;
        let ghost w = self.routing.workers@;
        let keys = key_list(&self.routing.workers);
        let total: u64 = self.routing.worker_count() as u64;
        let least: u64 = self.config.n_min as u64;
        let spare: u64 = if total > least {
            total - least
        } else {
            0
        };
        let mut r: Vec<u32> = Vec::new();
        let mut k: usize = 0;
        while k < keys.len()
            invariant
                k <= keys.len(),
                keys@.no_duplicates(),
                forall|x: u32| #[trigger] keys@.contains(x) == w.contains_key(x),
                spare == old(self).spare_workers(),
                r@.len() <= spare,
                w == old(self).routing.workers@,
                idle == old(self).idle_since@,
                self.routing == old(self).routing,
                self.next_index == old(self).next_index,
                self.same_but_workers(old(self)),
                r@.no_duplicates(),
                forall|i: int| 0 <= i < r@.len() ==> among(keys@, k as int, #[trigger] r@[i]),
                forall|i: int|
                    0 <= i < r@.len() ==> old(self).idle_too_long(#[trigger] r@[i], now, ttl),
                r@.len() < spare ==> forall|q: int|
                    0 <= q < k && old(self).idle_too_long(#[trigger] keys@[q], now, ttl)
                        ==> r@.contains(keys@[q]),
                forall|x: u32|
                    !w.contains_key(x) ==> #[trigger] at(self.idle_since@, x) == at(idle, x),
                forall|q: int|
                    k <= q < keys@.len() ==> at(self.idle_since@, #[trigger] keys@[q]) == at(
                        idle,
                        keys@[q],
                    ),
                forall|q: int|
                    0 <= q < k ==> at(self.idle_since@, #[trigger] keys@[q]) == if w[keys@[q]].roots@.len()
                        > 0 {
                        None
                    } else if idle.contains_key(keys@[q]) {
                        at(idle, keys@[q])
                    } else {
                        Some(now)
                    },
            decreases keys.len() - k,
        {
            let idx: u32 = keys[k];
            assert(keys@.contains(idx));
            let ghost idle0 = self.idle_since@;
            assert(at(self.idle_since@, keys@[k as int]) == at(idle, idx));
            let ghost r0 = r@;
            assert(!r0.contains(idx)) by {
                if r0.contains(idx) {
                    let i = choose|i: int| 0 <= i < r0.len() && r0[i] == idx;
                    assert(r0[i] == idx);
                }
            }
            if self.routing.entries_for_worker(idx) == 0 {
                let since: u64 = match self.idle_since.get(&idx) {
                    Some(s) => *s,
                    None => now,
                };
                self.idle_since.insert(idx, since);
                if time_since(now, since) >= ttl && (r.len() as u64) < spare {
                    r.push(idx);
                    assert(r@[r0.len() as int] == idx);
                    assert forall|x: u32| r0.contains(x) || x == idx implies #[trigger] r@.contains(x) by {
                        if r0.contains(x) {
                            let i = choose|i: int| 0 <= i < r0.len() && r0[i] == x;
                            assert(r@[i] == x);
                        }
                    }
                    assert forall|i: int| 0 <= i < r@.len() implies (i < r0.len() && r0[i]
                        == #[trigger] r@[i]) || r@[i] == idx by {}
                }
            } else {
                self.idle_since.remove(&idx);
            }
            assert forall|x: u32| x != idx implies #[trigger] at(self.idle_since@, x) == at(
                idle0,
                x,
            ) by {}
            proof {
                lemma_among_next(keys@, k as int);
            }
            k = k + 1;
        }
        proof {
            assert forall|x: u32| #[trigger] r@.contains(x) implies old(self).idle_too_long(
                x,
                now,
                ttl,
            ) by {
                let i = choose|i: int| 0 <= i < r@.len() && r@[i] == x;
                assert(old(self).idle_too_long(r@[i], now, ttl));
            }
            if r@.len() < spare {
                assert forall|x: u32| #[trigger] old(self).idle_too_long(x, now, ttl) implies r@.contains(
                    x,
                ) by {
                    assert(keys@.contains(x));
                    let q = choose|q: int| 0 <= q < keys@.len() && keys@[q] == x;
                    assert(old(self).idle_too_long(keys@[q], now, ttl));
                }
            }
            assert forall|x: u32| #[trigger]
                at(self.idle_since@, x) == (if !w.contains_key(x) {
                    at(idle, x)
                } else if w[x].roots@.len() > 0 {
                    None
                } else if idle.contains_key(x) {
                    at(idle, x)
                } else {
                    Some(now)
                }) by {
                if w.contains_key(x) {
                    assert(keys@.contains(x));
                }
            }
        }
        r
    }

    /// An idle worker has been stopped: its idle time is forgotten.
    pub fn idle_worker_stopped(&mut self, idx: u32)
        ensures
            final(self).idle_since@ == old(self).idle_since@.remove(idx),
            final(self).routing == old(self).routing,
            final(self).next_index == old(self).next_index,
            final(self).same_but_workers(old(self)),
    {
        self.idle_since.remove(&idx);
    }

    /// The process ids of the workers in `kids` where they are known, then those
    /// of the adopted workers in `kept`.
    pub open spec fn ends_all(&self, pids: Seq<u32>, kids: Seq<u32>, kept: Seq<u32>) -> bool {
        &&& crate::master::enumerates(kids, self.children@)
        &&& crate::master::enumerates(kept, self.adopted_pids@)
        &&& pids == known_pids(kids, self.children@) + kept.map_values(
            |k: u32| self.adopted_pids@[k],
        )
    }

    /// The processes to end when the master ends: each worker with a known
    /// process id once, the adopted ones last.
    pub fn shutdown_pids(&self) -> (r: Vec<u32>)
        ensures
            exists|kids: Seq<u32>, kept: Seq<u32>| #[trigger] self.ends_all(r@, kids, kept),
    {
        let mut r: Vec<u32> = Vec::new();
        let kids = key_list(&self.children);
        let mut i: usize = 0;
        assert(kids@.take(0) =~= Seq::empty());
        while i < kids.len()
            invariant
                i <= kids.len(),
                forall|x: u32| #[trigger] kids@.contains(x) == self.children@.contains_key(x),
                r@ == known_pids(kids@.take(i as int), self.children@),
            decreases kids.len() - i,
        {
            assert(kids@.take(i + 1).drop_last() =~= kids@.take(i as int));
            assert(kids@.take(i + 1).last() == kids@[i as int]);
            let idx: u32 = kids[i];
            assert(kids@.contains(idx));
            if let Some(Some(pid)) = self.children.get(&idx) {
                r.push(*pid);
            }
            i = i + 1;
        }
        assert(kids@.take(i as int) =~= kids@);
        let ghost first = r@;
        let kept = key_list(&self.adopted_pids);
        let ghost second = kept@.map_values(|k: u32| self.adopted_pids@[k]);
        let mut a: usize = 0;
        assert(first + second.take(0) =~= first);
        while a < kept.len()
            invariant
                a <= kept.len(),
                forall|x: u32| #[trigger] kept@.contains(x) == self.adopted_pids@.contains_key(x),
                second == kept@.map_values(|k: u32| self.adopted_pids@[k]),
                r@ == first + second.take(a as int),
            decreases kept.len() - a,
        {
            let idx: u32 = kept[a];
            assert(kept@.contains(idx));
            if let Some(pid) = self.adopted_pids.get(&idx) {
                r.push(*pid);
            }
            assert(r@ =~= first + second.take(a + 1));
            a = a + 1;
        }
        assert(second.take(a as int) =~= second);
        assert(self.ends_all(r@, kids@, kept@));
        r
    }
}

/// The process ids of the workers in `keys`, where they are known.
pub open spec fn known_pids(keys: Seq<u32>, children: Map<u32, Option<u32>>) -> Seq<u32>
    decreases keys.len(),
{
    if keys.len() == 0 {
        Seq::empty()
    } else {
        let front = known_pids(keys.drop_last(), children);
        match children[keys.last()] {
            Some(pid) => front.push(pid),
            None => front,
        }
    }
}

/// Stopping idle workers leaves the number to keep alive.
pub proof fn law_stopping_idle_workers_keeps_the_minimum(state: MasterState, stopped: Seq<u32>)
    requires
        state.routing.workers@.dom().finite(),
        stopped.no_duplicates(),
        stopped.len() <= state.spare_workers(),
        forall|k: u32| #[trigger]
            stopped.contains(k) ==> state.routing.workers@.contains_key(k),
    ensures
        stopped.len() > 0 ==> state.routing.workers@.remove_keys(stopped.to_set()).len()
            >= state.config.n_min,
{
    let workers = state.routing.workers@;
    let gone = stopped.to_set();
    stopped.unique_seq_to_set();
    assert(gone.subset_of(workers.dom()));
    assert(workers.remove_keys(gone).dom() =~= workers.dom().difference(gone));
    assert(workers.dom().intersect(gone) =~= gone);
    vstd::set_lib::lemma_set_difference_len(workers.dom(), gone);
}

/// A worker that ends four times within one window is forgotten the fourth
/// time, and started again the three times before.
pub proof fn law_three_restarts_per_window(t1: u64, t2: u64, t3: u64, t4: u64)
    requires
        t1 <= t2 <= t3 <= t4,
        t4 - t1 <= RESTART_WINDOW_NS,
    ensures
        ({
            let (s1, r1) = crash_effect(None, t1);
            let (s2, r2) = crash_effect(r1, t2);
            let (s3, r3) = crash_effect(r2, t3);
            let (s4, r4) = crash_effect(r3, t4);
            &&& s1 == (CrashStep::Respawn { attempt: 1, backoff_ms: 100 })
            &&& s2 == (CrashStep::Respawn { attempt: 2, backoff_ms: 200 })
            &&& s3 == (CrashStep::Respawn { attempt: 3, backoff_ms: 400 })
            &&& s4 is Remove
            &&& r4 is None
        }),
{
}

/// A worker that ends after its window is over is started again, whatever was counted.
pub proof fn law_a_new_window_counts_afresh(count: u32, start: u64, now: u64)
    requires
        elapsed(now, start) > RESTART_WINDOW_NS,
    ensures
        crash_effect(Some((count, start)), now) == (
            CrashStep::Respawn { attempt: 1, backoff_ms: 100 },
            Some((1u32, now)),
        ),
{
}

/// Workers kept at a restart of the master are numbered below every new one,
/// unless the numbers have run out.
pub proof fn law_recovered_indices_are_below_the_next(
    workers: Map<u32, WorkerEntry>,
    kept: Map<u32, WorkerEntry>,
    next: u32,
)
    requires
        is_next_index(workers.dom(), next),
        kept.dom().subset_of(workers.dom()),
        !workers.contains_key(u32::MAX),
    ensures
        crate::master::indices_below(kept, next),
{
    assert forall|k: u32| #[trigger] kept.contains_key(k) implies k < next by {
        assert(kept.dom().contains(k));
        assert(workers.dom().contains(k));
        assert(!workers.dom().contains(u32::MAX));
    }
}

/// Time that has passed is the difference of the two times, and none where the
/// earlier one lies ahead.
pub proof fn law_time_that_has_passed(now: u64, since: u64)
    ensures
        now >= since ==> elapsed(now, since) == now - since,
        now < since ==> elapsed(now, since) == 0,
{
}

/// A worker is started again while fewer than three restarts are counted, or where
/// more than a minute has passed since the first of them; each restart is counted,
/// within the window of the first. Else it is forgotten, and the count with it.
pub proof fn law_when_a_worker_is_started_again(rec: Option<(u32, u64)>, now: u64)
    ensures
        ({
            let (step, counted) = crash_effect(rec, now);
            let (count, start) = rec->0;
            let over = rec is None || (now > start && now - start > 60_000_000_000);
            &&& step is Remove <==> !over && count >= 3
            &&& step is Remove ==> counted is None
            &&& over ==> step == (CrashStep::Respawn { attempt: 1, backoff_ms: 100 }) && counted
                == Some((1u32, now))
            &&& !over && count < 3 ==> counted == Some(((count + 1) as u32, start))
            &&& step matches CrashStep::Respawn { attempt, backoff_ms } ==> {
                &&& counted matches Some(c) && c.0 == attempt
                &&& 1 <= attempt <= 3
                &&& attempt == 1 ==> backoff_ms == 100
                &&& attempt == 2 ==> backoff_ms == 200
                &&& attempt == 3 ==> backoff_ms == 400
            }
        }),
{
}

/// A stopping process is waited for five seconds, then killed if it is still there.
pub proof fn law_how_long_stopping_may_take()
    ensures
        STOP_GRACE_MS == 5000,
        STOP_POLL_MS < STOP_GRACE_MS,
        STOP_POLL_MS > 0,
{
}

/// The next worker gets the number after the largest one that was in use, and the
/// first worker gets zero.
pub proof fn law_the_next_number(seen: Set<u32>, next: u32)
    requires
        is_next_index(seen, next),
        !seen.contains(u32::MAX),
    ensures
        forall|k: u32| #[trigger] seen.contains(k) ==> k < next,
        next == 0 <==> forall|k: u32| !#[trigger] seen.contains(k),
        next > 0 ==> seen.contains((next - 1) as u32),
{
    if seen == Set::<u32>::empty() {
    } else {
        let m = choose|m: u32| #[trigger]
            seen.contains(m) && (forall|k: u32| #[trigger] seen.contains(k) ==> k <= m) && next
                == if m == u32::MAX {
                0
            } else {
                (m + 1) as u32
            };
        assert(seen.contains(m));
    }
}

/// The workers to stop for want of roots serve none and have been without for the
/// limit; there are enough others to keep; and where more could be spared, no
/// worker that has been without roots for the limit is left out.
pub proof fn law_which_idle_workers_stop(state: MasterState, stopped: Seq<u32>, now: u64, ttl: u64)
    requires
        stopped.len() <= state.spare_workers(),
        forall|k: u32| #[trigger] stopped.contains(k) ==> state.idle_too_long(k, now, ttl),
        stopped.len() < state.spare_workers() ==> forall|k: u32| #[trigger]
            state.idle_too_long(k, now, ttl) ==> stopped.contains(k),
    ensures
        forall|k: u32| #[trigger]
            stopped.contains(k) ==> {
                &&& state.routing.workers@.contains_key(k)
                &&& state.routing.workers@[k].roots@.len() == 0
                &&& ttl > 0 ==> state.idle_since@.contains_key(k) && now >= state.idle_since@[k]
                    && now - state.idle_since@[k] >= ttl
            },
        stopped.len() > 0 ==> stopped.len() + state.config.n_min <= state.routing.workers@.len(),
        stopped.len() + state.config.n_min < state.routing.workers@.len() ==> forall|k: u32| #[trigger]
            state.routing.workers@.contains_key(k) && state.routing.workers@[k].roots@.len() == 0
                && state.idle_since@.contains_key(k) && now >= state.idle_since@[k] && now
                - state.idle_since@[k] >= ttl ==> stopped.contains(k),
{
    assert forall|k: u32| #[trigger]
        state.routing.workers@.contains_key(k) && state.routing.workers@[k].roots@.len() == 0
            && state.idle_since@.contains_key(k) && now >= state.idle_since@[k] && now
            - state.idle_since@[k] >= ttl && stopped.len() + state.config.n_min
            < state.routing.workers@.len() implies stopped.contains(k) by {
        assert(state.idle_too_long(k, now, ttl));
    }
}

proof fn lemma_known_pids(keys: Seq<u32>, children: Map<u32, Option<u32>>)
    ensures
        forall|i: int|
            0 <= i < keys.len() && (children[#[trigger] keys[i]] matches Some(pid))
                ==> known_pids(keys, children).contains(children[keys[i]]->0),
        forall|k: int|
            #![trigger known_pids(keys, children)[k]]
            0 <= k < known_pids(keys, children).len() ==> exists|i: int|
                0 <= i < keys.len() && children[#[trigger] keys[i]] == Some(
                    known_pids(keys, children)[k],
                ),
        known_pids(keys, children).len() == keys.filter(|k: u32| children[k] is Some).len(),
    decreases keys.len(),
{
    reveal(Seq::filter);
    if keys.len() > 0 {
        let front = keys.drop_last();
        lemma_known_pids(front, children);
        let before = known_pids(front, children);
        let all = known_pids(keys, children);
        assert forall|i: int|
            0 <= i < keys.len() && (children[#[trigger] keys[i]] matches Some(pid)) implies all.contains(
            children[keys[i]]->0,
        ) by {
            if i < front.len() {
                assert(front[i] == keys[i]);
                assert(before.contains(children[front[i]]->0));
                let k = choose|k: int| 0 <= k < before.len() && before[k] == children[keys[i]]->0;
                assert(all[k] == before[k]);
            } else {
                assert(all[before.len() as int] == children[keys[i]]->0);
            }
        }
        assert forall|k: int| #![trigger all[k]] 0 <= k < all.len() implies exists|i: int|
            0 <= i < keys.len() && children[#[trigger] keys[i]] == Some(all[k]) by {
            if k < before.len() {
                assert(before[k] == all[k]);
                let i = choose|i: int|
                    0 <= i < front.len() && children[#[trigger] front[i]] == Some(before[k]);
                assert(keys[i] == front[i]);
            } else {
                assert(children[keys[keys.len() - 1]] == Some(all[k]));
            }
        }
    }
}

/// When the master ends, it ends no process but those of workers that it started or
/// adopted.
pub proof fn law_no_other_process_is_ended(
    state: MasterState,
    pids: Seq<u32>,
    kids: Seq<u32>,
    kept: Seq<u32>,
    i: int,
)
    requires
        state.ends_all(pids, kids, kept),
        0 <= i < pids.len(),
    ensures
        (exists|k: u32| #[trigger]
            state.children@.contains_key(k) && state.children@[k] is Some && state.children@[k]->0
                == pids[i]) || (exists|k: u32| #[trigger]
            state.adopted_pids@.contains_key(k) && state.adopted_pids@[k] == pids[i]),
{
    let children = state.children@;
    let adopted = state.adopted_pids@;
    lemma_known_pids(kids, children);
    let first = known_pids(kids, children);
    let second = kept.map_values(|k: u32| adopted[k]);
    if i < first.len() {
        assert(pids[i] == first[i]);
        let q = choose|q: int| 0 <= q < kids.len() && children[#[trigger] kids[q]] == Some(first[i]);
        assert(kids.to_set().contains(kids[q]));
        assert(state.children@.contains_key(kids[q]));
    } else {
        let q = i - first.len();
        assert(pids[i] == second[q]);
        assert(kept.to_set().contains(kept[q]));
        assert(state.adopted_pids@.contains_key(kept[q]));
    }
}

/// When the master ends, it ends every process that it knows of: each worker that
/// it started, where the process is known, and each that it adopted; each once.
pub proof fn law_every_known_process_is_ended(
    state: MasterState,
    pids: Seq<u32>,
    kids: Seq<u32>,
    kept: Seq<u32>,
)
    requires
        state.ends_all(pids, kids, kept),
    ensures
        forall|k: u32| #[trigger]
            state.children@.contains_key(k) && state.children@[k] is Some ==> pids.contains(
                state.children@[k]->0,
            ),
        forall|k: u32| #[trigger]
            state.adopted_pids@.contains_key(k) ==> pids.contains(state.adopted_pids@[k]),
        pids.len() == kids.filter(|k: u32| state.children@[k] is Some).len() + kept.len(),
{
    let children = state.children@;
    let adopted = state.adopted_pids@;
    lemma_known_pids(kids, children);
    let first = known_pids(kids, children);
    let second = kept.map_values(|k: u32| adopted[k]);
    assert forall|k: u32| #[trigger] children.contains_key(k) && children[k] is Some implies pids.contains(
        children[k]->0,
    ) by {
        assert(kids.to_set().contains(k));
        let i = choose|i: int| 0 <= i < kids.len() && kids[i] == k;
        assert(children[kids[i]] is Some);
        assert(first.contains(children[k]->0));
        let q = choose|q: int| 0 <= q < first.len() && first[q] == children[k]->0;
        assert(pids[q] == children[k]->0);
    }
    assert forall|k: u32| #[trigger] adopted.contains_key(k) implies pids.contains(adopted[k]) by {
        assert(kept.to_set().contains(k));
        let i = choose|i: int| 0 <= i < kept.len() && kept[i] == k;
        assert(second[i] == adopted[k]);
        assert(pids[first.len() + i] == adopted[k]);
    }
}

/// The number after the largest one there is is zero.
pub proof fn law_numbers_start_again(seen: Set<u32>, next: u32)
    requires
        is_next_index(seen, next),
        seen.contains(u32::MAX),
    ensures
        next == 0,
{
    assert(seen != Set::<u32>::empty());
}

/// What is found under a key is what the map holds there.
pub proof fn law_what_a_map_holds<V>(m: Map<u32, V>, k: u32)
    ensures
        m.contains_key(k) ==> at(m, k) == Some(m[k]),
        !m.contains_key(k) ==> at(m, k) is None,
{
}

} // verus!
