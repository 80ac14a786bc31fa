//! The roots that the master reports, and those that it evicts.

use crate::config::McpConfig;
use crate::disk::CanonicalPaths;
use crate::master::ConfiguredRoot;
use crate::path::same_path;
use crate::protocol::WireRoot;
use crate::text::list_has;
use crate::types::{HealthReport, RootHealth, WorkerHealth};
use vstd::prelude::*;

verus! {

/// A listed root: its name, its canonical path and whether it is the default.
pub type Listed = (Option<Seq<char>>, Seq<char>, bool);

pub open spec fn configured_view(c: ConfiguredRoot) -> Listed {
    (crate::config::text_view(c.name), c.path@, c.default)
}

pub open spec fn configured_views(list: Seq<ConfiguredRoot>) -> Seq<Listed> {
    list.map_values(|c: ConfiguredRoot| configured_view(c))
}

pub open spec fn wire_view(w: WireRoot) -> Listed {
    (crate::config::text_view(w.name), w.base_path@, w.default)
}

pub open spec fn wire_views(list: Seq<WireRoot>) -> Seq<Listed> {
    list.map_values(|w: WireRoot| wire_view(w))
}

/// Some entry stands for this path.
pub open spec fn lists_path(list: Seq<Listed>, path: Seq<char>) -> bool {
    exists|i: int| 0 <= i < list.len() && crate::path::path_eq(#[trigger] list[i].1, path)
}

/// No two entries stand for the same path.
pub open spec fn paths_distinct(list: Seq<Listed>) -> bool {
    forall|i: int, j: int|
        0 <= i < j < list.len() ==> !crate::path::path_eq(
            (#[trigger] list[i]).1,
            (#[trigger] list[j]).1,
        )
}

/// `list`, then an entry for `path` unless it has one.
pub open spec fn listing(list: Seq<Listed>, name: Option<Seq<char>>, path: Seq<char>) -> Seq<Listed> {
    if lists_path(list, path) {
        list
    } else {
        list.push((name, path, false))
    }
}

/// `list`, then every configured root that is not listed yet.
pub open spec fn with_roots(
    list: Seq<Listed>,
    roots: Seq<crate::config::McpRoot>,
    disk: CanonicalPaths,
) -> Seq<Listed>
    decreases roots.len(),
{
    if roots.len() == 0 {
        list
    } else {
        listing(
            with_roots(list, roots.drop_last(), disk),
            crate::config::text_view(roots.last().name),
            disk.canon(roots.last().path@),
        )
    }
}

/// `list`, then every live path that is not listed yet.
pub open spec fn with_live(list: Seq<Listed>, live: Seq<String>, disk: CanonicalPaths) -> Seq<Listed>
    decreases live.len(),
{
    if live.len() == 0 {
        list
    } else {
        listing(with_live(list, live.drop_last(), disk), None, disk.canon(live.last()@))
    }
}

/// The name of the first configured root at `path`.
pub open spec fn name_at(
    roots: Seq<crate::config::McpRoot>,
    path: Seq<char>,
    disk: CanonicalPaths,
) -> Option<Seq<char>>
    decreases roots.len(),
{
    if roots.len() == 0 {
        None
    } else if crate::path::path_eq(disk.canon(roots[0].path@), path) {
        crate::config::text_view(roots[0].name)
    } else {
        name_at(roots.skip(1), path, disk)
    }
}

/// The default root, if there is one, as the first entry of a list.
pub open spec fn default_entry(mcp: McpConfig, disk: CanonicalPaths) -> Seq<Listed> {
    match mcp.selected() {
        Some(p) => seq![(name_at(mcp.roots@, disk.canon(p), disk), disk.canon(p), true)],
        None => Seq::empty(),
    }
}

/// The name of the first configured root at a canonical path.
pub fn find_name(mcp: &McpConfig, path: &str, disk: &CanonicalPaths) -> (r: Option<String>)
    ensures
        crate::config::text_view(r) == name_at(mcp.roots@, path@, *disk),
{
    let mut i: usize = 0;
    assert(mcp.roots@.skip(0) =~= mcp.roots@);
    while i < mcp.roots.len()
        invariant
            i <= mcp.roots.len(),
            name_at(mcp.roots@, path@, *disk) == name_at(mcp.roots@.skip(i as int), path@, *disk),
        decreases mcp.roots.len() - i,
    {
        assert(mcp.roots@.skip(i as int).skip(1) =~= mcp.roots@.skip(i + 1));
        let canon = disk.canonicalize(mcp.roots[i].path.as_str());
        if same_path(canon.as_str(), path) {
            return mcp.roots[i].name.clone();
        }
        i = i + 1;
    }
    None
}

fn is_configured(list: &Vec<ConfiguredRoot>, path: &str) -> (r: bool)
    ensures
        r == lists_path(configured_views(list@), path@),
{
    let ghost views = configured_views(list@);
    let mut i: usize = 0;
    while i < list.len()
        invariant
            i <= list.len(),
            views == configured_views(list@),
            forall|j: int| 0 <= j < i ==> !crate::path::path_eq(#[trigger] views[j].1, path@),
        decreases list.len() - i,
    {
        assert(views[i as int] == configured_view(list@[i as int]));
        if same_path(list[i].path.as_str(), path) {
            assert(crate::path::path_eq(views[i as int].1, path@));
            return true;
        }
        i = i + 1;
    }
    false
}

/// The configured roots: the default first, then the others in order, each
/// canonical path once.
pub fn configured_roots_from_mcp(mcp: &McpConfig, disk: &CanonicalPaths) -> (r: Vec<ConfiguredRoot>)
    ensures
        configured_views(r@) == with_roots(default_entry(*mcp, *disk), mcp.roots@, *disk),
{
    let mut out: Vec<ConfiguredRoot> = Vec::new();
    if let Some(p) = mcp.default_path() {
        let path = disk.canonicalize(p.as_str());
        let name = find_name(mcp, path.as_str(), disk);
        out.push(ConfiguredRoot { name, path, default: true });
    }
    assert(configured_views(out@) =~= default_entry(*mcp, *disk));
    let mut i: usize = 0;
    assert(mcp.roots@.take(0) =~= Seq::empty());
    while i < mcp.roots.len()
        invariant
            i <= mcp.roots.len(),
            configured_views(out@) == with_roots(
                default_entry(*mcp, *disk),
                mcp.roots@.take(i as int),
                *disk,
            ),
        decreases mcp.roots.len() - i,
    {
        assert(mcp.roots@.take(i + 1).drop_last() =~= mcp.roots@.take(i as int));
        assert(mcp.roots@.take(i + 1).last() == mcp.roots@[i as int]);
        let path = disk.canonicalize(mcp.roots[i].path.as_str());
        if !is_configured(&out, path.as_str()) {
            let ghost before = configured_views(out@);
            let entry = ConfiguredRoot { name: mcp.roots[i].name.clone(), path, default: false };
            let ghost v = configured_view(entry);
            out.push(entry);
            assert(configured_views(out@) =~= before.push(v));
        }
        i = i + 1;
    }
    assert(mcp.roots@.take(i as int) =~= mcp.roots@);
    out
}

fn is_listed(list: &Vec<WireRoot>, path: &str) -> (r: bool)
    ensures
        r == lists_path(wire_views(list@), path@),
{
    let ghost views = wire_views(list@);
    let mut i: usize = 0;
    while i < list.len()
        invariant
            i <= list.len(),
            views == wire_views(list@),
            forall|j: int| 0 <= j < i ==> !crate::path::path_eq(#[trigger] views[j].1, path@),
        decreases list.len() - i,
    {
        assert(views[i as int] == wire_view(list@[i as int]));
        if same_path(list[i].base_path.as_str(), path) {
            assert(crate::path::path_eq(views[i as int].1, path@));
            return true;
        }
        i = i + 1;
    }
    false
}

/// The roots to report: the configured ones, then live ones that are not
/// configured, each canonical path once.
pub fn build_list_roots(
    configured: &Vec<ConfiguredRoot>,
    live: &Vec<String>,
    disk: &CanonicalPaths,
) -> (r: Vec<WireRoot>)
    ensures
        wire_views(r@) == with_live(configured_views(configured@), live@, *disk),
{
    let mut out: Vec<WireRoot> = Vec::new();
    let mut i: usize = 0;
    while i < configured.len()
        invariant
            i <= configured.len(),
            wire_views(out@) == configured_views(configured@.take(i as int)),
        decreases configured.len() - i,
    {
        let c = &configured[i];
        let ghost before = wire_views(out@);
        let entry = WireRoot {
            base_path: c.path.clone(),
            name: c.name.clone(),
            default: c.default,
        };
        let ghost v = wire_view(entry);
        out.push(entry);
        assert(wire_views(out@) =~= before.push(v));
        assert(configured_views(configured@.take(i + 1)) =~= configured_views(
            configured@.take(i as int),
        ).push(v));
        i = i + 1;
    }
    assert(configured@.take(i as int) =~= configured@);
    let mut j: usize = 0;
    assert(live@.take(0) =~= Seq::empty());
    while j < live.len()
        invariant
            j <= live.len(),
            wire_views(out@) == with_live(
                configured_views(configured@),
                live@.take(j as int),
                *disk,
            ),
        decreases live.len() - j,
    {
        assert(live@.take(j + 1).drop_last() =~= live@.take(j as int));
        assert(live@.take(j + 1).last() == live@[j as int]);
        let base_path = disk.canonicalize(live[j].as_str());
        if !is_listed(&out, base_path.as_str()) {
            let ghost before = wire_views(out@);
            let entry = WireRoot { base_path, name: None, default: false };
            let ghost v = wire_view(entry);
            out.push(entry);
            assert(wire_views(out@) =~= before.push(v));
        }
        j = j + 1;
    }
    assert(live@.take(j as int) =~= live@);
    out
}

/// An on-demand root that has gone unqueried for the limit. A limit of zero
/// means that no root is too idle.
pub open spec fn idle_expired(root: RootHealth, ttl: u64) -> bool {
    ttl > 0 && (root.last_access_age_sec matches Some(age) && age >= ttl)
}

/// Whether a root is evicted, given whether its path is gone.
pub open spec fn is_victim(
    root: RootHealth,
    configured_slugs: Seq<String>,
    ttl: u64,
    gone: bool,
) -> bool {
    !crate::text::lists(configured_slugs, root.slug@) && (idle_expired(root, ttl) || gone)
}

/// The roots of one worker to evict; `gone[i]` tells whether root `i`'s path is gone.
pub open spec fn victims_of(
    index: u32,
    roots: Seq<RootHealth>,
    gone: Seq<bool>,
    configured_slugs: Seq<String>,
    ttl: u64,
) -> Seq<(u32, String)>
    decreases roots.len(),
{
    if roots.len() == 0 {
        Seq::empty()
    } else {
        let front = victims_of(index, roots.drop_last(), gone, configured_slugs, ttl);
        if is_victim(roots.last(), configured_slugs, ttl, gone[roots.len() - 1]) {
            front.push((index, roots.last().slug))
        } else {
            front
        }
    }
}

/// The roots of all workers to evict, worker by worker.
pub open spec fn victims(
    workers: Seq<WorkerHealth>,
    gone: Seq<Seq<bool>>,
    configured_slugs: Seq<String>,
    ttl: u64,
) -> Seq<(u32, String)>
    decreases workers.len(),
{
    if workers.len() == 0 {
        Seq::empty()
    } else {
        victims(workers.drop_last(), gone, configured_slugs, ttl) + victims_of(
            workers.last().index,
            workers.last().roots@,
            gone[workers.len() - 1],
            configured_slugs,
            ttl,
        )
    }
}

/// `answer` is what the probe can say of a path.
pub open spec fn probe_says<F: Fn(&str) -> bool>(probe: F, path: Seq<char>, answer: bool) -> bool {
    exists|s: &str| s@ == path && #[trigger] call_ensures(probe, (s,), answer)
}

/// `gone` holds an answer of the probe for every root that the probe decides.
pub open spec fn probed_roots<F: Fn(&str) -> bool>(
    probe: F,
    roots: Seq<RootHealth>,
    gone: Seq<bool>,
    configured_slugs: Seq<String>,
    ttl: u64,
) -> bool {
    &&& gone.len() == roots.len()
    &&& forall|i: int|
        0 <= i < roots.len() && !crate::text::lists(
            configured_slugs,
            (#[trigger] roots[i]).slug@,
        ) && !idle_expired(roots[i], ttl) ==> probe_says(probe, roots[i].base_path@, gone[i])
}

/// `gone` holds an answer of the probe for every root of every worker that the
/// probe decides.
pub open spec fn probed<F: Fn(&str) -> bool>(
    probe: F,
    workers: Seq<WorkerHealth>,
    gone: Seq<Seq<bool>>,
    configured_slugs: Seq<String>,
    ttl: u64,
) -> bool {
    &&& gone.len() == workers.len()
    &&& forall|i: int|
        0 <= i < workers.len() ==> probed_roots(
            probe,
            (#[trigger] workers[i]).roots@,
            gone[i],
            configured_slugs,
            ttl,
        )
}

/// The roots to evict. Configured roots never go. Another root goes when it has
/// gone unqueried for the limit, or when `path_gone` says that its path is gone.
pub fn roots_to_evict<F: Fn(&str) -> bool>(
    report: &HealthReport,
    configured_slugs: &Vec<String>,
    idle_ttl_secs: u64,
    path_gone: F,
) -> (r: Vec<(u32, String)>)
    requires
        forall|s: &str| #[trigger] call_requires(path_gone, (s,)),
    ensures
        exists|gone: Seq<Seq<bool>>| #[trigger]
            probed(path_gone, report.workers@, gone, configured_slugs@, idle_ttl_secs) && r@
                == victims(report.workers@, gone, configured_slugs@, idle_ttl_secs),
{
    let mut out: Vec<(u32, String)> = Vec::new();
    let ghost all = report.workers@;
    let ghost slugs = configured_slugs@;
    let ghost mut gone: Seq<Seq<bool>> = Seq::empty();
    let mut w: usize = 0;
    assert(all.take(0) =~= Seq::empty());
    while w < report.workers.len()
        invariant
            w <= report.workers.len(),
            all == report.workers@,
            slugs == configured_slugs@,
            forall|s: &str| #[trigger] call_requires(path_gone, (s,)),
            probed(path_gone, all.take(w as int), gone, slugs, idle_ttl_secs),
            out@ == victims(all.take(w as int), gone, slugs, idle_ttl_secs),
        decreases report.workers.len() - w,
    {
        let worker = &report.workers[w];
        let ghost roots = worker.roots@;
        let ghost start = out@;
        let ghost mut g: Seq<bool> = Seq::empty();
        let mut i: usize = 0;
        assert(roots.take(0) =~= Seq::empty());
        while i < worker.roots.len()
            invariant
                i <= worker.roots.len(),
                roots == worker.roots@,
                slugs == configured_slugs@,
                forall|s: &str| #[trigger] call_requires(path_gone, (s,)),
                probed_roots(path_gone, roots.take(i as int), g, slugs, idle_ttl_secs),
                out@ == start + victims_of(worker.index, roots.take(i as int), g, slugs, idle_ttl_secs),
            decreases worker.roots.len() - i,
        {
            let root = &worker.roots[i];
            let ghost part = roots.take(i as int);
            let ghost next = roots.take(i + 1);
            assert(next.drop_last() =~= part);
            assert(next.last() == *root);
            let exempt = list_has(configured_slugs, root.slug.as_str());
            let expired = idle_ttl_secs > 0 && match root.last_access_age_sec {
                Some(age) => age >= idle_ttl_secs,
                None => false,
            };
            assert(expired == idle_expired(*root, idle_ttl_secs));
            let ghost g0 = g;
            let mut answer = false;
            if !exempt && !expired {
                answer = path_gone(root.base_path.as_str());
                assert(probe_says(path_gone, root.base_path@, answer));
            }
            proof {
                g = g0.push(answer);
                assert(g.take(g0.len() as int) =~= g0);
                lemma_victims_of_prefix(worker.index, part, g0, g, slugs, idle_ttl_secs);
                assert forall|k: int| 0 <= k < next.len() && !crate::text::lists(
                    slugs,
                    (#[trigger] next[k]).slug@,
                ) && !idle_expired(next[k], idle_ttl_secs) implies probe_says(
                    path_gone,
                    next[k].base_path@,
                    g[k],
                ) by {
                    if k < i {
                        assert(part[k] == next[k]);
                        assert(g[k] == g0[k]);
                    }
                }
            }
            if !exempt && (expired || answer) {
                out.push((worker.index, root.slug.clone()));
            }
            assert(out@ =~= start + victims_of(worker.index, next, g, slugs, idle_ttl_secs));
            i = i + 1;
        }
        assert(roots.take(i as int) =~= roots);
        proof {
            let part = all.take(w as int);
            let next = all.take(w + 1);
            assert(next.drop_last() =~= part);
            assert(next.last() == *worker);
            let gone0 = gone;
            gone = gone0.push(g);
            assert(gone.take(gone0.len() as int) =~= gone0);
            lemma_victims_prefix(part, gone0, gone, slugs, idle_ttl_secs);
            assert forall|k: int| 0 <= k < next.len() implies probed_roots(
                path_gone,
                (#[trigger] next[k]).roots@,
                gone[k],
                slugs,
                idle_ttl_secs,
            ) by {
                if k < w {
                    assert(part[k] == next[k]);
                    assert(gone[k] == gone0[k]);
                }
            }
        }
        w = w + 1;
    }
    assert(all.take(w as int) =~= all);
    assert(probed(path_gone, report.workers@, gone, configured_slugs@, idle_ttl_secs));
    out
}

proof fn lemma_victims_of_prefix(
    index: u32,
    roots: Seq<RootHealth>,
    a: Seq<bool>,
    b: Seq<bool>,
    slugs: Seq<String>,
    ttl: u64,
)
    requires
        roots.len() <= a.len() <= b.len(),
        b.take(a.len() as int) == a,
    ensures
        victims_of(index, roots, a, slugs, ttl) == victims_of(index, roots, b, slugs, ttl),
    decreases roots.len(),
{
    if roots.len() > 0 {
        lemma_victims_of_prefix(index, roots.drop_last(), a, b, slugs, ttl);
        assert(b.take(a.len() as int)[roots.len() - 1] == b[roots.len() - 1]);
    }
}

proof fn lemma_victims_prefix(
    workers: Seq<WorkerHealth>,
    a: Seq<Seq<bool>>,
    b: Seq<Seq<bool>>,
    slugs: Seq<String>,
    ttl: u64,
)
    requires
        workers.len() <= a.len() <= b.len(),
        b.take(a.len() as int) == a,
    ensures
        victims(workers, a, slugs, ttl) == victims(workers, b, slugs, ttl),
    decreases workers.len(),
{
    if workers.len() > 0 {
        lemma_victims_prefix(workers.drop_last(), a, b, slugs, ttl);
        assert(b.take(a.len() as int)[workers.len() - 1] == b[workers.len() - 1]);
    }
}

/// What looking at a directory told.
#[derive(Debug, Clone, Copy, PartialEq, Eq, Structural)]
pub enum PathStat {
    Present,
    NotFound,
    /// Could not be looked at; that may pass.
    Unclear,
}

/// A root's path is gone when it is known not to exist, or when it is a git
/// checkout whose working tree no longer resolves.
pub fn root_path_gone(stat: PathStat, git_marker: bool, tree_resolves: bool) -> (r: bool)
    ensures
        r == (stat is NotFound || (stat is Present && git_marker && !tree_resolves)),
{
    match stat {
        PathStat::NotFound => true,
        PathStat::Unclear => false,
        PathStat::Present => git_marker && !tree_resolves,
    }
}

/// Listing a path keeps paths distinct and gives the path an entry.
pub proof fn lemma_listing(list: Seq<Listed>, name: Option<Seq<char>>, path: Seq<char>)
    ensures
        paths_distinct(list) ==> paths_distinct(listing(list, name, path)),
        lists_path(listing(list, name, path), path),
        forall|p: Seq<char>| lists_path(list, p) ==> #[trigger] lists_path(listing(list, name, path), p),
        list.len() <= listing(list, name, path).len(),
        listing(list, name, path).take(list.len() as int) == list,
{
    let after = listing(list, name, path);
    assert(after.take(list.len() as int) =~= list);
    if !lists_path(list, path) {
        assert(after[list.len() as int].1 == path);
        assert(lists_path(after, path));
        if paths_distinct(list) {
            assert forall|i: int, j: int| 0 <= i < j < after.len() implies !crate::path::path_eq(
                (#[trigger] after[i]).1,
                (#[trigger] after[j]).1,
            ) by {
                if j < list.len() {
                    assert(list[i] == after[i] && list[j] == after[j]);
                } else {
                    assert(list[i] == after[i]);
                }
            }
        }
    }
    assert forall|p: Seq<char>| lists_path(list, p) implies #[trigger] lists_path(after, p) by {
        let i = choose|i: int| 0 <= i < list.len() && crate::path::path_eq(#[trigger] list[i].1, p);
        assert(after[i] == list[i]);
    }
}

/// The reported roots start with the configured ones, unchanged; no path is
/// reported twice; and every live path is reported.
pub proof fn law_listed_roots(configured: Seq<Listed>, live: Seq<String>, disk: CanonicalPaths)
    ensures
        with_live(configured, live, disk).len() >= configured.len(),
        with_live(configured, live, disk).take(configured.len() as int) == configured,
        paths_distinct(configured) ==> paths_distinct(with_live(configured, live, disk)),
        forall|i: int|
            0 <= i < live.len() ==> lists_path(
                with_live(configured, live, disk),
                disk.canon((#[trigger] live[i])@),
            ),
    decreases live.len(),
{
    let after = with_live(configured, live, disk);
    if live.len() == 0 {
        assert(after.take(configured.len() as int) =~= configured);
    } else {
        let front = with_live(configured, live.drop_last(), disk);
        law_listed_roots(configured, live.drop_last(), disk);
        lemma_listing(front, None, disk.canon(live.last()@));
        assert(after.take(configured.len() as int) =~= after.take(front.len() as int).take(
            configured.len() as int,
        ));
        assert forall|i: int| 0 <= i < live.len() implies lists_path(
            after,
            disk.canon((#[trigger] live[i])@),
        ) by {
            if i < live.len() - 1 {
                assert(live.drop_last()[i] == live[i]);
            }
        }
    }
}

/// The configured roots have distinct paths, the default comes first and is
/// the only default, and every root of the settings has an entry.
pub proof fn law_configured_roots(mcp: McpConfig, disk: CanonicalPaths)
    ensures
        ({
            let list = with_roots(default_entry(mcp, disk), mcp.roots@, disk);
            &&& paths_distinct(list)
            &&& forall|i: int|
                0 <= i < list.len() ==> ((#[trigger] list[i]).2 <==> i == 0 && mcp.selected() is Some)
            &&& forall|i: int|
                0 <= i < mcp.roots@.len() ==> lists_path(
                    list,
                    disk.canon((#[trigger] mcp.roots@[i]).path@),
                )
        }),
{
    lemma_with_roots(default_entry(mcp, disk), mcp.roots@, disk);
    let start = default_entry(mcp, disk);
    let list = with_roots(start, mcp.roots@, disk);
    assert forall|i: int| 0 <= i < list.len() implies ((#[trigger] list[i]).2 <==> i == 0
        && mcp.selected() is Some) by {
        if i < start.len() {
            assert(list.take(start.len() as int)[i] == list[i]);
        }
    }
}

proof fn lemma_with_roots(
    start: Seq<Listed>,
    roots: Seq<crate::config::McpRoot>,
    disk: CanonicalPaths,
)
    requires
        paths_distinct(start),
    ensures
        ({
            let list = with_roots(start, roots, disk);
            &&& paths_distinct(list)
            &&& list.len() >= start.len()
            &&& list.take(start.len() as int) == start
            &&& forall|i: int| start.len() <= i < list.len() ==> !(#[trigger] list[i]).2
            &&& forall|i: int|
                0 <= i < roots.len() ==> lists_path(list, disk.canon((#[trigger] roots[i]).path@))
        }),
    decreases roots.len(),
{
    let list = with_roots(start, roots, disk);
    if roots.len() == 0 {
        assert(list.take(start.len() as int) =~= start);
    } else {
        let front = with_roots(start, roots.drop_last(), disk);
        lemma_with_roots(start, roots.drop_last(), disk);
        lemma_listing(
            front,
            crate::config::text_view(roots.last().name),
            disk.canon(roots.last().path@),
        );
        assert(list.take(start.len() as int) =~= list.take(front.len() as int).take(
            start.len() as int,
        ));
        assert forall|i: int| start.len() <= i < list.len() implies !(#[trigger] list[i]).2 by {
            if i < front.len() {
                assert(list.take(front.len() as int)[i] == front[i]);
            }
        }
        assert forall|i: int| 0 <= i < roots.len() implies lists_path(
            list,
            disk.canon((#[trigger] roots[i]).path@),
        ) by {
            if i < roots.len() - 1 {
                assert(roots.drop_last()[i] == roots[i]);
            }
        }
    }
}

/// No configured root is ever evicted, and with a limit of zero nothing is
/// evicted but roots whose path is gone.
pub proof fn law_who_is_evicted(root: RootHealth, configured_slugs: Seq<String>, ttl: u64, gone: bool)
    ensures
        crate::text::lists(configured_slugs, root.slug@) ==> !is_victim(
            root,
            configured_slugs,
            ttl,
            gone,
        ),
        ttl == 0 ==> (is_victim(root, configured_slugs, ttl, gone) <==> gone && !crate::text::lists(
            configured_slugs,
            root.slug@,
        )),
        gone && !crate::text::lists(configured_slugs, root.slug@) ==> is_victim(
            root,
            configured_slugs,
            ttl,
            gone,
        ),
{
}

proof fn lemma_victims_of_positions(
    index: u32,
    roots: Seq<RootHealth>,
    gone: Seq<bool>,
    configured_slugs: Seq<String>,
    ttl: u64,
) -> (p: Seq<int>)
    ensures
        p.len() == victims_of(index, roots, gone, configured_slugs, ttl).len(),
        forall|a: int, b: int| 0 <= a < b < p.len() ==> p[a] < p[b],
        forall|k: int|
            0 <= k < p.len() ==> 0 <= #[trigger] p[k] < roots.len() && victims_of(
                index,
                roots,
                gone,
                configured_slugs,
                ttl,
            )[k] == (index, roots[p[k]].slug),
        forall|j: int|
            0 <= j < roots.len() ==> (#[trigger] p.contains(j) <==> is_victim(
                roots[j],
                configured_slugs,
                ttl,
                gone[j],
            )),
    decreases roots.len(),
{
    if roots.len() == 0 {
        Seq::empty()
    } else {
        let front = roots.drop_last();
        let q = lemma_victims_of_positions(index, front, gone, configured_slugs, ttl);
        let last = roots.len() - 1;
        let goes = is_victim(roots.last(), configured_slugs, ttl, gone[last]);
        let p = if goes {
            q.push(last)
        } else {
            q
        };
        assert forall|j: int| 0 <= j < roots.len() implies (#[trigger] p.contains(j)
            <==> is_victim(roots[j], configured_slugs, ttl, gone[j])) by {
            if j < last {
                assert(front[j] == roots[j]);
                assert(q.contains(j) <==> is_victim(front[j], configured_slugs, ttl, gone[j]));
                if q.contains(j) {
                    let k = choose|k: int| 0 <= k < q.len() && q[k] == j;
                    assert(p[k] == j);
                }
                if p.contains(j) {
                    let k = choose|k: int| 0 <= k < p.len() && p[k] == j;
                    assert(q[k] == j);
                }
            } else if goes {
                assert(p[q.len() as int] == j);
            }
        }
        p
    }
}

proof fn lemma_victims_positions(
    workers: Seq<WorkerHealth>,
    gone: Seq<Seq<bool>>,
    configured_slugs: Seq<String>,
    ttl: u64,
) -> (at: Seq<(int, int)>)
    ensures
        at.len() == victims(workers, gone, configured_slugs, ttl).len(),
        forall|a: int, b: int| 0 <= a < b < at.len() ==> at[a] != at[b],
        forall|k: int|
            0 <= k < at.len() ==> {
                let (i, j) = #[trigger] at[k];
                &&& 0 <= i < workers.len()
                &&& 0 <= j < workers[i].roots@.len()
                &&& victims(workers, gone, configured_slugs, ttl)[k] == (
                    workers[i].index,
                    workers[i].roots@[j].slug,
                )
            },
        forall|i: int, j: int|
            0 <= i < workers.len() && 0 <= j < workers[i].roots@.len() ==> (#[trigger] at.contains(
                (i, j),
            ) <==> is_victim(workers[i].roots@[j], configured_slugs, ttl, gone[i][j])),
    decreases workers.len(),
{
    if workers.len() == 0 {
        Seq::empty()
    } else {
        let front = workers.drop_last();
        let last = workers.len() - 1;
        let w = workers.last();
        let before = lemma_victims_positions(front, gone, configured_slugs, ttl);
        let js = lemma_victims_of_positions(
            w.index,
            w.roots@,
            gone[last],
            configured_slugs,
            ttl,
        );
        let at = before + js.map_values(|j: int| (last, j));
        assert forall|a: int, b: int| 0 <= a < b < at.len() implies at[a] != at[b] by {
            if b < before.len() {
                assert(before[a] != before[b]);
            } else if a >= before.len() {
                assert(js[a - before.len()] < js[b - before.len()]);
            } else {
                assert(before[a].0 < last);
            }
        }
        assert forall|k: int| 0 <= k < at.len() implies {
            let (i, j) = #[trigger] at[k];
            &&& 0 <= i < workers.len()
            &&& 0 <= j < workers[i].roots@.len()
            &&& victims(workers, gone, configured_slugs, ttl)[k] == (
                workers[i].index,
                workers[i].roots@[j].slug,
            )
        } by {
            if k < before.len() {
                assert(at[k] == before[k]);
                assert(front[at[k].0] == workers[at[k].0]);
            } else {
                assert(at[k] == (last, js[k - before.len()]));
            }
        }
        assert forall|i: int, j: int|
            0 <= i < workers.len() && 0 <= j < workers[i].roots@.len() implies (
        #[trigger] at.contains((i, j)) <==> is_victim(
            workers[i].roots@[j],
            configured_slugs,
            ttl,
            gone[i][j],
        )) by {
            if i < last {
                assert(front[i] == workers[i]);
                assert(before.contains((i, j)) <==> is_victim(
                    front[i].roots@[j],
                    configured_slugs,
                    ttl,
                    gone[i][j],
                ));
            }
            if at.contains((i, j)) {
                let k = choose|k: int| 0 <= k < at.len() && at[k] == (i, j);
                if k < before.len() {
                    assert(before[k] == (i, j));
                } else {
                    assert(js[k - before.len()] == j);
                    assert(js.contains(j));
                }
            }
            if i < last && before.contains((i, j)) {
                let k = choose|k: int| 0 <= k < before.len() && before[k] == (i, j);
                assert(at[k] == (i, j));
            }
            if i == last && js.contains(j) {
                let k = choose|k: int| 0 <= k < js.len() && js[k] == j;
                assert(at[before.len() + k] == (i, j));
            }
        }
        at
    }
}

/// The roots to evict are those that their own worker reports as not queried for
/// the limit, and those that the probe calls gone, unless they are configured:
/// each reported root once, with the index of the worker that reported it, and
/// nothing else.
pub proof fn law_roots_are_evicted_from_the_worker_that_holds_them<F: Fn(&str) -> bool>(
    path_gone: F,
    workers: Seq<WorkerHealth>,
    configured_slugs: Seq<String>,
    ttl: u64,
    r: Seq<(u32, String)>,
)
    requires
        exists|gone: Seq<Seq<bool>>| #[trigger]
            probed(path_gone, workers, gone, configured_slugs, ttl) && r == victims(
                workers,
                gone,
                configured_slugs,
                ttl,
            ),
    ensures
        exists|at: Seq<(int, int)>|
            #![trigger at.len()]
            {
                &&& at.len() == r.len()
                &&& forall|a: int, b: int| 0 <= a < b < at.len() ==> at[a] != at[b]
                &&& forall|k: int|
                    0 <= k < at.len() ==> {
                        let (i, j) = #[trigger] at[k];
                        &&& 0 <= i < workers.len()
                        &&& 0 <= j < workers[i].roots@.len()
                        &&& r[k].0 == workers[i].index
                        &&& r[k].1@ == workers[i].roots@[j].slug@
                        &&& forall|c: int|
                            0 <= c < configured_slugs.len() ==> (#[trigger] configured_slugs[c])@
                                != r[k].1@
                        &&& (ttl > 0 && (workers[i].roots@[j].last_access_age_sec matches Some(age)
                            && age >= ttl)) || exists|s: &str|
                            s@ == workers[i].roots@[j].base_path@ && #[trigger] call_ensures(
                                path_gone,
                                (s,),
                                true,
                            )
                    }
                &&& forall|i: int, j: int|
                    #![trigger workers[i].roots@[j]]
                    0 <= i < workers.len() && 0 <= j < workers[i].roots@.len() && (forall|c: int|
                        0 <= c < configured_slugs.len() ==> (#[trigger] configured_slugs[c])@
                            != workers[i].roots@[j].slug@) && ((ttl > 0 && (
                    workers[i].roots@[j].last_access_age_sec matches Some(age) && age >= ttl)) || (
                    forall|s: &str|
                        s@ == workers[i].roots@[j].base_path@ ==> !#[trigger] call_ensures(
                            path_gone,
                            (s,),
                            false,
                        ))) ==> at.contains((i, j))
            },
{
    let gone = choose|gone: Seq<Seq<bool>>| #[trigger]
        probed(path_gone, workers, gone, configured_slugs, ttl) && r == victims(
            workers,
            gone,
            configured_slugs,
            ttl,
        );
    let at = lemma_victims_positions(workers, gone, configured_slugs, ttl);
    assert(at.len() == r.len());
    assert forall|k: int| 0 <= k < at.len() implies {
        let (i, j) = #[trigger] at[k];
        &&& 0 <= i < workers.len()
        &&& 0 <= j < workers[i].roots@.len()
        &&& r[k].0 == workers[i].index
        &&& r[k].1@ == workers[i].roots@[j].slug@
        &&& forall|c: int|
            0 <= c < configured_slugs.len() ==> (#[trigger] configured_slugs[c])@ != r[k].1@
        &&& (ttl > 0 && (workers[i].roots@[j].last_access_age_sec matches Some(age) && age >= ttl))
            || exists|s: &str|
            s@ == workers[i].roots@[j].base_path@ && #[trigger] call_ensures(path_gone, (s,), true)
    } by {
        let (i, j) = at[k];
        assert(at.contains((i, j)));
        let root = workers[i].roots@[j];
        assert(is_victim(root, configured_slugs, ttl, gone[i][j]));
        assert(probed_roots(path_gone, workers[i].roots@, gone[i], configured_slugs, ttl));
        if !idle_expired(root, ttl) {
            assert(probe_says(path_gone, root.base_path@, true));
        }
    }
    assert forall|i: int, j: int|
        #![trigger workers[i].roots@[j]]
        0 <= i < workers.len() && 0 <= j < workers[i].roots@.len() && (forall|c: int|
            0 <= c < configured_slugs.len() ==> (#[trigger] configured_slugs[c])@
                != workers[i].roots@[j].slug@) && ((ttl > 0 && (
        workers[i].roots@[j].last_access_age_sec matches Some(age) && age >= ttl)) || (forall|
            s: &str,
        |
            s@ == workers[i].roots@[j].base_path@ ==> !#[trigger] call_ensures(
                path_gone,
                (s,),
                false,
            ))) implies at.contains((i, j)) by {
        let root = workers[i].roots@[j];
        assert(probed_roots(path_gone, workers[i].roots@, gone[i], configured_slugs, ttl));
        if !idle_expired(root, ttl) {
            assert(probe_says(path_gone, root.base_path@, gone[i][j]));
            assert(gone[i][j]);
        }
        assert(is_victim(root, configured_slugs, ttl, gone[i][j]));
    }
}

/// Every entry of the listed roots is a configured root, or stands for a live
/// path, without a name and not the default.
pub proof fn law_nothing_else_is_listed(
    configured: Seq<Listed>,
    live: Seq<String>,
    disk: CanonicalPaths,
)
    ensures
        forall|k: int|
            configured.len() <= k < with_live(configured, live, disk).len() ==> {
                let e = #[trigger] with_live(configured, live, disk)[k];
                &&& e.0 is None
                &&& !e.2
                &&& exists|i: int| 0 <= i < live.len() && e.1 == disk.canon((#[trigger] live[i])@)
            },
    decreases live.len(),
{
    let after = with_live(configured, live, disk);
    if live.len() > 0 {
        let front = with_live(configured, live.drop_last(), disk);
        law_nothing_else_is_listed(configured, live.drop_last(), disk);
        assert forall|k: int| configured.len() <= k < after.len() implies {
            let e = #[trigger] after[k];
            &&& e.0 is None
            &&& !e.2
            &&& exists|i: int| 0 <= i < live.len() && e.1 == disk.canon((#[trigger] live[i])@)
        } by {
            if k < front.len() {
                assert(after[k] == front[k]);
                let i = choose|i: int|
                    0 <= i < live.drop_last().len() && front[k].1 == disk.canon(
                        (#[trigger] live.drop_last()[i])@,
                    );
                assert(live[i] == live.drop_last()[i]);
            } else {
                assert(live[live.len() - 1] == live.last());
            }
        }
    }
}

/// Every configured root that is listed stands at the place of a root of the
/// settings under that root's name, but for the default, which stands first at
/// the place that the settings select.
pub proof fn law_nothing_else_is_configured(mcp: McpConfig, disk: CanonicalPaths)
    ensures
        ({
            let list = with_roots(default_entry(mcp, disk), mcp.roots@, disk);
            &&& mcp.selected() matches Some(p) ==> list.len() > 0 && list[0].1 == disk.canon(p)
                && list[0].2
            &&& forall|k: int|
                0 <= k < list.len() && !(#[trigger] list[k]).2 ==> exists|i: int|
                    0 <= i < mcp.roots@.len() && list[k].1 == disk.canon(
                        (#[trigger] mcp.roots@[i]).path@,
                    ) && list[k].0 == (match mcp.roots@[i].name {
                        Some(n) => Some(n@),
                        None => None,
                    })
        }),
{
    let start = default_entry(mcp, disk);
    let list = with_roots(start, mcp.roots@, disk);
    lemma_with_roots(start, mcp.roots@, disk);
    lemma_only_roots(start, mcp.roots@, disk);
    if mcp.selected() is Some {
        assert(list.take(1)[0] == list[0]);
        assert(list[0] == start[0]);
    }
    assert forall|k: int| 0 <= k < list.len() && !(#[trigger] list[k]).2 implies exists|i: int|
        0 <= i < mcp.roots@.len() && list[k].1 == disk.canon((#[trigger] mcp.roots@[i]).path@)
            && list[k].0 == (match mcp.roots@[i].name {
            Some(n) => Some(n@),
            None => None,
        }) by {
        if k < start.len() {
            assert(list.take(start.len() as int)[k] == list[k]);
        }
    }
}

proof fn lemma_only_roots(
    start: Seq<Listed>,
    roots: Seq<crate::config::McpRoot>,
    disk: CanonicalPaths,
)
    ensures
        with_roots(start, roots, disk).len() >= start.len(),
        forall|k: int|
            start.len() <= k < with_roots(start, roots, disk).len() ==> exists|i: int|
                0 <= i < roots.len() && (#[trigger] with_roots(start, roots, disk)[k]).1
                    == disk.canon((#[trigger] roots[i]).path@) && with_roots(
                    start,
                    roots,
                    disk,
                )[k].0 == (match roots[i].name {
                    Some(n) => Some(n@),
                    None => None,
                }),
    decreases roots.len(),
{
    let list = with_roots(start, roots, disk);
    if roots.len() > 0 {
        let part = roots.drop_last();
        let front = with_roots(start, part, disk);
        lemma_only_roots(start, part, disk);
        assert forall|k: int| start.len() <= k < list.len() implies exists|i: int|
            0 <= i < roots.len() && (#[trigger] list[k]).1 == disk.canon(
                (#[trigger] roots[i]).path@,
            ) && list[k].0 == (match roots[i].name {
                Some(n) => Some(n@),
                None => None,
            }) by {
            if k < front.len() {
                assert(list[k] == front[k]);
                let i = choose|i: int|
                    0 <= i < part.len() && front[k].1 == disk.canon((#[trigger] part[i]).path@)
                        && front[k].0 == (match part[i].name {
                        Some(n) => Some(n@),
                        None => None,
                    });
                assert(roots[i] == part[i]);
            } else {
                assert(roots[roots.len() - 1] == roots.last());
            }
        }
    }
}

/// The name of a path is that of the first configured root at it, if there is one.
pub proof fn law_a_path_is_named_by_the_first_root_at_it(
    roots: Seq<crate::config::McpRoot>,
    path: Seq<char>,
    disk: CanonicalPaths,
    i: int,
)
    ensures
        0 <= i < roots.len() && crate::path::path_eq(disk.canon(roots[i].path@), path) && (forall|
            j: int,
        |
            0 <= j < i ==> !crate::path::path_eq(disk.canon((#[trigger] roots[j]).path@), path))
            ==> name_at(roots, path, disk) == (match roots[i].name {
            Some(n) => Some(n@),
            None => None,
        }),
        (forall|j: int|
            0 <= j < roots.len() ==> !crate::path::path_eq(
                disk.canon((#[trigger] roots[j]).path@),
                path,
            )) ==> name_at(roots, path, disk) is None,
    decreases roots.len(),
{
    if roots.len() > 0 {
        let rest = roots.skip(1);
        law_a_path_is_named_by_the_first_root_at_it(rest, path, disk, i - 1);
        if 0 < i < roots.len() {
            assert(rest[i - 1] == roots[i]);
            if forall|j: int|
                0 <= j < i ==> !crate::path::path_eq(disk.canon((#[trigger] roots[j]).path@), path) {
                assert forall|j: int| 0 <= j < i - 1 implies !crate::path::path_eq(
                    disk.canon((#[trigger] rest[j]).path@),
                    path,
                ) by {
                    assert(rest[j] == roots[j + 1]);
                }
                assert(!crate::path::path_eq(disk.canon(roots[0].path@), path));
            }
        }
        if forall|j: int|
            0 <= j < roots.len() ==> !crate::path::path_eq(
                disk.canon((#[trigger] roots[j]).path@),
                path,
            ) {
            assert forall|j: int| 0 <= j < rest.len() implies !crate::path::path_eq(
                disk.canon((#[trigger] rest[j]).path@),
                path,
            ) by {
                assert(rest[j] == roots[j + 1]);
            }
            assert(!crate::path::path_eq(disk.canon(roots[0].path@), path));
        }
    }
}

/// The reported roots cover every configured and every live place once: no two
/// entries stand for the same place, and each configured root and each live path
/// has one.
pub proof fn law_each_place_is_listed_once(
    configured: Seq<Listed>,
    live: Seq<String>,
    disk: CanonicalPaths,
)
    requires
        forall|i: int, j: int|
            0 <= i < j < configured.len() ==> !crate::path::path_eq(
                (#[trigger] configured[i]).1,
                (#[trigger] configured[j]).1,
            ),
    ensures
        ({
            let list = with_live(configured, live, disk);
            &&& forall|i: int, j: int|
                0 <= i < j < list.len() ==> !crate::path::path_eq(
                    (#[trigger] list[i]).1,
                    (#[trigger] list[j]).1,
                )
            &&& list.len() >= configured.len()
            &&& forall|i: int| 0 <= i < configured.len() ==> #[trigger] list[i] == configured[i]
            &&& forall|i: int|
                0 <= i < live.len() ==> exists|k: int|
                    0 <= k < list.len() && crate::path::path_eq(
                        (#[trigger] list[k]).1,
                        disk.canon((#[trigger] live[i])@),
                    )
        }),
{
    law_listed_roots(configured, live, disk);
    let list = with_live(configured, live, disk);
    assert(paths_distinct(configured));
    assert forall|i: int| 0 <= i < configured.len() implies #[trigger] list[i] == configured[i] by {
        assert(list.take(configured.len() as int)[i] == list[i]);
    }
    assert forall|i: int| 0 <= i < live.len() implies exists|k: int|
        0 <= k < list.len() && crate::path::path_eq(
            (#[trigger] list[k]).1,
            disk.canon((#[trigger] live[i])@),
        ) by {
        assert(lists_path(list, disk.canon(live[i]@)));
    }
}

/// Each root of the settings has exactly one place in the configured roots, and
/// no two entries stand for the same place.
pub proof fn law_each_configured_place_is_listed_once(mcp: McpConfig, disk: CanonicalPaths)
    ensures
        ({
            let list = with_roots(default_entry(mcp, disk), mcp.roots@, disk);
            &&& forall|i: int, j: int|
                0 <= i < j < list.len() ==> !crate::path::path_eq(
                    (#[trigger] list[i]).1,
                    (#[trigger] list[j]).1,
                )
            &&& forall|i: int|
                0 <= i < mcp.roots@.len() ==> exists|k: int|
                    0 <= k < list.len() && crate::path::path_eq(
                        (#[trigger] list[k]).1,
                        disk.canon((#[trigger] mcp.roots@[i]).path@),
                    )
        }),
{
    law_configured_roots(mcp, disk);
    let list = with_roots(default_entry(mcp, disk), mcp.roots@, disk);
    assert forall|i: int| 0 <= i < mcp.roots@.len() implies exists|k: int|
        0 <= k < list.len() && crate::path::path_eq(
            (#[trigger] list[k]).1,
            disk.canon((#[trigger] mcp.roots@[i]).path@),
        ) by {
        assert(lists_path(list, disk.canon(mcp.roots@[i].path@)));
    }
}

/// A reported root tells its name, its path and whether it is the default; so does
/// a configured one.
pub proof fn law_what_a_root_tells(c: ConfiguredRoot, w: WireRoot)
    ensures
        configured_view(c).1 == c.path@,
        configured_view(c).2 == c.default,
        c.name is None ==> configured_view(c).0 is None,
        c.name matches Some(n) ==> configured_view(c).0 == Some(n@),
        wire_view(w).1 == w.base_path@,
        wire_view(w).2 == w.default,
        w.name is None ==> wire_view(w).0 is None,
        w.name matches Some(n) ==> wire_view(w).0 == Some(n@),
{
}

/// The configured roots are reported first, each with its own path, name and
/// default flag; every live path follows, once, where no configured root stands for
/// it.
pub proof fn law_configured_roots_are_reported_as_they_are(
    configured: Seq<ConfiguredRoot>,
    live: Seq<String>,
    disk: CanonicalPaths,
    r: Seq<WireRoot>,
)
    requires
        wire_views(r) == with_live(configured_views(configured), live, disk),
    ensures
        r.len() >= configured.len(),
        forall|i: int|
            0 <= i < configured.len() ==> {
                let a = #[trigger] r[i];
                let b = configured[i];
                &&& a.base_path@ == b.path@
                &&& a.default == b.default
                &&& b.name is None ==> a.name is None
                &&& b.name matches Some(n) ==> (a.name matches Some(m) && m@ == n@)
            },
        forall|i: int|
            configured.len() <= i < r.len() ==> (#[trigger] r[i]).name is None && !r[i].default,
        forall|k: int|
            0 <= k < live.len() ==> exists|i: int|
                0 <= i < r.len() && crate::path::path_eq(
                    (#[trigger] r[i]).base_path@,
                    disk.canon((#[trigger] live[k])@),
                ),
{
    let views = configured_views(configured);
    let list = with_live(views, live, disk);
    law_listed_roots(views, live, disk);
    law_nothing_else_is_listed(views, live, disk);
    assert(wire_views(r).len() == r.len());
    assert(views.len() == configured.len());
    assert forall|i: int| 0 <= i < r.len() implies #[trigger] list[i] == wire_view(r[i]) by {
        assert(wire_views(r)[i] == wire_view(r[i]));
    }
    assert forall|i: int| 0 <= i < configured.len() implies {
        let a = #[trigger] r[i];
        let b = configured[i];
        &&& a.base_path@ == b.path@
        &&& a.default == b.default
        &&& b.name is None ==> a.name is None
        &&& b.name matches Some(n) ==> (a.name matches Some(m) && m@ == n@)
    } by {
        assert(list.take(views.len() as int)[i] == list[i]);
        assert(views[i] == configured_view(configured[i]));
        assert(list[i] == wire_view(r[i]));
    }
    assert forall|i: int| configured.len() <= i < r.len() implies (#[trigger] r[i]).name is None
        && !r[i].default by {
        assert(list[i] == wire_view(r[i]));
    }
    assert forall|k: int| 0 <= k < live.len() implies exists|i: int|
        0 <= i < r.len() && crate::path::path_eq(
            (#[trigger] r[i]).base_path@,
            disk.canon((#[trigger] live[k])@),
        ) by {
        assert(lists_path(list, disk.canon(live[k]@)));
        let i = choose|i: int|
            0 <= i < list.len() && crate::path::path_eq(
                #[trigger] list[i].1,
                disk.canon(live[k]@),
            );
        assert(list[i] == wire_view(r[i]));
        assert(crate::path::path_eq(r[i].base_path@, disk.canon(live[k]@)));
    }
}

} // verus!
