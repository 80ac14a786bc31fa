//! What dead daemons left behind, to be removed.

use crate::ctl::{Daemon, JsonDoc, Line, Report};
use crate::order::pick;
use crate::path::{join, starts_with, stem_with_extension};
use crate::routing::RoutingTable;
use crate::text::{decimal, same};
use crate::text_order::sorted_texts;
use vstd::prelude::*;

verus! {

/// What a lock file holds.
#[derive(Debug)]
pub struct LockInfo {
    pub pid: u32,
    pub alive: bool,
    pub base_path: Option<String>,
}

/// A file in the directory of lock files, with what it holds if it reads as one.
#[derive(Debug)]
pub struct LockFile {
    pub name: String,
    pub lock: Option<LockInfo>,
}

/// What there is to know of a daemon.
pub struct DaemonView {
    pub slug: Seq<char>,
    pub pid: u32,
    pub alive: bool,
    pub base_path: Option<Seq<char>>,
    pub lockfile_path: Seq<char>,
}

pub open spec fn daemon_view(d: Daemon) -> DaemonView {
    DaemonView {
        slug: d.slug@,
        pid: d.pid,
        alive: d.alive,
        base_path: crate::config::text_view(d.base_path),
        lockfile_path: d.lockfile_path@,
    }
}

/// The daemons that lock files in `dir` tell of, in the order of the files.
pub open spec fn told_daemons(dir: Seq<char>, files: Seq<LockFile>) -> Seq<DaemonView>
    decreases files.len(),
{
    if files.len() == 0 {
        Seq::empty()
    } else {
        let rest = told_daemons(dir, files.drop_last());
        let f = files.last();
        if crate::path::name_extension(f.name@) == Some("lock"@) && f.lock is Some {
            rest.push(
                DaemonView {
                    slug: crate::path::name_stem(f.name@),
                    pid: f.lock->0.pid,
                    alive: f.lock->0.alive,
                    base_path: crate::config::text_view(f.lock->0.base_path),
                    lockfile_path: crate::path::joined(dir, f.name@),
                },
            )
        } else {
            rest
        }
    }
}

/// `views` stands in stable ascending order of slug in `sorted`.
pub open spec fn sorted_by_slug(views: Seq<DaemonView>, sorted: Seq<DaemonView>) -> bool {
    exists|keys: Seq<String>, p: Seq<usize>| #[trigger] orders_by(views, keys, p, sorted)
}

/// `p` orders `views` by their slugs, `keys`.
pub open spec fn orders_by(
    views: Seq<DaemonView>,
    keys: Seq<String>,
    p: Seq<usize>,
    sorted: Seq<DaemonView>,
) -> bool {
    &&& keys.len() == views.len()
    &&& forall|i: int| 0 <= i < keys.len() ==> (#[trigger] keys[i])@ == views[i].slug
    &&& crate::text_order::sorts_texts(keys, p, keys.len() as int)
    &&& sorted == crate::order::picked(views, p)
}

/// The single-root daemons that the files of the lock directory tell of, by slug.
pub fn discover_daemons(dir: &str, files: Vec<LockFile>) -> (r: Vec<Daemon>)
    ensures
        sorted_by_slug(told_daemons(dir@, files@), r@.map_values(|d: Daemon| daemon_view(d))),
{
    let mut found: Vec<Daemon> = Vec::new();
    let mut keys: Vec<String> = Vec::new();
    let mut i: usize = 0;
    assert(files@.take(0) =~= Seq::empty());
    while i < files.len()
        invariant
            i <= files@.len(),
            keys@.len() == found@.len(),
            forall|j: int| 0 <= j < keys@.len() ==> (#[trigger] keys@[j])@ == found@[j].slug@,
            found@.map_values(|d: Daemon| daemon_view(d)) == told_daemons(
                dir@,
                files@.take(i as int),
            ),
        decreases files.len() - i,
    {
        assert(files@.take(i + 1).drop_last() =~= files@.take(i as int));
        assert(files@.take(i + 1).last() == files@[i as int]);
        let ghost before = found@;
        let f = &files[i];
        if let Some(lock) = &f.lock {
            if let Some(slug) = stem_with_extension(f.name.as_str(), "lock") {
                let d = Daemon {
                    slug: slug.clone(),
                    pid: lock.pid,
                    alive: lock.alive,
                    base_path: lock.base_path.clone(),
                    lockfile_path: join(dir, f.name.as_str()),
                };
                keys.push(slug);
                found.push(d);
                assert(found@.map_values(|d: Daemon| daemon_view(d)) =~= before.map_values(
                    |d: Daemon| daemon_view(d),
                ).push(daemon_view(d)));
            }
        }
        i = i + 1;
    }
    assert(files@.take(i as int) =~= files@);
    let p = sorted_texts(&keys);
    let ghost views = found@.map_values(|d: Daemon| daemon_view(d));
    let r = pick(found, &p);
    proof {
        let sorted = r@.map_values(|d: Daemon| daemon_view(d));
        assert(sorted =~= crate::order::picked(views, p@));
        assert(orders_by(views, keys@, p@, sorted));
    }
    r
}

/// The slug that a file with extension `ext` is named after.
pub fn owner_slug(name: &str, ext: &str) -> (r: Option<String>)
    ensures
        match r {
            Some(slug) => crate::path::name_extension(name@) == Some(ext@) && slug@
                == crate::path::name_stem(name@),
            None => crate::path::name_extension(name@) != Some(ext@),
        },
{
    stem_with_extension(name, ext)
}

/// A file that is named after a daemon's slug.
#[derive(Debug)]
pub struct OwnedFile {
    pub name: String,
    /// The lock file of the slug names a live process.
    pub owner_alive: bool,
}

/// A directory that holds the access history of a root.
#[derive(Debug)]
pub struct FrecencyDir {
    /// The slug of the root.
    pub name: String,
    /// A daemon, a worker or the settings refer to it.
    pub referenced: bool,
}

/// A lock file, whether its process lives or not, belongs to this slug.
pub open spec fn has_daemon(daemons: Seq<Daemon>, slug: Seq<char>) -> bool {
    exists|i: int| 0 <= i < daemons.len() && (#[trigger] daemons[i]).slug@ == slug
}

/// The history in `dir` under the name of a slug is referred to: by a lock file,
/// by a worker's roots, or by the settings, which name a database of their own.
pub open spec fn is_referenced(
    dir: Seq<char>,
    name: Seq<char>,
    daemons: Seq<Daemon>,
    routing: RoutingTable,
    db: Option<Seq<char>>,
) -> bool {
    ||| has_daemon(daemons, name)
    ||| routing.routes(name)
    ||| db matches Some(p) && crate::path::under(p, crate::path::joined(dir, name))
}

/// The directories of access history in `dir`, each with whether it is referred to.
pub fn frecency_dirs(
    dir: &str,
    names: Vec<String>,
    daemons: &Vec<Daemon>,
    routing: &RoutingTable,
    db: Option<&str>,
) -> (r: Vec<FrecencyDir>)
    ensures
        r@.len() == names@.len(),
        forall|i: int|
            0 <= i < r@.len() ==> {
                &&& (#[trigger] r@[i]).name == names@[i]
                &&& r@[i].referenced == is_referenced(
                    dir@,
                    names@[i]@,
                    daemons@,
                    *routing,
                    crate::config::opt_text(db),
                )
            },
{
    let mut r: Vec<FrecencyDir> = Vec::new();
    let mut i: usize = 0;
    while i < names.len()
        invariant
            i <= names@.len(),
            r@.len() == i,
            forall|j: int|
                0 <= j < i ==> {
                    &&& (#[trigger] r@[j]).name == names@[j]
                    &&& r@[j].referenced == is_referenced(
                        dir@,
                        names@[j]@,
                        daemons@,
                        *routing,
                        crate::config::opt_text(db),
                    )
                },
        decreases names.len() - i,
    {
        let name = names[i].as_str();
        let set = match db {
            Some(p) => starts_with(p, join(dir, name).as_str()),
            None => false,
        };
        let referenced = daemon_listed(daemons, name) || routing.is_routed(name) || set;
        r.push(FrecencyDir { name: names[i].clone(), referenced });
        i = i + 1;
    }
    r
}

fn daemon_listed(daemons: &Vec<Daemon>, slug: &str) -> (r: bool)
    ensures
        r == has_daemon(daemons@, slug@),
{
    let mut i: usize = 0;
    while i < daemons.len()
        invariant
            i <= daemons@.len(),
            forall|j: int| 0 <= j < i ==> (#[trigger] daemons@[j]).slug@ != slug@,
        decreases daemons.len() - i,
    {
        if same(daemons[i].slug.as_str(), slug) {
            return true;
        }
        i = i + 1;
    }
    false
}

/// What there is to clean up.
pub struct CleanScan {
    pub master_alive: bool,
    /// The routing table, the master's socket and its lock file, where they exist.
    pub routing: Option<String>,
    pub master_socket: Option<String>,
    pub master_lock: Option<String>,
    /// The names of the files in the workers' directory.
    pub workers_dir: String,
    pub worker_files: Vec<String>,
    pub daemons: Vec<Daemon>,
    pub socket_dir: String,
    pub sockets: Vec<OwnedFile>,
    pub log_dir: String,
    pub logs: Vec<OwnedFile>,
    pub frecency_dir: String,
    pub frecency: Vec<FrecencyDir>,
}

/// What there is to remove.
#[derive(Clone, Copy, Debug, PartialEq, Eq)]
pub enum ItemKind {
    RoutingTable,
    MasterSocket,
    MasterLock,
    WorkerArtifact,
    StaleLock(u32),
    OrphanSocket,
    OrphanLog,
    UnreferencedFrecency,
}

/// A file or directory to remove.
pub struct CleanItem {
    pub kind: ItemKind,
    pub path: String,
}

/// A file or directory to remove: what it is, and its path.
pub type ItemView = (ItemKind, Seq<char>);

pub open spec fn item_views(items: Seq<CleanItem>) -> Seq<ItemView> {
    items.map_values(|i: CleanItem| (i.kind, i.path@))
}

pub open spec fn existing(kind: ItemKind, path: Option<String>) -> Seq<ItemView> {
    match path {
        Some(p) => seq![(kind, p@)],
        None => Seq::empty(),
    }
}

/// The sockets and lock files of workers.
pub open spec fn worker_artifacts(dir: Seq<char>, names: Seq<String>) -> Seq<ItemView>
    decreases names.len(),
{
    if names.len() == 0 {
        Seq::empty()
    } else {
        let rest = worker_artifacts(dir, names.drop_last());
        let ext = crate::path::name_extension(names.last()@);
        if ext == Some("sock"@) || ext == Some("lock"@) {
            rest.push((ItemKind::WorkerArtifact, crate::path::joined(dir, names.last()@)))
        } else {
            rest
        }
    }
}

/// The files of the master and its workers, unless the master lives.
pub open spec fn master_files(s: CleanScan) -> Seq<ItemView> {
    if s.master_alive {
        Seq::empty()
    } else {
        existing(ItemKind::RoutingTable, s.routing) + existing(
            ItemKind::MasterSocket,
            s.master_socket,
        ) + existing(ItemKind::MasterLock, s.master_lock) + worker_artifacts(
            s.workers_dir@,
            s.worker_files@,
        )
    }
}

/// The lock files of dead daemons.
pub open spec fn stale_locks(daemons: Seq<Daemon>) -> Seq<ItemView>
    decreases daemons.len(),
{
    if daemons.len() == 0 {
        Seq::empty()
    } else {
        let rest = stale_locks(daemons.drop_last());
        let d = daemons.last();
        if d.alive {
            rest
        } else {
            rest.push((ItemKind::StaleLock(d.pid), d.lockfile_path@))
        }
    }
}

/// The files with extension `ext` whose owner is dead.
pub open spec fn orphans(
    kind: ItemKind,
    dir: Seq<char>,
    files: Seq<OwnedFile>,
    ext: Seq<char>,
) -> Seq<ItemView>
    decreases files.len(),
{
    if files.len() == 0 {
        Seq::empty()
    } else {
        let rest = orphans(kind, dir, files.drop_last(), ext);
        let f = files.last();
        if crate::path::name_extension(f.name@) == Some(ext) && !f.owner_alive {
            rest.push((kind, crate::path::joined(dir, f.name@)))
        } else {
            rest
        }
    }
}

pub open spec fn orphan_sockets(s: CleanScan) -> Seq<ItemView> {
    orphans(ItemKind::OrphanSocket, s.socket_dir@, s.sockets@, "sock"@)
}

pub open spec fn orphan_logs(s: CleanScan) -> Seq<ItemView> {
    orphans(ItemKind::OrphanLog, s.log_dir@, s.logs@, "log"@)
}

/// The directories of access history that nothing refers to.
pub open spec fn unreferenced(dir: Seq<char>, dirs: Seq<FrecencyDir>) -> Seq<ItemView>
    decreases dirs.len(),
{
    if dirs.len() == 0 {
        Seq::empty()
    } else {
        let rest = unreferenced(dir, dirs.drop_last());
        let d = dirs.last();
        if d.referenced {
            rest
        } else {
            rest.push((ItemKind::UnreferencedFrecency, crate::path::joined(dir, d.name@)))
        }
    }
}

pub open spec fn unreferenced_dirs(s: CleanScan) -> Seq<ItemView> {
    unreferenced(s.frecency_dir@, s.frecency@)
}

/// The files to remove, in order.
pub open spec fn files_to_remove(s: CleanScan) -> Seq<ItemView> {
    master_files(s) + stale_locks(s.daemons@) + orphan_sockets(s) + orphan_logs(s)
}

/// Everything to remove, in order: files, then directories.
pub open spec fn to_remove(s: CleanScan) -> Seq<ItemView> {
    files_to_remove(s) + unreferenced_dirs(s)
}

/// Why a file or directory may go: what it belongs to is dead, or nothing refers
/// to it.
pub open spec fn is_dead(s: CleanScan, item: ItemView) -> bool {
    match item.0 {
        ItemKind::StaleLock(pid) => exists|i: int|
            0 <= i < s.daemons@.len() && !(#[trigger] s.daemons@[i]).alive && s.daemons@[i].pid
                == pid && s.daemons@[i].lockfile_path@ == item.1,
        ItemKind::OrphanSocket => exists|i: int|
            0 <= i < s.sockets@.len() && !(#[trigger] s.sockets@[i]).owner_alive
                && crate::path::joined(s.socket_dir@, s.sockets@[i].name@) == item.1,
        ItemKind::OrphanLog => exists|i: int|
            0 <= i < s.logs@.len() && !(#[trigger] s.logs@[i]).owner_alive && crate::path::joined(
                s.log_dir@,
                s.logs@[i].name@,
            ) == item.1,
        ItemKind::UnreferencedFrecency => exists|i: int|
            0 <= i < s.frecency@.len() && !(#[trigger] s.frecency@[i]).referenced
                && crate::path::joined(s.frecency_dir@, s.frecency@[i].name@) == item.1,
        _ => !s.master_alive,
    }
}

proof fn lemma_stale(daemons: Seq<Daemon>, k: int)
    requires
        0 <= k < stale_locks(daemons).len(),
    ensures
        stale_locks(daemons)[k].0 is StaleLock,
        exists|i: int|
            0 <= i < daemons.len() && !(#[trigger] daemons[i]).alive && daemons[i].pid
                == stale_locks(daemons)[k].0->StaleLock_0 && daemons[i].lockfile_path@
                == stale_locks(daemons)[k].1,
    decreases daemons.len(),
{
    if k < stale_locks(daemons.drop_last()).len() {
        lemma_stale(daemons.drop_last(), k);
        let i = choose|i: int|
            0 <= i < daemons.drop_last().len() && !(#[trigger] daemons.drop_last()[i]).alive
                && daemons.drop_last()[i].pid == stale_locks(daemons.drop_last())[k].0->StaleLock_0
                && daemons.drop_last()[i].lockfile_path@ == stale_locks(daemons.drop_last())[k].1;
        assert(daemons[i] == daemons.drop_last()[i]);
    } else {
        assert(daemons[daemons.len() - 1] == daemons.last());
    }
}

proof fn lemma_orphan(
    kind: ItemKind,
    dir: Seq<char>,
    files: Seq<OwnedFile>,
    ext: Seq<char>,
    k: int,
)
    requires
        0 <= k < orphans(kind, dir, files, ext).len(),
    ensures
        orphans(kind, dir, files, ext)[k].0 == kind,
        exists|i: int|
            0 <= i < files.len() && !(#[trigger] files[i]).owner_alive && crate::path::joined(
                dir,
                files[i].name@,
            ) == orphans(kind, dir, files, ext)[k].1,
    decreases files.len(),
{
    let rest = orphans(kind, dir, files.drop_last(), ext);
    if k < rest.len() {
        lemma_orphan(kind, dir, files.drop_last(), ext, k);
        let i = choose|i: int|
            0 <= i < files.drop_last().len() && !(#[trigger] files.drop_last()[i]).owner_alive
                && crate::path::joined(dir, files.drop_last()[i].name@) == rest[k].1;
        assert(files[i] == files.drop_last()[i]);
    } else {
        assert(files[files.len() - 1] == files.last());
    }
}

proof fn lemma_unreferenced(dir: Seq<char>, dirs: Seq<FrecencyDir>, k: int)
    requires
        0 <= k < unreferenced(dir, dirs).len(),
    ensures
        unreferenced(dir, dirs)[k].0 is UnreferencedFrecency,
        exists|i: int|
            0 <= i < dirs.len() && !(#[trigger] dirs[i]).referenced && crate::path::joined(
                dir,
                dirs[i].name@,
            ) == unreferenced(dir, dirs)[k].1,
    decreases dirs.len(),
{
    let rest = unreferenced(dir, dirs.drop_last());
    if k < rest.len() {
        lemma_unreferenced(dir, dirs.drop_last(), k);
        let i = choose|i: int|
            0 <= i < dirs.drop_last().len() && !(#[trigger] dirs.drop_last()[i]).referenced
                && crate::path::joined(dir, dirs.drop_last()[i].name@) == rest[k].1;
        assert(dirs[i] == dirs.drop_last()[i]);
    } else {
        assert(dirs[dirs.len() - 1] == dirs.last());
    }
}

proof fn lemma_worker_artifacts(dir: Seq<char>, names: Seq<String>, k: int)
    requires
        0 <= k < worker_artifacts(dir, names).len(),
    ensures
        worker_artifacts(dir, names)[k].0 is WorkerArtifact,
    decreases names.len(),
{
    if k < worker_artifacts(dir, names.drop_last()).len() {
        lemma_worker_artifacts(dir, names.drop_last(), k);
    }
}

/// Cleaning up takes nothing away from a live process: each file that goes
/// belongs to a daemon or a master that is dead, and nothing refers to a
/// directory that goes.
pub proof fn law_cleaning_spares_the_living(s: CleanScan, k: int)
    requires
        0 <= k < to_remove(s).len(),
    ensures
        is_dead(s, to_remove(s)[k]),
{
    let a = master_files(s).len() as int;
    let b = stale_locks(s.daemons@).len() as int;
    let c = orphan_sockets(s).len() as int;
    let d = orphan_logs(s).len() as int;
    if k < a {
        let w = worker_artifacts(s.workers_dir@, s.worker_files@);
        let head = existing(ItemKind::RoutingTable, s.routing) + existing(
            ItemKind::MasterSocket,
            s.master_socket,
        ) + existing(ItemKind::MasterLock, s.master_lock);
        assert(to_remove(s)[k] == (head + w)[k]);
        if k >= head.len() {
            lemma_worker_artifacts(s.workers_dir@, s.worker_files@, k - head.len());
        }
    } else if k < a + b {
        assert(to_remove(s)[k] == stale_locks(s.daemons@)[k - a]);
        lemma_stale(s.daemons@, k - a);
    } else if k < a + b + c {
        assert(to_remove(s)[k] == orphan_sockets(s)[k - a - b]);
        lemma_orphan(ItemKind::OrphanSocket, s.socket_dir@, s.sockets@, "sock"@, k - a - b);
    } else if k < a + b + c + d {
        assert(to_remove(s)[k] == orphan_logs(s)[k - a - b - c]);
        lemma_orphan(ItemKind::OrphanLog, s.log_dir@, s.logs@, "log"@, k - a - b - c);
    } else {
        assert(to_remove(s)[k] == unreferenced_dirs(s)[k - a - b - c - d]);
        lemma_unreferenced(s.frecency_dir@, s.frecency@, k - a - b - c - d);
    }
}

fn push_item(items: &mut Vec<CleanItem>, kind: ItemKind, path: String)
    ensures
        item_views(final(items)@) == item_views(old(items)@).push((kind, path@)),
{
    let ghost before = item_views(items@);
    items.push(CleanItem { kind, path });
    assert(item_views(items@) =~= before.push((kind, path@)));
}

fn push_existing(items: &mut Vec<CleanItem>, kind: ItemKind, path: &Option<String>)
    ensures
        item_views(final(items)@) == item_views(old(items)@) + existing(kind, *path),
{
    let ghost before = item_views(items@);
    if let Some(p) = path {
        push_item(items, kind, p.clone());
    }
    assert(item_views(items@) =~= before + existing(kind, *path));
}

/// The files of the master and its workers that are to go.
pub fn clean_master_artifacts(s: &CleanScan) -> (r: Vec<CleanItem>)
    ensures
        item_views(r@) == master_files(*s),
{
    let mut items: Vec<CleanItem> = Vec::new();
    assert(item_views(items@) =~= Seq::empty());
    if s.master_alive {
        return items;
    }
    push_existing(&mut items, ItemKind::RoutingTable, &s.routing);
    push_existing(&mut items, ItemKind::MasterSocket, &s.master_socket);
    push_existing(&mut items, ItemKind::MasterLock, &s.master_lock);
    let ghost head = item_views(items@);
    let names = &s.worker_files;
    let mut i: usize = 0;
    assert(names@.take(0) =~= Seq::empty());
    assert(head + worker_artifacts(s.workers_dir@, names@.take(0)) =~= head);
    while i < names.len()
        invariant
            i <= names@.len(),
            item_views(items@) == head + worker_artifacts(s.workers_dir@, names@.take(i as int)),
        decreases names.len() - i,
    {
        assert(names@.take(i + 1).drop_last() =~= names@.take(i as int));
        assert(names@.take(i + 1).last() == names@[i as int]);
        let name = names[i].as_str();
        if stem_with_extension(name, "sock").is_some() || stem_with_extension(
            name,
            "lock",
        ).is_some() {
            push_item(&mut items, ItemKind::WorkerArtifact, join(s.workers_dir.as_str(), name));
        }
        assert(item_views(items@) =~= head + worker_artifacts(
            s.workers_dir@,
            names@.take(i + 1),
        ));
        i = i + 1;
    }
    assert(names@.take(i as int) =~= names@);
    assert(item_views(items@) =~= master_files(*s));
    items
}

fn stale_lock_items(daemons: &Vec<Daemon>) -> (r: Vec<CleanItem>)
    ensures
        item_views(r@) == stale_locks(daemons@),
{
    let mut items: Vec<CleanItem> = Vec::new();
    let mut i: usize = 0;
    assert(daemons@.take(0) =~= Seq::empty());
    assert(item_views(items@) =~= Seq::empty());
    while i < daemons.len()
        invariant
            i <= daemons@.len(),
            item_views(items@) == stale_locks(daemons@.take(i as int)),
        decreases daemons.len() - i,
    {
        assert(daemons@.take(i + 1).drop_last() =~= daemons@.take(i as int));
        assert(daemons@.take(i + 1).last() == daemons@[i as int]);
        let d = &daemons[i];
        if !d.alive {
            push_item(&mut items, ItemKind::StaleLock(d.pid), d.lockfile_path.clone());
        }
        i = i + 1;
    }
    assert(daemons@.take(i as int) =~= daemons@);
    items
}

fn orphan_items(kind: ItemKind, dir: &str, files: &Vec<OwnedFile>, ext: &str) -> (r: Vec<
    CleanItem,
>)
    ensures
        item_views(r@) == orphans(kind, dir@, files@, ext@),
{
    let mut items: Vec<CleanItem> = Vec::new();
    let mut i: usize = 0;
    assert(files@.take(0) =~= Seq::empty());
    assert(item_views(items@) =~= Seq::empty());
    while i < files.len()
        invariant
            i <= files@.len(),
            item_views(items@) == orphans(kind, dir@, files@.take(i as int), ext@),
        decreases files.len() - i,
    {
        assert(files@.take(i + 1).drop_last() =~= files@.take(i as int));
        assert(files@.take(i + 1).last() == files@[i as int]);
        let f = &files[i];
        if !f.owner_alive && stem_with_extension(f.name.as_str(), ext).is_some() {
            push_item(&mut items, kind, join(dir, f.name.as_str()));
        }
        i = i + 1;
    }
    assert(files@.take(i as int) =~= files@);
    items
}

fn unreferenced_items(dir: &str, dirs: &Vec<FrecencyDir>) -> (r: Vec<CleanItem>)
    ensures
        item_views(r@) == unreferenced(dir@, dirs@),
{
    let mut items: Vec<CleanItem> = Vec::new();
    let mut i: usize = 0;
    assert(dirs@.take(0) =~= Seq::empty());
    assert(item_views(items@) =~= Seq::empty());
    while i < dirs.len()
        invariant
            i <= dirs@.len(),
            item_views(items@) == unreferenced(dir@, dirs@.take(i as int)),
        decreases dirs.len() - i,
    {
        assert(dirs@.take(i + 1).drop_last() =~= dirs@.take(i as int));
        assert(dirs@.take(i + 1).last() == dirs@[i as int]);
        let d = &dirs[i];
        if !d.referenced {
            push_item(&mut items, ItemKind::UnreferencedFrecency, join(dir, d.name.as_str()));
        }
        i = i + 1;
    }
    assert(dirs@.take(i as int) =~= dirs@);
    items
}

/// What a file or directory to remove is called.
pub open spec fn kind_text(kind: ItemKind) -> Seq<char> {
    match kind {
        ItemKind::RoutingTable => "routing table"@,
        ItemKind::MasterSocket => "master socket"@,
        ItemKind::MasterLock => "master lockfile"@,
        ItemKind::WorkerArtifact => "worker artifact"@,
        ItemKind::StaleLock(_) => "stale lockfile"@,
        ItemKind::OrphanSocket => "orphan socket"@,
        ItemKind::OrphanLog => "orphan log"@,
        ItemKind::UnreferencedFrecency => "unreferenced frecency dir"@,
    }
}

/// What is said of a file or directory to remove.
pub open spec fn item_line(dry_run: bool, item: ItemView) -> Seq<char> {
    let action = if dry_run {
        "would remove"@
    } else {
        "removing"@
    };
    let line = action + " "@ + kind_text(item.0) + ": "@ + item.1;
    match item.0 {
        ItemKind::StaleLock(pid) => line + " (PID "@ + crate::text::decimal_text(pid as nat)
            + " dead)"@,
        _ => line,
    }
}

fn item_text(dry_run: bool, item: &CleanItem) -> (r: String)
    ensures
        r@ == item_line(dry_run, (item.kind, item.path@)),
{
    let action = if dry_run {
        "would remove"
    } else {
        "removing"
    };
    let kind = match item.kind {
        ItemKind::RoutingTable => "routing table",
        ItemKind::MasterSocket => "master socket",
        ItemKind::MasterLock => "master lockfile",
        ItemKind::WorkerArtifact => "worker artifact",
        ItemKind::StaleLock(_) => "stale lockfile",
        ItemKind::OrphanSocket => "orphan socket",
        ItemKind::OrphanLog => "orphan log",
        ItemKind::UnreferencedFrecency => "unreferenced frecency dir",
    };
    let line = String::from_str(action).concat(" ").concat(kind).concat(": ").concat(
        item.path.as_str(),
    );
    match item.kind {
        ItemKind::StaleLock(pid) => line.concat(" (PID ").concat(
            decimal(pid as u64).as_str(),
        ).concat(" dead)"),
        _ => line,
    }
}

/// What is said of files and directories to remove.
pub open spec fn item_lines(dry_run: bool, items: Seq<ItemView>) -> Seq<crate::ctl::LineView> {
    items.map_values(|i: ItemView| (false, item_line(dry_run, i)))
}

/// The paths of files and directories.
pub open spec fn item_paths(items: Seq<ItemView>) -> Seq<Seq<char>> {
    items.map_values(|i: ItemView| i.1)
}

/// The last line of what cleaning up says.
pub open spec fn clean_summary(dry_run: bool, s: CleanScan) -> Seq<char> {
    counts_text(
        dry_run,
        master_files(s).len(),
        stale_locks(s.daemons@).len(),
        orphan_sockets(s).len(),
        orphan_logs(s).len(),
    ) + dirs_summary(unreferenced_dirs(s).len())
}

/// How many files of each kind are removed.
pub open spec fn counts_text(dry_run: bool, master: nat, locks: nat, sockets: nat, logs: nat) -> Seq<
    char,
> {
    (if dry_run {
        "Would remove"@
    } else {
        "Removed"@
    }) + ": "@ + crate::text::decimal_text(master) + " master artifact(s), "@
        + crate::text::decimal_text(locks) + " lockfile(s), "@ + crate::text::decimal_text(sockets)
        + " socket(s), "@ + crate::text::decimal_text(logs) + " log(s)"@
}

/// The part of the last line about directories, where there are any.
pub open spec fn dirs_summary(n: nat) -> Seq<char> {
    if n == 0 {
        Seq::empty()
    } else {
        ", "@ + crate::text::decimal_text(n) + " frecency dir(s)"@
    }
}

fn summary_text(
    dry_run: bool,
    master: usize,
    locks: usize,
    sockets: usize,
    logs: usize,
    dirs: usize,
) -> (r: String)
    ensures
        r@ == counts_text(dry_run, master as nat, locks as nat, sockets as nat, logs as nat)
            + dirs_summary(dirs as nat),
{
    let verb = if dry_run {
        "Would remove"
    } else {
        "Removed"
    };
    let counts = String::from_str(verb).concat(": ").concat(decimal(master as u64).as_str()).concat(
        " master artifact(s), ",
    ).concat(decimal(locks as u64).as_str()).concat(" lockfile(s), ").concat(
        decimal(sockets as u64).as_str(),
    ).concat(" socket(s), ").concat(decimal(logs as u64).as_str()).concat(" log(s)");
    assert(counts@ == counts_text(
        dry_run,
        master as nat,
        locks as nat,
        sockets as nat,
        logs as nat,
    ));
    if dirs == 0 {
        assert(counts@ + dirs_summary(0) =~= counts@);
        return counts;
    }
    let more = String::from_str(", ").concat(decimal(dirs as u64).as_str()).concat(
        " frecency dir(s)",
    );
    assert(more@ == dirs_summary(dirs as nat));
    counts.concat(more.as_str())
}

/// What is said of the master where it lives.
pub open spec fn master_note(s: CleanScan) -> Seq<crate::ctl::LineView> {
    if s.master_alive {
        seq![
            (
                false,
                "Note: master is running; skipping master artifacts (use `fffctl stop --all` first)."@,
            ),
        ]
    } else {
        Seq::empty()
    }
}

/// What to print, and which files and directories to remove.
pub struct CleanPlan {
    pub report: Report,
    pub remove: Vec<String>,
    pub remove_dirs: Vec<String>,
}

pub open spec fn text_views(v: Seq<String>) -> Seq<Seq<char>> {
    v.map_values(|s: String| s@)
}

fn push_items(lines: &mut Vec<Line>, paths: &mut Vec<String>, dry_run: bool, items: &Vec<CleanItem>)
    ensures
        crate::ctl::line_views(final(lines)@) == crate::ctl::line_views(old(lines)@) + item_lines(
            dry_run,
            item_views(items@),
        ),
        text_views(final(paths)@) == text_views(old(paths)@) + item_paths(item_views(items@)),
{
    let ghost views = item_views(items@);
    let ghost l0 = crate::ctl::line_views(lines@);
    let ghost p0 = text_views(paths@);
    let mut i: usize = 0;
    assert(l0 + item_lines(dry_run, views.take(0)) =~= l0);
    assert(p0 + item_paths(views.take(0)) =~= p0);
    while i < items.len()
        invariant
            i <= items@.len(),
            views == item_views(items@),
            crate::ctl::line_views(lines@) == l0 + item_lines(dry_run, views.take(i as int)),
            text_views(paths@) == p0 + item_paths(views.take(i as int)),
        decreases items.len() - i,
    {
        let ghost l1 = crate::ctl::line_views(lines@);
        let ghost p1 = text_views(paths@);
        lines.push(Line::Stdout(item_text(dry_run, &items[i])));
        paths.push(items[i].path.clone());
        assert(crate::ctl::line_views(lines@) =~= l1.push((false, item_line(dry_run, views[i as int]))));
        assert(text_views(paths@) =~= p1.push(views[i as int].1));
        assert(crate::ctl::line_views(lines@) =~= l0 + item_lines(dry_run, views.take(i + 1)));
        assert(text_views(paths@) =~= p0 + item_paths(views.take(i + 1)));
        i = i + 1;
    }
    assert(views.take(i as int) =~= views);
}

fn path_list(items: &Vec<CleanItem>) -> (r: Vec<String>)
    ensures
        text_views(r@) == item_paths(item_views(items@)),
{
    let mut r: Vec<String> = Vec::new();
    let mut i: usize = 0;
    while i < items.len()
        invariant
            i <= items@.len(),
            r@.len() == i,
            forall|j: int| 0 <= j < i ==> (#[trigger] r@[j])@ == items@[j].path@,
        decreases items.len() - i,
    {
        r.push(items[i].path.clone());
        i = i + 1;
    }
    assert(text_views(r@) =~= item_paths(item_views(items@)));
    r
}

/// Plans the removal of what dead daemons and a dead master left behind, and of
/// access histories that nothing refers to. A dry run removes nothing.
pub fn cmd_clean(dry_run: bool, json: bool, s: &CleanScan) -> (r: CleanPlan)
    ensures
        text_views(r.remove@) == if dry_run {
            Seq::<Seq<char>>::empty()
        } else {
            item_paths(files_to_remove(*s))
        },
        text_views(r.remove_dirs@) == if dry_run {
            Seq::<Seq<char>>::empty()
        } else {
            item_paths(unreferenced_dirs(*s))
        },
        if json {
            &&& r.report.lines@.len() == 0
            &&& r.report.exit == 0
            &&& r.report.doc matches Some(JsonDoc::Clean { removed, dry_run: dry }) && text_views(
                removed@,
            ) == item_paths(to_remove(*s)) && dry == dry_run
        } else {
            crate::ctl::says(
                r.report,
                (master_note(*s) + item_lines(dry_run, to_remove(*s))).push(
                    (false, clean_summary(dry_run, *s)),
                ),
                0,
            )
        },
{
    let master = clean_master_artifacts(s);
    let locks = stale_lock_items(&s.daemons);
    let sockets = orphan_items(
        ItemKind::OrphanSocket,
        s.socket_dir.as_str(),
        &s.sockets,
        "sock",
    );
    let logs = orphan_items(ItemKind::OrphanLog, s.log_dir.as_str(), &s.logs, "log");
    let dirs = unreferenced_items(s.frecency_dir.as_str(), &s.frecency);
    let mut lines: Vec<Line> = Vec::new();
    let mut paths: Vec<String> = Vec::new();
    if s.master_alive {
        lines.push(
            Line::Stdout(
                String::from_str(
                    "Note: master is running; skipping master artifacts (use `fffctl stop --all` first).",
                ),
            ),
        );
    }
    assert(crate::ctl::line_views(lines@) =~= master_note(*s));
    assert(text_views(paths@) =~= Seq::empty());
    push_items(&mut lines, &mut paths, dry_run, &master);
    push_items(&mut lines, &mut paths, dry_run, &locks);
    push_items(&mut lines, &mut paths, dry_run, &sockets);
    push_items(&mut lines, &mut paths, dry_run, &logs);
    assert(text_views(paths@) =~= item_paths(files_to_remove(*s)));
    let remove = if dry_run {
        Vec::new()
    } else {
        paths.clone()
    };
    proof {
        if dry_run {
            assert(text_views(remove@) =~= Seq::empty());
        } else {
            assert(text_views(remove@) =~= text_views(paths@));
        }
    }
    let remove_dirs = if dry_run {
        Vec::new()
    } else {
        path_list(&dirs)
    };
    assert(dry_run ==> text_views(remove_dirs@) =~= Seq::empty());
    push_items(&mut lines, &mut paths, dry_run, &dirs);
    assert(crate::ctl::line_views(lines@) =~= master_note(*s) + item_lines(dry_run, to_remove(*s)));
    assert(text_views(paths@) =~= item_paths(to_remove(*s)));
    if json {
        let doc = JsonDoc::Clean { removed: paths, dry_run };
        return CleanPlan { report: crate::ctl::doc_report(doc, 0), remove, remove_dirs };
    }
    let summary = summary_text(
        dry_run,
        master.len(),
        locks.len(),
        sockets.len(),
        logs.len(),
        dirs.len(),
    );
    let ghost before = crate::ctl::line_views(lines@);
    let ghost text = summary@;
    lines.push(Line::Stdout(summary));
    assert(crate::ctl::line_views(lines@) =~= before.push((false, text)));
    assert(text == clean_summary(dry_run, *s));
    CleanPlan { report: Report { lines, doc: None, exit: 0 }, remove, remove_dirs }
}

proof fn lemma_part_of_sum<T>(a: Seq<T>, b: Seq<T>, x: T)
    ensures
        a.contains(x) ==> (a + b).contains(x),
        b.contains(x) ==> (a + b).contains(x),
        (a + b).contains(x) ==> a.contains(x) || b.contains(x),
{
    if a.contains(x) {
        let k = choose|k: int| 0 <= k < a.len() && a[k] == x;
        assert((a + b)[k] == x);
    }
    if b.contains(x) {
        let k = choose|k: int| 0 <= k < b.len() && b[k] == x;
        assert((a + b)[a.len() + k] == x);
    }
    if (a + b).contains(x) {
        let k = choose|k: int| 0 <= k < (a + b).len() && (a + b)[k] == x;
        if k < a.len() {
            assert(a[k] == x);
        } else {
            assert(b[k - a.len()] == x);
        }
    }
}

proof fn lemma_path_of_item(items: Seq<ItemView>, item: ItemView)
    requires
        items.contains(item),
    ensures
        item_paths(items).contains(item.1),
{
    let k = choose|k: int| 0 <= k < items.len() && items[k] == item;
    assert(item_paths(items)[k] == item.1);
}

proof fn lemma_in_files(s: CleanScan, item: ItemView)
    ensures
        master_files(s).contains(item) || stale_locks(s.daemons@).contains(item) || orphan_sockets(
            s,
        ).contains(item) || orphan_logs(s).contains(item) ==> files_to_remove(s).contains(item)
            && item_paths(files_to_remove(s)).contains(item.1),
        files_to_remove(s).contains(item) ==> master_files(s).contains(item) || stale_locks(
            s.daemons@,
        ).contains(item) || orphan_sockets(s).contains(item) || orphan_logs(s).contains(item),
{
    let a = master_files(s);
    let b = stale_locks(s.daemons@);
    let c = orphan_sockets(s);
    let d = orphan_logs(s);
    lemma_part_of_sum(a, b, item);
    lemma_part_of_sum(a + b, c, item);
    lemma_part_of_sum(a + b + c, d, item);
    if files_to_remove(s).contains(item) {
        lemma_path_of_item(files_to_remove(s), item);
    }
}

proof fn lemma_stale_has(daemons: Seq<Daemon>, i: int)
    requires
        0 <= i < daemons.len(),
        !daemons[i].alive,
    ensures
        stale_locks(daemons).contains(
            (ItemKind::StaleLock(daemons[i].pid), daemons[i].lockfile_path@),
        ),
    decreases daemons.len(),
{
    let front = daemons.drop_last();
    let before = stale_locks(front);
    let all = stale_locks(daemons);
    let item = (ItemKind::StaleLock(daemons[i].pid), daemons[i].lockfile_path@);
    if i < front.len() {
        assert(front[i] == daemons[i]);
        lemma_stale_has(front, i);
        let k = choose|k: int| 0 <= k < before.len() && before[k] == item;
        assert(all[k] == item);
    } else {
        assert(all[before.len() as int] == item);
    }
}

proof fn lemma_orphans_has(
    kind: ItemKind,
    dir: Seq<char>,
    files: Seq<OwnedFile>,
    ext: Seq<char>,
    i: int,
)
    requires
        0 <= i < files.len(),
        !files[i].owner_alive,
        crate::path::name_extension(files[i].name@) == Some(ext),
    ensures
        orphans(kind, dir, files, ext).contains((kind, crate::path::joined(dir, files[i].name@))),
    decreases files.len(),
{
    let front = files.drop_last();
    let before = orphans(kind, dir, front, ext);
    let all = orphans(kind, dir, files, ext);
    let item = (kind, crate::path::joined(dir, files[i].name@));
    if i < front.len() {
        assert(front[i] == files[i]);
        lemma_orphans_has(kind, dir, front, ext, i);
        let k = choose|k: int| 0 <= k < before.len() && before[k] == item;
        assert(all[k] == item);
    } else {
        assert(all[before.len() as int] == item);
    }
}

proof fn lemma_unreferenced_has(dir: Seq<char>, dirs: Seq<FrecencyDir>, i: int)
    requires
        0 <= i < dirs.len(),
        !dirs[i].referenced,
    ensures
        unreferenced(dir, dirs).contains(
            (ItemKind::UnreferencedFrecency, crate::path::joined(dir, dirs[i].name@)),
        ),
    decreases dirs.len(),
{
    let front = dirs.drop_last();
    let before = unreferenced(dir, front);
    let all = unreferenced(dir, dirs);
    let item = (ItemKind::UnreferencedFrecency, crate::path::joined(dir, dirs[i].name@));
    if i < front.len() {
        assert(front[i] == dirs[i]);
        lemma_unreferenced_has(dir, front, i);
        let k = choose|k: int| 0 <= k < before.len() && before[k] == item;
        assert(all[k] == item);
    } else {
        assert(all[before.len() as int] == item);
    }
}

proof fn lemma_artifacts_has(dir: Seq<char>, names: Seq<String>, i: int)
    requires
        0 <= i < names.len(),
        crate::path::name_extension(names[i]@) == Some("sock"@) || crate::path::name_extension(
            names[i]@,
        ) == Some("lock"@),
    ensures
        worker_artifacts(dir, names).contains(
            (ItemKind::WorkerArtifact, crate::path::joined(dir, names[i]@)),
        ),
    decreases names.len(),
{
    let front = names.drop_last();
    let before = worker_artifacts(dir, front);
    let all = worker_artifacts(dir, names);
    let item = (ItemKind::WorkerArtifact, crate::path::joined(dir, names[i]@));
    if i < front.len() {
        assert(front[i] == names[i]);
        lemma_artifacts_has(dir, front, i);
        let k = choose|k: int| 0 <= k < before.len() && before[k] == item;
        assert(all[k] == item);
    } else {
        assert(all[before.len() as int] == item);
    }
}

/// What a dead daemon left behind goes: its lock file, its socket and its log; and
/// so does every access history that nothing refers to.
pub proof fn law_what_the_dead_left_goes(s: CleanScan, i: int)
    ensures
        0 <= i < s.daemons@.len() && !s.daemons@[i].alive ==> item_paths(
            files_to_remove(s),
        ).contains(s.daemons@[i].lockfile_path@),
        0 <= i < s.sockets@.len() && !s.sockets@[i].owner_alive && crate::path::name_extension(
            s.sockets@[i].name@,
        ) == Some("sock"@) ==> item_paths(files_to_remove(s)).contains(
            crate::path::joined(s.socket_dir@, s.sockets@[i].name@),
        ),
        0 <= i < s.logs@.len() && !s.logs@[i].owner_alive && crate::path::name_extension(
            s.logs@[i].name@,
        ) == Some("log"@) ==> item_paths(files_to_remove(s)).contains(
            crate::path::joined(s.log_dir@, s.logs@[i].name@),
        ),
        0 <= i < s.frecency@.len() && !s.frecency@[i].referenced ==> item_paths(
            unreferenced_dirs(s),
        ).contains(crate::path::joined(s.frecency_dir@, s.frecency@[i].name@)),
{
    if 0 <= i < s.daemons@.len() && !s.daemons@[i].alive {
        let d = s.daemons@[i];
        lemma_stale_has(s.daemons@, i);
        lemma_in_files(s, (ItemKind::StaleLock(d.pid), d.lockfile_path@));
    }
    if 0 <= i < s.sockets@.len() && !s.sockets@[i].owner_alive && crate::path::name_extension(
        s.sockets@[i].name@,
    ) == Some("sock"@) {
        lemma_orphans_has(ItemKind::OrphanSocket, s.socket_dir@, s.sockets@, "sock"@, i);
        lemma_in_files(
            s,
            (
                ItemKind::OrphanSocket,
                crate::path::joined(s.socket_dir@, s.sockets@[i].name@),
            ),
        );
    }
    if 0 <= i < s.logs@.len() && !s.logs@[i].owner_alive && crate::path::name_extension(
        s.logs@[i].name@,
    ) == Some("log"@) {
        lemma_orphans_has(ItemKind::OrphanLog, s.log_dir@, s.logs@, "log"@, i);
        lemma_in_files(
            s,
            (ItemKind::OrphanLog, crate::path::joined(s.log_dir@, s.logs@[i].name@)),
        );
    }
    if 0 <= i < s.frecency@.len() && !s.frecency@[i].referenced {
        lemma_unreferenced_has(s.frecency_dir@, s.frecency@, i);
        lemma_path_of_item(
            unreferenced_dirs(s),
            (
                ItemKind::UnreferencedFrecency,
                crate::path::joined(s.frecency_dir@, s.frecency@[i].name@),
            ),
        );
    }
}

/// What a dead master left behind goes: its table, its socket, its lock file, and
/// the sockets and lock files of its workers.
pub proof fn law_what_a_dead_master_left_goes(s: CleanScan, i: int)
    requires
        !s.master_alive,
    ensures
        s.routing matches Some(p) ==> item_paths(files_to_remove(s)).contains(p@),
        s.master_socket matches Some(p) ==> item_paths(files_to_remove(s)).contains(p@),
        s.master_lock matches Some(p) ==> item_paths(files_to_remove(s)).contains(p@),
        0 <= i < s.worker_files@.len() && (crate::path::name_extension(s.worker_files@[i]@) == Some(
            "sock"@,
        ) || crate::path::name_extension(s.worker_files@[i]@) == Some("lock"@)) ==> item_paths(
            files_to_remove(s),
        ).contains(crate::path::joined(s.workers_dir@, s.worker_files@[i]@)),
{
    let a = existing(ItemKind::RoutingTable, s.routing);
    let b = existing(ItemKind::MasterSocket, s.master_socket);
    let c = existing(ItemKind::MasterLock, s.master_lock);
    let d = worker_artifacts(s.workers_dir@, s.worker_files@);
    if let Some(p) = s.routing {
        let item = (ItemKind::RoutingTable, p@);
        assert(a[0] == item);
        lemma_part_of_sum(a, b, item);
        lemma_part_of_sum(a + b, c, item);
        lemma_part_of_sum(a + b + c, d, item);
        lemma_in_files(s, item);
    }
    if let Some(p) = s.master_socket {
        let item = (ItemKind::MasterSocket, p@);
        assert(b[0] == item);
        lemma_part_of_sum(a, b, item);
        lemma_part_of_sum(a + b, c, item);
        lemma_part_of_sum(a + b + c, d, item);
        lemma_in_files(s, item);
    }
    if let Some(p) = s.master_lock {
        let item = (ItemKind::MasterLock, p@);
        assert(c[0] == item);
        lemma_part_of_sum(a + b, c, item);
        lemma_part_of_sum(a + b + c, d, item);
        lemma_in_files(s, item);
    }
    if 0 <= i < s.worker_files@.len() && (crate::path::name_extension(s.worker_files@[i]@) == Some(
        "sock"@,
    ) || crate::path::name_extension(s.worker_files@[i]@) == Some("lock"@)) {
        let item = (
            ItemKind::WorkerArtifact,
            crate::path::joined(s.workers_dir@, s.worker_files@[i]@),
        );
        lemma_artifacts_has(s.workers_dir@, s.worker_files@, i);
        lemma_part_of_sum(a + b + c, d, item);
        lemma_in_files(s, item);
    }
}

proof fn lemma_artifact_from(dir: Seq<char>, names: Seq<String>, k: int) -> (i: int)
    requires
        0 <= k < worker_artifacts(dir, names).len(),
    ensures
        0 <= i < names.len(),
        crate::path::name_extension(names[i]@) == Some("sock"@) || crate::path::name_extension(
            names[i]@,
        ) == Some("lock"@),
        worker_artifacts(dir, names)[k].1 == crate::path::joined(dir, names[i]@),
    decreases names.len(),
{
    let front = names.drop_last();
    if k < worker_artifacts(dir, front).len() {
        let i = lemma_artifact_from(dir, front, k);
        assert(front[i] == names[i]);
        i
    } else {
        names.len() - 1
    }
}

proof fn lemma_stale_from(daemons: Seq<Daemon>, k: int) -> (i: int)
    requires
        0 <= k < stale_locks(daemons).len(),
    ensures
        0 <= i < daemons.len(),
        !daemons[i].alive,
        stale_locks(daemons)[k].1 == daemons[i].lockfile_path@,
    decreases daemons.len(),
{
    let front = daemons.drop_last();
    if k < stale_locks(front).len() {
        let i = lemma_stale_from(front, k);
        assert(front[i] == daemons[i]);
        i
    } else {
        daemons.len() - 1
    }
}

proof fn lemma_orphan_from(
    kind: ItemKind,
    dir: Seq<char>,
    files: Seq<OwnedFile>,
    ext: Seq<char>,
    k: int,
) -> (i: int)
    requires
        0 <= k < orphans(kind, dir, files, ext).len(),
    ensures
        0 <= i < files.len(),
        !files[i].owner_alive,
        crate::path::name_extension(files[i].name@) == Some(ext),
        orphans(kind, dir, files, ext)[k].1 == crate::path::joined(dir, files[i].name@),
    decreases files.len(),
{
    let front = files.drop_last();
    if k < orphans(kind, dir, front, ext).len() {
        let i = lemma_orphan_from(kind, dir, front, ext, k);
        assert(front[i] == files[i]);
        i
    } else {
        files.len() - 1
    }
}

proof fn lemma_unreferenced_from(dir: Seq<char>, dirs: Seq<FrecencyDir>, k: int) -> (i: int)
    requires
        0 <= k < unreferenced(dir, dirs).len(),
    ensures
        0 <= i < dirs.len(),
        !dirs[i].referenced,
        unreferenced(dir, dirs)[k].1 == crate::path::joined(dir, dirs[i].name@),
    decreases dirs.len(),
{
    let front = dirs.drop_last();
    if k < unreferenced(dir, front).len() {
        let i = lemma_unreferenced_from(dir, front, k);
        assert(front[i] == dirs[i]);
        i
    } else {
        dirs.len() - 1
    }
}

/// No file goes but those that a dead daemon or a dead master left behind.
pub proof fn law_no_other_file_goes(s: CleanScan, k: int)
    requires
        0 <= k < item_paths(files_to_remove(s)).len(),
    ensures
        ({
            let p = item_paths(files_to_remove(s))[k];
            ||| !s.master_alive && (s.routing matches Some(q) && q@ == p)
            ||| !s.master_alive && (s.master_socket matches Some(q) && q@ == p)
            ||| !s.master_alive && (s.master_lock matches Some(q) && q@ == p)
            ||| !s.master_alive && exists|i: int|
                0 <= i < s.worker_files@.len() && p == crate::path::joined(
                    s.workers_dir@,
                    (#[trigger] s.worker_files@[i])@,
                ) && (crate::path::name_extension(s.worker_files@[i]@) == Some("sock"@)
                    || crate::path::name_extension(s.worker_files@[i]@) == Some("lock"@))
            ||| exists|i: int|
                0 <= i < s.daemons@.len() && !(#[trigger] s.daemons@[i]).alive
                    && s.daemons@[i].lockfile_path@ == p
            ||| exists|i: int|
                0 <= i < s.sockets@.len() && !(#[trigger] s.sockets@[i]).owner_alive
                    && crate::path::name_extension(s.sockets@[i].name@) == Some("sock"@) && p
                    == crate::path::joined(s.socket_dir@, s.sockets@[i].name@)
            ||| exists|i: int|
                0 <= i < s.logs@.len() && !(#[trigger] s.logs@[i]).owner_alive
                    && crate::path::name_extension(s.logs@[i].name@) == Some("log"@) && p
                    == crate::path::joined(s.log_dir@, s.logs@[i].name@)
        }),
{
    let item = files_to_remove(s)[k];
    assert(files_to_remove(s).contains(item));
    lemma_in_files(s, item);
    let d = worker_artifacts(s.workers_dir@, s.worker_files@);
    if master_files(s).contains(item) {
        let a = existing(ItemKind::RoutingTable, s.routing);
        let b = existing(ItemKind::MasterSocket, s.master_socket);
        let c = existing(ItemKind::MasterLock, s.master_lock);
        lemma_part_of_sum(a + b + c, d, item);
        lemma_part_of_sum(a + b, c, item);
        lemma_part_of_sum(a, b, item);
        if d.contains(item) {
            let q = choose|q: int| 0 <= q < d.len() && d[q] == item;
            let i = lemma_artifact_from(s.workers_dir@, s.worker_files@, q);
            assert(item.1 == crate::path::joined(s.workers_dir@, s.worker_files@[i]@));
        }
    } else if stale_locks(s.daemons@).contains(item) {
        let all = stale_locks(s.daemons@);
        let q = choose|q: int| 0 <= q < all.len() && all[q] == item;
        let i = lemma_stale_from(s.daemons@, q);
        assert(!s.daemons@[i].alive);
    } else if orphan_sockets(s).contains(item) {
        let all = orphan_sockets(s);
        let q = choose|q: int| 0 <= q < all.len() && all[q] == item;
        let i = lemma_orphan_from(
            ItemKind::OrphanSocket,
            s.socket_dir@,
            s.sockets@,
            "sock"@,
            q,
        );
        assert(!s.sockets@[i].owner_alive);
    } else {
        let all = orphan_logs(s);
        let q = choose|q: int| 0 <= q < all.len() && all[q] == item;
        let i = lemma_orphan_from(ItemKind::OrphanLog, s.log_dir@, s.logs@, "log"@, q);
        assert(!s.logs@[i].owner_alive);
    }
}

/// No directory goes but those of access histories that nothing refers to.
pub proof fn law_no_other_directory_goes(s: CleanScan, k: int)
    requires
        0 <= k < item_paths(unreferenced_dirs(s)).len(),
    ensures
        exists|i: int|
            0 <= i < s.frecency@.len() && !(#[trigger] s.frecency@[i]).referenced && item_paths(
                unreferenced_dirs(s),
            )[k] == crate::path::joined(s.frecency_dir@, s.frecency@[i].name@),
{
    let i = lemma_unreferenced_from(s.frecency_dir@, s.frecency@, k);
    assert(!s.frecency@[i].referenced);
}

proof fn lemma_counts(daemons: Seq<Daemon>, dirs: Seq<FrecencyDir>, dir: Seq<char>)
    ensures
        stale_locks(daemons).len() == daemons.filter(|d: Daemon| !d.alive).len(),
        unreferenced(dir, dirs).len() == dirs.filter(|d: FrecencyDir| !d.referenced).len(),
    decreases daemons.len() + dirs.len(),
{
    reveal(Seq::filter);
    if daemons.len() > 0 {
        lemma_counts(daemons.drop_last(), dirs, dir);
    } else if dirs.len() > 0 {
        lemma_counts(daemons, dirs.drop_last(), dir);
    }
}

proof fn lemma_orphan_count(
    kind: ItemKind,
    dir: Seq<char>,
    files: Seq<OwnedFile>,
    ext: Seq<char>,
)
    ensures
        orphans(kind, dir, files, ext).len() == files.filter(
            |f: OwnedFile| !f.owner_alive && crate::path::name_extension(f.name@) == Some(ext),
        ).len(),
    decreases files.len(),
{
    reveal(Seq::filter);
    if files.len() > 0 {
        lemma_orphan_count(kind, dir, files.drop_last(), ext);
    }
}

/// Each thing that goes is counted and goes once: as many lock files as daemons are
/// dead, as many sockets and logs as have a dead owner, and as many directories as
/// nothing refers to.
pub proof fn law_each_thing_goes_once(s: CleanScan)
    ensures
        stale_locks(s.daemons@).len() == s.daemons@.filter(|d: Daemon| !d.alive).len(),
        unreferenced_dirs(s).len() == s.frecency@.filter(|d: FrecencyDir| !d.referenced).len(),
        orphan_sockets(s).len() == s.sockets@.filter(
            |f: OwnedFile| !f.owner_alive && crate::path::name_extension(f.name@) == Some("sock"@),
        ).len(),
        orphan_logs(s).len() == s.logs@.filter(
            |f: OwnedFile| !f.owner_alive && crate::path::name_extension(f.name@) == Some("log"@),
        ).len(),
        s.master_alive ==> master_files(s).len() == 0,
        files_to_remove(s).len() == master_files(s).len() + stale_locks(s.daemons@).len()
            + orphan_sockets(s).len() + orphan_logs(s).len(),
{
    lemma_counts(s.daemons@, s.frecency@, s.frecency_dir@);
    lemma_orphan_count(ItemKind::OrphanSocket, s.socket_dir@, s.sockets@, "sock"@);
    lemma_orphan_count(ItemKind::OrphanLog, s.log_dir@, s.logs@, "log"@);
}

/// An access history is referred to exactly where a lock file or a worker's root
/// has its slug, or the configured database lies in it.
pub proof fn law_what_refers_to_a_history(
    dir: Seq<char>,
    name: Seq<char>,
    daemons: Seq<Daemon>,
    routing: RoutingTable,
    db: Option<Seq<char>>,
)
    ensures
        is_referenced(dir, name, daemons, routing, db) <==> {
            ||| exists|i: int| 0 <= i < daemons.len() && (#[trigger] daemons[i]).slug@ == name
            ||| exists|w: u32, j: int|
                #![trigger routing.workers@[w].roots@[j]]
                routing.workers@.contains_key(w) && 0 <= j < routing.workers@[w].roots@.len()
                    && routing.workers@[w].roots@[j].slug@ == name
            ||| db matches Some(p) && crate::path::under(p, crate::path::joined(dir, name))
        },
{
    crate::routing::law_what_is_routed(routing, name);
}

proof fn lemma_told_has(dir: Seq<char>, files: Seq<LockFile>, i: int) -> (k: int)
    requires
        0 <= i < files.len(),
        crate::path::name_extension(files[i].name@) == Some("lock"@),
        files[i].lock is Some,
    ensures
        0 <= k < told_daemons(dir, files).len(),
        told_daemons(dir, files)[k].slug == crate::path::name_stem(files[i].name@),
        told_daemons(dir, files)[k].pid == files[i].lock->0.pid,
        told_daemons(dir, files)[k].alive == files[i].lock->0.alive,
        told_daemons(dir, files)[k].base_path == (match files[i].lock->0.base_path {
            Some(p) => Some(p@),
            None => None,
        }),
        told_daemons(dir, files)[k].lockfile_path == crate::path::joined(dir, files[i].name@),
    decreases files.len(),
{
    let front = files.drop_last();
    let before = told_daemons(dir, front);
    let all = told_daemons(dir, files);
    if i < front.len() {
        assert(front[i] == files[i]);
        let k = lemma_told_has(dir, front, i);
        assert(all[k] == before[k]);
        k
    } else {
        before.len() as int
    }
}

proof fn lemma_told_count(dir: Seq<char>, files: Seq<LockFile>)
    ensures
        told_daemons(dir, files).len() == files.filter(
            |f: LockFile|
                f.lock is Some && crate::path::name_extension(f.name@) == Some("lock"@),
        ).len(),
    decreases files.len(),
{
    reveal(Seq::filter);
    if files.len() > 0 {
        lemma_told_count(dir, files.drop_last());
    }
}

/// Every lock file that reads as one tells of a daemon, under the name of the file
/// and with what the file holds; nothing else does; and the daemons come by
/// ascending slug.
pub proof fn law_every_lock_file_tells_of_a_daemon(
    dir: Seq<char>,
    files: Seq<LockFile>,
    sorted: Seq<DaemonView>,
    i: int,
)
    requires
        sorted_by_slug(told_daemons(dir, files), sorted),
    ensures
        sorted.len() == files.filter(
            |f: LockFile|
                f.lock is Some && crate::path::name_extension(f.name@) == Some("lock"@),
        ).len(),
        forall|a: int, b: int|
            0 <= a < b < sorted.len() ==> !crate::text_order::text_less(
                (#[trigger] sorted[b]).slug,
                (#[trigger] sorted[a]).slug,
            ),
        0 <= i < files.len() && crate::path::name_extension(files[i].name@) == Some("lock"@) && (
        files[i].lock matches Some(lock)) ==> exists|k: int|
            {
                &&& 0 <= k < sorted.len()
                &&& (#[trigger] sorted[k]).slug == crate::path::name_stem(files[i].name@)
                &&& sorted[k].pid == files[i].lock->0.pid
                &&& sorted[k].alive == files[i].lock->0.alive
                &&& sorted[k].lockfile_path == crate::path::joined(dir, files[i].name@)
                &&& files[i].lock->0.base_path is None ==> sorted[k].base_path is None
                &&& files[i].lock->0.base_path matches Some(p) ==> sorted[k].base_path == Some(p@)
            },
{
    let views = told_daemons(dir, files);
    lemma_told_count(dir, files);
    let (keys, p) = choose|keys: Seq<String>, p: Seq<usize>| #[trigger]
        orders_by(views, keys, p, sorted);
    assert forall|a: int, b: int| 0 <= a < b < sorted.len() implies !crate::text_order::text_less(
        (#[trigger] sorted[b]).slug,
        (#[trigger] sorted[a]).slug,
    ) by {
        assert(crate::text_order::text_precedes(keys, p[a] as int, p[b] as int));
        let x = p[a] as int;
        let y = p[b] as int;
        assert(p[a] < keys.len() && p[b] < keys.len());
        assert(keys[x]@ == views[x].slug && keys[y]@ == views[y].slug);
        crate::text_order::law_text_order_is_total(views[x].slug, views[y].slug);
    }
    if 0 <= i < files.len() && crate::path::name_extension(files[i].name@) == Some("lock"@)
        && files[i].lock is Some {
        let at = lemma_told_has(dir, files, i);
        lemma_positions_complete(p, views.len() as int, at);
        let k = choose|k: int| 0 <= k < p.len() && #[trigger] p[k] == at;
        assert(sorted[k] == views[at]);
    }
}

proof fn lemma_positions_complete(p: Seq<usize>, n: int, at: int)
    requires
        p.len() == n,
        crate::order::distinct_positions(p, n),
        0 <= at < n,
    ensures
        exists|k: int| 0 <= k < p.len() && #[trigger] p[k] == at,
{
    let ints = p.map_values(|x: usize| x as int);
    assert forall|i: int, j: int| 0 <= i < ints.len() && 0 <= j < ints.len() && i != j implies ints[i]
        != ints[j] by {
        if i < j {
            assert(p[i] != p[j]);
        } else {
            assert(p[j] != p[i]);
        }
    }
    ints.unique_seq_to_set();
    let range = vstd::set_lib::set_int_range(0, n);
    vstd::set_lib::lemma_int_range(0, n);
    assert(ints.to_set().subset_of(range)) by {
        assert forall|x: int| ints.to_set().contains(x) implies range.contains(x) by {
            let i = choose|i: int| 0 <= i < ints.len() && ints[i] == x;
            assert(p[i] < n);
        }
    }
    vstd::set_lib::lemma_set_subset_finite(range, ints.to_set());
    vstd::set_lib::lemma_subset_equality(ints.to_set(), range);
    assert(ints.to_set().contains(at));
    let i = choose|i: int| 0 <= i < ints.len() && ints[i] == at;
    assert(p[i] == at);
}

/// What is said of a thing that goes: what it is, where it is, and of a lock file
/// whose it was.
pub proof fn law_what_is_said_of_what_goes(dry_run: bool, path: Seq<char>, pid: u32)
    ensures
        ({
            let start = if dry_run {
                "would remove"@
            } else {
                "removing"@
            };
            &&& item_line(dry_run, (ItemKind::RoutingTable, path)) == start + " "@
                + "routing table"@ + ": "@ + path
            &&& item_line(dry_run, (ItemKind::MasterSocket, path)) == start + " "@
                + "master socket"@ + ": "@ + path
            &&& item_line(dry_run, (ItemKind::MasterLock, path)) == start + " "@
                + "master lockfile"@ + ": "@ + path
            &&& item_line(dry_run, (ItemKind::WorkerArtifact, path)) == start + " "@
                + "worker artifact"@ + ": "@ + path
            &&& item_line(dry_run, (ItemKind::OrphanSocket, path)) == start + " "@
                + "orphan socket"@ + ": "@ + path
            &&& item_line(dry_run, (ItemKind::OrphanLog, path)) == start + " "@ + "orphan log"@
                + ": "@ + path
            &&& item_line(dry_run, (ItemKind::UnreferencedFrecency, path)) == start + " "@
                + "unreferenced frecency dir"@ + ": "@ + path
            &&& item_line(dry_run, (ItemKind::StaleLock(pid), path)) == start + " "@
                + "stale lockfile"@ + ": "@ + path + " (PID "@ + crate::text::decimal_text(
                pid as nat,
            ) + " dead)"@
        }),
{
}

/// Everything that goes has a line, in order, and the last line counts each kind.
pub proof fn law_what_cleaning_says(dry_run: bool, s: CleanScan, items: Seq<ItemView>)
    ensures
        item_lines(dry_run, items).len() == items.len(),
        forall|k: int|
            0 <= k < items.len() ==> #[trigger] item_lines(dry_run, items)[k] == (
                false,
                item_line(dry_run, items[k]),
            ),
        to_remove(s) == files_to_remove(s) + unreferenced_dirs(s),
        clean_summary(dry_run, s) == (if dry_run {
            "Would remove"@
        } else {
            "Removed"@
        }) + ": "@ + crate::text::decimal_text(master_files(s).len()) + " master artifact(s), "@
            + crate::text::decimal_text(stale_locks(s.daemons@).len()) + " lockfile(s), "@
            + crate::text::decimal_text(orphan_sockets(s).len()) + " socket(s), "@
            + crate::text::decimal_text(orphan_logs(s).len()) + " log(s)"@ + (if unreferenced_dirs(
            s,
        ).len() == 0 {
            Seq::empty()
        } else {
            ", "@ + crate::text::decimal_text(unreferenced_dirs(s).len()) + " frecency dir(s)"@
        }),
        s.master_alive <==> master_note(s).len() == 1,
        !s.master_alive <==> master_note(s).len() == 0,
{
}

/// A daemon as it is known tells what its lock file told.
pub proof fn law_what_is_known_of_a_daemon(d: Daemon)
    ensures
        daemon_view(d).slug == d.slug@,
        daemon_view(d).pid == d.pid,
        daemon_view(d).alive == d.alive,
        daemon_view(d).lockfile_path == d.lockfile_path@,
        d.base_path is None ==> daemon_view(d).base_path is None,
        d.base_path matches Some(p) ==> daemon_view(d).base_path == Some(p@),
{
}

/// What is removed is listed by its path, item by item.
pub proof fn law_items_are_listed_by_path(items: Seq<CleanItem>, texts: Seq<String>)
    ensures
        item_views(items).len() == items.len(),
        forall|i: int|
            0 <= i < items.len() ==> #[trigger] item_views(items)[i] == (
                items[i].kind,
                items[i].path@,
            ),
        item_paths(item_views(items)).len() == items.len(),
        forall|i: int|
            0 <= i < items.len() ==> #[trigger] item_paths(item_views(items))[i]
                == items[i].path@,
        text_views(texts).len() == texts.len(),
        forall|i: int| 0 <= i < texts.len() ==> #[trigger] text_views(texts)[i] == texts[i]@,
{
}

} // verus!
