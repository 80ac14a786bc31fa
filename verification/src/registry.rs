//! The project roots that a client can search.

use crate::disk::CanonicalPaths;
use crate::listing::Listed;
use crate::path::{same_path, starts_with, text_len};
use crate::text::same;
use vstd::prelude::*;

verus! {

/// A root beside the default one.
#[derive(Debug)]
pub struct NamedRoot {
    pub name: Option<String>,
    pub path: String,
}

/// The default root and the others, each canonical path once.
#[derive(Debug)]
pub struct RootRegistry {
    pub default: String,
    pub default_name: Option<String>,
    pub additional: Vec<NamedRoot>,
}

pub open spec fn named_view(r: NamedRoot) -> Listed {
    (crate::config::text_view(r.name), r.path@, false)
}

/// `list`, then every extra root that is not listed yet.
pub open spec fn with_extras(
    list: Seq<Listed>,
    extras: Seq<(Option<String>, String)>,
    disk: CanonicalPaths,
) -> Seq<Listed>
    decreases extras.len(),
{
    if extras.len() == 0 {
        list
    } else {
        crate::listing::listing(
            with_extras(list, extras.drop_last(), disk),
            crate::config::text_view(extras.last().0),
            disk.canon(extras.last().1@),
        )
    }
}

/// The first entry of a list.
pub open spec fn default_listing(name: Option<Seq<char>>, path: Seq<char>) -> Seq<Listed> {
    seq![(name, path, true)]
}

impl RootRegistry {
    /// Every root, the default first.
    pub open spec fn entries(&self) -> Seq<Listed> {
        default_listing(crate::config::text_view(self.default_name), self.default@)
            + self.additional@.map_values(|r: NamedRoot| named_view(r))
    }

    /// The root at position `i` contains `target`.
    pub open spec fn covers(&self, i: int, target: Seq<char>) -> bool {
        &&& 0 <= i < self.entries().len()
        &&& self.entries()[i].1.len() > 0
        &&& crate::path::under(target, self.entries()[i].1)
    }

    /// The root at position `i` contains `target` with the longest path, the
    /// first such root.
    pub open spec fn best_cover(&self, i: int, target: Seq<char>) -> bool {
        &&& self.covers(i, target)
        &&& forall|j: int| #[trigger]
            self.covers(j, target) ==> {
                let a = crate::path::byte_len(self.entries()[j].1);
                let b = crate::path::byte_len(self.entries()[i].1);
                a <= b && (j < i ==> a < b)
            }
    }

    /// `path` is the path of the root that owns `target`: the best cover, or the
    /// default where no root contains it.
    pub open spec fn owns(&self, path: Seq<char>, target: Seq<char>) -> bool {
        if exists|i: int| #[trigger] self.covers(i, target) {
            exists|i: int| #[trigger] self.best_cover(i, target) && path == self.entries()[i].1
        } else {
            path == self.default@
        }
    }

    /// The root at position `i` has this name, and none before it has.
    pub open spec fn first_named(&self, i: int, name: Seq<char>) -> bool {
        &&& 0 <= i < self.entries().len()
        &&& self.entries()[i].0 == Some(name)
        &&& forall|j: int| 0 <= j < i ==> (#[trigger] self.entries()[j]).0 != Some(name)
    }

    fn has_path(&self, path: &str) -> (r: bool)
        ensures
            r == crate::listing::lists_path(self.entries(), path@),
    {
        let ghost e = self.entries();
        assert(e[0].1 == self.default@);
        if same_path(self.default.as_str(), path) {
            assert(crate::path::path_eq(e[0].1, path@));
            return true;
        }
        let mut i: usize = 0;
        while i < self.additional.len()
            invariant
                i <= self.additional@.len(),
                e == self.entries(),
                forall|j: int| 0 <= j < i + 1 ==> !crate::path::path_eq(#[trigger] e[j].1, path@),
            decreases self.additional.len() - i,
        {
            assert(e[i + 1].1 == self.additional@[i as int].path@);
            if same_path(self.additional[i].path.as_str(), path) {
                assert(crate::path::path_eq(e[i + 1].1, path@));
                return true;
            }
            i = i + 1;
        }
        false
    }

    /// The default root without a name, and others without names.
    pub fn new(default: &str, extras: Vec<String>, disk: &CanonicalPaths) -> (r: Self)
        ensures
            exists|named: Seq<(Option<String>, String)>| #[trigger]
                unnamed(named, extras@) && r.entries() == with_extras(
                    default_listing(None, disk.canon(default@)),
                    named,
                    *disk,
                ),
            r.default@ == disk.canon(default@),
            r.default_name is None,
    {
        let mut named: Vec<(Option<String>, String)> = Vec::new();
        let mut i: usize = 0;
        while i < extras.len()
            invariant
                i <= extras@.len(),
                named@.len() == i,
                forall|j: int|
                    0 <= j < i ==> (#[trigger] named@[j]).0 is None && named@[j].1 == extras@[j],
            decreases extras.len() - i,
        {
            named.push((None, extras[i].clone()));
            i = i + 1;
        }
        assert(unnamed(named@, extras@));
        Self::with_named(default, None, named, disk)
    }

    /// The default root, then the extra roots in order; a canonical path that is
    /// registered already is left out.
    pub fn with_named(
        default: &str,
        default_name: Option<String>,
        extras: Vec<(Option<String>, String)>,
        disk: &CanonicalPaths,
    ) -> (r: Self)
        ensures
            r.entries() == with_extras(
                default_listing(crate::config::text_view(default_name), disk.canon(default@)),
                extras@,
                *disk,
            ),
            r.default@ == disk.canon(default@),
            r.default_name == default_name,
    {
        let mut reg = RootRegistry {
            default: disk.canonicalize(default),
            default_name,
            additional: Vec::new(),
        };
        let ghost start = default_listing(
            crate::config::text_view(default_name),
            disk.canon(default@),
        );
        assert(reg.entries() =~= start);
        let mut i: usize = 0;
        assert(extras@.take(0) =~= Seq::empty());
        while i < extras.len()
            invariant
                i <= extras@.len(),
                reg.entries() == with_extras(start, extras@.take(i as int), *disk),
                reg.default@ == disk.canon(default@),
                reg.default_name == default_name,
            decreases extras.len() - i,
        {
            assert(extras@.take(i + 1).drop_last() =~= extras@.take(i as int));
            assert(extras@.take(i + 1).last() == extras@[i as int]);
            let path = disk.canonicalize(extras[i].1.as_str());
            if !reg.has_path(path.as_str()) {
                let ghost before = reg.entries();
                let root = NamedRoot { name: extras[i].0.clone(), path };
                let ghost v = named_view(root);
                reg.additional.push(root);
                assert(reg.entries() =~= before.push(v));
            }
            i = i + 1;
        }
        assert(extras@.take(i as int) =~= extras@);
        reg
    }

    pub fn default_root(&self) -> (r: &str)
        ensures
            r@ == self.default@,
    {
        self.default.as_str()
    }

    pub fn default_name(&self) -> (r: Option<&str>)
        ensures
            crate::config::opt_text(r) == crate::config::text_view(self.default_name),
    {
        match &self.default_name {
            Some(n) => Some(n.as_str()),
            None => None,
        }
    }

    /// The path of the root with this name.
    pub fn resolve_name(&self, name: &str) -> (r: Option<&str>)
        ensures
            match r {
                Some(p) => exists|i: int| #[trigger]
                    self.first_named(i, name@) && p@ == self.entries()[i].1,
                None => forall|i: int|
                    0 <= i < self.entries().len() ==> (#[trigger] self.entries()[i]).0 != Some(
                        name@,
                    ),
            },
    {
        let ghost e = self.entries();
        assert(e[0] == (crate::config::text_view(self.default_name), self.default@, true));
        if let Some(n) = &self.default_name {
            if same(n.as_str(), name) {
                assert(self.first_named(0, name@));
                return Some(self.default.as_str());
            }
        }
        let mut i: usize = 0;
        while i < self.additional.len()
            invariant
                i <= self.additional@.len(),
                e == self.entries(),
                forall|j: int| 0 <= j < i + 1 ==> (#[trigger] e[j]).0 != Some(name@),
            decreases self.additional.len() - i,
        {
            assert(e[i + 1] == named_view(self.additional@[i as int]));
            if let Some(n) = &self.additional[i].name {
                if same(n.as_str(), name) {
                    assert(self.first_named(i + 1, name@));
                    return Some(self.additional[i].path.as_str());
                }
            }
            i = i + 1;
        }
        None
    }

    /// Every root and whether it is the default, the default first.
    pub fn all(&self) -> (r: Vec<(&str, bool)>)
        ensures
            r@.len() == self.entries().len(),
            forall|i: int|
                0 <= i < r@.len() ==> (#[trigger] r@[i]).0@ == self.entries()[i].1 && r@[i].1
                    == self.entries()[i].2,
    {
        let mut out: Vec<(&str, bool)> = Vec::new();
        out.push((self.default.as_str(), true));
        let mut i: usize = 0;
        while i < self.additional.len()
            invariant
                i <= self.additional@.len(),
                out@.len() == i + 1,
                forall|j: int|
                    0 <= j < i + 1 ==> (#[trigger] out@[j]).0@ == self.entries()[j].1 && out@[j].1
                        == self.entries()[j].2,
            decreases self.additional.len() - i,
        {
            out.push((self.additional[i].path.as_str(), false));
            i = i + 1;
        }
        out
    }

    /// Every root with its name and whether it is the default, the default first.
    pub fn all_with_names(&self) -> (r: Vec<(Option<&str>, &str, bool)>)
        ensures
            r@.len() == self.entries().len(),
            forall|i: int|
                0 <= i < r@.len() ==> {
                    let e = self.entries()[i];
                    &&& crate::config::opt_text((#[trigger] r@[i]).0) == e.0
                    &&& r@[i].1@ == e.1
                    &&& r@[i].2 == e.2
                },
    {
        let mut out: Vec<(Option<&str>, &str, bool)> = Vec::new();
        out.push((self.default_name(), self.default.as_str(), true));
        let mut i: usize = 0;
        while i < self.additional.len()
            invariant
                i <= self.additional@.len(),
                out@.len() == i + 1,
                forall|j: int|
                    0 <= j < i + 1 ==> {
                        let e = self.entries()[j];
                        &&& crate::config::opt_text((#[trigger] out@[j]).0) == e.0
                        &&& out@[j].1@ == e.1
                        &&& out@[j].2 == e.2
                    },
            decreases self.additional.len() - i,
        {
            let name = match &self.additional[i].name {
                Some(n) => Some(n.as_str()),
                None => None,
            };
            assert(self.entries()[i + 1] == named_view(self.additional@[i as int]));
            out.push((name, self.additional[i].path.as_str(), false));
            i = i + 1;
        }
        out
    }

    /// The path of the root that owns a file: the longest root path above it, or
    /// the default.
    pub fn root_for_path(&self, path: &str, disk: &CanonicalPaths) -> (r: String)
        ensures
            self.owns(r@, disk.canon(path@)),
    {
        let target = disk.canonicalize(path);
        let ghost e = self.entries();
        let all = self.all();
        let mut best: Option<usize> = None;
        let mut best_len: usize = 0;
        let mut i: usize = 0;
        while i < all.len()
            invariant
                i <= all@.len(),
                e == self.entries(),
                all@.len() == e.len(),
                forall|j: int| 0 <= j < all@.len() ==> (#[trigger] all@[j]).0@ == e[j].1,
                match best {
                    Some(b) => {
                        &&& b < i
                        &&& self.covers(b as int, target@)
                        &&& best_len == crate::path::byte_len(e[b as int].1)
                        &&& forall|j: int|
                            j < i && #[trigger] self.covers(j, target@) ==> {
                                &&& crate::path::byte_len(e[j].1) <= best_len
                                &&& j < b ==> crate::path::byte_len(e[j].1) < best_len
                            }
                    },
                    None => best_len == 0 && forall|j: int|
                        j < i ==> !#[trigger] self.covers(j, target@),
                },
            decreases all.len() - i,
        {
            let root = all[i].0;
            let n: usize = text_len(root);
            proof {
                crate::path::lemma_bytes_iff_chars(root@);
                assert(e[i as int].1 == root@);
            }
            if starts_with(target.as_str(), root) && n > best_len {
                best_len = n;
                best = Some(i);
            }
            i = i + 1;
        }
        match best {
            Some(b) => {
                assert(self.best_cover(b as int, target@));
                String::from_str(all[b].0)
            },
            None => self.default.clone(),
        }
    }

    /// Whether a path is the default root.
    pub fn is_default(&self, base_path: &str, disk: &CanonicalPaths) -> (r: bool)
        ensures
            r == crate::path::path_eq(disk.canon(base_path@), self.default@),
    {
        same_path(disk.canonicalize(base_path).as_str(), self.default.as_str())
    }
}

/// The same paths, without names.
pub open spec fn unnamed(named: Seq<(Option<String>, String)>, paths: Seq<String>) -> bool {
    &&& named.len() == paths.len()
    &&& forall|i: int|
        0 <= i < named.len() ==> (#[trigger] named[i]).0 is None && named[i].1 == paths[i]
}

/// A registry lists each path once, the default first and alone as the default,
/// and has a root for every extra path.
pub proof fn law_registered_roots(
    name: Option<Seq<char>>,
    default: Seq<char>,
    extras: Seq<(Option<String>, String)>,
    disk: CanonicalPaths,
)
    ensures
        ({
            let list = with_extras(default_listing(name, default), extras, disk);
            &&& crate::listing::paths_distinct(list)
            &&& list.len() > 0
            &&& list[0] == (name, default, true)
            &&& forall|i: int| 0 < i < list.len() ==> !(#[trigger] list[i]).2
            &&& forall|i: int|
                0 <= i < extras.len() ==> crate::listing::lists_path(
                    list,
                    disk.canon((#[trigger] extras[i]).1@),
                )
        }),
    decreases extras.len(),
{
    let list = with_extras(default_listing(name, default), extras, disk);
    if extras.len() > 0 {
        law_registered_roots(name, default, extras.drop_last(), disk);
        let front = with_extras(default_listing(name, default), extras.drop_last(), disk);
        crate::listing::lemma_listing(
            front,
            crate::config::text_view(extras.last().0),
            disk.canon(extras.last().1@),
        );
        assert(list.take(front.len() as int)[0] == front[0]);
        assert forall|i: int| 0 < i < list.len() implies !(#[trigger] list[i]).2 by {
            if i < front.len() {
                assert(list.take(front.len() as int)[i] == front[i]);
            }
        }
        assert forall|i: int| 0 <= i < extras.len() implies crate::listing::lists_path(
            list,
            disk.canon((#[trigger] extras[i]).1@),
        ) by {
            if i < extras.len() - 1 {
                assert(extras.drop_last()[i] == extras[i]);
            }
        }
    }
}

/// A file belongs to a registered root, whatever its path.
pub proof fn law_every_file_has_a_registered_root(reg: RootRegistry, path: Seq<char>, target: Seq<char>)
    requires
        reg.owns(path, target),
    ensures
        exists|i: int| 0 <= i < reg.entries().len() && path == (#[trigger] reg.entries()[i]).1,
{
    if exists|i: int| #[trigger] reg.covers(i, target) {
        let i = choose|i: int| #[trigger] reg.best_cover(i, target) && path == reg.entries()[i].1;
        assert(reg.entries()[i].1 == path);
    } else {
        assert(reg.entries()[0].1 == path);
    }
}

/// A registry has the default root first, then the others in order, each with its
/// own name and path.
pub proof fn law_what_a_registry_lists(reg: RootRegistry)
    ensures
        reg.entries().len() == reg.additional@.len() + 1,
        reg.entries()[0].1 == reg.default@,
        reg.entries()[0].2,
        reg.default_name is None ==> reg.entries()[0].0 is None,
        reg.default_name matches Some(n) ==> reg.entries()[0].0 == Some(n@),
        forall|i: int|
            0 <= i < reg.additional@.len() ==> {
                let e = #[trigger] reg.entries()[i + 1];
                &&& e.1 == reg.additional@[i].path@
                &&& !e.2
                &&& reg.additional@[i].name is None ==> e.0 is None
                &&& reg.additional@[i].name matches Some(n) ==> e.0 == Some(n@)
            },
{
    assert forall|i: int| 0 <= i < reg.additional@.len() implies #[trigger] reg.entries()[i + 1]
        == named_view(reg.additional@[i]) by {}
}

/// Each extra root has a place in the registry once, under its own name where it
/// is the first at that place; and nothing else is registered.
pub proof fn law_each_extra_root_is_registered_once(
    name: Option<Seq<char>>,
    default: Seq<char>,
    extras: Seq<(Option<String>, String)>,
    disk: CanonicalPaths,
)
    ensures
        ({
            let list = with_extras(default_listing(name, default), extras, disk);
            &&& list.len() > 0
            &&& list[0] == (name, default, true)
            &&& forall|i: int, j: int|
                0 <= i < j < list.len() ==> !crate::path::path_eq(
                    (#[trigger] list[i]).1,
                    (#[trigger] list[j]).1,
                )
            &&& forall|i: int|
                0 <= i < extras.len() ==> exists|k: int|
                    0 <= k < list.len() && crate::path::path_eq(
                        (#[trigger] list[k]).1,
                        disk.canon((#[trigger] extras[i]).1@),
                    )
            &&& forall|k: int|
                0 < k < list.len() ==> !(#[trigger] list[k]).2 && exists|i: int|
                    0 <= i < extras.len() && list[k].1 == disk.canon((#[trigger] extras[i]).1@)
                        && list[k].0 == (match extras[i].0 {
                        Some(n) => Some(n@),
                        None => None,
                    })
        }),
    decreases extras.len(),
{
    law_registered_roots(name, default, extras, disk);
    let list = with_extras(default_listing(name, default), extras, disk);
    assert forall|i: int| 0 <= i < extras.len() implies exists|k: int|
        0 <= k < list.len() && crate::path::path_eq(
            (#[trigger] list[k]).1,
            disk.canon((#[trigger] extras[i]).1@),
        ) by {
        assert(crate::listing::lists_path(list, disk.canon(extras[i].1@)));
    }
    if extras.len() > 0 {
        let part = extras.drop_last();
        law_each_extra_root_is_registered_once(name, default, part, disk);
        let front = with_extras(default_listing(name, default), part, disk);
        assert forall|k: int| 0 < k < list.len() implies !(#[trigger] list[k]).2 && exists|i: int|
            0 <= i < extras.len() && list[k].1 == disk.canon((#[trigger] extras[i]).1@)
                && list[k].0 == (match extras[i].0 {
                Some(n) => Some(n@),
                None => None,
            }) by {
            if k < front.len() {
                assert(list[k] == front[k]);
                let i = choose|i: int|
                    0 <= i < part.len() && front[k].1 == disk.canon((#[trigger] part[i]).1@)
                        && front[k].0 == (match part[i].0 {
                        Some(n) => Some(n@),
                        None => None,
                    });
                assert(extras[i] == part[i]);
            } else {
                assert(extras[extras.len() - 1] == extras.last());
            }
        }
    }
}

/// A file belongs to the registered root around it with the longest path; outside
/// of every registered root it belongs to the default.
pub proof fn law_a_file_belongs_to_the_closest_root(
    reg: RootRegistry,
    path: Seq<char>,
    target: Seq<char>,
)
    requires
        reg.owns(path, target),
    ensures
        forall|i: int|
            0 <= i < reg.additional@.len() && (#[trigger] reg.additional@[i]).path@.len() > 0
                && crate::path::under(target, reg.additional@[i].path@) ==> crate::path::under(
                target,
                path,
            ) && crate::path::byte_len(reg.additional@[i].path@) <= crate::path::byte_len(path),
        reg.default@.len() > 0 && crate::path::under(target, reg.default@) ==> crate::path::under(
            target,
            path,
        ) && crate::path::byte_len(reg.default@) <= crate::path::byte_len(path),
        (forall|i: int|
            0 <= i < reg.additional@.len() ==> !crate::path::under(
                target,
                (#[trigger] reg.additional@[i]).path@,
            )) ==> path == reg.default@,
        path == reg.default@ || exists|i: int|
            0 <= i < reg.additional@.len() && (#[trigger] reg.additional@[i]).path@ == path,
{
    law_what_a_registry_lists(reg);
    assert forall|i: int| 0 <= i < reg.additional@.len() implies (#[trigger] reg.additional@[i]).path@
        == reg.entries()[i + 1].1 by {}
    if exists|i: int| #[trigger] reg.covers(i, target) {
        let k = choose|k: int| #[trigger] reg.best_cover(k, target) && path == reg.entries()[k].1;
        assert forall|i: int|
            0 <= i < reg.additional@.len() && (#[trigger] reg.additional@[i]).path@.len() > 0
                && crate::path::under(target, reg.additional@[i].path@) implies crate::path::under(
            target,
            path,
        ) && crate::path::byte_len(reg.additional@[i].path@) <= crate::path::byte_len(path) by {
            assert(reg.covers(i + 1, target));
        }
        if reg.default@.len() > 0 && crate::path::under(target, reg.default@) {
            assert(reg.covers(0, target));
        }
        if k > 0 {
            assert(reg.additional@[k - 1].path@ == path);
        }
    } else {
        assert forall|i: int|
            0 <= i < reg.additional@.len() && (#[trigger] reg.additional@[i]).path@.len()
                > 0 implies !crate::path::under(target, reg.additional@[i].path@) by {
            assert(!reg.covers(i + 1, target));
        }
        assert(!reg.covers(0, target));
    }
}

/// A name stands for the first registered root that has it.
pub proof fn law_a_name_stands_for_the_first_root(reg: RootRegistry, i: int, name: Seq<char>)
    requires
        reg.first_named(i, name),
    ensures
        i == 0 ==> (reg.default_name matches Some(n) && n@ == name),
        i > 0 ==> i <= reg.additional@.len() && (reg.additional@[i - 1].name matches Some(n) && n@
            == name) && !(reg.default_name matches Some(n) && n@ == name) && forall|j: int|
            0 <= j < i - 1 ==> !((#[trigger] reg.additional@[j]).name matches Some(n) && n@ == name),
{
    law_what_a_registry_lists(reg);
    if i > 0 {
        assert(reg.entries()[i - 1 + 1] == reg.entries()[i]);
        assert(reg.entries()[0].0 != Some(name));
        assert forall|j: int| 0 <= j < i - 1 implies !((
        #[trigger] reg.additional@[j]).name matches Some(n) && n@ == name) by {
            assert(reg.entries()[j + 1].0 != Some(name));
        }
    }
}

} // verus!
