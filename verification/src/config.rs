//! Settings shared by the engine and its clients.

use crate::disk::CanonicalPaths;
use crate::path::{is_absolute, join, starts_with, text_len};
use crate::text::{parse_u64, same};
use vstd::prelude::*;

verus! {

/// Every section of the settings file.
#[derive(Debug)]
pub struct FffConfig {
    pub log: LogConfig,
    pub index: IndexConfig,
    pub frecency: FrecencyConfig,
    pub worker: WorkerConfig,
    pub mcp: McpConfig,
}

/// The project roots to search.
#[derive(Debug)]
pub struct McpConfig {
    /// Selects the default root: a declared name or an absolute path.
    pub default: Option<String>,
    pub roots: Vec<McpRoot>,
}

/// One project root.
#[derive(Debug)]
pub struct McpRoot {
    pub path: String,
    pub name: Option<String>,
    /// Patterns kept out of this root's index.
    pub ignore: Vec<String>,
}

/// Why the project roots make no sense.
#[derive(Debug)]
pub enum McpConfigError {
    /// Two roots have this name.
    DuplicateName(String),
    /// The default selects nothing.
    UnresolvedDefault(String),
}

/// How many workers there are, and what they hold.
#[derive(Debug, Clone, Copy, PartialEq, Eq, Structural)]
pub struct WorkerConfig {
    /// Workers kept alive.
    pub n_min: u32,
    /// Workers at most.
    pub n_max: u32,
    /// Roots of one worker before another worker is started.
    pub roots_per_worker_max: u32,
    /// Seconds that a worker without roots lives on.
    pub idle_ttl_secs: u64,
}

/// What is logged, and where.
#[derive(Debug)]
pub struct LogConfig {
    pub level: String,
    pub file: Option<String>,
}

/// How roots are indexed.
#[derive(Debug)]
pub struct IndexConfig {
    pub no_watch: bool,
    pub no_warmup: bool,
    pub max_cached_files: Option<usize>,
    /// Seconds that an on-demand root may go unqueried; zero means for ever.
    pub idle_root_ttl_secs: Option<u64>,
}

/// Where access history is kept.
#[derive(Debug)]
pub struct FrecencyConfig {
    pub db: Option<String>,
}

impl Default for WorkerConfig {
    fn default() -> (r: Self)
        ensures
            r == (WorkerConfig { n_min: 1, n_max: 4, roots_per_worker_max: 8, idle_ttl_secs: 300 }),
    {
        WorkerConfig { n_min: 1, n_max: 4, roots_per_worker_max: 8, idle_ttl_secs: 300 }
    }
}

impl Default for LogConfig {
    fn default() -> (r: Self)
        ensures
            r.level@ == "fff_engine=info,fff_mcp=info,warn"@,
            r.file is None,
    {
        LogConfig { level: String::from_str("fff_engine=info,fff_mcp=info,warn"), file: None }
    }
}

impl Default for IndexConfig {
    fn default() -> (r: Self)
        ensures
            r == (IndexConfig {
                no_watch: false,
                no_warmup: false,
                max_cached_files: None,
                idle_root_ttl_secs: None,
            }),
    {
        IndexConfig {
            no_watch: false,
            no_warmup: false,
            max_cached_files: None,
            idle_root_ttl_secs: None,
        }
    }
}

impl Default for FrecencyConfig {
    fn default() -> (r: Self)
        ensures
            r.db is None,
    {
        FrecencyConfig { db: None }
    }
}

impl Default for McpConfig {
    fn default() -> (r: Self)
        ensures
            r.default is None,
            r.roots@.len() == 0,
    {
        McpConfig { default: None, roots: Vec::new() }
    }
}

impl Default for FffConfig {
    fn default() -> (r: Self)
        ensures
            r.log.level@ == "fff_engine=info,fff_mcp=info,warn"@,
            r.log.file is None,
            r.index.idle_root_ttl_secs is None,
            !r.index.no_watch,
            !r.index.no_warmup,
            r.index.max_cached_files is None,
            r.frecency.db is None,
            r.worker == (WorkerConfig {
                n_min: 1,
                n_max: 4,
                roots_per_worker_max: 8,
                idle_ttl_secs: 300,
            }),
            r.mcp.default is None,
            r.mcp.roots@.len() == 0,
    {
        FffConfig {
            log: LogConfig::default(),
            index: IndexConfig::default(),
            frecency: FrecencyConfig::default(),
            worker: WorkerConfig::default(),
            mcp: McpConfig::default(),
        }
    }
}

/// Root `i` is named `name`.
pub open spec fn named(roots: Seq<McpRoot>, i: int, name: Seq<char>) -> bool {
    &&& 0 <= i < roots.len()
    &&& roots[i].name matches Some(n) && n@ == name
}

/// Some root is named `name`.
pub open spec fn has_name(roots: Seq<McpRoot>, name: Seq<char>) -> bool {
    exists|i: int| #[trigger] named(roots, i, name)
}

/// Root `i` repeats the name of an earlier root.
pub open spec fn repeats(roots: Seq<McpRoot>, i: int) -> bool {
    &&& 0 <= i < roots.len()
    &&& roots[i].name matches Some(n) && exists|j: int| j < i && #[trigger] named(roots, j, n@)
}

/// No two roots share a name.
pub open spec fn names_distinct(roots: Seq<McpRoot>) -> bool {
    forall|i: int| !#[trigger] repeats(roots, i)
}

impl McpConfig {
    /// The default, if there is one, selects something.
    pub open spec fn default_resolves(&self) -> bool {
        self.default matches Some(d) ==> has_name(self.roots@, d@) || crate::path::absolute(d@)
    }

    /// The first root named `name`.
    fn find_named(&self, name: &str) -> (r: Option<usize>)
        ensures
            match r {
                Some(i) => named(self.roots@, i as int, name@) && forall|j: int|
                    j < i ==> !#[trigger] named(self.roots@, j, name@),
                None => !has_name(self.roots@, name@),
            },
    {
        let mut i: usize = 0;
        while i < self.roots.len()
            invariant
                i <= self.roots.len(),
                forall|j: int| j < i ==> !#[trigger] named(self.roots@, j, name@),
            decreases self.roots.len() - i,
        {
            if let Some(n) = &self.roots[i].name {
                if same(n.as_str(), name) {
                    return Some(i);
                }
            }
            i = i + 1;
        }
        None
    }

    /// Whether some root is named `name`.
    pub fn is_name(&self, name: &str) -> (r: bool)
        ensures
            r == has_name(self.roots@, name@),
    {
        match self.find_named(name) {
            Some(i) => {
                assert(named(self.roots@, i as int, name@));
                true
            },
            None => false,
        }
    }

    /// Refuses repeated root names, then a default that selects nothing.
    pub fn validate(&self) -> (r: Result<(), McpConfigError>)
        ensures
            match r {
                Ok(()) => names_distinct(self.roots@) && self.default_resolves(),
                Err(McpConfigError::DuplicateName(n)) => exists|i: int| #[trigger]
                    repeats(self.roots@, i) && self.roots@[i].name == Some(n) && forall|j: int|
                        j < i ==> !#[trigger] repeats(self.roots@, j),
                Err(McpConfigError::UnresolvedDefault(d)) => {
                    &&& names_distinct(self.roots@)
                    &&& !self.default_resolves()
                    &&& self.default == Some(d)
                },
            },
    {
        let mut i: usize = 0;
        while i < self.roots.len()
            invariant
                i <= self.roots.len(),
                forall|j: int| j < i ==> !#[trigger] repeats(self.roots@, j),
            decreases self.roots.len() - i,
        {
            if let Some(n) = &self.roots[i].name {
                match self.find_named(n.as_str()) {
                    Some(k) => {
                        if k < i {
                            assert(named(self.roots@, k as int, n@));
                            assert(repeats(self.roots@, i as int));
                            return Err(McpConfigError::DuplicateName(n.clone()));
                        }
                        assert(!repeats(self.roots@, i as int));
                    },
                    None => {
                        assert(named(self.roots@, i as int, n@));
                    },
                }
            }
            i = i + 1;
        }
        assert forall|j: int| !#[trigger] repeats(self.roots@, j) by {}
        if let Some(d) = &self.default {
            if self.find_named(d.as_str()).is_none() && !is_absolute(d.as_str()) {
                return Err(McpConfigError::UnresolvedDefault(d.clone()));
            }
        }
        Ok(())
    }

    /// The path that the default selects: the first root of that name, or the
    /// default itself where it is an absolute path.
    pub open spec fn selects(&self, path: Seq<char>) -> bool {
        &&& self.default matches Some(d) && {
            if has_name(self.roots@, d@) {
                exists|i: int| #[trigger]
                    named(self.roots@, i, d@) && self.roots@[i].path@ == path && forall|j: int|
                        j < i ==> !#[trigger] named(self.roots@, j, d@)
            } else {
                crate::path::absolute(d@) && path == d@
            }
        }
    }

    /// The path that the default selects, if it selects one.
    pub open spec fn selected(&self) -> Option<Seq<char>> {
        if exists|p: Seq<char>| #[trigger] self.selects(p) {
            Some(choose|p: Seq<char>| #[trigger] self.selects(p))
        } else {
            None
        }
    }

    /// The path that the default selects, if it selects one.
    pub fn default_path(&self) -> (r: Option<String>)
        ensures
            match r {
                Some(p) => self.selects(p@),
                None => self.default is None || !self.default_resolves(),
            },
            text_view(r) == self.selected(),
    {
        match &self.default {
            None => None,
            Some(d) => match self.find_named(d.as_str()) {
                Some(i) => Some(self.roots[i].path.clone()),
                None => if is_absolute(d.as_str()) {
                    Some(d.clone())
                } else {
                    None
                },
            },
        }
    }

    /// Root `i` contains `target`.
    pub open spec fn covers(&self, i: int, target: Seq<char>, disk: CanonicalPaths) -> bool {
        &&& 0 <= i < self.roots@.len()
        &&& disk.canon(self.roots@[i].path@).len() > 0
        &&& crate::path::under(target, disk.canon(self.roots@[i].path@))
    }

    /// Bytes of the canonical path of root `i`.
    pub open spec fn depth(&self, i: int, disk: CanonicalPaths) -> nat {
        crate::path::byte_len(disk.canon(self.roots@[i].path@))
    }

    /// Root `i` covers `target` with the longest path, the first such root.
    pub open spec fn best_cover(&self, i: int, target: Seq<char>, disk: CanonicalPaths) -> bool {
        &&& self.covers(i, target, disk)
        &&& forall|j: int| #[trigger]
            self.covers(j, target, disk) ==> {
                &&& self.depth(j, disk) <= self.depth(i, disk)
                &&& j < i ==> self.depth(j, disk) < self.depth(i, disk)
            }
    }

    /// The patterns for `base_path`: those of the root that best contains it,
    /// also where it has none; none where no root contains it.
    pub open spec fn ignores(
        &self,
        patterns: Seq<String>,
        base_path: Seq<char>,
        disk: CanonicalPaths,
    ) -> bool {
        let target = disk.canon(base_path);
        if exists|i: int| #[trigger] self.covers(i, target, disk) {
            exists|i: int| #[trigger]
                self.best_cover(i, target, disk) && patterns == self.roots@[i].ignore@
        } else {
            patterns.len() == 0
        }
    }

    /// The patterns of the root that best contains `base_path`; none where no
    /// root contains it.
    pub fn ignore_for(&self, base_path: &str, disk: &CanonicalPaths) -> (r: Vec<String>)
        ensures
            self.ignores(r@, base_path@, *disk),
    {
        let target = disk.canonicalize(base_path);
        let mut best: Option<usize> = None;
        let mut best_len: usize = 0;
        let mut i: usize = 0;
        while i < self.roots.len()
            invariant
                i <= self.roots.len(),
                target@ == disk.canon(base_path@),
                match best {
                    Some(b) => b < i && self.covers(b as int, target@, *disk) && best_len
                        == self.depth(b as int, *disk) && forall|j: int|
                        j < i && #[trigger] self.covers(j, target@, *disk) ==> {
                            &&& self.depth(j, *disk) <= best_len
                            &&& j < b ==> self.depth(j, *disk) < best_len
                        },
                    None => best_len == 0 && forall|j: int|
                        j < i ==> !#[trigger] self.covers(j, target@, *disk),
                },
            decreases self.roots.len() - i,
        {
            let rp = disk.canonicalize(self.roots[i].path.as_str());
            let n: usize = text_len(rp.as_str());
            proof {
                crate::path::lemma_bytes_iff_chars(rp@);
            }
            if starts_with(target.as_str(), rp.as_str()) && n > best_len {
                best_len = n;
                best = Some(i);
            }
            i = i + 1;
        }
        match best {
            Some(b) => {
                let r = self.roots[b].ignore.clone();
                assert(r@ =~= self.roots@[b as int].ignore@);
                assert(self.best_cover(b as int, target@, *disk));
                r
            },
            None => Vec::new(),
        }
    }
}

/// What an override of the idle limit says.
pub enum TtlOverride {
    Unset,
    Secs(u64),
    /// Set, but not a number; it is ignored with a warning.
    Invalid,
}

/// Reads an override of the idle limit.
pub fn ttl_override(raw: Option<&str>) -> (r: TtlOverride)
    ensures
        match raw {
            None => r is Unset,
            Some(s) => if crate::text::is_u64_text(s@) {
                r == TtlOverride::Secs(
                    crate::text::digits_value(crate::text::unsigned_part(s@)) as u64,
                )
            } else {
                r is Invalid
            },
        },
{
    match raw {
        None => TtlOverride::Unset,
        Some(s) => match parse_u64(s) {
            Some(n) => TtlOverride::Secs(n),
            None => TtlOverride::Invalid,
        },
    }
}

impl IndexConfig {
    /// Seconds that an on-demand root may go unqueried unless set otherwise.
    pub const DEFAULT_IDLE_ROOT_TTL_SECS: u64 = 21600;

    /// The idle limit in force: the override where it is a number, else the
    /// setting, else six hours. Zero means no limit.
    pub fn resolved_idle_root_ttl_secs(&self, env: Option<&str>) -> (secs: u64)
        ensures
            secs == match env {
                Some(s) if crate::text::is_u64_text(s@) => crate::text::digits_value(
                    crate::text::unsigned_part(s@),
                ) as u64,
                _ => match self.idle_root_ttl_secs {
                    Some(n) => n,
                    None => Self::DEFAULT_IDLE_ROOT_TTL_SECS,
                },
            },
    {
        match ttl_override(env) {
            TtlOverride::Secs(n) => n,
            _ => match self.idle_root_ttl_secs {
                Some(n) => n,
                None => Self::DEFAULT_IDLE_ROOT_TTL_SECS,
            },
        }
    }
}

/// The directory that settings live under, from the environment.
pub open spec fn config_base(
    xdg_config_home: Option<Seq<char>>,
    home: Option<Seq<char>>,
    user_profile: Option<Seq<char>>,
) -> Seq<char> {
    match (xdg_config_home, home, user_profile) {
        (Some(x), _, _) => x,
        (None, Some(h), _) => crate::path::joined(h, ".config"@),
        (None, None, Some(u)) => crate::path::joined(u, ".config"@),
        (None, None, None) => crate::path::joined("/tmp"@, ".config"@),
    }
}

/// The view of an optional string.
pub open spec fn text_view(s: Option<String>) -> Option<Seq<char>> {
    match s {
        Some(t) => Some(t@),
        None => None,
    }
}

/// The view of an optional text.
pub open spec fn opt_text(s: Option<&str>) -> Option<Seq<char>> {
    match s {
        Some(t) => Some(t@),
        None => None,
    }
}

/// Where the settings file is.
pub fn config_path(
    xdg_config_home: Option<&str>,
    home: Option<&str>,
    user_profile: Option<&str>,
) -> (r: String)
    ensures
        r@ == crate::path::joined(
            crate::path::joined(
                config_base(opt_text(xdg_config_home), opt_text(home), opt_text(user_profile)),
                "fff"@,
            ),
            "config.toml"@,
        ),
{
    let base = match xdg_config_home {
        Some(x) => String::from_str(x),
        None => {
            let dir = match home {
                Some(h) => h,
                None => match user_profile {
                    Some(u) => u,
                    None => "/tmp",
                },
            };
            join(dir, ".config")
        },
    };
    join(join(base.as_str(), "fff").as_str(), "config.toml")
}

/// In settings that pass validation a default that is set selects a path.
pub proof fn law_valid_default_selects_a_path(c: McpConfig)
    requires
        c.default is Some,
        c.default_resolves(),
    ensures
        exists|p: Seq<char>| #[trigger] c.selects(p),
{
    let d = c.default->0@;
    if has_name(c.roots@, d) {
        lemma_first_named(c.roots@, d);
        let i = choose|i: int| #[trigger]
            named(c.roots@, i, d) && forall|j: int| j < i ==> !#[trigger] named(c.roots@, j, d);
        assert(c.selects(c.roots@[i].path@));
    } else {
        assert(c.selects(d));
    }
}

proof fn lemma_first_named(roots: Seq<McpRoot>, name: Seq<char>)
    requires
        has_name(roots, name),
    ensures
        exists|i: int| #[trigger]
            named(roots, i, name) && forall|j: int| j < i ==> !#[trigger] named(roots, j, name),
    decreases roots.len(),
{
    let k = choose|k: int| #[trigger] named(roots, k, name);
    lemma_first_named_upto(roots, name, k);
}

proof fn lemma_first_named_upto(roots: Seq<McpRoot>, name: Seq<char>, k: int)
    requires
        named(roots, k, name),
    ensures
        exists|i: int| #[trigger]
            named(roots, i, name) && forall|j: int| j < i ==> !#[trigger] named(roots, j, name),
    decreases k,
{
    if exists|j: int| j < k && #[trigger] named(roots, j, name) {
        let j = choose|j: int| j < k && #[trigger] named(roots, j, name);
        lemma_first_named_upto(roots, name, j);
    }
}

/// A default selects one path at most.
pub proof fn law_default_selects_one_path(c: McpConfig, p: Seq<char>, q: Seq<char>)
    requires
        c.selects(p),
        c.selects(q),
    ensures
        p == q,
{
}

/// Settings are refused for a repeated name exactly where two roots have the same
/// name, and for the default exactly where it is neither a root's name nor an
/// absolute path.
pub proof fn law_what_validation_refuses(c: McpConfig)
    ensures
        names_distinct(c.roots@) <==> forall|i: int, j: int|
            0 <= i < j < c.roots@.len() ==> !((#[trigger] c.roots@[i]).name matches Some(a) && (
            #[trigger] c.roots@[j]).name matches Some(b) && a@ == b@),
        c.default is None ==> c.default_resolves(),
        c.default matches Some(d) ==> (c.default_resolves() <==> (d@.len() > 0 && d@[0] == '/')
            || exists|i: int|
            0 <= i < c.roots@.len() && ((#[trigger] c.roots@[i]).name matches Some(n) && n@ == d@)),
{
    let roots = c.roots@;
    if names_distinct(roots) {
        assert forall|i: int, j: int| 0 <= i < j < roots.len() implies !((
        #[trigger] roots[i]).name matches Some(a) && (#[trigger] roots[j]).name matches Some(b)
            && a@ == b@) by {
            if let (Some(a), Some(b)) = (roots[i].name, roots[j].name) {
                if a@ == b@ {
                    assert(named(roots, i, b@));
                    assert(repeats(roots, j));
                }
            }
        }
    } else {
        let j = choose|j: int| #[trigger] repeats(roots, j);
        let n = roots[j].name->0;
        let i = choose|i: int| i < j && #[trigger] named(roots, i, n@);
        assert(roots[i].name is Some && roots[j].name is Some);
    }
    if let Some(d) = c.default {
        if has_name(roots, d@) {
            let i = choose|i: int| #[trigger] named(roots, i, d@);
            assert(roots[i].name matches Some(n) && n@ == d@);
        }
        if exists|i: int|
            0 <= i < roots.len() && ((#[trigger] roots[i]).name matches Some(n) && n@ == d@) {
            let i = choose|i: int|
                0 <= i < roots.len() && ((#[trigger] roots[i]).name matches Some(n) && n@ == d@);
            assert(named(roots, i, d@));
        }
    }
}

/// The default selects the first root that has its name; where none has, it is
/// the path itself, if that is absolute; else it selects nothing.
pub proof fn law_what_the_default_selects(c: McpConfig, i: int)
    ensures
        c.default is None ==> c.selected() is None,
        c.default matches Some(d) ==> {
            &&& 0 <= i < c.roots@.len() && (c.roots@[i].name matches Some(n) && n@ == d@) && (
            forall|j: int|
                0 <= j < i ==> !((#[trigger] c.roots@[j]).name matches Some(n) && n@ == d@))
                ==> c.selected() == Some(c.roots@[i].path@)
            &&& (forall|j: int|
                0 <= j < c.roots@.len() ==> !((#[trigger] c.roots@[j]).name matches Some(n) && n@
                    == d@)) ==> c.selected() == if d@.len() > 0 && d@[0] == '/' {
                Some(d@)
            } else {
                None
            }
        },
{
    let roots = c.roots@;
    if let Some(d) = c.default {
        if 0 <= i < roots.len() && (roots[i].name matches Some(n) && n@ == d@) && (forall|j: int|
            0 <= j < i ==> !((#[trigger] roots[j]).name matches Some(n) && n@ == d@)) {
            assert(named(roots, i, d@));
            assert forall|j: int| j < i implies !#[trigger] named(roots, j, d@) by {}
            assert(c.selects(roots[i].path@));
            let p = choose|p: Seq<char>| #[trigger] c.selects(p);
            law_default_selects_one_path(c, p, roots[i].path@);
        }
        if forall|j: int|
            0 <= j < roots.len() ==> !((#[trigger] roots[j]).name matches Some(n) && n@ == d@) {
            assert forall|j: int| !#[trigger] named(roots, j, d@) by {}
            assert(!has_name(roots, d@));
            if d@.len() > 0 && d@[0] == '/' {
                assert(c.selects(d@));
            }
        }
    } else {
        assert forall|p: Seq<char>| !#[trigger] c.selects(p) by {}
    }
}

/// The patterns for a path are those of the configured root around it with the
/// longest path, also where that root has none; outside of every configured root
/// there are none.
pub proof fn law_patterns_come_from_the_closest_root(
    c: McpConfig,
    patterns: Seq<String>,
    base_path: Seq<char>,
    disk: CanonicalPaths,
)
    requires
        c.ignores(patterns, base_path, disk),
    ensures
        (forall|i: int|
            0 <= i < c.roots@.len() && disk.canon((#[trigger] c.roots@[i]).path@).len() > 0
                ==> !crate::path::under(disk.canon(base_path), disk.canon(c.roots@[i].path@)))
            ==> patterns.len() == 0,
        (exists|i: int|
            0 <= i < c.roots@.len() && disk.canon((#[trigger] c.roots@[i]).path@).len() > 0
                && crate::path::under(disk.canon(base_path), disk.canon(c.roots@[i].path@)))
            ==> exists|i: int|
            {
                &&& 0 <= i < c.roots@.len()
                &&& patterns == (#[trigger] c.roots@[i]).ignore@
                &&& disk.canon(c.roots@[i].path@).len() > 0
                &&& crate::path::under(disk.canon(base_path), disk.canon(c.roots@[i].path@))
                &&& forall|j: int|
                    0 <= j < c.roots@.len() && disk.canon((#[trigger] c.roots@[j]).path@).len() > 0
                        && crate::path::under(disk.canon(base_path), disk.canon(c.roots@[j].path@))
                        ==> crate::path::byte_len(disk.canon(c.roots@[j].path@))
                        <= crate::path::byte_len(disk.canon(c.roots@[i].path@))
            },
{
    let target = disk.canon(base_path);
    if exists|i: int| #[trigger] c.covers(i, target, disk) {
        let i = choose|i: int| #[trigger]
            c.best_cover(i, target, disk) && patterns == c.roots@[i].ignore@;
        assert(patterns == c.roots@[i].ignore@);
        assert forall|j: int|
            0 <= j < c.roots@.len() && disk.canon((#[trigger] c.roots@[j]).path@).len() > 0
                && crate::path::under(target, disk.canon(c.roots@[j].path@)) implies crate::path::byte_len(
            disk.canon(c.roots@[j].path@),
        ) <= crate::path::byte_len(disk.canon(c.roots@[i].path@)) by {
            assert(c.covers(j, target, disk));
        }
    } else {
        assert forall|i: int|
            0 <= i < c.roots@.len() && disk.canon((#[trigger] c.roots@[i]).path@).len()
                > 0 implies !crate::path::under(target, disk.canon(c.roots@[i].path@)) by {
            assert(!c.covers(i, target, disk));
        }
    }
}

/// Settings live under the directory that is set for them, else under the home
/// directory, else under the user profile, else under the temporary directory.
pub proof fn law_where_settings_live(
    xdg: Option<Seq<char>>,
    home: Option<Seq<char>>,
    profile: Option<Seq<char>>,
)
    ensures
        xdg matches Some(x) ==> config_base(xdg, home, profile) == x,
        xdg is None ==> config_base(xdg, home, profile) == crate::path::joined(
            if home is Some {
                home->0
            } else if profile is Some {
                profile->0
            } else {
                "/tmp"@
            },
            ".config"@,
        ),
{
}

/// A root on demand may go unqueried for six hours, unless set otherwise.
pub proof fn law_how_long_roots_stay()
    ensures
        IndexConfig::DEFAULT_IDLE_ROOT_TTL_SECS == 21600,
{
}

/// A text that may be absent stands for itself where it is there.
pub proof fn law_texts_stand_for_themselves(s: Option<String>, t: Option<&str>)
    ensures
        s is None ==> text_view(s) is None,
        s matches Some(x) ==> text_view(s) == Some(x@),
        t is None ==> opt_text(t) is None,
        t matches Some(x) ==> opt_text(t) == Some(x@),
{
}

/// Of configured roots with equally long paths the first gives the patterns.
pub proof fn law_the_first_of_equal_roots_gives_the_patterns(
    c: McpConfig,
    base_path: Seq<char>,
    disk: CanonicalPaths,
    i: int,
    j: int,
)
    requires
        c.best_cover(i, disk.canon(base_path), disk),
        0 <= j < i,
        disk.canon(c.roots@[j].path@).len() > 0,
        crate::path::under(disk.canon(base_path), disk.canon(c.roots@[j].path@)),
    ensures
        crate::path::byte_len(disk.canon(c.roots@[j].path@)) < crate::path::byte_len(
            disk.canon(c.roots@[i].path@),
        ),
{
    assert(c.covers(j, disk.canon(base_path), disk));
}

} // verus!
