//! How a client starts and when it ends.

use crate::config::{FffConfig, McpConfig};
use crate::disk::CanonicalPaths;
use crate::listing::find_name;
use crate::registry::RootRegistry;
use crate::text::parse_u64;
use crate::types::SearchResponse;
use vstd::prelude::*;

verus! {

/// The extra roots of a client: the configured ones with their names, then
/// those of the command line without.
pub open spec fn extra_roots(
    extras: Seq<(Option<String>, String)>,
    roots: Seq<crate::config::McpRoot>,
    cli: Seq<String>,
) -> bool {
    &&& extras.len() == roots.len() + cli.len()
    &&& forall|i: int|
        0 <= i < roots.len() ==> (#[trigger] extras[i]).1 == roots[i].path
            && crate::config::text_view(extras[i].0) == crate::config::text_view(roots[i].name)
    &&& forall|i: int|
        roots.len() <= i < extras.len() ==> (#[trigger] extras[i]).0 is None && extras[i].1
            == cli[i - roots.len()]
}

/// The name of the default root: the configured default where it is a name,
/// else the name of the configured root at that path.
pub open spec fn default_root_name(mcp: McpConfig, base_path: Seq<char>, disk: CanonicalPaths) -> Option<
    Seq<char>,
> {
    match mcp.default {
        Some(d) if crate::config::has_name(mcp.roots@, d@) => Some(d@),
        _ => crate::listing::name_at(mcp.roots@, disk.canon(base_path), disk),
    }
}

/// The name of the configured root at a path.
pub fn name_for_path(mcp: &McpConfig, path: &str, disk: &CanonicalPaths) -> (r: Option<String>)
    ensures
        crate::config::text_view(r) == crate::listing::name_at(
            mcp.roots@,
            disk.canon(path@),
            *disk,
        ),
{
    let target = disk.canonicalize(path);
    find_name(mcp, target.as_str(), disk)
}

/// The registry of a client started at `base_path`.
pub fn build_registry(
    base_path: &str,
    cli_extras: &Vec<String>,
    mcp: &McpConfig,
    disk: &CanonicalPaths,
) -> (r: RootRegistry)
    ensures
        exists|extras: Seq<(Option<String>, String)>| #[trigger]
            extra_roots(extras, mcp.roots@, cli_extras@) && r.entries()
                == crate::registry::with_extras(
                crate::registry::default_listing(
                    default_root_name(*mcp, base_path@, *disk),
                    disk.canon(base_path@),
                ),
                extras,
                *disk,
            ),
{
    let default_name = match &mcp.default {
        Some(d) => if mcp.is_name(d.as_str()) {
            Some(d.clone())
        } else {
            name_for_path(mcp, base_path, disk)
        },
        None => name_for_path(mcp, base_path, disk),
    };
    let mut extras: Vec<(Option<String>, String)> = Vec::new();
    let mut i: usize = 0;
    while i < mcp.roots.len()
        invariant
            i <= mcp.roots@.len(),
            extras@.len() == i,
            forall|j: int|
                0 <= j < i ==> (#[trigger] extras@[j]).1 == mcp.roots@[j].path
                    && crate::config::text_view(extras@[j].0) == crate::config::text_view(
                    mcp.roots@[j].name,
                ),
        decreases mcp.roots.len() - i,
    {
        extras.push((mcp.roots[i].name.clone(), mcp.roots[i].path.clone()));
        i = i + 1;
    }
    let mut j: usize = 0;
    while j < cli_extras.len()
        invariant
            j <= cli_extras@.len(),
            extras@.len() == mcp.roots@.len() + j,
            forall|k: int|
                0 <= k < mcp.roots@.len() ==> (#[trigger] extras@[k]).1 == mcp.roots@[k].path
                    && crate::config::text_view(extras@[k].0) == crate::config::text_view(
                    mcp.roots@[k].name,
                ),
            forall|k: int|
                mcp.roots@.len() <= k < extras@.len() ==> (#[trigger] extras@[k]).0 is None
                    && extras@[k].1 == cli_extras@[k - mcp.roots@.len()],
        decreases cli_extras.len() - j,
    {
        extras.push((None, cli_extras[j].clone()));
        j = j + 1;
    }
    assert(extra_roots(extras@, mcp.roots@, cli_extras@));
    RootRegistry::with_named(base_path, default_name, extras, disk)
}

/// The settings of a client that the command line and the settings file share.
pub struct ClientSettings {
    pub log_level: Option<String>,
    pub log_file: Option<String>,
    pub max_cached_files: Option<usize>,
    pub no_watch: bool,
    pub no_warmup: bool,
}

/// The settings in force: the command line's, then the file's, then the
/// defaults. `fallback_log` is the log file where neither names one.
pub fn resolve_defaults(args: ClientSettings, cfg: &FffConfig, fallback_log: String) -> (r: ClientSettings)
    ensures
        r.log_level == match args.log_level {
            Some(l) => Some(l),
            None => Some(cfg.log.level),
        },
        r.log_file == match (args.log_file, cfg.log.file) {
            (Some(f), _) => Some(f),
            (None, Some(f)) => Some(f),
            (None, None) => Some(fallback_log),
        },
        r.max_cached_files == match args.max_cached_files {
            Some(n) => Some(n),
            None => cfg.index.max_cached_files,
        },
        r.no_watch == (args.no_watch || cfg.index.no_watch),
        r.no_warmup == (args.no_warmup || cfg.index.no_warmup),
{
    let log_level = match args.log_level {
        Some(l) => Some(l),
        None => Some(cfg.log.level.clone()),
    };
    let log_file = match args.log_file {
        Some(f) => Some(f),
        None => match &cfg.log.file {
            Some(f) => Some(f.clone()),
            None => Some(fallback_log),
        },
    };
    let max_cached_files = match args.max_cached_files {
        Some(n) => Some(n),
        None => cfg.index.max_cached_files,
    };
    ClientSettings {
        log_level,
        log_file,
        max_cached_files,
        no_watch: args.no_watch || cfg.index.no_watch,
        no_warmup: args.no_warmup || cfg.index.no_warmup,
    }
}

/// Where a client starts: the argument, else the configured default, else the
/// current directory.
pub fn start_path(arg: Option<String>, mcp: &McpConfig, cwd: String) -> (r: String)
    ensures
        match arg {
            Some(a) => r == a,
            None => match mcp.selected() {
                Some(p) => r@ == p,
                None => r == cwd,
            },
        },
{
    match arg {
        Some(a) => a,
        None => match mcp.default_path() {
            Some(p) => p,
            None => cwd,
        },
    }
}

/// The root to index: the checkout around the start path, or the start path
/// itself outside a checkout and in a bare repository. `repository` holds the
/// checkout of the repository that was found.
pub fn index_root(start: String, repository: Option<Option<String>>) -> (r: String)
    ensures
        r == match repository {
            Some(Some(workdir)) => workdir,
            _ => start,
        },
{
    match repository {
        Some(Some(workdir)) => workdir,
        _ => start,
    }
}

/// Whether file contents are indexed: as asked for, else together with warming up.
pub fn content_indexing(asked: bool, refused: bool, no_warmup: bool) -> (r: bool)
    ensures
        r == (asked || (!refused && !no_warmup)),
{
    if asked {
        true
    } else if refused {
        false
    } else {
        !no_warmup
    }
}

/// Whether a watchdog is needed: there is a parent to watch, or an idle limit.
pub fn watchdog_needed(idle_timeout_secs: u64, has_parent: bool) -> (r: bool)
    ensures
        r == (idle_timeout_secs > 0 || has_parent),
{
    idle_timeout_secs > 0 || has_parent
}

/// Whether a client ends now. With a parent to watch it ends exactly when the
/// parent has; without one, when it has been idle for the limit, if there is one.
pub fn watchdog_exits(parent_alive: Option<bool>, idle_timeout_secs: u64, now: u64, last: u64) -> (r: bool)
    ensures
        r == match parent_alive {
            Some(alive) => !alive,
            None => idle_timeout_secs > 0 && crate::supervise::elapsed(now, last)
                >= idle_timeout_secs,
        },
{
    match parent_alive {
        Some(alive) => !alive,
        None => {
            let idle: u64 = if now >= last {
                now - last
            } else {
                0
            };
            idle_timeout_secs > 0 && idle >= idle_timeout_secs
        },
    }
}

/// Milliseconds between two looks of the watchdog: a minute, unless a debug
/// build is told otherwise.
pub fn watchdog_interval_ms(debug_build: bool, setting: Option<&str>) -> (r: u64)
    ensures
        r == match setting {
            Some(s) if debug_build && crate::text::is_u64_text(s@) => crate::text::digits_value(
                crate::text::unsigned_part(s@),
            ) as u64,
            _ => 60000,
        },
{
    if debug_build {
        if let Some(s) = setting {
            if let Some(n) = parse_u64(s) {
                return n;
            }
        }
    }
    60000
}

/// What the command that changes the engine's log filter tells the user.
pub enum LogLevelNotice {
    Changed,
    /// A text for the error stream, and an exit code of one.
    Failed(String),
    /// A text for the error stream.
    Odd(String),
}

/// What the engine's answer to a change of its log filter comes to.
pub fn log_level_notice(answer: Result<SearchResponse, String>) -> (r: LogLevelNotice)
    ensures
        match answer {
            Ok(SearchResponse::Ack) => r is Changed,
            Ok(SearchResponse::Error(e)) => r matches LogLevelNotice::Failed(m) && m@
                == "fff-engine error: "@ + e@,
            Ok(_) => r matches LogLevelNotice::Odd(m) && m@ == "Unexpected response"@,
            Err(e) => r matches LogLevelNotice::Failed(m) && m@ == "IPC error: "@ + e@,
        },
{
    match answer {
        Ok(SearchResponse::Ack) => LogLevelNotice::Changed,
        Ok(SearchResponse::Error(e)) => LogLevelNotice::Failed(
            String::from_str("fff-engine error: ").concat(e.as_str()),
        ),
        Ok(_) => LogLevelNotice::Odd(String::from_str("Unexpected response")),
        Err(e) => LogLevelNotice::Failed(String::from_str("IPC error: ").concat(e.as_str())),
    }
}

/// The default root of a client is named by the configured default where that is
/// the name of a root; else by the first configured root at its path.
pub proof fn law_how_the_default_root_is_named(
    mcp: McpConfig,
    base_path: Seq<char>,
    disk: CanonicalPaths,
    i: int,
)
    ensures
        mcp.default matches Some(d) ==> (exists|j: int|
            0 <= j < mcp.roots@.len() && ((#[trigger] mcp.roots@[j]).name matches Some(n) && n@
                == d@)) ==> default_root_name(mcp, base_path, disk) == Some(d@),
        (mcp.default matches Some(d) ==> forall|j: int|
            0 <= j < mcp.roots@.len() ==> !((#[trigger] mcp.roots@[j]).name matches Some(n) && n@
                == d@)) && 0 <= i < mcp.roots@.len() && crate::path::path_eq(
            disk.canon(mcp.roots@[i].path@),
            disk.canon(base_path),
        ) && (forall|j: int|
            0 <= j < i ==> !crate::path::path_eq(
                disk.canon((#[trigger] mcp.roots@[j]).path@),
                disk.canon(base_path),
            )) ==> default_root_name(mcp, base_path, disk) == (match mcp.roots@[i].name {
            Some(n) => Some(n@),
            None => None,
        }),
{
    crate::listing::law_a_path_is_named_by_the_first_root_at_it(
        mcp.roots@,
        disk.canon(base_path),
        disk,
        i,
    );
    if let Some(d) = mcp.default {
        if exists|j: int|
            0 <= j < mcp.roots@.len() && ((#[trigger] mcp.roots@[j]).name matches Some(n) && n@
                == d@) {
            let j = choose|j: int|
                0 <= j < mcp.roots@.len() && ((#[trigger] mcp.roots@[j]).name matches Some(n) && n@
                    == d@);
            assert(crate::config::named(mcp.roots@, j, d@));
        }
        if crate::config::has_name(mcp.roots@, d@) {
            let j = choose|j: int| #[trigger] crate::config::named(mcp.roots@, j, d@);
            assert(mcp.roots@[j].name matches Some(n) && n@ == d@);
        }
    }
}

/// The extra roots of a client are all the configured ones with their names, then
/// all those of the command line without, in order.
pub proof fn law_no_extra_root_is_lost(
    extras: Seq<(Option<String>, String)>,
    roots: Seq<crate::config::McpRoot>,
    cli: Seq<String>,
)
    requires
        extra_roots(extras, roots, cli),
    ensures
        extras.len() == roots.len() + cli.len(),
        forall|i: int|
            0 <= i < roots.len() ==> {
                &&& extras[i].1@ == (#[trigger] roots[i]).path@
                &&& roots[i].name is None ==> extras[i].0 is None
                &&& roots[i].name matches Some(n) ==> (extras[i].0 matches Some(m) && m@ == n@)
            },
        forall|i: int|
            0 <= i < cli.len() ==> extras[roots.len() + i].1@ == (#[trigger] cli[i])@
                && extras[roots.len() + i].0 is None,
{
    assert forall|i: int| 0 <= i < roots.len() implies {
        &&& extras[i].1@ == (#[trigger] roots[i]).path@
        &&& roots[i].name is None ==> extras[i].0 is None
        &&& roots[i].name matches Some(n) ==> (extras[i].0 matches Some(m) && m@ == n@)
    } by {
        assert(extras[i].1 == roots[i].path);
    }
    assert forall|i: int| 0 <= i < cli.len() implies extras[roots.len() + i].1@ == (
    #[trigger] cli[i])@ && extras[roots.len() + i].0 is None by {
        assert(extras[roots.len() + i].1 == cli[i]);
    }
}

} // verus!
