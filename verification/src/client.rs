//! How a client finds its engine and what it makes of the answers.

use crate::path::{join, same_path};
use crate::protocol::{HandshakeResult, ResponseEnvelope, PROTOCOL_MISMATCH, PROTOCOL_VERSION};
use crate::text::{decimal, same};
use crate::types::{MasterResponse, SearchResponse};
use vstd::prelude::*;

verus! {

/// How long a started engine may take to listen, in seconds.
pub const SPAWN_TIMEOUT_SECS: u64 = 10;

/// How long an answer to the first message may take, in seconds.
pub const HANDSHAKE_READ_TIMEOUT_SECS: u64 = 5;

/// How long an answer to a search may take, in seconds.
pub const QUERY_READ_TIMEOUT_SECS: u64 = 35;

/// A search waits longer than the engine may hold an answer back for its first scan.
pub proof fn law_searches_outwait_the_first_scan()
    ensures
        QUERY_READ_TIMEOUT_SECS * 1000 > crate::handlers::GREP_READINESS_TIMEOUT_MS,
{
}

/// A version as text.
pub open spec fn version_text(v: Option<u32>) -> Seq<char> {
    match v {
        Some(n) => "Some("@ + crate::text::decimal_text(n as nat) + ")"@,
        None => "None"@,
    }
}

fn version_string(v: Option<u32>) -> (r: String)
    ensures
        r@ == version_text(v),
{
    match v {
        Some(n) => String::from_str("Some(").concat(decimal(n as u64).as_str()).concat(")"),
        None => String::from_str("None"),
    }
}

/// The text of a refused handshake.
pub open spec fn handshake_refusal(resp: ResponseEnvelope) -> Seq<char> {
    match resp.error {
        Some(e) => if e.code@ == PROTOCOL_MISMATCH@ {
            "fff-engine protocol mismatch (engine "@ + version_text(e.engine_version) + ", client "@
                + version_text(e.client_version) + "): "@ + e.message@
        } else {
            "master handshake error ["@ + e.code@ + "]: "@ + e.message@
        },
        None => "master handshake failed without an error body"@,
    }
}

/// The text about a master that answers in another protocol version.
pub open spec fn skew_text(version: u32) -> Seq<char> {
    "fff-engine protocol mismatch (engine "@ + version_text(Some(version)) + ", client "@
        + version_text(Some(PROTOCOL_VERSION)) + "): handshake answered in another version"@
}

/// What the master's answer to a handshake comes to. An answer in another
/// protocol version is refused. `decoded` is the result as read from the
/// envelope; it counts only where there is one.
pub fn handshake_result_from_envelope(
    resp: ResponseEnvelope,
    decoded: Result<HandshakeResult, String>,
) -> (r: Result<HandshakeResult, String>)
    ensures
        if !resp.ok {
            r matches Err(m) && m@ == handshake_refusal(resp)
        } else if resp.protocol_version != PROTOCOL_VERSION {
            r matches Err(m) && m@ == skew_text(resp.protocol_version)
        } else if resp.result is None {
            r matches Err(m) && m@ == "master handshake ok response missing result"@
        } else {
            match decoded {
                Ok(h) => r == Ok::<HandshakeResult, String>(h),
                Err(e) => r matches Err(m) && m@ == "malformed handshake result: "@ + e@,
            }
        },
{
    if !resp.ok {
        return match resp.error {
            Some(e) => {
                if same(e.code.as_str(), PROTOCOL_MISMATCH) {
                    Err(
                        String::from_str("fff-engine protocol mismatch (engine ").concat(
                            version_string(e.engine_version).as_str(),
                        ).concat(", client ").concat(
                            version_string(e.client_version).as_str(),
                        ).concat("): ").concat(e.message.as_str()),
                    )
                } else {
                    Err(
                        String::from_str("master handshake error [").concat(e.code.as_str()).concat(
                            "]: ",
                        ).concat(e.message.as_str()),
                    )
                }
            },
            None => Err(String::from_str("master handshake failed without an error body")),
        };
    }
    if resp.protocol_version != PROTOCOL_VERSION {
        return Err(
            String::from_str("fff-engine protocol mismatch (engine ").concat(
                version_string(Some(resp.protocol_version)).as_str(),
            ).concat(", client ").concat(version_string(Some(PROTOCOL_VERSION)).as_str()).concat(
                "): handshake answered in another version",
            ),
        );
    }
    if resp.result.is_none() {
        return Err(String::from_str("master handshake ok response missing result"));
    }
    match decoded {
        Ok(h) => Ok(h),
        Err(e) => Err(String::from_str("malformed handshake result: ").concat(e.as_str())),
    }
}

/// The worker socket of a handshake, which must be the one that belongs to the
/// worker's index. The two texts are the paths as shown to the user.
pub fn check_worker_socket(
    result: HandshakeResult,
    expected: &str,
    shown: &str,
    expected_shown: &str,
) -> (r: Result<String, String>)
    ensures
        if crate::path::path_eq(result.worker_socket@, expected@) {
            r == Ok::<String, String>(result.worker_socket)
        } else {
            r matches Err(m) && m@ == "master returned unexpected worker socket path: "@ + shown@
                + " (expected "@ + expected_shown@ + ")"@
        },
{
    if same_path(result.worker_socket.as_str(), expected) {
        Ok(result.worker_socket)
    } else {
        Err(
            String::from_str("master returned unexpected worker socket path: ").concat(
                shown,
            ).concat(" (expected ").concat(expected_shown).concat(")"),
        )
    }
}

/// What a worker's answer to `connect` comes to.
pub fn connect_ack(resp: ResponseEnvelope) -> (r: Result<(), String>)
    ensures
        if resp.ok {
            r is Ok
        } else {
            r matches Err(m) && m@ == "worker Connect rejected: "@ + (match resp.error {
                Some(e) => e.message@,
                None => "worker Connect rejected"@,
            })
        },
{
    if resp.ok {
        return Ok(());
    }
    let start = String::from_str("worker Connect rejected: ");
    match resp.error {
        Some(e) => Err(start.concat(e.message.as_str())),
        None => Err(start.concat("worker Connect rejected")),
    }
}

/// How a client connects once the master is up, or could not be had.
pub enum ConnectStep {
    /// Ask the master for a worker.
    Handshake,
    /// Connect to the root's own engine.
    Legacy,
    Fail(String),
}

/// Without a master a client falls back to the root's own engine, if that has a socket.
pub fn connect_step(master: Result<(), String>, legacy_socket_exists: bool) -> (r: ConnectStep)
    ensures
        match master {
            Ok(()) => r is Handshake,
            Err(e) => if legacy_socket_exists {
                r is Legacy
            } else {
                r == ConnectStep::Fail(e)
            },
        },
{
    match master {
        Ok(()) => ConnectStep::Handshake,
        Err(e) => if legacy_socket_exists {
            ConnectStep::Legacy
        } else {
            ConnectStep::Fail(e)
        },
    }
}

/// What a client found out about the master.
pub enum EnsureEvent {
    /// The master's socket was looked at.
    Socket { exists: bool, ours: bool, accepts: bool },
    /// The lock file was looked at.
    Lock { exists: bool, stale: bool },
    /// The lock file was to be created.
    Race { won: bool },
    /// The engine was to be started.
    Started(Result<(), String>),
    /// The socket was waited for.
    Waited(Result<(), String>),
}

/// What a client does next to get a master.
pub enum EnsureAction {
    /// The master is up.
    Ready,
    /// Look at the lock file.
    CheckLock,
    /// Create the lock file, unless it is there; remove a stale one first.
    TakeLock { remove_stale: bool },
    /// Wait for the socket.
    Wait,
    /// Release the lock file and start the engine.
    Start,
    Fail(String),
}

/// How a client gets a master: one that answers is used; one that holds the
/// lock is waited for; else exactly the client that takes the lock starts one.
pub fn ensure_master_running(event: EnsureEvent, engine: &str) -> (r: EnsureAction)
    ensures
        match event {
            EnsureEvent::Socket { exists, ours, accepts } => if exists && ours && accepts {
                r is Ready
            } else {
                r is CheckLock
            },
            EnsureEvent::Lock { exists, stale } => if exists && !stale {
                r is Wait
            } else {
                r == (EnsureAction::TakeLock { remove_stale: exists })
            },
            EnsureEvent::Race { won } => if won {
                r is Start
            } else {
                r is Wait
            },
            EnsureEvent::Started(Ok(())) => r is Wait,
            EnsureEvent::Started(Err(e)) => r matches EnsureAction::Fail(m) && m@
                == "failed to start fff-engine --master ("@ + engine@ + "): "@ + e@,
            EnsureEvent::Waited(Ok(())) => r is Ready,
            EnsureEvent::Waited(Err(e)) => r == EnsureAction::Fail(e),
        },
{
    match event {
        EnsureEvent::Socket { exists, ours, accepts } => if exists && ours && accepts {
            EnsureAction::Ready
        } else {
            EnsureAction::CheckLock
        },
        EnsureEvent::Lock { exists, stale } => if exists && !stale {
            EnsureAction::Wait
        } else {
            EnsureAction::TakeLock { remove_stale: exists }
        },
        EnsureEvent::Race { won } => if won {
            EnsureAction::Start
        } else {
            EnsureAction::Wait
        },
        EnsureEvent::Started(Ok(())) => EnsureAction::Wait,
        EnsureEvent::Started(Err(e)) => EnsureAction::Fail(
            String::from_str("failed to start fff-engine --master (").concat(engine).concat(
                "): ",
            ).concat(e.as_str()),
        ),
        EnsureEvent::Waited(Ok(())) => EnsureAction::Ready,
        EnsureEvent::Waited(Err(e)) => EnsureAction::Fail(e),
    }
}

/// Where a search over a lost connection stands.
pub enum RecoveryEvent {
    /// The first attempt ended.
    First(Result<SearchResponse, String>),
    /// A new connection was looked for.
    Respawned(Result<(), String>),
    /// The second attempt ended.
    Second(Result<SearchResponse, String>),
}

/// What a search does next.
pub enum RecoveryAction {
    /// Look for a new connection.
    Respawn,
    /// Send the request again.
    SearchAgain,
    /// Give this to the caller.
    Return(SearchResponse),
}

/// A search that fails is sent once more over a new connection.
pub fn search_with_recovery(event: RecoveryEvent) -> (r: RecoveryAction)
    ensures
        match event {
            RecoveryEvent::First(Ok(resp)) => r == RecoveryAction::Return(resp),
            RecoveryEvent::First(Err(_)) => r is Respawn,
            RecoveryEvent::Respawned(Ok(())) => r is SearchAgain,
            RecoveryEvent::Respawned(Err(e)) => r matches RecoveryAction::Return(resp)
                && crate::wire::is_failure(resp, "fff-engine recovery failed: "@ + e@),
            RecoveryEvent::Second(Ok(resp)) => r == RecoveryAction::Return(resp),
            RecoveryEvent::Second(Err(e)) => r matches RecoveryAction::Return(resp)
                && crate::wire::is_failure(resp, "fff-engine unavailable after recovery: "@ + e@),
        },
{
    match event {
        RecoveryEvent::First(Ok(resp)) => RecoveryAction::Return(resp),
        RecoveryEvent::First(Err(_)) => RecoveryAction::Respawn,
        RecoveryEvent::Respawned(Ok(())) => RecoveryAction::SearchAgain,
        RecoveryEvent::Respawned(Err(e)) => RecoveryAction::Return(
            SearchResponse::Error(
                String::from_str("fff-engine recovery failed: ").concat(e.as_str()),
            ),
        ),
        RecoveryEvent::Second(Ok(resp)) => RecoveryAction::Return(resp),
        RecoveryEvent::Second(Err(e)) => RecoveryAction::Return(
            SearchResponse::Error(
                String::from_str("fff-engine unavailable after recovery: ").concat(e.as_str()),
            ),
        ),
    }
}

/// The failures that recovery ends in are taken for lost connections, so a pool
/// retries them once with a new one.
pub proof fn law_failed_recoveries_are_retried(e: Seq<char>)
    ensures
        crate::pool::is_lost_text("fff-engine recovery failed: "@ + e),
        crate::pool::is_lost_text("fff-engine unavailable after recovery: "@ + e),
{
    let a = "fff-engine recovery failed: "@;
    let b = "fff-engine unavailable after recovery: "@;
    reveal_strlit("fff-engine recovery failed: ");
    reveal_strlit("fff-engine unavailable after recovery: ");
    reveal_strlit("recovery");
    reveal_strlit("unavailable");
    let la = crate::text::lower_text(a + e);
    let lb = crate::text::lower_text(b + e);
    assert(la.subrange(11, 19) =~= "recovery"@);
    assert(crate::text::occurs_at(la, "recovery"@, 11));
    assert(lb.subrange(11, 22) =~= "unavailable"@);
    assert(crate::text::occurs_at(lb, "unavailable"@, 11));
}

/// Whether an engine serves a root.
#[derive(Debug)]
pub enum HealthStatus {
    Healthy,
    /// Nothing listens; this is the master's socket.
    NotStarted(String),
    ConnRefused(String),
}

/// What was found out about a root's engine.
pub enum HealthProbe {
    /// The connection to the master could not be shared.
    CloneFailed,
    /// The question could not be sent.
    SendFailed,
    /// The master answered, or what it sent could not be read.
    Answered(Option<MasterResponse>),
    /// There is no master of ours. The root's own socket was looked at, and
    /// connected to where it is there.
    NoMaster { master: String, legacy: Option<Result<(), String>> },
}

/// A refusal with this text.
pub open spec fn refused_with(r: HealthStatus, text: Seq<char>) -> bool {
    r matches HealthStatus::ConnRefused(m) && m@ == text
}

/// Whether an engine serves a root, without making it load anything.
pub fn check_health(probe: HealthProbe) -> (r: HealthStatus)
    ensures
        match probe {
            HealthProbe::CloneFailed => refused_with(r, "clone failed"@),
            HealthProbe::SendFailed => refused_with(r, "send failed"@),
            HealthProbe::Answered(Some(MasterResponse::WorkerInfo(_))) => r is Healthy,
            HealthProbe::Answered(Some(MasterResponse::Error(_))) => r is Healthy,
            HealthProbe::Answered(_) => refused_with(r, "unexpected response"@),
            HealthProbe::NoMaster { master, legacy } => match legacy {
                None => r == HealthStatus::NotStarted(master),
                Some(Ok(())) => r is Healthy,
                Some(Err(e)) => r == HealthStatus::ConnRefused(e),
            },
        },
{
    match probe {
        HealthProbe::CloneFailed => HealthStatus::ConnRefused(String::from_str("clone failed")),
        HealthProbe::SendFailed => HealthStatus::ConnRefused(String::from_str("send failed")),
        HealthProbe::Answered(Some(MasterResponse::WorkerInfo(_))) => HealthStatus::Healthy,
        HealthProbe::Answered(Some(MasterResponse::Error(_))) => HealthStatus::Healthy,
        HealthProbe::Answered(_) => HealthStatus::ConnRefused(
            String::from_str("unexpected response"),
        ),
        HealthProbe::NoMaster { master, legacy } => match legacy {
            None => HealthStatus::NotStarted(master),
            Some(Ok(())) => HealthStatus::Healthy,
            Some(Err(e)) => HealthStatus::ConnRefused(e),
        },
    }
}

/// The engine next to this program: in the first of `dirs` that holds one, else
/// by its bare name. Each directory comes with whether it holds the engine.
pub fn find_engine_bin(dirs: &Vec<(String, bool)>) -> (r: String)
    ensures
        match first_holding(dirs@) {
            Some(dir) => r@ == crate::path::joined(dir, "fff-engine"@),
            None => r@ == "fff-engine"@,
        },
{
    let mut i: usize = 0;
    assert(dirs@.skip(0) =~= dirs@);
    while i < dirs.len()
        invariant
            i <= dirs@.len(),
            first_holding(dirs@) == first_holding(dirs@.skip(i as int)),
        decreases dirs.len() - i,
    {
        assert(dirs@.skip(i as int).skip(1) =~= dirs@.skip(i + 1));
        if dirs[i].1 {
            return join(dirs[i].0.as_str(), "fff-engine");
        }
        i = i + 1;
    }
    String::from_str("fff-engine")
}

/// The first directory that holds the engine.
pub open spec fn first_holding(dirs: Seq<(String, bool)>) -> Option<Seq<char>>
    decreases dirs.len(),
{
    if dirs.len() == 0 {
        None
    } else if dirs[0].1 {
        Some(dirs[0].0@)
    } else {
        first_holding(dirs.skip(1))
    }
}

/// The engine is taken from the first directory that holds one.
pub proof fn law_the_first_engine_is_taken(dirs: Seq<(String, bool)>, i: int)
    ensures
        0 <= i < dirs.len() && dirs[i].1 && (forall|j: int|
            0 <= j < i ==> !(#[trigger] dirs[j]).1) ==> first_holding(dirs) == Some(dirs[i].0@),
        (forall|j: int| 0 <= j < dirs.len() ==> !(#[trigger] dirs[j]).1) ==> first_holding(
            dirs,
        ) is None,
    decreases dirs.len(),
{
    if dirs.len() > 0 {
        let rest = dirs.skip(1);
        law_the_first_engine_is_taken(rest, i - 1);
        if 0 < i < dirs.len() {
            assert(rest[i - 1] == dirs[i]);
            if forall|j: int| 0 <= j < i ==> !(#[trigger] dirs[j]).1 {
                assert forall|j: int| 0 <= j < i - 1 implies !(#[trigger] rest[j]).1 by {
                    assert(rest[j] == dirs[j + 1]);
                }
                assert(!dirs[0].1);
            }
        }
        if forall|j: int| 0 <= j < dirs.len() ==> !(#[trigger] dirs[j]).1 {
            assert forall|j: int| 0 <= j < rest.len() implies !(#[trigger] rest[j]).1 by {
                assert(rest[j] == dirs[j + 1]);
            }
            assert(!dirs[0].1);
        }
    }
}

/// What is told of a refused handshake ends with what the master said, where it
/// said something; a version mismatch is called one.
pub proof fn law_refusals_tell_what_the_master_said(resp: ResponseEnvelope)
    ensures
        resp.error matches Some(e) ==> {
            let t = handshake_refusal(resp);
            &&& t.len() >= e.message@.len()
            &&& t.skip(t.len() - e.message@.len()) == e.message@
            &&& e.code@ == "PROTOCOL_MISMATCH"@ ==> crate::text::contains_text(
                t,
                "protocol mismatch"@,
            )
            &&& e.code@ != "PROTOCOL_MISMATCH"@ ==> crate::text::contains_text(t, e.code@)
        },
{
    if let Some(e) = resp.error {
        let t = handshake_refusal(resp);
        assert(t.skip(t.len() - e.message@.len()) =~= e.message@);
        if e.code@ == "PROTOCOL_MISMATCH"@ {
            reveal_strlit("fff-engine protocol mismatch (engine ");
            reveal_strlit("protocol mismatch");
            assert(t.subrange(11, 28) =~= "protocol mismatch"@);
            assert(crate::text::occurs_at(t, "protocol mismatch"@, 11));
        } else {
            reveal_strlit("master handshake error [");
            assert(t.subrange(24int, 24int + e.code@.len()) =~= e.code@);
            assert(crate::text::occurs_at(t, e.code@, 24));
        }
    }
}

/// A master that answers in another version is called a mismatch, with both
/// versions.
pub proof fn law_a_skewed_answer_names_both_versions(version: u32)
    ensures
        skew_text(version) == "fff-engine protocol mismatch (engine "@ + ("Some("@
            + crate::text::decimal_text(version as nat) + ")"@) + ", client "@ + ("Some("@
            + crate::text::decimal_text(1) + ")"@) + "): handshake answered in another version"@,
        version_text(None) == "None"@,
{
}

/// A refusal of the engine is told with its text.
pub proof fn law_a_refusal_is_told(r: HealthStatus, text: Seq<char>)
    requires
        refused_with(r, text),
    ensures
        r matches HealthStatus::ConnRefused(m) && m@ == text,
{
}

/// How long a client waits: ten seconds for an engine to start, five for its first
/// answer, and thirty-five for a search.
pub proof fn law_how_long_a_client_waits()
    ensures
        SPAWN_TIMEOUT_SECS == 10,
        HANDSHAKE_READ_TIMEOUT_SECS == 5,
        QUERY_READ_TIMEOUT_SECS == 35,
{
}

} // verus!
