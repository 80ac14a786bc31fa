//! Connections to a worker, in both encodings, and to a single-root engine.

use crate::protocol::{
    check_protocol_version, error_envelope, BasePathParams, RecordAccessParams, RequestEnvelope,
    ResponseEnvelope, INTERNAL,
};
use crate::text::same;
use crate::types::{SearchRequest, SearchResponse};
use crate::verbs;
use crate::wire::{bad_request, params_kind, ParamsKind};
use vstd::prelude::*;

verus! {

/// What the first message of a binary connection calls for.
pub enum FirstStep {
    /// Load this root, answer with `load_reply`, and go on where it went well.
    Load { base_path: String },
    /// Answer with the worker's health and close.
    Health,
    /// Drop this root, acknowledge and close.
    Drop { slug: String, merge_into_slug: String },
    /// Close without an answer.
    Close,
}

/// The first message must name a root, ask for health or drop a root. `None`
/// stands for a message that cannot be read.
pub fn first_request(decoded: Option<SearchRequest>) -> (r: FirstStep)
    ensures
        match decoded {
            Some(SearchRequest::Connect { base_path }) => r == (FirstStep::Load { base_path }),
            Some(SearchRequest::Health) => r is Health,
            Some(SearchRequest::DropRoot { slug, merge_into_slug }) => r == (FirstStep::Drop {
                slug,
                merge_into_slug,
            }),
            _ => r is Close,
        },
{
    match decoded {
        Some(SearchRequest::Connect { base_path }) => FirstStep::Load { base_path },
        Some(SearchRequest::Health) => FirstStep::Health,
        Some(SearchRequest::DropRoot { slug, merge_into_slug }) => FirstStep::Drop {
            slug,
            merge_into_slug,
        },
        _ => FirstStep::Close,
    }
}

/// The answer to a first message that names a root; the connection stays open
/// only where the root was loaded.
pub fn load_reply(loaded: Result<(), String>) -> (r: (SearchResponse, bool))
    ensures
        match loaded {
            Ok(()) => r.0 is Ack && r.1,
            Err(e) => r.0 == SearchResponse::Error(e) && !r.1,
        },
{
    match loaded {
        Ok(()) => (SearchResponse::Ack, true),
        Err(e) => (SearchResponse::Error(e), false),
    }
}

/// What a later message of a binary connection calls for.
pub enum SessionStep {
    /// Count an access; nothing is answered.
    Record { path: String },
    /// Change the log filter and answer with `log_level_reply`.
    SetLogLevel { level: String },
    /// Search and answer.
    Dispatch(SearchRequest),
    /// Answer, then close.
    ReplyAndClose(SearchResponse),
    /// Acknowledge.
    Acknowledge,
    /// Close without an answer.
    Close,
}

/// What a later message of a binary connection calls for. A root can be named
/// or dropped in the first message only.
pub fn next_request(decoded: Option<SearchRequest>) -> (r: SessionStep)
    ensures
        match decoded {
            None => r is Close,
            Some(SearchRequest::Connect { .. }) => r matches SessionStep::ReplyAndClose(resp)
                && crate::wire::is_failure(resp, "unexpected Connect after handshake"@),
            Some(SearchRequest::DropRoot { .. }) => r matches SessionStep::ReplyAndClose(resp)
                && crate::wire::is_failure(resp, "unexpected DropRoot mid-session"@),
            Some(SearchRequest::RecordAccess { path }) => r == (SessionStep::Record { path }),
            Some(SearchRequest::SetLogLevel { level }) => r == (SessionStep::SetLogLevel { level }),
            Some(req) => r == SessionStep::Dispatch(req),
        },
{
    match decoded {
        None => SessionStep::Close,
        Some(req) => match req {
            SearchRequest::Connect { .. } => SessionStep::ReplyAndClose(
                SearchResponse::Error(String::from_str("unexpected Connect after handshake")),
            ),
            SearchRequest::DropRoot { .. } => SessionStep::ReplyAndClose(
                SearchResponse::Error(String::from_str("unexpected DropRoot mid-session")),
            ),
            SearchRequest::RecordAccess { path } => SessionStep::Record { path },
            SearchRequest::SetLogLevel { level } => SessionStep::SetLogLevel { level },
            other => SessionStep::Dispatch(other),
        },
    }
}

/// What a message to a single-root engine calls for. It has no roots to drop,
/// so dropping one is acknowledged.
pub fn singleton_request(decoded: Option<SearchRequest>) -> (r: SessionStep)
    ensures
        match decoded {
            None => r is Close,
            Some(SearchRequest::RecordAccess { path }) => r == (SessionStep::Record { path }),
            Some(SearchRequest::SetLogLevel { level }) => r == (SessionStep::SetLogLevel { level }),
            Some(SearchRequest::DropRoot { .. }) => r is Acknowledge,
            Some(req) => r == SessionStep::Dispatch(req),
        },
{
    match decoded {
        None => SessionStep::Close,
        Some(req) => match req {
            SearchRequest::RecordAccess { path } => SessionStep::Record { path },
            SearchRequest::SetLogLevel { level } => SessionStep::SetLogLevel { level },
            SearchRequest::DropRoot { .. } => SessionStep::Acknowledge,
            other => SessionStep::Dispatch(other),
        },
    }
}

/// The answer to a change of the log filter.
pub fn log_level_reply(changed: Result<(), String>) -> (r: SearchResponse)
    ensures
        match changed {
            Ok(()) => r is Ack,
            Err(e) => r == SearchResponse::Error(e),
        },
{
    match changed {
        Ok(()) => SearchResponse::Ack,
        Err(e) => SearchResponse::Error(e),
    }
}

/// The matches of the first `n` files.
pub open spec fn match_total(files: Seq<crate::types::WireGrepFileMatches>) -> nat
    decreases files.len(),
{
    if files.len() == 0 {
        0
    } else {
        match_total(files.drop_last()) + files.last().matches@.len()
    }
}

/// How many results a response holds.
pub open spec fn result_total(resp: SearchResponse) -> nat {
    match resp {
        SearchResponse::GrepResults(r) => match_total(r.matches@),
        SearchResponse::SearchResults(r) => r@.len(),
        SearchResponse::RecentFiles(r) => r@.len(),
        SearchResponse::GitStatus(r) => r@.len(),
        SearchResponse::Directories(r) => r@.len(),
        SearchResponse::Health(r) => r.roots@.len(),
        SearchResponse::Error(_) => 0,
        SearchResponse::Ack => 0,
    }
}

proof fn lemma_match_total_grows(files: Seq<crate::types::WireGrepFileMatches>, n: int)
    requires
        0 <= n <= files.len(),
    ensures
        match_total(files.take(n)) <= match_total(files),
    decreases files.len(),
{
    if n == files.len() {
        assert(files.take(n) =~= files);
    } else {
        lemma_match_total_grows(files.drop_last(), n);
        assert(files.drop_last().take(n) =~= files.take(n));
    }
}

/// How many results a response holds, where a machine can count them.
pub fn result_count(resp: &SearchResponse) -> (r: Option<usize>)
    ensures
        match r {
            Some(n) => n == result_total(*resp),
            None => result_total(*resp) > usize::MAX,
        },
{
    match resp {
        SearchResponse::GrepResults(r) => {
            let mut total: usize = 0;
            let mut i: usize = 0;
            assert(r.matches@.take(0) =~= Seq::empty());
            while i < r.matches.len()
                invariant
                    i <= r.matches@.len(),
                    total == match_total(r.matches@.take(i as int)),
                    result_total(*resp) == match_total(r.matches@),
                decreases r.matches.len() - i,
            {
                assert(r.matches@.take(i + 1).drop_last() =~= r.matches@.take(i as int));
                proof {
                    lemma_match_total_grows(r.matches@, i + 1);
                }
                match total.checked_add(r.matches[i].matches.len()) {
                    Some(n) => {
                        total = n;
                    },
                    None => return None,
                }
                i = i + 1;
            }
            assert(r.matches@.take(i as int) =~= r.matches@);
            Some(total)
        },
        SearchResponse::SearchResults(r) => Some(r.len()),
        SearchResponse::RecentFiles(r) => Some(r.len()),
        SearchResponse::GitStatus(r) => Some(r.len()),
        SearchResponse::Directories(r) => Some(r.len()),
        SearchResponse::Health(r) => Some(r.roots.len()),
        SearchResponse::Error(_) => Some(0),
        SearchResponse::Ack => Some(0),
    }
}

/// What the first message of a JSON connection calls for.
pub enum JsonFirst {
    /// Read the parameters and load the root.
    Connect(RequestEnvelope),
    /// Answer with the worker's health and close.
    Health,
    /// Answer, then close.
    ReplyAndClose(ResponseEnvelope),
}

/// The first message must connect or ask for health, in this engine's version.
/// `None` stands for a message that cannot be read.
pub fn first_json(decoded: Option<RequestEnvelope>) -> (r: JsonFirst)
    ensures
        match decoded {
            None => r matches JsonFirst::ReplyAndClose(e) && crate::protocol::is_error(
                e,
                crate::protocol::BAD_REQUEST@,
                "malformed JSON envelope"@,
                None,
                None,
            ),
            Some(env) => if env.protocol_version != crate::protocol::PROTOCOL_VERSION {
                r matches JsonFirst::ReplyAndClose(e) && crate::protocol::is_error(
                    e,
                    crate::protocol::PROTOCOL_MISMATCH@,
                    crate::protocol::mismatch_text(env.protocol_version),
                    Some(crate::protocol::PROTOCOL_VERSION),
                    Some(env.protocol_version),
                )
            } else if env.verb@ == verbs::CONNECT@ {
                r == JsonFirst::Connect(env)
            } else if env.verb@ == verbs::HEALTH@ {
                r is Health
            } else {
                r matches JsonFirst::ReplyAndClose(e) && crate::protocol::is_error(
                    e,
                    crate::protocol::BAD_REQUEST@,
                    "first JSON message must be 'connect' or 'health'"@,
                    None,
                    None,
                )
            },
        },
{
    match decoded {
        None => JsonFirst::ReplyAndClose(bad_request(String::from_str("malformed JSON envelope"))),
        Some(env) => {
            if let Err(refusal) = check_protocol_version(env.protocol_version) {
                return JsonFirst::ReplyAndClose(refusal);
            }
            if same(env.verb.as_str(), verbs::CONNECT) {
                JsonFirst::Connect(env)
            } else if same(env.verb.as_str(), verbs::HEALTH) {
                JsonFirst::Health
            } else {
                JsonFirst::ReplyAndClose(
                    bad_request(
                        String::from_str("first JSON message must be 'connect' or 'health'"),
                    ),
                )
            }
        },
    }
}

/// The root that a `connect` names, as read from its parameters.
pub fn connect_root(env: &RequestEnvelope, decoded: Result<BasePathParams, String>) -> (r: Result<
    String,
    ResponseEnvelope,
>)
    ensures
        match decoded {
            Ok(p) => r == Ok::<String, ResponseEnvelope>(p.base_path),
            Err(why) => r matches Err(e) && crate::protocol::is_error(
                e,
                crate::protocol::BAD_REQUEST@,
                "invalid params for verb '"@ + env.verb@ + "': "@ + why@,
                None,
                None,
            ),
        },
{
    match env.params_as(decoded) {
        Ok(p) => Ok(p.base_path),
        Err(e) => Err(e),
    }
}

/// What loading the root comes to: the connection goes on, or is refused.
pub fn connect_reply(loaded: Result<(), String>) -> (r: Result<(), ResponseEnvelope>)
    ensures
        match loaded {
            Ok(()) => r is Ok,
            Err(why) => r matches Err(e) && crate::protocol::is_error(
                e,
                INTERNAL@,
                why@,
                None,
                None,
            ),
        },
{
    match loaded {
        Ok(()) => Ok(()),
        Err(why) => Err(error_envelope(INTERNAL, why)),
    }
}

/// What a later message of a JSON connection calls for.
pub enum JsonStep {
    /// Count an access, as the parameters tell; nothing is answered.
    Record(RequestEnvelope),
    /// Read parameters of this kind, then search and answer.
    Search(RequestEnvelope, ParamsKind),
    /// Answer with this.
    Reply(ResponseEnvelope),
    /// Answer, then close.
    ReplyAndClose(ResponseEnvelope),
}

/// What a later message of a JSON connection calls for. A message that cannot
/// be read ends the connection; an unknown verb does not.
pub fn next_json(decoded: Option<RequestEnvelope>) -> (r: JsonStep)
    ensures
        match decoded {
            None => r matches JsonStep::ReplyAndClose(e) && crate::protocol::is_error(
                e,
                crate::protocol::BAD_REQUEST@,
                "malformed JSON envelope"@,
                None,
                None,
            ),
            Some(env) => if env.verb@ == verbs::RECORD_ACCESS@ {
                r == JsonStep::Record(env)
            } else {
                match crate::wire::kind_of_verb(env.verb@) {
                    Some(kind) => r == JsonStep::Search(env, kind),
                    None => r matches JsonStep::Reply(e) && crate::protocol::is_error(
                        e,
                        crate::protocol::BAD_REQUEST@,
                        "unknown verb '"@ + env.verb@ + "'"@,
                        None,
                        None,
                    ),
                }
            },
        },
{
    match decoded {
        None => JsonStep::ReplyAndClose(bad_request(String::from_str("malformed JSON envelope"))),
        Some(env) => {
            if same(env.verb.as_str(), verbs::RECORD_ACCESS) {
                return JsonStep::Record(env);
            }
            match params_kind(env.verb.as_str()) {
                Some(kind) => JsonStep::Search(env, kind),
                None => {
                    let message = String::from_str("unknown verb '").concat(
                        env.verb.as_str(),
                    ).concat("'");
                    JsonStep::Reply(bad_request(message))
                },
            }
        },
    }
}

/// The path of an access to count; parameters that cannot be read are dropped
/// without an answer.
pub fn recorded_path(decoded: Result<RecordAccessParams, String>) -> (r: Option<String>)
    ensures
        r == match decoded {
            Ok(p) => Some(p.path),
            Err(_) => None,
        },
{
    match decoded {
        Ok(p) => Some(p.path),
        Err(_) => None,
    }
}

/// The results of a response are counted one by one: every match of a content
/// search, every entry of a list; errors and acknowledgements hold none.
pub proof fn law_how_results_are_counted(resp: SearchResponse)
    ensures
        resp matches SearchResponse::GrepResults(g) ==> result_total(resp) == g.matches@.fold_left(
            0int,
            |n: int, f: crate::types::WireGrepFileMatches| n + f.matches@.len(),
        ),
        resp matches SearchResponse::SearchResults(v) ==> result_total(resp) == v@.len(),
        resp matches SearchResponse::RecentFiles(v) ==> result_total(resp) == v@.len(),
        resp matches SearchResponse::GitStatus(v) ==> result_total(resp) == v@.len(),
        resp matches SearchResponse::Directories(v) ==> result_total(resp) == v@.len(),
        resp matches SearchResponse::Health(h) ==> result_total(resp) == h.roots@.len(),
        resp is Error || resp is Ack ==> result_total(resp) == 0,
{
    if let SearchResponse::GrepResults(g) = resp {
        lemma_match_total_is_a_sum(g.matches@);
    }
}

proof fn lemma_match_total_is_a_sum(files: Seq<crate::types::WireGrepFileMatches>)
    ensures
        match_total(files) == files.fold_left(
            0int,
            |n: int, f: crate::types::WireGrepFileMatches| n + f.matches@.len(),
        ),
    decreases files.len(),
{
    if files.len() > 0 {
        lemma_match_total_is_a_sum(files.drop_last());
    }
}

} // verus!
