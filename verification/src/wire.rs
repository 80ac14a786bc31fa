//! Requests and results as they travel in JSON envelopes, both ways.

use crate::codec::IpcError;
use crate::protocol::{
    error_envelope, FindFilesParams, GetGitStatusParams, GrepParams, ListDirectoriesParams,
    ListRecentFilesParams, MultiGrepParams, RequestEnvelope, ResponseEnvelope, ResponseError,
    BAD_REQUEST, INTERNAL, PROTOCOL_MISMATCH,
};
use crate::text::same;
use crate::types::{
    HealthResponse, SearchRequest, SearchResponse, WireDirEntry, WireGitFile, WireGrepResponse,
    WireSearchResult,
};
use crate::verbs;
use vstd::prelude::*;

verus! {

/// The parameters of a verb.
pub enum VerbParams {
    Grep(GrepParams),
    FindFiles(FindFilesParams),
    MultiGrep(MultiGrepParams),
    ListRecentFiles(ListRecentFilesParams),
    GetGitStatus(GetGitStatusParams),
    ListDirectories(ListDirectoriesParams),
    Empty,
}

/// Which parameters a verb takes.
#[derive(Debug, Clone, Copy, PartialEq, Eq, Structural)]
pub enum ParamsKind {
    Grep,
    FindFiles,
    MultiGrep,
    ListRecentFiles,
    GetGitStatus,
    ListDirectories,
}

/// A request ready to be encoded.
pub struct OutgoingRequest {
    pub verb: &'static str,
    pub params: VerbParams,
}

/// The result of a verb.
pub enum WireResult {
    Grep(WireGrepResponse),
    Files(Vec<WireSearchResult>),
    Git(Vec<WireGitFile>),
    Directories(Vec<WireDirEntry>),
    Health(HealthResponse),
    Ack,
}

/// Which result a verb gives.
#[derive(Debug, Clone, Copy, PartialEq, Eq, Structural)]
pub enum ResultKind {
    Grep,
    SearchResults,
    RecentFiles,
    Git,
    Directories,
    Health,
}

/// The parameters that the search verbs take.
pub open spec fn kind_of_verb(verb: Seq<char>) -> Option<ParamsKind> {
    if verb == verbs::GREP@ {
        Some(ParamsKind::Grep)
    } else if verb == verbs::FIND_FILES@ {
        Some(ParamsKind::FindFiles)
    } else if verb == verbs::MULTI_GREP@ {
        Some(ParamsKind::MultiGrep)
    } else if verb == verbs::LIST_RECENT_FILES@ {
        Some(ParamsKind::ListRecentFiles)
    } else if verb == verbs::GET_GIT_STATUS@ {
        Some(ParamsKind::GetGitStatus)
    } else if verb == verbs::LIST_DIRECTORIES@ {
        Some(ParamsKind::ListDirectories)
    } else {
        None
    }
}

/// The kind of given parameters.
pub open spec fn kind_of_params(p: VerbParams) -> Option<ParamsKind> {
    match p {
        VerbParams::Grep(_) => Some(ParamsKind::Grep),
        VerbParams::FindFiles(_) => Some(ParamsKind::FindFiles),
        VerbParams::MultiGrep(_) => Some(ParamsKind::MultiGrep),
        VerbParams::ListRecentFiles(_) => Some(ParamsKind::ListRecentFiles),
        VerbParams::GetGitStatus(_) => Some(ParamsKind::GetGitStatus),
        VerbParams::ListDirectories(_) => Some(ParamsKind::ListDirectories),
        VerbParams::Empty => None,
    }
}

/// The search that given parameters ask for.
pub open spec fn request_of(p: VerbParams) -> Option<SearchRequest> {
    match p {
        VerbParams::Grep(g) => Some(SearchRequest::Grep { query: g.query, options: g.options }),
        VerbParams::FindFiles(f) => Some(
            SearchRequest::FindFiles { query: f.query, options: f.options },
        ),
        VerbParams::MultiGrep(m) => Some(
            SearchRequest::MultiGrep {
                patterns: m.patterns,
                constraints: m.constraints,
                options: m.options,
            },
        ),
        VerbParams::ListRecentFiles(l) => Some(
            SearchRequest::ListRecentFiles { limit: l.limit, dirty_only: l.dirty_only },
        ),
        VerbParams::GetGitStatus(g) => Some(
            SearchRequest::GetGitStatus { include_clean: g.include_clean },
        ),
        VerbParams::ListDirectories(l) => Some(SearchRequest::ListDirectories { limit: l.limit }),
        VerbParams::Empty => None,
    }
}

/// The verb and parameters that ask for a search; the requests that have a path
/// of their own have none.
pub open spec fn envelope_of(req: SearchRequest) -> Option<(Seq<char>, VerbParams)> {
    match req {
        SearchRequest::Grep { query, options } => Some(
            (verbs::GREP@, VerbParams::Grep(GrepParams { query, options })),
        ),
        SearchRequest::FindFiles { query, options } => Some(
            (verbs::FIND_FILES@, VerbParams::FindFiles(FindFilesParams { query, options })),
        ),
        SearchRequest::MultiGrep { patterns, constraints, options } => Some(
            (
                verbs::MULTI_GREP@,
                VerbParams::MultiGrep(MultiGrepParams { patterns, constraints, options }),
            ),
        ),
        SearchRequest::ListRecentFiles { limit, dirty_only } => Some(
            (
                verbs::LIST_RECENT_FILES@,
                VerbParams::ListRecentFiles(ListRecentFilesParams { limit, dirty_only }),
            ),
        ),
        SearchRequest::GetGitStatus { include_clean } => Some(
            (
                verbs::GET_GIT_STATUS@,
                VerbParams::GetGitStatus(GetGitStatusParams { include_clean }),
            ),
        ),
        SearchRequest::ListDirectories { limit } => Some(
            (
                verbs::LIST_DIRECTORIES@,
                VerbParams::ListDirectories(ListDirectoriesParams { limit }),
            ),
        ),
        SearchRequest::Health => Some((verbs::HEALTH@, VerbParams::Empty)),
        _ => None,
    }
}

/// Which parameters a search verb takes; `None` for every other verb.
pub fn params_kind(verb: &str) -> (r: Option<ParamsKind>)
    ensures
        r == kind_of_verb(verb@),
{
    if same(verb, verbs::GREP) {
        Some(ParamsKind::Grep)
    } else if same(verb, verbs::FIND_FILES) {
        Some(ParamsKind::FindFiles)
    } else if same(verb, verbs::MULTI_GREP) {
        Some(ParamsKind::MultiGrep)
    } else if same(verb, verbs::LIST_RECENT_FILES) {
        Some(ParamsKind::ListRecentFiles)
    } else if same(verb, verbs::GET_GIT_STATUS) {
        Some(ParamsKind::GetGitStatus)
    } else if same(verb, verbs::LIST_DIRECTORIES) {
        Some(ParamsKind::ListDirectories)
    } else {
        None
    }
}

/// A refusal of a request that makes no sense.
pub fn bad_request(message: String) -> (r: ResponseEnvelope)
    ensures
        crate::protocol::is_error(r, BAD_REQUEST@, message@, None, None),
{
    error_envelope(BAD_REQUEST, message)
}

/// The search that an envelope asks for. `decoded` holds the parameters that
/// the verb takes, as read from the envelope.
pub fn envelope_to_request(env: &RequestEnvelope, decoded: Result<VerbParams, String>) -> (r: Result<
    SearchRequest,
    ResponseEnvelope,
>)
    requires
        decoded matches Ok(p) ==> kind_of_verb(env.verb@) is Some ==> kind_of_params(p)
            == kind_of_verb(env.verb@),
    ensures
        if kind_of_verb(env.verb@) is None {
            r matches Err(e) && crate::protocol::is_error(
                e,
                BAD_REQUEST@,
                "unknown verb '"@ + env.verb@ + "'"@,
                None,
                None,
            )
        } else {
            match decoded {
                Ok(p) => r matches Ok(req) && request_of(p) == Some(req),
                Err(why) => r matches Err(e) && crate::protocol::is_error(
                    e,
                    BAD_REQUEST@,
                    "invalid params for verb '"@ + env.verb@ + "': "@ + why@,
                    None,
                    None,
                ),
            }
        },
{
    if params_kind(env.verb.as_str()).is_none() {
        return Err(
            bad_request(
                String::from_str("unknown verb '").concat(env.verb.as_str()).concat("'"),
            ),
        );
    }
    match env.params_as(decoded) {
        Err(refusal) => Err(refusal),
        Ok(p) => match p {
            VerbParams::Grep(g) => Ok(SearchRequest::Grep { query: g.query, options: g.options }),
            VerbParams::FindFiles(f) => Ok(
                SearchRequest::FindFiles { query: f.query, options: f.options },
            ),
            VerbParams::MultiGrep(m) => Ok(
                SearchRequest::MultiGrep {
                    patterns: m.patterns,
                    constraints: m.constraints,
                    options: m.options,
                },
            ),
            VerbParams::ListRecentFiles(l) => Ok(
                SearchRequest::ListRecentFiles { limit: l.limit, dirty_only: l.dirty_only },
            ),
            VerbParams::GetGitStatus(g) => Ok(
                SearchRequest::GetGitStatus { include_clean: g.include_clean },
            ),
            VerbParams::ListDirectories(l) => Ok(SearchRequest::ListDirectories { limit: l.limit }),
            VerbParams::Empty => Err(bad_request(String::new())),
        },
    }
}

/// The verb and parameters that ask for a search. `debug` is the request as
/// text, for the refusal of requests that have a path of their own.
pub fn searchrequest_to_envelope(req: SearchRequest, debug: &str) -> (r: Result<
    OutgoingRequest,
    IpcError,
>)
    ensures
        match envelope_of(req) {
            Some((verb, params)) => r matches Ok(out) && out.verb@ == verb && out.params == params,
            None => r matches Err(IpcError::Protocol(m)) && m@
                == "request not supported on the JSON search path: "@ + debug@,
        },
{
    match req {
        SearchRequest::Grep { query, options } => Ok(
            OutgoingRequest {
                verb: verbs::GREP,
                params: VerbParams::Grep(GrepParams { query, options }),
            },
        ),
        SearchRequest::FindFiles { query, options } => Ok(
            OutgoingRequest {
                verb: verbs::FIND_FILES,
                params: VerbParams::FindFiles(FindFilesParams { query, options }),
            },
        ),
        SearchRequest::MultiGrep { patterns, constraints, options } => Ok(
            OutgoingRequest {
                verb: verbs::MULTI_GREP,
                params: VerbParams::MultiGrep(MultiGrepParams { patterns, constraints, options }),
            },
        ),
        SearchRequest::ListRecentFiles { limit, dirty_only } => Ok(
            OutgoingRequest {
                verb: verbs::LIST_RECENT_FILES,
                params: VerbParams::ListRecentFiles(ListRecentFilesParams { limit, dirty_only }),
            },
        ),
        SearchRequest::GetGitStatus { include_clean } => Ok(
            OutgoingRequest {
                verb: verbs::GET_GIT_STATUS,
                params: VerbParams::GetGitStatus(GetGitStatusParams { include_clean }),
            },
        ),
        SearchRequest::ListDirectories { limit } => Ok(
            OutgoingRequest {
                verb: verbs::LIST_DIRECTORIES,
                params: VerbParams::ListDirectories(ListDirectoriesParams { limit }),
            },
        ),
        SearchRequest::Health => Ok(
            OutgoingRequest { verb: verbs::HEALTH, params: VerbParams::Empty },
        ),
        _ => Err(
            IpcError::Protocol(
                String::from_str("request not supported on the JSON search path: ").concat(debug),
            ),
        ),
    }
}

/// The result that a response carries; an error carries none.
pub open spec fn wire_of(resp: SearchResponse) -> Option<WireResult> {
    match resp {
        SearchResponse::GrepResults(w) => Some(WireResult::Grep(w)),
        SearchResponse::SearchResults(v) => Some(WireResult::Files(v)),
        SearchResponse::RecentFiles(v) => Some(WireResult::Files(v)),
        SearchResponse::GitStatus(v) => Some(WireResult::Git(v)),
        SearchResponse::Directories(v) => Some(WireResult::Directories(v)),
        SearchResponse::Health(h) => Some(WireResult::Health(h)),
        SearchResponse::Ack => Some(WireResult::Ack),
        SearchResponse::Error(_) => None,
    }
}

/// The result that a response carries, or the error to send.
pub fn searchresponse_to_wire(resp: SearchResponse) -> (r: Result<WireResult, ResponseError>)
    ensures
        match resp {
            SearchResponse::Error(m) => r matches Err(e) && {
                &&& e.code@ == INTERNAL@
                &&& e.message == m
                &&& e.engine_version is None
                &&& e.client_version is None
            },
            _ => r matches Ok(w) && wire_of(resp) == Some(w),
        },
{
    match resp {
        SearchResponse::GrepResults(w) => Ok(WireResult::Grep(w)),
        SearchResponse::SearchResults(v) => Ok(WireResult::Files(v)),
        SearchResponse::RecentFiles(v) => Ok(WireResult::Files(v)),
        SearchResponse::GitStatus(v) => Ok(WireResult::Git(v)),
        SearchResponse::Directories(v) => Ok(WireResult::Directories(v)),
        SearchResponse::Health(h) => Ok(WireResult::Health(h)),
        SearchResponse::Ack => Ok(WireResult::Ack),
        SearchResponse::Error(message) => Err(
            ResponseError {
                code: String::from_str(INTERNAL),
                message,
                engine_version: None,
                client_version: None,
            },
        ),
    }
}

/// The result that a verb gives.
pub open spec fn result_of_verb(verb: Seq<char>) -> Option<ResultKind> {
    if verb == verbs::GREP@ || verb == verbs::MULTI_GREP@ {
        Some(ResultKind::Grep)
    } else if verb == verbs::FIND_FILES@ {
        Some(ResultKind::SearchResults)
    } else if verb == verbs::LIST_RECENT_FILES@ {
        Some(ResultKind::RecentFiles)
    } else if verb == verbs::GET_GIT_STATUS@ {
        Some(ResultKind::Git)
    } else if verb == verbs::LIST_DIRECTORIES@ {
        Some(ResultKind::Directories)
    } else if verb == verbs::HEALTH@ {
        Some(ResultKind::Health)
    } else {
        None
    }
}

/// The response that a result of this kind stands for; `None` where the result
/// is of another kind.
pub open spec fn response_of(kind: ResultKind, w: WireResult) -> Option<SearchResponse> {
    match (kind, w) {
        (ResultKind::Grep, WireResult::Grep(g)) => Some(SearchResponse::GrepResults(g)),
        (ResultKind::SearchResults, WireResult::Files(v)) => Some(SearchResponse::SearchResults(v)),
        (ResultKind::RecentFiles, WireResult::Files(v)) => Some(SearchResponse::RecentFiles(v)),
        (ResultKind::Git, WireResult::Git(v)) => Some(SearchResponse::GitStatus(v)),
        (ResultKind::Directories, WireResult::Directories(v)) => Some(
            SearchResponse::Directories(v),
        ),
        (ResultKind::Health, WireResult::Health(h)) => Some(SearchResponse::Health(h)),
        _ => None,
    }
}

/// Which result a verb gives; `None` for verbs without one.
pub fn result_kind(verb: &str) -> (r: Option<ResultKind>)
    ensures
        r == result_of_verb(verb@),
{
    if same(verb, verbs::GREP) || same(verb, verbs::MULTI_GREP) {
        Some(ResultKind::Grep)
    } else if same(verb, verbs::FIND_FILES) {
        Some(ResultKind::SearchResults)
    } else if same(verb, verbs::LIST_RECENT_FILES) {
        Some(ResultKind::RecentFiles)
    } else if same(verb, verbs::GET_GIT_STATUS) {
        Some(ResultKind::Git)
    } else if same(verb, verbs::LIST_DIRECTORIES) {
        Some(ResultKind::Directories)
    } else if same(verb, verbs::HEALTH) {
        Some(ResultKind::Health)
    } else {
        None
    }
}

/// The text of an error envelope.
pub open spec fn refusal_text(error: Option<ResponseError>) -> Seq<char> {
    match error {
        Some(e) => if e.code@ == PROTOCOL_MISMATCH@ {
            PROTOCOL_MISMATCH@ + ": "@ + e.message@
        } else {
            e.message@
        },
        None => "engine returned an error without a message"@,
    }
}

/// An error response with this text.
pub open spec fn is_failure(r: SearchResponse, text: Seq<char>) -> bool {
    r matches SearchResponse::Error(m) && m@ == text
}

/// The response that an envelope stands for, for the verb that was asked.
/// `decoded` holds the envelope's result as read for the verb; it counts only
/// where there is a result and the verb gives one.
pub fn responseenvelope_to_searchresponse(
    verb: &str,
    resp: ResponseEnvelope,
    decoded: Result<WireResult, String>,
) -> (r: SearchResponse)
    requires
        (decoded matches Ok(w) && result_of_verb(verb@) matches Some(k)) ==> response_of(
            result_of_verb(verb@)->0,
            decoded->Ok_0,
        ) is Some,
    ensures
        if !resp.ok {
            is_failure(r, refusal_text(resp.error))
        } else if resp.result is None {
            is_failure(r, "engine ok response missing result"@)
        } else {
            match result_of_verb(verb@) {
                None => is_failure(r, "no result decoder for verb '"@ + verb@ + "'"@),
                Some(k) => match decoded {
                    Err(e) => is_failure(r, "malformed result: "@ + e@),
                    Ok(w) => response_of(k, w) == Some(r),
                },
            }
        },
{
    if !resp.ok {
        let message = match resp.error {
            Some(e) => if same(e.code.as_str(), PROTOCOL_MISMATCH) {
                String::from_str(PROTOCOL_MISMATCH).concat(": ").concat(e.message.as_str())
            } else {
                e.message
            },
            None => String::from_str("engine returned an error without a message"),
        };
        return SearchResponse::Error(message);
    }
    if resp.result.is_none() {
        return SearchResponse::Error(String::from_str("engine ok response missing result"));
    }
    let kind = match result_kind(verb) {
        Some(k) => k,
        None => {
            return SearchResponse::Error(
                String::from_str("no result decoder for verb '").concat(verb).concat("'"),
            );
        },
    };
    match decoded {
        Err(e) => SearchResponse::Error(String::from_str("malformed result: ").concat(e.as_str())),
        Ok(w) => match (kind, w) {
            (ResultKind::Grep, WireResult::Grep(g)) => SearchResponse::GrepResults(g),
            (ResultKind::SearchResults, WireResult::Files(v)) => SearchResponse::SearchResults(v),
            (ResultKind::RecentFiles, WireResult::Files(v)) => SearchResponse::RecentFiles(v),
            (ResultKind::Git, WireResult::Git(v)) => SearchResponse::GitStatus(v),
            (ResultKind::Directories, WireResult::Directories(v)) => SearchResponse::Directories(v),
            (ResultKind::Health, WireResult::Health(h)) => SearchResponse::Health(h),
            _ => SearchResponse::Error(String::new()),
        },
    }
}

proof fn lemma_verbs_differ()
    ensures
        verbs::GREP@ != verbs::FIND_FILES@,
        verbs::GREP@ != verbs::MULTI_GREP@,
        verbs::GREP@ != verbs::LIST_RECENT_FILES@,
        verbs::GREP@ != verbs::GET_GIT_STATUS@,
        verbs::GREP@ != verbs::LIST_DIRECTORIES@,
        verbs::GREP@ != verbs::HEALTH@,
        verbs::FIND_FILES@ != verbs::MULTI_GREP@,
        verbs::FIND_FILES@ != verbs::LIST_RECENT_FILES@,
        verbs::FIND_FILES@ != verbs::GET_GIT_STATUS@,
        verbs::FIND_FILES@ != verbs::LIST_DIRECTORIES@,
        verbs::FIND_FILES@ != verbs::HEALTH@,
        verbs::MULTI_GREP@ != verbs::LIST_RECENT_FILES@,
        verbs::MULTI_GREP@ != verbs::GET_GIT_STATUS@,
        verbs::MULTI_GREP@ != verbs::LIST_DIRECTORIES@,
        verbs::MULTI_GREP@ != verbs::HEALTH@,
        verbs::LIST_RECENT_FILES@ != verbs::GET_GIT_STATUS@,
        verbs::LIST_RECENT_FILES@ != verbs::LIST_DIRECTORIES@,
        verbs::LIST_RECENT_FILES@ != verbs::HEALTH@,
        verbs::GET_GIT_STATUS@ != verbs::LIST_DIRECTORIES@,
        verbs::GET_GIT_STATUS@ != verbs::HEALTH@,
        verbs::LIST_DIRECTORIES@ != verbs::HEALTH@,
{
    reveal_strlit("grep");
    reveal_strlit("find_files");
    reveal_strlit("multi_grep");
    reveal_strlit("list_recent_files");
    reveal_strlit("get_git_status");
    reveal_strlit("list_directories");
    reveal_strlit("health");
    assert(verbs::GREP@.len() == 4);
    assert(verbs::FIND_FILES@.len() == 10);
    assert(verbs::MULTI_GREP@.len() == 10);
    assert(verbs::FIND_FILES@[0] == 'f');
    assert(verbs::MULTI_GREP@[0] == 'm');
    assert(verbs::LIST_RECENT_FILES@.len() == 17);
    assert(verbs::GET_GIT_STATUS@.len() == 14);
    assert(verbs::LIST_DIRECTORIES@.len() == 16);
    assert(verbs::HEALTH@.len() == 6);
}

/// The engine reads back exactly the search that a client sent.
pub proof fn law_requests_survive_the_wire(req: SearchRequest)
    requires
        envelope_of(req) is Some,
        req !is Health,
    ensures
        ({
            let (verb, params) = envelope_of(req)->0;
            &&& kind_of_verb(verb) is Some
            &&& kind_of_params(params) == kind_of_verb(verb)
            &&& request_of(params) == Some(req)
        }),
{
    lemma_verbs_differ();
}

/// The response that a verb is answered with.
pub open spec fn answers(req: SearchRequest, resp: SearchResponse) -> bool {
    match req {
        SearchRequest::Grep { .. } => resp is GrepResults,
        SearchRequest::MultiGrep { .. } => resp is GrepResults,
        SearchRequest::FindFiles { .. } => resp is SearchResults,
        SearchRequest::ListRecentFiles { .. } => resp is RecentFiles,
        SearchRequest::GetGitStatus { .. } => resp is GitStatus,
        SearchRequest::ListDirectories { .. } => resp is Directories,
        SearchRequest::Health => resp is Health,
        _ => false,
    }
}

/// A client reads back exactly the result that the engine sent for its request.
pub proof fn law_results_survive_the_wire(req: SearchRequest, resp: SearchResponse)
    requires
        envelope_of(req) is Some,
        answers(req, resp),
    ensures
        ({
            let verb = (envelope_of(req)->0).0;
            &&& result_of_verb(verb) is Some
            &&& wire_of(resp) is Some
            &&& response_of(result_of_verb(verb)->0, wire_of(resp)->0) == Some(resp)
        }),
{
    lemma_verbs_differ();
}

/// Every search has an envelope of its own verb, with what the search holds; the
/// requests that are no search have none.
pub proof fn law_every_search_has_an_envelope(req: SearchRequest)
    ensures
        req matches SearchRequest::Grep { query, options } ==> envelope_of(req) == Some(
            ("grep"@, VerbParams::Grep(GrepParams { query, options })),
        ),
        req matches SearchRequest::FindFiles { query, options } ==> envelope_of(req) == Some(
            ("find_files"@, VerbParams::FindFiles(FindFilesParams { query, options })),
        ),
        req matches SearchRequest::MultiGrep { patterns, constraints, options } ==> envelope_of(req)
            == Some(
            (
                "multi_grep"@,
                VerbParams::MultiGrep(MultiGrepParams { patterns, constraints, options }),
            ),
        ),
        req matches SearchRequest::ListRecentFiles { limit, dirty_only } ==> envelope_of(req)
            == Some(
            (
                "list_recent_files"@,
                VerbParams::ListRecentFiles(ListRecentFilesParams { limit, dirty_only }),
            ),
        ),
        req matches SearchRequest::GetGitStatus { include_clean } ==> envelope_of(req) == Some(
            ("get_git_status"@, VerbParams::GetGitStatus(GetGitStatusParams { include_clean })),
        ),
        req matches SearchRequest::ListDirectories { limit } ==> envelope_of(req) == Some(
            ("list_directories"@, VerbParams::ListDirectories(ListDirectoriesParams { limit })),
        ),
        req is Health ==> envelope_of(req) == Some(("health"@, VerbParams::Empty)),
        req is Connect || req is RecordAccess || req is SetLogLevel || req is DropRoot
            ==> envelope_of(req) is None,
{
}

/// The engine reads every search back as it was sent.
pub proof fn law_every_search_is_read_back(req: SearchRequest)
    requires
        req is Grep || req is FindFiles || req is MultiGrep || req is ListRecentFiles
            || req is GetGitStatus || req is ListDirectories,
    ensures
        envelope_of(req) is Some,
        kind_of_verb((envelope_of(req)->0).0) is Some,
        kind_of_params((envelope_of(req)->0).1) == kind_of_verb((envelope_of(req)->0).0),
        request_of((envelope_of(req)->0).1) == Some(req),
{
    law_requests_survive_the_wire(req);
}

/// A client reads every result back as the engine sent it, for the verb that it
/// sent.
pub proof fn law_every_result_is_read_back(req: SearchRequest, resp: SearchResponse)
    requires
        (req is Grep && resp is GrepResults) || (req is MultiGrep && resp is GrepResults) || (
        req is FindFiles && resp is SearchResults) || (req is ListRecentFiles
            && resp is RecentFiles) || (req is GetGitStatus && resp is GitStatus) || (
        req is ListDirectories && resp is Directories) || (req is Health && resp is Health),
    ensures
        envelope_of(req) is Some,
        result_of_verb((envelope_of(req)->0).0) is Some,
        wire_of(resp) is Some,
        response_of(result_of_verb((envelope_of(req)->0).0)->0, wire_of(resp)->0) == Some(resp),
{
    law_results_survive_the_wire(req, resp);
}

/// A client is told what the engine said of a failure; a version mismatch is
/// called one.
pub proof fn law_failures_are_told(error: Option<ResponseError>)
    ensures
        error matches Some(e) ==> e.code@ != "PROTOCOL_MISMATCH"@ ==> refusal_text(error)
            == e.message@,
        error matches Some(e) ==> e.code@ == "PROTOCOL_MISMATCH"@ ==> refusal_text(error)
            == "PROTOCOL_MISMATCH"@ + ": "@ + e.message@,
        error is None ==> refusal_text(error).len() > 0,
{
    reveal_strlit("engine returned an error without a message");
}

} // verus!
