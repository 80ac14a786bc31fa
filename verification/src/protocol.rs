//! The versioned JSON envelope that rides in the frames.

use crate::text::decimal;
use crate::types::{FindOptions, GrepOptions};
use serde_json::Value;
use vstd::prelude::*;

verus! {

/// The protocol version that this engine speaks.
pub const PROTOCOL_VERSION: u32 = 1;

/// The longest frame that is read: 64 MiB.
pub const MAX_FRAME_LEN: u32 = 64 * 1024 * 1024;

/// The client speaks another protocol version.
pub const PROTOCOL_MISMATCH: &'static str = "PROTOCOL_MISMATCH";

/// The envelope or its parameters make no sense.
pub const BAD_REQUEST: &'static str = "BAD_REQUEST";

/// A valid request failed.
pub const INTERNAL: &'static str = "INTERNAL";

/// A JSON value of `serde_json`, carried through and never looked into.
#[verifier::external_type_specification]
#[verifier::external_body]
pub struct ExValue(Value);

/// A request: the client's version, a verb and the verb's parameters.
#[derive(Debug)]
pub struct RequestEnvelope {
    pub protocol_version: u32,
    pub verb: String,
    pub params: Value,
}

/// A response: a result, or an error.
#[derive(Debug)]
pub struct ResponseEnvelope {
    pub protocol_version: u32,
    pub ok: bool,
    pub result: Option<Value>,
    pub error: Option<ResponseError>,
}

/// Why a request was refused.
#[derive(Debug)]
pub struct ResponseError {
    pub code: String,
    pub message: String,
    pub engine_version: Option<u32>,
    pub client_version: Option<u32>,
}

/// Parameters of `handshake` and `connect`.
#[derive(Debug)]
pub struct BasePathParams {
    pub base_path: String,
}

/// Parameters of `grep`.
#[derive(Debug)]
pub struct GrepParams {
    pub query: String,
    pub options: GrepOptions,
}

/// Parameters of `find_files`.
#[derive(Debug)]
pub struct FindFilesParams {
    pub query: String,
    pub options: FindOptions,
}

/// Parameters of `multi_grep`.
#[derive(Debug)]
pub struct MultiGrepParams {
    pub patterns: Vec<String>,
    pub constraints: Option<String>,
    pub options: GrepOptions,
}

/// Parameters of `list_recent_files`.
#[derive(Debug)]
pub struct ListRecentFilesParams {
    pub limit: usize,
    pub dirty_only: bool,
}

/// Parameters of `get_git_status`.
#[derive(Debug)]
pub struct GetGitStatusParams {
    pub include_clean: bool,
}

/// Parameters of `list_directories`.
#[derive(Debug)]
pub struct ListDirectoriesParams {
    pub limit: usize,
}

/// Parameters of `record_access`.
#[derive(Debug)]
pub struct RecordAccessParams {
    pub path: String,
}

/// Result of `handshake`: the worker socket to use next.
#[derive(Debug)]
pub struct HandshakeResult {
    pub worker_socket: String,
    pub worker_index: u32,
}

/// One root of the `list_roots` result.
#[derive(Debug)]
pub struct WireRoot {
    pub base_path: String,
    pub name: Option<String>,
    pub default: bool,
}

/// An error envelope with this code, text and versions.
pub open spec fn is_error(
    e: ResponseEnvelope,
    code: Seq<char>,
    message: Seq<char>,
    engine_version: Option<u32>,
    client_version: Option<u32>,
) -> bool {
    &&& e.protocol_version == PROTOCOL_VERSION
    &&& !e.ok
    &&& e.result is None
    &&& e.error matches Some(err) && {
        &&& err.code@ == code
        &&& err.message@ == message
        &&& err.engine_version == engine_version
        &&& err.client_version == client_version
    }
}

/// Exactly one of result and error is there, as `ok` says.
pub open spec fn well_formed(e: ResponseEnvelope) -> bool {
    &&& e.ok == (e.result is Some)
    &&& e.ok == (e.error is None)
}

impl RequestEnvelope {
    /// A request in this engine's version.
    pub fn new(verb: &str, params: Value) -> (r: Self)
        ensures
            r.protocol_version == PROTOCOL_VERSION,
            r.verb@ == verb@,
            r.params == params,
    {
        RequestEnvelope {
            protocol_version: PROTOCOL_VERSION,
            verb: String::from_str(verb),
            params,
        }
    }

    /// The parameters as decoded for the verb; a decoding failure becomes the
    /// error envelope to send back.
    pub fn params_as<T>(&self, decoded: Result<T, String>) -> (r: Result<T, ResponseEnvelope>)
        ensures
            match decoded {
                Ok(p) => r == Ok::<T, ResponseEnvelope>(p),
                Err(e) => r matches Err(env) && is_error(
                    env,
                    BAD_REQUEST@,
                    "invalid params for verb '"@ + self.verb@ + "': "@ + e@,
                    None,
                    None,
                ),
            },
    {
        match decoded {
            Ok(p) => Ok(p),
            Err(e) => {
                let message = String::from_str("invalid params for verb '").concat(
                    self.verb.as_str(),
                ).concat("': ").concat(e.as_str());
                Err(error_envelope(BAD_REQUEST, message))
            },
        }
    }
}

impl ResponseEnvelope {
    /// A response that carries a result.
    pub fn ok(result: Value) -> (r: Self)
        ensures
            r.protocol_version == PROTOCOL_VERSION,
            r.ok,
            r.result == Some(result),
            r.error is None,
    {
        ResponseEnvelope {
            protocol_version: PROTOCOL_VERSION,
            ok: true,
            result: Some(result),
            error: None,
        }
    }

    /// A response that carries an error.
    pub fn err(error: ResponseError) -> (r: Self)
        ensures
            r.protocol_version == PROTOCOL_VERSION,
            !r.ok,
            r.result is None,
            r.error == Some(error),
    {
        ResponseEnvelope {
            protocol_version: PROTOCOL_VERSION,
            ok: false,
            result: None,
            error: Some(error),
        }
    }

    /// An ok response for an encoded result; an encoding failure becomes an
    /// internal error.
    pub fn ok_or_internal(encoded: Result<Value, String>) -> (r: Self)
        ensures
            match encoded {
                Ok(v) => {
                    &&& r.protocol_version == PROTOCOL_VERSION
                    &&& r.ok
                    &&& r.result == Some(v)
                    &&& r.error is None
                },
                Err(e) => is_error(r, INTERNAL@, "failed to serialize result: "@ + e@, None, None),
            },
    {
        match encoded {
            Ok(v) => ResponseEnvelope::ok(v),
            Err(e) => error_envelope(
                INTERNAL,
                String::from_str("failed to serialize result: ").concat(e.as_str()),
            ),
        }
    }
}

/// An error envelope that names no versions.
pub fn error_envelope(code: &str, message: String) -> (r: ResponseEnvelope)
    ensures
        is_error(r, code@, message@, None, None),
{
    ResponseEnvelope::err(
        ResponseError {
            code: String::from_str(code),
            message,
            engine_version: None,
            client_version: None,
        },
    )
}

/// The text of a version refusal.
pub open spec fn mismatch_text(client_version: u32) -> Seq<char> {
    "protocol version mismatch: engine speaks "@ + crate::text::decimal_text(
        PROTOCOL_VERSION as nat,
    ) + ", client sent "@ + crate::text::decimal_text(client_version as nat)
}

/// Accepts this engine's version only. A refusal names both versions.
pub fn check_protocol_version(client_version: u32) -> (r: Result<(), ResponseEnvelope>)
    ensures
        r is Ok <==> client_version == PROTOCOL_VERSION,
        r matches Err(env) ==> is_error(
            env,
            PROTOCOL_MISMATCH@,
            mismatch_text(client_version),
            Some(PROTOCOL_VERSION),
            Some(client_version),
        ),
{
    if client_version == PROTOCOL_VERSION {
        return Ok(());
    }
    let message = String::from_str("protocol version mismatch: engine speaks ").concat(
        decimal(PROTOCOL_VERSION as u64).as_str(),
    ).concat(", client sent ").concat(decimal(client_version as u64).as_str());
    Err(
        ResponseEnvelope::err(
            ResponseError {
                code: String::from_str(PROTOCOL_MISMATCH),
                message,
                engine_version: Some(PROTOCOL_VERSION),
                client_version: Some(client_version),
            },
        ),
    )
}

/// ASCII whitespace: space, tab, line feed, form feed, carriage return.
pub open spec fn is_blank(b: u8) -> bool {
    b == 0x20 || b == 0x09 || b == 0x0a || b == 0x0c || b == 0x0d
}

/// Position `i` holds an opening brace and everything before it is blank.
pub open spec fn brace_first_at(payload: Seq<u8>, i: int) -> bool {
    &&& 0 <= i < payload.len()
    &&& payload[i] == 0x7b
    &&& forall|j: int| 0 <= j < i ==> is_blank(#[trigger] payload[j])
}

/// The first byte that is not blank is an opening brace.
pub open spec fn sniffs_as_json(payload: Seq<u8>) -> bool {
    exists|i: int| #[trigger] brace_first_at(payload, i)
}

/// Whether a payload is a JSON envelope rather than a binary message.
pub fn looks_like_json(payload: &[u8]) -> (r: bool)
    ensures
        r == sniffs_as_json(payload@),
{
    let mut i: usize = 0;
    while i < payload.len()
        invariant
            i <= payload@.len(),
            forall|j: int| 0 <= j < i ==> is_blank(#[trigger] payload@[j]),
        decreases payload.len() - i,
    {
        let b: u8 = payload[i];
        if !(b == 0x20 || b == 0x09 || b == 0x0a || b == 0x0c || b == 0x0d) {
            proof {
                assert(payload@[i as int] == b);
                if b == 0x7b {
                    assert(brace_first_at(payload@, i as int));
                } else {
                    assert forall|k: int| !#[trigger] brace_first_at(payload@, k) by {}
                }
            }
            return b == 0x7b;
        }
        i = i + 1;
    }
    false
}

/// Every envelope that the constructors build holds exactly one of result and error.
pub proof fn law_error_envelopes_are_well_formed(
    e: ResponseEnvelope,
    code: Seq<char>,
    message: Seq<char>,
    engine_version: Option<u32>,
    client_version: Option<u32>,
)
    requires
        is_error(e, code, message, engine_version, client_version),
    ensures
        well_formed(e),
{
}

/// A binary message starts with its variant number as four little-endian bytes;
/// no message with a number below the opening brace's code is taken for JSON.
pub proof fn law_binary_messages_never_sniff_as_json(ordinal: u32, rest: Seq<u8>)
    requires
        ordinal < 0x7b,
    ensures
        !sniffs_as_json(crate::codec::le_bytes(ordinal) + rest),
{
    let all = crate::codec::le_bytes(ordinal) + rest;
    assert(all[0] == ordinal as u8);
    assert(all[1] == 0u8);
    assert forall|i: int| !#[trigger] brace_first_at(all, i) by {
        if brace_first_at(all, i) {
            if i > 1 {
                assert(is_blank(all[1]));
            }
        }
    }
}

/// A refusal says that the request failed, and why, in this engine's version.
pub proof fn law_what_a_refusal_holds(
    e: ResponseEnvelope,
    code: Seq<char>,
    message: Seq<char>,
    engine_version: Option<u32>,
    client_version: Option<u32>,
)
    requires
        is_error(e, code, message, engine_version, client_version),
    ensures
        e.protocol_version == 1,
        !e.ok,
        e.result is None,
        e.error is Some,
        e.error->0.code@ == code,
        e.error->0.message@ == message,
        e.error->0.engine_version == engine_version,
        e.error->0.client_version == client_version,
{
}

/// A payload is taken for JSON exactly where its first byte that is no white space
/// is an opening brace.
pub proof fn law_json_starts_with_a_brace(blanks: Seq<u8>, first: u8, rest: Seq<u8>)
    requires
        forall|i: int|
            0 <= i < blanks.len() ==> (#[trigger] blanks[i] == 32 || blanks[i] == 9 || blanks[i]
                == 10 || blanks[i] == 12 || blanks[i] == 13),
        first != 32 && first != 9 && first != 10 && first != 12 && first != 13,
    ensures
        sniffs_as_json(blanks.push(first) + rest) <==> first == 0x7b,
        !sniffs_as_json(blanks),
{
    let all = blanks.push(first) + rest;
    let n = blanks.len() as int;
    assert(all[n] == first);
    assert forall|i: int| 0 <= i < n implies is_blank(#[trigger] all[i]) by {
        assert(all[i] == blanks[i]);
    }
    if first == 0x7b {
        assert(brace_first_at(all, n));
    } else {
        assert forall|i: int| !#[trigger] brace_first_at(all, i) by {
            if brace_first_at(all, i) {
                if i < n {
                    assert(is_blank(all[i]));
                } else if i > n {
                    assert(is_blank(all[n]));
                }
            }
        }
    }
    assert forall|i: int| !#[trigger] brace_first_at(blanks, i) by {}
}

/// A version refusal names the version of the engine and that of the client.
pub proof fn law_a_version_refusal_names_both(client: u32)
    ensures
        mismatch_text(client) == "protocol version mismatch: engine speaks "@
            + crate::text::decimal_text(1) + ", client sent "@ + crate::text::decimal_text(
            client as nat,
        ),
        PROTOCOL_VERSION == 1,
{
}

/// The error codes as they are spelled on the wire.
pub proof fn law_how_error_codes_are_spelled()
    ensures
        PROTOCOL_MISMATCH@ == "PROTOCOL_MISMATCH"@,
        BAD_REQUEST@ == "BAD_REQUEST"@,
        INTERNAL@ == "INTERNAL"@,
{
}

} // verus!
