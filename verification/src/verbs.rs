//! The verb names of the JSON protocol.

use vstd::prelude::*;

verus! {

pub const HANDSHAKE: &'static str = "handshake";
pub const CONNECT: &'static str = "connect";
pub const GREP: &'static str = "grep";
pub const FIND_FILES: &'static str = "find_files";
pub const MULTI_GREP: &'static str = "multi_grep";
pub const LIST_RECENT_FILES: &'static str = "list_recent_files";
pub const GET_GIT_STATUS: &'static str = "get_git_status";
pub const LIST_DIRECTORIES: &'static str = "list_directories";
pub const RECORD_ACCESS: &'static str = "record_access";
pub const LIST_ROOTS: &'static str = "list_roots";
pub const HEALTH: &'static str = "health";

/// The verbs as they are spelled on the wire.
pub proof fn law_how_verbs_are_spelled()
    ensures
        HANDSHAKE@ == "handshake"@,
        CONNECT@ == "connect"@,
        GREP@ == "grep"@,
        FIND_FILES@ == "find_files"@,
        MULTI_GREP@ == "multi_grep"@,
        LIST_RECENT_FILES@ == "list_recent_files"@,
        GET_GIT_STATUS@ == "get_git_status"@,
        LIST_DIRECTORIES@ == "list_directories"@,
        RECORD_ACCESS@ == "record_access"@,
        LIST_ROOTS@ == "list_roots"@,
        HEALTH@ == "health"@,
{
}

} // verus!
