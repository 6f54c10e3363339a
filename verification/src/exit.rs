//! How the command-line tool ends on a failure: the process status, and
//! where the message sends the user for an answer.

use crate::error::{ErrorKind, VitriError};
use vstd::prelude::*;

verus! {

/// Whether a failure of kind `k` is the invocation's fault: a bad argument,
/// a flag combination that would do nothing, an unusable `VITRI_*` variable.
pub open spec fn invocation_fault(k: ErrorKind) -> bool {
    k == ErrorKind::Config || k == ErrorKind::Spec || k == ErrorKind::Env
}

/// The process status for a failure: 2 when the invocation itself is wrong
/// and nothing ran, 1 when the invocation was fine and the work failed.
pub fn exit_status(e: &VitriError) -> (r: i32)
    ensures
        r == if invocation_fault(e.spec_kind()) { 2i32 } else { 1i32 },
{
    match e.kind() {
        ErrorKind::Config | ErrorKind::Spec | ErrorKind::Env => 2,
        _ => 1,
    }
}

/// The one-line pointer printed under a failure's message, or `None` when
/// the message stands on its own: `--help` answers a bad argument or a spec,
/// the variable list answers an environment error, and a run that started and
/// then failed has nowhere to be sent.
pub fn where_to_look(e: &VitriError) -> (r: Option<&'static str>)
    ensures
        match e.spec_kind() {
            ErrorKind::Config | ErrorKind::Spec => r matches Some(s) && s@ == "run `vitri --help` for usage"@,
            ErrorKind::Env => r matches Some(s) && s@ == "the supported variables are listed in docs/env.md"@,
            _ => r is None,
        },
{
    match e.kind() {
        ErrorKind::Config | ErrorKind::Spec => Some("run `vitri --help` for usage"),
        ErrorKind::Env => Some("the supported variables are listed in docs/env.md"),
        _ => None,
    }
}

} // verus!
