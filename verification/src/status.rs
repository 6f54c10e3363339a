//! The status codes a C caller reads: one per error kind, and the codes
//! reserved for what happens at the boundary itself.

use crate::error::{ErrorKind, VitriError};
use vstd::prelude::*;

verus! {

/// A status code: [`VITRI_OK`], or one of the `VITRI_ERROR_` values.
#[allow(non_camel_case_types)]
pub type vitri_code = i32;

/// The call succeeded.
pub const VITRI_OK: i32 = 0;

/// Error kind `config`: an unknown key, a value outside its vocabulary, or
/// settings that do not work together.
pub const VITRI_ERROR_CONFIG: i32 = 1;

/// Error kind `spec`: the `vtree` spec needs fixing.
pub const VITRI_ERROR_SPEC: i32 = 2;

/// Error kind `env`: a `VITRI_*` environment variable needs fixing.
pub const VITRI_ERROR_ENV: i32 = 3;

/// Error kind `input`: the DIMACS text cannot be used.
pub const VITRI_ERROR_INPUT: i32 = 4;

/// Error kind `mismatch`: two parts of one run describe different formulas.
pub const VITRI_ERROR_MISMATCH: i32 = 5;

/// Error kind `construction`: a vtree construction could not answer a well
/// formed request; another spec or a larger budget may.
pub const VITRI_ERROR_CONSTRUCTION: i32 = 6;

/// Error kind `io`: a file could not be read or written.
pub const VITRI_ERROR_IO: i32 = 7;

/// Error kind `argument`: an argument broke the C header's contract, such as
/// a null pointer with a nonzero length.
pub const VITRI_ERROR_INVALID_ARGUMENT: i32 = 8;

/// Error kind `panic`: vitri panicked, and the panic stopped at the boundary.
pub const VITRI_ERROR_PANIC: i32 = 9;

/// A failure the boundary could not attribute to any kind above.
pub const VITRI_ERROR_OTHER: i32 = 10;

/// The code each error kind is reported under.
pub open spec fn kind_code(k: ErrorKind) -> i32 {
    match k {
        ErrorKind::Config => VITRI_ERROR_CONFIG,
        ErrorKind::Spec => VITRI_ERROR_SPEC,
        ErrorKind::Env => VITRI_ERROR_ENV,
        ErrorKind::Input => VITRI_ERROR_INPUT,
        ErrorKind::Mismatch => VITRI_ERROR_MISMATCH,
        ErrorKind::Construction => VITRI_ERROR_CONSTRUCTION,
        ErrorKind::Io => VITRI_ERROR_IO,
    }
}

/// The status code for an error vitri returned. Exhaustive, so a kind added
/// to the library gets a code here before the crate builds again.
pub fn code_of(error: &VitriError) -> (r: i32)
    ensures
        r == kind_code(error.spec_kind()),
{
    match error.kind() {
        ErrorKind::Config => VITRI_ERROR_CONFIG,
        ErrorKind::Spec => VITRI_ERROR_SPEC,
        ErrorKind::Env => VITRI_ERROR_ENV,
        ErrorKind::Input => VITRI_ERROR_INPUT,
        ErrorKind::Mismatch => VITRI_ERROR_MISMATCH,
        ErrorKind::Construction => VITRI_ERROR_CONSTRUCTION,
        ErrorKind::Io => VITRI_ERROR_IO,
    }
}

/// No two kinds share a code, and none is given a code the boundary keeps for
/// itself: success, an unattributed failure, a broken argument, a panic.
pub proof fn lemma_codes_distinct(a: ErrorKind, b: ErrorKind)
    ensures
        a != b ==> kind_code(a) != kind_code(b),
        kind_code(a) != VITRI_OK,
        kind_code(a) != VITRI_ERROR_OTHER,
        kind_code(a) != VITRI_ERROR_INVALID_ARGUMENT,
        kind_code(a) != VITRI_ERROR_PANIC,
{
}

} // verus!
