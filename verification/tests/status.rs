//! The status code of each error kind.

use std::collections::BTreeSet;

use vitri::status::{
    code_of, vitri_code, VITRI_ERROR_CONFIG, VITRI_ERROR_INVALID_ARGUMENT, VITRI_ERROR_IO, VITRI_ERROR_OTHER,
    VITRI_ERROR_PANIC, VITRI_OK,
};
use vitri::VitriError;
use vitri::exit::{exit_status, where_to_look};

#[test]
fn each_error_kind_has_a_code_of_its_own() {
    let errors = [
        VitriError::config("reason"),
        VitriError::spec("spec", "reason"),
        VitriError::env("VITRI_VARIABLE", "reason"),
        VitriError::input("reason"),
        VitriError::mismatch("reason"),
        VitriError::construction("spec", "reason"),
        VitriError::io("file", "read", &std::io::Error::other("reason")),
    ];
    let codes: BTreeSet<vitri_code> = errors.iter().map(code_of).collect();
    assert_eq!(codes.len(), errors.len(), "two kinds share a code: {codes:?}");
    for reserved in [
        VITRI_OK,
        VITRI_ERROR_OTHER,
        VITRI_ERROR_INVALID_ARGUMENT,
        VITRI_ERROR_PANIC,
    ] {
        assert!(
            !codes.contains(&reserved),
            "a vitri error kind was given the reserved code {reserved}"
        );
    }
}

#[test]
fn config_and_io_errors_have_their_codes() {
    assert_eq!(code_of(&VitriError::config("x")), VITRI_ERROR_CONFIG);
    assert_eq!(
        code_of(&VitriError::io("f", "read", &std::io::Error::other("x"))),
        VITRI_ERROR_IO
    );
}

#[test]
fn an_invocation_fault_exits_with_two_and_points_at_help() {
    assert_eq!(exit_status(&VitriError::config("x")), 2);
    assert_eq!(exit_status(&VitriError::env("V", "x")), 2);
    assert_eq!(exit_status(&VitriError::input("x")), 1);
    assert_eq!(where_to_look(&VitriError::spec("s", "x")), Some("run `vitri --help` for usage"));
    assert_eq!(
        where_to_look(&VitriError::env("V", "x")),
        Some("the supported variables are listed in docs/env.md")
    );
    assert_eq!(where_to_look(&VitriError::mismatch("x")), None);
}
