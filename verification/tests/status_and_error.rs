use napi_helpers::{NapiError, Status};

#[test]
fn code_zero_is_success() {
    assert_eq!(Status::from_code(0), Status::Success);
    assert!(Status::from_code(0).is_ok());
}

#[test]
fn code_three_is_string_expected() {
    assert_eq!(Status::from_code(3), Status::StringExpected);
    assert!(!Status::from_code(3).is_ok());
}

#[test]
fn every_other_code_is_a_failure() {
    for code in [1, 2, 4, 5, 9, 10, 21, -1, i32::MIN, i32::MAX] {
        assert_eq!(Status::from_code(code), Status::Failure);
        assert!(!Status::from_code(code).is_ok());
    }
}

#[test]
fn codes_agree_with_the_binding() {
    assert_eq!(Status::from_code(napi_sys::Status::napi_ok), Status::Success);
    assert_eq!(
        Status::from_code(napi_sys::Status::napi_string_expected),
        Status::StringExpected
    );
    assert_eq!(
        Status::from_code(napi_sys::Status::napi_generic_failure),
        Status::Failure
    );
}

#[test]
fn message_of_the_string_failure() {
    assert_eq!(
        NapiError::UnableToCreateString.message(),
        "unable to create string"
    );
}
