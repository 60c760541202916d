//! Status codes that the host runtime reports.

use vstd::prelude::*;

verus! {

/// How this layer reads a status code of the host runtime.
///
/// Success and "a string was expected" are told apart; every other code is
/// a breach of the calling convention and is treated alike.
#[derive(Clone, Copy, Debug, PartialEq, Eq, Structural)]
pub enum Status {
    /// The call succeeded.
    Success,
    /// The call was handed a value that is not a string.
    StringExpected,
    /// Any other code.
    Failure,
}

/// The code of a successful call.
pub open spec fn success_code() -> int {
    0
}

/// The code of a call that was handed a value that is not a string.
pub open spec fn string_expected_code() -> int {
    3
}

/// Reads the constant `napi_sys::Status::napi_ok`, which that crate defines
/// as zero.
#[verifier::external_body]
fn napi_ok() -> (code: i32)
    ensures
        code == success_code(),
{
    napi_sys::Status::napi_ok
}

/// Reads the constant `napi_sys::Status::napi_string_expected`, which that
/// crate defines as three.
#[verifier::external_body]
fn napi_string_expected() -> (code: i32)
    ensures
        code == string_expected_code(),
{
    napi_sys::Status::napi_string_expected
}

impl Status {
    /// The reading of a status code.
    pub open spec fn of_code(code: int) -> Status {
        if code == success_code() {
            Status::Success
        } else if code == string_expected_code() {
            Status::StringExpected
        } else {
            Status::Failure
        }
    }

    /// Reads a status code as the host returned it.
    pub fn from_code(code: i32) -> (status: Status)
        ensures
            status == Status::of_code(code as int),
    {
        if code == napi_ok() {
            Status::Success
        } else if code == napi_string_expected() {
            Status::StringExpected
        } else {
            Status::Failure
        }
    }

    /// Whether the call succeeded.
    pub fn is_ok(&self) -> (ok: bool)
        ensures
            ok == (*self == Status::Success),
    {
        match self {
            Status::Success => true,
            _ => false,
        }
    }
}

} // verus!
