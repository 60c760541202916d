//! Taking a string out of the host runtime.
//!
//! The host is asked three things in turn: the `length` property of the
//! value, that property as an unsigned number, and the UTF-8 bytes of the
//! value, written into a buffer that holds one byte more than the length.
//! Between the calls stand the decisions of this module.

use vstd::prelude::*;
use vstd::utf8::*;
use crate::error::NapiError;
use crate::status::Status;

verus! {

/// The name of the property whose value sizes the buffer.
pub fn length_property() -> (name: &'static str)
    ensures
        name@ == "length"@,
{
    "length"
}

/// Decides, from the status of reading the `length` property, whether the
/// value can be read further: it can when the read succeeded, and on any
/// other status the value cannot be made a string.
pub fn check_length_probe(status: Status) -> (outcome: Result<(), NapiError>)
    ensures
        status == Status::Success ==> outcome == Ok::<(), NapiError>(()),
        status != Status::Success ==> outcome == Err::<(), NapiError>(
            NapiError::UnableToCreateString,
        ),
{
    match status {
        Status::Success => Ok(()),
        _ => Err(NapiError::UnableToCreateString),
    }
}

/// The number of bytes of the buffer that the host writes into: the length
/// that the value reported, and one more for the byte that ends the text.
pub fn string_buffer_len(length: u32) -> (size: u64)
    ensures
        size == length + 1,
{
    length as u64 + 1
}

/// The bytes that the host wrote: the first `written` of the buffer, or all
/// of it where it holds no more.
pub open spec fn written_bytes(buffer: Seq<u8>, written: nat) -> Seq<u8> {
    if written <= buffer.len() {
        buffer.take(written as int)
    } else {
        buffer
    }
}

/// What reading a string comes to, given the status of the extraction and
/// the bytes in the buffer.
pub open spec fn string_outcome(status: Status, buffer: Seq<u8>, written: nat) -> Result<
    Seq<char>,
    NapiError,
> {
    if status == Status::Success && valid_utf8(written_bytes(buffer, written)) {
        Ok(decode_utf8(written_bytes(buffer, written)))
    } else {
        Err(NapiError::UnableToCreateString)
    }
}

/// Calls `String::from_utf8` of std. That function returns the bytes as a
/// string when they are UTF-8, and fails when they are not.
#[verifier::external_body]
fn string_from_utf8(bytes: Vec<u8>) -> (text: Option<String>)
    ensures
        text is Some <==> valid_utf8(bytes@),
        text matches Some(s) ==> s@ == decode_utf8(bytes@),
{
    match String::from_utf8(bytes) {
        Ok(s) => Some(s),
        Err(_) => None,
    }
}

/// Finishes the reading of a string once the host has written into the
/// buffer.
///
/// `status` is what the extraction returned, `written` the count of bytes
/// that it reported. The text is the first `written` bytes of the buffer,
/// decoded. It fails when the host expected a string and got another value,
/// and when the bytes are not UTF-8. Any other status breaks the calling
/// convention and is left out.
pub fn get_string(status: Status, buffer: Vec<u8>, written: usize) -> (outcome: Result<
    String,
    NapiError,
>)
    requires
        status == Status::Success || status == Status::StringExpected,
    ensures
        (match outcome {
            Ok(text) => string_outcome(status, buffer@, written as nat) == Ok::<
                Seq<char>,
                NapiError,
            >(text@),
            Err(e) => string_outcome(status, buffer@, written as nat) == Err::<
                Seq<char>,
                NapiError,
            >(e),
        }),
{
    match status {
        Status::Success => {
            let mut bytes = buffer;
            bytes.truncate(written);
            assert(bytes@ =~= written_bytes(buffer@, written as nat));
            match string_from_utf8(bytes) {
                Some(text) => Ok(text),
                None => Err(NapiError::UnableToCreateString),
            }
        },
        _ => Err(NapiError::UnableToCreateString),
    }
}

/// A text that went into the host and came back byte for byte is read as
/// the same text.
pub proof fn lemma_string_round_trip(text: Seq<char>, buffer: Seq<u8>, written: nat)
    requires
        written_bytes(buffer, written) == encode_utf8(text),
    ensures
        string_outcome(Status::Success, buffer, written) == Ok::<Seq<char>, NapiError>(text),
{
    encode_utf8_valid_utf8(text);
    encode_utf8_decode_utf8(text);
}

/// A value that the host does not take for a string is never read as one.
pub proof fn lemma_not_a_string(buffer: Seq<u8>, written: nat)
    ensures
        string_outcome(Status::StringExpected, buffer, written) == Err::<Seq<char>, NapiError>(
            NapiError::UnableToCreateString,
        ),
{
}

} // verus!
