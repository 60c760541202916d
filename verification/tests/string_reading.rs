use napi_helpers::string::length_property;
use napi_helpers::{check_length_probe, get_string, string_buffer_len, NapiError, Status};

#[test]
fn length_property_is_named_length() {
    assert_eq!(length_property(), "length");
}

#[test]
fn probe_goes_on_after_success() {
    assert_eq!(check_length_probe(Status::Success), Ok(()));
}

#[test]
fn probe_fails_on_any_other_status() {
    assert_eq!(
        check_length_probe(Status::StringExpected),
        Err(NapiError::UnableToCreateString)
    );
    assert_eq!(
        check_length_probe(Status::Failure),
        Err(NapiError::UnableToCreateString)
    );
}

#[test]
fn buffer_holds_one_byte_more_than_the_length() {
    assert_eq!(string_buffer_len(0), 1);
    assert_eq!(string_buffer_len(5), 6);
    assert_eq!(string_buffer_len(u32::MAX), 4_294_967_296);
}

#[test]
fn written_bytes_are_decoded() {
    let buffer = vec![b'h', b'e', b'l', b'l', b'o', 0];
    assert_eq!(
        get_string(Status::Success, buffer, 5),
        Ok(String::from("hello"))
    );
}

#[test]
fn bytes_after_the_written_count_are_dropped() {
    let buffer = vec![b'a', b'b', b'c', 0xff, 0xff, 0xff];
    assert_eq!(get_string(Status::Success, buffer, 3), Ok(String::from("abc")));
}

#[test]
fn nothing_written_is_the_empty_string() {
    assert_eq!(get_string(Status::Success, vec![0], 0), Ok(String::new()));
    assert_eq!(get_string(Status::Success, Vec::new(), 0), Ok(String::new()));
}

#[test]
fn a_count_past_the_buffer_takes_the_whole_buffer() {
    let buffer = vec![b'o', b'k'];
    assert_eq!(get_string(Status::Success, buffer, 9), Ok(String::from("ok")));
}

#[test]
fn text_of_several_bytes_per_character_comes_back() {
    let text = "h\u{e9}llo \u{4e16}\u{754c} \u{1f600}";
    let mut buffer = text.as_bytes().to_vec();
    let written = buffer.len();
    buffer.push(0);
    assert_eq!(
        get_string(Status::Success, buffer, written),
        Ok(String::from(text))
    );
}

#[test]
fn a_character_cut_in_two_is_not_a_string() {
    let buffer = "\u{e9}".as_bytes().to_vec();
    assert_eq!(
        get_string(Status::Success, buffer, 1),
        Err(NapiError::UnableToCreateString)
    );
}

#[test]
fn bytes_that_are_not_utf8_are_not_a_string() {
    assert_eq!(
        get_string(Status::Success, vec![0xff, 0xfe, 0], 2),
        Err(NapiError::UnableToCreateString)
    );
    assert_eq!(
        get_string(Status::Success, vec![0xc0, 0x80], 2),
        Err(NapiError::UnableToCreateString)
    );
}

#[test]
fn encodings_that_utf8_rules_out_are_not_a_string() {
    for bytes in [
        vec![0xed, 0xa0, 0x80],
        vec![0xf4, 0x90, 0x80, 0x80],
        vec![0xe0, 0x80, 0x80],
        vec![0x80],
        vec![b'a', 0xc3],
    ] {
        let written = bytes.len();
        assert_eq!(
            get_string(Status::Success, bytes, written),
            Err(NapiError::UnableToCreateString)
        );
    }
}

#[test]
fn the_ends_of_each_width_are_strings() {
    for text in ["\u{0}", "\u{7f}", "\u{80}", "\u{7ff}", "\u{800}", "\u{d7ff}", "\u{e000}",
        "\u{ffff}", "\u{10000}", "\u{10ffff}"]
    {
        let bytes = text.as_bytes().to_vec();
        let written = bytes.len();
        assert_eq!(
            get_string(Status::Success, bytes, written),
            Ok(String::from(text))
        );
    }
}

#[test]
fn get_string_on_a_value_that_is_no_string_fails() {
    assert_eq!(
        get_string(Status::StringExpected, vec![0; 4], 0),
        Err(NapiError::UnableToCreateString)
    );
    assert_eq!(
        get_string(Status::StringExpected, vec![b'a', b'b', 0], 2),
        Err(NapiError::UnableToCreateString)
    );
}
