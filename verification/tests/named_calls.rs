use napi_helpers::{get_arg, push_array, requested_arg_count, slice_buffer, CallArg, NapiValue};

#[test]
fn push_array_calls_slice_with_the_element() {
    let array = NapiValue { raw: 11 };
    let elem = NapiValue { raw: 22 };
    let call = push_array(array, elem);
    assert_eq!(call.receiver, array);
    assert_eq!(call.name, "slice");
    assert_eq!(call.args, vec![CallArg::Value(elem)]);
}

#[test]
fn slice_buffer_calls_slice_with_both_bounds() {
    let buff = NapiValue { raw: 33 };
    let call = slice_buffer(buff, 1, 4);
    assert_eq!(call.receiver, buff);
    assert_eq!(call.name, "slice");
    assert_eq!(call.args, vec![CallArg::Int32(1), CallArg::Int32(4)]);
}

#[test]
fn slice_buffer_keeps_bounds_that_fit() {
    let buff = NapiValue { raw: 33 };
    let call = slice_buffer(buff, 0, 0x7fff_ffff);
    assert_eq!(call.args, vec![CallArg::Int32(0), CallArg::Int32(i32::MAX)]);
}

#[test]
fn slice_buffer_hands_over_the_low_bits_of_a_bound() {
    let buff = NapiValue { raw: 33 };
    let call = slice_buffer(buff, 0x8000_0000, 0xffff_ffff);
    assert_eq!(call.args, vec![CallArg::Int32(i32::MIN), CallArg::Int32(-1)]);
    let call = slice_buffer(buff, usize::MAX, usize::MAX - 1);
    assert_eq!(call.args, vec![CallArg::Int32(-1), CallArg::Int32(-2)]);
}

#[test]
fn requested_count_reaches_the_index() {
    assert_eq!(requested_arg_count(0), 1);
    assert_eq!(requested_arg_count(3), 4);
    assert_eq!(requested_arg_count(usize::MAX - 1), usize::MAX);
}

#[test]
fn get_arg_picks_the_argument_at_the_index() {
    let undefined = NapiValue { raw: 1 };
    let args = vec![NapiValue { raw: 10 }, NapiValue { raw: 20 }, NapiValue { raw: 30 }];
    assert_eq!(get_arg(&args, 3, 0, undefined), NapiValue { raw: 10 });
    assert_eq!(get_arg(&args, 3, 2, undefined), NapiValue { raw: 30 });
    assert_eq!(get_arg(&args, 7, 1, undefined), NapiValue { raw: 20 });
}

#[test]
fn get_arg_falls_back_to_undefined_where_fewer_were_passed() {
    let undefined = NapiValue { raw: 1 };
    let args = vec![NapiValue { raw: 10 }, NapiValue { raw: 20 }, NapiValue { raw: 30 }];
    assert_eq!(get_arg(&args, 2, 2, undefined), undefined);
    assert_eq!(get_arg(&args, 0, 0, undefined), undefined);
    assert_eq!(get_arg(&args, 1, 0, undefined), NapiValue { raw: 10 });
}

#[test]
fn get_arg_falls_back_to_undefined_past_the_room() {
    let undefined = NapiValue { raw: 1 };
    let args = vec![NapiValue { raw: 10 }];
    assert_eq!(get_arg(&args, 5, 1, undefined), undefined);
    assert_eq!(get_arg(&args, usize::MAX, usize::MAX, undefined), undefined);
    assert_eq!(get_arg(&[], 4, 0, undefined), undefined);
}

/// What a host does with the call on a buffer that holds `bytes`.
fn run_slice(bytes: &[u8], call: &napi_helpers::NamedCall) -> Vec<u8> {
    assert_eq!(call.name, "slice");
    assert_eq!(call.args.len(), 2);
    let bound = |arg: &CallArg| match arg {
        CallArg::Int32(n) => usize::try_from(*n).unwrap(),
        CallArg::Value(_) => panic!("a bound is a number"),
    };
    bytes[bound(&call.args[0])..bound(&call.args[1])].to_vec()
}

#[test]
fn slice_of_a_copied_buffer() {
    let bytes = [1u8, 2, 3, 4, 5];
    let call = slice_buffer(NapiValue { raw: 44 }, 1, 4);
    assert_eq!(run_slice(&bytes, &call), vec![2, 3, 4]);
}
