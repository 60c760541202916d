//! Reading the arguments of a call that the host makes into native code.

use vstd::prelude::*;
use crate::handle::NapiValue;

verus! {

/// The number of arguments to ask the host for, so that the one at
/// `arg_index` is among them.
pub fn requested_arg_count(arg_index: usize) -> (count: usize)
    requires
        arg_index < usize::MAX,
    ensures
        count == arg_index + 1,
{
    arg_index + 1
}

/// The argument at `arg_index` of a call.
///
/// `args` is the room that the host filled, `passed` the number of
/// arguments that it says the caller passed. Where the caller passed fewer
/// than `arg_index + 1`, or the room does not reach that far, the argument
/// is `undefined`.
pub fn get_arg(args: &[NapiValue], passed: usize, arg_index: usize, undefined: NapiValue) -> (arg:
    NapiValue)
    ensures
        arg == (if arg_index < passed && arg_index < args@.len() {
            args@[arg_index as int]
        } else {
            undefined
        }),
{
    if arg_index < passed && arg_index < args.len() {
        args[arg_index]
    } else {
        undefined
    }
}

} // verus!
