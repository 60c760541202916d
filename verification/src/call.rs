//! Calling a function of a value by the name of the property that holds it.
//!
//! The host offers no entry point that slices a buffer or appends to an
//! array. Both are asked of the value itself: a property is looked up by
//! name and called with the value as receiver. This module says which
//! property and which arguments; the lookup and the call are the embedder's.
//! The property is found by its name alone, so a value whose property was
//! replaced runs whatever stands there now.

use vstd::prelude::*;
use crate::handle::NapiValue;

verus! {

/// One argument of a call.
#[derive(Clone, Copy, Debug, PartialEq, Eq, Structural)]
pub enum CallArg {
    /// A value that the host already holds.
    Value(NapiValue),
    /// A number that is made a value of the host before the call.
    Int32(i32),
}

/// A call of the function that a named property of `receiver` holds.
#[derive(Debug)]
pub struct NamedCall {
    /// The value whose property is looked up, and the receiver of the call.
    pub receiver: NapiValue,
    /// The name of the property.
    pub name: &'static str,
    /// The arguments, in order.
    pub args: Vec<CallArg>,
}

/// What a [`NamedCall`] says, as plain data.
pub struct NamedCallView {
    pub receiver: NapiValue,
    pub name: Seq<char>,
    pub args: Seq<CallArg>,
}

impl View for NamedCall {
    type V = NamedCallView;

    open spec fn view(&self) -> NamedCallView {
        NamedCallView { receiver: self.receiver, name: self.name@, args: self.args@ }
    }
}

/// The low 32 bits of `n`, read as a signed number.
pub open spec fn low_i32(n: int) -> int {
    let low = n % 0x1_0000_0000;
    if low < 0x8000_0000 {
        low
    } else {
        low - 0x1_0000_0000
    }
}

/// The call that appends `elem` to `array`.
///
/// The property that is called is the one named `slice`, with the element
/// as its one argument. That a function of this name appends is taken from
/// the host, not shown here.
pub open spec fn push_call(array: NapiValue, elem: NapiValue) -> NamedCallView {
    NamedCallView { receiver: array, name: "slice"@, args: seq![CallArg::Value(elem)] }
}

/// The call that takes the bytes of `buff` from `beginning` up to `end`.
///
/// Each bound is handed over as a signed 32-bit number, so only its low
/// 32 bits reach the host.
pub open spec fn slice_call(buff: NapiValue, beginning: usize, end: usize) -> NamedCallView {
    NamedCallView {
        receiver: buff,
        name: "slice"@,
        args: seq![
            CallArg::Int32(low_i32(beginning as int) as i32),
            CallArg::Int32(low_i32(end as int) as i32),
        ],
    }
}

/// The low 32 bits of a bound, as the signed number that the host is given.
fn bound_as_i32(bound: usize) -> (n: i32)
    ensures
        n == low_i32(bound as int),
{
    let wide: u64 = bound as u64;
    let n: i32 = #[verifier::truncate] (wide as i32);
    assert(n == low_i32(wide as int)) by (bit_vector)
        requires
            n == wide as i32,
    ;
    n
}

/// Says how `elem` is appended to `array`: by calling the property `slice`
/// of the array with the element as its one argument.
pub fn push_array(array: NapiValue, elem: NapiValue) -> (call: NamedCall)
    ensures
        call@ == push_call(array, elem),
{
    let mut args: Vec<CallArg> = Vec::new();
    args.push(CallArg::Value(elem));
    assert(args@ =~= seq![CallArg::Value(elem)]);
    NamedCall { receiver: array, name: "slice", args }
}

/// Says how the bytes of `buff` from `beginning` up to `end` are taken: by
/// calling the property `slice` of the buffer with the two bounds.
pub fn slice_buffer(buff: NapiValue, beginning: usize, end: usize) -> (call: NamedCall)
    ensures
        call@ == slice_call(buff, beginning, end),
{
    let first = bound_as_i32(beginning);
    let second = bound_as_i32(end);
    let mut args: Vec<CallArg> = Vec::new();
    args.push(CallArg::Int32(first));
    args.push(CallArg::Int32(second));
    assert(args@ =~= seq![CallArg::Int32(first), CallArg::Int32(second)]);
    NamedCall { receiver: buff, name: "slice", args }
}

} // verus!
