//! Handles of the host runtime, held as the plain addresses they are.

use vstd::prelude::*;

verus! {

/// The handle of one execution context of the host runtime.
///
/// The context is owned by the host; the handle is only carried along.
#[derive(Clone, Copy, Debug, PartialEq, Eq, Hash, Structural)]
pub struct NapiEnv {
    pub env: usize,
}

/// The handle of a value that the host runtime manages.
///
/// Two handles are equal when they are the same handle: nothing is known
/// here of the value behind one.
#[derive(Clone, Copy, Debug, PartialEq, Eq, Hash, Structural)]
pub struct NapiValue {
    pub raw: usize,
}

} // verus!
