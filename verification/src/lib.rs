//! The decisions of a helper layer over the Node-API native-addon boundary.
//!
//! Every call into the host runtime is made by the embedding crate. What that
//! crate has to decide between two calls is decided here, on plain values:
//! how a status code is read, how a string is taken out of the host, how an
//! array of the host is walked, how the properties of an object are collected
//! into an ordered mapping, and which function of a value is called by name.

pub mod array;
pub mod call;
pub mod callback;
pub mod error;
pub mod handle;
pub mod object;
pub mod status;
pub mod string;

pub use array::NapiArray;
pub use call::{push_array, slice_buffer, CallArg, NamedCall};
pub use callback::{get_arg, requested_arg_count};
pub use error::NapiError;
pub use handle::{NapiEnv, NapiValue};
pub use object::{get_object_map, Property, PropertyMap};
pub use status::Status;
pub use string::{check_length_probe, get_string, string_buffer_len};
