// Memory primitives for callers on the far side of a foreign-function
// boundary: a growable byte buffer, size-tracked raw blocks, and a JSON
// string escaper that writes into fixed-size destinations.
use vstd::prelude::*;

pub mod buffer;
pub mod escape;
pub mod raw_block;

pub use buffer::SafeBuffer;
pub use escape::{
    escape_into, escape_json, escape_json_bytes, escape_json_string, needs_escaping, EscapeError,
};
pub use raw_block::{allocate, deallocate, reallocate, RawBlock};

verus! {

} // verus!
