//! Generic numeric capabilities for the primitive integer types, with
//! decimal-digit and binary-bit decomposition and a two-valued bit type.
use vstd::prelude::*;

pub mod bit;
pub mod num;
pub mod bits;
pub mod digits;
pub mod iter;

verus! {

} // verus!
