//! A precise mark-and-sweep heap for the values of a small Lisp, with
//! typed handles, scope tokens and the primitive procedures that use them.
use vstd::prelude::*;

pub mod builtins;
pub mod heap;
pub mod pool;
pub mod value;

verus! {

} // verus!
