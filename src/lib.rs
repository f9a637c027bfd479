//! Language back ends of a source-code generator: token streams holding
//! literal text and typed symbol references, import collection and
//! resolution, and file assembly for Go and Java.
use vstd::prelude::*;

pub mod go;
pub mod go_props;
pub mod java;
pub mod java_props;
pub mod order;

verus! {

} // verus!
