//! A double-ended queue of point vertices whose contents are mirrored in a
//! GPU buffer, with the decisions about allocation, delta uploads and draw
//! ranges made in verified code.
use vstd::prelude::*;

pub mod arith;
pub mod ring;
pub mod deque;
pub mod ids;
pub mod rpc;

verus! {

} // verus!
