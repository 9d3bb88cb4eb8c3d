use vstd::prelude::*;

verus! {

/// An entity is an opaque handle: an index below the capacity of the manager
/// that issued it. It carries no data of its own.
pub type Entity = usize;

} // verus!
