use vstd::prelude::*;

verus! {

/// Marks an interpreter working in global memory.
#[derive(Debug)]
pub struct Global;

/// Marks an interpreter working in local memory.
#[derive(Debug)]
pub struct Local;

} // verus!
