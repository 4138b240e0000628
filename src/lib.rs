use vstd::prelude::*;

pub mod cells;
pub mod rules;
pub mod universe;

verus! {

} // verus!
