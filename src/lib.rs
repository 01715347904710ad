use vstd::prelude::*;

pub mod boundary;
pub mod context;
pub mod keyed;
pub mod pages;
pub mod resource;
pub mod rows;
pub mod store;
pub mod todo;

verus! {

} // verus!
