use vstd::prelude::*;

pub mod fixed;
pub mod point;
pub mod container;
pub mod scene;
pub mod image;
pub mod ui;
pub mod animator;

verus! {

} // verus!
