use vstd::prelude::*;

pub mod app;
pub mod benchmark;
pub mod camera;
pub mod cli;
pub mod frame;
pub mod ieee;
pub mod laws;
pub mod order;
pub mod pack;
pub mod pipeline;
pub mod prior;
pub mod renderer;
pub mod scene;
pub mod sorter;
pub mod splats;
pub mod surface;

verus! {

} // verus!
