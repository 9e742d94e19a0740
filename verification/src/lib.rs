use vstd::prelude::*;

pub mod config;
pub mod cycles;
pub mod error;
pub mod json;
pub mod memory;
pub mod pipe;
pub mod pipeline;
pub mod preflight;
pub mod text;

verus! {

} // verus!
