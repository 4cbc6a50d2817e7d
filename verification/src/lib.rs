use vstd::prelude::*;

pub mod arith;
pub mod text;
pub mod input;
pub mod view;
pub mod interaction;
pub mod metrics;
pub mod display;
pub mod canvas;
pub mod storage;

verus! {
} // verus!
