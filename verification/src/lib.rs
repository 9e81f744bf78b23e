use vstd::prelude::*;

pub mod float;
pub mod text;
pub mod types;
pub mod memory;
pub mod display;
pub mod stdlib;
pub mod compute;
pub mod sequence;
pub mod statement;
pub mod executor;
pub mod machine;
pub mod block;
pub mod calls;
pub mod checker;
pub mod laws;

verus! {

} // verus!
