use vstd::prelude::*;

pub mod attach;
pub mod console;
pub mod ids;
pub mod keys;
pub mod kind;
pub mod pointer;
pub mod rng;
pub mod scene;
pub mod script;
pub mod selection;
pub mod text;
pub mod weld;

verus! {

} // verus!
