use vstd::prelude::*;

pub mod status;
pub mod text;
pub mod range;
pub mod maps;
pub mod render;
pub mod report;
pub mod laws;
pub mod rc;
pub mod extended;

verus! {

} // verus!
