//! Binary tower field arithmetic and the supporting pieces of a tensor-product
//! polynomial commitment scheme, with their contracts proved by Verus.
use vstd::prelude::*;

pub mod tower_spec;
pub mod tower_laws;
pub mod binary_field;
pub mod commit_meta;
pub mod multilinear;
pub mod tensor_pcs;
pub mod scheme;

verus! {

} // verus!
