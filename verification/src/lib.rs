use vstd::prelude::*;

pub mod bytes;
pub mod container;
pub mod hashing;
pub mod laws;
pub mod parse;
pub mod pools;
pub mod reflect;
pub mod typed;
pub mod types;
pub mod xls;
pub mod xml;

pub use hashing::hash_little32;

verus! {

} // verus!
