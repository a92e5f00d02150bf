use vstd::prelude::*;

pub mod ir;
pub mod var;
pub mod store;
pub mod infer;
pub mod unify;
pub mod canonicalize;
pub mod invert;
pub mod normalize;
pub mod render;
pub mod ucanonicalize;

verus! {
}
