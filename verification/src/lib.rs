use vstd::prelude::*;

pub mod point;
pub mod qr;
pub mod format;
pub mod galois;
pub mod correct;
pub mod blocks;
pub mod data;
pub mod binary;
pub mod decode;
pub mod locate;
pub mod extract;

verus! {

/// Grid side length of a symbol of the given version class.
pub open spec fn spec_side(version: u32) -> int {
    4 * version + 17
}

} // verus!
