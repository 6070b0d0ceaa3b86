//! Hierarchical-deterministic derivation paths.

use vstd::prelude::*;

verus! {

/// The registered coin type of this chain.
pub const HD_COIN_TYPE: u32 = 0x8000_0234;

/// A five-level derivation path: purpose, coin type, account, change, index.
#[derive(Clone, Copy, Debug, PartialEq, Eq, Structural)]
pub struct HdPath {
    pub purpose: u32,
    pub coin_type: u32,
    pub account: u32,
    pub change: u32,
    pub index: u32,
}

impl HdPath {
    pub fn new(purpose: u32, coin_type: u32, account: u32, change: u32, index: u32) -> (r: Self)
        ensures
            r == (HdPath { purpose, coin_type, account, change, index }),
    {
        HdPath { purpose, coin_type, account, change, index }
    }

    /// The standard path for this chain at an index.
    pub fn standard(index: u32) -> (r: Self)
        ensures
            r == (HdPath {
                purpose: 44u32,
                coin_type: HD_COIN_TYPE,
                account: 0u32,
                change: 0u32,
                index,
            }),
    {
        HdPath::new(44, HD_COIN_TYPE, 0, 0, index)
    }
}

} // verus!
