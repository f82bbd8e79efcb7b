use vstd::prelude::*;

verus! {

/// An account, as the host ledger numbers it.
pub type AccountId = u64;

/// A height of the host ledger.
pub type BlockNumber = u64;

/// A 256-bit fingerprint, held as its high and low 128 bits (big-endian halves).
#[derive(Clone, Copy, Debug, PartialEq, Eq, Structural)]
pub struct Hash256 {
    pub hi: u128,
    pub lo: u128,
}

impl Hash256 {
    /// The all-zero fingerprint.
    pub fn zero() -> (r: Hash256)
        ensures
            r.is_zero_spec(),
    {
        Hash256 { hi: 0, lo: 0 }
    }

    pub open spec fn is_zero_spec(&self) -> bool {
        self.hi == 0 && self.lo == 0
    }

    pub fn is_zero(&self) -> (r: bool)
        ensures
            r == self.is_zero_spec(),
    {
        self.hi == 0 && self.lo == 0
    }

    /// The fingerprint whose last eight bytes hold `v` in big-endian order, the rest zero.
    pub fn from_low_u64_be(v: u64) -> (r: Hash256)
        ensures
            r.hi == 0,
            r.lo == v as u128,
    {
        Hash256 { hi: 0, lo: v as u128 }
    }
}

} // verus!
