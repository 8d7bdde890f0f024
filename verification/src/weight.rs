//! The two-dimensional weight that a chain charges for executing a message.

use vstd::prelude::*;

verus! {

/// Amount of chain resources: computation time and storage-proof size.
#[derive(Clone, Copy, Debug, PartialEq, Eq, Structural)]
pub struct Weight {
    /// Computational time, in picoseconds of execution on reference hardware.
    pub ref_time: u64,
    /// Size, in bytes, of the storage proof that execution needs.
    pub proof_size: u64,
}

impl Weight {
    /// Both components divided by `scalar`, rounding down.
    pub open spec fn divided(self, scalar: u64) -> Weight
        recommends
            scalar != 0,
    {
        Weight { ref_time: self.ref_time / scalar, proof_size: self.proof_size / scalar }
    }

    /// Creates a weight from its two components.
    pub fn from_parts(ref_time: u64, proof_size: u64) -> (weight: Self)
        ensures
            weight == (Weight { ref_time, proof_size }),
    {
        Weight { ref_time, proof_size }
    }

    /// The weight of doing nothing.
    pub fn zero() -> (weight: Self)
        ensures
            weight == (Weight { ref_time: 0, proof_size: 0 }),
    {
        Weight { ref_time: 0, proof_size: 0 }
    }

    /// Returns the computational time component.
    pub fn ref_time(&self) -> (ref_time: u64)
        ensures
            ref_time == self.ref_time,
    {
        self.ref_time
    }

    /// Returns the storage-proof size component.
    pub fn proof_size(&self) -> (proof_size: u64)
        ensures
            proof_size == self.proof_size,
    {
        self.proof_size
    }

    /// Divides both components by `scalar`, rounding down.
    pub fn div(self, scalar: u64) -> (weight: Self)
        requires
            scalar != 0,
        ensures
            weight == self.divided(scalar),
    {
        Weight { ref_time: self.ref_time / scalar, proof_size: self.proof_size / scalar }
    }
}

impl Default for Weight {
    fn default() -> (weight: Self)
        ensures
            weight == (Weight { ref_time: 0, proof_size: 0 }),
    {
        Weight { ref_time: 0, proof_size: 0 }
    }
}

} // verus!
