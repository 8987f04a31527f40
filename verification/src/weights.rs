//! Execution costs: what a call is charged in computation time and in proof
//! size.

use vstd::prelude::*;
use core::marker::PhantomData;

verus! {

/// `value`, held at the largest `u64` where it exceeds it.
pub open spec fn saturated(value: int) -> u64 {
    if value > u64::MAX {
        u64::MAX
    } else if value < 0 {
        0
    } else {
        value as u64
    }
}

/// A cost in two dimensions.
#[derive(Clone, Copy, Debug, PartialEq, Eq, Structural)]
pub struct Weight {
    /// Computation time, in picoseconds on the reference hardware.
    pub ref_time: u64,
    /// Storage proof size, in bytes.
    pub proof_size: u64,
}

impl Weight {
    pub fn from_parts(ref_time: u64, proof_size: u64) -> (weight: Weight)
        ensures
            weight == (Weight { ref_time, proof_size }),
    {
        Weight { ref_time, proof_size }
    }

    /// The sum of two costs, each dimension held at the largest `u64`.
    pub fn saturating_add(self, rhs: Weight) -> (sum: Weight)
        ensures
            sum.ref_time == saturated(self.ref_time + rhs.ref_time),
            sum.proof_size == saturated(self.proof_size + rhs.proof_size),
    {
        Weight {
            ref_time: self.ref_time.saturating_add(rhs.ref_time),
            proof_size: self.proof_size.saturating_add(rhs.proof_size),
        }
    }
}

/// What one read and one write of the database cost in computation time.
#[derive(Clone, Copy, Debug, PartialEq, Eq, Structural)]
pub struct RuntimeDbWeight {
    pub read: u64,
    pub write: u64,
}

impl RuntimeDbWeight {
    /// The cost of `count` reads.
    pub fn reads(&self, count: u64) -> (weight: Weight)
        ensures
            weight == (Weight { ref_time: saturated(self.read * count), proof_size: 0 }),
    {
        let ref_time = match self.read.checked_mul(count) {
            Some(product) => product,
            None => u64::MAX,
        };
        Weight { ref_time, proof_size: 0 }
    }

    /// The cost of `count` writes.
    pub fn writes(&self, count: u64) -> (weight: Weight)
        ensures
            weight == (Weight { ref_time: saturated(self.write * count), proof_size: 0 }),
    {
        let ref_time = match self.write.checked_mul(count) {
            Some(product) => product,
            None => u64::MAX,
        };
        Weight { ref_time, proof_size: 0 }
    }
}

/// Marks the costs of OTC settlement for the runtime `T`.
pub struct WeightInfo<T>(PhantomData<T>);

/// The costs of OTC settlement on the reference hardware, for the runtime
/// `T`.
pub struct HydraWeight<T>(PhantomData<T>);

impl<T> HydraWeight<T> {
    /// The cost of settling one OTC order: the measured computation time and
    /// proof size, and four reads and one write of a database whose costs
    /// are `db_weight`.
    pub fn settle_otc_order(db_weight: RuntimeDbWeight) -> (weight: Weight)
        ensures
            weight.ref_time == saturated(
                102_441_000 + saturated(db_weight.read * 4) + saturated(db_weight.write * 1),
            ),
            weight.proof_size == 6196,
    {
        Weight::from_parts(102_441_000, 6196).saturating_add(db_weight.reads(4)).saturating_add(
            db_weight.writes(1),
        )
    }
}

} // verus!
