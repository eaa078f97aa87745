//! Which fee obligations are waived.
use vstd::prelude::*;
use crate::location::Location;

verus! {

/// The cause of a fee charge.
#[derive(Debug, Clone, Copy, PartialEq, Eq, Structural)]
pub enum FeeReason {
    TransferReserveAsset,
    DepositReserveAsset,
    InitiateReserveWithdraw,
    InitiateTeleport,
    QueryPallet,
    Report,
    Export,
    LockAsset,
    RequestUnlock,
}

/// Waives fees for a configured set of reasons, whatever the origin.
pub struct FeePolicy {
    waived: Vec<FeeReason>,
}

impl View for FeePolicy {
    type V = Set<FeeReason>;

    closed spec fn view(&self) -> Set<FeeReason> {
        self.waived@.to_set()
    }
}

impl FeePolicy {
    /// A policy that waives nothing.
    pub fn new() -> (r: FeePolicy)
        ensures
            r@ == Set::<FeeReason>::empty(),
    {
        let r = FeePolicy { waived: Vec::new() };
        assert(r@ =~= Set::<FeeReason>::empty());
        r
    }

    /// Waives exactly the reasons in `waived`.
    pub fn set_fee_waiver(&mut self, waived: Vec<FeeReason>)
        ensures
            final(self)@ == waived@.to_set(),
    {
        self.waived = waived;
    }

    /// Whether a fee charged for `reason` is waived.
    pub fn is_waived(&self, origin: Option<&Location>, reason: FeeReason) -> (r: bool)
        ensures
            r == self@.contains(reason),
    {
        let mut i: usize = 0;
        while i < self.waived.len()
            invariant
                i <= self.waived@.len(),
                forall|j: int| 0 <= j < i ==> self.waived@[j] != reason,
            decreases self.waived@.len() - i,
        {
            if self.waived[i] == reason {
                assert(self.waived@.to_set().contains(self.waived@[i as int]));
                return true;
            }
            i = i + 1;
        }
        proof {
            if self.waived@.to_set().contains(reason) {
                let j = choose|j: int| 0 <= j < self.waived@.len() && self.waived@[j] == reason;
            }
        }
        false
    }
}

} // verus!
