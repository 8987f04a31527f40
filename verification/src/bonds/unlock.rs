//! The administrative unlock: a bond is made to mature at once.

use vstd::prelude::*;
use super::model::{UnlockRequest, after_unlock, unlock_refusal};
use super::protocol::Bonds;
use super::registry::Registry;
use super::types::{BondId, Error, Moment};

verus! {

impl Bonds {
    /// Sets the maturity of the bond under `bond_id` to `now`, the time read
    /// once for this call, so that it can be redeemed from now on.
    /// `privileged` says whether the caller holds the administrative
    /// capability, as the caller's authentication found it.
    ///
    /// No principal moves. A request that is refused leaves everything as it
    /// was.
    pub fn unlock(&mut self, now: Moment, privileged: bool, bond_id: BondId) -> (result: Result<
        (),
        Error,
    >)
        ensures
            ({
                let request = UnlockRequest { now, privileged, bond_id };
                &&& result == (match unlock_refusal(old(self)@, request) {
                    Some(error) => Err::<(), Error>(error),
                    None => Ok::<(), Error>(()),
                })
                &&& final(self)@ == after_unlock(old(self)@, request)
            }),
            result.is_ok() <==> privileged && old(self)@.bonds.contains_key(bond_id),
            result.is_ok() ==> {
                &&& final(self)@.bonds.contains_key(bond_id)
                &&& final(self)@.bonds[bond_id].maturity == now
                &&& final(self)@.bonds[bond_id].amount == old(self)@.bonds[bond_id].amount
            },
            result.is_err() ==> final(self)@ == old(self)@,
            final(self).settings() == old(self).settings(),
            final(self)@.valid(),
    {
        proof {
            use_type_invariant(&*self);
        }
        if !privileged {
            return Err(Error::Unauthorized);
        }
        let mut registry = Registry::new();
        std::mem::swap(&mut registry, &mut self.registry);
        let result = registry.set_maturity(bond_id, now);
        self.registry = registry;
        result
    }
}

} // verus!
