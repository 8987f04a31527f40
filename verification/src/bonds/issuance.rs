//! Issuing a bond: the lock window and the collateral are checked, then the
//! bond is named and registered.

use vstd::prelude::*;
use super::model::{Issued, IssueRequest, after_issue, issue_outcome};
use super::protocol::Bonds;
use super::registry::Registry;
use super::types::{AccountId, AssetId, Balance, Bond, BondId, Error, Moment};

verus! {

impl Bonds {
    /// Issues a bond of `amount` of `underlying_asset` to `caller`, locked
    /// until `maturity`. `now` is the time, and `caller_balance` what the
    /// caller holds of the asset, both read once for this call.
    ///
    /// On success the bond is registered under the identifier returned, and
    /// the caller owes `amount` to escrow. A request that is refused leaves
    /// everything as it was.
    pub fn issue(
        &mut self,
        now: Moment,
        caller: AccountId,
        caller_balance: Balance,
        underlying_asset: AssetId,
        amount: Balance,
        maturity: Moment,
    ) -> (result: Result<Issued, Error>)
        ensures
            ({
                let request = IssueRequest {
                    now,
                    caller,
                    caller_balance,
                    underlying_asset,
                    amount,
                    maturity,
                };
                &&& result == issue_outcome(old(self)@, old(self).settings(), request)
                &&& final(self)@ == after_issue(old(self)@, old(self).settings(), request)
            }),
            maturity <= now + old(self).settings().min_maturity ==> result == Err::<Issued, Error>(
                Error::InvalidMaturity,
            ),
            result.is_ok() <==> maturity > now + old(self).settings().min_maturity && amount > 0
                && caller_balance >= amount && old(self)@.next_id < BondId::MAX,
            result matches Ok(issued) ==> !old(self)@.bonds.contains_key(issued.bond_id),
            result.is_err() ==> final(self)@ == old(self)@,
            final(self).settings() == old(self).settings(),
            final(self)@.valid(),
    {
        proof {
            use_type_invariant(&*self);
        }
        let locked_long_enough = match now.checked_add(self.settings.min_maturity) {
            Some(lock_ends) => maturity > lock_ends,
            None => false,
        };
        if !locked_long_enough {
            return Err(Error::InvalidMaturity);
        }
        if amount == 0 {
            return Err(Error::InvalidAmount);
        }
        if caller_balance < amount {
            return Err(Error::InsufficientBalance);
        }
        if self.next_id == BondId::MAX {
            return Err(Error::IdentifiersExhausted);
        }
        let bond_id = self.next_id;
        let bond = Bond { underlying_asset, amount, maturity, holder: caller };
        let mut registry = Registry::new();
        std::mem::swap(&mut registry, &mut self.registry);
        let registered = registry.insert(bond_id, bond);
        assert(registered.is_ok());
        self.next_id = bond_id + 1;
        self.registry = registry;
        Ok(Issued { bond_id, account: caller, underlying_asset, amount, maturity })
    }
}

} // verus!
