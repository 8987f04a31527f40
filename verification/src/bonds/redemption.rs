//! Redeeming a bond: once it has matured, its holder takes principal out of
//! escrow, less the protocol fee.

use vstd::prelude::*;
use super::model::{Redeemed, RedeemRequest, after_redeem, redeem_outcome};
use super::protocol::Bonds;
use super::registry::Registry;
use super::types::{AccountId, Balance, BondId, Error, Moment};

verus! {

impl Bonds {
    /// Redeems `requested_amount` of the bond under `bond_id` for `caller`.
    /// `now` is the time, read once for this call.
    ///
    /// On success escrow owes the net payout to the caller and the fee to
    /// the protocol; the bond keeps its maturity and what was not redeemed,
    /// and is removed when nothing is left. A request that is refused leaves
    /// everything as it was.
    pub fn redeem(
        &mut self,
        now: Moment,
        caller: AccountId,
        bond_id: BondId,
        requested_amount: Balance,
    ) -> (result: Result<Redeemed, Error>)
        ensures
            ({
                let request = RedeemRequest { now, caller, bond_id, amount: requested_amount };
                &&& result == redeem_outcome(old(self)@, old(self).settings(), request)
                &&& final(self)@ == after_redeem(old(self)@, request)
            }),
            old(self)@.bonds.contains_key(bond_id) && now < old(self)@.bonds[bond_id].maturity
                ==> result == Err::<Redeemed, Error>(Error::NotMatured),
            result.is_ok() <==> {
                &&& old(self)@.bonds.contains_key(bond_id)
                &&& now >= old(self)@.bonds[bond_id].maturity
                &&& 0 < requested_amount <= old(self)@.bonds[bond_id].amount
                &&& caller == old(self)@.bonds[bond_id].holder
            },
            result matches Ok(redeemed) ==> {
                &&& redeemed.fee == old(self).settings().protocol_fee.fee(requested_amount as nat)
                &&& redeemed.net_payout + redeemed.fee == requested_amount
                &&& (requested_amount == old(self)@.bonds[bond_id].amount
                    ==> !final(self)@.bonds.contains_key(bond_id))
                &&& (requested_amount < old(self)@.bonds[bond_id].amount ==> {
                    &&& final(self)@.bonds.contains_key(bond_id)
                    &&& final(self)@.bonds[bond_id].amount == old(self)@.bonds[bond_id].amount
                        - requested_amount
                    &&& final(self)@.bonds[bond_id].maturity == old(self)@.bonds[bond_id].maturity
                })
            },
            result.is_err() ==> final(self)@ == old(self)@,
            final(self).settings() == old(self).settings(),
            final(self)@.valid(),
    {
        proof {
            use_type_invariant(&*self);
        }
        let bond = match self.registry.get(bond_id) {
            Some(bond) => bond,
            None => {
                return Err(Error::UnknownBond);
            },
        };
        if now < bond.maturity {
            return Err(Error::NotMatured);
        }
        if requested_amount == 0 || requested_amount > bond.amount {
            return Err(Error::InsufficientBondBalance);
        }
        if caller != bond.holder {
            return Err(Error::Unauthorized);
        }
        let fee = self.settings.protocol_fee.mul_ceil(requested_amount);
        let net_payout = requested_amount - fee;
        let mut registry = Registry::new();
        std::mem::swap(&mut registry, &mut self.registry);
        let updated = registry.update_amount(bond_id, bond.amount - requested_amount);
        assert(updated.is_ok());
        self.registry = registry;
        Ok(
            Redeemed {
                bond_id,
                account: caller,
                underlying_asset: bond.underlying_asset,
                net_payout,
                fee,
            },
        )
    }
}

} // verus!
