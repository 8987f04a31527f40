//! The plain values that the bond operations exchange.

use vstd::prelude::*;

verus! {

/// Identifies a bond for as long as it lives; never given out twice.
pub type BondId = u64;

/// Identifies a kind of fungible asset.
pub type AssetId = u32;

/// Identifies an account of the asset ledger.
pub type AccountId = u64;

/// An amount of an asset, in its smallest unit.
pub type Balance = u128;

/// A point in time, in milliseconds.
pub type Moment = u64;

/// A claim on escrowed collateral that can be redeemed from `maturity` on.
#[derive(Clone, Copy, Debug, PartialEq, Eq, Structural)]
pub struct Bond {
    /// The asset held in escrow.
    pub underlying_asset: AssetId,
    /// The principal that is still to be redeemed.
    pub amount: Balance,
    /// The time before which nothing is redeemed.
    pub maturity: Moment,
    /// The account that holds the claim.
    pub holder: AccountId,
}

/// Why a request was turned down. A request that is turned down changes
/// nothing.
#[derive(Clone, Copy, Debug, PartialEq, Eq, Structural)]
pub enum Error {
    /// The caller cannot cover the collateral.
    InsufficientBalance,
    /// The maturity leaves less than the minimum lock window.
    InvalidMaturity,
    /// No bond is registered under the identifier.
    UnknownBond,
    /// The bond has not reached its maturity.
    NotMatured,
    /// The request is for nothing, or for more than the bond still holds.
    InsufficientBondBalance,
    /// The caller lacks the capability, or does not hold the claim.
    Unauthorized,
    /// A bond cannot be created without principal.
    InvalidAmount,
    /// The identifier is already taken.
    DuplicateBond,
    /// Every identifier has been given out.
    IdentifiersExhausted,
}

} // verus!
