//! Verified decision logic of three runtime pallets.
//!
//! - [`bonds`]: time-locked bonds. A bond is a registry record: a principal
//!   of some asset, held in escrow until a maturity time, and redeemable
//!   afterwards against a protocol fee.
//! - [`referrals`]: the registry of referral codes.
//! - [`weights`]: what settling an OTC order is charged.
//!
//! The crate decides; it moves no balance, reads no clock and authenticates
//! no caller. Each operation takes the current time and the figures it needs
//! as plain values, and returns what has to be moved or made known.

pub mod bonds;
pub mod referrals;
pub mod weights;
