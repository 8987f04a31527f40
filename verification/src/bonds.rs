//! Issuance, redemption and administrative unlock of time-locked bonds.

pub mod fee;
pub mod issuance;
pub mod laws;
pub mod model;
pub mod protocol;
pub mod redemption;
pub mod registry;
pub mod types;
pub mod unlock;

pub use fee::FeeRate;
pub use model::{Issued, Redeemed, Settings};
pub use protocol::Bonds;
pub use registry::Registry;
pub use types::{AccountId, AssetId, Balance, Bond, BondId, Error, Moment};
