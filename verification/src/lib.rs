//! Verified subnet merger: two subnets merge into one; each holder's stake
//! is converted so that, within a rounding tolerance, it redeems for no less
//! TAO against the merged pool than it did against its own pool.

pub mod fixed;
pub mod types;
pub mod stakes;
pub mod state;
pub mod conversion;
pub mod snapshot;
pub mod liquidity;
pub mod emission;
pub mod governance;
pub mod conversions;
pub mod execution;
pub mod setup;
pub mod laws;
pub mod execution_laws;
