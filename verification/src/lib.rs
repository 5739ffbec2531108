//! Client-side engine for a time-locked data-release contract: a local
//! mirror of on-chain key records, the gas policy and transaction
//! lifecycle used to drive contract calls, and the daemon scheduler that
//! keeps keys alive by periodic pings.

pub mod chain;
pub mod custodians;
pub mod daemon;
pub mod errors;
pub mod gas;
pub mod hexdata;
pub mod json;
pub mod mirror;
pub mod network;
pub mod numbers;
pub mod ops;
pub mod records;
pub mod roles;
pub mod text;
pub mod txflow;
