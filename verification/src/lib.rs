//! Custodial wallet fleet management: a pool of address-holding wallets with
//! fund-conserving create/scale/delete/transfer operations, a background
//! monitor lifecycle, and a request/response dispatcher for remote clients.
pub mod address;
pub mod api;
pub mod capability;
pub mod encoding;
pub mod error;
pub mod errors;
pub mod executor;
pub mod hash;
pub mod keypair;
pub mod monitor;
pub mod reqres;
pub mod storage;
pub mod transaction;
pub mod wallet;
