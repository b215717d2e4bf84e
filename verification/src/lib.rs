//! A peer-to-peer collateralized lending protocol, verified.
//!
//! Two parties escrow assets with a custodian contract, exchange a loan
//! amount for a collateral claim, accrue time-based interest, and resolve
//! the loan by repayment or by collateral seizure under programmable
//! conditions.
//!
//! The library is the protocol's decision core: a state machine over plain
//! values. Everything the host ledger provides (durable storage, asset
//! transfers, authorization proofs, oracle prices, the clock, events) enters
//! as an argument and leaves as a returned action. Identities, asset
//! contracts and oracle endpoints are the opaque 64-bit handles the host
//! assigns them; the current authorization set, the clock reading and a
//! snapshot of oracle prices are passed into each operation; asset movements
//! come back as `TransferAction` values for the embedding to execute
//! atomically with the state change.

pub mod types;
pub mod interest;
pub mod wide;
pub mod oracle;
pub mod contract;
pub mod laws;
