//! Receipt admission and receipt-aggregate-voucher accounting for an indexer
//! that serves paid queries.
//!
//! Senders attach signed receipts to their queries. The indexer admits each
//! receipt against the current allocation and escrow snapshots, records it, and
//! from time to time has the sender's aggregator compress the recorded receipts
//! of an (allocation, sender) pair into one signed voucher. Every executable
//! function of this crate is verified against its contract.

pub mod address;
pub mod address_map;
pub mod allocation;
pub mod config;
pub mod escrow;
pub mod feed;
pub mod laws;
pub mod receipt;
pub mod receipt_checks_adapter;
pub mod sender_account;
pub mod sender_accounts_manager;
pub mod sender_allocation;
pub mod store;
pub mod tap_manager;
pub mod unaggregated_receipts;
