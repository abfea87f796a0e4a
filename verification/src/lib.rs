//! Verified core of a protocol analytics configuration manager.
//!
//! The library owns the validation logic for a single persisted
//! configuration record: a bounded, duplicate-free list of tracked wallet
//! addresses, the authority allowed to mutate the record, and the minimum
//! interval between accepted analytics refreshes. The host ledger runtime
//! supplies the caller identity, the clock and the atomic storage of the
//! record; it is expected to call into this crate for every decision.

mod config;
mod error;
mod key;
mod wallets;

pub use config::initialize;
pub use config::validate_revenue_amount;
pub use config::ProtocolConfig;
pub use config::MAX_WALLETS;
pub use config::MIN_UPDATE_INTERVAL;
pub use error::ErrorCode;
pub use key::Pubkey;
pub use wallets::dedup;
pub use wallets::dedup_wallets;
pub use wallets::find_wallet;
pub use wallets::wallet_list_contains;
pub use wallets::lemma_dedup_bounds_len;
pub use wallets::lemma_dedup_idempotent;
pub use wallets::lemma_dedup_keeps_first_seen_order;
pub use wallets::lemma_dedup_no_duplicates;
pub use wallets::lemma_dedup_of_unique;
pub use wallets::lemma_dedup_preserves_membership;
