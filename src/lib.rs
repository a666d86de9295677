//! Verified core of a constant-product exchange between bitcoin, runes and
//! the host chain's tokens: the per-address index of spendable outputs, the
//! rune-aware synchroniser's decisions, the fee-converging transaction
//! composer, the pool engine and the pool registry.

pub mod bytes;
pub mod types;
pub mod records;
pub mod pool;
pub mod registry;
pub mod utxo_set;
pub mod utxo_manager;
pub mod sync;
pub mod tx;
pub mod runestone;
pub mod selection;
pub mod composer;
pub mod btc_transfer;
pub mod rune_transfer;
pub mod combined_transfer;
pub mod address;
pub mod config;
pub mod ledger;
pub mod api;
