//! A versioned schema-migration engine for a wallet store, and the ledger
//! reconciliation that one of its migrations encodes.
pub mod identity;
pub mod ledger;
pub mod backfill;
pub mod events;
pub mod summary;
pub mod resolver;
pub mod executor;
pub mod migration;
