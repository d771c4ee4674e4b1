pub mod analyzer;
pub mod laws;
pub mod model;
pub mod stats;
pub mod tx_env;

pub use analyzer::{count_affected_transactions, ConflictAnalyzer};
pub use model::{AccessType, Address, Conflict, ConflictType, Location, StorageSlot};
pub use stats::GlobalStats;
pub use tx_env::{prepare_tx_env, TxEnvError, TxEnvelope, TxInput};
