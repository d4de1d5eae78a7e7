//! A verified prize-distribution ledger: a fixed set of loaded items, each
//! with a bounded supply, is drawn against by buyers through a weighted
//! random process; drawn prizes wait in a per-buyer pending queue until they
//! are claimed and settled.
//!
//! The machine header and the packed item table live in a caller-owned byte
//! buffer; this crate owns the record layout, the draw and claim engines and
//! the lifecycle state machine, and proves that every operation preserves the
//! supply bookkeeping invariants. All host concerns (account storage, value
//! transfer, asset issuance, entropy) stay outside: callers hand in plain
//! values such as the entropy seed, and receive back the transfers they owe.

pub mod checks;
pub mod claim;
pub mod codec;
pub mod draw;
pub mod errors;
pub mod header;
pub mod items;
pub mod lifecycle;
pub mod math;
pub mod pubkey;
pub mod queue;
pub mod state;

pub use errors::JellybeanError;
pub use pubkey::Pubkey;
pub use state::FeeAccount;
pub use state::JellybeanMachine;
pub use state::JellybeanState;
pub use state::LoadedItem;
pub use state::PrintFeeConfig;
pub use state::Prize;
pub use state::SettingsArgs;
pub use state::UnclaimedPrizes;
