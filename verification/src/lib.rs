//! A token ledger with a transitional "guest" identity class.
//!
//! A guest is a principal that holds a balance under a public key before it
//! owns a provisioned account. The crate keeps the ledger, the guest
//! registry and a one-slot-per-principal proposal store, moves balances
//! between entries, and drives the migration that turns a guest into a
//! provisioned account. Every operation works on plain values: the caller
//! supplies the calling identity and signing key, and performs any remote
//! operation that a function hands back as a request.

pub mod contract;
pub mod error;
pub mod laws;
pub mod ledger;
pub mod migration;
pub mod proposal;
pub mod state;
pub mod table;

pub use contract::{
    restorable, synthetic_account_id, Contract, ExtContract, SYNTHETIC_ACCOUNT_ID_LEN,
};
pub use error::Error;
pub use ledger::{entries_total, total_balance, Ledger, LedgerView};
pub use migration::{
    is_promise_success, PromiseOutcome, ProvisioningRequest, ProvisioningRequestView,
    ACCESS_KEY_ALLOWANCE, FUNDING_AMOUNT, SPONSOR_FEE,
};
pub use proposal::{Proposal, ProposalView};
pub use state::State;
pub use table::{distinct_keys, entries_view, Key, Table};
