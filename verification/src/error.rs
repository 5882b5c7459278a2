//! The ways in which an operation is rejected.

use vstd::prelude::*;

verus! {

/// Why an operation was rejected. A rejected operation reports exactly one
/// of these.
#[derive(Clone, Copy, Debug, PartialEq, Eq, Structural)]
pub enum Error {
    /// The signing key is not mapped to a guest.
    NotAGuest,
    /// The public key is already mapped to a guest.
    DuplicateGuest,
    /// The principal already has a ledger entry.
    DuplicateAccount,
    /// The amount exceeds the balance it is taken from.
    InsufficientBalance,
    /// The guest's balance does not exceed the cost of migration.
    InsufficientFundsToUpgrade,
    /// The recipient of a safe transfer has no ledger entry.
    RecipientNotRegistered,
    /// The principal already has an outstanding proposal.
    ProposalExists,
    /// The principal has no outstanding proposal.
    NoProposal,
    /// The caller is not the principal that the operation is reserved for.
    NotOwner,
    /// A continuation did not observe exactly one asynchronous result.
    ProtocolViolation,
}

} // verus!
