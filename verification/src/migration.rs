//! What the account migration exchanges with the host: the request to
//! provision an account, and the result that the host reports later.

use crate::error::Error;
use vstd::prelude::*;

verus! {

/// The allowance of the scoped access key that a provisioned account gets.
pub const ACCESS_KEY_ALLOWANCE: u128 = 100_000_000_000_000_000_000_000;

/// The fee that a guest pays for its migration.
pub const SPONSOR_FEE: u128 = 100_000_000_000_000_000_000_000;

/// The amount that is transferred to the provisioned account.
pub const FUNDING_AMOUNT: u128 = 500_000_000_000_000_000_000_000;

/// What a migration costs a guest: the fee, the funding amount and the
/// minimum storage balance.
pub open spec fn migration_cost(storage_minimum: u128) -> int {
    SPONSOR_FEE + FUNDING_AMOUNT + storage_minimum
}

/// The result of one asynchronous operation, as the host reports it.
#[derive(Clone, Copy, Debug, PartialEq, Eq, Structural)]
pub enum PromiseOutcome {
    /// The operation has not completed.
    NotReady,
    /// The operation has completed and succeeded.
    Successful,
    /// The operation has completed and failed.
    Failed,
}

/// What a provisioning request holds.
pub struct ProvisioningRequestView {
    pub account_id: Seq<char>,
    pub full_access_key: Seq<u8>,
    pub access_key: Seq<u8>,
    pub allowance: u128,
    pub method_names: Seq<char>,
    pub funding: u128,
    pub guest_key: Seq<u8>,
    pub withdrawn: u128,
}

/// The remote operation that a migration asks the host for: create the
/// account `account_id`, give it `full_access_key` as a full access key and
/// `access_key` as a key that may spend `allowance` on the methods in
/// `method_names`, and transfer `funding` to it. `guest_key` and `withdrawn`
/// are handed to the continuation that runs when the operation completes.
#[derive(Clone, Debug, PartialEq, Eq)]
pub struct ProvisioningRequest {
    pub account_id: String,
    pub full_access_key: Vec<u8>,
    pub access_key: Vec<u8>,
    pub allowance: u128,
    pub method_names: String,
    pub funding: u128,
    pub guest_key: Vec<u8>,
    pub withdrawn: u128,
}

impl View for ProvisioningRequest {
    type V = ProvisioningRequestView;

    open spec fn view(&self) -> ProvisioningRequestView {
        ProvisioningRequestView {
            account_id: self.account_id@,
            full_access_key: self.full_access_key@,
            access_key: self.access_key@,
            allowance: self.allowance,
            method_names: self.method_names@,
            funding: self.funding,
            guest_key: self.guest_key@,
            withdrawn: self.withdrawn,
        }
    }
}

/// What a continuation learns from the results that it observes: with
/// exactly one result, whether that result is a success; with any other
/// number, a protocol violation.
pub open spec fn promise_success(outcomes: Seq<PromiseOutcome>) -> Result<bool, Error> {
    if outcomes.len() != 1 {
        Err(Error::ProtocolViolation)
    } else {
        Ok(outcomes[0] == PromiseOutcome::Successful)
    }
}

/// Whether the one asynchronous result that a continuation observes is a
/// success. Observing no result, or more than one, is a protocol violation.
pub fn is_promise_success(outcomes: &Vec<PromiseOutcome>) -> (result: Result<bool, Error>)
    ensures
        result == promise_success(outcomes@),
{
    if outcomes.len() != 1 {
        return Err(Error::ProtocolViolation);
    }
    match outcomes[0] {
        PromiseOutcome::Successful => Ok(true),
        _ => Ok(false),
    }
}

} // verus!
