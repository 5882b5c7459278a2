//! The mathematical model of the contract: its state as maps, and each
//! operation as a function from a state and the operation's arguments to
//! the next state and the result.

use crate::error::Error;
use crate::ledger::LedgerView;
use crate::migration::{
    migration_cost, promise_success, PromiseOutcome, ProvisioningRequestView,
    ACCESS_KEY_ALLOWANCE, FUNDING_AMOUNT,
};
use crate::proposal::ProposalView;
use vstd::prelude::*;

verus! {

/// What the contract holds: the owner, the guest registry from public key
/// to principal, the outstanding proposal of each principal, the ledger,
/// and the storage cost of one account.
#[verifier::ext_equal]
pub struct State {
    pub owner: Seq<char>,
    pub guests: Map<Seq<u8>, Seq<char>>,
    pub proposals: Map<Seq<char>, ProposalView>,
    pub ledger: LedgerView,
    pub account_storage_usage: u64,
}

/// The calling identity under which the guests of `owner` act.
pub open spec fn guest_scope(owner: Seq<char>) -> Seq<char> {
    "guests."@ + owner
}

impl State {
    /// The state of a new contract.
    pub open spec fn init(owner: Seq<char>, account_storage_usage: u64) -> State {
        State {
            owner,
            guests: Map::empty(),
            proposals: Map::empty(),
            ledger: LedgerView::empty(),
            account_storage_usage,
        }
    }

    /// Guest/ledger pairing: the principal of every guest has a ledger
    /// entry.
    pub open spec fn paired(self) -> bool {
        forall|pk: Seq<u8>| #[trigger]
            self.guests.contains_key(pk) ==> self.ledger.registered(self.guests[pk])
    }

    /// What holds of the state between operations: the ledger conserves
    /// supply, and guests and ledger entries are paired.
    pub open spec fn inv(self) -> bool {
        &&& self.ledger.conserved()
        &&& self.paired()
    }

    /// The state with another ledger.
    pub open spec fn with_ledger(self, ledger: LedgerView) -> State {
        State { ledger, ..self }
    }

    /// Pairing survives a change of the ledger that keeps every entry.
    pub proof fn lemma_pairing_kept(self, ledger: LedgerView)
        requires
            self.paired(),
            forall|p: Seq<char>| self.ledger.registered(p) ==> #[trigger] ledger.registered(p),
        ensures
            self.with_ledger(ledger).paired(),
    {
        assert forall|pk: Seq<u8>| #[trigger]
            self.guests.contains_key(pk) implies ledger.registered(self.guests[pk]) by {
            assert(self.ledger.registered(self.guests[pk]));
        }
    }

    /// The principal that an operation is attributed to. A caller acting
    /// under the guest scope of the owner stands for the guest that its
    /// signing key is mapped to; any other caller stands for itself.
    pub open spec fn resolve_caller(
        self,
        caller: Seq<char>,
        signer_pk: Seq<u8>,
    ) -> Result<Seq<char>, Error> {
        if caller == guest_scope(self.owner) {
            if self.guests.contains_key(signer_pk) {
                Ok(self.guests[signer_pk])
            } else {
                Err(Error::NotAGuest)
            }
        } else {
            Ok(caller)
        }
    }

    /// Registering a guest: reserved for the owner, and rejected where the
    /// principal has a ledger entry or the key is mapped. It maps the key to
    /// the principal and gives the principal an entry with balance `0`.
    pub open spec fn add_guest(
        self,
        caller: Seq<char>,
        account_id: Seq<char>,
        public_key: Seq<u8>,
    ) -> (State, Result<(), Error>) {
        if caller != self.owner {
            (self, Err(Error::NotOwner))
        } else if self.ledger.registered(account_id) {
            (self, Err(Error::DuplicateAccount))
        } else if self.guests.contains_key(public_key) {
            (self, Err(Error::DuplicateGuest))
        } else {
            (
                State {
                    guests: self.guests.insert(public_key, account_id),
                    ledger: self.ledger.register(account_id),
                    ..self
                },
                Ok(()),
            )
        }
    }

    /// Making a proposal: it is stored for the resolved caller, unless that
    /// principal has one outstanding.
    pub open spec fn make_proposal(
        self,
        caller: Seq<char>,
        signer_pk: Seq<u8>,
        text: Seq<char>,
        amount: u128,
    ) -> (State, Result<(), Error>) {
        match self.resolve_caller(caller, signer_pk) {
            Err(e) => (self, Err(e)),
            Ok(principal) => if self.proposals.contains_key(principal) {
                (self, Err(Error::ProposalExists))
            } else {
                (
                    State {
                        proposals: self.proposals.insert(principal, ProposalView { text, amount }),
                        ..self
                    },
                    Ok(()),
                )
            },
        }
    }

    /// Paying the proposal of `owner` from the balance of `payer`. The
    /// proposal is removed first; a transfer that is then rejected leaves it
    /// removed and the ledger as it was.
    pub open spec fn pay_proposal(
        self,
        payer: Seq<char>,
        owner: Seq<char>,
        safe: bool,
    ) -> (State, Result<(), Error>) {
        if !self.proposals.contains_key(owner) {
            (self, Err(Error::NoProposal))
        } else {
            let amount = self.proposals[owner].amount;
            let removed = State { proposals: self.proposals.remove(owner), ..self };
            match self.ledger.transfer_error(payer, owner, amount, safe) {
                Some(e) => (removed, Err(e)),
                None => (removed.with_ledger(self.ledger.transfer(payer, owner, amount)), Ok(())),
            }
        }
    }

    /// Funding a proposal: the caller pays the proposal of `owner` by a safe
    /// transfer.
    pub open spec fn fund_proposal(
        self,
        caller: Seq<char>,
        owner: Seq<char>,
    ) -> (State, Result<(), Error>) {
        self.pay_proposal(caller, owner, true)
    }

    /// Funding a proposal as a guest: the guest that the signing key is
    /// mapped to pays the proposal of `owner` by an unsafe transfer.
    pub open spec fn fund_proposal_guest(
        self,
        signer_pk: Seq<u8>,
        owner: Seq<char>,
    ) -> (State, Result<(), Error>) {
        if !self.guests.contains_key(signer_pk) {
            (self, Err(Error::NotAGuest))
        } else {
            self.pay_proposal(self.guests[signer_pk], owner, false)
        }
    }

    /// Cancelling a proposal: reserved for the principal that made it.
    pub open spec fn remove_proposal(
        self,
        caller: Seq<char>,
        signer_pk: Seq<u8>,
        owner: Seq<char>,
    ) -> (State, Result<(), Error>) {
        match self.resolve_caller(caller, signer_pk) {
            Err(e) => (self, Err(e)),
            Ok(principal) => if principal != owner {
                (self, Err(Error::NotOwner))
            } else if !self.proposals.contains_key(owner) {
                (self, Err(Error::NoProposal))
            } else {
                (State { proposals: self.proposals.remove(owner), ..self }, Ok(()))
            },
        }
    }

    /// Starting a migration: the guest that the signing key is mapped to
    /// pays the cost of migration, which its balance must exceed, and the
    /// request to provision its account is handed back.
    pub open spec fn upgrade_guest(
        self,
        signer_pk: Seq<u8>,
        public_key: Seq<u8>,
        access_key: Seq<u8>,
        method_names: Seq<char>,
        storage_minimum: u128,
    ) -> (State, Result<ProvisioningRequestView, Error>) {
        if !self.guests.contains_key(signer_pk) {
            (self, Err(Error::NotAGuest))
        } else {
            let principal = self.guests[signer_pk];
            if self.ledger.balance_of(principal) <= migration_cost(storage_minimum) {
                (self, Err(Error::InsufficientFundsToUpgrade))
            } else {
                let cost = migration_cost(storage_minimum) as u128;
                (
                    self.with_ledger(self.ledger.withdraw(principal, cost)),
                    Ok(
                        ProvisioningRequestView {
                            account_id: principal,
                            full_access_key: public_key,
                            access_key,
                            allowance: ACCESS_KEY_ALLOWANCE,
                            method_names,
                            funding: FUNDING_AMOUNT,
                            guest_key: signer_pk,
                            withdrawn: cost,
                        },
                    ),
                )
            }
        }
    }

    /// Completing a migration. With exactly one result: a success removes
    /// the guest record of `public_key` and the proposal of `account_id`; a
    /// failure credits `withdrawn` back to `account_id` and keeps the guest
    /// record.
    pub open spec fn on_account_created(
        self,
        account_id: Seq<char>,
        public_key: Seq<u8>,
        withdrawn: u128,
        outcomes: Seq<PromiseOutcome>,
    ) -> (State, Result<bool, Error>) {
        match promise_success(outcomes) {
            Err(e) => (self, Err(e)),
            Ok(true) => (
                State {
                    guests: self.guests.remove(public_key),
                    proposals: self.proposals.remove(account_id),
                    ..self
                },
                Ok(true),
            ),
            Ok(false) => (self.with_ledger(self.ledger.deposit(account_id, withdrawn)), Ok(false)),
        }
    }

    /// Whether completing a migration has to credit `withdrawn` back, and
    /// the total supply has no room for it.
    pub open spec fn refund_overflows(self, withdrawn: u128, outcomes: Seq<PromiseOutcome>) -> bool {
        &&& promise_success(outcomes) == Ok::<bool, Error>(false)
        &&& self.ledger.total_supply + withdrawn > u128::MAX
    }
}

} // verus!
