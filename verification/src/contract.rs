//! The contract: the aggregate that owns the guest registry, the proposal
//! store and the ledger, with the operations that callers invoke on it.
//!
//! An operation that the host attributes to a caller takes the calling
//! identity, and where it needs it the caller's signing key, as arguments.

use crate::error::Error;
use crate::ledger::{entries_total, Ledger, LedgerView};
use crate::migration::{
    is_promise_success, PromiseOutcome, ProvisioningRequest, ACCESS_KEY_ALLOWANCE,
    FUNDING_AMOUNT, SPONSOR_FEE,
};
use crate::proposal::Proposal;
use crate::state::State;
use crate::table::{distinct_keys, entries_view, lemma_entries_view_at, Table};
use vstd::prelude::*;
use vstd::string::StringExecFns;

verus! {

/// The length of the synthetic account id.
pub const SYNTHETIC_ACCOUNT_ID_LEN: usize = 64;

/// The account id of the synthetic ledger entry by which the storage cost
/// of one account is measured at initialization: the letter `a`,
/// [`SYNTHETIC_ACCOUNT_ID_LEN`] times.
pub fn synthetic_account_id() -> (id: String)
    ensures
        id@ == Seq::new(SYNTHETIC_ACCOUNT_ID_LEN as nat, |i: int| 'a'),
{
    let mut id = String::new();
    let mut n: usize = 0;
    while n < SYNTHETIC_ACCOUNT_ID_LEN
        invariant
            n <= SYNTHETIC_ACCOUNT_ID_LEN,
            id@ == Seq::new(n as nat, |i: int| 'a'),
        decreases SYNTHETIC_ACCOUNT_ID_LEN - n,
    {
        proof {
            reveal_strlit("a");
        }
        id.append("a");
        assert(id@ =~= Seq::new((n + 1) as nat, |i: int| 'a'));
        n = n + 1;
    }
    id
}

/// Whether the given entries make up a state that keeps the invariant: no
/// key occurs twice in a list, the balances sum up to a possible total
/// supply, and the principal of every guest has a ledger entry.
pub open spec fn restorable(
    guests: Seq<(Vec<u8>, String)>,
    proposals: Seq<(String, Proposal)>,
    accounts: Seq<(String, u128)>,
) -> bool {
    &&& distinct_keys(guests)
    &&& distinct_keys(proposals)
    &&& distinct_keys(accounts)
    &&& entries_total(accounts) <= u128::MAX
    &&& forall|i: int|
        0 <= i < guests.len() ==> entries_view(accounts).contains_key((#[trigger] guests[i]).1@)
}

/// The contract state.
pub struct Contract {
    /// The administrative owner.
    owner_id: String,
    /// Public key of a guest to its principal.
    guests: Table<Vec<u8>, String>,
    /// Principal to its outstanding proposal.
    proposals: Table<String, Proposal>,
    /// Principal to its balance, and the total supply.
    ledger: Ledger,
    /// The storage size in bytes of one account.
    account_storage_usage: u64,
}

impl View for Contract {
    type V = State;

    closed spec fn view(&self) -> State {
        State {
            owner: self.owner_id@,
            guests: self.guests@,
            proposals: self.proposals@,
            ledger: self.ledger@,
            account_storage_usage: self.account_storage_usage,
        }
    }
}

impl Contract {
    /// The representation is valid.
    pub closed spec fn wf(&self) -> bool {
        &&& self.guests.wf()
        &&& self.proposals.wf()
        &&& self.ledger.wf()
    }

    /// The contract is valid, conserves supply and pairs guests with ledger
    /// entries.
    pub open spec fn inv(&self) -> bool {
        &&& self.wf()
        &&& self@.inv()
    }

    /// A contract owned by `owner_id`, with no guest, proposal or ledger
    /// entry. `account_storage_usage` is the storage cost of one account as
    /// it was measured at initialization.
    pub fn new(owner_id: String, account_storage_usage: u64) -> (contract: Self)
        ensures
            contract.inv(),
            contract@ == State::init(owner_id@, account_storage_usage),
    {
        Contract {
            owner_id,
            guests: Table::new(),
            proposals: Table::new(),
            ledger: Ledger::new(),
            account_storage_usage,
        }
    }

    /// The contract that holds the given entries, as they were taken from
    /// a contract before, if they make up a state that keeps the invariant.
    pub fn restore(
        owner_id: String,
        guests: Vec<(Vec<u8>, String)>,
        proposals: Vec<(String, Proposal)>,
        accounts: Vec<(String, u128)>,
        account_storage_usage: u64,
    ) -> (contract: Option<Self>)
        ensures
            match contract {
                Some(c) => {
                    &&& restorable(guests@, proposals@, accounts@)
                    &&& c.inv()
                    &&& c@ == (State {
                        owner: owner_id@,
                        guests: entries_view(guests@),
                        proposals: entries_view(proposals@),
                        ledger: LedgerView {
                            balances: entries_view(accounts@),
                            total_supply: entries_total(accounts@) as u128,
                        },
                        account_storage_usage,
                    })
                },
                None => !restorable(guests@, proposals@, accounts@),
            },
    {
        let ghost account_entries = accounts@;
        let ledger: Ledger = match Ledger::restore(accounts) {
            Some(l) => l,
            None => {
                return None;
            },
        };
        let mut i: usize = 0;
        while i < guests.len()
            invariant
                i <= guests@.len(),
                ledger.wf(),
                ledger@.balances == entries_view(account_entries),
                account_entries == accounts@,
                forall|j: int| 0 <= j < i ==> ledger@.registered((#[trigger] guests@[j]).1@),
            decreases guests@.len() - i,
        {
            if !ledger.is_registered(&guests[i].1) {
                assert(!entries_view(account_entries).contains_key(guests@[i as int].1@));
                return None;
            }
            i = i + 1;
        }
        let ghost guest_entries = guests@;
        let guest_table: Table<Vec<u8>, String> = match Table::from_entries(guests) {
            Some(t) => t,
            None => {
                return None;
            },
        };
        let proposal_table: Table<String, Proposal> = match Table::from_entries(proposals) {
            Some(t) => t,
            None => {
                return None;
            },
        };
        let contract = Contract {
            owner_id,
            guests: guest_table,
            proposals: proposal_table,
            ledger,
            account_storage_usage,
        };
        proof {
            assert forall|pk: Seq<u8>| #[trigger]
                contract@.guests.contains_key(pk) implies contract@.ledger.registered(
                contract@.guests[pk],
            ) by {
                let j = choose|j: int|
                    0 <= j < guest_entries.len() && (#[trigger] guest_entries[j]).0@ == pk;
                lemma_entries_view_at(guest_entries, j);
            }
        }
        Some(contract)
    }

    /// The guest records, each public key once with its principal, in no
    /// particular order.
    pub fn guest_entries(&self) -> (entries: &Vec<(Vec<u8>, String)>)
        requires
            self.wf(),
        ensures
            distinct_keys(entries@),
            entries_view(entries@) == self@.guests,
    {
        self.guests.entries()
    }

    /// The outstanding proposals, each principal once with its proposal, in
    /// no particular order.
    pub fn proposal_entries(&self) -> (entries: &Vec<(String, Proposal)>)
        requires
            self.wf(),
        ensures
            distinct_keys(entries@),
            entries_view(entries@) == self@.proposals,
    {
        self.proposals.entries()
    }

    /// The ledger entries, each principal once with its balance, in no
    /// particular order.
    pub fn account_entries(&self) -> (entries: &Vec<(String, u128)>)
        requires
            self.wf(),
        ensures
            distinct_keys(entries@),
            entries_view(entries@) == self@.ledger.balances,
    {
        self.ledger.entries()
    }

    /// The administrative owner.
    pub fn owner_id(&self) -> (owner: &String)
        ensures
            owner@ == self@.owner,
    {
        &self.owner_id
    }

    /// The storage size in bytes of one account.
    pub fn account_storage_usage(&self) -> (usage: u64)
        ensures
            usage == self@.account_storage_usage,
    {
        self.account_storage_usage
    }

    /// The total supply.
    pub fn total_supply(&self) -> (supply: u128)
        ensures
            supply == self@.ledger.total_supply,
    {
        self.ledger.total_supply()
    }

    /// The principal's balance; `0` for a principal without a ledger entry.
    pub fn balance_of(&self, account_id: &String) -> (balance: u128)
        requires
            self.wf(),
        ensures
            balance == self@.ledger.balance_of(account_id@),
    {
        self.ledger.balance_of(account_id)
    }

    /// Whether the principal has a ledger entry.
    pub fn is_registered(&self, account_id: &String) -> (registered: bool)
        requires
            self.wf(),
        ensures
            registered == self@.ledger.registered(account_id@),
    {
        self.ledger.is_registered(account_id)
    }

    /// Gives the principal a ledger entry with balance `0` if it has none,
    /// and says whether it did so.
    pub fn register_account(&mut self, account_id: &String) -> (created: bool)
        requires
            old(self).inv(),
        ensures
            final(self).inv(),
            final(self)@ == old(self)@.with_ledger(old(self)@.ledger.register(account_id@)),
            created == !old(self)@.ledger.registered(account_id@),
    {
        let created = self.ledger.register(account_id);
        proof {
            old(self)@.lemma_pairing_kept(self@.ledger);
        }
        created
    }

    /// Credits `amount` to the principal and adds it to the total supply.
    pub fn deposit(&mut self, account_id: &String, amount: u128)
        requires
            old(self).inv(),
            old(self)@.ledger.total_supply + amount <= u128::MAX,
        ensures
            final(self).inv(),
            final(self)@ == old(self)@.with_ledger(old(self)@.ledger.deposit(account_id@, amount)),
    {
        self.ledger.deposit(account_id, amount);
        proof {
            old(self)@.lemma_pairing_kept(self@.ledger);
        }
    }

    /// Takes `amount` from the principal and from the total supply. An
    /// amount that exceeds the balance is rejected, and nothing changes.
    pub fn withdraw(
        &mut self,
        account_id: &String,
        amount: u128,
    ) -> (result: Result<(), Error>)
        requires
            old(self).inv(),
        ensures
            final(self).inv(),
            amount > old(self)@.ledger.balance_of(account_id@) ==> result == Err::<(), Error>(
                Error::InsufficientBalance,
            ) && final(self)@ == old(self)@,
            amount <= old(self)@.ledger.balance_of(account_id@) ==> result == Ok::<(), Error>(())
                && final(self)@ == old(self)@.with_ledger(
                old(self)@.ledger.withdraw(account_id@, amount),
            ),
    {
        let result = self.ledger.withdraw(account_id, amount);
        proof {
            old(self)@.lemma_pairing_kept(self@.ledger);
        }
        result
    }

    /// The safe transfer from `sender` to `receiver`, which must have a
    /// ledger entry. A rejected transfer changes nothing.
    pub fn transfer(
        &mut self,
        sender: &String,
        receiver: &String,
        amount: u128,
    ) -> (result: Result<(), Error>)
        requires
            old(self).inv(),
        ensures
            final(self).inv(),
            match old(self)@.ledger.transfer_error(sender@, receiver@, amount, true) {
                Some(e) => result == Err::<(), Error>(e) && final(self)@ == old(self)@,
                None => result == Ok::<(), Error>(()) && final(self)@ == old(self)@.with_ledger(
                    old(self)@.ledger.transfer(sender@, receiver@, amount),
                ),
            },
    {
        let result = self.ledger.transfer(sender, receiver, amount);
        proof {
            old(self)@.lemma_pairing_kept(self@.ledger);
        }
        result
    }

    /// The unsafe transfer from `sender` to `receiver`, which gets a ledger
    /// entry where it has none. A rejected transfer changes nothing.
    pub fn transfer_unsafe(
        &mut self,
        sender: &String,
        receiver: &String,
        amount: u128,
    ) -> (result: Result<(), Error>)
        requires
            old(self).inv(),
        ensures
            final(self).inv(),
            match old(self)@.ledger.transfer_error(sender@, receiver@, amount, false) {
                Some(e) => result == Err::<(), Error>(e) && final(self)@ == old(self)@,
                None => result == Ok::<(), Error>(()) && final(self)@ == old(self)@.with_ledger(
                    old(self)@.ledger.transfer(sender@, receiver@, amount),
                ),
            },
    {
        let result = self.ledger.transfer_unsafe(sender, receiver, amount);
        proof {
            old(self)@.lemma_pairing_kept(self@.ledger);
        }
        result
    }

    /// The principal that an operation of `predecessor` is attributed to:
    /// the guest that `signer_pk` is mapped to where `predecessor` is the
    /// guest scope of the owner, else `predecessor` itself.
    pub fn get_predecessor(
        &self,
        predecessor: &String,
        signer_pk: &Vec<u8>,
    ) -> (result: Result<String, Error>)
        requires
            self.wf(),
        ensures
            match self@.resolve_caller(predecessor@, signer_pk@) {
                Ok(principal) => result matches Ok(p) && p@ == principal,
                Err(e) => result matches Err(x) && x == e,
            },
    {
        let scope = String::from_str("guests.").concat(self.owner_id.as_str());
        if *predecessor == scope {
            match self.guests.get(signer_pk) {
                Some(principal) => Ok(principal.clone()),
                None => Err(Error::NotAGuest),
            }
        } else {
            Ok(predecessor.clone())
        }
    }

    /// Registers `account_id` as a guest under `public_key`, and gives it a
    /// ledger entry with balance `0`. Reserved for the owner; a rejected
    /// registration changes nothing.
    pub fn add_guest(
        &mut self,
        caller: &String,
        account_id: String,
        public_key: Vec<u8>,
    ) -> (result: Result<(), Error>)
        requires
            old(self).inv(),
        ensures
            final(self).inv(),
            final(self)@ == old(self)@.add_guest(caller@, account_id@, public_key@).0,
            result == old(self)@.add_guest(caller@, account_id@, public_key@).1,
    {
        if !(*caller == self.owner_id) {
            return Err(Error::NotOwner);
        }
        if self.ledger.is_registered(&account_id) {
            return Err(Error::DuplicateAccount);
        }
        if self.guests.contains_key(&public_key) {
            return Err(Error::DuplicateGuest);
        }
        proof {
            self@.ledger.lemma_register_conserves(account_id@);
        }
        self.ledger.register(&account_id);
        self.guests.insert(public_key, account_id);
        Ok(())
    }

    /// Starts the migration of the guest that `signer_pk` is mapped to: it
    /// pays the fee, the funding amount and `storage_minimum`, which its
    /// balance must exceed, and the request to provision its account with
    /// the given keys is handed back. A rejected migration changes nothing.
    pub fn upgrade_guest(
        &mut self,
        signer_pk: &Vec<u8>,
        public_key: Vec<u8>,
        access_key: Vec<u8>,
        method_names: String,
        storage_minimum: u128,
    ) -> (result: Result<ProvisioningRequest, Error>)
        requires
            old(self).inv(),
        ensures
            final(self).inv(),
            final(self)@ == old(self)@.upgrade_guest(
                signer_pk@,
                public_key@,
                access_key@,
                method_names@,
                storage_minimum,
            ).0,
            match old(self)@.upgrade_guest(
                signer_pk@,
                public_key@,
                access_key@,
                method_names@,
                storage_minimum,
            ).1 {
                Ok(request) => result matches Ok(r) && r@ == request,
                Err(e) => result matches Err(x) && x == e,
            },
    {
        let account_id: String = match self.guests.get(signer_pk) {
            Some(principal) => principal.clone(),
            None => {
                return Err(Error::NotAGuest);
            },
        };
        let balance: u128 = self.ledger.balance_of(&account_id);
        let base: u128 = SPONSOR_FEE + FUNDING_AMOUNT;
        let cost: u128 = match base.checked_add(storage_minimum) {
            Some(c) => c,
            None => {
                return Err(Error::InsufficientFundsToUpgrade);
            },
        };
        if balance <= cost {
            return Err(Error::InsufficientFundsToUpgrade);
        }
        let _ = self.ledger.withdraw(&account_id, cost);
        let guest_key: Vec<u8> = signer_pk.clone();
        assert(guest_key@ =~= signer_pk@);
        Ok(
            ProvisioningRequest {
                account_id,
                full_access_key: public_key,
                access_key,
                allowance: ACCESS_KEY_ALLOWANCE,
                method_names,
                funding: FUNDING_AMOUNT,
                guest_key,
                withdrawn: cost,
            },
        )
    }

    /// Stores a proposal of `amount` with `text` for the principal that the
    /// caller resolves to, unless that principal has one outstanding. A
    /// rejected proposal changes nothing.
    pub fn make_proposal(
        &mut self,
        caller: &String,
        signer_pk: &Vec<u8>,
        text: String,
        amount: u128,
    ) -> (result: Result<(), Error>)
        requires
            old(self).inv(),
        ensures
            final(self).inv(),
            final(self)@ == old(self)@.make_proposal(caller@, signer_pk@, text@, amount).0,
            result == old(self)@.make_proposal(caller@, signer_pk@, text@, amount).1,
    {
        let account_id: String = match self.get_predecessor(caller, signer_pk) {
            Ok(principal) => principal,
            Err(e) => {
                return Err(e);
            },
        };
        if self.proposals.contains_key(&account_id) {
            return Err(Error::ProposalExists);
        }
        self.proposals.insert(account_id, Proposal::new(text, amount));
        Ok(())
    }

    /// Pays the proposal of `owner_id` from the balance of `payer`: removes
    /// the proposal, then transfers its amount.
    fn pay_proposal(
        &mut self,
        payer: &String,
        owner_id: &String,
        safe: bool,
    ) -> (result: Result<(), Error>)
        requires
            old(self).inv(),
        ensures
            final(self).inv(),
            final(self)@ == old(self)@.pay_proposal(payer@, owner_id@, safe).0,
            result == old(self)@.pay_proposal(payer@, owner_id@, safe).1,
    {
        let proposal: Proposal = match self.proposals.remove(owner_id) {
            Some(p) => p,
            None => {
                return Err(Error::NoProposal);
            },
        };
        if safe {
            self.ledger.transfer(payer, owner_id, proposal.amount)
        } else {
            self.ledger.transfer_unsafe(payer, owner_id, proposal.amount)
        }
    }

    /// Pays the proposal of `owner_id` from the caller's balance by a safe
    /// transfer. Without a proposal nothing changes; a proposal is removed
    /// before the transfer, and stays removed where the transfer is
    /// rejected.
    pub fn fund_proposal(
        &mut self,
        caller: &String,
        owner_id: &String,
    ) -> (result: Result<(), Error>)
        requires
            old(self).inv(),
        ensures
            final(self).inv(),
            final(self)@ == old(self)@.fund_proposal(caller@, owner_id@).0,
            result == old(self)@.fund_proposal(caller@, owner_id@).1,
    {
        self.pay_proposal(caller, owner_id, true)
    }

    /// Pays the proposal of `owner_id` from the balance of the guest that
    /// `signer_pk` is mapped to, by an unsafe transfer. Without such a guest
    /// or without a proposal nothing changes; a proposal is removed before
    /// the transfer, and stays removed where the transfer is rejected.
    pub fn fund_proposal_guest(
        &mut self,
        signer_pk: &Vec<u8>,
        owner_id: &String,
    ) -> (result: Result<(), Error>)
        requires
            old(self).inv(),
        ensures
            final(self).inv(),
            final(self)@ == old(self)@.fund_proposal_guest(signer_pk@, owner_id@).0,
            result == old(self)@.fund_proposal_guest(signer_pk@, owner_id@).1,
    {
        let payer: String = match self.guests.get(signer_pk) {
            Some(principal) => principal.clone(),
            None => {
                return Err(Error::NotAGuest);
            },
        };
        self.pay_proposal(&payer, owner_id, false)
    }

    /// Removes the proposal of `owner_id`, which the caller must resolve
    /// to. A rejected removal changes nothing.
    pub fn remove_proposal(
        &mut self,
        caller: &String,
        signer_pk: &Vec<u8>,
        owner_id: &String,
    ) -> (result: Result<(), Error>)
        requires
            old(self).inv(),
        ensures
            final(self).inv(),
            final(self)@ == old(self)@.remove_proposal(caller@, signer_pk@, owner_id@).0,
            result == old(self)@.remove_proposal(caller@, signer_pk@, owner_id@).1,
    {
        let account_id: String = match self.get_predecessor(caller, signer_pk) {
            Ok(principal) => principal,
            Err(e) => {
                return Err(e);
            },
        };
        if !(account_id == *owner_id) {
            return Err(Error::NotOwner);
        }
        match self.proposals.remove(owner_id) {
            Some(_) => Ok(()),
            None => Err(Error::NoProposal),
        }
    }

    /// Completes a migration from the results that the continuation
    /// observes, and returns whether the account was created. A success
    /// removes the guest record of `public_key` and the proposal of
    /// `account_id`; a failure credits `withdrawn` back to `account_id`.
    /// With any number of results but one, nothing changes.
    pub fn on_account_created(
        &mut self,
        account_id: &String,
        public_key: &Vec<u8>,
        withdrawn: u128,
        outcomes: &Vec<PromiseOutcome>,
    ) -> (result: Result<bool, Error>)
        requires
            old(self).inv(),
            !old(self)@.refund_overflows(withdrawn, outcomes@),
        ensures
            final(self).inv(),
            final(self)@ == old(self)@.on_account_created(
                account_id@,
                public_key@,
                withdrawn,
                outcomes@,
            ).0,
            result == old(self)@.on_account_created(
                account_id@,
                public_key@,
                withdrawn,
                outcomes@,
            ).1,
    {
        let creation_succeeded: bool = match is_promise_success(outcomes) {
            Ok(b) => b,
            Err(e) => {
                return Err(e);
            },
        };
        if creation_succeeded {
            let _ = self.guests.remove(public_key);
            let _ = self.proposals.remove(account_id);
        } else {
            self.ledger.deposit(account_id, withdrawn);
        }
        Ok(creation_succeeded)
    }

    /// The outstanding proposal of `owner_id`.
    pub fn get_proposal(
        &self,
        owner_id: &String,
    ) -> (result: Result<Proposal, Error>)
        requires
            self.wf(),
        ensures
            match result {
                Ok(p) => self@.proposals.contains_key(owner_id@) && p@ == self@.proposals[owner_id@],
                Err(e) => !self@.proposals.contains_key(owner_id@) && e == Error::NoProposal,
            },
    {
        match self.proposals.get(owner_id) {
            Some(p) => Ok(p.duplicate()),
            None => Err(Error::NoProposal),
        }
    }

    /// The principal of the guest that `public_key` is mapped to.
    pub fn get_guest(
        &self,
        public_key: &Vec<u8>,
    ) -> (result: Result<String, Error>)
        requires
            self.wf(),
        ensures
            match result {
                Ok(p) => self@.guests.contains_key(public_key@) && p@ == self@.guests[public_key@],
                Err(e) => !self@.guests.contains_key(public_key@) && e == Error::NotAGuest,
            },
    {
        match self.guests.get(public_key) {
            Some(p) => Ok(p.clone()),
            None => Err(Error::NotAGuest),
        }
    }
}

/// The continuation of a provisioning request: what the host calls back
/// when the remote operation has completed.
pub trait ExtContract {
    /// What the implementor holds.
    spec fn state(&self) -> State;

    /// The implementor is valid and its state keeps the invariant.
    spec fn valid(&self) -> bool;

    /// Completes the migration of `account_id`, the guest of `public_key`
    /// that paid `withdrawn`, from the results that the continuation
    /// observes, and returns whether the account was created.
    fn on_account_created(
        &mut self,
        account_id: &String,
        public_key: &Vec<u8>,
        withdrawn: u128,
        outcomes: &Vec<PromiseOutcome>,
    ) -> (result: Result<bool, Error>)
        requires
            old(self).valid(),
            !old(self).state().refund_overflows(withdrawn, outcomes@),
        ensures
            final(self).valid(),
            final(self).state() == old(self).state().on_account_created(
                account_id@,
                public_key@,
                withdrawn,
                outcomes@,
            ).0,
            result == old(self).state().on_account_created(
                account_id@,
                public_key@,
                withdrawn,
                outcomes@,
            ).1,
    ;
}

impl ExtContract for Contract {
    open spec fn state(&self) -> State {
        self@
    }

    open spec fn valid(&self) -> bool {
        self.inv()
    }

    fn on_account_created(
        &mut self,
        account_id: &String,
        public_key: &Vec<u8>,
        withdrawn: u128,
        outcomes: &Vec<PromiseOutcome>,
    ) -> (result: Result<bool, Error>) {
        Contract::on_account_created(self, account_id, public_key, withdrawn, outcomes)
    }
}

} // verus!
