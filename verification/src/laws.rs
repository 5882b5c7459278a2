//! What holds of the model whatever the arguments: the laws that the
//! operations are designed around, each proved from the model alone.

use crate::error::Error;
use crate::ledger::LedgerView;
use crate::migration::{migration_cost, promise_success, PromiseOutcome};
use crate::state::State;
use vstd::prelude::*;

verus! {

/// One operation on the ledger.
pub enum LedgerOp {
    /// Give the principal an entry.
    Register { principal: Seq<char> },
    /// Credit `amount` to the principal.
    Deposit { principal: Seq<char>, amount: u128 },
    /// Take `amount` from the principal.
    Withdraw { principal: Seq<char>, amount: u128 },
    /// Move `amount` from `from` to `to`, by a safe or an unsafe transfer.
    Transfer { from: Seq<char>, to: Seq<char>, amount: u128, safe: bool },
}

/// The ledger after one operation. A rejected operation, and a deposit that
/// the total supply has no room for, leave the ledger as it was.
pub open spec fn apply(ledger: LedgerView, op: LedgerOp) -> LedgerView {
    match op {
        LedgerOp::Register { principal } => ledger.register(principal),
        LedgerOp::Deposit { principal, amount } => if ledger.total_supply + amount <= u128::MAX {
            ledger.deposit(principal, amount)
        } else {
            ledger
        },
        LedgerOp::Withdraw { principal, amount } => if amount <= ledger.balance_of(principal) {
            ledger.withdraw(principal, amount)
        } else {
            ledger
        },
        LedgerOp::Transfer { from, to, amount, safe } => if ledger.transfer_error(
            from,
            to,
            amount,
            safe,
        ) is None {
            ledger.transfer(from, to, amount)
        } else {
            ledger
        },
    }
}

/// The ledger after a sequence of operations, applied in order.
pub open spec fn run(ledger: LedgerView, ops: Seq<LedgerOp>) -> LedgerView
    decreases ops.len(),
{
    if ops.len() == 0 {
        ledger
    } else {
        apply(run(ledger, ops.drop_last()), ops.last())
    }
}

/// Supply conservation, one step: an operation on a ledger whose total
/// supply is the sum of its balances leaves a ledger of which the same
/// holds.
pub proof fn lemma_apply_conserves_supply(ledger: LedgerView, op: LedgerOp)
    requires
        ledger.conserved(),
    ensures
        apply(ledger, op).conserved(),
{
    match op {
        LedgerOp::Register { principal } => {
            ledger.lemma_register_conserves(principal);
        },
        LedgerOp::Deposit { principal, amount } => {
            if ledger.total_supply + amount <= u128::MAX {
                ledger.lemma_deposit_conserves(principal, amount);
            }
        },
        LedgerOp::Withdraw { principal, amount } => {
            if amount <= ledger.balance_of(principal) {
                ledger.lemma_withdraw_conserves(principal, amount);
            }
        },
        LedgerOp::Transfer { from, to, amount, safe } => {
            if ledger.transfer_error(from, to, amount, safe) is None {
                ledger.lemma_transfer_conserves(from, to, amount);
            }
        },
    }
}

/// Supply conservation: starting from a ledger whose total supply is the
/// sum of its balances, the same holds after every operation of any
/// sequence of registrations, deposits, withdrawals and transfers.
pub proof fn lemma_supply_conserved(ledger: LedgerView, ops: Seq<LedgerOp>)
    requires
        ledger.conserved(),
    ensures
        forall|k: int| 0 <= k <= ops.len() ==> (#[trigger] run(ledger, ops.take(k))).conserved(),
    decreases ops.len(),
{
    assert forall|k: int| 0 <= k <= ops.len() implies (#[trigger] run(
        ledger,
        ops.take(k),
    )).conserved() by {
        if k == ops.len() {
            assert(ops.take(k) =~= ops);
            if ops.len() > 0 {
                lemma_supply_conserved(ledger, ops.drop_last());
                assert(ops.drop_last().take(k - 1) =~= ops.drop_last());
                lemma_apply_conserves_supply(run(ledger, ops.drop_last()), ops.last());
            }
        } else {
            lemma_supply_conserved(ledger, ops.drop_last());
            assert(ops.drop_last().take(k) =~= ops.take(k));
        }
    }
}

/// No negative balance: a withdrawal or a transfer, safe or not, of more
/// than the balance it is taken from is rejected for insufficient balance,
/// and leaves the ledger as it was.
pub proof fn lemma_overdraft_rejected(
    ledger: LedgerView,
    from: Seq<char>,
    to: Seq<char>,
    amount: u128,
    safe: bool,
)
    requires
        amount > ledger.balance_of(from),
    ensures
        ledger.transfer_error(from, to, amount, safe) == Some(Error::InsufficientBalance),
        apply(ledger, LedgerOp::Transfer { from, to, amount, safe }) == ledger,
        apply(ledger, LedgerOp::Withdraw { principal: from, amount }) == ledger,
{
}

/// No negative balance: an accepted withdrawal or transfer takes from the
/// sender exactly `amount`, which its balance covered.
pub proof fn lemma_accepted_amount_covered(
    ledger: LedgerView,
    from: Seq<char>,
    to: Seq<char>,
    amount: u128,
    safe: bool,
)
    requires
        ledger.conserved(),
        ledger.transfer_error(from, to, amount, safe) is None,
        from != to,
    ensures
        ledger.transfer(from, to, amount).balance_of(from) == ledger.balance_of(from) - amount,
        ledger.transfer(from, to, amount).balance_of(to) == ledger.balance_of(to) + amount,
        ledger.withdraw(from, amount).balance_of(from) == ledger.balance_of(from) - amount,
{
    ledger.lemma_withdraw_conserves(from, amount);
    ledger.lemma_transfer_conserves(from, to, amount);
    ledger.withdraw(from, amount).lemma_deposit_conserves(to, amount);
}

/// Guest/ledger pairing: registering a guest either maps the key to the
/// principal and gives the principal a ledger entry with balance `0`, where
/// before there was neither, or changes nothing. Either way the state keeps
/// its invariant.
pub proof fn lemma_add_guest_pairs(
    s: State,
    caller: Seq<char>,
    account_id: Seq<char>,
    public_key: Seq<u8>,
)
    requires
        s.inv(),
    ensures
        ({
            let (t, r) = s.add_guest(caller, account_id, public_key);
            &&& t.inv()
            &&& r is Ok ==> {
                &&& !s.guests.contains_key(public_key)
                &&& !s.ledger.registered(account_id)
                &&& t.guests.contains_key(public_key)
                &&& t.guests[public_key] == account_id
                &&& t.ledger.registered(account_id)
                &&& t.ledger.balance_of(account_id) == 0
                &&& t.ledger.total_supply == s.ledger.total_supply
            }
            &&& r is Err ==> t == s
            &&& r is Ok <==> caller == s.owner && !s.guests.contains_key(public_key)
                && !s.ledger.registered(account_id)
        }),
{
    s.ledger.lemma_register_conserves(account_id);
}

/// Single outstanding proposal: after a principal has made a proposal, a
/// second one by the same caller is rejected because a proposal exists,
/// and changes nothing.
pub proof fn lemma_second_proposal_rejected(
    s: State,
    caller: Seq<char>,
    signer_pk: Seq<u8>,
    text: Seq<char>,
    amount: u128,
    text2: Seq<char>,
    amount2: u128,
)
    requires
        s.make_proposal(caller, signer_pk, text, amount).1 is Ok,
    ensures
        ({
            let t = s.make_proposal(caller, signer_pk, text, amount).0;
            t.make_proposal(caller, signer_pk, text2, amount2) == (
                t,
                Err::<(), Error>(Error::ProposalExists),
            )
        }),
{
}

/// Funding atomicity: funding an existing proposal removes it; then either
/// the owner is credited exactly the proposed amount and the payer debited
/// the same, or the transfer is rejected and the ledger is as it was. In
/// both cases a second funding finds no proposal and changes nothing, so no
/// proposal is paid twice.
pub proof fn lemma_funding_atomic(s: State, payer: Seq<char>, owner: Seq<char>, safe: bool)
    requires
        s.inv(),
        s.proposals.contains_key(owner),
    ensures
        ({
            let (t, r) = s.pay_proposal(payer, owner, safe);
            let amount = s.proposals[owner].amount;
            &&& t.inv()
            &&& !t.proposals.contains_key(owner)
            &&& r is Ok ==> t.ledger == s.ledger.transfer(payer, owner, amount)
            &&& r is Ok && payer != owner ==> {
                &&& t.ledger.balance_of(owner) == s.ledger.balance_of(owner) + amount
                &&& t.ledger.balance_of(payer) == s.ledger.balance_of(payer) - amount
            }
            &&& r is Err ==> t.ledger == s.ledger
            &&& forall|payer2: Seq<char>| #[trigger]
                t.pay_proposal(payer2, owner, safe) == (t, Err::<(), Error>(Error::NoProposal))
        }),
{
    let amount = s.proposals[owner].amount;
    if s.ledger.transfer_error(payer, owner, amount, safe) is None {
        s.ledger.lemma_transfer_conserves(payer, owner, amount);
        s.lemma_pairing_kept(s.ledger.transfer(payer, owner, amount));
        if payer != owner {
            lemma_accepted_amount_covered(s.ledger, payer, owner, amount, safe);
        }
    }
}

/// Migration fee accounting: for a guest whose balance exceeds the cost of
/// migration, starting the migration takes exactly that cost from the
/// guest's balance and from the total supply. The result that the host
/// reports later plays no part in it.
pub proof fn lemma_migration_fee_accounting(
    s: State,
    signer_pk: Seq<u8>,
    public_key: Seq<u8>,
    access_key: Seq<u8>,
    method_names: Seq<char>,
    storage_minimum: u128,
)
    requires
        s.inv(),
        s.guests.contains_key(signer_pk),
        s.ledger.balance_of(s.guests[signer_pk]) > migration_cost(storage_minimum),
    ensures
        ({
            let (t, r) = s.upgrade_guest(
                signer_pk,
                public_key,
                access_key,
                method_names,
                storage_minimum,
            );
            let guest = s.guests[signer_pk];
            &&& t.inv()
            &&& r is Ok
            &&& r->Ok_0.withdrawn == migration_cost(storage_minimum)
            &&& t.ledger.balance_of(guest) == s.ledger.balance_of(guest) - migration_cost(
                storage_minimum,
            )
            &&& t.ledger.total_supply == s.ledger.total_supply - migration_cost(storage_minimum)
            &&& t.guests == s.guests
            &&& t.proposals == s.proposals
        }),
{
    let guest = s.guests[signer_pk];
    let cost = migration_cost(storage_minimum) as u128;
    s.ledger.lemma_withdraw_conserves(guest, cost);
    s.lemma_pairing_kept(s.ledger.withdraw(guest, cost));
}

/// A migration that is not started changes nothing: without a guest for
/// the signing key, or with a balance that does not exceed the cost.
pub proof fn lemma_migration_rejected(
    s: State,
    signer_pk: Seq<u8>,
    public_key: Seq<u8>,
    access_key: Seq<u8>,
    method_names: Seq<char>,
    storage_minimum: u128,
)
    requires
        !s.guests.contains_key(signer_pk) || s.ledger.balance_of(s.guests[signer_pk])
            <= migration_cost(storage_minimum),
    ensures
        ({
            let (t, r) = s.upgrade_guest(
                signer_pk,
                public_key,
                access_key,
                method_names,
                storage_minimum,
            );
            &&& t == s
            &&& r is Err
        }),
{
}

/// Completion of a migration: a success removes the guest record and the
/// principal's proposal and leaves the ledger as it was; a failure gives
/// back what was withdrawn and keeps the guest record; any number of
/// results but one is a protocol violation and changes nothing. The state
/// keeps its invariant.
pub proof fn lemma_completion(
    s: State,
    account_id: Seq<char>,
    public_key: Seq<u8>,
    withdrawn: u128,
    outcomes: Seq<PromiseOutcome>,
)
    requires
        s.inv(),
        !s.refund_overflows(withdrawn, outcomes),
    ensures
        ({
            let (t, r) = s.on_account_created(account_id, public_key, withdrawn, outcomes);
            &&& t.inv()
            &&& r == promise_success(outcomes)
            &&& r == Ok::<bool, Error>(true) ==> {
                &&& !t.guests.contains_key(public_key)
                &&& !t.proposals.contains_key(account_id)
                &&& t.ledger == s.ledger
            }
            &&& r == Ok::<bool, Error>(false) ==> {
                &&& t.guests == s.guests
                &&& t.proposals == s.proposals
                &&& t.ledger.balance_of(account_id) == s.ledger.balance_of(account_id) + withdrawn
                &&& t.ledger.total_supply == s.ledger.total_supply + withdrawn
            }
            &&& r is Err ==> t == s
        }),
{
    if promise_success(outcomes) == Ok::<bool, Error>(false) {
        s.ledger.lemma_deposit_conserves(account_id, withdrawn);
        s.lemma_pairing_kept(s.ledger.deposit(account_id, withdrawn));
    }
}

/// A failed migration is undone: where starting a migration is followed,
/// with nothing in between, by a completion that reports a failure for the
/// same principal and amount, the ledger is as it was before.
pub proof fn lemma_failed_migration_restores(
    s: State,
    signer_pk: Seq<u8>,
    public_key: Seq<u8>,
    access_key: Seq<u8>,
    method_names: Seq<char>,
    storage_minimum: u128,
    outcomes: Seq<PromiseOutcome>,
)
    requires
        s.inv(),
        s.upgrade_guest(signer_pk, public_key, access_key, method_names, storage_minimum).1 is Ok,
        promise_success(outcomes) == Ok::<bool, Error>(false),
    ensures
        ({
            let (t, r) = s.upgrade_guest(
                signer_pk,
                public_key,
                access_key,
                method_names,
                storage_minimum,
            );
            let request = r->Ok_0;
            t.on_account_created(request.account_id, request.guest_key, request.withdrawn, outcomes)
                == (s, Ok::<bool, Error>(false))
        }),
{
    let guest = s.guests[signer_pk];
    let cost = migration_cost(storage_minimum) as u128;
    s.ledger.lemma_withdraw_conserves(guest, cost);
    let t = s.upgrade_guest(signer_pk, public_key, access_key, method_names, storage_minimum).0;
    let u = t.on_account_created(guest, signer_pk, cost, outcomes).0;
    assert(u.ledger.balances =~= s.ledger.balances);
    assert(u =~= s);
}

/// Every other operation keeps the invariant too: making, paying and
/// removing a proposal.
pub proof fn lemma_proposals_keep_inv(
    s: State,
    caller: Seq<char>,
    signer_pk: Seq<u8>,
    owner: Seq<char>,
    text: Seq<char>,
    amount: u128,
)
    requires
        s.inv(),
    ensures
        s.make_proposal(caller, signer_pk, text, amount).0.inv(),
        s.fund_proposal(caller, owner).0.inv(),
        s.fund_proposal_guest(signer_pk, owner).0.inv(),
        s.remove_proposal(caller, signer_pk, owner).0.inv(),
{
    if s.proposals.contains_key(owner) {
        lemma_funding_atomic(s, caller, owner, true);
        if s.guests.contains_key(signer_pk) {
            lemma_funding_atomic(s, s.guests[signer_pk], owner, false);
        }
    }
}

} // verus!
