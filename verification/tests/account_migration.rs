use guest_ledger::{
    is_promise_success, synthetic_account_id, Contract, Error, ExtContract, PromiseOutcome,
    ProvisioningRequest, ACCESS_KEY_ALLOWANCE, FUNDING_AMOUNT, SPONSOR_FEE,
    SYNTHETIC_ACCOUNT_ID_LEN,
};

const OWNER: &str = "bank.near";
const UNIT: u128 = 1_000_000_000_000_000_000;

fn name(s: &str) -> String {
    s.to_string()
}

fn key(tag: u8) -> Vec<u8> {
    let mut k = vec![0u8];
    k.extend(std::iter::repeat(tag).take(32));
    k
}

fn contract_with_guest(guest: &str, tag: u8, balance: u128) -> Contract {
    let mut c = Contract::new(name(OWNER), 125);
    assert_eq!(c.add_guest(&name(OWNER), name(guest), key(tag)), Ok(()));
    c.deposit(&name(guest), balance);
    c
}

#[test]
fn fees_are_fixed() {
    assert_eq!(SPONSOR_FEE, 100_000 * UNIT);
    assert_eq!(FUNDING_AMOUNT, 500_000 * UNIT);
    assert_eq!(ACCESS_KEY_ALLOWANCE, 100_000 * UNIT);
}

#[test]
fn synthetic_account_id_has_the_declared_size() {
    let id = synthetic_account_id();
    assert_eq!(SYNTHETIC_ACCOUNT_ID_LEN, 64);
    assert_eq!(id.len(), 64);
    assert!(id.chars().all(|c| c == 'a'));
}

#[test]
fn one_successful_result_is_a_success() {
    assert_eq!(is_promise_success(&vec![PromiseOutcome::Successful]), Ok(true));
}

#[test]
fn one_other_result_is_no_success() {
    assert_eq!(is_promise_success(&vec![PromiseOutcome::Failed]), Ok(false));
    assert_eq!(is_promise_success(&vec![PromiseOutcome::NotReady]), Ok(false));
}

#[test]
fn any_number_of_results_but_one_is_a_protocol_violation() {
    assert_eq!(is_promise_success(&Vec::new()), Err(Error::ProtocolViolation));
    assert_eq!(
        is_promise_success(&vec![PromiseOutcome::Successful, PromiseOutcome::Successful]),
        Err(Error::ProtocolViolation)
    );
    assert_eq!(
        is_promise_success(&vec![
            PromiseOutcome::Failed,
            PromiseOutcome::Successful,
            PromiseOutcome::NotReady
        ]),
        Err(Error::ProtocolViolation)
    );
}

#[test]
fn upgrade_guest_takes_the_cost_from_balance_and_supply() {
    let mut c = contract_with_guest("carol", 1, 1_000_000 * UNIT);
    c.deposit(&name("alice.near"), 77);
    let supply = c.total_supply();
    let r = c.upgrade_guest(&key(1), key(2), key(3), name("fund,claim"), 1_234);
    let cost = 600_000 * UNIT + 1_234;
    assert_eq!(
        r,
        Ok(ProvisioningRequest {
            account_id: name("carol"),
            full_access_key: key(2),
            access_key: key(3),
            allowance: ACCESS_KEY_ALLOWANCE,
            method_names: name("fund,claim"),
            funding: FUNDING_AMOUNT,
            guest_key: key(1),
            withdrawn: cost,
        })
    );
    assert_eq!(c.balance_of(&name("carol")), 1_000_000 * UNIT - cost);
    assert_eq!(c.total_supply(), supply - cost);
    assert_eq!(c.balance_of(&name("alice.near")), 77);
    assert_eq!(c.get_guest(&key(1)), Ok(name("carol")));
}

#[test]
fn upgrade_guest_requires_a_guest() {
    let mut c = contract_with_guest("carol", 1, 1_000_000 * UNIT);
    assert_eq!(
        c.upgrade_guest(&key(4), key(2), key(3), name("fund"), 0),
        Err(Error::NotAGuest)
    );
    assert_eq!(c.balance_of(&name("carol")), 1_000_000 * UNIT);
    assert_eq!(c.total_supply(), 1_000_000 * UNIT);
}

#[test]
fn upgrade_guest_requires_a_balance_above_the_cost() {
    let mut c = contract_with_guest("carol", 1, 600_000 * UNIT + 10);
    assert_eq!(
        c.upgrade_guest(&key(1), key(2), key(3), name("fund"), 10),
        Err(Error::InsufficientFundsToUpgrade)
    );
    assert_eq!(
        c.upgrade_guest(&key(1), key(2), key(3), name("fund"), 11),
        Err(Error::InsufficientFundsToUpgrade)
    );
    assert_eq!(c.balance_of(&name("carol")), 600_000 * UNIT + 10);
    assert_eq!(c.total_supply(), 600_000 * UNIT + 10);
    let r = c.upgrade_guest(&key(1), key(2), key(3), name("fund"), 9);
    assert_eq!(r.map(|q| q.withdrawn), Ok(600_000 * UNIT + 9));
    assert_eq!(c.balance_of(&name("carol")), 1);
    assert_eq!(c.total_supply(), 1);
}

#[test]
fn upgrade_guest_with_zero_balance() {
    let mut c = contract_with_guest("carol", 1, 0);
    assert_eq!(
        c.upgrade_guest(&key(1), key(2), key(3), name("fund"), 0),
        Err(Error::InsufficientFundsToUpgrade)
    );
}

#[test]
fn upgrade_guest_with_a_cost_beyond_every_balance() {
    let mut c = contract_with_guest("carol", 1, u128::MAX);
    assert_eq!(
        c.upgrade_guest(&key(1), key(2), key(3), name("fund"), u128::MAX),
        Err(Error::InsufficientFundsToUpgrade)
    );
    assert_eq!(
        c.upgrade_guest(&key(1), key(2), key(3), name("fund"), u128::MAX - 600_000 * UNIT),
        Err(Error::InsufficientFundsToUpgrade)
    );
    assert_eq!(c.balance_of(&name("carol")), u128::MAX);
    let r = c.upgrade_guest(&key(1), key(2), key(3), name("fund"), u128::MAX - 600_000 * UNIT - 1);
    assert_eq!(r.map(|q| q.withdrawn), Ok(u128::MAX - 1));
    assert_eq!(c.balance_of(&name("carol")), 1);
}

#[test]
fn successful_completion_removes_guest_and_proposal() {
    let mut c = contract_with_guest("carol", 1, 1_000_000 * UNIT);
    c.register_account(&name("dave"));
    assert_eq!(c.make_proposal(&name("guests.bank.near"), &key(1), name("a kite"), 20), Ok(()));
    assert_eq!(c.make_proposal(&name("dave"), &key(9), name("a bike"), 30), Ok(()));
    let q = c.upgrade_guest(&key(1), key(2), key(3), name("fund"), 0).expect("a request");
    let r = c.on_account_created(
        &q.account_id,
        &q.guest_key,
        q.withdrawn,
        &vec![PromiseOutcome::Successful],
    );
    assert_eq!(r, Ok(true));
    assert_eq!(c.get_guest(&key(1)), Err(Error::NotAGuest));
    assert_eq!(c.get_proposal(&name("carol")), Err(Error::NoProposal));
    assert!(c.get_proposal(&name("dave")).is_ok());
    assert_eq!(c.balance_of(&name("carol")), 400_000 * UNIT);
    assert_eq!(c.total_supply(), 400_000 * UNIT);
    assert!(c.is_registered(&name("carol")));
}

#[test]
fn failed_completion_gives_back_what_was_withdrawn() {
    let mut c = contract_with_guest("carol", 1, 1_000_000 * UNIT);
    assert_eq!(c.make_proposal(&name("guests.bank.near"), &key(1), name("a kite"), 20), Ok(()));
    let q = c.upgrade_guest(&key(1), key(2), key(3), name("fund"), 5).expect("a request");
    assert_eq!(c.balance_of(&name("carol")), 400_000 * UNIT - 5);
    let r = c.on_account_created(
        &q.account_id,
        &q.guest_key,
        q.withdrawn,
        &vec![PromiseOutcome::Failed],
    );
    assert_eq!(r, Ok(false));
    assert_eq!(c.get_guest(&key(1)), Ok(name("carol")));
    assert!(c.get_proposal(&name("carol")).is_ok());
    assert_eq!(c.balance_of(&name("carol")), 1_000_000 * UNIT);
    assert_eq!(c.total_supply(), 1_000_000 * UNIT);
}

#[test]
fn completion_with_a_wrong_number_of_results_changes_nothing() {
    let mut c = contract_with_guest("carol", 1, 1_000_000 * UNIT);
    let q = c.upgrade_guest(&key(1), key(2), key(3), name("fund"), 0).expect("a request");
    assert_eq!(
        c.on_account_created(&q.account_id, &q.guest_key, q.withdrawn, &Vec::new()),
        Err(Error::ProtocolViolation)
    );
    assert_eq!(
        c.on_account_created(
            &q.account_id,
            &q.guest_key,
            q.withdrawn,
            &vec![PromiseOutcome::Successful, PromiseOutcome::Failed]
        ),
        Err(Error::ProtocolViolation)
    );
    assert_eq!(c.get_guest(&key(1)), Ok(name("carol")));
    assert_eq!(c.balance_of(&name("carol")), 400_000 * UNIT);
    assert_eq!(c.total_supply(), 400_000 * UNIT);
}

#[test]
fn supply_is_the_sum_of_balances_through_a_migration() {
    let mut c = contract_with_guest("carol", 1, 1_000_000 * UNIT);
    c.deposit(&name("alice.near"), 12);
    let sum = |c: &Contract| -> u128 { c.account_entries().iter().map(|e| e.1).sum() };
    assert_eq!(sum(&c), c.total_supply());
    let q = c.upgrade_guest(&key(1), key(2), key(3), name("fund"), 0).expect("a request");
    assert_eq!(sum(&c), c.total_supply());
    let _ = c.on_account_created(
        &q.account_id,
        &q.guest_key,
        q.withdrawn,
        &vec![PromiseOutcome::Failed],
    );
    assert_eq!(sum(&c), c.total_supply());
    let q = c.upgrade_guest(&key(1), key(2), key(3), name("fund"), 0).expect("a request");
    let _ = c.on_account_created(
        &q.account_id,
        &q.guest_key,
        q.withdrawn,
        &vec![PromiseOutcome::Successful],
    );
    assert_eq!(sum(&c), c.total_supply());
    assert_eq!(c.total_supply(), 400_000 * UNIT + 12);
}

#[test]
fn end_to_end_migration_of_a_guest() {
    let owner = name(OWNER);
    let g = name("g");
    let pk = key(7);
    let mut c = Contract::new(owner.clone(), 125);
    c.deposit(&name("alice.near"), 250_000 * UNIT);
    assert_eq!(c.add_guest(&owner, g.clone(), pk.clone()), Ok(()));
    c.deposit(&g, 1_000_000 * UNIT);
    assert_eq!(c.make_proposal(&name("guests.bank.near"), &pk, name("a kite"), 20), Ok(()));
    let supply = c.total_supply();

    let storage_minimum = 0;
    let total = SPONSOR_FEE + FUNDING_AMOUNT + storage_minimum;
    assert_eq!(total, 600_000 * UNIT);
    let q = c
        .upgrade_guest(&pk, key(2), key(3), name("fund"), storage_minimum)
        .expect("a request");
    assert_eq!(q.account_id, g);
    assert_eq!(q.withdrawn, 600_000 * UNIT);
    assert_eq!(c.balance_of(&g), 400_000 * UNIT);
    assert_eq!(c.total_supply(), supply - 600_000 * UNIT);

    let r = c.on_account_created(
        &q.account_id,
        &q.guest_key,
        q.withdrawn,
        &vec![PromiseOutcome::Successful],
    );
    assert_eq!(r, Ok(true));
    assert_eq!(c.get_guest(&pk), Err(Error::NotAGuest));
    assert_eq!(c.get_proposal(&g), Err(Error::NoProposal));
    assert_eq!(c.balance_of(&g), 400_000 * UNIT);
    assert_eq!(c.total_supply(), supply - 600_000 * UNIT);
    assert_eq!(c.get_predecessor(&name("guests.bank.near"), &pk), Err(Error::NotAGuest));
    assert_eq!(c.get_predecessor(&g, &pk), Ok(name("g")));
}

#[test]
fn continuation_through_the_trait_completes_the_migration() {
    let mut c = contract_with_guest("carol", 1, 1_000_000 * UNIT);
    let q = c.upgrade_guest(&key(1), key(2), key(3), name("fund"), 0).expect("a request");
    let r = ExtContract::on_account_created(
        &mut c,
        &q.account_id,
        &q.guest_key,
        q.withdrawn,
        &vec![PromiseOutcome::Successful],
    );
    assert_eq!(r, Ok(true));
    assert_eq!(c.get_guest(&key(1)), Err(Error::NotAGuest));
    assert_eq!(c.balance_of(&name("carol")), 400_000 * UNIT);
}
