//! The ledger store and the transfer engine: a balance per principal and
//! the total supply, which always equals the sum of the balances.

use crate::error::Error;
use crate::table::{distinct_keys, entries_view, lemma_entries_view_finite, lemma_entries_view_last, Table};
use vstd::prelude::*;

verus! {

/// The sum of all balances of a finite map of balances.
pub open spec fn total_balance(balances: Map<Seq<char>, u128>) -> nat
    decreases balances.dom().len(),
{
    if balances.dom().finite() && balances.dom().len() > 0 {
        let p = balances.dom().choose();
        balances[p] as nat + total_balance(balances.remove(p))
    } else {
        0
    }
}

/// The sum of the balances is the balance of any one principal plus the sum
/// of the others.
pub proof fn lemma_total_balance_remove(balances: Map<Seq<char>, u128>, p: Seq<char>)
    requires
        balances.dom().finite(),
        balances.contains_key(p),
    ensures
        total_balance(balances) == balances[p] + total_balance(balances.remove(p)),
    decreases balances.dom().len(),
{
    let c = balances.dom().choose();
    if c != p {
        lemma_total_balance_remove(balances.remove(c), p);
        lemma_total_balance_remove(balances.remove(p), c);
        assert(balances.remove(c).remove(p) =~= balances.remove(p).remove(c));
    }
}

/// Setting one principal's balance changes the sum to that balance plus the
/// sum of the others.
pub proof fn lemma_total_balance_insert(balances: Map<Seq<char>, u128>, p: Seq<char>, b: u128)
    requires
        balances.dom().finite(),
    ensures
        total_balance(balances.insert(p, b)) == b + total_balance(balances.remove(p)),
{
    lemma_total_balance_remove(balances.insert(p, b), p);
    assert(balances.insert(p, b).remove(p) =~= balances.remove(p));
}

/// The sum of the balances of a list of ledger entries.
pub open spec fn entries_total(s: Seq<(String, u128)>) -> nat
    decreases s.len(),
{
    if s.len() == 0 {
        0
    } else {
        entries_total(s.drop_last()) + s.last().1 as nat
    }
}

/// The sum of the balances of the first entries of a list does not exceed
/// the sum of all of them.
pub proof fn lemma_entries_total_grows(s: Seq<(String, u128)>, n: int)
    requires
        0 <= n <= s.len(),
    ensures
        entries_total(s.take(n)) <= entries_total(s),
    decreases s.len(),
{
    if n == s.len() {
        assert(s.take(n) =~= s);
    } else {
        lemma_entries_total_grows(s.drop_last(), n);
        assert(s.drop_last().take(n) =~= s.take(n));
    }
}

/// With distinct principals, the sum over a list of ledger entries is the
/// sum of the balances of the map that the list stands for.
pub proof fn lemma_entries_total_is_total_balance(s: Seq<(String, u128)>)
    requires
        distinct_keys(s),
    ensures
        total_balance(entries_view(s)) == entries_total(s),
    decreases s.len(),
{
    lemma_entries_view_finite(s);
    if s.len() == 0 {
        assert(entries_view(s).dom() =~= Set::<Seq<char>>::empty());
    } else {
        let t = s.drop_last();
        lemma_entries_view_last(s);
        lemma_entries_view_finite(t);
        lemma_entries_total_is_total_balance(t);
        lemma_total_balance_insert(entries_view(t), s.last().0@, s.last().1);
        assert(entries_view(t).remove(s.last().0@) =~= entries_view(t));
    }
}

/// What a ledger holds: the balance of each registered principal, and the
/// total supply.
#[verifier::ext_equal]
pub struct LedgerView {
    pub balances: Map<Seq<char>, u128>,
    pub total_supply: u128,
}

impl LedgerView {
    /// The ledger with no entry and no supply.
    pub open spec fn empty() -> LedgerView {
        LedgerView { balances: Map::empty(), total_supply: 0 }
    }

    /// Whether the principal has a ledger entry.
    pub open spec fn registered(self, p: Seq<char>) -> bool {
        self.balances.contains_key(p)
    }

    /// The principal's balance; `0` for a principal without an entry.
    pub open spec fn balance_of(self, p: Seq<char>) -> u128 {
        if self.balances.contains_key(p) {
            self.balances[p]
        } else {
            0
        }
    }

    /// Supply conservation: the total supply is the sum of all balances.
    pub open spec fn conserved(self) -> bool {
        &&& self.balances.dom().finite()
        &&& self.total_supply == total_balance(self.balances)
    }

    /// The ledger after the principal has been given an entry, with balance
    /// `0` where it had none.
    pub open spec fn register(self, p: Seq<char>) -> LedgerView {
        if self.registered(p) {
            self
        } else {
            LedgerView { balances: self.balances.insert(p, 0), ..self }
        }
    }

    /// The ledger after `amount` has been credited to the principal, whose
    /// entry is created where it had none.
    pub open spec fn deposit(self, p: Seq<char>, amount: u128) -> LedgerView {
        LedgerView {
            balances: self.balances.insert(p, (self.balance_of(p) + amount) as u128),
            total_supply: (self.total_supply + amount) as u128,
        }
    }

    /// The ledger after `amount`, which the balance covers, has been taken
    /// from the principal.
    pub open spec fn withdraw(self, p: Seq<char>, amount: u128) -> LedgerView {
        if self.registered(p) {
            LedgerView {
                balances: self.balances.insert(p, (self.balances[p] - amount) as u128),
                total_supply: (self.total_supply - amount) as u128,
            }
        } else {
            self
        }
    }

    /// Why a transfer is rejected, if it is: the sender's balance is checked
    /// first, then, for a safe transfer, the recipient's entry.
    pub open spec fn transfer_error(
        self,
        from: Seq<char>,
        to: Seq<char>,
        amount: u128,
        safe: bool,
    ) -> Option<Error> {
        if amount > self.balance_of(from) {
            Some(Error::InsufficientBalance)
        } else if safe && !self.registered(to) {
            Some(Error::RecipientNotRegistered)
        } else {
            None
        }
    }

    /// The ledger after `amount` has moved from one principal to another.
    pub open spec fn transfer(self, from: Seq<char>, to: Seq<char>, amount: u128) -> LedgerView {
        self.withdraw(from, amount).deposit(to, amount)
    }

    /// In a ledger that conserves supply no balance exceeds the total
    /// supply.
    pub proof fn lemma_balance_bounded(self, p: Seq<char>)
        requires
            self.conserved(),
        ensures
            self.balance_of(p) <= self.total_supply,
    {
        if self.registered(p) {
            lemma_total_balance_remove(self.balances, p);
        }
    }

    /// Registering a principal conserves supply.
    pub proof fn lemma_register_conserves(self, p: Seq<char>)
        requires
            self.conserved(),
        ensures
            self.register(p).conserved(),
            self.register(p).total_supply == self.total_supply,
    {
        if !self.registered(p) {
            lemma_total_balance_insert(self.balances, p, 0);
            assert(self.balances.remove(p) =~= self.balances);
        }
    }

    /// A deposit that the total supply has room for conserves supply, and
    /// credits exactly `amount`.
    pub proof fn lemma_deposit_conserves(self, p: Seq<char>, amount: u128)
        requires
            self.conserved(),
            self.total_supply + amount <= u128::MAX,
        ensures
            self.deposit(p, amount).conserved(),
            self.deposit(p, amount).balance_of(p) == self.balance_of(p) + amount,
            self.deposit(p, amount).total_supply == self.total_supply + amount,
    {
        self.lemma_balance_bounded(p);
        lemma_total_balance_insert(self.balances, p, (self.balance_of(p) + amount) as u128);
        if self.registered(p) {
            lemma_total_balance_remove(self.balances, p);
        } else {
            assert(self.balances.remove(p) =~= self.balances);
        }
    }

    /// A withdrawal that the balance covers conserves supply, and takes
    /// exactly `amount`.
    pub proof fn lemma_withdraw_conserves(self, p: Seq<char>, amount: u128)
        requires
            self.conserved(),
            amount <= self.balance_of(p),
        ensures
            self.withdraw(p, amount).conserved(),
            self.withdraw(p, amount).balance_of(p) == self.balance_of(p) - amount,
            self.withdraw(p, amount).total_supply == self.total_supply - amount,
    {
        if self.registered(p) {
            lemma_total_balance_remove(self.balances, p);
            lemma_total_balance_insert(self.balances, p, (self.balances[p] - amount) as u128);
        }
    }

    /// A transfer that the sender's balance covers conserves supply and
    /// leaves the total supply as it was.
    pub proof fn lemma_transfer_conserves(self, from: Seq<char>, to: Seq<char>, amount: u128)
        requires
            self.conserved(),
            amount <= self.balance_of(from),
        ensures
            self.transfer(from, to, amount).conserved(),
            self.transfer(from, to, amount).total_supply == self.total_supply,
            self.withdraw(from, amount).total_supply + amount <= u128::MAX,
    {
        self.lemma_balance_bounded(from);
        self.lemma_withdraw_conserves(from, amount);
        self.withdraw(from, amount).lemma_deposit_conserves(to, amount);
    }
}

/// The ledger store: a balance for each registered principal, and the
/// total supply.
pub struct Ledger {
    accounts: Table<String, u128>,
    total_supply: u128,
}

impl View for Ledger {
    type V = LedgerView;

    closed spec fn view(&self) -> LedgerView {
        LedgerView { balances: self.accounts@, total_supply: self.total_supply }
    }
}

impl Ledger {
    /// The representation is valid.
    pub closed spec fn wf(&self) -> bool {
        self.accounts.wf()
    }

    /// The ledger is valid and conserves supply.
    pub open spec fn inv(&self) -> bool {
        &&& self.wf()
        &&& self@.conserved()
    }

    /// A ledger with no entry and no supply.
    pub fn new() -> (ledger: Self)
        ensures
            ledger.inv(),
            ledger@ == LedgerView::empty(),
    {
        Ledger { accounts: Table::new(), total_supply: 0 }
    }

    /// The ledger that holds the given entries, if no principal occurs twice
    /// among them and the sum of their balances is a possible total supply.
    pub fn restore(accounts: Vec<(String, u128)>) -> (ledger: Option<Self>)
        ensures
            match ledger {
                Some(l) => {
                    &&& distinct_keys(accounts@)
                    &&& entries_total(accounts@) <= u128::MAX
                    &&& l.inv()
                    &&& l@.balances == entries_view(accounts@)
                    &&& l@.total_supply == entries_total(accounts@)
                },
                None => !distinct_keys(accounts@) || entries_total(accounts@) > u128::MAX,
            },
    {
        let mut total: u128 = 0;
        let mut i: usize = 0;
        while i < accounts.len()
            invariant
                i <= accounts@.len(),
                total == entries_total(accounts@.take(i as int)),
            decreases accounts@.len() - i,
        {
            proof {
                assert(accounts@.take(i + 1).drop_last() =~= accounts@.take(i as int));
                lemma_entries_total_grows(accounts@, i + 1);
            }
            total = match total.checked_add(accounts[i].1) {
                Some(t) => t,
                None => {
                    return None;
                },
            };
            i = i + 1;
        }
        proof {
            assert(accounts@.take(i as int) =~= accounts@);
        }
        let ghost entries = accounts@;
        match Table::from_entries(accounts) {
            Some(table) => {
                proof {
                    lemma_entries_total_is_total_balance(entries);
                    lemma_entries_view_finite(entries);
                }
                Some(Ledger { accounts: table, total_supply: total })
            },
            None => None,
        }
    }

    /// The entries of the ledger, each principal once with its balance, in
    /// no particular order.
    pub fn entries(&self) -> (entries: &Vec<(String, u128)>)
        requires
            self.wf(),
        ensures
            distinct_keys(entries@),
            entries_view(entries@) == self@.balances,
    {
        self.accounts.entries()
    }

    /// The total supply.
    pub fn total_supply(&self) -> (supply: u128)
        ensures
            supply == self@.total_supply,
    {
        self.total_supply
    }

    /// Whether the principal has a ledger entry.
    pub fn is_registered(&self, principal: &String) -> (registered: bool)
        requires
            self.wf(),
        ensures
            registered == self@.registered(principal@),
    {
        self.accounts.contains_key(principal)
    }

    /// The principal's balance; `0` for a principal without an entry.
    pub fn balance_of(&self, principal: &String) -> (balance: u128)
        requires
            self.wf(),
        ensures
            balance == self@.balance_of(principal@),
    {
        match self.accounts.get(principal) {
            Some(b) => *b,
            None => 0,
        }
    }

    /// Gives the principal an entry with balance `0` if it has none, and
    /// says whether it did so.
    pub fn register(&mut self, principal: &String) -> (created: bool)
        requires
            old(self).inv(),
        ensures
            final(self).inv(),
            final(self)@ == old(self)@.register(principal@),
            created == !old(self)@.registered(principal@),
    {
        proof {
            self@.lemma_register_conserves(principal@);
        }
        if self.accounts.contains_key(principal) {
            false
        } else {
            self.accounts.insert(principal.clone(), 0);
            true
        }
    }

    /// Credits `amount` to the principal and adds it to the total supply.
    /// A principal without an entry gets one.
    pub fn deposit(&mut self, principal: &String, amount: u128)
        requires
            old(self).inv(),
            old(self)@.total_supply + amount <= u128::MAX,
        ensures
            final(self).inv(),
            final(self)@ == old(self)@.deposit(principal@, amount),
    {
        proof {
            self@.lemma_balance_bounded(principal@);
            self@.lemma_deposit_conserves(principal@, amount);
        }
        let balance: u128 = self.balance_of(principal);
        self.accounts.insert(principal.clone(), balance + amount);
        self.total_supply = self.total_supply + amount;
    }

    /// Takes `amount` from the principal and from the total supply. An
    /// amount that exceeds the balance is rejected, and nothing changes.
    pub fn withdraw(
        &mut self,
        principal: &String,
        amount: u128,
    ) -> (result: Result<(), Error>)
        requires
            old(self).inv(),
        ensures
            final(self).inv(),
            amount > old(self)@.balance_of(principal@) ==> result == Err::<(), Error>(
                Error::InsufficientBalance,
            ) && final(self)@ == old(self)@,
            amount <= old(self)@.balance_of(principal@) ==> result == Ok::<(), Error>(())
                && final(self)@ == old(self)@.withdraw(principal@, amount),
    {
        proof {
            self@.lemma_balance_bounded(principal@);
        }
        let balance: u128 = self.balance_of(principal);
        if amount > balance {
            return Err(Error::InsufficientBalance);
        }
        proof {
            self@.lemma_withdraw_conserves(principal@, amount);
        }
        if self.accounts.contains_key(principal) {
            self.accounts.insert(principal.clone(), balance - amount);
            self.total_supply = self.total_supply - amount;
        }
        Ok(())
    }

    /// Moves `amount` from `from` to `to`, whose entry is created where it
    /// has none.
    fn move_balance(&mut self, from: &String, to: &String, amount: u128)
        requires
            old(self).inv(),
            amount <= old(self)@.balance_of(from@),
        ensures
            final(self).inv(),
            final(self)@ == old(self)@.transfer(from@, to@, amount),
    {
        proof {
            self@.lemma_transfer_conserves(from@, to@, amount);
            self@.lemma_withdraw_conserves(from@, amount);
        }
        let _ = self.withdraw(from, amount);
        self.deposit(to, amount);
    }

    /// The safe transfer: moves `amount` from `from` to `to`, which must
    /// already have an entry. A rejected transfer changes nothing.
    pub fn transfer(
        &mut self,
        from: &String,
        to: &String,
        amount: u128,
    ) -> (result: Result<(), Error>)
        requires
            old(self).inv(),
        ensures
            final(self).inv(),
            match old(self)@.transfer_error(from@, to@, amount, true) {
                Some(e) => result == Err::<(), Error>(e) && final(self)@ == old(self)@,
                None => result == Ok::<(), Error>(()) && final(self)@ == old(self)@.transfer(
                    from@,
                    to@,
                    amount,
                ),
            },
    {
        if amount > self.balance_of(from) {
            return Err(Error::InsufficientBalance);
        }
        if !self.is_registered(to) {
            return Err(Error::RecipientNotRegistered);
        }
        self.move_balance(from, to, amount);
        Ok(())
    }

    /// The unsafe transfer: moves `amount` from `from` to `to` without
    /// asking whether `to` has an entry; it gets one where it has none. A
    /// rejected transfer changes nothing.
    pub fn transfer_unsafe(
        &mut self,
        from: &String,
        to: &String,
        amount: u128,
    ) -> (result: Result<(), Error>)
        requires
            old(self).inv(),
        ensures
            final(self).inv(),
            match old(self)@.transfer_error(from@, to@, amount, false) {
                Some(e) => result == Err::<(), Error>(e) && final(self)@ == old(self)@,
                None => result == Ok::<(), Error>(()) && final(self)@ == old(self)@.transfer(
                    from@,
                    to@,
                    amount,
                ),
            },
    {
        if amount > self.balance_of(from) {
            return Err(Error::InsufficientBalance);
        }
        self.move_balance(from, to, amount);
        Ok(())
    }
}

} // verus!
