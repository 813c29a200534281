//! The ledger: balances keyed by account, where an absent account holds 0.

use vstd::prelude::*;

use crate::entries::{
    keys_unique, lemma_map_of_at, lemma_map_of_contains, lemma_map_of_push, lemma_map_of_update,
    map_of,
};

pub use crate::entries::{AccountId, Balance};

verus! {

/// Why an operation was refused. A refused operation changes no balance.
#[derive(Debug, Clone, Copy, PartialEq, Eq, Structural)]
pub enum LedgerError {
    /// A transfer asked for more than the sender holds.
    InsufficientFunds,
    /// A balance would exceed the largest representable amount.
    ArithmeticOverflow,
}

/// A ledger of balances, one per account: an entry for each account that
/// was ever written, and 0 for every other.
pub struct ContractTransfer {
    entries: Vec<(AccountId, Balance)>,
}

/// The balance that `m` gives `a`: what is stored, or 0 where nothing is.
pub open spec fn balance_in(m: Map<AccountId, Balance>, a: AccountId) -> Balance {
    if m.contains_key(a) {
        m[a]
    } else {
        0
    }
}

/// What a deposit of `amount` by `caller` returns on the entries `m`.
pub open spec fn credit_result(
    m: Map<AccountId, Balance>,
    caller: AccountId,
    amount: Balance,
) -> Result<(), LedgerError> {
    if balance_in(m, caller) + amount > u128::MAX {
        Err(LedgerError::ArithmeticOverflow)
    } else {
        Ok(())
    }
}

/// The entries after a deposit of `amount` by `caller` succeeded.
pub open spec fn credited(
    m: Map<AccountId, Balance>,
    caller: AccountId,
    amount: Balance,
) -> Map<AccountId, Balance> {
    m.insert(caller, (balance_in(m, caller) + amount) as Balance)
}

/// What a transfer of `value` from `from` to `to` returns on the entries `m`.
/// The recipient's balance can only overflow when it is another account.
pub open spec fn transfer_result(
    m: Map<AccountId, Balance>,
    from: AccountId,
    to: AccountId,
    value: Balance,
) -> Result<(), LedgerError> {
    if value > balance_in(m, from) {
        Err(LedgerError::InsufficientFunds)
    } else if from != to && balance_in(m, to) + value > u128::MAX {
        Err(LedgerError::ArithmeticOverflow)
    } else {
        Ok(())
    }
}

/// The entries after a transfer succeeded: the sender's debit is written
/// first, and the credit is applied to what the recipient holds after it,
/// so that a transfer to oneself writes back the balance it started from.
pub open spec fn transferred(
    m: Map<AccountId, Balance>,
    from: AccountId,
    to: AccountId,
    value: Balance,
) -> Map<AccountId, Balance> {
    let debited = m.insert(from, (balance_in(m, from) - value) as Balance);
    debited.insert(to, (balance_in(debited, to) + value) as Balance)
}

/// What a deposit of `amount` onto a balance of `current` gives.
pub open spec fn credit_outcome(current: Balance, amount: Balance) -> Result<Balance, LedgerError> {
    if current + amount > u128::MAX {
        Err(LedgerError::ArithmeticOverflow)
    } else {
        Ok((current + amount) as Balance)
    }
}

/// What a transfer of `value` from `from`, holding `from_balance`, to `to`,
/// holding `to_balance`, gives: the balance to write for the sender, then
/// the one to write for the recipient. The recipient's is what it holds
/// once the sender's is written, plus `value`: for a transfer to oneself
/// both writes land on one entry, and the second restores the balance.
pub open spec fn transfer_outcome(
    from: AccountId,
    from_balance: Balance,
    to: AccountId,
    to_balance: Balance,
    value: Balance,
) -> Result<(Balance, Balance), LedgerError> {
    if value > from_balance {
        Err(LedgerError::InsufficientFunds)
    } else if from == to {
        Ok(((from_balance - value) as Balance, from_balance))
    } else if to_balance + value > u128::MAX {
        Err(LedgerError::ArithmeticOverflow)
    } else {
        Ok(((from_balance - value) as Balance, (to_balance + value) as Balance))
    }
}

/// The deposit step on plain values: the new balance, or the overflow that
/// refuses it.
pub fn credit(current: Balance, amount: Balance) -> (r: Result<Balance, LedgerError>)
    ensures
        r == credit_outcome(current, amount),
{
    if current > u128::MAX - amount {
        Err(LedgerError::ArithmeticOverflow)
    } else {
        Ok(current + amount)
    }
}

/// The transfer step on plain values: given both accounts and the balances
/// they hold, the balances to write for the sender and then the recipient,
/// or the error that refuses the transfer. For a transfer to oneself,
/// `to_balance` is the sender's own balance.
pub fn transfer_step(
    from: AccountId,
    from_balance: Balance,
    to: AccountId,
    to_balance: Balance,
    value: Balance,
) -> (r: Result<(Balance, Balance), LedgerError>)
    ensures
        r == transfer_outcome(from, from_balance, to, to_balance, value),
{
    if value > from_balance {
        Err(LedgerError::InsufficientFunds)
    } else if same_account(&from, &to) {
        Ok((from_balance - value, from_balance))
    } else if to_balance > u128::MAX - value {
        Err(LedgerError::ArithmeticOverflow)
    } else {
        Ok((from_balance - value, to_balance + value))
    }
}

/// Whether two accounts are the same, byte by byte.
fn same_account(a: &AccountId, b: &AccountId) -> (r: bool)
    ensures
        r == (*a == *b),
{
    let mut i: usize = 0;
    while i < 32
        invariant
            0 <= i <= 32,
            forall|j: int| 0 <= j < i ==> a[j] == b[j],
        decreases 32 - i,
    {
        if a[i] != b[i] {
            return false;
        }
        i = i + 1;
    }
    proof {
        broadcast use vstd::array::group_array_axioms;
        assert(*a =~= *b);
    }
    true
}

impl ContractTransfer {
    /// No account has two entries.
    pub closed spec fn wf(&self) -> bool {
        keys_unique(self.entries@)
    }

    /// The stored entries of the ledger.
    pub closed spec fn entries(&self) -> Map<AccountId, Balance> {
        map_of(self.entries@)
    }

    /// The balance of `a`, 0 for an account never written.
    pub open spec fn balance(&self, a: AccountId) -> Balance {
        balance_in(self.entries(), a)
    }

    /// A ledger whose one entry gives `caller` the balance `init_balance`:
    /// every other account holds 0.
    pub fn new(caller: AccountId, init_balance: Balance) -> (l: Self)
        ensures
            l.wf(),
            l.entries() =~= Map::empty().insert(caller, init_balance),
            l.balance(caller) == init_balance,
            forall|a: AccountId| a != caller ==> l.balance(a) == 0,
    {
        let mut l = ContractTransfer::default();
        l.write(&caller, init_balance);
        l
    }

    /// A ledger with no entries: every account holds 0.
    pub fn default() -> (l: Self)
        ensures
            l.wf(),
            l.entries() =~= Map::empty(),
            forall|a: AccountId| l.balance(a) == 0,
    {
        let l = ContractTransfer { entries: Vec::new() };
        assert(l.entries() =~= Map::<AccountId, Balance>::empty());
        l
    }

    /// Where the entry of `a` stands in the list, if it has one.
    fn find(&self, a: &AccountId) -> (r: Option<usize>)
        ensures
            match r {
                Some(i) => i < self.entries@.len() && self.entries@[i as int].0 == *a,
                None => forall|i: int| 0 <= i < self.entries@.len() ==> self.entries@[i].0 != *a,
            },
    {
        let mut i: usize = 0;
        while i < self.entries.len()
            invariant
                i <= self.entries@.len(),
                forall|j: int| 0 <= j < i ==> self.entries@[j].0 != *a,
            decreases self.entries@.len() - i,
        {
            if same_account(&self.entries[i].0, a) {
                return Some(i);
            }
            i = i + 1;
        }
        None
    }

    /// Stores `value` as the balance of `a`, in place of what was there.
    fn write(&mut self, a: &AccountId, value: Balance)
        requires
            old(self).wf(),
        ensures
            final(self).wf(),
            final(self).entries() == old(self).entries().insert(*a, value),
    {
        match self.find(a) {
            Some(i) => {
                proof {
                    lemma_map_of_update(self.entries@, i as int, value);
                }
                self.entries.set(i, (*a, value));
            },
            None => {
                proof {
                    lemma_map_of_contains(self.entries@, *a);
                    lemma_map_of_push(self.entries@, *a, value);
                }
                self.entries.push((*a, value));
            },
        }
    }

    /// Deposits `balance` into the account of `caller`. Fails, changing
    /// nothing, where the new balance would not fit.
    pub fn add_balance(&mut self, caller: AccountId, balance: Balance) -> (r: Result<(), LedgerError>)
        requires
            old(self).wf(),
        ensures
            final(self).wf(),
            r == credit_result(old(self).entries(), caller, balance),
            r is Ok ==> final(self).entries() == credited(old(self).entries(), caller, balance),
            r is Err ==> final(self).entries() == old(self).entries(),
            r is Ok <==> old(self).balance(caller) + balance <= u128::MAX,
            r is Ok ==> final(self).balance(caller) == old(self).balance(caller) + balance,
            forall|a: AccountId| a != caller ==> final(self).balance(a) == old(self).balance(a),
            forall|a: AccountId|
                a != caller ==> final(self).entries().contains_key(a) == old(
                    self,
                ).entries().contains_key(a),
    {
        let current = self.get(caller);
        match credit(current, balance) {
            Ok(total) => {
                self.write(&caller, total);
                Ok(())
            },
            Err(e) => Err(e),
        }
    }

    /// Moves `value` from the account of `caller` to the account `to`, as
    /// one step: either both balances are written or neither is.
    pub fn transfer_balance(
        &mut self,
        caller: AccountId,
        value: Balance,
        to: AccountId,
    ) -> (r: Result<(), LedgerError>)
        requires
            old(self).wf(),
        ensures
            final(self).wf(),
            r == transfer_result(old(self).entries(), caller, to, value),
            r is Ok ==> final(self).entries() == transferred(old(self).entries(), caller, to, value),
            r is Err ==> final(self).entries() == old(self).entries(),
            value > old(self).balance(caller) ==> r == Err::<(), LedgerError>(
                LedgerError::InsufficientFunds,
            ),
            r is Ok ==> final(self).balance(caller) + final(self).balance(to)
                == old(self).balance(caller) + old(self).balance(to),
            r is Ok && caller != to ==> final(self).balance(caller) == old(self).balance(caller)
                - value,
            r is Ok && caller != to ==> final(self).balance(to) == old(self).balance(to) + value,
            caller == to && value <= old(self).balance(caller) ==> r is Ok,
            caller == to ==> final(self).balance(caller) == old(self).balance(caller),
            forall|a: AccountId|
                a != caller && a != to ==> final(self).balance(a) == old(self).balance(a),
            forall|a: AccountId|
                a != caller && a != to ==> final(self).entries().contains_key(a) == old(
                    self,
                ).entries().contains_key(a),
    {
        let from_balance = self.get(caller);
        let to_balance = self.get(to);
        match transfer_step(caller, from_balance, to, to_balance, value) {
            Ok((from_after, to_after)) => {
                self.write(&caller, from_after);
                self.write(&to, to_after);
                Ok(())
            },
            Err(e) => Err(e),
        }
    }

    /// The balance of `caller`, 0 where nothing was ever stored for it.
    pub fn get(&self, caller: AccountId) -> (r: Balance)
        requires
            self.wf(),
        ensures
            r == self.balance(caller),
    {
        match self.find(&caller) {
            Some(i) => {
                proof {
                    lemma_map_of_at(self.entries@, i as int);
                }
                self.entries[i].1
            },
            None => {
                proof {
                    lemma_map_of_contains(self.entries@, caller);
                }
                0
            },
        }
    }
}

/// An account that the ledger holds no entry for, because nothing was
/// ever written for it, holds 0. An operation writes entries only for the
/// accounts that it names.
pub proof fn lemma_unwritten_account_holds_zero(l: &ContractTransfer, a: AccountId)
    requires
        !l.entries().contains_key(a),
    ensures
        l.balance(a) == 0,
{
}

} // verus!
