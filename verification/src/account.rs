//! Client accounts: available and held funds and the lock.
use vstd::prelude::*;

use crate::amount::{fits_i64, Amount};
use crate::error::{result_model, ErrorModel, TransactionError};

verus! {

/// Represents a client account with available funds, held funds, and lock status.
///
/// Tracks the financial state of a single client including available balance,
/// funds held in disputes, and whether the account is locked due to chargebacks.
#[derive(Debug, Clone, Copy)]
pub struct Account {
    pub client: u16,
    pub available: Amount,
    pub held: Amount,
    pub locked: bool,
}

/// What an account operation leaves behind: the account, and the result.
pub type Outcome = (Account, Result<(), ErrorModel>);

impl Account {
    /// The account of a client that has not transacted yet.
    pub open spec fn initial(client: u16) -> Account {
        Account { client, available: Amount(0), held: Amount(0), locked: false }
    }

    /// Available plus held funds, as a mathematical integer.
    pub open spec fn total_value(self) -> int {
        self.available.0 + self.held.0
    }

    /// Deposit: refused on a locked account; adds to the available funds unless
    /// the sum overflows.
    pub open spec fn deposit_outcome(self, amount: Amount, tx: u32) -> Outcome {
        if self.locked {
            (self, Err(ErrorModel::AccountLocked(self.client)))
        } else if !fits_i64(self.available.0 + amount.0) {
            (self, Err(ErrorModel::NumericOverflow(tx)))
        } else {
            (
                Account { available: Amount((self.available.0 + amount.0) as i64), ..self },
                Ok(()),
            )
        }
    }

    /// Withdrawal: refused on a locked account or when less is available than
    /// asked; otherwise subtracts from the available funds unless that overflows.
    pub open spec fn withdraw_outcome(self, amount: Amount, tx: u32) -> Outcome {
        if self.locked {
            (self, Err(ErrorModel::AccountLocked(self.client)))
        } else if self.available.0 < amount.0 {
            (self, Err(ErrorModel::InsufficientAmount { client: self.client, tx }))
        } else if !fits_i64(self.available.0 - amount.0) {
            (self, Err(ErrorModel::NumericOverflow(tx)))
        } else {
            (
                Account { available: Amount((self.available.0 - amount.0) as i64), ..self },
                Ok(()),
            )
        }
    }

    /// Hold: refused when less is available than asked, or when moving the
    /// amount would overflow either balance, and then the account is left as
    /// it was; otherwise the amount moves from available to held. The lock is
    /// not consulted.
    pub open spec fn hold_outcome(self, amount: Amount, tx: u32) -> Outcome {
        if self.available.0 < amount.0 {
            (self, Err(ErrorModel::InsufficientAmount { client: self.client, tx }))
        } else if !fits_i64(self.available.0 - amount.0) || !fits_i64(self.held.0 + amount.0) {
            (self, Err(ErrorModel::NumericOverflow(tx)))
        } else {
            (
                Account {
                    available: Amount((self.available.0 - amount.0) as i64),
                    held: Amount((self.held.0 + amount.0) as i64),
                    ..self
                },
                Ok(()),
            )
        }
    }

    /// Release: refused when moving the amount would overflow either balance,
    /// and then the account is left as it was; otherwise the amount moves from
    /// held back to available. The lock is not consulted.
    pub open spec fn release_outcome(self, amount: Amount, tx: u32) -> Outcome {
        if !fits_i64(self.held.0 - amount.0) || !fits_i64(self.available.0 + amount.0) {
            (self, Err(ErrorModel::NumericOverflow(tx)))
        } else {
            (
                Account {
                    available: Amount((self.available.0 + amount.0) as i64),
                    held: Amount((self.held.0 - amount.0) as i64),
                    ..self
                },
                Ok(()),
            )
        }
    }

    /// Chargeback: removes the amount from the held funds and locks the
    /// account, unless the subtraction overflows.
    pub open spec fn chargeback_outcome(self, amount: Amount, tx: u32) -> Outcome {
        if !fits_i64(self.held.0 - amount.0) {
            (self, Err(ErrorModel::NumericOverflow(tx)))
        } else {
            (Account { held: Amount((self.held.0 - amount.0) as i64), locked: true, ..self }, Ok(()))
        }
    }

    /// Law: a hold that succeeds keeps the total (available plus held).
    pub proof fn lemma_hold_keeps_total(self, amount: Amount, tx: u32)
        requires
            self.hold_outcome(amount, tx).1 is Ok,
        ensures
            self.hold_outcome(amount, tx).0.total_value() == self.total_value(),
            self.hold_outcome(amount, tx).0.locked == self.locked,
            self.hold_outcome(amount, tx).0.client == self.client,
    {
    }

    /// Law: a release that succeeds keeps the total (available plus held).
    pub proof fn lemma_release_keeps_total(self, amount: Amount, tx: u32)
        requires
            self.release_outcome(amount, tx).1 is Ok,
        ensures
            self.release_outcome(amount, tx).0.total_value() == self.total_value(),
            self.release_outcome(amount, tx).0.locked == self.locked,
            self.release_outcome(amount, tx).0.client == self.client,
    {
    }

    /// Law: releasing what a successful hold held gives back the account as
    /// it was before the hold.
    pub proof fn lemma_release_undoes_hold(self, amount: Amount, tx: u32, tx2: u32)
        requires
            self.hold_outcome(amount, tx).1 is Ok,
        ensures
            self.hold_outcome(amount, tx).0.release_outcome(amount, tx2) == (self, Ok::<
                (),
                ErrorModel,
            >(())),
    {
        let held = self.hold_outcome(amount, tx).0;
        assert(held.release_outcome(amount, tx2).0 == self);
    }

    /// Law: a deposit that succeeds raises the available funds and the total
    /// by the amount, and a withdrawal that succeeds lowers them by it, never
    /// below zero; neither touches
    /// the held funds.
    pub proof fn lemma_deposit_withdraw_totals(self, amount: Amount, tx: u32)
        ensures
            self.deposit_outcome(amount, tx).1 is Ok ==> {
                &&& self.deposit_outcome(amount, tx).0.available.0 == self.available.0 + amount.0
                &&& self.deposit_outcome(amount, tx).0.held == self.held
            },
            self.withdraw_outcome(amount, tx).1 is Ok ==> {
                &&& self.withdraw_outcome(amount, tx).0.available.0 == self.available.0 - amount.0
                &&& self.withdraw_outcome(amount, tx).0.available.0 >= 0
                &&& self.withdraw_outcome(amount, tx).0.held == self.held
            },
    {
    }

    /// Law: an account operation that is refused leaves the account as it was.
    pub proof fn lemma_refusal_changes_nothing(self, amount: Amount, tx: u32)
        ensures
            self.deposit_outcome(amount, tx).1 is Err ==> self.deposit_outcome(amount, tx).0 == self,
            self.withdraw_outcome(amount, tx).1 is Err ==> self.withdraw_outcome(amount, tx).0
                == self,
            self.hold_outcome(amount, tx).1 is Err ==> self.hold_outcome(amount, tx).0 == self,
            self.release_outcome(amount, tx).1 is Err ==> self.release_outcome(amount, tx).0 == self,
            self.chargeback_outcome(amount, tx).1 is Err ==> self.chargeback_outcome(amount, tx).0
                == self,
    {
    }

    /// Law: on an unlocked account, a withdrawal of an amount between zero and
    /// the available funds succeeds whatever the held funds are; it lowers the
    /// available funds and the total by exactly the amount and leaves the
    /// held funds, the lock and the client as they were. A withdrawal is
    /// refused only on a locked account, when less is available than asked,
    /// or on overflow.
    pub proof fn lemma_withdraw_effect(self, amount: Amount, tx: u32)
        ensures
            !self.locked && 0 <= amount.0 <= self.available.0 ==> self.withdraw_outcome(
                amount,
                tx,
            ).1 is Ok,
            self.withdraw_outcome(amount, tx).1 is Ok ==> {
                let a = self.withdraw_outcome(amount, tx).0;
                &&& a.available.0 == self.available.0 - amount.0
                &&& a.held == self.held
                &&& a.total_value() == self.total_value() - amount.0
                &&& a.locked == self.locked
                &&& a.client == self.client
            },
            self.withdraw_outcome(amount, tx).1 is Err ==> self.locked || self.available.0
                < amount.0 || self.available.0 - amount.0 > i64::MAX,
    {
    }

    /// Law: on an unlocked account, a deposit succeeds exactly when the new
    /// available funds fit; it raises the available funds and the total by
    /// exactly the amount and leaves the held funds, the lock and the client
    /// as they were.
    pub proof fn lemma_deposit_effect(self, amount: Amount, tx: u32)
        ensures
            !self.locked && i64::MIN <= self.available.0 + amount.0 <= i64::MAX ==> self.deposit_outcome(
                amount,
                tx,
            ).1 is Ok,
            self.deposit_outcome(amount, tx).1 is Ok ==> {
                let a = self.deposit_outcome(amount, tx).0;
                &&& a.available.0 == self.available.0 + amount.0
                &&& a.held == self.held
                &&& a.total_value() == self.total_value() + amount.0
                &&& !a.locked
                &&& a.client == self.client
            },
    {
    }

    /// Law: a hold of an amount between zero and the available funds succeeds
    /// unless the held funds would overflow; a hold that succeeds lowers the
    /// available funds and raises the held funds by exactly the amount.
    pub proof fn lemma_hold_effect(self, amount: Amount, tx: u32)
        ensures
            0 <= amount.0 <= self.available.0 && self.held.0 + amount.0 <= i64::MAX
                ==> self.hold_outcome(amount, tx).1 is Ok,
            self.hold_outcome(amount, tx).1 is Ok ==> {
                let a = self.hold_outcome(amount, tx).0;
                &&& a.available.0 == self.available.0 - amount.0
                &&& a.held.0 == self.held.0 + amount.0
                &&& a.locked == self.locked
                &&& a.client == self.client
            },
    {
    }

    /// Law: a release that succeeds raises the available funds and lowers the
    /// held funds by exactly the amount.
    pub proof fn lemma_release_effect(self, amount: Amount, tx: u32)
        ensures
            0 <= amount.0 <= self.held.0 && self.available.0 + amount.0 <= i64::MAX
                ==> self.release_outcome(amount, tx).1 is Ok,
            self.release_outcome(amount, tx).1 is Ok ==> {
                let a = self.release_outcome(amount, tx).0;
                &&& a.available.0 == self.available.0 + amount.0
                &&& a.held.0 == self.held.0 - amount.0
                &&& a.locked == self.locked
                &&& a.client == self.client
            },
    {
    }

    /// Law: a chargeback that succeeds leaves the available funds as they
    /// were, lowers the held funds and the total by exactly the amount, keeps
    /// the client and locks the account; one of an amount between zero and
    /// the held funds always succeeds.
    pub proof fn lemma_chargeback_effect(self, amount: Amount, tx: u32)
        ensures
            0 <= amount.0 <= self.held.0 ==> self.chargeback_outcome(amount, tx).1 is Ok,
            self.chargeback_outcome(amount, tx).1 is Ok ==> {
                let a = self.chargeback_outcome(amount, tx).0;
                &&& a.available == self.available
                &&& a.held.0 == self.held.0 - amount.0
                &&& a.total_value() == self.total_value() - amount.0
                &&& a.locked
                &&& a.client == self.client
            },
    {
    }

    /// Law: a locked account takes no deposit and no withdrawal, and stays as it is.
    pub proof fn lemma_locked_refuses(self, amount: Amount, tx: u32)
        requires
            self.locked,
        ensures
            self.deposit_outcome(amount, tx) == (self, Err::<(), ErrorModel>(
                ErrorModel::AccountLocked(self.client),
            )),
            self.withdraw_outcome(amount, tx) == (self, Err::<(), ErrorModel>(
                ErrorModel::AccountLocked(self.client),
            )),
    {
    }

    /// Creates the empty, unlocked account of a client.
    pub fn new(client: u16) -> (a: Self)
        ensures
            a == Account::initial(client),
    {
        Self { client, available: Amount::zero(), held: Amount::zero(), locked: false }
    }

    /// Returns the total funds (available + held) in the account; zero when the
    /// sum does not fit in an amount.
    pub fn total(&self) -> (r: Amount)
        ensures
            r.0 == (if fits_i64(self.total_value()) {
                self.total_value()
            } else {
                0
            }),
    {
        match self.available.checked_add(self.held) {
            Some(t) => t,
            None => Amount::zero(),
        }
    }

    /// Adds funds to the available balance if account is not locked.
    pub fn deposit(&mut self, amount: Amount, tx: u32) -> (r: Result<(), TransactionError>)
        ensures
            (*final(self), result_model(r)) == old(self).deposit_outcome(amount, tx),
    {
        if self.locked {
            return Err(TransactionError::AccountLocked(self.client));
        }
        match self.available.checked_add(amount) {
            Some(v) => {
                self.available = v;
                Ok(())
            },
            None => Err(TransactionError::NumericOverflow(tx)),
        }
    }

    /// Removes funds from available balance if sufficient funds and account not locked.
    pub fn withdraw(&mut self, amount: Amount, tx: u32) -> (r: Result<(), TransactionError>)
        ensures
            (*final(self), result_model(r)) == old(self).withdraw_outcome(amount, tx),
    {
        if self.locked {
            return Err(TransactionError::AccountLocked(self.client));
        }
        if self.available.0 < amount.0 {
            return Err(TransactionError::InsufficientAmount { client: self.client, tx });
        }
        match self.available.checked_sub(amount) {
            Some(v) => {
                self.available = v;
                Ok(())
            },
            None => Err(TransactionError::NumericOverflow(tx)),
        }
    }

    /// Moves funds from available to held status for disputed transactions.
    /// Does not count held money as available, and refuses to hold more than is
    /// available; a refused hold leaves the account unchanged.
    pub fn hold(&mut self, amount: Amount, tx: u32) -> (r: Result<(), TransactionError>)
        ensures
            (*final(self), result_model(r)) == old(self).hold_outcome(amount, tx),
    {
        if self.available.0 < amount.0 {
            return Err(TransactionError::InsufficientAmount { client: self.client, tx });
        }
        let available = match self.available.checked_sub(amount) {
            Some(v) => v,
            None => return Err(TransactionError::NumericOverflow(tx)),
        };
        let held = match self.held.checked_add(amount) {
            Some(v) => v,
            None => return Err(TransactionError::NumericOverflow(tx)),
        };
        self.available = available;
        self.held = held;
        Ok(())
    }

    /// Moves funds from held back to available when dispute is resolved; a
    /// refused release leaves the account unchanged.
    pub fn release(&mut self, amount: Amount, tx: u32) -> (r: Result<(), TransactionError>)
        ensures
            (*final(self), result_model(r)) == old(self).release_outcome(amount, tx),
    {
        let held = match self.held.checked_sub(amount) {
            Some(v) => v,
            None => return Err(TransactionError::NumericOverflow(tx)),
        };
        let available = match self.available.checked_add(amount) {
            Some(v) => v,
            None => return Err(TransactionError::NumericOverflow(tx)),
        };
        self.held = held;
        self.available = available;
        Ok(())
    }

    /// Removes held funds and locks the account due to chargeback.
    pub fn chargeback(&mut self, amount: Amount, tx: u32) -> (r: Result<(), TransactionError>)
        ensures
            (*final(self), result_model(r)) == old(self).chargeback_outcome(amount, tx),
    {
        match self.held.checked_sub(amount) {
            Some(v) => self.held = v,
            None => return Err(TransactionError::NumericOverflow(tx)),
        }
        self.locked = true;
        Ok(())
    }
}

/// Serializable version of Account for CSV output with calculated total.
#[derive(Debug, Clone, Copy)]
pub struct SerializedAccount {
    pub client: u16,
    pub available: Amount,
    pub held: Amount,
    pub total: Amount,
    pub locked: bool,
}

/// The output row of an account: its fields, and its total (zero when the
/// sum does not fit in an amount).
pub open spec fn serialized(a: Account) -> SerializedAccount {
    SerializedAccount {
        client: a.client,
        available: a.available,
        held: a.held,
        total: Amount(
            if fits_i64(a.total_value()) {
                a.total_value() as i64
            } else {
                0
            },
        ),
        locked: a.locked,
    }
}

impl<'a> From<&'a Account> for SerializedAccount {
    fn from(a: &'a Account) -> (r: Self) {
        SerializedAccount {
            client: a.client,
            available: a.available,
            held: a.held,
            total: a.total(),
            locked: a.locked,
        }
    }
}

impl<'a> vstd::std_specs::convert::FromSpecImpl<&'a Account> for SerializedAccount {
    open spec fn obeys_from_spec() -> bool {
        true
    }

    open spec fn from_spec(a: &'a Account) -> SerializedAccount {
        serialized(*a)
    }
}

} // verus!
