//! The ledger: client accounts and the history of deposits, and how each
//! transaction row changes them.
use vstd::prelude::*;

use rustc_hash::FxHashMap;
use vstd::std_specs::hash::obeys_key_model;

use crate::account::{Account, Outcome};
use crate::amount::Amount;
use crate::error::{result_model, ErrorModel, TransactionError};
use crate::transaction::{TransactionRecord, TransactionRow, TransactionState, TransactionType};

verus! {

broadcast use vstd::std_specs::hash::group_hash_axioms;

/// `rustc_hash::FxBuildHasher`, the hasher builder of `FxHashMap`.
#[verifier::external_type_specification]
#[verifier::external_body]
pub struct ExFxBuildHasher(rustc_hash::FxBuildHasher);

/// `HashMap::get` on an `FxHashMap`, copying the value out: the value the
/// map holds for the key, if any. (Stated for key types whose `Hash` and `Eq`
/// agree with equality, as vstd's `obeys_key_model` says; `FxBuildHasher`
/// builds deterministic hashers.)
#[verifier::external_body]
fn fx_get<K: std::hash::Hash + Eq, V: Copy>(m: &FxHashMap<K, V>, k: &K) -> (r: Option<V>)
    requires
        obeys_key_model::<K>(),
    ensures
        r == (if m@.contains_key(*k) {
            Some(m@[*k])
        } else {
            None
        }),
{
    m.get(k).copied()
}

/// `HashMap::insert` on an `FxHashMap`: the map afterwards holds `v` for `k`
/// and is otherwise unchanged.
#[verifier::external_body]
fn fx_insert<K: std::hash::Hash + Eq, V>(m: &mut FxHashMap<K, V>, k: K, v: V)
    requires
        obeys_key_model::<K>(),
    ensures
        final(m)@ == old(m)@.insert(k, v),
{
    m.insert(k, v);
}

/// `HashMap::values` on an `FxHashMap`, copied into a vector: each value the
/// map holds, once per key, in the order in which the map is walked (which
/// is not stated).
#[verifier::external_body]
fn fx_entries<K: std::hash::Hash + Eq + Copy, V: Copy>(m: &FxHashMap<K, V>) -> (r: Vec<(K, V)>)
    requires
        obeys_key_model::<K>(),
    ensures
        r@.len() == m@.dom().len(),
        forall|i: int| 0 <= i < r@.len() ==> #[trigger] m@.contains_key(r@[i].0) && m@[r@[i].0] == r@[i].1,
        forall|i: int, j: int| 0 <= i < j < r@.len() ==> r@[i].0 != r@[j].0,
{
    m.iter().map(|(k, v)| (*k, *v)).collect()
}

/// What a ledger holds: the account of each client that has appeared, and
/// the record of each deposit.
pub struct LedgerModel {
    pub accounts: Map<u16, Account>,
    pub history: Map<u32, TransactionRecord>,
}

/// What a row does to a ledger: the ledger afterwards, and the result.
pub type Step = (LedgerModel, Result<(), ErrorModel>);

impl LedgerModel {
    /// The account of a client, or the empty account of one that has not appeared.
    pub open spec fn account_of(self, client: u16) -> Account {
        if self.accounts.contains_key(client) {
            self.accounts[client]
        } else {
            Account::initial(client)
        }
    }

    /// The ledger with the outcome of an account operation on `client` stored.
    pub open spec fn with_account(self, client: u16, a: Account) -> LedgerModel {
        LedgerModel { accounts: self.accounts.insert(client, a), history: self.history }
    }

    /// Every account is stored under its own client, and every recorded
    /// deposit belongs to a client that has an account.
    pub open spec fn well_formed(self) -> bool {
        &&& forall|c: u16| #[trigger]
            self.accounts.contains_key(c) ==> self.accounts[c].client == c
        &&& forall|t: u32| #[trigger]
            self.history.contains_key(t) ==> self.accounts.contains_key(self.history[t].client)
    }

    /// A deposit needs an amount; it is applied to the client's account
    /// (which is created in any case), and recorded as a normal transaction
    /// when the account took it.
    pub open spec fn deposit_step(self, row: TransactionRow) -> Step {
        match row.amount {
            None => (self, Err(ErrorModel::MissingAmount(row.tx))),
            Some(amount) => {
                let (a, r) = self.account_of(row.client).deposit_outcome(amount, row.tx);
                let next = self.with_account(row.client, a);
                match r {
                    Ok(()) => (
                        LedgerModel {
                            history: next.history.insert(
                                row.tx,
                                TransactionRecord {
                                    client: row.client,
                                    amount,
                                    state: TransactionState::Normal,
                                },
                            ),
                            ..next
                        },
                        Ok(()),
                    ),
                    Err(e) => (next, Err(e)),
                }
            },
        }
    }

    /// A withdrawal needs an amount; it is applied to the client's account
    /// (which is created in any case) and not recorded.
    pub open spec fn withdrawal_step(self, row: TransactionRow) -> Step {
        match row.amount {
            None => (self, Err(ErrorModel::MissingAmount(row.tx))),
            Some(amount) => {
                let (a, r) = self.account_of(row.client).withdraw_outcome(amount, row.tx);
                (self.with_account(row.client, a), r)
            },
        }
    }

    /// The checks that a dispute, resolve or chargeback makes of the referenced
    /// transaction: it is recorded, belongs to the row's client, and is in
    /// the state `expected`; `None` when all hold.
    pub open spec fn reference_error(
        self,
        row: TransactionRow,
        expected: TransactionState,
    ) -> Option<ErrorModel> {
        if !self.history.contains_key(row.tx) {
            Some(ErrorModel::TransactionNotFound(row.tx))
        } else if self.history[row.tx].client != row.client {
            Some(
                ErrorModel::ClientMismatch {
                    tx: row.tx,
                    expected: self.history[row.tx].client,
                    got: row.client,
                },
            )
        } else if self.history[row.tx].state != expected {
            if expected == TransactionState::Normal {
                Some(ErrorModel::TransactionAlreadyDisputed(row.tx))
            } else {
                Some(ErrorModel::TransactionNotDisputed(row.tx))
            }
        } else {
            None
        }
    }

    /// After the checks pass: when the account operation `outcome` succeeds,
    /// the referenced transaction moves to `next_state` and the new account is
    /// stored for the client; when it is refused, the ledger stays as it was.
    pub open spec fn referenced_step(
        self,
        row: TransactionRow,
        next_state: TransactionState,
        outcome: Outcome,
    ) -> Step {
        let rec = self.history[row.tx];
        match outcome.1 {
            Ok(()) => (
                LedgerModel {
                    accounts: self.accounts.insert(row.client, outcome.0),
                    history: self.history.insert(
                        row.tx,
                        TransactionRecord { state: next_state, ..rec },
                    ),
                },
                Ok(()),
            ),
            Err(e) => (self, Err(e)),
        }
    }

    /// A dispute of a normal transaction holds its amount and, if the hold
    /// succeeds, marks it disputed.
    pub open spec fn dispute_step(self, row: TransactionRow) -> Step {
        match self.reference_error(row, TransactionState::Normal) {
            Some(e) => (self, Err(e)),
            None => {
                let amount = self.history[row.tx].amount;
                self.referenced_step(
                    row,
                    TransactionState::Disputed,
                    self.account_of(row.client).hold_outcome(amount, row.tx),
                )
            },
        }
    }

    /// A resolve of a disputed transaction releases its amount and, if the
    /// release succeeds, marks it normal again.
    pub open spec fn resolve_step(self, row: TransactionRow) -> Step {
        match self.reference_error(row, TransactionState::Disputed) {
            Some(e) => (self, Err(e)),
            None => {
                let amount = self.history[row.tx].amount;
                self.referenced_step(
                    row,
                    TransactionState::Normal,
                    self.account_of(row.client).release_outcome(amount, row.tx),
                )
            },
        }
    }

    /// A chargeback of a disputed transaction removes its amount from the held
    /// funds and locks the account and, if that succeeds, marks it charged back.
    pub open spec fn chargeback_step(self, row: TransactionRow) -> Step {
        match self.reference_error(row, TransactionState::Disputed) {
            Some(e) => (self, Err(e)),
            None => {
                let amount = self.history[row.tx].amount;
                self.referenced_step(
                    row,
                    TransactionState::ChargedBack,
                    self.account_of(row.client).chargeback_outcome(amount, row.tx),
                )
            },
        }
    }

    /// What a row does to the ledger.
    pub open spec fn step(self, row: TransactionRow) -> Step {
        match row.tx_type {
            TransactionType::Deposit => self.deposit_step(row),
            TransactionType::Withdrawal => self.withdrawal_step(row),
            TransactionType::Dispute => self.dispute_step(row),
            TransactionType::Resolve => self.resolve_step(row),
            TransactionType::Chargeback => self.chargeback_step(row),
        }
    }
}

/// Law: the empty ledger is well formed, and every row keeps a ledger well
/// formed.
pub proof fn lemma_step_keeps_well_formed(l: LedgerModel, row: TransactionRow)
    requires
        l.well_formed(),
    ensures
        l.step(row).0.well_formed(),
        (LedgerModel {
            accounts: Map::<u16, Account>::empty(),
            history: Map::<u32, TransactionRecord>::empty(),
        }).well_formed(),
{
    let n = l.step(row).0;
    assert forall|c: u16| #[trigger] n.accounts.contains_key(c) implies n.accounts[c].client
        == c by {
        if l.accounts.contains_key(c) {
            assert(l.accounts[c].client == c);
        }
    }
    assert forall|t: u32| #[trigger] n.history.contains_key(t) implies n.accounts.contains_key(
        n.history[t].client,
    ) by {
        if l.history.contains_key(t) {
            assert(l.accounts.contains_key(l.history[t].client));
        }
    }
}

/// Law: a locked account stays locked, whatever row comes.
pub proof fn lemma_lock_is_permanent(l: LedgerModel, row: TransactionRow, c: u16)
    requires
        l.accounts.contains_key(c),
        l.accounts[c].locked,
    ensures
        l.step(row).0.accounts.contains_key(c),
        l.step(row).0.accounts[c].locked,
{
}

/// Law: a row changes no account but that of its own client, and creates
/// no other.
pub proof fn lemma_other_clients_untouched(l: LedgerModel, row: TransactionRow, c: u16)
    requires
        c != row.client,
    ensures
        l.step(row).0.accounts.contains_key(c) == l.accounts.contains_key(c),
        l.step(row).0.account_of(c) == l.account_of(c),
{
}

/// Law: a charged-back transaction stays charged back; only a new deposit
/// under the same id can replace its record.
pub proof fn lemma_chargeback_is_final(l: LedgerModel, row: TransactionRow, t: u32)
    requires
        l.history.contains_key(t),
        l.history[t].state == TransactionState::ChargedBack,
        !(row.tx_type == TransactionType::Deposit && row.tx == t),
    ensures
        l.step(row).0.history.contains_key(t),
        l.step(row).0.history[t] == l.history[t],
{
}

/// Law: a refused row changes no balance and no record (at most the empty
/// account of its client comes into being, for a refused deposit or
/// withdrawal).
pub proof fn lemma_refused_row_keeps_balances(l: LedgerModel, row: TransactionRow)
    requires
        l.step(row).1 is Err,
    ensures
        l.step(row).0.history == l.history,
        forall|c: u16| #[trigger] l.step(row).0.account_of(c) == l.account_of(c),
{
    l.account_of(row.client).lemma_refusal_changes_nothing(row.amount->0, row.tx);
}

/// Law: a refused dispute, resolve or chargeback leaves the ledger exactly as
/// it was.
pub proof fn lemma_refused_reference_keeps_ledger(l: LedgerModel, row: TransactionRow)
    requires
        row.tx_type == TransactionType::Dispute || row.tx_type == TransactionType::Resolve
            || row.tx_type == TransactionType::Chargeback,
        l.step(row).1 is Err,
    ensures
        l.step(row).0 == l,
{
}

/// Law: a withdrawal never touches the records of deposits.
pub proof fn lemma_withdrawal_keeps_history(l: LedgerModel, row: TransactionRow)
    requires
        row.tx_type == TransactionType::Withdrawal,
    ensures
        l.step(row).0.history == l.history,
{
}

/// Whether no account has negative available funds and no recorded deposit
/// is of a negative amount.
pub open spec fn non_negative(l: LedgerModel) -> bool {
    &&& forall|c: u16| #[trigger] l.accounts.contains_key(c) ==> l.accounts[c].available.0 >= 0
    &&& forall|t: u32| #[trigger] l.history.contains_key(t) ==> l.history[t].amount.0 >= 0
}

/// Law: with amounts that are not negative, every row keeps every account
/// (no client disappears), keeps every lock, and never makes available
/// funds negative.
pub proof fn lemma_step_keeps_available_non_negative(l: LedgerModel, row: TransactionRow)
    requires
        non_negative(l),
        row.amount matches Some(a) ==> a.0 >= 0,
    ensures
        non_negative(l.step(row).0),
        forall|c: u16| #[trigger]
            l.accounts.contains_key(c) ==> l.step(row).0.accounts.contains_key(c) && (
            l.accounts[c].locked ==> l.step(row).0.accounts[c].locked),
{
    let n = l.step(row).0;
    assert forall|c: u16| #[trigger] n.accounts.contains_key(c) implies n.accounts[c].available.0
        >= 0 by {
        if l.accounts.contains_key(c) {
            assert(l.accounts[c].available.0 >= 0);
        }
        if l.history.contains_key(row.tx) {
            assert(l.history[row.tx].amount.0 >= 0);
        }
    }
}

/// Law: a deposit of amount `a` under id `t` that succeeds records exactly
/// `(client, a, Normal)` under `t` and raises the client's available funds
/// by `a`, leaving the held funds as they were; on an unlocked account whose
/// new balance fits, it succeeds.
pub proof fn lemma_deposit_records_its_amount(l: LedgerModel, row: TransactionRow)
    requires
        row.tx_type == TransactionType::Deposit,
        row.amount is Some,
    ensures
        !l.account_of(row.client).locked && i64::MIN <= l.account_of(row.client).available.0
            + (row.amount->0).0 <= i64::MAX ==> l.step(row).1 is Ok,
        l.step(row).1 is Ok ==> {
            let n = l.step(row).0;
            &&& n.history.contains_key(row.tx)
            &&& n.history[row.tx].client == row.client
            &&& n.history[row.tx].amount == row.amount->0
            &&& n.history[row.tx].state == TransactionState::Normal
            &&& n.account_of(row.client).available.0 == l.account_of(row.client).available.0
                + (row.amount->0).0
            &&& n.account_of(row.client).held == l.account_of(row.client).held
        },
{
}

/// Law: a dispute that succeeds moves exactly the recorded amount of the
/// disputed deposit from the client's available funds to its held funds,
/// and marks the deposit disputed, keeping its client and amount.
pub proof fn lemma_dispute_holds_recorded_amount(l: LedgerModel, row: TransactionRow)
    requires
        row.tx_type == TransactionType::Dispute,
        l.step(row).1 is Ok,
    ensures
        l.history.contains_key(row.tx),
        l.history[row.tx].client == row.client,
        l.step(row).0.account_of(row.client).available.0 == l.account_of(row.client).available.0
            - l.history[row.tx].amount.0,
        l.step(row).0.account_of(row.client).held.0 == l.account_of(row.client).held.0
            + l.history[row.tx].amount.0,
        l.history[row.tx].state == TransactionState::Normal,
        l.step(row).0.history[row.tx].state == TransactionState::Disputed,
        l.step(row).0.history[row.tx].amount == l.history[row.tx].amount,
        l.step(row).0.history[row.tx].client == row.client,
{
}

/// Law: a resolve that succeeds was of a disputed deposit of the same
/// client; it moves exactly the recorded amount from held back to
/// available, and marks the deposit normal again.
pub proof fn lemma_resolve_releases_recorded_amount(l: LedgerModel, row: TransactionRow)
    requires
        row.tx_type == TransactionType::Resolve,
        l.step(row).1 is Ok,
    ensures
        l.history.contains_key(row.tx),
        l.history[row.tx].client == row.client,
        l.history[row.tx].state == TransactionState::Disputed,
        l.step(row).0.account_of(row.client).available.0 == l.account_of(row.client).available.0
            + l.history[row.tx].amount.0,
        l.step(row).0.account_of(row.client).held.0 == l.account_of(row.client).held.0
            - l.history[row.tx].amount.0,
        l.step(row).0.history[row.tx].state == TransactionState::Normal,
        l.step(row).0.history[row.tx].amount == l.history[row.tx].amount,
{
}

/// Law: disputing a deposit right after it succeeded holds exactly the
/// deposited amount.
pub proof fn lemma_dispute_after_deposit(l: LedgerModel, deposit: TransactionRow, dispute: TransactionRow)
    requires
        deposit.tx_type == TransactionType::Deposit,
        deposit.amount is Some,
        dispute.tx_type == TransactionType::Dispute,
        dispute.client == deposit.client,
        dispute.tx == deposit.tx,
        l.step(deposit).1 is Ok,
        l.step(deposit).0.step(dispute).1 is Ok,
    ensures
        l.step(deposit).0.step(dispute).0.account_of(deposit.client).held.0 == l.account_of(
            deposit.client,
        ).held.0 + (deposit.amount->0).0,
        l.step(deposit).0.step(dispute).0.account_of(deposit.client).available.0 == l.account_of(
            deposit.client,
        ).available.0,
{
    lemma_deposit_records_its_amount(l, deposit);
    lemma_dispute_holds_recorded_amount(l.step(deposit).0, dispute);
}

/// Law: a chargeback that succeeds leaves the client's available funds as
/// they were, lowers its held funds by exactly the recorded amount of the
/// charged-back deposit, and locks the account.
pub proof fn lemma_chargeback_removes_recorded_amount(l: LedgerModel, row: TransactionRow)
    requires
        row.tx_type == TransactionType::Chargeback,
        l.step(row).1 is Ok,
    ensures
        l.history.contains_key(row.tx),
        l.history[row.tx].client == row.client,
        l.history[row.tx].state == TransactionState::Disputed,
        l.step(row).0.account_of(row.client).available == l.account_of(row.client).available,
        l.step(row).0.account_of(row.client).held.0 == l.account_of(row.client).held.0
            - l.history[row.tx].amount.0,
        l.step(row).0.account_of(row.client).locked,
        l.step(row).0.history[row.tx].state == TransactionState::ChargedBack,
{
}

/// Law: a withdrawal from an unlocked account of an amount between zero and
/// the available funds succeeds, whatever the held funds, and lowers the
/// available funds by exactly that amount.
pub proof fn lemma_withdrawal_within_available(l: LedgerModel, row: TransactionRow)
    requires
        row.tx_type == TransactionType::Withdrawal,
        row.amount is Some,
        !l.account_of(row.client).locked,
        0 <= (row.amount->0).0 <= l.account_of(row.client).available.0,
    ensures
        l.step(row).1 is Ok,
        l.step(row).0.account_of(row.client).available.0 == l.account_of(row.client).available.0
            - (row.amount->0).0,
        l.step(row).0.account_of(row.client).held == l.account_of(row.client).held,
{
}

/// Law: a dispute or resolve that succeeds keeps the client's total (available
/// plus held) and lock.
pub proof fn lemma_dispute_resolve_keep_total(l: LedgerModel, row: TransactionRow)
    requires
        row.tx_type == TransactionType::Dispute || row.tx_type == TransactionType::Resolve,
        l.step(row).1 is Ok,
    ensures
        l.step(row).0.account_of(row.client).total_value() == l.account_of(row.client).total_value(),
        l.step(row).0.account_of(row.client).locked == l.account_of(row.client).locked,
{
    let a = l.account_of(row.client);
    let amount = l.history[row.tx].amount;
    if row.tx_type == TransactionType::Dispute {
        a.lemma_hold_keeps_total(amount, row.tx);
    } else {
        a.lemma_release_keeps_total(amount, row.tx);
    }
}

/// Law: in a well-formed ledger, resolving a transaction that a dispute has
/// just put on hold gives back the ledger as it was before the dispute.
pub proof fn lemma_resolve_undoes_dispute(l: LedgerModel, dispute: TransactionRow, resolve: TransactionRow)
    requires
        l.well_formed(),
        dispute.tx_type == TransactionType::Dispute,
        resolve.tx_type == TransactionType::Resolve,
        resolve.client == dispute.client,
        resolve.tx == dispute.tx,
        l.step(dispute).1 is Ok,
    ensures
        l.step(dispute).0.step(resolve) == (l, Ok::<(), ErrorModel>(())),
{
    let a = l.account_of(dispute.client);
    let amount = l.history[dispute.tx].amount;
    a.lemma_release_undoes_hold(amount, dispute.tx, resolve.tx);
    let m = l.step(dispute).0;
    let n = m.step(resolve).0;
    assert(l.accounts.contains_key(dispute.client));
    assert(n.accounts =~= l.accounts);
    assert(n.history =~= l.history);
}

/// A transaction processing ledger that manages client accounts and transaction history.
///
/// The Ledger handles all transaction types including deposits, withdrawals, disputes,
/// resolutions, and chargebacks. It maintains account balances and tracks the state
/// of each transaction throughout its lifecycle.
pub struct Ledger {
    accounts: FxHashMap<u16, Account>,
    tx_history: FxHashMap<u32, TransactionRecord>,
}

impl View for Ledger {
    type V = LedgerModel;

    closed spec fn view(&self) -> LedgerModel {
        LedgerModel { accounts: self.accounts@, history: self.tx_history@ }
    }
}

impl Ledger {
    /// Creates a new empty ledger with no accounts or transaction history.
    pub fn new() -> (l: Self)
        ensures
            l@.accounts == Map::<u16, Account>::empty(),
            l@.history == Map::<u32, TransactionRecord>::empty(),
            l@.well_formed(),
    {
        Self { accounts: FxHashMap::default(), tx_history: FxHashMap::default() }
    }

    /// The account of a client, if the client has appeared.
    pub fn account(&self, client: u16) -> (r: Option<Account>)
        ensures
            r == (if self@.accounts.contains_key(client) {
                Some(self@.accounts[client])
            } else {
                None
            }),
    {
        fx_get(&self.accounts, &client)
    }

    /// The record of a deposit, if one was recorded under this transaction id.
    pub fn transaction(&self, tx: u32) -> (r: Option<TransactionRecord>)
        ensures
            r == (if self@.history.contains_key(tx) {
                Some(self@.history[tx])
            } else {
                None
            }),
    {
        fx_get(&self.tx_history, &tx)
    }

    /// Every account, once per client, in no stated order.
    pub fn accounts(&self) -> (r: Vec<Account>)
        ensures
            r@.len() == self@.accounts.dom().len(),
            forall|i: int|
                0 <= i < r@.len() ==> #[trigger] self@.accounts.values().contains(r@[i]),
            self@.well_formed() ==> forall|i: int|
                0 <= i < r@.len() ==> #[trigger] self@.accounts.contains_key(r@[i].client)
                    && self@.accounts[r@[i].client] == r@[i],
            self@.well_formed() ==> forall|i: int, j: int|
                0 <= i < j < r@.len() ==> r@[i].client != r@[j].client,
    {
        let entries = fx_entries(&self.accounts);
        let mut r: Vec<Account> = Vec::new();
        let mut i: usize = 0;
        while i < entries.len()
            invariant
                0 <= i <= entries@.len(),
                r@.len() == i,
                forall|j: int| 0 <= j < i ==> #[trigger] r@[j] == entries@[j].1,
            decreases entries@.len() - i,
        {
            r.push(entries[i].1);
            i += 1;
        }
        assert forall|i: int| 0 <= i < r@.len() implies #[trigger] self@.accounts.values().contains(
            r@[i],
        ) by {
            assert(r@[i] == entries@[i].1);
            assert(self.accounts@.contains_key(entries@[i].0));
        }
        proof {
            if self@.well_formed() {
            assert forall|i: int| 0 <= i < r@.len() implies #[trigger] self@.accounts.contains_key(
                r@[i].client,
            ) && self@.accounts[r@[i].client] == r@[i] by {
                assert(r@[i] == entries@[i].1);
                assert(self.accounts@.contains_key(entries@[i].0));
            }
            assert forall|i: int, j: int| 0 <= i < j < r@.len() implies r@[i].client
                != r@[j].client by {
                assert(r@[i] == entries@[i].1);
                assert(r@[j] == entries@[j].1);
                assert(self.accounts@.contains_key(entries@[i].0));
                assert(self.accounts@.contains_key(entries@[j].0));
                assert(entries@[i].0 != entries@[j].0);
                assert(self@.accounts[entries@[i].0].client == entries@[i].0);
                assert(self@.accounts[entries@[j].0].client == entries@[j].0);
            }
            }
        }
        r
    }

    /// The account of a client as it stands, or a new one.
    fn account_or_new(&self, client: u16) -> (a: Account)
        ensures
            a == self@.account_of(client),
    {
        match fx_get(&self.accounts, &client) {
            Some(a) => a,
            None => Account::new(client),
        }
    }

    /// Processes a transaction and updates the ledger state.
    pub fn apply(&mut self, row: TransactionRow) -> (r: Result<(), TransactionError>)
        ensures
            (final(self)@, result_model(r)) == old(self)@.step(row),
            old(self)@.well_formed() ==> final(self)@.well_formed(),
    {
        proof {
            if self@.well_formed() {
                lemma_step_keeps_well_formed(self@, row);
            }
        }
        match row.tx_type {
            TransactionType::Deposit => self.handle_deposit(row),
            TransactionType::Withdrawal => self.handle_withdrawal(row),
            TransactionType::Dispute => self.handle_dispute(row),
            TransactionType::Resolve => self.handle_resolve(row),
            TransactionType::Chargeback => self.handle_chargeback(row),
        }
    }

    /// Processes a deposit transaction, adding funds to client account.
    fn handle_deposit(&mut self, row: TransactionRow) -> (r: Result<(), TransactionError>)
        ensures
            (final(self)@, result_model(r)) == old(self)@.deposit_step(row),
    {
        let amount = match row.amount {
            Some(a) => a,
            None => return Err(TransactionError::MissingAmount(row.tx)),
        };
        let mut account = self.account_or_new(row.client);
        let result = account.deposit(amount, row.tx);
        fx_insert(&mut self.accounts, row.client, account);
        match result {
            Ok(()) => {
                fx_insert(&mut self.tx_history, row.tx, TransactionRecord::new(row.client, amount));
                Ok(())
            },
            Err(e) => Err(e),
        }
    }

    /// Processes a withdrawal transaction, removing funds from client account.
    /// Withdrawals are not included in tx_history as this engine does not support disputing withdrawal.
    fn handle_withdrawal(&mut self, row: TransactionRow) -> (r: Result<(), TransactionError>)
        ensures
            (final(self)@, result_model(r)) == old(self)@.withdrawal_step(row),
    {
        let amount = match row.amount {
            Some(a) => a,
            None => return Err(TransactionError::MissingAmount(row.tx)),
        };
        let mut account = self.account_or_new(row.client);
        let result = account.withdraw(amount, row.tx);
        fx_insert(&mut self.accounts, row.client, account);
        result
    }

    /// Looks up the transaction a dispute, resolve or chargeback refers to,
    /// and checks its client and that it is in the state `expected`.
    fn referenced_record(&self, row: &TransactionRow, expected: TransactionState) -> (r: Result<
        TransactionRecord,
        TransactionError,
    >)
        ensures
            match r {
                Ok(rec) => self@.reference_error(*row, expected) is None && rec == self@.history[row.tx],
                Err(e) => self@.reference_error(*row, expected) == Some(e@),
            },
    {
        let tx_record = match fx_get(&self.tx_history, &row.tx) {
            Some(rec) => rec,
            None => return Err(TransactionError::TransactionNotFound(row.tx)),
        };
        if tx_record.client != row.client {
            return Err(
                TransactionError::ClientMismatch {
                    tx: row.tx,
                    expected: tx_record.client,
                    got: row.client,
                },
            );
        }
        if tx_record.state != expected {
            if expected == TransactionState::Normal {
                return Err(TransactionError::TransactionAlreadyDisputed(row.tx));
            } else {
                return Err(TransactionError::TransactionNotDisputed(row.tx));
            }
        }
        Ok(tx_record)
    }

    /// Handles a dispute, moving disputed funds to held status; a refused
    /// dispute leaves the ledger unchanged.
    fn handle_dispute(&mut self, row: TransactionRow) -> (r: Result<(), TransactionError>)
        ensures
            (final(self)@, result_model(r)) == old(self)@.dispute_step(row),
    {
        let tx_record = match self.referenced_record(&row, TransactionState::Normal) {
            Ok(rec) => rec,
            Err(e) => return Err(e),
        };
        let amount = tx_record.amount;
        let mut account = self.account_or_new(row.client);
        match account.hold(amount, row.tx) {
            Ok(()) => {
                fx_insert(
                    &mut self.tx_history,
                    row.tx,
                    TransactionRecord { state: TransactionState::Disputed, ..tx_record },
                );
                fx_insert(&mut self.accounts, row.client, account);
                Ok(())
            },
            Err(e) => Err(e),
        }
    }

    /// Resolves a disputed transaction, releasing held funds back to available;
    /// a refused resolve leaves the ledger unchanged.
    fn handle_resolve(&mut self, row: TransactionRow) -> (r: Result<(), TransactionError>)
        ensures
            (final(self)@, result_model(r)) == old(self)@.resolve_step(row),
    {
        let tx_record = match self.referenced_record(&row, TransactionState::Disputed) {
            Ok(rec) => rec,
            Err(e) => return Err(e),
        };
        let amount = tx_record.amount;
        let mut account = self.account_or_new(row.client);
        match account.release(amount, row.tx) {
            Ok(()) => {
                fx_insert(
                    &mut self.tx_history,
                    row.tx,
                    TransactionRecord { state: TransactionState::Normal, ..tx_record },
                );
                fx_insert(&mut self.accounts, row.client, account);
                Ok(())
            },
            Err(e) => Err(e),
        }
    }

    /// Processes a chargeback, removing funds and locking the client account;
    /// a refused chargeback leaves the ledger unchanged.
    fn handle_chargeback(&mut self, row: TransactionRow) -> (r: Result<(), TransactionError>)
        ensures
            (final(self)@, result_model(r)) == old(self)@.chargeback_step(row),
    {
        let tx_record = match self.referenced_record(&row, TransactionState::Disputed) {
            Ok(rec) => rec,
            Err(e) => return Err(e),
        };
        let amount = tx_record.amount;
        let mut account = self.account_or_new(row.client);
        match account.chargeback(amount, row.tx) {
            Ok(()) => {
                fx_insert(
                    &mut self.tx_history,
                    row.tx,
                    TransactionRecord { state: TransactionState::ChargedBack, ..tx_record },
                );
                fx_insert(&mut self.accounts, row.client, account);
                Ok(())
            },
            Err(e) => Err(e),
        }
    }
}

impl Clone for Ledger {
    /// A copy of the ledger.
    fn clone(&self) -> (r: Self)
        ensures
            r@ == self@,
    {
        Ledger { accounts: self.accounts.clone(), tx_history: self.tx_history.clone() }
    }
}

impl Default for Ledger {
    /// An empty ledger.
    fn default() -> (l: Self)
        ensures
            l@.accounts == Map::<u16, Account>::empty(),
            l@.history == Map::<u32, TransactionRecord>::empty(),
            l@.well_formed(),
    {
        Self::new()
    }
}

} // verus!
