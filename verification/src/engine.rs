//! The rules by which each kind of record changes the account table.
//!
//! Every rule is stated twice: as spec functions over `Map`, which say what
//! a record does to the table and to the register of open disputes, and as
//! an executable handler over `HashMap` that is proved to do exactly that.
//!
//! A handler never fails. A record that the rules turn down changes no
//! balance and no dispute, and the handler's [`Outcome`] says why it was
//! turned down.
//!
//! Two choices are made here once and for all. A locked account takes no
//! further record of any kind: its funds do not move again. And balances
//! are expected to stay far below the largest `u64`: a deposit that would
//! take a total beyond it is turned down, so that no sum ever wraps.
//!
//! The handlers ask that the table they are given balances: that the total
//! of every account is the sum of its available and its held funds. They
//! hand it back balanced.

use crate::account::Account;
use crate::amount::Amount;
use crate::transaction::{Transaction, TxType};
use std::collections::HashMap;
use vstd::prelude::*;

verus! {

broadcast use vstd::std_specs::hash::group_hash_axioms;

/// What became of one record.
#[derive(Clone, Copy, Debug, PartialEq, Eq, Structural)]
pub enum Outcome {
    /// The record changed the ledger as its kind prescribes.
    Applied,
    /// A withdrawal asked for more than the available funds.
    InsufficientFunds,
    /// A deposit would take the account beyond the largest amount.
    BalanceOverflow,
    /// The client's account is locked, and takes no further records.
    AccountLocked,
    /// A dispute named a transaction that was never recorded.
    UnknownTransaction,
    /// A dispute was raised by a client who does not own the transaction.
    UnauthorizedDispute,
    /// A dispute named a transaction that is not a deposit.
    NonDisputableType,
    /// A dispute named a deposit whose dispute is still open.
    AlreadyDisputed,
    /// A resolve or chargeback named a transaction with no open dispute.
    NotDisputed,
}

/// Every account of the table balances.
pub open spec fn table_balanced(accounts: Map<u16, Account>) -> bool {
    forall|client: u16| #[trigger]
        accounts.contains_key(client) ==> accounts[client].is_balanced()
}

/// The account of `client`: the one in the table, or a newly opened one.
pub open spec fn account_of(accounts: Map<u16, Account>, client: u16) -> Account {
    if accounts.contains_key(client) {
        accounts[client]
    } else {
        Account::opened(client)
    }
}

/// What `record` adds to the sum of the open disputes of `client`.
pub open spec fn share(record: Transaction, client: u16) -> nat {
    if record.client == client {
        record.sum().0 as nat
    } else {
        0
    }
}

/// The sum of the open disputes of `client` whose id is below `bound`.
pub open spec fn disputed_below(disputes: Map<u32, Transaction>, client: u16, bound: nat) -> nat
    decreases bound,
{
    if bound == 0 {
        0
    } else {
        let id = (bound - 1) as u32;
        disputed_below(disputes, client, (bound - 1) as nat) + if disputes.contains_key(id) {
            share(disputes[id], client)
        } else {
            0
        }
    }
}

/// The sum of the amounts of all open disputes of `client`.
pub open spec fn disputed_total(disputes: Map<u32, Transaction>, client: u16) -> nat {
    disputed_below(disputes, client, 0x1_0000_0000)
}

/// How a deposit ends: turned down on a locked account, and where the
/// account's total would leave the range of an amount.
pub open spec fn deposit_outcome(accounts: Map<u16, Account>, record: Transaction) -> Outcome {
    let account = account_of(accounts, record.client);
    if account.locked {
        Outcome::AccountLocked
    } else if account.total.0 + record.sum().0 > u64::MAX {
        Outcome::BalanceOverflow
    } else {
        Outcome::Applied
    }
}

/// The table after a deposit: the sum is added to the available and to the
/// total funds of the client, whose account is opened if need be.
pub open spec fn deposit_accounts(accounts: Map<u16, Account>, record: Transaction) -> Map<
    u16,
    Account,
> {
    let account = account_of(accounts, record.client);
    if deposit_outcome(accounts, record) == Outcome::Applied {
        accounts.insert(
            record.client,
            Account {
                available: account.available.plus(record.sum()),
                total: account.total.plus(record.sum()),
                ..account
            },
        )
    } else {
        accounts
    }
}

/// How a withdrawal ends: turned down on a locked account, and where the
/// sum exceeds the available funds.
pub open spec fn withdrawal_outcome(accounts: Map<u16, Account>, record: Transaction) -> Outcome {
    let account = account_of(accounts, record.client);
    if account.locked {
        Outcome::AccountLocked
    } else if record.sum().0 > account.available.0 {
        Outcome::InsufficientFunds
    } else {
        Outcome::Applied
    }
}

/// The table after a withdrawal: the client's account is opened if need
/// be, and where the withdrawal applies the sum leaves the available and
/// the total funds.
pub open spec fn withdrawal_accounts(accounts: Map<u16, Account>, record: Transaction) -> Map<
    u16,
    Account,
> {
    let account = account_of(accounts, record.client);
    if withdrawal_outcome(accounts, record) == Outcome::Applied {
        accounts.insert(
            record.client,
            Account {
                available: account.available.minus(record.sum()),
                total: account.total.minus(record.sum()),
                ..account
            },
        )
    } else {
        accounts.insert(record.client, account)
    }
}

/// How a dispute ends. It applies where `history` holds a deposit of the
/// same client under the record's id, no dispute of that deposit is open,
/// and the account is not locked.
pub open spec fn dispute_outcome(
    accounts: Map<u16, Account>,
    history: Map<u32, Transaction>,
    disputes: Map<u32, Transaction>,
    record: Transaction,
) -> Outcome {
    if !history.contains_key(record.id) {
        Outcome::UnknownTransaction
    } else if history[record.id].client != record.client {
        Outcome::UnauthorizedDispute
    } else if history[record.id].tx_type != TxType::Deposit {
        Outcome::NonDisputableType
    } else if disputes.contains_key(record.id) {
        Outcome::AlreadyDisputed
    } else if account_of(accounts, record.client).locked {
        Outcome::AccountLocked
    } else {
        Outcome::Applied
    }
}

/// The table after a dispute: as much of the deposit as is still available
/// moves from the available to the held funds.
pub open spec fn dispute_accounts(
    accounts: Map<u16, Account>,
    history: Map<u32, Transaction>,
    disputes: Map<u32, Transaction>,
    record: Transaction,
) -> Map<u16, Account> {
    let account = account_of(accounts, record.client);
    if dispute_outcome(accounts, history, disputes, record) == Outcome::Applied {
        let disputed = history[record.id].sum();
        accounts.insert(
            record.client,
            Account {
                available: account.available.minus(disputed),
                held: account.held.plus(account.available.least(disputed)),
                ..account
            },
        )
    } else {
        accounts
    }
}

/// The open disputes after a dispute: the deposit is entered under its id.
pub open spec fn dispute_register(
    accounts: Map<u16, Account>,
    history: Map<u32, Transaction>,
    disputes: Map<u32, Transaction>,
    record: Transaction,
) -> Map<u32, Transaction> {
    if dispute_outcome(accounts, history, disputes, record) == Outcome::Applied {
        disputes.insert(record.id, history[record.id])
    } else {
        disputes
    }
}

/// How a resolve or a chargeback ends. It applies where a dispute is open
/// under the record's id and the account is not locked.
pub open spec fn settle_outcome(
    accounts: Map<u16, Account>,
    disputes: Map<u32, Transaction>,
    record: Transaction,
) -> Outcome {
    if !disputes.contains_key(record.id) {
        Outcome::NotDisputed
    } else if account_of(accounts, record.client).locked {
        Outcome::AccountLocked
    } else {
        Outcome::Applied
    }
}

/// The open disputes after a resolve or a chargeback: where it applies,
/// the dispute under the record's id is closed.
pub open spec fn settle_register(
    accounts: Map<u16, Account>,
    disputes: Map<u32, Transaction>,
    record: Transaction,
) -> Map<u32, Transaction> {
    if settle_outcome(accounts, disputes, record) == Outcome::Applied {
        disputes.remove(record.id)
    } else {
        disputes
    }
}

/// The funds held after a resolve: the sum of the client's disputes that
/// stay open, but no more than the account's total.
pub open spec fn held_after_resolve(
    account: Account,
    disputes: Map<u32, Transaction>,
    record: Transaction,
) -> Amount {
    let open = disputed_total(disputes.remove(record.id), record.client);
    if open <= account.total.0 {
        Amount(open as u64)
    } else {
        account.total
    }
}

/// The table after a resolve: the held funds are reckoned anew from the
/// disputes that stay open, and the rest of the total is available.
pub open spec fn resolve_accounts(
    accounts: Map<u16, Account>,
    disputes: Map<u32, Transaction>,
    record: Transaction,
) -> Map<u16, Account> {
    let account = account_of(accounts, record.client);
    if settle_outcome(accounts, disputes, record) == Outcome::Applied {
        let held = held_after_resolve(account, disputes, record);
        accounts.insert(
            record.client,
            Account { available: account.total.minus(held), held, ..account },
        )
    } else {
        accounts
    }
}

/// The table after a chargeback: the disputed sum leaves the held funds,
/// the total is reckoned anew, and the account is locked.
pub open spec fn chargeback_accounts(
    accounts: Map<u16, Account>,
    disputes: Map<u32, Transaction>,
    record: Transaction,
) -> Map<u16, Account> {
    let account = account_of(accounts, record.client);
    if settle_outcome(accounts, disputes, record) == Outcome::Applied {
        let held = account.held.minus(disputes[record.id].sum());
        accounts.insert(
            record.client,
            Account { held, total: held.plus(account.available), locked: true, ..account },
        )
    } else {
        accounts
    }
}

/// The account of `client`, newly opened where the table has none.
fn lookup(accounts: &HashMap<u16, Account>, client: u16) -> (account: Account)
    ensures
        account == account_of(accounts@, client),
{
    match accounts.get(&client) {
        Some(account) => *account,
        None => Account::new(client),
    }
}

/// Adds the record's sum to the available and the total funds of its
/// client, opening the account if need be.
///
/// Amounts are assumed to stay far below the largest `u64`; a deposit that
/// would take the total beyond it is turned down, as is one to a locked
/// account.
pub fn deposit(accounts: &mut HashMap<u16, Account>, transaction: &Transaction) -> (outcome:
    Outcome)
    requires
        table_balanced(old(accounts)@),
    ensures
        outcome == deposit_outcome(old(accounts)@, *transaction),
        final(accounts)@ == deposit_accounts(old(accounts)@, *transaction),
        table_balanced(final(accounts)@),
{
    let account = lookup(accounts, transaction.client);
    let amount = transaction.amount_or_zero();
    if account.locked {
        return Outcome::AccountLocked;
    }
    match account.total.checked_add(amount) {
        Some(total) => {
            let available = account.available + amount;
            accounts.insert(transaction.client, Account { available, total, ..account });
            Outcome::Applied
        },
        None => Outcome::BalanceOverflow,
    }
}

/// Takes the record's sum from the available and the total funds of its
/// client, opening the account if need be.
///
/// A withdrawal of more than is available changes no balance.
pub fn withdrawal(accounts: &mut HashMap<u16, Account>, transaction: &Transaction) -> (outcome:
    Outcome)
    requires
        table_balanced(old(accounts)@),
    ensures
        outcome == withdrawal_outcome(old(accounts)@, *transaction),
        final(accounts)@ == withdrawal_accounts(old(accounts)@, *transaction),
        table_balanced(final(accounts)@),
{
    let account = lookup(accounts, transaction.client);
    let amount = transaction.amount_or_zero();
    if account.locked {
        assert(accounts@ =~= accounts@.insert(transaction.client, account));
        return Outcome::AccountLocked;
    }
    match account.available.checked_sub(amount) {
        Some(available) => {
            let total = Amount(account.total.0 - amount.0);
            accounts.insert(transaction.client, Account { available, total, ..account });
            Outcome::Applied
        },
        None => {
            accounts.insert(transaction.client, account);
            Outcome::InsufficientFunds
        },
    }
}

/// Opens a dispute of the deposit that `history` holds under the record's
/// id, and moves what is still available of it to the held funds.
///
/// The dispute is turned down, and nothing changes, where `history` holds
/// no transaction under that id, where the transaction belongs to another
/// client or is no deposit, where its dispute is already open, and where
/// the account is locked.
pub fn dispute(
    accounts: &mut HashMap<u16, Account>,
    transaction: &Transaction,
    disputed_transactions: &mut HashMap<u32, Transaction>,
    history: &HashMap<u32, Transaction>,
) -> (outcome: Outcome)
    requires
        table_balanced(old(accounts)@),
    ensures
        outcome == dispute_outcome(
            old(accounts)@,
            history@,
            old(disputed_transactions)@,
            *transaction,
        ),
        final(accounts)@ == dispute_accounts(
            old(accounts)@,
            history@,
            old(disputed_transactions)@,
            *transaction,
        ),
        final(disputed_transactions)@ == dispute_register(
            old(accounts)@,
            history@,
            old(disputed_transactions)@,
            *transaction,
        ),
        table_balanced(final(accounts)@),
{
    let disputed = match history.get(&transaction.id) {
        Some(disputed) => *disputed,
        None => {
            return Outcome::UnknownTransaction;
        },
    };
    if disputed.client != transaction.client {
        return Outcome::UnauthorizedDispute;
    }
    match disputed.tx_type {
        TxType::Deposit => {},
        _ => {
            return Outcome::NonDisputableType;
        },
    }
    if disputed_transactions.contains_key(&transaction.id) {
        return Outcome::AlreadyDisputed;
    }
    let account = lookup(accounts, transaction.client);
    if account.locked {
        return Outcome::AccountLocked;
    }
    let amount = disputed.amount_or_zero();
    let moved = if account.available.0 <= amount.0 {
        account.available
    } else {
        amount
    };
    let held = account.held + moved;
    let available = account.available.saturating_sub(amount);
    accounts.insert(transaction.client, Account { available, held, ..account });
    disputed_transactions.insert(transaction.id, disputed);
    Outcome::Applied
}

/// Entering a dispute under an unused id adds its share to the sum below
/// every bound that lies above the id.
proof fn lemma_disputed_below_insert(
    disputes: Map<u32, Transaction>,
    id: u32,
    record: Transaction,
    client: u16,
    bound: nat,
)
    requires
        !disputes.contains_key(id),
        bound <= 0x1_0000_0000,
    ensures
        disputed_below(disputes.insert(id, record), client, bound) == disputed_below(
            disputes,
            client,
            bound,
        ) + if id < bound {
            share(record, client)
        } else {
            0
        },
    decreases bound,
{
    if bound > 0 {
        lemma_disputed_below_insert(disputes, id, record, client, (bound - 1) as nat);
    }
}

/// Entering a dispute under an unused id adds its share to the sum of the
/// open disputes.
pub proof fn lemma_disputed_total_insert(
    disputes: Map<u32, Transaction>,
    id: u32,
    record: Transaction,
    client: u16,
)
    requires
        !disputes.contains_key(id),
    ensures
        disputed_total(disputes.insert(id, record), client) == disputed_total(disputes, client)
            + share(record, client),
{
    lemma_disputed_below_insert(disputes, id, record, client, 0x1_0000_0000);
}

/// Without open disputes the sum below every bound is zero.
proof fn lemma_disputed_below_empty(client: u16, bound: nat)
    ensures
        disputed_below(Map::<u32, Transaction>::empty(), client, bound) == 0,
    decreases bound,
{
    if bound > 0 {
        lemma_disputed_below_empty(client, (bound - 1) as nat);
    }
}

/// Without open disputes the sum is zero.
pub proof fn lemma_disputed_total_empty(client: u16)
    ensures
        disputed_total(Map::<u32, Transaction>::empty(), client) == 0,
{
    lemma_disputed_below_empty(client, 0x1_0000_0000);
}

/// The sum of the open disputes of `client`, but no more than `cap`.
fn disputed_sum(disputes: &HashMap<u32, Transaction>, client: u16, cap: u64) -> (sum: u64)
    ensures
        disputed_total(disputes@, client) <= cap ==> sum == disputed_total(disputes@, client),
        disputed_total(disputes@, client) > cap ==> sum == cap,
{
    let mut sum: u64 = 0;
    let ghost mut seen: Map<u32, Transaction> = Map::empty();
    proof {
        lemma_disputed_total_empty(client);
    }
    for id in ids: disputes.keys()
        invariant
            ids.seq().unref().to_set() == disputes@.dom(),
            ids.seq().no_duplicates(),
            seen == disputes@.restrict(ids.seq().unref().take(ids.index()).to_set()),
            ids.index() == ids.seq().len() ==> seen == disputes@,
            disputed_total(seen, client) <= cap ==> sum == disputed_total(seen, client),
            disputed_total(seen, client) > cap ==> sum == cap,
    {
        proof {
            let listed = ids.seq().unref();
            assert(listed[ids.index()] == *id);
            assert(listed.to_set().contains(listed[ids.index()]));
        }
        let record = lookup_dispute(disputes, *id);
        let ghost before = seen;
        proof {
            seen = seen.insert(*id, record);
        }
        proof {
            let listed = ids.seq().unref();
            let at = ids.index();
            assert(!before.contains_key(*id)) by {
                if listed.take(at).to_set().contains(*id) {
                    let earlier = choose|j: int| 0 <= j < at && listed.take(at)[j] == *id;
                    assert(ids.seq()[earlier] == ids.seq()[at]);
                }
            }
            lemma_disputed_total_insert(before, *id, record, client);
            assert(listed.take(at + 1) =~= listed.take(at).push(*id));
            listed.take(at).lemma_push_to_set_commute(*id);
            assert(disputes@.restrict(listed.take(at + 1).to_set()) =~= seen);
            assert(listed.take(listed.len() as int) =~= listed);
            assert(disputes@.restrict(disputes@.dom()) =~= disputes@);
        }
        if record.client == client {
            let amount = record.amount_or_zero();
            if amount.0 >= cap - sum {
                sum = cap;
            } else {
                sum = sum + amount.0;
            }
        }
    }
    sum
}

/// The open dispute under `id`.
fn lookup_dispute(disputes: &HashMap<u32, Transaction>, id: u32) -> (record: Transaction)
    requires
        disputes@.contains_key(id),
    ensures
        record == disputes@[id],
{
    match disputes.get(&id) {
        Some(record) => *record,
        None => Transaction { tx_type: TxType::Dispute, client: 0, id, amount: None },
    }
}

/// Closes the dispute that is open under the record's id in favour of the
/// client: the held funds are reckoned anew as the sum of the client's
/// disputes that stay open, capped at the total, and what is left of the
/// total is available.
///
/// With no dispute open under that id, or on a locked account, nothing
/// changes.
pub fn resolve(
    accounts: &mut HashMap<u16, Account>,
    transaction: &Transaction,
    disputed_transactions: &mut HashMap<u32, Transaction>,
) -> (outcome: Outcome)
    requires
        table_balanced(old(accounts)@),
    ensures
        outcome == settle_outcome(old(accounts)@, old(disputed_transactions)@, *transaction),
        final(accounts)@ == resolve_accounts(
            old(accounts)@,
            old(disputed_transactions)@,
            *transaction,
        ),
        final(disputed_transactions)@ == settle_register(
            old(accounts)@,
            old(disputed_transactions)@,
            *transaction,
        ),
        table_balanced(final(accounts)@),
        outcome != Outcome::Applied ==> final(accounts)@ == old(accounts)@,
        outcome != Outcome::Applied ==> final(disputed_transactions)@ == old(
            disputed_transactions,
        )@,
{
    if !disputed_transactions.contains_key(&transaction.id) {
        return Outcome::NotDisputed;
    }
    let account = lookup(accounts, transaction.client);
    if account.locked {
        return Outcome::AccountLocked;
    }
    disputed_transactions.remove(&transaction.id);
    let held = Amount(disputed_sum(disputed_transactions, transaction.client, account.total.0));
    let available = account.total.saturating_sub(held);
    accounts.insert(transaction.client, Account { available, held, ..account });
    Outcome::Applied
}

/// Closes the dispute that is open under the record's id against the
/// client: the disputed sum leaves the held funds, the total becomes what
/// is held and available, and the account is locked for good.
///
/// With no dispute open under that id, or on a locked account, nothing
/// changes.
pub fn chargeback(
    accounts: &mut HashMap<u16, Account>,
    transaction: &Transaction,
    disputed_transactions: &mut HashMap<u32, Transaction>,
) -> (outcome: Outcome)
    requires
        table_balanced(old(accounts)@),
    ensures
        outcome == settle_outcome(old(accounts)@, old(disputed_transactions)@, *transaction),
        final(accounts)@ == chargeback_accounts(
            old(accounts)@,
            old(disputed_transactions)@,
            *transaction,
        ),
        final(disputed_transactions)@ == settle_register(
            old(accounts)@,
            old(disputed_transactions)@,
            *transaction,
        ),
        table_balanced(final(accounts)@),
        outcome != Outcome::Applied ==> final(accounts)@ == old(accounts)@,
        outcome != Outcome::Applied ==> final(disputed_transactions)@ == old(
            disputed_transactions,
        )@,
{
    let disputed = match disputed_transactions.get(&transaction.id) {
        Some(disputed) => *disputed,
        None => {
            return Outcome::NotDisputed;
        },
    };
    let account = lookup(accounts, transaction.client);
    if account.locked {
        return Outcome::AccountLocked;
    }
    disputed_transactions.remove(&transaction.id);
    let held = account.held.saturating_sub(disputed.amount_or_zero());
    let total = held + account.available;
    accounts.insert(transaction.client, Account { held, total, locked: true, ..account });
    Outcome::Applied
}

} // verus!
