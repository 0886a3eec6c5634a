//! What holds of every ledger, whatever records it has taken.

use crate::amount::Amount;
use crate::engine::{disputed_total, table_balanced, Outcome};
use crate::ledger::{run, step, step_outcome, LedgerState};
use crate::transaction::{Transaction, TxType};
use vstd::prelude::*;

verus! {

/// The account of `client` exists and is locked.
pub open spec fn is_locked(state: LedgerState, client: u16) -> bool {
    state.accounts.contains_key(client) && state.accounts[client].locked
}

/// The record at `at` is a chargeback for `client`, and it was applied:
/// the ledger that had taken the records before it held an open dispute
/// under its id, and the account was not locked yet.
pub open spec fn is_applied_chargeback(records: Seq<Transaction>, at: int, client: u16) -> bool {
    &&& 0 <= at < records.len()
    &&& records[at].tx_type == TxType::Chargeback
    &&& records[at].client == client
    &&& step_outcome(run(records.take(at)), records[at]) == Outcome::Applied
}

/// A record of any kind, applied or turned down, takes a ledger whose
/// accounts all balance to one whose accounts all balance.
pub proof fn lemma_step_keeps_balance(state: LedgerState, record: Transaction)
    requires
        table_balanced(state.accounts),
    ensures
        table_balanced(step(state, record).accounts),
{
}

/// After any sequence of records, the total of every account is the sum of
/// its available and its held funds, neither of which is negative.
pub proof fn lemma_run_is_balanced(records: Seq<Transaction>)
    ensures
        table_balanced(run(records).accounts),
        forall|client: u16| #[trigger]
            run(records).accounts.contains_key(client) ==> {
                let account = run(records).accounts[client];
                &&& account.total.0 == account.available.0 + account.held.0
                &&& account.available.0 >= 0
                &&& account.held.0 >= 0
            },
    decreases records.len(),
{
    if records.len() > 0 {
        lemma_run_is_balanced(records.drop_last());
        lemma_step_keeps_balance(run(records.drop_last()), records.last());
    }
}

/// The accounts balance at every point of a replay: after the first
/// `upto` records, for every `upto`.
pub proof fn lemma_balance_at_every_point(records: Seq<Transaction>, upto: int)
    requires
        0 <= upto <= records.len(),
    ensures
        table_balanced(run(records.take(upto)).accounts),
{
    lemma_run_is_balanced(records.take(upto));
}

/// No record unlocks an account, and none moves the funds of a locked
/// account: whatever the record and whoever its client, it leaves a locked
/// account as it is.
pub proof fn lemma_lock_is_permanent(state: LedgerState, record: Transaction, client: u16)
    requires
        is_locked(state, client),
    ensures
        is_locked(step(state, record), client),
        step(state, record).accounts[client] == state.accounts[client],
{
}

/// An account that is locked at some point of a replay is the same
/// account, still locked, at its end.
pub proof fn lemma_lock_outlasts_replay(records: Seq<Transaction>, upto: int, client: u16)
    requires
        0 <= upto <= records.len(),
        is_locked(run(records.take(upto)), client),
    ensures
        is_locked(run(records), client),
        run(records).accounts[client] == run(records.take(upto)).accounts[client],
    decreases records.len() - upto,
{
    if upto == records.len() {
        assert(records.take(upto) =~= records);
    } else {
        assert(records.take(upto + 1).drop_last() =~= records.take(upto));
        lemma_lock_is_permanent(run(records.take(upto)), records[upto], client);
        lemma_lock_outlasts_replay(records, upto + 1, client);
    }
}

/// The only record that locks an account is a chargeback for its client
/// that is applied.
pub proof fn lemma_lock_needs_chargeback(state: LedgerState, record: Transaction, client: u16)
    requires
        !is_locked(state, client),
        is_locked(step(state, record), client),
    ensures
        record.tx_type == TxType::Chargeback,
        record.client == client,
        step_outcome(state, record) == Outcome::Applied,
{
}

/// An account is locked only after a chargeback for its client was applied.
pub proof fn lemma_locked_after_chargeback(records: Seq<Transaction>, client: u16)
    requires
        is_locked(run(records), client),
    ensures
        exists|at: int| is_applied_chargeback(records, at, client),
    decreases records.len(),
{
    let before = records.drop_last();
    if is_locked(run(before), client) {
        lemma_locked_after_chargeback(before, client);
        let at = choose|at: int| is_applied_chargeback(before, at, client);
        assert(before.take(at) =~= records.take(at));
        assert(is_applied_chargeback(records, at, client));
    } else {
        lemma_lock_needs_chargeback(run(before), records.last(), client);
        let at = records.len() - 1;
        assert(records.take(at) =~= before);
        assert(is_applied_chargeback(records, at, client));
    }
}

/// A resolve or a chargeback that names a transaction with no open dispute
/// changes nothing: the ledger after it is the ledger before it.
pub proof fn lemma_settling_nothing_changes_nothing(state: LedgerState, record: Transaction)
    requires
        record.tx_type == TxType::Resolve || record.tx_type == TxType::Chargeback,
        !state.disputes.contains_key(record.id),
    ensures
        step(state, record) == state,
        step_outcome(state, record) == Outcome::NotDisputed,
{
}

/// A record that is turned down changes no balance and no dispute. All it
/// may leave behind is the empty account that a withdrawal opens for a
/// client who had none.
pub proof fn lemma_rejected_record_changes_nothing(state: LedgerState, record: Transaction)
    requires
        step_outcome(state, record) != Outcome::Applied,
        record.tx_type != TxType::Withdrawal || state.accounts.contains_key(record.client),
    ensures
        step(state, record) == state,
{
    if record.tx_type == TxType::Withdrawal {
        assert(state.accounts.insert(record.client, state.accounts[record.client])
            =~= state.accounts);
    }
}

/// A record touches no account but that of its own client.
pub proof fn lemma_other_accounts_untouched(state: LedgerState, record: Transaction, client: u16)
    requires
        client != record.client,
    ensures
        step(state, record).accounts.contains_key(client) == state.accounts.contains_key(client),
        step(state, record).accounts[client] == state.accounts[client],
{
}

/// A dispute that is resolved right away leaves the account as it was,
/// where nothing was held for the client before: the funds that the
/// dispute held are available again.
pub proof fn lemma_resolve_undoes_dispute(state: LedgerState, opened: Transaction, closed: Transaction)
    requires
        table_balanced(state.accounts),
        opened.tx_type == TxType::Dispute,
        closed.tx_type == TxType::Resolve,
        closed.client == opened.client,
        closed.id == opened.id,
        step_outcome(state, opened) == Outcome::Applied,
        state.accounts.contains_key(opened.client),
        state.accounts[opened.client].held == Amount(0),
        disputed_total(state.disputes, opened.client) == 0,
    ensures
        step_outcome(step(state, opened), closed) == Outcome::Applied,
        step(step(state, opened), closed) == state,
{
    let between = step(state, opened);
    assert(between.disputes.remove(closed.id) =~= state.disputes);
    let after = step(between, closed);
    assert(after.accounts =~= state.accounts);
    assert(after.disputes =~= state.disputes);
}

/// No record closes an account.
pub proof fn lemma_accounts_stay_open(state: LedgerState, record: Transaction, client: u16)
    requires
        state.accounts.contains_key(client),
    ensures
        step(state, record).accounts.contains_key(client),
{
}

/// No record changes or removes what the index holds: it only grows.
pub proof fn lemma_history_only_grows(state: LedgerState, record: Transaction, id: u32)
    requires
        state.history.contains_key(id),
    ensures
        step(state, record).history.contains_key(id),
        step(state, record).history[id] == state.history[id],
{
}

/// The parts of a ledger fit together: every account is filed under its
/// client; the index holds deposits and withdrawals, each under its id; and
/// every open dispute is that of a deposit on the index, entered under the
/// same id.
pub open spec fn is_consistent(state: LedgerState) -> bool {
    &&& forall|client: u16| #[trigger]
        state.accounts.contains_key(client) ==> state.accounts[client].client == client
    &&& forall|id: u32| #[trigger]
        state.history.contains_key(id) ==> {
            &&& state.history[id].id == id
            &&& (state.history[id].tx_type == TxType::Deposit || state.history[id].tx_type
                == TxType::Withdrawal)
        }
    &&& forall|id: u32| #[trigger]
        state.disputes.contains_key(id) ==> {
            &&& state.history.contains_key(id)
            &&& state.disputes[id] == state.history[id]
            &&& state.disputes[id].tx_type == TxType::Deposit
        }
}

/// A record of any kind takes a ledger whose parts fit together to one
/// whose parts fit together.
pub proof fn lemma_step_keeps_consistency(state: LedgerState, record: Transaction)
    requires
        is_consistent(state),
    ensures
        is_consistent(step(state, record)),
{
}

/// After any sequence of records, the parts of the ledger fit together.
pub proof fn lemma_run_is_consistent(records: Seq<Transaction>)
    ensures
        is_consistent(run(records)),
    decreases records.len(),
{
    if records.len() > 0 {
        lemma_run_is_consistent(records.drop_last());
        lemma_step_keeps_consistency(run(records.drop_last()), records.last());
    }
}

} // verus!
