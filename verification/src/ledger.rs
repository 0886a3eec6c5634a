//! The ledger: the account table, the index of recorded transactions and
//! the register of open disputes, changed one record at a time.

use crate::account::Account;
use crate::engine::{
    chargeback, chargeback_accounts, deposit, deposit_accounts, deposit_outcome, dispute,
    dispute_accounts, dispute_outcome, dispute_register, resolve, resolve_accounts,
    settle_outcome, settle_register, table_balanced, withdrawal, withdrawal_accounts,
    withdrawal_outcome, Outcome,
};
use crate::transaction::{Transaction, TxType};
use std::collections::HashMap;
use vstd::prelude::*;

verus! {

broadcast use vstd::std_specs::hash::group_hash_axioms;

/// The state of a ledger, as mathematical maps.
pub struct LedgerState {
    /// The account of each client that a record has named.
    pub accounts: Map<u16, Account>,
    /// The applied deposits and withdrawals, each under its id. Where two
    /// share an id, the earlier one stays.
    pub history: Map<u32, Transaction>,
    /// The deposits under dispute, each under its id.
    pub disputes: Map<u32, Transaction>,
}

impl LedgerState {
    /// The ledger before the first record: no account, nothing recorded,
    /// nothing disputed.
    pub open spec fn initial() -> LedgerState {
        LedgerState { accounts: Map::empty(), history: Map::empty(), disputes: Map::empty() }
    }
}

/// The index after a deposit or withdrawal: a record that was applied is
/// entered under its id, unless the id is taken.
pub open spec fn recorded(
    history: Map<u32, Transaction>,
    record: Transaction,
    outcome: Outcome,
) -> Map<u32, Transaction> {
    if outcome == Outcome::Applied && !history.contains_key(record.id) {
        history.insert(record.id, record)
    } else {
        history
    }
}

/// What becomes of `record` on a ledger in `state`.
pub open spec fn step_outcome(state: LedgerState, record: Transaction) -> Outcome {
    match record.tx_type {
        TxType::Deposit => deposit_outcome(state.accounts, record),
        TxType::Withdrawal => withdrawal_outcome(state.accounts, record),
        TxType::Dispute => dispute_outcome(state.accounts, state.history, state.disputes, record),
        TxType::Resolve => settle_outcome(state.accounts, state.disputes, record),
        TxType::Chargeback => settle_outcome(state.accounts, state.disputes, record),
    }
}

/// The state that `record` takes a ledger in `state` to.
pub open spec fn step(state: LedgerState, record: Transaction) -> LedgerState {
    match record.tx_type {
        TxType::Deposit => LedgerState {
            accounts: deposit_accounts(state.accounts, record),
            history: recorded(state.history, record, deposit_outcome(state.accounts, record)),
            disputes: state.disputes,
        },
        TxType::Withdrawal => LedgerState {
            accounts: withdrawal_accounts(state.accounts, record),
            history: recorded(state.history, record, withdrawal_outcome(state.accounts, record)),
            disputes: state.disputes,
        },
        TxType::Dispute => LedgerState {
            accounts: dispute_accounts(state.accounts, state.history, state.disputes, record),
            history: state.history,
            disputes: dispute_register(state.accounts, state.history, state.disputes, record),
        },
        TxType::Resolve => LedgerState {
            accounts: resolve_accounts(state.accounts, state.disputes, record),
            history: state.history,
            disputes: settle_register(state.accounts, state.disputes, record),
        },
        TxType::Chargeback => LedgerState {
            accounts: chargeback_accounts(state.accounts, state.disputes, record),
            history: state.history,
            disputes: settle_register(state.accounts, state.disputes, record),
        },
    }
}

/// The state of a ledger that has taken `records` in order, from the first.
pub open spec fn run(records: Seq<Transaction>) -> LedgerState
    decreases records.len(),
{
    if records.len() == 0 {
        LedgerState::initial()
    } else {
        step(run(records.drop_last()), records.last())
    }
}

/// A ledger under replay. Its state is always the one that the records it
/// has taken lead to from the empty ledger, so that what holds after every
/// log of records holds of every `Ledger`; its accounts balance.
pub struct Ledger {
    accounts: HashMap<u16, Account>,
    history: HashMap<u32, Transaction>,
    disputes: HashMap<u32, Transaction>,
    log: Ghost<Seq<Transaction>>,
}

impl View for Ledger {
    type V = LedgerState;

    closed spec fn view(&self) -> LedgerState {
        LedgerState {
            accounts: self.accounts@,
            history: self.history@,
            disputes: self.disputes@,
        }
    }
}

impl Ledger {
    #[verifier::type_invariant]
    spec fn is_a_replay(self) -> bool {
        &&& self@ == run(self.log@)
        &&& table_balanced(self.accounts@)
    }

    /// The records that the ledger has taken, in order.
    pub closed spec fn log(&self) -> Seq<Transaction> {
        self.log@
    }

    /// A ledger that has taken no record yet.
    pub fn new() -> (ledger: Ledger)
        ensures
            ledger@ == LedgerState::initial(),
            ledger.log() == Seq::<Transaction>::empty(),
    {
        Ledger {
            accounts: HashMap::new(),
            history: HashMap::new(),
            disputes: HashMap::new(),
            log: Ghost(Seq::empty()),
        }
    }

    /// Takes one record: the ledger after it, and what became of the record.
    pub fn apply(self, transaction: &Transaction) -> (next: (Ledger, Outcome))
        ensures
            next.0@ == step(self@, *transaction),
            next.1 == step_outcome(self@, *transaction),
            next.0.log() == self.log().push(*transaction),
            next.0@ == run(next.0.log()),
    {
        proof {
            use_type_invariant(&self);
        }
        let Ledger { mut accounts, mut history, mut disputes, log } = self;
        let outcome = match transaction.tx_type {
            TxType::Deposit => {
                let outcome = deposit(&mut accounts, transaction);
                record(&mut history, transaction, outcome);
                outcome
            },
            TxType::Withdrawal => {
                let outcome = withdrawal(&mut accounts, transaction);
                record(&mut history, transaction, outcome);
                outcome
            },
            TxType::Dispute => dispute(&mut accounts, transaction, &mut disputes, &history),
            TxType::Resolve => resolve(&mut accounts, transaction, &mut disputes),
            TxType::Chargeback => chargeback(&mut accounts, transaction, &mut disputes),
        };
        proof {
            assert(log@.push(*transaction).drop_last() =~= log@);
        }
        (Ledger { accounts, history, disputes, log: Ghost(log@.push(*transaction)) }, outcome)
    }

    /// The account table.
    pub fn accounts(&self) -> (accounts: &HashMap<u16, Account>)
        ensures
            accounts@ == self@.accounts,
            self@ == run(self.log()),
            table_balanced(accounts@),
    {
        proof {
            use_type_invariant(self);
        }
        &self.accounts
    }

    /// The deposits under dispute.
    pub fn disputes(&self) -> (disputes: &HashMap<u32, Transaction>)
        ensures
            disputes@ == self@.disputes,
            self@ == run(self.log()),
    {
        proof {
            use_type_invariant(self);
        }
        &self.disputes
    }

    /// The account table, at the end of a replay.
    pub fn into_accounts(self) -> (accounts: HashMap<u16, Account>)
        ensures
            accounts@ == self@.accounts,
            self@ == run(self.log()),
            table_balanced(accounts@),
    {
        proof {
            use_type_invariant(&self);
        }
        self.accounts
    }
}

/// Enters an applied deposit or withdrawal in the index, unless its id is
/// taken.
fn record(history: &mut HashMap<u32, Transaction>, transaction: &Transaction, outcome: Outcome)
    ensures
        final(history)@ == recorded(old(history)@, *transaction, outcome),
{
    match outcome {
        Outcome::Applied => {
            if !history.contains_key(&transaction.id) {
                history.insert(transaction.id, *transaction);
            }
        },
        _ => {},
    }
}

/// Replays `transactions` in order on an empty ledger and returns the
/// account table that results.
pub fn process_transactions(transactions: &[Transaction]) -> (accounts: HashMap<u16, Account>)
    ensures
        accounts@ == run(transactions@).accounts,
        table_balanced(accounts@),
{
    let mut ledger = Ledger::new();
    let mut done: usize = 0;
    while done < transactions.len()
        invariant
            done <= transactions.len(),
            ledger.log() == transactions@.take(done as int),
        decreases transactions.len() - done,
    {
        proof {
            assert(transactions@.take(done + 1) =~= transactions@.take(done as int).push(
                transactions@[done as int],
            ));
        }
        let (next, _) = ledger.apply(&transactions[done]);
        ledger = next;
        done = done + 1;
    }
    proof {
        assert(transactions@.take(done as int) =~= transactions@);
    }
    ledger.into_accounts()
}

} // verus!
