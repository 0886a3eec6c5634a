//! Per-client account state.

use crate::amount::Amount;
use vstd::prelude::*;

verus! {

/// The balances of one client.
#[derive(Clone, Copy, Debug, PartialEq, Eq, Structural)]
pub struct Account {
    /// The client that owns the account.
    pub client: u16,
    /// Funds the client may withdraw.
    pub available: Amount,
    /// Funds frozen while a dispute is open.
    pub held: Amount,
    /// All funds of the account, available and held.
    pub total: Amount,
    /// Set by a chargeback, and never cleared.
    pub locked: bool,
}

impl Account {
    /// The account as it is known to balance: the total is the sum of the
    /// available and the held funds.
    pub open spec fn is_balanced(self) -> bool {
        self.total.0 == self.available.0 + self.held.0
    }

    /// The state of an account before its first transaction.
    pub open spec fn opened(client: u16) -> Account {
        Account { client, available: Amount(0), held: Amount(0), total: Amount(0), locked: false }
    }

    /// Whether the account balances.
    pub fn balances(&self) -> (balanced: bool)
        ensures
            balanced == self.is_balanced(),
    {
        self.available.0 <= self.total.0 && self.total.0 - self.available.0 == self.held.0
    }

    /// An empty, unlocked account for `client`.
    pub fn new(client: u16) -> (account: Account)
        ensures
            account == Account::opened(client),
    {
        Account { client, available: Amount(0), held: Amount(0), total: Amount(0), locked: false }
    }
}

} // verus!
