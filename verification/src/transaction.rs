//! Input records, and how they are read from the fields of an input row.

pub use crate::amount::Amount;
use crate::decimal::{parse_decimal, InvalidAmount};
use vstd::prelude::*;
use vstd::string::StringSliceAdditionalSpecFns;
use vstd::utf8::encode_utf8_decode_utf8;

verus! {

/// The kind of event a record describes.
#[derive(Clone, Copy, Debug, PartialEq, Eq, Structural)]
pub enum TxType {
    /// Money comes in.
    Deposit,
    /// Money goes out.
    Withdrawal,
    /// A deposit is called into question.
    Dispute,
    /// A dispute ends in favour of the client.
    Resolve,
    /// A dispute ends against the client.
    Chargeback,
}

/// One event of the input log.
#[derive(Clone, Copy, Debug, PartialEq, Eq, Structural)]
pub struct Transaction {
    /// What the event is.
    pub tx_type: TxType,
    /// The client the event is for.
    pub client: u16,
    /// For a deposit or withdrawal, its own id; for the others, the id of
    /// the deposit they refer to.
    pub id: u32,
    /// The sum moved by a deposit or withdrawal; absent on the others.
    pub amount: Option<Amount>,
}

/// Why the fields of an input row make no record.
#[derive(Clone, Copy, Debug, PartialEq, Eq, Structural)]
pub enum InvalidRecord {
    /// The type is none of the five kinds.
    UnknownType,
    /// The amount is no amount.
    Amount(InvalidAmount),
}

impl TxType {
    /// The name of a kind in the input: its own, in lower case.
    pub open spec fn name_of(self) -> Seq<char> {
        match self {
            TxType::Deposit => "deposit"@,
            TxType::Withdrawal => "withdrawal"@,
            TxType::Dispute => "dispute"@,
            TxType::Resolve => "resolve"@,
            TxType::Chargeback => "chargeback"@,
        }
    }

    /// The kind that goes by `name`, if there is one.
    pub open spec fn named(name: Seq<char>) -> Option<TxType> {
        if name == TxType::Deposit.name_of() {
            Some(TxType::Deposit)
        } else if name == TxType::Withdrawal.name_of() {
            Some(TxType::Withdrawal)
        } else if name == TxType::Dispute.name_of() {
            Some(TxType::Dispute)
        } else if name == TxType::Resolve.name_of() {
            Some(TxType::Resolve)
        } else if name == TxType::Chargeback.name_of() {
            Some(TxType::Chargeback)
        } else {
            None
        }
    }

    /// The name of the kind in the input.
    pub fn name(self) -> (name: &'static str)
        ensures
            name@ == self.name_of(),
    {
        match self {
            TxType::Deposit => "deposit",
            TxType::Withdrawal => "withdrawal",
            TxType::Dispute => "dispute",
            TxType::Resolve => "resolve",
            TxType::Chargeback => "chargeback",
        }
    }

    /// The kind that goes by `name`, which is matched letter for letter.
    pub fn from_name(name: &str) -> (kind: Option<TxType>)
        ensures
            kind == TxType::named(name@),
    {
        if same_text(name, TxType::Deposit.name()) {
            Some(TxType::Deposit)
        } else if same_text(name, TxType::Withdrawal.name()) {
            Some(TxType::Withdrawal)
        } else if same_text(name, TxType::Dispute.name()) {
            Some(TxType::Dispute)
        } else if same_text(name, TxType::Resolve.name()) {
            Some(TxType::Resolve)
        } else if same_text(name, TxType::Chargeback.name()) {
            Some(TxType::Chargeback)
        } else {
            None
        }
    }
}

/// Every kind is found again under its name.
pub proof fn lemma_kind_is_named(kind: TxType)
    ensures
        TxType::named(kind.name_of()) == Some(kind),
{
    reveal_strlit("deposit");
    reveal_strlit("withdrawal");
    reveal_strlit("dispute");
    reveal_strlit("resolve");
    reveal_strlit("chargeback");
    assert("deposit"@[1] != "dispute"@[1]);
    assert("deposit"@[0] != "resolve"@[0]);
    assert("dispute"@[0] != "resolve"@[0]);
    assert("withdrawal"@[0] != "chargeback"@[0]);
}

/// Whether two texts hold the same characters.
fn same_text(left: &str, right: &str) -> (same: bool)
    ensures
        same == (left@ == right@),
{
    let ours = left.as_bytes();
    let theirs = right.as_bytes();
    proof {
        encode_utf8_decode_utf8(left@);
        encode_utf8_decode_utf8(right@);
    }
    if ours.len() != theirs.len() {
        return false;
    }
    let mut at: usize = 0;
    while at < ours.len()
        invariant
            at <= ours.len() == theirs.len(),
            ours@ == left.spec_bytes(),
            theirs@ == right.spec_bytes(),
            forall|i: int| 0 <= i < at ==> ours@[i] == theirs@[i],
        decreases ours.len() - at,
    {
        if ours[at] != theirs[at] {
            return false;
        }
        at = at + 1;
    }
    assert(ours@ =~= theirs@);
    true
}

impl Transaction {
    /// The sum a record moves: its amount, or zero where it carries none.
    pub open spec fn sum(self) -> Amount {
        match self.amount {
            Some(amount) => amount,
            None => Amount(0),
        }
    }

    /// The record that the fields of one input row make. The type has to
    /// name a kind. An empty amount field is an absent amount; any other
    /// is read as a decimal, and has to be one that makes an amount.
    pub open spec fn read(kind: Seq<char>, client: u16, id: u32, amount: Seq<char>) -> Result<
        Transaction,
        InvalidRecord,
    > {
        match TxType::named(kind) {
            None => Err(InvalidRecord::UnknownType),
            Some(tx_type) => if amount.len() == 0 {
                Ok(Transaction { tx_type, client, id, amount: None })
            } else {
                match parse_decimal(amount) {
                    Ok(sum) => Ok(Transaction { tx_type, client, id, amount: Some(sum) }),
                    Err(error) => Err(InvalidRecord::Amount(error)),
                }
            },
        }
    }

    /// Makes a record from the fields of one input row, the type and the
    /// amount still as they were written.
    pub fn from_fields(kind: &str, client: u16, id: u32, amount: &str) -> (result: Result<
        Transaction,
        InvalidRecord,
    >)
        ensures
            result == Transaction::read(kind@, client, id, amount@),
    {
        let tx_type = match TxType::from_name(kind) {
            Some(tx_type) => tx_type,
            None => {
                return Err(InvalidRecord::UnknownType);
            },
        };
        if amount.is_empty() {
            return Ok(Transaction { tx_type, client, id, amount: None });
        }
        match Amount::from_decimal(amount) {
            Ok(sum) => Ok(Transaction { tx_type, client, id, amount: Some(sum) }),
            Err(error) => Err(InvalidRecord::Amount(error)),
        }
    }

    /// The sum a record moves: its amount, or zero where it carries none.
    pub fn amount_or_zero(&self) -> (amount: Amount)
        ensures
            amount == self.sum(),
    {
        match self.amount {
            Some(amount) => amount,
            None => Amount(0),
        }
    }
}

} // verus!
