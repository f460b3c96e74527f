//! The account ledger of a single client and the two operations that move
//! money in and out of it.
use vstd::prelude::*;

verus! {

/// Why the engine refuses a record. A refusal is fatal to a run: the record
/// is a violation of the input contract, not a business outcome.
#[derive(Clone, Copy, Debug, PartialEq, Eq, Structural)]
pub enum LedgerError {
    /// A deposit or withdrawal carries no amount, or a negative one.
    InvalidAmount,
    /// Applying the record would take a balance out of the range of `i64`.
    BalanceOutOfRange,
    /// A deposit or withdrawal comes under a transaction id that an earlier
    /// deposit or withdrawal has used.
    DuplicateTransaction,
}

/// Balances of one client, in ten-thousandths of a currency unit.
#[derive(Clone, Copy, Debug, PartialEq, Eq, Structural)]
pub struct Client {
    /// Funds the client may withdraw.
    pub available: i64,
    /// Funds set aside while a dispute is open.
    pub held: i64,
    /// Everything the account holds: `available + held` on a balanced account.
    pub total: i64,
    /// Set by a chargeback; a locked account ignores every later record.
    pub locked: bool,
}

impl Client {
    /// The account every client starts with: no funds, not locked.
    pub open spec fn fresh() -> Client {
        Client { available: 0, held: 0, total: 0, locked: false }
    }

    /// The accounting identity `total == available + held`.
    pub open spec fn balanced(self) -> bool {
        self.total == self.available + self.held
    }

    /// No balance is below zero.
    pub open spec fn solvent(self) -> bool {
        self.available >= 0 && self.held >= 0 && self.total >= 0
    }

    /// The account after `amount` has been added to `available` and `total`,
    /// or the reason the deposit is refused.
    pub open spec fn after_deposit(self, amount: i64) -> Result<Client, LedgerError> {
        if amount < 0 {
            Err(LedgerError::InvalidAmount)
        } else if self.available + amount > i64::MAX || self.total + amount > i64::MAX {
            Err(LedgerError::BalanceOutOfRange)
        } else {
            Ok(
                Client {
                    available: (self.available + amount) as i64,
                    total: (self.total + amount) as i64,
                    ..self
                },
            )
        }
    }

    /// The account after `amount` has been moved from `available` to `held`,
    /// as the opening of a dispute does.
    pub open spec fn after_hold(self, amount: i64) -> Result<Client, LedgerError> {
        if amount < 0 {
            Err(LedgerError::InvalidAmount)
        } else if self.available - amount < i64::MIN || self.held + amount > i64::MAX {
            Err(LedgerError::BalanceOutOfRange)
        } else {
            Ok(
                Client {
                    available: (self.available - amount) as i64,
                    held: (self.held + amount) as i64,
                    ..self
                },
            )
        }
    }

    /// The account after `amount` has been moved back from `held` to
    /// `available`, as the resolution of a dispute does.
    pub open spec fn after_release(self, amount: i64) -> Result<Client, LedgerError> {
        if amount < 0 {
            Err(LedgerError::InvalidAmount)
        } else if self.held - amount < i64::MIN || self.available + amount > i64::MAX {
            Err(LedgerError::BalanceOutOfRange)
        } else {
            Ok(
                Client {
                    available: (self.available + amount) as i64,
                    held: (self.held - amount) as i64,
                    ..self
                },
            )
        }
    }

    /// The account after `amount` has left `held` and `total` for good and
    /// the account has been locked, as a chargeback does.
    pub open spec fn after_chargeback(self, amount: i64) -> Result<Client, LedgerError> {
        if amount < 0 {
            Err(LedgerError::InvalidAmount)
        } else if self.held - amount < i64::MIN || self.total - amount < i64::MIN {
            Err(LedgerError::BalanceOutOfRange)
        } else {
            Ok(
                Client {
                    held: (self.held - amount) as i64,
                    total: (self.total - amount) as i64,
                    locked: true,
                    ..self
                },
            )
        }
    }

    /// Whether a withdrawal of `amount` is covered by the available funds.
    pub open spec fn covers(self, amount: i64) -> bool {
        amount <= self.available
    }

    /// The account after a withdrawal of `amount`, or the reason it is
    /// refused. A withdrawal that the available funds do not cover leaves
    /// the account as it is.
    pub open spec fn after_withdrawal(self, amount: i64) -> Result<Client, LedgerError> {
        if amount < 0 {
            Err(LedgerError::InvalidAmount)
        } else if !self.covers(amount) {
            Ok(self)
        } else if self.total - amount < i64::MIN {
            Err(LedgerError::BalanceOutOfRange)
        } else {
            Ok(
                Client {
                    available: (self.available - amount) as i64,
                    total: (self.total - amount) as i64,
                    ..self
                },
            )
        }
    }
}

impl Default for Client {
    fn default() -> (client: Client)
        ensures
            client == Client::fresh(),
    {
        Client { available: 0, held: 0, total: 0, locked: false }
    }
}

/// Credits `amount` to the client. A negative amount, or one that would
/// overflow a balance, is refused and leaves the account untouched.
pub fn deposit(amount: i64, client: &mut Client) -> (result: Result<(), LedgerError>)
    ensures
        match old(client).after_deposit(amount) {
            Ok(after) => result == Ok::<(), LedgerError>(()) && *final(client) == after,
            Err(reason) => result == Err::<(), LedgerError>(reason) && *final(client) == *old(
                client,
            ),
        },
{
    if amount < 0 {
        return Err(LedgerError::InvalidAmount);
    }
    if client.available > i64::MAX - amount || client.total > i64::MAX - amount {
        return Err(LedgerError::BalanceOutOfRange);
    }
    client.available = client.available + amount;
    client.total = client.total + amount;
    Ok(())
}

/// Debits `amount` from the client when the available funds cover it.
/// Returns `Ok(true)` when the money left the account and `Ok(false)` when
/// the funds were insufficient, which is an ordinary outcome and changes
/// nothing.
pub fn withdraw(amount: i64, client: &mut Client) -> (result: Result<bool, LedgerError>)
    ensures
        match old(client).after_withdrawal(amount) {
            Ok(after) => result == Ok::<bool, LedgerError>(old(client).covers(amount))
                && *final(client) == after,
            Err(reason) => result == Err::<bool, LedgerError>(reason) && *final(client) == *old(
                client,
            ),
        },
{
    if amount < 0 {
        return Err(LedgerError::InvalidAmount);
    }
    if amount > client.available {
        return Ok(false);
    }
    if client.total < i64::MIN + amount {
        return Err(LedgerError::BalanceOutOfRange);
    }
    client.available = client.available - amount;
    client.total = client.total - amount;
    Ok(true)
}

} // verus!
