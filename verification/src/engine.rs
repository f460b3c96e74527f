//! The ledger engine: the rules by which one record changes the accounts,
//! the transaction history, the set of open disputes and the set of used
//! transaction ids, and the replay of a whole stream of records.
//!
//! The rules are stated once as a mathematical model ([`step`], [`replay`])
//! and the executable functions are proved to follow it.
use crate::account::{deposit, withdraw, Client, LedgerError};
use crate::record::{Transaction, TransactionCategory};
use std::collections::HashMap;
use std::collections::HashSet;
use vstd::prelude::*;

verus! {

/// Everything the engine remembers between two records.
#[verifier::ext_equal]
pub struct Ledger {
    /// The account of every client seen so far.
    pub accounts: Map<u16, Client>,
    /// The recorded transactions, by transaction id.
    pub history: Map<u32, Transaction>,
    /// The ids of the transactions under dispute.
    pub disputes: Set<u32>,
    /// The transaction ids that deposits and withdrawals have used, whether
    /// or not the history keeps their records.
    pub used: Set<u32>,
}

impl Ledger {
    /// The ledger a run starts from when the accounts are given: nothing
    /// recorded, nothing disputed, no transaction id used.
    pub open spec fn starting_with(accounts: Map<u16, Client>) -> Ledger {
        Ledger { accounts, history: Map::empty(), disputes: Set::empty(), used: Set::empty() }
    }

    /// This ledger with the account of `client_id` replaced.
    pub open spec fn with_account(self, client_id: u16, account: Client) -> Ledger {
        Ledger { accounts: self.accounts.insert(client_id, account), ..self }
    }
}

/// The account recorded for `client_id`, or a fresh one if there is none.
pub open spec fn account_of(accounts: Map<u16, Client>, client_id: u16) -> Client {
    if accounts.contains_key(client_id) {
        accounts[client_id]
    } else {
        Client::fresh()
    }
}

/// The history after `record` has been offered to it under `id`: the first
/// record of an id stays, a later one under the same id is not taken.
pub open spec fn recorded(history: Map<u32, Transaction>, id: u32, record: Transaction) -> Map<
    u32,
    Transaction,
> {
    if history.contains_key(id) {
        history
    } else {
        history.insert(id, record)
    }
}

/// A dispute can be opened on `id`: it is a recorded deposit that is not
/// under dispute already.
pub open spec fn disputable(history: Map<u32, Transaction>, disputes: Set<u32>, id: u32) -> bool {
    &&& !disputes.contains(id)
    &&& history.contains_key(id)
    &&& history[id].category is Deposit
}

/// The dispute on `id` can be closed: `id` is under dispute and is a
/// recorded deposit.
pub open spec fn closable(history: Map<u32, Transaction>, disputes: Set<u32>, id: u32) -> bool {
    &&& disputes.contains(id)
    &&& history.contains_key(id)
    &&& history[id].category is Deposit
}

/// What a dispute on `id` makes of an account and the open disputes. Where
/// no dispute can be opened both stay as they are.
pub open spec fn after_dispute(
    account: Client,
    history: Map<u32, Transaction>,
    disputes: Set<u32>,
    id: u32,
) -> Result<(Client, Set<u32>), LedgerError> {
    if !disputable(history, disputes, id) {
        Ok((account, disputes))
    } else {
        match history[id].amount {
            None => Err(LedgerError::InvalidAmount),
            Some(amount) => match account.after_hold(amount) {
                Ok(after) => Ok((after, disputes.insert(id))),
                Err(reason) => Err(reason),
            },
        }
    }
}

/// What the resolution of the dispute on `id` makes of an account and the
/// open disputes. Where there is no such dispute both stay as they are.
pub open spec fn after_resolve(
    account: Client,
    history: Map<u32, Transaction>,
    disputes: Set<u32>,
    id: u32,
) -> Result<(Client, Set<u32>), LedgerError> {
    if !closable(history, disputes, id) {
        Ok((account, disputes))
    } else {
        match history[id].amount {
            None => Err(LedgerError::InvalidAmount),
            Some(amount) => match account.after_release(amount) {
                Ok(after) => Ok((after, disputes.remove(id))),
                Err(reason) => Err(reason),
            },
        }
    }
}

/// What a chargeback of the disputed transaction `id` makes of an account
/// and the open disputes. Where there is no such dispute both stay as they
/// are.
pub open spec fn after_charge_back(
    account: Client,
    history: Map<u32, Transaction>,
    disputes: Set<u32>,
    id: u32,
) -> Result<(Client, Set<u32>), LedgerError> {
    if !closable(history, disputes, id) {
        Ok((account, disputes))
    } else {
        match history[id].amount {
            None => Err(LedgerError::InvalidAmount),
            Some(amount) => match account.after_chargeback(amount) {
                Ok(after) => Ok((after, disputes.remove(id))),
                Err(reason) => Err(reason),
            },
        }
    }
}

/// The outcome of one record: the ledger it leaves, and the reason for
/// which it was refused, if it was.
#[verifier::ext_equal]
pub struct Step {
    pub ledger: Ledger,
    pub refusal: Option<LedgerError>,
}

/// The rule of the engine: what one record does to the ledger.
///
/// The account of the record's client is looked up and created if it is new.
/// A locked account ignores the record, whatever it is. Otherwise the record
/// is dispatched on its kind. A deposit or a withdrawal whose transaction id
/// an earlier deposit or withdrawal has used is refused; one that is not
/// refused uses its id, also where the withdrawal is not paid out. A refused
/// record leaves the balances, the history, the disputes and the used ids as
/// they were. With `record_withdrawals` a withdrawal that was paid out is
/// kept in the history beside the deposits; it can still not be disputed.
pub open spec fn step(ledger: Ledger, record: Transaction, record_withdrawals: bool) -> Step {
    let id = record.client_id;
    let account = account_of(ledger.accounts, id);
    let opened = ledger.with_account(id, account);
    if account.locked {
        Step { ledger: opened, refusal: None }
    } else {
        match record.category {
            TransactionCategory::Deposit => match payment(ledger, record) {
                Err(reason) => Step { ledger: opened, refusal: Some(reason) },
                Ok(amount) => match account.after_deposit(amount) {
                    Ok(after) => Step {
                        ledger: Ledger {
                            accounts: ledger.accounts.insert(id, after),
                            history: recorded(ledger.history, record.tx, record),
                            disputes: ledger.disputes,
                            used: ledger.used.insert(record.tx),
                        },
                        refusal: None,
                    },
                    Err(reason) => Step { ledger: opened, refusal: Some(reason) },
                },
            },
            TransactionCategory::Withdrawal => match payment(ledger, record) {
                Err(reason) => Step { ledger: opened, refusal: Some(reason) },
                Ok(amount) => match account.after_withdrawal(amount) {
                    Ok(after) => Step {
                        ledger: Ledger {
                            accounts: ledger.accounts.insert(id, after),
                            history: if record_withdrawals && account.covers(amount) {
                                recorded(ledger.history, record.tx, record)
                            } else {
                                ledger.history
                            },
                            disputes: ledger.disputes,
                            used: ledger.used.insert(record.tx),
                        },
                        refusal: None,
                    },
                    Err(reason) => Step { ledger: opened, refusal: Some(reason) },
                },
            },
            TransactionCategory::Dispute => settle(
                ledger,
                id,
                after_dispute(account, ledger.history, ledger.disputes, record.tx),
            ),
            TransactionCategory::Resolve => settle(
                ledger,
                id,
                after_resolve(account, ledger.history, ledger.disputes, record.tx),
            ),
            TransactionCategory::Chargeback => settle(
                ledger,
                id,
                after_charge_back(account, ledger.history, ledger.disputes, record.tx),
            ),
        }
    }
}

/// The amount that a deposit or a withdrawal brings, or the reason for
/// which the record is refused before any balance is looked at: its
/// transaction id has been used, or it carries no amount.
pub open spec fn payment(ledger: Ledger, record: Transaction) -> Result<i64, LedgerError> {
    if ledger.used.contains(record.tx) {
        Err(LedgerError::DuplicateTransaction)
    } else {
        match record.amount {
            None => Err(LedgerError::InvalidAmount),
            Some(amount) => Ok(amount),
        }
    }
}

/// Puts the outcome of a dispute, resolution or chargeback of client `id`
/// back into the ledger.
pub open spec fn settle(
    ledger: Ledger,
    id: u16,
    outcome: Result<(Client, Set<u32>), LedgerError>,
) -> Step {
    match outcome {
        Ok((after, disputes)) => Step {
            ledger: Ledger { accounts: ledger.accounts.insert(id, after), disputes, ..ledger },
            refusal: None,
        },
        Err(reason) => Step {
            ledger: ledger.with_account(id, account_of(ledger.accounts, id)),
            refusal: Some(reason),
        },
    }
}

/// Where and why a replay stopped.
pub struct Halt {
    /// Index of the refused record in the stream.
    pub index: int,
    pub reason: LedgerError,
}

/// The outcome of a replay: the ledger after the last record that was
/// consumed, and the refusal that stopped the replay, if one did.
#[verifier::ext_equal]
pub struct Replay {
    pub ledger: Ledger,
    pub halt: Option<Halt>,
}

/// Replays `records` in order, starting from `ledger`. The replay stops at
/// the first record that is refused; the records after it are not looked at.
pub open spec fn replay(ledger: Ledger, records: Seq<Transaction>, record_withdrawals: bool) -> Replay
    decreases records.len(),
{
    if records.len() == 0 {
        Replay { ledger, halt: None }
    } else {
        let before = replay(ledger, records.drop_last(), record_withdrawals);
        if before.halt is Some {
            before
        } else {
            let last = step(before.ledger, records.last(), record_withdrawals);
            Replay {
                ledger: last.ledger,
                halt: match last.refusal {
                    Some(reason) => Some(Halt { index: records.len() - 1, reason }),
                    None => None,
                },
            }
        }
    }
}

/// Hands out the account of `client_id`, creating a fresh one on first use.
pub fn get_or_create(clients: &mut HashMap<u16, Client>, client_id: u16) -> (client: &mut Client)
    ensures
        *client == account_of(old(clients)@, client_id),
        final(clients)@ == old(clients)@.insert(client_id, *final(client)),
{
    clients.entry(client_id).or_insert(Client::default())
}

/// The record kept under `transaction_id`, if there is one.
pub fn lookup_history(
    transactions_history: &HashMap<u32, Transaction>,
    transaction_id: u32,
) -> (record: Option<Transaction>)
    ensures
        record == (if transactions_history@.contains_key(transaction_id) {
            Some(transactions_history@[transaction_id])
        } else {
            None
        }),
{
    match transactions_history.get(&transaction_id) {
        Some(record) => Some(*record),
        None => None,
    }
}

/// Whether `transaction_id` is under dispute.
pub fn is_disputed(ongoing_disputes: &HashSet<u32>, transaction_id: u32) -> (disputed: bool)
    ensures
        disputed == ongoing_disputes@.contains(transaction_id),
{
    ongoing_disputes.contains(&transaction_id)
}

/// Puts `transaction_id` under dispute.
pub fn open_dispute(ongoing_disputes: &mut HashSet<u32>, transaction_id: u32)
    ensures
        final(ongoing_disputes)@ == old(ongoing_disputes)@.insert(transaction_id),
{
    ongoing_disputes.insert(transaction_id);
}

/// Takes `transaction_id` out of dispute.
pub fn close_dispute(ongoing_disputes: &mut HashSet<u32>, transaction_id: u32)
    ensures
        final(ongoing_disputes)@ == old(ongoing_disputes)@.remove(transaction_id),
{
    ongoing_disputes.remove(&transaction_id);
}

/// The amount of the recorded deposit `transaction_id`; `Ok(None)` where no
/// deposit is recorded under that id, and a refusal where the deposit
/// carries no amount or a negative one.
fn deposited_amount(
    transactions_history: &HashMap<u32, Transaction>,
    transaction_id: u32,
) -> (amount: Result<Option<i64>, LedgerError>)
    ensures
        amount == (if transactions_history@.contains_key(transaction_id)
            && transactions_history@[transaction_id].category is Deposit {
            match transactions_history@[transaction_id].amount {
                Some(value) => if value < 0 {
                    Err(LedgerError::InvalidAmount)
                } else {
                    Ok(Some(value))
                },
                None => Err(LedgerError::InvalidAmount),
            }
        } else {
            Ok(None)
        }),
{
    match lookup_history(transactions_history, transaction_id) {
        None => Ok(None),
        Some(record) => match record.category {
            TransactionCategory::Deposit => match record.amount {
                Some(value) => if value < 0 {
                    Err(LedgerError::InvalidAmount)
                } else {
                    Ok(Some(value))
                },
                None => Err(LedgerError::InvalidAmount),
            },
            _ => Ok(None),
        },
    }
}

/// Opens a dispute on the recorded deposit `transaction_disputed_id`: its
/// amount moves from `available` to `held` and the id joins the open
/// disputes. An id that is unknown, already disputed or not a deposit makes
/// the call a no-op.
pub fn dispute(
    transaction_disputed_id: u32,
    transactions_history: &HashMap<u32, Transaction>,
    ongoing_disputes: &mut HashSet<u32>,
    client: &mut Client,
) -> (result: Result<(), LedgerError>)
    ensures
        match after_dispute(
            *old(client),
            transactions_history@,
            old(ongoing_disputes)@,
            transaction_disputed_id,
        ) {
            Ok((after, disputes)) => {
                &&& result == Ok::<(), LedgerError>(())
                &&& *final(client) == after
                &&& final(ongoing_disputes)@ == disputes
            },
            Err(reason) => {
                &&& result == Err::<(), LedgerError>(reason)
                &&& *final(client) == *old(client)
                &&& final(ongoing_disputes)@ == old(ongoing_disputes)@
            },
        },
{
    if is_disputed(ongoing_disputes, transaction_disputed_id) {
        return Ok(());
    }
    let amount = match deposited_amount(transactions_history, transaction_disputed_id) {
        Ok(Some(amount)) => amount,
        Ok(None) => { return Ok(()); },
        Err(reason) => { return Err(reason); },
    };
    if client.available < i64::MIN + amount || client.held > i64::MAX - amount {
        return Err(LedgerError::BalanceOutOfRange);
    }
    client.available = client.available - amount;
    client.held = client.held + amount;
    open_dispute(ongoing_disputes, transaction_disputed_id);
    Ok(())
}

/// Resolves the dispute on `transaction_resolved_id`: the amount of the
/// disputed deposit moves back from `held` to `available` and the id leaves
/// the open disputes. An id that is not under dispute makes the call a
/// no-op.
pub fn resolve(
    transaction_resolved_id: u32,
    transactions_history: &HashMap<u32, Transaction>,
    ongoing_disputes: &mut HashSet<u32>,
    client: &mut Client,
) -> (result: Result<(), LedgerError>)
    ensures
        match after_resolve(
            *old(client),
            transactions_history@,
            old(ongoing_disputes)@,
            transaction_resolved_id,
        ) {
            Ok((after, disputes)) => {
                &&& result == Ok::<(), LedgerError>(())
                &&& *final(client) == after
                &&& final(ongoing_disputes)@ == disputes
            },
            Err(reason) => {
                &&& result == Err::<(), LedgerError>(reason)
                &&& *final(client) == *old(client)
                &&& final(ongoing_disputes)@ == old(ongoing_disputes)@
            },
        },
{
    if !is_disputed(ongoing_disputes, transaction_resolved_id) {
        return Ok(());
    }
    let amount = match deposited_amount(transactions_history, transaction_resolved_id) {
        Ok(Some(amount)) => amount,
        Ok(None) => { return Ok(()); },
        Err(reason) => { return Err(reason); },
    };
    if client.held < i64::MIN + amount || client.available > i64::MAX - amount {
        return Err(LedgerError::BalanceOutOfRange);
    }
    client.available = client.available + amount;
    client.held = client.held - amount;
    close_dispute(ongoing_disputes, transaction_resolved_id);
    Ok(())
}

/// Charges back the disputed deposit `transaction_charged_back_id`: its
/// amount leaves `held` and `total`, the account is locked and the id leaves
/// the open disputes. An id that is not under dispute makes the call a
/// no-op.
pub fn charge_back(
    transaction_charged_back_id: u32,
    transactions_history: &HashMap<u32, Transaction>,
    ongoing_disputes: &mut HashSet<u32>,
    client: &mut Client,
) -> (result: Result<(), LedgerError>)
    ensures
        match after_charge_back(
            *old(client),
            transactions_history@,
            old(ongoing_disputes)@,
            transaction_charged_back_id,
        ) {
            Ok((after, disputes)) => {
                &&& result == Ok::<(), LedgerError>(())
                &&& *final(client) == after
                &&& final(ongoing_disputes)@ == disputes
            },
            Err(reason) => {
                &&& result == Err::<(), LedgerError>(reason)
                &&& *final(client) == *old(client)
                &&& final(ongoing_disputes)@ == old(ongoing_disputes)@
            },
        },
{
    if !is_disputed(ongoing_disputes, transaction_charged_back_id) {
        return Ok(());
    }
    let amount = match deposited_amount(transactions_history, transaction_charged_back_id) {
        Ok(Some(amount)) => amount,
        Ok(None) => { return Ok(()); },
        Err(reason) => { return Err(reason); },
    };
    if client.held < i64::MIN + amount || client.total < i64::MIN + amount {
        return Err(LedgerError::BalanceOutOfRange);
    }
    client.held = client.held - amount;
    client.total = client.total - amount;
    client.locked = true;
    close_dispute(ongoing_disputes, transaction_charged_back_id);
    Ok(())
}

/// Offers `record` to the history: it is kept under `transaction_id` unless
/// that id is recorded already.
pub fn record_history(
    transactions_history: &mut HashMap<u32, Transaction>,
    transaction_id: u32,
    record: Transaction,
)
    ensures
        final(transactions_history)@ == recorded(
            old(transactions_history)@,
            transaction_id,
            record,
        ),
{
    if !transactions_history.contains_key(&transaction_id) {
        transactions_history.insert(transaction_id, record);
    }
}

/// Tells whether a deposit or a withdrawal may go on: its transaction id is
/// new and it carries an amount. See [`payment`].
fn accept_payment(record: &Transaction, used_ids: &HashSet<u32>) -> (amount: Result<
    i64,
    LedgerError,
>)
    ensures
        amount == (if used_ids@.contains(record.tx) {
            Err::<i64, LedgerError>(LedgerError::DuplicateTransaction)
        } else {
            match record.amount {
                None => Err::<i64, LedgerError>(LedgerError::InvalidAmount),
                Some(value) => Ok::<i64, LedgerError>(value),
            }
        }),
{
    if used_ids.contains(&record.tx) {
        return Err(LedgerError::DuplicateTransaction);
    }
    match record.amount {
        Some(value) => Ok(value),
        None => Err(LedgerError::InvalidAmount),
    }
}

/// Applies one record to the engine's state, as [`step`] says. A refused
/// record is reported and changes no balance, history entry, dispute or used
/// id.
pub fn apply(
    record: &Transaction,
    clients: &mut HashMap<u16, Client>,
    transactions_history: &mut HashMap<u32, Transaction>,
    ongoing_disputes: &mut HashSet<u32>,
    used_ids: &mut HashSet<u32>,
    record_withdrawals: bool,
) -> (result: Result<(), LedgerError>)
    ensures
        ({
            let before = Ledger {
                accounts: old(clients)@,
                history: old(transactions_history)@,
                disputes: old(ongoing_disputes)@,
                used: old(used_ids)@,
            };
            let outcome = step(before, *record, record_withdrawals);
            &&& final(clients)@ == outcome.ledger.accounts
            &&& final(transactions_history)@ == outcome.ledger.history
            &&& final(ongoing_disputes)@ == outcome.ledger.disputes
            &&& final(used_ids)@ == outcome.ledger.used
            &&& result == match outcome.refusal {
                None => Ok::<(), LedgerError>(()),
                Some(reason) => Err::<(), LedgerError>(reason),
            }
        }),
{
    let client = get_or_create(clients, record.client_id);
    if client.locked {
        return Ok(());
    }
    match record.category {
        TransactionCategory::Deposit => {
            let amount = match accept_payment(record, used_ids) {
                Ok(amount) => amount,
                Err(reason) => { return Err(reason); },
            };
            match deposit(amount, client) {
                Ok(()) => {
                    record_history(transactions_history, record.tx, *record);
                    used_ids.insert(record.tx);
                    Ok(())
                },
                Err(reason) => Err(reason),
            }
        },
        TransactionCategory::Withdrawal => {
            let amount = match accept_payment(record, used_ids) {
                Ok(amount) => amount,
                Err(reason) => { return Err(reason); },
            };
            match withdraw(amount, client) {
                Ok(paid) => {
                    if paid && record_withdrawals {
                        record_history(transactions_history, record.tx, *record);
                    }
                    used_ids.insert(record.tx);
                    Ok(())
                },
                Err(reason) => Err(reason),
            }
        },
        TransactionCategory::Dispute => dispute(
            record.tx,
            transactions_history,
            ongoing_disputes,
            client,
        ),
        TransactionCategory::Resolve => resolve(
            record.tx,
            transactions_history,
            ongoing_disputes,
            client,
        ),
        TransactionCategory::Chargeback => charge_back(
            record.tx,
            transactions_history,
            ongoing_disputes,
            client,
        ),
    }
}

/// A refused record: its index in the stream and the reason.
#[derive(Clone, Copy, Debug, PartialEq, Eq, Structural)]
pub struct Rejection {
    pub index: usize,
    pub reason: LedgerError,
}

/// Once a replay has stopped, the records that follow do not matter.
pub proof fn lemma_replay_stays_halted(
    ledger: Ledger,
    records: Seq<Transaction>,
    record_withdrawals: bool,
    n: int,
)
    requires
        0 <= n <= records.len(),
        replay(ledger, records.take(n), record_withdrawals).halt is Some,
    ensures
        replay(ledger, records, record_withdrawals) == replay(
            ledger,
            records.take(n),
            record_withdrawals,
        ),
    decreases records.len() - n,
{
    if n == records.len() {
        assert(records.take(n) =~= records);
    } else {
        assert(records.take(n + 1).drop_last() =~= records.take(n));
        lemma_replay_stays_halted(ledger, records, record_withdrawals, n + 1);
    }
}

/// Replays `transactions` in order against `clients`, starting with an
/// empty history, no open dispute and no used transaction id, and keeping
/// `record_withdrawals` as [`step`] describes it.
///
/// A record is refused, and the replay stopped, where a deposit or a
/// withdrawal carries no amount or a negative one, where it comes under a
/// transaction id that an earlier deposit or withdrawal of the replay has
/// used, and where a balance would leave the range of `i64`.
///
/// The replay stops at the first refused record and reports it; `clients`
/// then holds the accounts as the records before it left them, and an
/// account for the client of the refused record.
pub fn process_transactions_with(
    transactions: &Vec<Transaction>,
    clients: &mut HashMap<u16, Client>,
    record_withdrawals: bool,
) -> (result: Result<(), Rejection>)
    ensures
        ({
            let outcome = replay(
                Ledger::starting_with(old(clients)@),
                transactions@,
                record_withdrawals,
            );
            &&& final(clients)@ == outcome.ledger.accounts
            &&& match result {
                Ok(()) => outcome.halt is None,
                Err(rejection) => outcome.halt == Some(
                    Halt { index: rejection.index as int, reason: rejection.reason },
                ),
            }
        }),
{
    let mut transactions_history: HashMap<u32, Transaction> = HashMap::new();
    let mut ongoing_disputes: HashSet<u32> = HashSet::new();
    let mut used_ids: HashSet<u32> = HashSet::new();
    let ghost start = Ledger::starting_with(clients@);
    let mut index: usize = 0;
    while index < transactions.len()
        invariant
            index <= transactions.len(),
            start == Ledger::starting_with(old(clients)@),
            replay(start, transactions@.take(index as int), record_withdrawals) == (Replay {
                ledger: Ledger {
                    accounts: clients@,
                    history: transactions_history@,
                    disputes: ongoing_disputes@,
                    used: used_ids@,
                },
                halt: None,
            }),
        decreases transactions.len() - index,
    {
        proof {
            let upto = transactions@.take(index + 1);
            assert(upto.drop_last() =~= transactions@.take(index as int));
            assert(upto.last() == transactions@[index as int]);
        }
        let applied = apply(
            &transactions[index],
            clients,
            &mut transactions_history,
            &mut ongoing_disputes,
            &mut used_ids,
            record_withdrawals,
        );
        match applied {
            Ok(()) => {},
            Err(reason) => {
                proof {
                    lemma_replay_stays_halted(
                        start,
                        transactions@,
                        record_withdrawals,
                        index + 1,
                    );
                }
                return Err(Rejection { index, reason });
            },
        }
        index = index + 1;
    }
    proof {
        assert(transactions@.take(index as int) =~= transactions@);
    }
    Ok(())
}

/// Replays `transactions` in order against `clients` as
/// [`process_transactions_with`] does, with the default for the history:
/// deposits are recorded, withdrawals are not. A withdrawal cannot be
/// disputed either way, and the choice makes no difference to any account.
pub fn process_transactions(
    transactions: &Vec<Transaction>,
    clients: &mut HashMap<u16, Client>,
) -> (result: Result<(), Rejection>)
    ensures
        ({
            let outcome = replay(Ledger::starting_with(old(clients)@), transactions@, false);
            &&& final(clients)@ == outcome.ledger.accounts
            &&& match result {
                Ok(()) => outcome.halt is None,
                Err(rejection) => outcome.halt == Some(
                    Halt { index: rejection.index as int, reason: rejection.reason },
                ),
            }
        }),
{
    process_transactions_with(transactions, clients, false)
}

} // verus!
