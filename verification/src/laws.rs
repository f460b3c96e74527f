//! Laws of the engine: what holds of every ledger and every stream of
//! records, proved from the model in [`crate::engine`].
use crate::account::{Client, LedgerError};
use crate::engine::{account_of, closable, replay, step, Ledger, Step};
use crate::record::{ids_are_unique, Transaction};
use vstd::prelude::*;

verus! {

/// Every account satisfies `total == available + held`.
pub open spec fn all_balanced(accounts: Map<u16, Client>) -> bool {
    forall|id: u16| accounts.contains_key(id) ==> (#[trigger] accounts[id]).balanced()
}

/// The amount that a resolution or a chargeback of `id` would take out of
/// the held funds; zero where there is no dispute on `id` to close.
pub open spec fn amount_to_close(ledger: Ledger, id: u32) -> int {
    if closable(ledger.history, ledger.disputes, id) && ledger.history[id].amount is Some {
        ledger.history[id].amount->0 as int
    } else {
        0
    }
}

/// A record touches no account but that of its own client.
pub proof fn lemma_step_leaves_other_accounts(
    ledger: Ledger,
    record: Transaction,
    record_withdrawals: bool,
    other: u16,
)
    requires
        other != record.client_id,
    ensures
        step(ledger, record, record_withdrawals).ledger.accounts.contains_key(other)
            == ledger.accounts.contains_key(other),
        account_of(step(ledger, record, record_withdrawals).ledger.accounts, other) == account_of(
            ledger.accounts,
            other,
        ),
{
}

/// One record keeps the accounting identity: if `total == available + held`
/// holds of every account before the record, it holds of every account
/// after it, whether the record was applied, ignored or refused.
pub proof fn lemma_step_keeps_accounts_balanced(
    ledger: Ledger,
    record: Transaction,
    record_withdrawals: bool,
)
    requires
        all_balanced(ledger.accounts),
    ensures
        all_balanced(step(ledger, record, record_withdrawals).ledger.accounts),
{
}

/// After any prefix of any stream of records, `total == available + held`
/// holds of every account, provided it held of the accounts the replay
/// started from.
pub proof fn lemma_replay_keeps_accounts_balanced(
    ledger: Ledger,
    records: Seq<Transaction>,
    record_withdrawals: bool,
    n: int,
)
    requires
        all_balanced(ledger.accounts),
        0 <= n <= records.len(),
    ensures
        all_balanced(replay(ledger, records.take(n), record_withdrawals).ledger.accounts),
    decreases n,
{
    if n > 0 {
        let upto = records.take(n);
        assert(upto.drop_last() =~= records.take(n - 1));
        lemma_replay_keeps_accounts_balanced(ledger, records, record_withdrawals, n - 1);
        let before = replay(ledger, records.take(n - 1), record_withdrawals);
        if before.halt is None {
            lemma_step_keeps_accounts_balanced(before.ledger, upto.last(), record_withdrawals);
        }
    }
}

/// A deposit lowers no balance of any account: a balance that was not
/// negative before the deposit is not negative after it.
pub proof fn lemma_deposit_lowers_no_balance(
    ledger: Ledger,
    record: Transaction,
    record_withdrawals: bool,
    id: u16,
)
    requires
        record.category is Deposit,
    ensures
        ({
            let before = account_of(ledger.accounts, id);
            let after = account_of(step(ledger, record, record_withdrawals).ledger.accounts, id);
            &&& after.available >= before.available
            &&& after.held == before.held
            &&& after.total >= before.total
        }),
{
}

/// A withdrawal never takes the available funds of an account below zero:
/// where it lowers them, what is left is not negative. It raises no
/// balance and leaves the held funds alone.
pub proof fn lemma_withdrawal_keeps_available_non_negative(
    ledger: Ledger,
    record: Transaction,
    record_withdrawals: bool,
    id: u16,
)
    requires
        record.category is Withdrawal,
    ensures
        ({
            let before = account_of(ledger.accounts, id);
            let after = account_of(step(ledger, record, record_withdrawals).ledger.accounts, id);
            &&& after.available == before.available || 0 <= after.available < before.available
            &&& after.held == before.held
            &&& after.total <= before.total
        }),
{
}

/// A resolution takes no balance below zero, as long as the held funds of
/// the record's client cover the amount that is released.
pub proof fn lemma_resolve_keeps_balances_non_negative(
    ledger: Ledger,
    record: Transaction,
    record_withdrawals: bool,
    id: u16,
)
    requires
        record.category is Resolve,
        amount_to_close(ledger, record.tx) <= account_of(ledger.accounts, record.client_id).held,
    ensures
        ({
            let before = account_of(ledger.accounts, id);
            let after = account_of(step(ledger, record, record_withdrawals).ledger.accounts, id);
            &&& before.available >= 0 ==> after.available >= 0
            &&& before.held >= 0 ==> after.held >= 0
            &&& after.total == before.total
        }),
{
}

/// A chargeback takes no balance of a balanced account below zero, as long
/// as the held funds of the record's client cover the amount that is
/// charged back.
pub proof fn lemma_chargeback_keeps_balances_non_negative(
    ledger: Ledger,
    record: Transaction,
    record_withdrawals: bool,
    id: u16,
)
    requires
        record.category is Chargeback,
        amount_to_close(ledger, record.tx) <= account_of(ledger.accounts, record.client_id).held,
        account_of(ledger.accounts, id).balanced(),
        account_of(ledger.accounts, id).solvent(),
    ensures
        account_of(step(ledger, record, record_withdrawals).ledger.accounts, id).solvent(),
        account_of(step(ledger, record, record_withdrawals).ledger.accounts, id).available
            == account_of(ledger.accounts, id).available,
{
}

/// The ledger after a record that had no effect: nothing has changed but
/// that the record's client has an account, a fresh one if it had none.
pub open spec fn untouched(ledger: Ledger, record: Transaction) -> Step {
    Step {
        ledger: ledger.with_account(
            record.client_id,
            account_of(ledger.accounts, record.client_id),
        ),
        refusal: None,
    }
}

/// A dispute on a transaction that is under dispute already changes
/// nothing: no balance, no history entry, no open dispute, no used id. For
/// a client seen before the ledger is the same as it was.
pub proof fn lemma_second_dispute_changes_nothing(
    ledger: Ledger,
    record: Transaction,
    record_withdrawals: bool,
)
    requires
        record.category is Dispute,
        ledger.disputes.contains(record.tx),
    ensures
        step(ledger, record, record_withdrawals) == untouched(ledger, record),
        ledger.accounts.contains_key(record.client_id) ==> step(
            ledger,
            record,
            record_withdrawals,
        ).ledger == ledger,
{
    let opened = untouched(ledger, record).ledger;
    assert(step(ledger, record, record_withdrawals).ledger.accounts =~= opened.accounts);
    if ledger.accounts.contains_key(record.client_id) {
        assert(opened.accounts =~= ledger.accounts);
    }
}

/// A resolution or a chargeback of a transaction that is not under dispute
/// changes nothing: no balance, no history entry, no open dispute, no used
/// id. For a client seen before the ledger is the same as it was.
pub proof fn lemma_closing_without_dispute_changes_nothing(
    ledger: Ledger,
    record: Transaction,
    record_withdrawals: bool,
)
    requires
        record.category is Resolve || record.category is Chargeback,
        !ledger.disputes.contains(record.tx),
    ensures
        step(ledger, record, record_withdrawals) == untouched(ledger, record),
        ledger.accounts.contains_key(record.client_id) ==> step(
            ledger,
            record,
            record_withdrawals,
        ).ledger == ledger,
{
    let opened = untouched(ledger, record).ledger;
    assert(step(ledger, record, record_withdrawals).ledger.accounts =~= opened.accounts);
    if ledger.accounts.contains_key(record.client_id) {
        assert(opened.accounts =~= ledger.accounts);
    }
}

/// A record for a locked account is ignored, whatever its kind and whatever
/// it carries, a used transaction id too: it is not refused, and it changes
/// no balance, no history entry, no open dispute and no used id.
pub proof fn lemma_locked_account_ignores_record(
    ledger: Ledger,
    record: Transaction,
    record_withdrawals: bool,
)
    requires
        account_of(ledger.accounts, record.client_id).locked,
    ensures
        step(ledger, record, record_withdrawals) == untouched(ledger, record),
{
}

/// A record is applied as a whole or not at all: one that is refused
/// changes no balance, no history entry, no open dispute and no used id.
pub proof fn lemma_refused_record_changes_nothing(
    ledger: Ledger,
    record: Transaction,
    record_withdrawals: bool,
)
    requires
        step(ledger, record, record_withdrawals).refusal is Some,
    ensures
        step(ledger, record, record_withdrawals).ledger == untouched(ledger, record).ledger,
{
}

/// A chargeback that closes a dispute locks the account of its client.
pub proof fn lemma_chargeback_locks(ledger: Ledger, record: Transaction, record_withdrawals: bool)
    requires
        record.category is Chargeback,
        closable(ledger.history, ledger.disputes, record.tx),
        step(ledger, record, record_withdrawals).refusal is None,
    ensures
        account_of(
            step(ledger, record, record_withdrawals).ledger.accounts,
            record.client_id,
        ).locked,
{
}

/// No record of any kind, for any client, changes a locked account.
pub proof fn lemma_step_leaves_locked_account(
    ledger: Ledger,
    record: Transaction,
    record_withdrawals: bool,
    id: u16,
)
    requires
        ledger.accounts.contains_key(id),
        ledger.accounts[id].locked,
    ensures
        step(ledger, record, record_withdrawals).ledger.accounts.contains_key(id),
        step(ledger, record, record_withdrawals).ledger.accounts[id] == ledger.accounts[id],
{
}

/// Freeze finality: once an account is locked, no stream of records
/// changes it, whatever their kinds and whoever their clients are.
pub proof fn lemma_replay_leaves_locked_account(
    ledger: Ledger,
    records: Seq<Transaction>,
    record_withdrawals: bool,
    id: u16,
)
    requires
        ledger.accounts.contains_key(id),
        ledger.accounts[id].locked,
    ensures
        replay(ledger, records, record_withdrawals).ledger.accounts.contains_key(id),
        replay(ledger, records, record_withdrawals).ledger.accounts[id] == ledger.accounts[id],
    decreases records.len(),
{
    if records.len() > 0 {
        lemma_replay_leaves_locked_account(ledger, records.drop_last(), record_withdrawals, id);
        let before = replay(ledger, records.drop_last(), record_withdrawals);
        if before.halt is None {
            lemma_step_leaves_locked_account(
                before.ledger,
                records.last(),
                record_withdrawals,
                id,
            );
        }
    }
}

/// Nothing is ever taken back: one record removes no account, removes or
/// replaces no entry of the history, and forgets no used id.
pub proof fn lemma_step_keeps_what_is_there(
    ledger: Ledger,
    record: Transaction,
    record_withdrawals: bool,
)
    ensures
        forall|id: u16| #[trigger]
            ledger.accounts.contains_key(id) ==> step(
                ledger,
                record,
                record_withdrawals,
            ).ledger.accounts.contains_key(id),
        forall|id: u32| #[trigger]
            ledger.history.contains_key(id) ==> {
                let after = step(ledger, record, record_withdrawals).ledger;
                after.history.contains_key(id) && after.history[id] == ledger.history[id]
            },
        forall|id: u32| #[trigger]
            ledger.used.contains(id) ==> step(
                ledger,
                record,
                record_withdrawals,
            ).ledger.used.contains(id),
{
}

/// Nothing is ever taken back: a replay removes no account, removes or
/// replaces no entry of the history, and forgets no used id.
pub proof fn lemma_replay_keeps_what_is_there(
    ledger: Ledger,
    records: Seq<Transaction>,
    record_withdrawals: bool,
)
    ensures
        forall|id: u16| #[trigger]
            ledger.accounts.contains_key(id) ==> replay(
                ledger,
                records,
                record_withdrawals,
            ).ledger.accounts.contains_key(id),
        forall|id: u32| #[trigger]
            ledger.history.contains_key(id) ==> {
                let after = replay(ledger, records, record_withdrawals).ledger;
                after.history.contains_key(id) && after.history[id] == ledger.history[id]
            },
        forall|id: u32| #[trigger]
            ledger.used.contains(id) ==> replay(
                ledger,
                records,
                record_withdrawals,
            ).ledger.used.contains(id),
    decreases records.len(),
{
    if records.len() > 0 {
        lemma_replay_keeps_what_is_there(ledger, records.drop_last(), record_withdrawals);
        let before = replay(ledger, records.drop_last(), record_withdrawals);
        if before.halt is None {
            lemma_step_keeps_what_is_there(before.ledger, records.last(), record_withdrawals);
        }
    }
}

/// Every recorded transaction is one of `records`, a deposit or a
/// withdrawal, and stands in the history under its own id.
pub open spec fn history_comes_from(ledger: Ledger, records: Seq<Transaction>) -> bool {
    forall|id: u32| #[trigger]
        ledger.history.contains_key(id) ==> {
            &&& ledger.history[id].tx == id
            &&& ledger.history[id].category.moves_money()
            &&& exists|i: int| 0 <= i < records.len() && #[trigger] records[i] == ledger.history[id]
        }
}

/// A history that comes from some records comes from any longer stream of
/// records, too.
pub proof fn lemma_history_origin_grows(
    ledger: Ledger,
    earlier: Seq<Transaction>,
    record: Transaction,
)
    requires
        history_comes_from(ledger, earlier),
    ensures
        history_comes_from(ledger, earlier.push(record)),
{
    let seen = earlier.push(record);
    assert forall|id: u32| #[trigger] ledger.history.contains_key(id) implies exists|i: int|
        0 <= i < seen.len() && #[trigger] seen[i] == ledger.history[id] by {
        let i = choose|i: int| 0 <= i < earlier.len() && #[trigger] earlier[i] == ledger.history[id];
        assert(seen[i] == earlier[i]);
    }
}

/// One record keeps the history within the records seen.
pub proof fn lemma_step_keeps_history_origin(
    ledger: Ledger,
    earlier: Seq<Transaction>,
    record: Transaction,
    record_withdrawals: bool,
)
    requires
        history_comes_from(ledger, earlier),
    ensures
        history_comes_from(step(ledger, record, record_withdrawals).ledger, earlier.push(record)),
{
    let after = step(ledger, record, record_withdrawals).ledger;
    let seen = earlier.push(record);
    assert forall|id: u32| #[trigger] after.history.contains_key(id) implies exists|i: int|
        0 <= i < seen.len() && #[trigger] seen[i] == after.history[id] by {
        if ledger.history.contains_key(id) {
            let i = choose|i: int|
                0 <= i < earlier.len() && #[trigger] earlier[i] == ledger.history[id];
            assert(seen[i] == earlier[i]);
        } else {
            assert(seen[earlier.len() as int] == record);
        }
    }
}

/// After any prefix of a stream of records that is replayed from an empty
/// history, the history holds nothing but deposits and withdrawals of that
/// prefix, each under its own id.
pub proof fn lemma_replay_keeps_history_origin(
    accounts: Map<u16, Client>,
    records: Seq<Transaction>,
    record_withdrawals: bool,
    n: int,
)
    requires
        0 <= n <= records.len(),
    ensures
        history_comes_from(
            replay(Ledger::starting_with(accounts), records.take(n), record_withdrawals).ledger,
            records.take(n),
        ),
    decreases n,
{
    let start = Ledger::starting_with(accounts);
    if n == 0 {
        assert(records.take(0) =~= Seq::<Transaction>::empty());
    } else {
        lemma_replay_keeps_history_origin(accounts, records, record_withdrawals, n - 1);
        let earlier = records.take(n - 1);
        let upto = records.take(n);
        assert(upto.drop_last() =~= earlier);
        assert(upto =~= earlier.push(records[n - 1]));
        let before = replay(start, earlier, record_withdrawals);
        if before.halt is Some {
            lemma_history_origin_grows(before.ledger, earlier, records[n - 1]);
        } else {
            lemma_step_keeps_history_origin(
                before.ledger,
                earlier,
                records[n - 1],
                record_withdrawals,
            );
        }
    }
}

/// Every used id is the id of a deposit or a withdrawal among `records`,
/// and every recorded transaction stands under a used id.
pub open spec fn used_ids_come_from(ledger: Ledger, records: Seq<Transaction>) -> bool {
    &&& forall|id: u32| #[trigger]
        ledger.used.contains(id) ==> exists|i: int|
            0 <= i < records.len() && (#[trigger] records[i]).tx == id
                && records[i].category.moves_money()
    &&& forall|id: u32| #[trigger] ledger.history.contains_key(id) ==> ledger.used.contains(id)
}

/// One record keeps the used ids within the records seen, and the history
/// within the used ids.
pub proof fn lemma_step_keeps_used_ids_origin(
    ledger: Ledger,
    earlier: Seq<Transaction>,
    record: Transaction,
    record_withdrawals: bool,
)
    requires
        used_ids_come_from(ledger, earlier),
    ensures
        used_ids_come_from(step(ledger, record, record_withdrawals).ledger, earlier.push(record)),
{
    let after = step(ledger, record, record_withdrawals).ledger;
    let seen = earlier.push(record);
    assert forall|id: u32| #[trigger] after.used.contains(id) implies exists|i: int|
        0 <= i < seen.len() && (#[trigger] seen[i]).tx == id && seen[i].category.moves_money() by {
        if ledger.used.contains(id) {
            let i = choose|i: int|
                0 <= i < earlier.len() && (#[trigger] earlier[i]).tx == id
                    && earlier[i].category.moves_money();
            assert(seen[i] == earlier[i]);
        } else {
            assert(seen[earlier.len() as int] == record);
        }
    }
}

/// After any prefix of a stream of records that is replayed from a ledger
/// without used ids, every used id is the id of a deposit or a withdrawal of
/// that prefix, and every recorded transaction stands under a used id.
pub proof fn lemma_replay_keeps_used_ids_origin(
    accounts: Map<u16, Client>,
    records: Seq<Transaction>,
    record_withdrawals: bool,
    n: int,
)
    requires
        0 <= n <= records.len(),
    ensures
        used_ids_come_from(
            replay(Ledger::starting_with(accounts), records.take(n), record_withdrawals).ledger,
            records.take(n),
        ),
    decreases n,
{
    let start = Ledger::starting_with(accounts);
    if n == 0 {
        assert(records.take(0) =~= Seq::<Transaction>::empty());
    } else {
        lemma_replay_keeps_used_ids_origin(accounts, records, record_withdrawals, n - 1);
        let earlier = records.take(n - 1);
        let upto = records.take(n);
        assert(upto.drop_last() =~= earlier);
        assert(upto =~= earlier.push(records[n - 1]));
        let before = replay(start, earlier, record_withdrawals);
        if before.halt is Some {
            assert forall|id: u32| #[trigger] before.ledger.used.contains(id) implies exists|
                i: int,
            |
                0 <= i < upto.len() && (#[trigger] upto[i]).tx == id
                    && upto[i].category.moves_money() by {
                let i = choose|i: int|
                    0 <= i < earlier.len() && (#[trigger] earlier[i]).tx == id
                        && earlier[i].category.moves_money();
                assert(upto[i] == earlier[i]);
            }
        } else {
            lemma_step_keeps_used_ids_origin(
                before.ledger,
                earlier,
                records[n - 1],
                record_withdrawals,
            );
        }
    }
}

/// A deposit or a withdrawal for an account that is not locked, under a
/// transaction id that has been used, is refused as a duplicate, whatever
/// else it holds, and changes nothing.
pub proof fn lemma_reused_id_is_refused(
    ledger: Ledger,
    record: Transaction,
    record_withdrawals: bool,
)
    requires
        record.category.moves_money(),
        ledger.used.contains(record.tx),
        !account_of(ledger.accounts, record.client_id).locked,
    ensures
        step(ledger, record, record_withdrawals).refusal == Some(
            LedgerError::DuplicateTransaction,
        ),
        step(ledger, record, record_withdrawals).ledger == untouched(ledger, record).ledger,
{
}

/// A deposit or a withdrawal that is not refused uses its transaction id,
/// unless its account is locked: the same id is refused from then on.
pub proof fn lemma_accepted_payment_uses_its_id(
    ledger: Ledger,
    record: Transaction,
    record_withdrawals: bool,
)
    requires
        record.category.moves_money(),
        !account_of(ledger.accounts, record.client_id).locked,
        step(ledger, record, record_withdrawals).refusal is None,
    ensures
        !ledger.used.contains(record.tx),
        step(ledger, record, record_withdrawals).ledger.used == ledger.used.insert(record.tx),
{
}

/// A stream of records without a reused transaction id, replayed from a
/// ledger without used ids, is never stopped for a duplicate.
pub proof fn lemma_unique_ids_are_not_refused_as_duplicates(
    accounts: Map<u16, Client>,
    records: Seq<Transaction>,
    record_withdrawals: bool,
    n: int,
)
    requires
        ids_are_unique(records),
        0 <= n <= records.len(),
    ensures
        replay(
            Ledger::starting_with(accounts),
            records.take(n),
            record_withdrawals,
        ).halt matches Some(halt) ==> halt.reason != LedgerError::DuplicateTransaction,
    decreases n,
{
    if n > 0 {
        lemma_unique_ids_are_not_refused_as_duplicates(accounts, records, record_withdrawals, n - 1);
        lemma_replay_keeps_used_ids_origin(accounts, records, record_withdrawals, n - 1);
        let earlier = records.take(n - 1);
        let record = records[n - 1];
        assert(records.take(n).drop_last() =~= earlier);
        assert(records.take(n).last() == record);
        let before = replay(Ledger::starting_with(accounts), earlier, record_withdrawals);
        if before.halt is None && record.category.moves_money() && before.ledger.used.contains(
            record.tx,
        ) {
            let i = choose|i: int|
                0 <= i < earlier.len() && (#[trigger] earlier[i]).tx == record.tx
                    && earlier[i].category.moves_money();
            assert(earlier[i] == records[i]);
            assert(records[i].tx != records[n - 1].tx);
        }
    }
}

/// Two ledgers that differ in nothing but the withdrawals that `with` keeps
/// in its history and `without` does not.
pub open spec fn same_but_for_withdrawals(with: Ledger, without: Ledger) -> bool {
    &&& with.accounts == without.accounts
    &&& with.disputes == without.disputes
    &&& with.used == without.used
    &&& forall|id: u32| #[trigger]
        without.history.contains_key(id) ==> with.history.contains_key(id) && with.history[id]
            == without.history[id]
    &&& forall|id: u32| #[trigger]
        with.history.contains_key(id) && !without.history.contains_key(id) ==> !(
        with.history[id].category is Deposit)
    &&& forall|id: u32| #[trigger] with.history.contains_key(id) ==> with.used.contains(id)
}

/// One record has the same effect with and without the recording of
/// withdrawals.
proof fn lemma_step_ignores_recorded_withdrawals(
    with: Ledger,
    without: Ledger,
    record: Transaction,
)
    requires
        same_but_for_withdrawals(with, without),
    ensures
        same_but_for_withdrawals(step(with, record, true).ledger, step(without, record, false).ledger),
        step(with, record, true).refusal == step(without, record, false).refusal,
{
}

/// After every prefix of a stream of records, the accounts, and the refusal
/// that stops the replay, are the same with and without the recording of
/// withdrawals.
proof fn lemma_replay_ignores_recorded_withdrawals(
    accounts: Map<u16, Client>,
    records: Seq<Transaction>,
    n: int,
)
    requires
        0 <= n <= records.len(),
    ensures
        ({
            let with = replay(Ledger::starting_with(accounts), records.take(n), true);
            let without = replay(Ledger::starting_with(accounts), records.take(n), false);
            &&& same_but_for_withdrawals(with.ledger, without.ledger)
            &&& with.halt == without.halt
        }),
    decreases n,
{
    if n > 0 {
        lemma_replay_ignores_recorded_withdrawals(accounts, records, n - 1);
        let start = Ledger::starting_with(accounts);
        let earlier = records.take(n - 1);
        assert(records.take(n).drop_last() =~= earlier);
        let with = replay(start, earlier, true);
        let without = replay(start, earlier, false);
        if with.halt is None {
            lemma_step_ignores_recorded_withdrawals(with.ledger, without.ledger, records[n - 1]);
        }
    }
}

/// Whether withdrawals are kept in the history makes no difference to a
/// replay that starts without history: the accounts it leaves, and the
/// refusal that stops it, are the same either way.
pub proof fn lemma_recorded_withdrawals_change_no_account(
    accounts: Map<u16, Client>,
    records: Seq<Transaction>,
)
    ensures
        replay(Ledger::starting_with(accounts), records, true).ledger.accounts == replay(
            Ledger::starting_with(accounts),
            records,
            false,
        ).ledger.accounts,
        replay(Ledger::starting_with(accounts), records, true).halt == replay(
            Ledger::starting_with(accounts),
            records,
            false,
        ).halt,
{
    lemma_replay_ignores_recorded_withdrawals(accounts, records, records.len() as int);
    assert(records.take(records.len() as int) =~= records);
}

} // verus!
