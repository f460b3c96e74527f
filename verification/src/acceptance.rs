//! When a stream of records is accepted.
//!
//! The engine refuses a deposit or a withdrawal without a valid amount or
//! under a used transaction id, and any record that would take a balance
//! out of the range of `i64`. It refuses nothing else: a stream of records
//! with valid amounts and without a reused id, too short and too modest to
//! reach the ends of the range, is replayed to its end.
use crate::account::Client;
use crate::engine::{account_of, replay, step, Ledger};
use crate::laws::{lemma_replay_keeps_used_ids_origin, used_ids_come_from};
use crate::record::{ids_are_unique, Transaction};
use vstd::prelude::*;

verus! {

/// Every deposit and withdrawal among `records` carries an amount between
/// zero and `most`.
pub open spec fn amounts_within(records: Seq<Transaction>, most: int) -> bool {
    forall|i: int|
        0 <= i < records.len() && (#[trigger] records[i]).category.moves_money()
            ==> records[i].amount is Some && 0 <= records[i].amount->0 <= most
}

/// Every balance of the account lies between `-bound` and `bound`.
pub open spec fn balances_within(account: Client, bound: int) -> bool {
    &&& -bound <= account.available <= bound
    &&& -bound <= account.held <= bound
    &&& -bound <= account.total <= bound
}

/// Every balance of every account lies between `-bound` and `bound`, and
/// every recorded amount between zero and `most`.
pub open spec fn ledger_within(ledger: Ledger, bound: int, most: int) -> bool {
    &&& forall|id: u16| balances_within(#[trigger] account_of(ledger.accounts, id), bound)
    &&& forall|id: u32| #[trigger]
        ledger.history.contains_key(id) ==> ledger.history[id].amount is Some && 0
            <= ledger.history[id].amount->0 <= most
}

/// A record with a valid amount of at most `most` and, if it is a deposit
/// or a withdrawal, a new transaction id is not refused where the balances
/// are at least `most` away from the ends of the range, and moves no balance
/// by more than `most`.
pub proof fn lemma_step_accepts(
    ledger: Ledger,
    record: Transaction,
    record_withdrawals: bool,
    bound: int,
    most: int,
)
    requires
        0 <= bound,
        0 <= most,
        bound + most <= i64::MAX,
        ledger_within(ledger, bound, most),
        record.category.moves_money() ==> record.amount is Some && 0 <= record.amount->0 <= most,
        record.category.moves_money() ==> !ledger.used.contains(record.tx),
    ensures
        step(ledger, record, record_withdrawals).refusal is None,
        ledger_within(step(ledger, record, record_withdrawals).ledger, bound + most, most),
{
    let after = step(ledger, record, record_withdrawals).ledger;
    assert(balances_within(account_of(ledger.accounts, record.client_id), bound));
    assert forall|id: u16| balances_within(
        #[trigger] account_of(after.accounts, id),
        bound + most,
    ) by {
        assert(balances_within(account_of(ledger.accounts, id), bound));
    }
}

/// A stream of records with valid amounts of at most `most` each and
/// without a reused transaction id, so short that as many amounts of `most`
/// still fit in an `i64`, is replayed from empty accounts to its end: no
/// record of it is refused.
pub proof fn lemma_modest_stream_is_accepted(
    records: Seq<Transaction>,
    record_withdrawals: bool,
    most: int,
    n: int,
)
    requires
        0 <= most,
        amounts_within(records, most),
        ids_are_unique(records),
        records.len() * most <= i64::MAX,
        0 <= n <= records.len(),
    ensures
        replay(
            Ledger::starting_with(Map::empty()),
            records.take(n),
            record_withdrawals,
        ).halt is None,
        ledger_within(
            replay(
                Ledger::starting_with(Map::empty()),
                records.take(n),
                record_withdrawals,
            ).ledger,
            n * most,
            most,
        ),
    decreases n,
{
    if n == 0 {
        assert(records.take(0) =~= Seq::<Transaction>::empty());
    } else {
        lemma_modest_stream_is_accepted(records, record_withdrawals, most, n - 1);
        let earlier = records.take(n - 1);
        assert(records.take(n).drop_last() =~= earlier);
        assert(records.take(n).last() == records[n - 1]);
        assert((n - 1) * most + most == n * most) by (nonlinear_arith);
        assert(0 <= (n - 1) * most && n * most <= records.len() * most) by (nonlinear_arith)
            requires
                0 <= most,
                1 <= n <= records.len(),
        ;
        let before = replay(Ledger::starting_with(Map::empty()), earlier, record_withdrawals);
        lemma_replay_keeps_used_ids_origin(Map::empty(), records, record_withdrawals, n - 1);
        assert(used_ids_come_from(before.ledger, earlier));
        let record = records[n - 1];
        if record.category.moves_money() && before.ledger.used.contains(record.tx) {
            let i = choose|i: int|
                0 <= i < earlier.len() && (#[trigger] earlier[i]).tx == record.tx
                    && earlier[i].category.moves_money();
            assert(earlier[i] == records[i]);
            assert(records[i].tx != records[n - 1].tx);
        }
        lemma_step_accepts(before.ledger, records[n - 1], record_withdrawals, (n - 1) * most, most);
    }
}

} // verus!
