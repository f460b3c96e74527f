//! What the held funds stand for.
//!
//! The engine does not ask whose deposit a dispute, a resolution or a
//! chargeback refers to: the funds move on the account of the client that
//! the record names. Where every transaction id is used by one client only,
//! orderly input in other words, the held funds of a client always cover
//! the deposits of that client that are under dispute, and so never fall
//! below zero.
use crate::account::Client;
use crate::engine::{account_of, replay, step, Ledger};
use crate::laws::{amount_to_close, history_comes_from, lemma_replay_keeps_history_origin};
use crate::record::Transaction;
use vstd::prelude::*;

verus! {

/// The amount of transaction `id` if it is a disputed transaction of
/// `client_id`, and zero otherwise.
pub open spec fn disputed_amount(ledger: Ledger, client_id: u16, id: u32) -> int {
    if ledger.disputes.contains(id) && ledger.history.contains_key(id)
        && ledger.history[id].client_id == client_id && ledger.history[id].amount is Some {
        ledger.history[id].amount->0 as int
    } else {
        0
    }
}

/// The sum of the disputed amounts of `client_id` over the transaction ids
/// below `bound`.
pub open spec fn disputed_below(ledger: Ledger, client_id: u16, bound: nat) -> int
    decreases bound,
{
    if bound == 0 {
        0
    } else {
        disputed_below(ledger, client_id, (bound - 1) as nat) + disputed_amount(
            ledger,
            client_id,
            (bound - 1) as u32,
        )
    }
}

/// Everything of `client_id` that is under dispute.
pub open spec fn disputed_funds(ledger: Ledger, client_id: u16) -> int {
    disputed_below(ledger, client_id, 0x1_0000_0000)
}

/// Every recorded transaction carries an amount that is not negative, and
/// every disputed transaction is a recorded deposit.
pub open spec fn history_is_sound(ledger: Ledger) -> bool {
    &&& forall|id: u32| #[trigger]
        ledger.history.contains_key(id) ==> ledger.history[id].amount is Some
            && ledger.history[id].amount->0 >= 0
    &&& forall|id: u32| #[trigger]
        ledger.disputes.contains(id) ==> ledger.history.contains_key(id)
            && ledger.history[id].category is Deposit
}

/// The held funds of every client cover what of that client is under
/// dispute.
pub open spec fn held_covers_disputes(ledger: Ledger) -> bool {
    forall|client_id: u16|
        account_of(ledger.accounts, client_id).held >= #[trigger] disputed_funds(
            ledger,
            client_id,
        )
}

/// No record in `earlier` uses the transaction id of `record` for another
/// client.
pub open spec fn keeps_to_owner(earlier: Seq<Transaction>, record: Transaction) -> bool {
    forall|i: int|
        0 <= i < earlier.len() && (#[trigger] earlier[i]).tx == record.tx ==> earlier[i].client_id
            == record.client_id
}

/// Every transaction id is used by one client only.
pub open spec fn one_client_per_id(records: Seq<Transaction>) -> bool {
    forall|i: int, j: int|
        0 <= i < records.len() && 0 <= j < records.len() && (#[trigger] records[i]).tx == (
        #[trigger] records[j]).tx ==> records[i].client_id == records[j].client_id
}

/// Two ledgers that agree on the disputed amounts of a client everywhere
/// but at `at` differ in the sum by what they differ in at `at`.
proof fn lemma_disputed_below_differs_at(
    before: Ledger,
    after: Ledger,
    client_id: u16,
    at: u32,
    bound: nat,
)
    requires
        bound <= 0x1_0000_0000,
        forall|id: u32|
            id != at ==> #[trigger] disputed_amount(after, client_id, id) == disputed_amount(
                before,
                client_id,
                id,
            ),
    ensures
        disputed_below(after, client_id, bound) == disputed_below(before, client_id, bound) + (
        if at < bound {
            disputed_amount(after, client_id, at) - disputed_amount(before, client_id, at)
        } else {
            0
        }),
    decreases bound,
{
    if bound > 0 {
        lemma_disputed_below_differs_at(before, after, client_id, at, (bound - 1) as nat);
    }
}

/// In a sound ledger no disputed amount is negative, so the sum is not, and
/// it is at least each of its terms.
proof fn lemma_disputed_below_bounds(ledger: Ledger, client_id: u16, at: u32, bound: nat)
    requires
        history_is_sound(ledger),
        bound <= 0x1_0000_0000,
    ensures
        disputed_below(ledger, client_id, bound) >= 0,
        at < bound ==> disputed_below(ledger, client_id, bound) >= disputed_amount(
            ledger,
            client_id,
            at,
        ),
    decreases bound,
{
    if bound > 0 {
        lemma_disputed_below_bounds(ledger, client_id, at, (bound - 1) as nat);
    }
}

/// One record keeps the history sound.
pub proof fn lemma_step_keeps_history_sound(
    ledger: Ledger,
    record: Transaction,
    record_withdrawals: bool,
)
    requires
        history_is_sound(ledger),
    ensures
        history_is_sound(step(ledger, record, record_withdrawals).ledger),
{
}

/// One record that keeps to the owner of the transaction it refers to keeps
/// the held funds of `client_id` above what of that client is under dispute.
proof fn lemma_step_keeps_held_cover(
    ledger: Ledger,
    earlier: Seq<Transaction>,
    record: Transaction,
    record_withdrawals: bool,
    client_id: u16,
)
    requires
        history_is_sound(ledger),
        history_comes_from(ledger, earlier),
        keeps_to_owner(earlier, record),
        account_of(ledger.accounts, client_id).held >= disputed_funds(ledger, client_id),
    ensures
        ({
            let after = step(ledger, record, record_withdrawals).ledger;
            account_of(after.accounts, client_id).held >= disputed_funds(after, client_id)
        }),
{
    let after = step(ledger, record, record_withdrawals).ledger;
    let at = record.tx;
    if ledger.history.contains_key(at) {
        let i = choose|i: int| 0 <= i < earlier.len() && #[trigger] earlier[i] == ledger.history[at];
        assert(ledger.history[at].client_id == record.client_id);
    }
    assert forall|id: u32| id != at implies #[trigger] disputed_amount(after, client_id, id)
        == disputed_amount(ledger, client_id, id) by {}
    lemma_disputed_below_differs_at(ledger, after, client_id, at, 0x1_0000_0000);
    lemma_disputed_below_bounds(ledger, client_id, at, 0x1_0000_0000);
}

/// One record that keeps to the owner of the transaction it refers to keeps
/// the held funds above the disputes.
pub proof fn lemma_step_keeps_holdings(
    ledger: Ledger,
    earlier: Seq<Transaction>,
    record: Transaction,
    record_withdrawals: bool,
)
    requires
        history_is_sound(ledger),
        history_comes_from(ledger, earlier),
        held_covers_disputes(ledger),
        keeps_to_owner(earlier, record),
    ensures
        held_covers_disputes(step(ledger, record, record_withdrawals).ledger),
{
    let after = step(ledger, record, record_withdrawals).ledger;
    assert forall|client_id: u16|
        account_of(after.accounts, client_id).held >= #[trigger] disputed_funds(
            after,
            client_id,
        ) by {
        assert(account_of(ledger.accounts, client_id).held >= disputed_funds(ledger, client_id));
        lemma_step_keeps_held_cover(ledger, earlier, record, record_withdrawals, client_id);
    }
}

/// Where nothing is under dispute, the disputed funds of every client are
/// zero.
proof fn lemma_nothing_disputed(ledger: Ledger, client_id: u16, bound: nat)
    requires
        ledger.disputes =~= Set::<u32>::empty(),
    ensures
        disputed_below(ledger, client_id, bound) == 0,
    decreases bound,
{
    if bound > 0 {
        lemma_nothing_disputed(ledger, client_id, (bound - 1) as nat);
    }
}

/// After any prefix of any stream of records that is replayed from an empty
/// history, the history is sound: the engine never comes upon a recorded
/// transaction without a valid amount, or upon a dispute on anything but a
/// recorded deposit.
pub proof fn lemma_replay_keeps_history_sound(
    accounts: Map<u16, Client>,
    records: Seq<Transaction>,
    record_withdrawals: bool,
    n: int,
)
    requires
        0 <= n <= records.len(),
    ensures
        history_is_sound(
            replay(Ledger::starting_with(accounts), records.take(n), record_withdrawals).ledger,
        ),
    decreases n,
{
    if n == 0 {
        assert(records.take(0) =~= Seq::<Transaction>::empty());
    } else {
        lemma_replay_keeps_history_sound(accounts, records, record_withdrawals, n - 1);
        let earlier = records.take(n - 1);
        assert(records.take(n).drop_last() =~= earlier);
        let before = replay(Ledger::starting_with(accounts), earlier, record_withdrawals);
        if before.halt is None {
            lemma_step_keeps_history_sound(before.ledger, records[n - 1], record_withdrawals);
        }
    }
}

/// A stream of records in which every transaction id is used by one client
/// only, replayed from accounts without negative held funds, keeps at every
/// prefix held funds that cover the disputes.
pub proof fn lemma_replay_keeps_holdings(
    accounts: Map<u16, Client>,
    records: Seq<Transaction>,
    record_withdrawals: bool,
    n: int,
)
    requires
        forall|id: u16| accounts.contains_key(id) ==> (#[trigger] accounts[id]).held >= 0,
        one_client_per_id(records),
        0 <= n <= records.len(),
    ensures
        held_covers_disputes(
            replay(Ledger::starting_with(accounts), records.take(n), record_withdrawals).ledger,
        ),
    decreases n,
{
    let start = Ledger::starting_with(accounts);
    if n == 0 {
        assert(records.take(0) =~= Seq::<Transaction>::empty());
        assert forall|client_id: u16|
            account_of(start.accounts, client_id).held >= #[trigger] disputed_funds(
                start,
                client_id,
            ) by {
            lemma_nothing_disputed(start, client_id, 0x1_0000_0000);
        }
    } else {
        lemma_replay_keeps_holdings(accounts, records, record_withdrawals, n - 1);
        lemma_replay_keeps_history_sound(accounts, records, record_withdrawals, n - 1);
        lemma_replay_keeps_history_origin(accounts, records, record_withdrawals, n - 1);
        let earlier = records.take(n - 1);
        assert(records.take(n).drop_last() =~= earlier);
        let before = replay(start, earlier, record_withdrawals);
        if before.halt is None {
            assert forall|i: int|
                0 <= i < earlier.len() && (#[trigger] earlier[i]).tx == records[n - 1].tx implies earlier[i].client_id
                == records[n - 1].client_id by {
                assert(earlier[i] == records[i]);
            }
            lemma_step_keeps_holdings(before.ledger, earlier, records[n - 1], record_withdrawals);
        }
    }
}

/// In a stream of records in which every transaction id is used by one
/// client only, replayed from accounts without negative held funds, the
/// held funds of no client ever fall below zero.
pub proof fn lemma_held_never_negative(
    accounts: Map<u16, Client>,
    records: Seq<Transaction>,
    record_withdrawals: bool,
    n: int,
    client_id: u16,
)
    requires
        forall|id: u16| accounts.contains_key(id) ==> (#[trigger] accounts[id]).held >= 0,
        one_client_per_id(records),
        0 <= n <= records.len(),
    ensures
        account_of(
            replay(
                Ledger::starting_with(accounts),
                records.take(n),
                record_withdrawals,
            ).ledger.accounts,
            client_id,
        ).held >= 0,
{
    lemma_replay_keeps_holdings(accounts, records, record_withdrawals, n);
    lemma_replay_keeps_history_sound(accounts, records, record_withdrawals, n);
    let ledger = replay(Ledger::starting_with(accounts), records.take(n), record_withdrawals).ledger;
    assert(account_of(ledger.accounts, client_id).held >= disputed_funds(ledger, client_id));
    lemma_disputed_below_bounds(ledger, client_id, 0, 0x1_0000_0000);
}

/// In a stream of records in which every transaction id is used by one
/// client only, replayed from accounts without negative held funds, the
/// held funds of a client cover whatever a resolution or a chargeback of
/// that client is about to take out of them.
pub proof fn lemma_held_covers_what_is_closed(
    accounts: Map<u16, Client>,
    records: Seq<Transaction>,
    record_withdrawals: bool,
    n: int,
)
    requires
        forall|id: u16| accounts.contains_key(id) ==> (#[trigger] accounts[id]).held >= 0,
        one_client_per_id(records),
        0 <= n < records.len(),
    ensures
        ({
            let ledger = replay(
                Ledger::starting_with(accounts),
                records.take(n),
                record_withdrawals,
            ).ledger;
            amount_to_close(ledger, records[n].tx) <= account_of(
                ledger.accounts,
                records[n].client_id,
            ).held
        }),
{
    lemma_replay_keeps_holdings(accounts, records, record_withdrawals, n);
    lemma_replay_keeps_history_sound(accounts, records, record_withdrawals, n);
    lemma_replay_keeps_history_origin(accounts, records, record_withdrawals, n);
    let earlier = records.take(n);
    let ledger = replay(Ledger::starting_with(accounts), earlier, record_withdrawals).ledger;
    let record = records[n];
    assert(account_of(ledger.accounts, record.client_id).held >= disputed_funds(
        ledger,
        record.client_id,
    ));
    lemma_disputed_below_bounds(ledger, record.client_id, record.tx, 0x1_0000_0000);
    if ledger.history.contains_key(record.tx) {
        let i = choose|i: int|
            0 <= i < earlier.len() && #[trigger] earlier[i] == ledger.history[record.tx];
        assert(earlier[i] == records[i]);
    }
}

} // verus!
