//! The engine on records built by hand.
use ledger_engine::engine::{close_dispute, is_disputed, lookup_history, open_dispute};
use ledger_engine::{
    apply, charge_back, deposit, dispute, get_or_create, process_transactions,
    process_transactions_with, record_history, resolve, withdraw, Client, LedgerError, Rejection,
    Transaction, TransactionCategory,
};
use std::collections::{HashMap, HashSet};

fn record(
    category: TransactionCategory,
    client_id: u16,
    tx: u32,
    amount: Option<i64>,
) -> Transaction {
    Transaction { category, client_id, tx, amount }
}

fn deposit_of(client_id: u16, tx: u32, amount: i64) -> Transaction {
    record(TransactionCategory::Deposit, client_id, tx, Some(amount))
}

fn withdrawal_of(client_id: u16, tx: u32, amount: i64) -> Transaction {
    record(TransactionCategory::Withdrawal, client_id, tx, Some(amount))
}

fn dispute_of(client_id: u16, tx: u32) -> Transaction {
    record(TransactionCategory::Dispute, client_id, tx, None)
}

fn resolve_of(client_id: u16, tx: u32) -> Transaction {
    record(TransactionCategory::Resolve, client_id, tx, None)
}

fn chargeback_of(client_id: u16, tx: u32) -> Transaction {
    record(TransactionCategory::Chargeback, client_id, tx, None)
}

fn account(available: i64, held: i64, total: i64, locked: bool) -> Client {
    Client { available, held, total, locked }
}

fn replayed(records: &[Transaction]) -> HashMap<u16, Client> {
    let mut clients: HashMap<u16, Client> = HashMap::new();
    process_transactions(&records.to_vec(), &mut clients).unwrap();
    clients
}

#[test]
fn a_fresh_account_is_empty_and_unlocked() {
    assert_eq!(Client::default(), account(0, 0, 0, false));
}

#[test]
fn deposits_and_withdrawals() {
    let clients = replayed(&[
        deposit_of(1, 1, 10_000),
        deposit_of(1, 2, 20_000),
        withdrawal_of(1, 3, 15_000),
        withdrawal_of(1, 4, 30_000),
        deposit_of(2, 5, 20_000),
    ]);
    assert_eq!(clients.get(&1), Some(&account(15_000, 0, 15_000, false)));
    assert_eq!(clients.get(&2), Some(&account(20_000, 0, 20_000, false)));
    assert_eq!(clients.len(), 2);
}

#[test]
fn a_dispute_holds_the_deposit() {
    let clients = replayed(&[deposit_of(1, 1, 10_000), deposit_of(1, 2, 10_000), dispute_of(1, 1)]);
    assert_eq!(clients.get(&1), Some(&account(10_000, 10_000, 20_000, false)));
}

#[test]
fn a_resolution_releases_the_deposit() {
    let clients = replayed(&[
        deposit_of(1, 1, 10_000),
        deposit_of(1, 2, 10_000),
        dispute_of(1, 1),
        resolve_of(1, 1),
    ]);
    assert_eq!(clients.get(&1), Some(&account(20_000, 0, 20_000, false)));
}

#[test]
fn a_chargeback_removes_the_deposit_and_locks() {
    let clients = replayed(&[
        deposit_of(1, 1, 10_000),
        deposit_of(1, 2, 10_000),
        dispute_of(1, 1),
        chargeback_of(1, 1),
        deposit_of(1, 3, 50_000),
    ]);
    assert_eq!(clients.get(&1), Some(&account(10_000, 0, 10_000, true)));
}

#[test]
fn a_locked_account_ignores_every_kind_of_record() {
    let mut clients: HashMap<u16, Client> = HashMap::new();
    clients.insert(1, account(10_000, 20_000, 30_000, true));
    let records: Vec<Transaction> = vec![
        deposit_of(1, 1, 10_000),
        withdrawal_of(1, 2, 5_000),
        dispute_of(1, 1),
        resolve_of(1, 1),
        chargeback_of(1, 1),
        record(TransactionCategory::Deposit, 1, 3, None),
        deposit_of(1, 4, -1),
    ];
    assert_eq!(process_transactions(&records, &mut clients), Ok(()));
    assert_eq!(clients.get(&1), Some(&account(10_000, 20_000, 30_000, true)));
}

#[test]
fn a_resolved_deposit_can_be_disputed_again() {
    let clients = replayed(&[
        deposit_of(1, 1, 10_000),
        dispute_of(1, 1),
        resolve_of(1, 1),
        dispute_of(1, 1),
    ]);
    assert_eq!(clients.get(&1), Some(&account(0, 10_000, 10_000, false)));
}

#[test]
fn a_withdrawal_of_everything_is_paid() {
    let clients = replayed(&[deposit_of(1, 1, 10_000), withdrawal_of(1, 2, 10_000)]);
    assert_eq!(clients.get(&1), Some(&account(0, 0, 0, false)));
}

#[test]
fn a_deposit_of_nothing_is_accepted() {
    let clients = replayed(&[deposit_of(1, 1, 0)]);
    assert_eq!(clients.get(&1), Some(&account(0, 0, 0, false)));
}

#[test]
fn a_dispute_may_take_available_below_zero() {
    let clients = replayed(&[deposit_of(1, 1, 10_000), withdrawal_of(1, 2, 10_000), dispute_of(1, 1)]);
    assert_eq!(clients.get(&1), Some(&account(-10_000, 10_000, 0, false)));
}

#[test]
fn a_withdrawal_is_never_disputable() {
    for record_withdrawals in [false, true] {
        let mut clients: HashMap<u16, Client> = HashMap::new();
        let records: Vec<Transaction> =
            vec![deposit_of(1, 1, 10_000), withdrawal_of(1, 2, 4_000), dispute_of(1, 2)];
        assert_eq!(process_transactions_with(&records, &mut clients, record_withdrawals), Ok(()));
        assert_eq!(clients.get(&1), Some(&account(6_000, 0, 6_000, false)));
    }
}

#[test]
fn a_second_deposit_under_one_id_is_refused() {
    let records: Vec<Transaction> = vec![deposit_of(1, 1, 10_000), deposit_of(1, 1, 20_000)];
    let mut clients: HashMap<u16, Client> = HashMap::new();
    assert_eq!(
        process_transactions(&records, &mut clients),
        Err(Rejection { index: 1, reason: LedgerError::DuplicateTransaction })
    );
    assert_eq!(clients.get(&1), Some(&account(10_000, 0, 10_000, false)));
    assert_eq!(clients.len(), 1);
}

#[test]
fn a_reused_id_stops_the_replay_whatever_is_recorded() {
    let records: Vec<Transaction> = vec![
        deposit_of(1, 1, 10_000),
        withdrawal_of(1, 7, 4_000),
        dispute_of(1, 1),
        deposit_of(2, 7, 2_000),
        deposit_of(1, 8, 500),
    ];
    for record_withdrawals in [false, true] {
        let mut clients: HashMap<u16, Client> = HashMap::new();
        assert_eq!(
            process_transactions_with(&records, &mut clients, record_withdrawals),
            Err(Rejection { index: 3, reason: LedgerError::DuplicateTransaction })
        );
        assert_eq!(clients.get(&1), Some(&account(-4_000, 10_000, 6_000, false)));
        assert_eq!(clients.get(&2), Some(&Client::default()));
    }
}

#[test]
fn every_pair_of_deposit_and_withdrawal_under_one_id_is_refused() {
    let first = [deposit_of(1, 5, 10_000), withdrawal_of(1, 5, 0), withdrawal_of(1, 5, 70_000)];
    let second = [deposit_of(2, 5, 1), withdrawal_of(1, 5, 1), withdrawal_of(2, 5, 1)];
    for earlier in first {
        for later in second {
            let mut clients: HashMap<u16, Client> = HashMap::new();
            assert_eq!(
                process_transactions(&vec![earlier, dispute_of(3, 5), later], &mut clients),
                Err(Rejection { index: 2, reason: LedgerError::DuplicateTransaction })
            );
        }
    }
}

#[test]
fn a_reused_id_is_reported_before_a_missing_amount() {
    let records: Vec<Transaction> =
        vec![deposit_of(1, 1, 10_000), record(TransactionCategory::Withdrawal, 1, 1, None)];
    let mut clients: HashMap<u16, Client> = HashMap::new();
    assert_eq!(
        process_transactions(&records, &mut clients),
        Err(Rejection { index: 1, reason: LedgerError::DuplicateTransaction })
    );
}

#[test]
fn a_locked_account_ignores_a_reused_id_too() {
    let mut clients: HashMap<u16, Client> = HashMap::new();
    clients.insert(1, account(0, 0, 0, true));
    let records: Vec<Transaction> = vec![
        deposit_of(2, 1, 10_000),
        deposit_of(1, 1, 500),
        deposit_of(1, 2, 500),
        deposit_of(2, 2, 300),
    ];
    assert_eq!(process_transactions(&records, &mut clients), Ok(()));
    assert_eq!(clients.get(&1), Some(&account(0, 0, 0, true)));
    assert_eq!(clients.get(&2), Some(&account(10_300, 0, 10_300, false)));
}

#[test]
fn a_refused_record_does_not_use_its_id() {
    let mut clients: HashMap<u16, Client> = HashMap::new();
    let mut history: HashMap<u32, Transaction> = HashMap::new();
    let mut disputes: HashSet<u32> = HashSet::new();
    let mut used: HashSet<u32> = HashSet::new();
    assert_eq!(
        apply(&deposit_of(1, 1, -5), &mut clients, &mut history, &mut disputes, &mut used, false),
        Err(LedgerError::InvalidAmount)
    );
    assert!(used.is_empty());
    assert_eq!(
        apply(&deposit_of(1, 1, 5), &mut clients, &mut history, &mut disputes, &mut used, false),
        Ok(())
    );
    assert!(used.contains(&1));
    assert_eq!(
        apply(&deposit_of(1, 1, 5), &mut clients, &mut history, &mut disputes, &mut used, false),
        Err(LedgerError::DuplicateTransaction)
    );
    assert_eq!(clients.get(&1), Some(&account(5, 0, 5, false)));
    assert_eq!(history.get(&1), Some(&deposit_of(1, 1, 5)));
    assert_eq!(used.len(), 1);
}

#[test]
fn an_unpaid_withdrawal_uses_its_id_and_is_not_recorded() {
    let mut clients: HashMap<u16, Client> = HashMap::new();
    let mut history: HashMap<u32, Transaction> = HashMap::new();
    let mut disputes: HashSet<u32> = HashSet::new();
    let mut used: HashSet<u32> = HashSet::new();
    assert_eq!(
        apply(&withdrawal_of(1, 7, 4_000), &mut clients, &mut history, &mut disputes, &mut used, true),
        Ok(())
    );
    assert!(history.is_empty());
    assert!(used.contains(&7));
    assert_eq!(clients.get(&1), Some(&Client::default()));
    assert_eq!(
        apply(&deposit_of(1, 7, 2_000), &mut clients, &mut history, &mut disputes, &mut used, true),
        Err(LedgerError::DuplicateTransaction)
    );
    assert_eq!(clients.get(&1), Some(&Client::default()));
}

#[test]
fn a_paid_withdrawal_is_recorded_on_request_only() {
    for record_withdrawals in [false, true] {
        let mut clients: HashMap<u16, Client> = HashMap::new();
        let mut history: HashMap<u32, Transaction> = HashMap::new();
        let mut disputes: HashSet<u32> = HashSet::new();
        let mut used: HashSet<u32> = HashSet::new();
        for record in [deposit_of(1, 1, 10_000), withdrawal_of(1, 2, 4_000)] {
            assert_eq!(
                apply(&record, &mut clients, &mut history, &mut disputes, &mut used, record_withdrawals),
                Ok(())
            );
        }
        assert_eq!(history.get(&1), Some(&deposit_of(1, 1, 10_000)));
        assert_eq!(history.contains_key(&2), record_withdrawals);
        assert_eq!(used.len(), 2);
    }
}

#[test]
fn the_first_record_of_an_id_stays_in_the_history() {
    // A history that holds a record under an id that no deposit or
    // withdrawal has used here: the deposit is accepted, the record stays.
    let mut clients: HashMap<u16, Client> = HashMap::new();
    let mut history: HashMap<u32, Transaction> = HashMap::new();
    let mut disputes: HashSet<u32> = HashSet::new();
    let mut used: HashSet<u32> = HashSet::new();
    history.insert(7, withdrawal_of(1, 7, 4_000));
    for record in [deposit_of(1, 7, 2_000), dispute_of(1, 7)] {
        assert_eq!(
            apply(&record, &mut clients, &mut history, &mut disputes, &mut used, false),
            Ok(())
        );
    }
    assert_eq!(history.get(&7), Some(&withdrawal_of(1, 7, 4_000)));
    assert_eq!(clients.get(&1), Some(&account(2_000, 0, 2_000, false)));
    assert!(disputes.is_empty());
}

#[test]
fn references_to_unknown_transactions_create_the_account_and_nothing_else() {
    let clients = replayed(&[dispute_of(9, 1), resolve_of(8, 1), chargeback_of(7, 1)]);
    assert_eq!(clients.get(&9), Some(&Client::default()));
    assert_eq!(clients.get(&8), Some(&Client::default()));
    assert_eq!(clients.get(&7), Some(&Client::default()));
}

#[test]
fn a_second_dispute_changes_nothing() {
    let mut clients: HashMap<u16, Client> = HashMap::new();
    let mut history: HashMap<u32, Transaction> = HashMap::new();
    let mut disputes: HashSet<u32> = HashSet::new();
    let mut used: HashSet<u32> = HashSet::new();
    for record in [deposit_of(1, 1, 10_000), dispute_of(1, 1)] {
        assert_eq!(
            apply(&record, &mut clients, &mut history, &mut disputes, &mut used, false),
            Ok(())
        );
    }
    let (clients_before, history_before, disputes_before, used_before) =
        (clients.clone(), history.clone(), disputes.clone(), used.clone());
    assert_eq!(
        apply(&dispute_of(1, 1), &mut clients, &mut history, &mut disputes, &mut used, false),
        Ok(())
    );
    assert_eq!(clients, clients_before);
    assert_eq!(history, history_before);
    assert_eq!(disputes, disputes_before);
    assert_eq!(used, used_before);
}

#[test]
fn closing_without_a_dispute_changes_nothing() {
    let mut clients: HashMap<u16, Client> = HashMap::new();
    let mut history: HashMap<u32, Transaction> = HashMap::new();
    let mut disputes: HashSet<u32> = HashSet::new();
    let mut used: HashSet<u32> = HashSet::new();
    assert_eq!(
        apply(&deposit_of(1, 1, 10_000), &mut clients, &mut history, &mut disputes, &mut used, false),
        Ok(())
    );
    let (clients_before, history_before, disputes_before, used_before) =
        (clients.clone(), history.clone(), disputes.clone(), used.clone());
    for record in [resolve_of(1, 1), chargeback_of(1, 1), resolve_of(1, 2), chargeback_of(1, 2)] {
        assert_eq!(
            apply(&record, &mut clients, &mut history, &mut disputes, &mut used, false),
            Ok(())
        );
        assert_eq!(clients, clients_before);
        assert_eq!(history, history_before);
        assert_eq!(disputes, disputes_before);
        assert_eq!(used, used_before);
    }
}

#[test]
fn total_is_available_plus_held_after_every_prefix() {
    let records: Vec<Transaction> = vec![
        deposit_of(1, 1, 10_000),
        deposit_of(2, 2, 25_000),
        withdrawal_of(1, 3, 2_500),
        dispute_of(1, 1),
        dispute_of(2, 2),
        resolve_of(2, 2),
        withdrawal_of(2, 4, 30_000),
        chargeback_of(1, 1),
        deposit_of(1, 5, 1),
    ];
    for length in 0..=records.len() {
        let mut clients: HashMap<u16, Client> = HashMap::new();
        assert_eq!(process_transactions(&records[..length].to_vec(), &mut clients), Ok(()));
        for client in clients.values() {
            assert_eq!(client.total, client.available + client.held);
        }
    }
}

#[test]
fn a_locked_account_stays_as_it_is_under_any_later_record() {
    let mut records: Vec<Transaction> =
        vec![deposit_of(1, 1, 10_000), dispute_of(1, 1), chargeback_of(1, 1)];
    let locked = *replayed(&records).get(&1).unwrap();
    assert_eq!(locked, account(0, 0, 0, true));
    for later in [
        deposit_of(1, 2, 10_000),
        withdrawal_of(1, 3, 1),
        dispute_of(1, 1),
        resolve_of(1, 1),
        chargeback_of(1, 1),
        deposit_of(2, 4, 10_000),
        dispute_of(2, 1),
    ] {
        records.push(later);
        assert_eq!(replayed(&records).get(&1), Some(&locked));
    }
}

#[test]
fn a_deposit_without_amount_stops_the_replay() {
    let records: Vec<Transaction> = vec![
        deposit_of(1, 1, 10_000),
        record(TransactionCategory::Deposit, 2, 2, None),
        deposit_of(1, 3, 10_000),
    ];
    let mut clients: HashMap<u16, Client> = HashMap::new();
    assert_eq!(
        process_transactions(&records, &mut clients),
        Err(Rejection { index: 1, reason: LedgerError::InvalidAmount })
    );
    assert_eq!(clients.get(&1), Some(&account(10_000, 0, 10_000, false)));
    assert_eq!(clients.get(&2), Some(&Client::default()));
}

#[test]
fn a_withdrawal_without_amount_stops_the_replay() {
    let records: Vec<Transaction> = vec![record(TransactionCategory::Withdrawal, 1, 1, None)];
    let mut clients: HashMap<u16, Client> = HashMap::new();
    assert_eq!(
        process_transactions(&records, &mut clients),
        Err(Rejection { index: 0, reason: LedgerError::InvalidAmount })
    );
}

#[test]
fn deposit_adds_to_available_and_total() {
    let mut client = account(5, 7, 12, false);
    assert_eq!(deposit(3, &mut client), Ok(()));
    assert_eq!(client, account(8, 7, 15, false));
}

#[test]
fn deposit_refuses_a_negative_amount() {
    let mut client = account(5, 7, 12, false);
    assert_eq!(deposit(-1, &mut client), Err(LedgerError::InvalidAmount));
    assert_eq!(client, account(5, 7, 12, false));
}

#[test]
fn deposit_refuses_to_overflow() {
    let mut client = account(i64::MAX - 2, 0, i64::MAX - 2, false);
    assert_eq!(deposit(3, &mut client), Err(LedgerError::BalanceOutOfRange));
    assert_eq!(client, account(i64::MAX - 2, 0, i64::MAX - 2, false));
    assert_eq!(deposit(2, &mut client), Ok(()));
    assert_eq!(client, account(i64::MAX, 0, i64::MAX, false));
}

#[test]
fn withdraw_pays_what_is_covered() {
    let mut client = account(5, 7, 12, false);
    assert_eq!(withdraw(5, &mut client), Ok(true));
    assert_eq!(client, account(0, 7, 7, false));
    assert_eq!(withdraw(1, &mut client), Ok(false));
    assert_eq!(client, account(0, 7, 7, false));
    assert_eq!(withdraw(-1, &mut client), Err(LedgerError::InvalidAmount));
    assert_eq!(client, account(0, 7, 7, false));
}

#[test]
fn withdraw_refuses_to_underflow_the_total() {
    let mut client = account(5, i64::MIN, i64::MIN + 5, false);
    assert_eq!(withdraw(5, &mut client), Ok(true));
    assert_eq!(client, account(0, i64::MIN, i64::MIN, false));
    let mut client = account(5, i64::MIN, i64::MIN + 4, false);
    assert_eq!(withdraw(5, &mut client), Err(LedgerError::BalanceOutOfRange));
    assert_eq!(client, account(5, i64::MIN, i64::MIN + 4, false));
}

#[test]
fn dispute_resolve_and_charge_back_on_their_own() {
    let mut history: HashMap<u32, Transaction> = HashMap::new();
    history.insert(1, deposit_of(1, 1, 40));
    history.insert(2, withdrawal_of(1, 2, 10));
    let mut disputes: HashSet<u32> = HashSet::new();
    let mut client = account(30, 0, 30, false);

    assert_eq!(dispute(2, &history, &mut disputes, &mut client), Ok(()));
    assert_eq!(dispute(3, &history, &mut disputes, &mut client), Ok(()));
    assert_eq!((client, disputes.len()), (account(30, 0, 30, false), 0));

    assert_eq!(dispute(1, &history, &mut disputes, &mut client), Ok(()));
    assert_eq!(client, account(-10, 40, 30, false));
    assert!(disputes.contains(&1));

    assert_eq!(resolve(1, &history, &mut disputes, &mut client), Ok(()));
    assert_eq!((client, disputes.len()), (account(30, 0, 30, false), 0));

    assert_eq!(charge_back(1, &history, &mut disputes, &mut client), Ok(()));
    assert_eq!(client, account(30, 0, 30, false));

    assert_eq!(dispute(1, &history, &mut disputes, &mut client), Ok(()));
    assert_eq!(charge_back(1, &history, &mut disputes, &mut client), Ok(()));
    assert_eq!((client, disputes.len()), (account(-10, 0, -10, true), 0));
}

#[test]
fn a_recorded_deposit_without_a_valid_amount_is_refused() {
    let mut history: HashMap<u32, Transaction> = HashMap::new();
    history.insert(1, record(TransactionCategory::Deposit, 1, 1, None));
    history.insert(2, deposit_of(1, 2, -5));
    let mut client = account(30, 0, 30, false);
    for id in [1, 2] {
        let mut disputes: HashSet<u32> = HashSet::new();
        assert_eq!(dispute(id, &history, &mut disputes, &mut client), Err(LedgerError::InvalidAmount));
        assert!(disputes.is_empty());
        disputes.insert(id);
        assert_eq!(resolve(id, &history, &mut disputes, &mut client), Err(LedgerError::InvalidAmount));
        assert_eq!(
            charge_back(id, &history, &mut disputes, &mut client),
            Err(LedgerError::InvalidAmount)
        );
        assert!(disputes.contains(&id));
        assert_eq!(client, account(30, 0, 30, false));
    }
}

#[test]
fn disputes_refuse_to_overflow() {
    let mut history: HashMap<u32, Transaction> = HashMap::new();
    history.insert(1, deposit_of(1, 1, 10));
    let mut disputes: HashSet<u32> = HashSet::new();
    let mut client = account(i64::MIN + 9, 0, i64::MIN + 9, false);
    assert_eq!(
        dispute(1, &history, &mut disputes, &mut client),
        Err(LedgerError::BalanceOutOfRange)
    );
    assert!(disputes.is_empty());
    disputes.insert(1);
    let mut client = account(i64::MAX - 9, 10, i64::MAX, false);
    assert_eq!(
        resolve(1, &history, &mut disputes, &mut client),
        Err(LedgerError::BalanceOutOfRange)
    );
    let mut client = account(0, i64::MIN + 9, i64::MIN + 9, false);
    assert_eq!(
        charge_back(1, &history, &mut disputes, &mut client),
        Err(LedgerError::BalanceOutOfRange)
    );
    assert_eq!(client, account(0, i64::MIN + 9, i64::MIN + 9, false));
    assert!(disputes.contains(&1));
}

#[test]
fn get_or_create_creates_once() {
    let mut clients: HashMap<u16, Client> = HashMap::new();
    assert_eq!(*get_or_create(&mut clients, 3), Client::default());
    get_or_create(&mut clients, 3).available = 5;
    assert_eq!(*get_or_create(&mut clients, 3), account(5, 0, 0, false));
    assert_eq!(clients.len(), 1);
}

#[test]
fn the_history_keeps_the_first_record_of_an_id() {
    let mut history: HashMap<u32, Transaction> = HashMap::new();
    assert_eq!(lookup_history(&history, 1), None);
    record_history(&mut history, 1, deposit_of(1, 1, 10));
    record_history(&mut history, 1, deposit_of(2, 1, 20));
    assert_eq!(lookup_history(&history, 1), Some(deposit_of(1, 1, 10)));
    assert_eq!(history.len(), 1);
}

#[test]
fn the_dispute_tracker_opens_and_closes() {
    let mut disputes: HashSet<u32> = HashSet::new();
    assert!(!is_disputed(&disputes, 4));
    open_dispute(&mut disputes, 4);
    open_dispute(&mut disputes, 4);
    assert!(is_disputed(&disputes, 4));
    close_dispute(&mut disputes, 5);
    assert!(is_disputed(&disputes, 4));
    close_dispute(&mut disputes, 4);
    assert!(!is_disputed(&disputes, 4));
}

#[test]
fn held_funds_go_negative_when_another_client_closes_a_dispute() {
    let clients = replayed(&[deposit_of(1, 1, 10_000), dispute_of(2, 1), resolve_of(1, 1)]);
    assert_eq!(clients.get(&1), Some(&account(20_000, -10_000, 10_000, false)));
    assert_eq!(clients.get(&2), Some(&account(-10_000, 10_000, 0, false)));
}

#[test]
fn a_chargeback_of_spent_funds_takes_the_total_below_zero() {
    let clients = replayed(&[
        deposit_of(1, 1, 10_000),
        withdrawal_of(1, 2, 10_000),
        dispute_of(1, 1),
        chargeback_of(1, 1),
    ]);
    assert_eq!(clients.get(&1), Some(&account(-10_000, 0, -10_000, true)));
}

#[test]
fn held_funds_stay_above_zero_when_each_id_has_one_client() {
    let records: Vec<Transaction> = vec![
        deposit_of(1, 1, 10_000),
        deposit_of(2, 2, 7_000),
        withdrawal_of(1, 3, 10_000),
        dispute_of(1, 1),
        dispute_of(2, 2),
        deposit_of(1, 4, 300),
        dispute_of(1, 4),
        resolve_of(1, 1),
        resolve_of(1, 1),
        chargeback_of(2, 2),
        resolve_of(2, 2),
        chargeback_of(1, 4),
        resolve_of(1, 4),
    ];
    for length in 0..=records.len() {
        let mut clients: HashMap<u16, Client> = HashMap::new();
        assert_eq!(process_transactions(&records[..length].to_vec(), &mut clients), Ok(()));
        for client in clients.values() {
            assert!(client.held >= 0);
        }
    }
    let clients = replayed(&records);
    assert_eq!(clients.get(&1), Some(&account(0, 0, 0, true)));
    assert_eq!(clients.get(&2), Some(&account(0, 0, 0, true)));
}

#[test]
fn recording_withdrawals_makes_no_difference_to_the_accounts() {
    let records: Vec<Transaction> = vec![
        deposit_of(1, 1, 10_000),
        withdrawal_of(1, 2, 4_000),
        withdrawal_of(1, 3, 40_000),
        dispute_of(1, 2),
        dispute_of(1, 3),
        dispute_of(1, 1),
        resolve_of(1, 2),
        chargeback_of(1, 1),
    ];
    let mut with: HashMap<u16, Client> = HashMap::new();
    let mut without: HashMap<u16, Client> = HashMap::new();
    assert_eq!(process_transactions_with(&records, &mut with, true), Ok(()));
    assert_eq!(process_transactions_with(&records, &mut without, false), Ok(()));
    assert_eq!(with, without);
    assert_eq!(with.get(&1), Some(&account(-4_000, 0, -4_000, true)));
}

#[test]
fn records_with_valid_amounts_are_all_accepted() {
    let records: Vec<Transaction> = vec![
        deposit_of(1, 1, i64::MAX / 8),
        dispute_of(2, 1),
        resolve_of(1, 1),
        dispute_of(2, 1),
        resolve_of(1, 1),
        withdrawal_of(1, 2, i64::MAX / 8),
        chargeback_of(3, 1),
        deposit_of(3, 3, 0),
    ];
    let mut clients: HashMap<u16, Client> = HashMap::new();
    assert_eq!(process_transactions(&records, &mut clients), Ok(()));
    let unit = i64::MAX / 8;
    assert_eq!(clients.get(&1), Some(&account(2 * unit, -2 * unit, 0, false)));
    assert_eq!(clients.get(&2), Some(&account(-2 * unit, 2 * unit, 0, false)));
    assert_eq!(clients.get(&3), Some(&account(0, 0, 0, false)));
}
