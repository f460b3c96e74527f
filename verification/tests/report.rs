//! Reports and whole runs.
use ledger_engine::{render_account, render_report, run, Client, DecodeError, LedgerError, Rejection, RunError};
use std::collections::HashMap;

fn account(available: i64, held: i64, total: i64, locked: bool) -> Client {
    Client { available, held, total, locked }
}

#[test]
fn an_account_is_one_line() {
    assert_eq!(render_account(1, &account(15_000, 0, 15_000, false)), "1,1.5000,0.0000,1.5000,false\n");
    assert_eq!(
        render_account(65_535, &account(-10_000, 10_001, 1, true)),
        "65535,-1.0000,1.0001,0.0001,true\n"
    );
    assert_eq!(render_account(0, &Client::default()), "0,0.0000,0.0000,0.0000,false\n");
}

#[test]
fn a_report_lists_the_accounts_by_client() {
    let mut clients: HashMap<u16, Client> = HashMap::new();
    assert_eq!(render_report(&clients), "client,available,held,total,locked\n");
    clients.insert(300, account(5, 0, 5, false));
    clients.insert(2, account(20_000, 0, 20_000, false));
    clients.insert(65_535, account(0, 0, 0, true));
    clients.insert(0, account(-1, 1, 0, false));
    assert_eq!(
        render_report(&clients),
        "client,available,held,total,locked\n\
         0,-0.0001,0.0001,0.0000,false\n\
         2,2.0000,0.0000,2.0000,false\n\
         300,0.0005,0.0000,0.0005,false\n\
         65535,0.0000,0.0000,0.0000,true\n"
    );
}

#[test]
fn a_run_goes_from_text_to_text() {
    let input = "type, client, tx, amount\n\
                 deposit, 1, 1, 1.0\n\
                 deposit, 2, 2, 2.0\n\
                 deposit, 1, 3, 2.0\n\
                 withdrawal, 1, 4, 1.5\n\
                 withdrawal, 2, 5, 3.0\n";
    assert_eq!(
        run(input.as_bytes()),
        Ok(String::from(
            "client,available,held,total,locked\n\
             1,1.5000,0.0000,1.5000,false\n\
             2,2.0000,0.0000,2.0000,false\n"
        ))
    );
}

#[test]
fn a_run_with_a_chargeback() {
    let input = "type,client,tx,amount\n\
                 deposit,1,1,1.0\n\
                 deposit,1,2,1.0\n\
                 dispute,1,1,\n\
                 chargeback,1,1,\n\
                 deposit,1,3,5.0\n";
    assert_eq!(
        run(input.as_bytes()),
        Ok(String::from("client,available,held,total,locked\n1,1.0000,0.0000,1.0000,true\n"))
    );
}

#[test]
fn a_deposit_without_amount_fails_the_run() {
    let input = "type,client,tx,amount\ndeposit,1,1,1.0\ndeposit,1,2,\n";
    assert_eq!(run(input.as_bytes()), Err(RunError::Input(DecodeError::MalformedRecord(1))));
}

#[test]
fn a_refused_record_fails_the_run() {
    let input = "type,client,tx,amount\ndeposit,1,1,1.0\nwithdrawal,1,2,-0.5\n";
    assert_eq!(
        run(input.as_bytes()),
        Err(RunError::Rejected(Rejection { index: 1, reason: LedgerError::InvalidAmount }))
    );
}

#[test]
fn undecodable_input_fails_the_run() {
    assert_eq!(run(b"type,client\n"), Err(RunError::Input(DecodeError::Header)));
    assert_eq!(
        run(b"type,client,tx,amount\ndeposit,1\n"),
        Err(RunError::Input(DecodeError::MalformedRecord(0)))
    );
    assert_eq!(
        run(b"type,client,tx,amount\ndeposit,1,1,\xff\n"),
        Err(RunError::Input(DecodeError::Syntax))
    );
    assert_eq!(
        run(b"type,client,tx,amount\ndeposit,1,1,1\nwithdrawal,1,1,1\n"),
        Err(RunError::Input(DecodeError::DuplicateTransaction(1)))
    );
}

#[test]
fn a_run_reports_a_reused_id_as_an_error_of_the_input() {
    // The second deposit is for a locked account, which the engine would
    // ignore; the input is refused all the same, before anything is replayed.
    let input = "type,client,tx,amount\n\
                 deposit,1,1,1.0\n\
                 dispute,1,1,\n\
                 chargeback,1,1,\n\
                 deposit,1,1,2.0\n";
    assert_eq!(run(input.as_bytes()), Err(RunError::Input(DecodeError::DuplicateTransaction(3))));
    let input = "type,client,tx,amount\ndeposit,1,1,1.0\ndeposit,1,1,2.0\n";
    assert_eq!(run(input.as_bytes()), Err(RunError::Input(DecodeError::DuplicateTransaction(1))));
}

#[test]
fn an_empty_run_reports_no_account() {
    assert_eq!(run(b""), Ok(String::from("client,available,held,total,locked\n")));
}
