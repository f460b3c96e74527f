//! A whole run: from the text of the input to the text of the report.
use crate::account::{Client, LedgerError};
use crate::decode::{
    csv_records, lemma_first_reuse_none_iff_unique, parse_transactions, parsed, DecodeError,
};
use crate::engine::{process_transactions, replay, Ledger, Rejection};
use crate::laws::lemma_unique_ids_are_not_refused_as_duplicates;
use crate::report::{render_report, report_text};
use std::collections::HashMap;
use vstd::prelude::*;

verus! {

/// Why a run produced no report.
#[derive(Clone, Copy, Debug, PartialEq, Eq)]
pub enum RunError {
    /// The input could not be decoded.
    Input(DecodeError),
    /// The engine refused a record.
    Rejected(Rejection),
}

/// What a run makes of the table of rows that the reader found: the report
/// on the accounts after all records have been replayed from an empty
/// ledger, or the first thing that went wrong. The whole input is decoded
/// before any record is replayed, so a malformed record or a reused
/// transaction id anywhere in the input is reported as an error of the
/// input, before a refusal of the engine.
pub open spec fn run_outcome(table: Option<Seq<Seq<Seq<char>>>>) -> Result<Seq<char>, RunError> {
    match parsed(table) {
        Err(error) => Err(RunError::Input(error)),
        Ok(records) => {
            let outcome = replay(Ledger::starting_with(Map::empty()), records, false);
            match outcome.halt {
                Some(halt) => Err(
                    RunError::Rejected(
                        Rejection { index: halt.index as usize, reason: halt.reason },
                    ),
                ),
                None => Ok(report_text(outcome.ledger.accounts)),
            }
        },
    }
}

/// A run reports a reused transaction id at decoding: the engine, which
/// refuses a reused id as well, never comes to it.
pub proof fn lemma_run_reports_reuse_at_decoding(table: Option<Seq<Seq<Seq<char>>>>)
    ensures
        run_outcome(table) matches Err(RunError::Rejected(rejection)) ==> rejection.reason
            != LedgerError::DuplicateTransaction,
{
    if let Ok(records) = parsed(table) {
        lemma_first_reuse_none_iff_unique(records);
        lemma_unique_ids_are_not_refused_as_duplicates(
            Map::empty(),
            records,
            false,
            records.len() as int,
        );
        assert(records.take(records.len() as int) =~= records);
    }
}

/// Decodes `data`, replays its records against an empty set of accounts and
/// renders the accounts they leave. Input that cannot be decoded and a
/// record that the engine refuses end the run without a report.
pub fn run(data: &[u8]) -> (result: Result<String, RunError>)
    ensures
        match result {
            Ok(text) => run_outcome(csv_records(data@)) == Ok::<Seq<char>, RunError>(text@),
            Err(error) => run_outcome(csv_records(data@)) == Err::<Seq<char>, RunError>(error),
        },
        result matches Err(RunError::Rejected(rejection)) ==> rejection.reason
            != LedgerError::DuplicateTransaction,
{
    proof {
        lemma_run_reports_reuse_at_decoding(csv_records(data@));
    }
    let transactions = match parse_transactions(data) {
        Ok(transactions) => transactions,
        Err(error) => { return Err(RunError::Input(error)); },
    };
    let mut clients: HashMap<u16, Client> = HashMap::new();
    match process_transactions(&transactions, &mut clients) {
        Ok(()) => Ok(render_report(&clients)),
        Err(rejection) => Err(RunError::Rejected(rejection)),
    }
}

} // verus!
