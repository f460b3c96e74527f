//! Decoding of the input: delimited text into transaction records.
//!
//! The `csv` crate splits the text into rows of trimmed fields. Everything
//! after that is decided here: which column holds what, how many fields a
//! row must have, what a field must look like, and that no transaction id
//! is used twice.
use crate::decimal::{
    amount_of, parse_amount, parse_client_id, parse_transaction_id, unsigned_up_to,
};
use crate::record::{ids_are_unique, Transaction, TransactionCategory};
use std::collections::HashSet;
use vstd::prelude::*;

verus! {

/// Why the input could not be decoded.
#[derive(Clone, Copy, Debug, PartialEq, Eq, Structural)]
pub enum DecodeError {
    /// The `csv` reader reported an error, as it does for text that is not
    /// valid UTF-8.
    Syntax,
    /// The first row does not name each of the columns `type`, `client`,
    /// `tx` and `amount` exactly once.
    Header,
    /// The record with this index, counted from zero after the header, has
    /// more or fewer fields than the header, or a field of the wrong shape.
    MalformedRecord(usize),
    /// The record with this index, counted from zero after the header, is a
    /// deposit or withdrawal whose transaction id an earlier deposit or
    /// withdrawal has used.
    DuplicateTransaction(usize),
}

/// `csv::Error`, the error of the `csv` reader. It is carried through as it
/// is; nothing is read from it and nothing is claimed of it.
#[verifier::external_type_specification]
#[verifier::external_body]
pub struct ExCsvError(csv::Error);

/// The rows that the `csv` reader finds in `data`, header row included and
/// whatever their lengths, each row as its fields with the surrounding
/// whitespace removed; `None` where the reader reports an error.
pub uninterp spec fn csv_records(data: Seq<u8>) -> Option<Seq<Seq<Seq<char>>>>;

/// Runs `csv::Reader::records` over `data`, with a reader that is built by
/// `csv::ReaderBuilder` to trim every field, to hand out the first row like
/// any other and to take rows of any length, and collects the rows. Nothing
/// is proved of the reader:
/// the contract gives its result a name, [`csv_records`], and claims only
/// that the result depends on the bytes alone.
#[verifier::external_body]
fn read_records(data: &[u8]) -> (result: Result<Vec<Vec<Vec<char>>>, csv::Error>)
    ensures
        match result {
            Ok(rows) => csv_records(data@) == Some(rows.deep_view()),
            Err(_) => csv_records(data@) is None,
        },
{
    let mut reader = csv::ReaderBuilder::new().trim(csv::Trim::All).has_headers(false).flexible(
        true,
    ).from_reader(data);
    reader.records().map(
        |row| row.map(|fields| fields.iter().map(|field| field.chars().collect()).collect()),
    ).collect()
}

/// The kind of record that a keyword names.
pub open spec fn category_of(text: Seq<char>) -> Option<TransactionCategory> {
    if text == "deposit"@ {
        Some(TransactionCategory::Deposit)
    } else if text == "withdrawal"@ {
        Some(TransactionCategory::Withdrawal)
    } else if text == "dispute"@ {
        Some(TransactionCategory::Dispute)
    } else if text == "resolve"@ {
        Some(TransactionCategory::Resolve)
    } else if text == "chargeback"@ {
        Some(TransactionCategory::Chargeback)
    } else {
        None
    }
}

/// Whether `text` is exactly `word`.
fn is_word(text: &Vec<char>, word: &str) -> (same: bool)
    ensures
        same == (text@ == word@),
{
    let length = word.unicode_len();
    if text.len() != length {
        return false;
    }
    let mut at: usize = 0;
    while at < length
        invariant
            at <= length,
            length == word@.len(),
            length == text@.len(),
            forall|i: int| 0 <= i < at ==> text@[i] == word@[i],
        decreases length - at,
    {
        if text[at] != word.get_char(at) {
            return false;
        }
        at = at + 1;
    }
    assert(text@ =~= word@);
    true
}

/// Reads the kind of a record: one of the five lowercase keywords.
pub fn parse_category(text: &Vec<char>) -> (category: Option<TransactionCategory>)
    ensures
        category == category_of(text@),
{
    if is_word(text, "deposit") {
        Some(TransactionCategory::Deposit)
    } else if is_word(text, "withdrawal") {
        Some(TransactionCategory::Withdrawal)
    } else if is_word(text, "dispute") {
        Some(TransactionCategory::Dispute)
    } else if is_word(text, "resolve") {
        Some(TransactionCategory::Resolve)
    } else if is_word(text, "chargeback") {
        Some(TransactionCategory::Chargeback)
    } else {
        None
    }
}

/// `at` is the one column of `header` that is named `name`.
pub open spec fn names_once(header: Seq<Seq<char>>, name: Seq<char>, at: int) -> bool {
    &&& 0 <= at < header.len()
    &&& header[at] == name
    &&& forall|other: int| 0 <= other < header.len() && #[trigger] header[other] == name ==> other == at
}

/// The column of `header` that is named `name`, if there is exactly one.
pub open spec fn column_named(header: Seq<Seq<char>>, name: Seq<char>) -> Option<int> {
    if exists|at: int| names_once(header, name, at) {
        Some(choose|at: int| names_once(header, name, at))
    } else {
        None
    }
}

/// Where the four fields of a record stand in a row, and how many fields a
/// row has.
#[derive(Clone, Copy, Debug, PartialEq, Eq, Structural)]
pub struct Columns {
    pub category: usize,
    pub client: usize,
    pub tx: usize,
    pub amount: usize,
    /// The number of fields of the header, which every row must have.
    pub width: usize,
}

/// The columns that a header row assigns to the four fields: each of the
/// names `type`, `client`, `tx` and `amount` must stand in it exactly once,
/// in any order; other columns are ignored. The header also sets the number
/// of fields of every row.
pub open spec fn columns_of(header: Seq<Seq<char>>) -> Option<Columns> {
    match (
        column_named(header, "type"@),
        column_named(header, "client"@),
        column_named(header, "tx"@),
        column_named(header, "amount"@),
    ) {
        (Some(category), Some(client), Some(tx), Some(amount)) => Some(
            Columns {
                category: category as usize,
                client: client as usize,
                tx: tx as usize,
                amount: amount as usize,
                width: header.len() as usize,
            },
        ),
        _ => None,
    }
}

/// The fields of a row are the texts of its cells.
proof fn lemma_row_fields(row: Vec<Vec<char>>)
    ensures
        row.deep_view().len() == row@.len(),
        forall|i: int| 0 <= i < row@.len() ==> #[trigger] row.deep_view()[i] == row@[i]@,
{
    assert forall|i: int| 0 <= i < row@.len() implies #[trigger] row.deep_view()[i] == row@[i]@ by {
        assert(row@[i].deep_view() =~= row@[i]@);
    }
}

/// Finds the one column named `name`.
fn find_column(header: &Vec<Vec<char>>, name: &str) -> (found: Option<usize>)
    ensures
        match found {
            Some(at) => column_named(header.deep_view(), name@) == Some(at as int),
            None => column_named(header.deep_view(), name@) is None,
        },
{
    proof {
        lemma_row_fields(*header);
    }
    let ghost names = header.deep_view();
    let mut found: Option<usize> = None;
    let mut twice = false;
    let mut at: usize = 0;
    while at < header.len()
        invariant
            at <= header.len(),
            names == header.deep_view(),
            names.len() == header@.len(),
            forall|i: int| 0 <= i < header@.len() ==> #[trigger] names[i] == header@[i]@,
            match found {
                Some(first) => first < at && names[first as int] == name@ && forall|i: int|
                    0 <= i < first ==> #[trigger] names[i] != name@,
                None => forall|i: int| 0 <= i < at ==> #[trigger] names[i] != name@,
            },
            twice <==> found is Some && exists|later: int|
                found->0 < later < at && (#[trigger] names[later]) == name@,
        decreases header.len() - at,
    {
        if is_word(&header[at], name) {
            if found.is_some() {
                twice = true;
                assert(names[at as int] == name@);
            } else {
                found = Some(at);
            }
        }
        at = at + 1;
    }
    if twice {
        proof {
            let first = found->0 as int;
            let later = choose|later: int|
                first < later < at && (#[trigger] names[later]) == name@;
            assert forall|only: int| !names_once(names, name@, only) by {
                if names_once(names, name@, only) {
                    assert(names[first] == name@);
                    assert(names[later] == name@);
                }
            }
        }
        None
    } else {
        proof {
            match found {
                Some(first) => {
                    assert(names_once(names, name@, first as int));
                },
                None => {},
            }
        }
        found
    }
}

/// Reads the header row. See [`columns_of`].
pub fn locate_columns(header: &Vec<Vec<char>>) -> (columns: Option<Columns>)
    ensures
        columns == columns_of(header.deep_view()),
{
    let category = find_column(header, "type");
    let client = find_column(header, "client");
    let tx = find_column(header, "tx");
    let amount = find_column(header, "amount");
    match (category, client, tx, amount) {
        (Some(category), Some(client), Some(tx), Some(amount)) => Some(
            Columns { category, client, tx, amount, width: header.len() },
        ),
        _ => None,
    }
}

/// The amount that an amount field holds: none where the field is empty.
/// The outer `None` stands for a field that is neither empty nor an amount.
pub open spec fn optional_amount_of(text: Seq<char>) -> Option<Option<i64>> {
    if text.len() == 0 {
        Some(None)
    } else {
        match amount_of(text) {
            Some(amount) => Some(Some(amount)),
            None => None,
        }
    }
}

/// The record that a row holds under `columns`, if it holds one: the row
/// has as many fields as the header, none missing and none too many, and
/// reaches to each of the four columns; the kind is a keyword; client and
/// transaction are decimal numbers of 16 and 32 bits; the amount is empty or
/// a decimal amount. A deposit or a withdrawal must have an amount. A
/// dispute, a resolution or a chargeback carries none: what its amount field
/// holds is checked and then left out.
pub open spec fn record_of(row: Seq<Seq<char>>, columns: Columns) -> Option<Transaction> {
    if row.len() == columns.width && columns.category < row.len() && columns.client < row.len()
        && columns.tx < row.len() && columns.amount < row.len() {
        match (
            category_of(row[columns.category as int]),
            unsigned_up_to(row[columns.client as int], u16::MAX as nat),
            unsigned_up_to(row[columns.tx as int], u32::MAX as nat),
            optional_amount_of(row[columns.amount as int]),
        ) {
            (Some(category), Some(client_id), Some(tx), Some(amount)) => if category.moves_money()
                && amount is None {
                None
            } else {
                Some(
                    Transaction {
                        category,
                        client_id: client_id as u16,
                        tx: tx as u32,
                        amount: if category.moves_money() {
                            amount
                        } else {
                            None
                        },
                    },
                )
            },
            _ => None,
        }
    } else {
        None
    }
}

/// Reads one row as a record. See [`record_of`].
pub fn decode_record(row: &Vec<Vec<char>>, columns: &Columns) -> (record: Option<Transaction>)
    ensures
        record == record_of(row.deep_view(), *columns),
{
    proof {
        lemma_row_fields(*row);
    }
    let width = row.len();
    if width != columns.width || columns.category >= width || columns.client >= width
        || columns.tx >= width || columns.amount >= width {
        return None;
    }
    let category = match parse_category(&row[columns.category]) {
        Some(category) => category,
        None => { return None; },
    };
    let client_id = match parse_client_id(&row[columns.client]) {
        Some(client_id) => client_id,
        None => { return None; },
    };
    let tx = match parse_transaction_id(&row[columns.tx]) {
        Some(tx) => tx,
        None => { return None; },
    };
    let field = &row[columns.amount];
    let amount = if field.len() == 0 {
        None
    } else {
        match parse_amount(field) {
            Some(amount) => Some(amount),
            None => { return None; },
        }
    };
    match category {
        TransactionCategory::Deposit | TransactionCategory::Withdrawal => {
            if amount.is_none() {
                return None;
            }
            Some(Transaction { category, client_id, tx, amount })
        },
        _ => Some(Transaction { category, client_id, tx, amount: None }),
    }
}

/// The records that the rows below a header hold, in order, or the first
/// row that holds none.
pub open spec fn records_of(body: Seq<Seq<Seq<char>>>, columns: Columns) -> Result<
    Seq<Transaction>,
    DecodeError,
>
    decreases body.len(),
{
    if body.len() == 0 {
        Ok(Seq::empty())
    } else {
        match records_of(body.drop_last(), columns) {
            Err(error) => Err(error),
            Ok(records) => match record_of(body.last(), columns) {
                Some(record) => Ok(records.push(record)),
                None => Err(DecodeError::MalformedRecord((body.len() - 1) as usize)),
            },
        }
    }
}

/// What a table of rows decodes to: the first row names the columns, each
/// row after it holds one record. A table without any row holds no record.
pub open spec fn decoded(rows: Seq<Seq<Seq<char>>>) -> Result<Seq<Transaction>, DecodeError> {
    if rows.len() == 0 {
        Ok(Seq::empty())
    } else {
        match columns_of(rows[0]) {
            None => Err(DecodeError::Header),
            Some(columns) => records_of(rows.skip(1), columns),
        }
    }
}

/// The records that a table decodes to are as many as its rows below the
/// header, and each carries an amount exactly if its kind moves money.
pub proof fn lemma_decoded_records_carry_amounts(rows: Seq<Seq<Seq<char>>>)
    ensures
        decoded(rows) matches Ok(records) ==> {
            &&& rows.len() > 0 ==> records.len() == rows.len() - 1
            &&& forall|i: int|
                0 <= i < records.len() ==> (#[trigger] records[i]).carries_amount_as_needed()
        },
{
    if rows.len() > 0 && columns_of(rows[0]) is Some {
        lemma_records_of_carry_amounts(rows.skip(1), columns_of(rows[0])->0);
    }
}

proof fn lemma_records_of_carry_amounts(body: Seq<Seq<Seq<char>>>, columns: Columns)
    ensures
        records_of(body, columns) matches Ok(records) ==> {
            &&& records.len() == body.len()
            &&& forall|i: int|
                0 <= i < records.len() ==> (#[trigger] records[i]).carries_amount_as_needed()
        },
    decreases body.len(),
{
    if body.len() > 0 {
        lemma_records_of_carry_amounts(body.drop_last(), columns);
    }
}

/// Once a row has failed to decode, the rows after it do not matter.
proof fn lemma_records_of_stays_failed(body: Seq<Seq<Seq<char>>>, columns: Columns, n: int)
    requires
        0 <= n <= body.len(),
        records_of(body.take(n), columns) is Err,
    ensures
        records_of(body, columns) == records_of(body.take(n), columns),
    decreases body.len() - n,
{
    if n == body.len() {
        assert(body.take(n) =~= body);
    } else {
        assert(body.take(n + 1).drop_last() =~= body.take(n));
        lemma_records_of_stays_failed(body, columns, n + 1);
    }
}

/// Decodes a table of rows, header first, into records. See [`decoded`].
pub fn decode_rows(rows: &Vec<Vec<Vec<char>>>) -> (result: Result<Vec<Transaction>, DecodeError>)
    ensures
        match result {
            Ok(records) => decoded(rows.deep_view()) == Ok::<Seq<Transaction>, DecodeError>(
                records@,
            ),
            Err(error) => decoded(rows.deep_view()) == Err::<Seq<Transaction>, DecodeError>(error),
        },
{
    let mut records: Vec<Transaction> = Vec::new();
    if rows.len() == 0 {
        return Ok(records);
    }
    let columns = match locate_columns(&rows[0]) {
        Some(columns) => columns,
        None => { return Err(DecodeError::Header); },
    };
    let ghost body = rows.deep_view().skip(1);
    let mut at: usize = 1;
    while at < rows.len()
        invariant
            1 <= at <= rows.len(),
            body == rows.deep_view().skip(1),
            columns_of(rows.deep_view()[0]) == Some(columns),
            records_of(body.take(at - 1), columns) == Ok::<Seq<Transaction>, DecodeError>(
                records@,
            ),
        decreases rows.len() - at,
    {
        proof {
            let upto = body.take(at as int);
            assert(upto.drop_last() =~= body.take(at - 1));
            assert(upto.last() == rows@[at as int].deep_view());
        }
        match decode_record(&rows[at], &columns) {
            Some(record) => {
                records.push(record);
            },
            None => {
                proof {
                    lemma_records_of_stays_failed(body, columns, at as int);
                }
                return Err(DecodeError::MalformedRecord(at - 1));
            },
        }
        at = at + 1;
    }
    proof {
        assert(body.take(at - 1) =~= body);
    }
    Ok(records)
}

/// The record at `at` is a deposit or withdrawal under a transaction id
/// that an earlier deposit or withdrawal has used.
pub open spec fn reuses_id(records: Seq<Transaction>, at: int) -> bool {
    &&& records[at].category.moves_money()
    &&& exists|earlier: int|
        0 <= earlier < at && (#[trigger] records[earlier]).category.moves_money()
            && records[earlier].tx == records[at].tx
}

/// The index of the first record that reuses a transaction id, if any
/// does.
pub open spec fn first_reuse(records: Seq<Transaction>) -> Option<int>
    decreases records.len(),
{
    if records.len() == 0 {
        None
    } else {
        match first_reuse(records.drop_last()) {
            Some(at) => Some(at),
            None => if reuses_id(records, records.len() - 1) {
                Some(records.len() - 1)
            } else {
                None
            },
        }
    }
}

/// No record reuses an id exactly if the ids are unique.
pub proof fn lemma_first_reuse_none_iff_unique(records: Seq<Transaction>)
    ensures
        first_reuse(records) is None <==> ids_are_unique(records),
    decreases records.len(),
{
    if records.len() > 0 {
        let earlier = records.drop_last();
        let last = records.len() - 1;
        lemma_first_reuse_none_iff_unique(earlier);
        if first_reuse(earlier) is Some {
            let (i, j) = choose|i: int, j: int|
                0 <= i < j < earlier.len() && (#[trigger] earlier[i]).category.moves_money() && (
                #[trigger] earlier[j]).category.moves_money() && earlier[i].tx == earlier[j].tx;
            assert(records[i] == earlier[i] && records[j] == earlier[j]);
        } else if reuses_id(records, last) {
        } else {
            assert forall|i: int, j: int|
                0 <= i < j < records.len() && (#[trigger] records[i]).category.moves_money() && (
                #[trigger] records[j]).category.moves_money() implies records[i].tx
                != records[j].tx by {
                if j < last {
                    assert(records[i] == earlier[i] && records[j] == earlier[j]);
                }
            }
        }
    }
}

/// Once an id has been reused, the records after it do not matter.
proof fn lemma_first_reuse_stays(records: Seq<Transaction>, n: int)
    requires
        0 <= n <= records.len(),
        first_reuse(records.take(n)) is Some,
    ensures
        first_reuse(records) == first_reuse(records.take(n)),
    decreases records.len() - n,
{
    if n == records.len() {
        assert(records.take(n) =~= records);
    } else {
        assert(records.take(n + 1).drop_last() =~= records.take(n));
        lemma_first_reuse_stays(records, n + 1);
    }
}

/// Checks that no two deposits or withdrawals share a transaction id, and
/// reports the first record that reuses one. The check looks at the records
/// alone, before any of them is replayed: it also finds a reused id on a
/// record that the engine would ignore because its account is locked by
/// then.
pub fn check_unique_ids(records: &Vec<Transaction>) -> (result: Result<(), DecodeError>)
    ensures
        match first_reuse(records@) {
            None => result == Ok::<(), DecodeError>(()),
            Some(at) => result == Err::<(), DecodeError>(
                DecodeError::DuplicateTransaction(at as usize),
            ) && 0 <= at < records@.len(),
        },
{
    let mut used: HashSet<u32> = HashSet::new();
    let mut at: usize = 0;
    while at < records.len()
        invariant
            at <= records.len(),
            first_reuse(records@.take(at as int)) is None,
            forall|id: u32|
                used@.contains(id) <==> exists|earlier: int|
                    0 <= earlier < at && (#[trigger] records@[earlier]).category.moves_money()
                        && records@[earlier].tx == id,
        decreases records.len() - at,
    {
        let record = &records[at];
        let ghost upto = records@.take(at + 1);
        proof {
            assert(upto.drop_last() =~= records@.take(at as int));
            assert(forall|i: int| 0 <= i <= at ==> upto[i] == records@[i]);
        }
        match record.category {
            TransactionCategory::Deposit | TransactionCategory::Withdrawal => {
                if used.contains(&record.tx) {
                    proof {
                        let earlier = choose|earlier: int|
                            0 <= earlier < at && (#[trigger] records@[earlier]).category.moves_money()
                                && records@[earlier].tx == record.tx;
                        assert(upto[earlier] == records@[earlier]);
                        assert(reuses_id(upto, at as int));
                        lemma_first_reuse_stays(records@, at + 1);
                    }
                    return Err(DecodeError::DuplicateTransaction(at));
                }
                proof {
                    if reuses_id(upto, at as int) {
                        let earlier = choose|earlier: int|
                            0 <= earlier < at && (#[trigger] upto[earlier]).category.moves_money()
                                && upto[earlier].tx == upto[at as int].tx;
                        assert(records@[earlier] == upto[earlier]);
                        assert(used@.contains(record.tx));
                    }
                }
                used.insert(record.tx);
                assert(records@[at as int].category.moves_money());
            },
            _ => {},
        }
        at = at + 1;
    }
    proof {
        assert(records@.take(at as int) =~= records@);
    }
    Ok(())
}

/// What a table of rows, as the reader found it, yields: the records it
/// decodes to, provided that no deposit or withdrawal reuses a transaction
/// id.
pub open spec fn parsed(table: Option<Seq<Seq<Seq<char>>>>) -> Result<
    Seq<Transaction>,
    DecodeError,
> {
    match table {
        None => Err(DecodeError::Syntax),
        Some(rows) => match decoded(rows) {
            Err(error) => Err(error),
            Ok(records) => match first_reuse(records) {
                Some(at) => Err(DecodeError::DuplicateTransaction(at as usize)),
                None => Ok(records),
            },
        },
    }
}

/// Decodes delimited text into the records it holds, in the order of the
/// text. The first row names the columns; fields may be surrounded by
/// whitespace.
pub fn parse_transactions(data: &[u8]) -> (result: Result<Vec<Transaction>, DecodeError>)
    ensures
        match result {
            Ok(records) => {
                &&& parsed(csv_records(data@)) == Ok::<Seq<Transaction>, DecodeError>(records@)
                &&& ids_are_unique(records@)
                &&& forall|i: int|
                    0 <= i < records@.len() ==> (#[trigger] records@[i]).carries_amount_as_needed()
            },
            Err(error) => parsed(csv_records(data@)) == Err::<Seq<Transaction>, DecodeError>(
                error,
            ),
        },
{
    let rows = match read_records(data) {
        Ok(rows) => rows,
        Err(_) => { return Err(DecodeError::Syntax); },
    };
    let records = match decode_rows(&rows) {
        Ok(records) => records,
        Err(error) => { return Err(error); },
    };
    proof {
        lemma_decoded_records_carry_amounts(rows.deep_view());
        lemma_first_reuse_none_iff_unique(records@);
    }
    match check_unique_ids(&records) {
        Ok(()) => Ok(records),
        Err(error) => Err(error),
    }
}

} // verus!
