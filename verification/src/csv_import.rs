//! Bank exports: their columns as transactions, and the import loop.

use crate::amount;
use crate::date;
use crate::date::CalendarDate;
use crate::db;
use crate::db::TransactionStore;
use crate::model;
use crate::model::{Source, Transaction};
use crate::text;
use vstd::prelude::*;

verus! {

/// Why an import was refused. Each holds the text that could not be read, and
/// a date `chrono`'s error too.
#[derive(Debug)]
pub enum ImportError {
    UnknownSource { name: String },
    BadDate { text: String, cause: chrono::ParseError },
    BadAmount { text: String },
}

/// A text in double quotes with its special characters escaped, as the `Debug`
/// formatting of `str` writes it.
pub uninterp spec fn quoted(s: Seq<char>) -> Seq<char>;

/// Formats a text with the `Debug` formatting of `str`. The result depends on
/// the text alone and is named `quoted`; which characters are escaped, and how,
/// is left unsaid.
#[verifier::external_body]
fn quote(s: &str) -> (r: String)
    ensures
        r@ == quoted(s@),
{
    format!("{s:?}")
}

/// The message of an error.
pub open spec fn error_text(e: ImportError) -> Seq<char> {
    match e {
        ImportError::UnknownSource { name } => "unknown source "@ + quoted(name@)
            + " (use 'wells' or 'amex')"@,
        ImportError::BadDate { text, .. } => "could not parse date "@ + quoted(text@),
        ImportError::BadAmount { text } => "could not parse amount "@ + quoted(text@),
    }
}

impl ImportError {
    /// The message that is shown.
    pub fn message(&self) -> (r: String)
        ensures
            r@ == error_text(*self),
    {
        match self {
            ImportError::UnknownSource { name } => {
                let mut m = "unknown source ".to_owned();
                m.append(quote(name.as_str()).as_str());
                m.append(" (use 'wells' or 'amex')");
                m
            },
            ImportError::BadDate { text, .. } => {
                let mut m = "could not parse date ".to_owned();
                m.append(quote(text.as_str()).as_str());
                m
            },
            ImportError::BadAmount { text } => {
                let mut m = "could not parse amount ".to_owned();
                m.append(quote(text.as_str()).as_str());
                m
            },
        }
    }
}

// --- Parsing helpers -------------------------------------------------------

/// The source that a lowercased name stands for.
pub open spec fn named_source(name: Seq<char>) -> Option<Source> {
    if name == "wells"@ || name == "wells_fargo"@ || name == "wellsfargo"@ {
        Some(Source::WellsFargo)
    } else if name == "amex"@ || name == "american_express"@ {
        Some(Source::Amex)
    } else {
        None
    }
}

/// The source that the user names, in any mix of ASCII case.
pub fn parse_source(s: &str) -> (r: Result<Source, ImportError>)
    ensures
        (match r {
            Ok(source) => named_source(text::ascii_lowercase(s@)) == Some(source),
            Err(ImportError::UnknownSource { name }) => {
                &&& named_source(text::ascii_lowercase(s@)) is None
                &&& name@ == text::ascii_lowercase(s@)
            },
            Err(_) => false,
        }),
{
    let name = text::to_ascii_lowercase(s);
    let given = name.as_str();
    if text::same_text(given, "wells") || text::same_text(given, "wells_fargo") || text::same_text(
        given,
        "wellsfargo",
    ) {
        Ok(Source::WellsFargo)
    } else if text::same_text(given, "amex") || text::same_text(given, "american_express") {
        Ok(Source::Amex)
    } else {
        Err(ImportError::UnknownSource { name })
    }
}

/// The year, month and day that a date column names. Both banks write
/// `MM/DD/YYYY`.
pub open spec fn column_date(s: Seq<char>) -> Option<(int, int, int)> {
    date::read_date(text::trimmed(s))
}

/// The date that a date column names.
pub fn parse_date(s: &str) -> (r: Result<CalendarDate, ImportError>)
    ensures
        (match r {
            Ok(d) => column_date(s@) == Some(d@),
            Err(ImportError::BadDate { text, .. }) => column_date(s@) is None && text@ == s@,
            Err(_) => false,
        }),
{
    let line = text::trim(s);
    match CalendarDate::parse_month_day_year(line.as_str()) {
        Ok(d) => Ok(d),
        Err(cause) => Err(ImportError::BadDate { text: s.to_owned(), cause }),
    }
}

// --- Rows ------------------------------------------------------------------

/// One row of a bank export.
#[derive(Debug)]
pub struct BankRow {
    pub date: String,
    pub description: String,
    /// Amex only; empty for Wells Fargo.
    pub card_member: String,
    pub amount: String,
    /// The amount read as a floating-point number, times a hundred and
    /// rounded; `None` where it is not a number.
    pub rounded_cents: Option<i64>,
}

/// One row of a bank export.
pub struct BankRowModel {
    pub date: Seq<char>,
    pub description: Seq<char>,
    pub card_member: Seq<char>,
    pub amount: Seq<char>,
    pub rounded_cents: Option<i64>,
}

impl View for BankRow {
    type V = BankRowModel;

    open spec fn view(&self) -> BankRowModel {
        BankRowModel {
            date: self.date@,
            description: self.description@,
            card_member: self.card_member@,
            amount: self.amount@,
            rounded_cents: self.rounded_cents,
        }
    }
}

/// The models of a sequence of rows.
pub open spec fn bank_models(rows: Seq<BankRow>) -> Seq<BankRowModel> {
    rows.map_values(|r: BankRow| r@)
}

/// The cents in the amount column.
pub open spec fn column_cents(row: BankRowModel) -> Option<int> {
    amount::cents(row.amount, row.rounded_cents)
}

/// The row can be read: its date and its amount are there.
pub open spec fn readable(row: BankRowModel) -> bool {
    column_date(row.date) is Some && column_cents(row) is Some
}

/// The transaction that a readable row stands for. Wells Fargo writes charges
/// as negative amounts. Amex writes them as positive ones, so the sign is
/// flipped: negative is money out for both.
pub open spec fn row_transaction(source: Source, row: BankRowModel) -> model::TransactionModel {
    model::TransactionModel {
        source,
        txn_date: column_date(row.date)->0,
        description: text::trimmed(row.description),
        amount_cents: match source {
            Source::WellsFargo => column_cents(row)->0,
            Source::Amex => -column_cents(row)->0,
        },
        card_member: match source {
            Source::WellsFargo => None,
            Source::Amex => Some(text::trimmed(row.card_member)),
        },
    }
}

/// The amount can be brought to the common sign: the least `i64` has no
/// negative.
pub open spec fn representable(source: Source, row: BankRowModel) -> bool {
    source == Source::Amex ==> column_cents(row) != Some(i64::MIN as int)
}

/// Whether the amount can be brought to the common sign.
pub fn is_representable(source: Source, row: &BankRow) -> (r: bool)
    ensures
        r == representable(source, row@),
{
    match (source, amount::parse_cents(row.amount.as_str(), row.rounded_cents)) {
        (Source::Amex, Some(c)) => c != i64::MIN,
        _ => true,
    }
}

/// The error for a row that cannot be read: the date is tried first.
pub open spec fn row_error(row: BankRowModel, e: ImportError) -> bool {
    match e {
        ImportError::BadDate { text, .. } => column_date(row.date) is None && text@ == row.date,
        ImportError::BadAmount { text } => {
            &&& column_date(row.date) is Some
            &&& column_cents(row) is None
            &&& text@ == row.amount
        },
        ImportError::UnknownSource { name } => false,
    }
}

/// The transaction that a row of this source stands for.
pub fn read_row(source: Source, row: &BankRow) -> (r: Result<Transaction, ImportError>)
    requires
        column_date(row@.date) is Some ==> representable(source, row@),
    ensures
        (match r {
            Ok(t) => readable(row@) && t@ == row_transaction(source, row@),
            Err(e) => !readable(row@) && row_error(row@, e),
        }),
{
    let txn_date = parse_date(row.date.as_str())?;
    let description = text::trim(row.description.as_str());
    let stated = match amount::parse_cents(row.amount.as_str(), row.rounded_cents) {
        Some(c) => c,
        None => {
            return Err(ImportError::BadAmount { text: row.amount.clone() });
        },
    };
    match source {
        Source::WellsFargo => Ok(
            Transaction {
                source,
                txn_date,
                description,
                amount_cents: stated,
                card_member: None,
            },
        ),
        Source::Amex => Ok(
            Transaction {
                source,
                txn_date,
                description,
                amount_cents: -stated,
                card_member: Some(text::trim(row.card_member.as_str())),
            },
        ),
    }
}

// --- The main import loop --------------------------------------------------

/// What importing readable rows makes of the table, row by row.
pub open spec fn imported(
    s: db::StoreModel,
    source: Source,
    rows: Seq<BankRowModel>,
) -> db::StoreModel
    decreases rows.len(),
{
    if rows.len() == 0 {
        s
    } else {
        db::inserted(
            imported(s, source, rows.drop_last()),
            row_transaction(source, rows.last()),
        )
    }
}

/// The first `n` rows can be read.
pub open spec fn readable_upto(rows: Seq<BankRowModel>, n: int) -> bool {
    forall|i: int| 0 <= i < n ==> readable(#[trigger] rows[i])
}

/// Row `k` is the first that cannot be read.
pub open spec fn first_unreadable(rows: Seq<BankRowModel>, k: int) -> bool {
    0 <= k < rows.len() && readable_upto(rows, k) && !readable(rows[k])
}

/// The import reaches row `k`, and its amount cannot be brought to the common
/// sign.
pub open spec fn overflows_at(source: Source, rows: Seq<BankRowModel>, k: int) -> bool {
    0 <= k < rows.len() && readable_upto(rows, k + 1) && !representable(source, rows[k])
}

/// The row that the import reaches and whose amount cannot be brought to the
/// common sign, if there is one. There are no others before it.
pub fn first_overflow(source: Source, rows: &Vec<BankRow>) -> (r: Option<usize>)
    ensures
        (match r {
            Some(k) => {
                &&& overflows_at(source, bank_models(rows@), k as int)
                &&& forall|j: int| j < k ==> !overflows_at(source, bank_models(rows@), j)
            },
            None => forall|j: int| !overflows_at(source, bank_models(rows@), j),
        }),
{
    let ghost models = bank_models(rows@);
    let mut i: usize = 0;
    while i < rows.len()
        invariant
            i <= rows.len(),
            models == bank_models(rows@),
            readable_upto(models, i as int),
            forall|j: int| j < i ==> !overflows_at(source, models, j),
        decreases rows.len() - i,
    {
        let row = &rows[i];
        assert(models[i as int] == row@);
        let dated = parse_date(row.date.as_str()).is_ok();
        let priced = amount::parse_cents(row.amount.as_str(), row.rounded_cents).is_some();
        if !dated || !priced {
            assert forall|j: int| !overflows_at(source, models, j) by {
                if j >= i && readable_upto(models, j + 1) {
                    assert(readable(models[i as int]));
                }
            }
            return None;
        }
        if !is_representable(source, row) {
            return Some(i);
        }
        i += 1;
    }
    None
}

/// Imports the rows of an export, in order. Counts the rows that were inserted
/// and those that were skipped as duplicates. The first row that cannot be read
/// ends the import; the rows before it stay imported.
pub fn run_import(store: &mut TransactionStore, source: Source, rows: &Vec<BankRow>) -> (r: Result<
    (usize, usize),
    ImportError,
>)
    requires
        old(store).wf(),
        forall|k: int| !overflows_at(source, bank_models(rows@), k),
    ensures
        final(store).wf(),
        ({
            let models = bank_models(rows@);
            match r {
                Ok((inserted, skipped)) => {
                    &&& readable_upto(models, models.len() as int)
                    &&& final(store)@ == imported(old(store)@, source, models)
                    &&& inserted + old(store)@.inserts.len() == final(store)@.inserts.len()
                    &&& inserted + skipped == models.len()
                },
                Err(e) => exists|k: int| #[trigger]
                    first_unreadable(models, k) && row_error(models[k], e) && final(store)@
                        == imported(old(store)@, source, models.take(k)),
            }
        }),
{
    let ghost models = bank_models(rows@);
    let mut inserted: usize = 0;
    let mut skipped: usize = 0;
    let mut i: usize = 0;
    assert(models.take(0) =~= Seq::<BankRowModel>::empty());
    while i < rows.len()
        invariant
            i <= rows.len(),
            models == bank_models(rows@),
            forall|k: int| !overflows_at(source, models, k),
            store.wf(),
            readable_upto(models, i as int),
            store@ == imported(old(store)@, source, models.take(i as int)),
            inserted + skipped == i,
            inserted + old(store)@.inserts.len() == store@.inserts.len(),
        decreases rows.len() - i,
    {
        assert(models[i as int] == rows@[i as int]@);
        assert(models.take(i + 1).drop_last() =~= models.take(i as int));
        assert(!overflows_at(source, models, i as int));
        match read_row(source, &rows[i]) {
            Ok(txn) => {
                if db::insert_transaction(store, &txn) {
                    inserted += 1;
                } else {
                    skipped += 1;
                }
            },
            Err(e) => {
                assert(first_unreadable(models, i as int));
                return Err(e);
            },
        }
        i += 1;
    }
    assert(models.take(models.len() as int) =~= models);
    Ok((inserted, skipped))
}

/// Imports the rows of an export as `run_import` does, or gives `None` and
/// leaves the table as it is where the import reaches an amount that cannot be
/// brought to the common sign.
pub fn import_rows(store: &mut TransactionStore, source: Source, rows: &Vec<BankRow>) -> (r: Option<
    Result<(usize, usize), ImportError>,
>)
    requires
        old(store).wf(),
    ensures
        final(store).wf(),
        ({
            let models = bank_models(rows@);
            match r {
                None => {
                    &&& exists|k: int| overflows_at(source, models, k)
                    &&& final(store)@ == old(store)@
                },
                Some(Ok((inserted, skipped))) => {
                    &&& forall|k: int| !overflows_at(source, models, k)
                    &&& readable_upto(models, models.len() as int)
                    &&& final(store)@ == imported(old(store)@, source, models)
                    &&& inserted + old(store)@.inserts.len() == final(store)@.inserts.len()
                    &&& inserted + skipped == models.len()
                },
                Some(Err(e)) => {
                    &&& forall|k: int| !overflows_at(source, models, k)
                    &&& exists|k: int| #[trigger]
                        first_unreadable(models, k) && row_error(models[k], e) && final(store)@
                            == imported(old(store)@, source, models.take(k))
                },
            }
        }),
{
    match first_overflow(source, rows) {
        Some(_) => None,
        None => Some(run_import(store, source, rows)),
    }
}

} // verus!
