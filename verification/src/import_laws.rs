//! What an import stores, stated on the columns of the export.

use crate::amount;
use crate::csv_import;
use crate::date;
use crate::db;
use crate::laws;
use crate::model;
use crate::model::Source;
use crate::numeral;
use crate::text;
use crate::text_laws;
use vstd::prelude::*;

verus! {

// --- From a row to a transaction -------------------------------------------

/// `kept` is the column without white space at its two ends: the column is
/// white space, then `kept`, then white space.
pub open spec fn is_column_between_white_space(column: Seq<char>, kept: Seq<char>) -> bool {
    &&& text_laws::bare_ends(kept)
    &&& exists|a: Seq<char>, b: Seq<char>|
        text::all_white(a) && text::all_white(b) && column == #[trigger] (a + kept + b)
}

/// White space around a text adds no words to it.
proof fn lemma_words_between_white(a: Seq<char>, t: Seq<char>, b: Seq<char>)
    requires
        text::all_white(a),
        text::all_white(b),
    ensures
        text::words(a + t + b) == text::words(t),
{
    let empty = Seq::<char>::empty();
    text::lemma_words(a);
    text::lemma_words(b);
    text::lemma_words(empty);
    assert(text::words(b) =~= Seq::<Seq<char>>::empty());
    assert(text::words(empty) =~= Seq::<Seq<char>>::empty());
    if b.len() > 0 {
        laws::white_space_keeps_words_apart(a + t, b, empty);
        assert(a + t + b + empty =~= a + t + b);
        assert(text::words(a + t) + text::words(empty) =~= text::words(a + t));
    } else {
        assert(a + t + b =~= a + t);
    }
    if a.len() > 0 {
        laws::white_space_keeps_words_apart(empty, a, t);
        assert(empty + a + t =~= a + t);
        assert(text::words(empty) + text::words(t) =~= text::words(t));
    } else {
        assert(a + t =~= t);
    }
}

/// A trimmed column is the column without white space at its ends, and has the
/// same words.
proof fn lemma_trimmed_column(column: Seq<char>)
    ensures
        is_column_between_white_space(column, text::trimmed(column)),
        text::words(text::trimmed(column)) == text::words(column),
{
    let (a, b) = text_laws::trim_takes_white_space_off_the_ends(column);
    let kept = text::trimmed(column);
    assert(column == a + kept + b);
    lemma_words_between_white(a, kept, b);
}

/// A readable row becomes the transaction that its columns state. The
/// description differs from its column by white space at the two ends only. The
/// amount is the cents of its column for Wells Fargo, and their negative for
/// Amex. The card member is Amex's column without white space at the ends, and
/// Wells Fargo has none.
pub proof fn row_becomes_what_its_columns_state(source: Source, row: csv_import::BankRowModel)
    requires
        csv_import::readable(row),
    ensures
        ({
            let t = csv_import::row_transaction(source, row);
            &&& t.source == source
            &&& date::read_date(text::trimmed(row.date)) == Some(t.txn_date)
            &&& is_column_between_white_space(row.description, t.description)
            &&& text::words(t.description) == text::words(row.description)
            &&& match source {
                Source::WellsFargo => {
                    &&& amount::cents(row.amount, row.rounded_cents) == Some(t.amount_cents)
                    &&& t.card_member is None
                },
                Source::Amex => {
                    &&& amount::cents(row.amount, row.rounded_cents) == Some(-t.amount_cents)
                    &&& t.card_member matches Some(m) && is_column_between_white_space(
                        row.card_member,
                        m,
                    ) && text::words(m) == text::words(row.card_member)
                },
            }
        }),
{
    lemma_trimmed_column(row.description);
    lemma_trimmed_column(row.card_member);
}

/// Descriptions with different words stay different.
pub proof fn different_descriptions_stay_different(
    source: Source,
    r: csv_import::BankRowModel,
    s: csv_import::BankRowModel,
)
    requires
        csv_import::readable(r),
        csv_import::readable(s),
        text::words(r.description) != text::words(s.description),
    ensures
        csv_import::row_transaction(source, r).description != csv_import::row_transaction(
            source,
            s,
        ).description,
{
    row_becomes_what_its_columns_state(source, r);
    row_becomes_what_its_columns_state(source, s);
}

/// The same row read as one of the other bank has the opposite amount, and the
/// same date and description.
pub proof fn banks_differ_in_sign(row: csv_import::BankRowModel)
    requires
        csv_import::readable(row),
    ensures
        ({
            let w = csv_import::row_transaction(Source::WellsFargo, row);
            let a = csv_import::row_transaction(Source::Amex, row);
            &&& w.amount_cents + a.amount_cents == 0
            &&& w.txn_date == a.txn_date
            &&& w.description == a.description
        }),
{
}

/// A row is readable exactly where its date column names a day and its amount
/// column states an amount.
pub proof fn readable_rows_have_date_and_amount(row: csv_import::BankRowModel)
    ensures
        csv_import::readable(row) <==> date::read_date(text::trimmed(row.date)) is Some
            && amount::cents(row.amount, row.rounded_cents) is Some,
{
}

// --- Columns ---------------------------------------------------------------

/// Every day of the years 0 to 9999 is read from a date column that holds it as
/// `MM/DD/YYYY`, whatever white space stands around it.
pub proof fn date_column_names_its_day(
    before: Seq<char>,
    year: int,
    month: int,
    day: int,
    after: Seq<char>,
)
    requires
        text::all_white(before),
        text::all_white(after),
        date::valid_date(year, month, day),
        0 <= year <= 9999,
    ensures
        csv_import::column_date(
            before + date::month_day_year(year, month, day) + after,
        ) == Some((year, month, day)),
{
    let s = date::month_day_year(year, month, day);
    numeral::two_digits_read_back(month);
    numeral::four_digits_read_back(year);
    assert(s[0] == numeral::two_digits(month)[0]);
    assert(s[9] == numeral::four_digits(year)[3]);
    text_laws::trim_finds_what_is_between(before, s, after);
    date::every_day_is_read_from_its_text(year, month, day);
}

/// A date column in that form is refused where there is no such day.
pub proof fn date_column_refuses_days_that_do_not_exist(year: int, month: int, day: int)
    requires
        0 <= year <= 9999,
        0 <= month <= 99,
        0 <= day <= 99,
        !date::valid_date(year, month, day),
    ensures
        csv_import::column_date(date::month_day_year(year, month, day)) is None,
{
    let s = date::month_day_year(year, month, day);
    let empty = Seq::<char>::empty();
    numeral::two_digits_read_back(month);
    numeral::two_digits_read_back(day);
    numeral::four_digits_read_back(year);
    assert(s[0] == numeral::two_digits(month)[0]);
    assert(s[9] == numeral::four_digits(year)[3]);
    text_laws::trim_finds_what_is_between(empty, s, empty);
    assert(empty + s + empty =~= s);
    assert(s.subrange(0, 2) =~= numeral::two_digits(month));
    assert(s.subrange(3, 5) =~= numeral::two_digits(day));
    assert(s.subrange(6, 10) =~= numeral::four_digits(year));
}

/// The sources have these names and no others.
pub proof fn sources_have_these_names(name: Seq<char>)
    ensures
        csv_import::named_source(name) == Some(Source::WellsFargo) <==> (name == "wells"@ || name
            == "wells_fargo"@ || name == "wellsfargo"@),
        csv_import::named_source(name) == Some(Source::Amex) <==> (name == "amex"@ || name
            == "american_express"@),
        csv_import::named_source(model::source_text(Source::WellsFargo)) == Some(
            Source::WellsFargo,
        ),
        csv_import::named_source(model::source_text(Source::Amex)) == Some(Source::Amex),
{
    reveal_strlit("wells");
    reveal_strlit("wells_fargo");
    reveal_strlit("wellsfargo");
    reveal_strlit("amex");
    reveal_strlit("american_express");
    assert("wells"@.len() == 5 && "wells_fargo"@.len() == 11 && "wellsfargo"@.len() == 10);
    assert("amex"@.len() == 4 && "american_express"@.len() == 16);
}

// --- The table -------------------------------------------------------------

/// No row of the table, old or new, has the fingerprint.
pub open spec fn is_new(s: db::StoreModel, fingerprint: Seq<char>) -> bool {
    &&& !s.opened.contains(fingerprint)
    &&& forall|i: int|
        0 <= i < s.inserts.len() ==> (#[trigger] s.inserts[i]).fingerprint != fingerprint
}

/// A transaction whose fingerprint no row has is appended to the table with its
/// own columns: source, date, description, amount, card member and fingerprint
/// are those of the transaction.
pub proof fn new_transaction_is_stored_as_it_is(s: db::StoreModel, t: model::TransactionModel)
    requires
        is_new(s, model::fingerprint(t)),
    ensures
        ({
            let u = db::inserted(s, t);
            let row = u.inserts[s.inserts.len() as int];
            &&& u.opened == s.opened
            &&& u.inserts.len() == s.inserts.len() + 1
            &&& forall|i: int|
                0 <= i < s.inserts.len() ==> #[trigger] u.inserts[i] == s.inserts[i]
            &&& row.source == model::source_text(t.source)
            &&& row.txn_date == date::iso_text(t.txn_date.0, t.txn_date.1, t.txn_date.2)
            &&& row.description == t.description
            &&& row.amount_cents == t.amount_cents
            &&& row.card_member == t.card_member
            &&& row.fingerprint == model::fingerprint(t)
        }),
{
}

/// A transaction whose fingerprint some row has leaves the table as it is.
pub proof fn duplicate_is_dropped(s: db::StoreModel, t: model::TransactionModel)
    requires
        !is_new(s, model::fingerprint(t)),
    ensures
        db::inserted(s, t) == s,
{
}

/// What is stored of a row: its columns. The amount is the cents of the amount
/// column for Wells Fargo and their negative for Amex, so that a charge is
/// negative for both.
pub open spec fn stores_columns(
    source: Source,
    row: csv_import::BankRowModel,
    stored: db::InsertModel,
) -> bool {
    &&& stored.source == (match source {
        Source::WellsFargo => "wells_fargo"@,
        Source::Amex => "amex"@,
    })
    &&& date::read_date(text::trimmed(row.date)) matches Some(d) && stored.txn_date
        == date::iso_text(d.0, d.1, d.2)
    &&& is_column_between_white_space(row.description, stored.description)
    &&& text::words(stored.description) == text::words(row.description)
    &&& match source {
        Source::WellsFargo => {
            &&& amount::cents(row.amount, row.rounded_cents) == Some(stored.amount_cents)
            &&& stored.card_member is None
        },
        Source::Amex => {
            &&& amount::cents(row.amount, row.rounded_cents) == Some(-stored.amount_cents)
            &&& stored.card_member matches Some(m) && is_column_between_white_space(
                row.card_member,
                m,
            )
        },
    }
}

/// Every row that an import adds to the table holds the columns of a row of the
/// export, with the sign that makes a charge negative for both banks.
pub proof fn import_stores_the_columns(
    s: db::StoreModel,
    source: Source,
    rows: Seq<csv_import::BankRowModel>,
    i: int,
) -> (k: int)
    requires
        csv_import::readable_upto(rows, rows.len() as int),
        s.inserts.len() <= i < csv_import::imported(s, source, rows).inserts.len(),
    ensures
        0 <= k < rows.len(),
        stores_columns(source, rows[k], csv_import::imported(s, source, rows).inserts[i]),
    decreases rows.len(),
{
    let init = rows.drop_last();
    let before = csv_import::imported(s, source, init);
    let t = csv_import::row_transaction(source, rows.last());
    if i < before.inserts.len() {
        assert forall|j: int| 0 <= j < init.len() implies csv_import::readable(
            #[trigger] init[j],
        ) by {
            assert(init[j] == rows[j]);
        }
        let k = import_stores_the_columns(s, source, init, i);
        assert(init[k] == rows[k]);
        if is_new(before, model::fingerprint(t)) {
            new_transaction_is_stored_as_it_is(before, t);
        } else {
            duplicate_is_dropped(before, t);
        }
        k
    } else {
        let last = rows.len() - 1;
        assert(rows[last] == rows.last());
        if is_new(before, model::fingerprint(t)) {
            new_transaction_is_stored_as_it_is(before, t);
        } else {
            duplicate_is_dropped(before, t);
        }
        row_becomes_what_its_columns_state(source, rows[last]);
        last
    }
}

/// Every row of an export whose fingerprint is new to the table, and occurs in
/// no earlier row, is stored with its columns.
pub proof fn every_new_row_is_stored(
    s: db::StoreModel,
    source: Source,
    rows: Seq<csv_import::BankRowModel>,
    k: int,
) -> (i: int)
    requires
        csv_import::readable_upto(rows, rows.len() as int),
        0 <= k < rows.len(),
        is_new(s, model::fingerprint(csv_import::row_transaction(source, rows[k]))),
        forall|j: int|
            0 <= j < k ==> model::fingerprint(
                csv_import::row_transaction(source, #[trigger] rows[j]),
            ) != model::fingerprint(csv_import::row_transaction(source, rows[k])),
    ensures
        s.inserts.len() <= i < csv_import::imported(s, source, rows).inserts.len(),
        stores_columns(source, rows[k], csv_import::imported(s, source, rows).inserts[i]),
        csv_import::imported(s, source, rows).inserts[i].fingerprint == model::fingerprint(
            csv_import::row_transaction(source, rows[k]),
        ),
    decreases rows.len(),
{
    let init = rows.drop_last();
    let before = csv_import::imported(s, source, init);
    let last = csv_import::row_transaction(source, rows.last());
    laws::import_keeps_stored(s, source, init);
    if k < init.len() {
        assert forall|j: int| 0 <= j < init.len() implies csv_import::readable(
            #[trigger] init[j],
        ) by {
            assert(init[j] == rows[j]);
        }
        assert(init[k] == rows[k]);
        assert forall|j: int| 0 <= j < k implies model::fingerprint(
            csv_import::row_transaction(source, #[trigger] init[j]),
        ) != model::fingerprint(csv_import::row_transaction(source, init[k])) by {
            assert(init[j] == rows[j]);
        }
        let i = every_new_row_is_stored(s, source, init, k);
        if is_new(before, model::fingerprint(last)) {
            new_transaction_is_stored_as_it_is(before, last);
        } else {
            duplicate_is_dropped(before, last);
        }
        i
    } else {
        assert(rows[k] == rows.last());
        let f = model::fingerprint(last);
        if !is_new(before, f) {
            assert(db::knows(before, f));
            laws::lemma_known_after_import(s, source, init, f);
            if db::knows(s, f) {
                assert(false);
            }
            let j = choose|j: int|
                0 <= j < init.len() && f == model::fingerprint(
                    csv_import::row_transaction(source, #[trigger] init[j]),
                );
            assert(init[j] == rows[j]);
        }
        new_transaction_is_stored_as_it_is(before, last);
        row_becomes_what_its_columns_state(source, rows[k]);
        before.inserts.len() as int
    }
}

/// The error for the first row that cannot be read holds the column that is at
/// fault as it stands: the date where that names no day, and otherwise the
/// amount. All rows before have both.
pub proof fn error_holds_the_first_faulty_column(
    rows: Seq<csv_import::BankRowModel>,
    k: int,
    e: csv_import::ImportError,
)
    requires
        csv_import::first_unreadable(rows, k),
        csv_import::row_error(rows[k], e),
    ensures
        forall|j: int|
            0 <= j < k ==> date::read_date(text::trimmed((#[trigger] rows[j]).date)) is Some
                && amount::cents(rows[j].amount, rows[j].rounded_cents) is Some,
        date::read_date(text::trimmed(rows[k].date)) is None ==> (e matches
            csv_import::ImportError::BadDate { text, .. } && text@ == rows[k].date),
        date::read_date(text::trimmed(rows[k].date)) is Some ==> {
            &&& amount::cents(rows[k].amount, rows[k].rounded_cents) is None
            &&& e matches csv_import::ImportError::BadAmount { text } && text@ == rows[k].amount
        },
{
    assert forall|j: int| 0 <= j < k implies date::read_date(
        text::trimmed((#[trigger] rows[j]).date),
    ) is Some && amount::cents(rows[j].amount, rows[j].rounded_cents) is Some by {
        assert(csv_import::readable(rows[j]));
    }
}

/// The amount of a row has no place in the table only where it is Amex's and the
/// least `i64`, which has no negative. Of all others the stored amount fits.
pub proof fn only_the_least_amount_overflows(source: Source, row: csv_import::BankRowModel)
    ensures
        csv_import::representable(source, row) <==> !(source == Source::Amex && amount::cents(
            row.amount,
            row.rounded_cents,
        ) == Some(i64::MIN as int)),
{
}

/// The rows that are to be inserted have fingerprints of their own, which no row
/// of the table had.
pub proof fn inserts_have_their_own_fingerprints(s: db::StoreModel, i: int, j: int)
    requires
        db::inserts_are_new(s),
        0 <= i < j < s.inserts.len(),
    ensures
        s.inserts[i].fingerprint != s.inserts[j].fingerprint,
        !s.opened.contains(s.inserts[i].fingerprint),
        !s.opened.contains(s.inserts[j].fingerprint),
{
}

} // verus!
