use finance_tracker_api::csv_import::{
    first_overflow, import_rows, is_representable, parse_date, parse_source, read_row, run_import,
    BankRow, ImportError,
};
use finance_tracker_api::date::CalendarDate;
use finance_tracker_api::db::{insert_transaction, TransactionStore};
use finance_tracker_api::model::{Source, Transaction};

fn row(date: &str, description: &str, amount: &str) -> BankRow {
    BankRow {
        date: date.to_string(),
        description: description.to_string(),
        card_member: " J DOE ".to_string(),
        amount: amount.to_string(),
        rounded_cents: None,
    }
}

#[test]
fn sources_are_named_in_any_case() {
    for name in ["wells", "WELLS", "wells_fargo", "WellsFargo"] {
        assert_eq!(parse_source(name).unwrap(), Source::WellsFargo);
    }
    for name in ["amex", "Amex", "AMERICAN_EXPRESS"] {
        assert_eq!(parse_source(name).unwrap(), Source::Amex);
    }
}

#[test]
fn an_unknown_source_is_refused() {
    match parse_source("CHASE \"x\"") {
        Err(e) => {
            assert!(matches!(&e, ImportError::UnknownSource { name } if name == "chase \"x\""));
            assert_eq!(
                e.message(),
                "unknown source \"chase \\\"x\\\"\" (use 'wells' or 'amex')"
            );
        }
        Ok(_) => panic!("accepted"),
    }
    assert!(parse_source("").is_err());
    assert!(parse_source(" wells").is_err());
}

#[test]
fn dates_are_month_day_year() {
    assert_eq!(
        parse_date(" 01/05/2024 ").unwrap(),
        CalendarDate::from_ymd_opt(2024, 1, 5).unwrap()
    );
    match parse_date(" 13/05/2024") {
        Err(e) => {
            assert_eq!(e.message(), "could not parse date \" 13/05/2024\"");
            assert!(matches!(e, ImportError::BadDate { text, .. } if text == " 13/05/2024"));
        }
        Ok(_) => panic!("accepted"),
    }
}

#[test]
fn a_wells_row_keeps_its_sign() {
    let t = read_row(Source::WellsFargo, &row("01/05/2024", "  WEIS  ", "-33.21")).unwrap();
    assert_eq!(t.source, Source::WellsFargo);
    assert_eq!(t.txn_date.to_iso(), "2024-01-05");
    assert_eq!(t.description, "WEIS");
    assert_eq!(t.amount_cents, -3321);
    assert_eq!(t.card_member, None);
}

#[test]
fn an_amex_row_has_its_sign_flipped() {
    let t = read_row(Source::Amex, &row("01/05/2024", "CAFE", "11.35")).unwrap();
    assert_eq!(t.amount_cents, -1135);
    assert_eq!(t.card_member, Some("J DOE".to_string()));
    let refund = read_row(Source::Amex, &row("01/05/2024", "CAFE", "-11.35")).unwrap();
    assert_eq!(refund.amount_cents, 1135);
}

#[test]
fn the_date_is_tried_before_the_amount() {
    let e = read_row(Source::Amex, &row("x", "CAFE", "y")).unwrap_err();
    let cause = chrono::NaiveDate::parse_from_str("x", "%m/%d/%Y").unwrap_err();
    assert!(matches!(e, ImportError::BadDate { text, cause: c } if text == "x" && c == cause));
    let e = read_row(Source::Amex, &row("01/05/2024", "CAFE", " y")).unwrap_err();
    assert_eq!(e.message(), "could not parse amount \" y\"");
    assert!(matches!(e, ImportError::BadAmount { text } if text == " y"));
}

#[test]
fn an_import_skips_duplicates() {
    let rows = vec![
        row("01/05/2024", "A", "-1.00"),
        row("01/05/2024", "B", "-1.00"),
        row("01/05/2024", " A ", "-1"),
    ];
    let mut store = TransactionStore::load(Vec::new());
    let counts = run_import(&mut store, Source::WellsFargo, &rows).unwrap();
    assert_eq!(counts, (2, 1));
    assert_eq!(store.inserts().len(), 2);
    let first = &store.inserts()[0];
    assert_eq!(first.source, "wells_fargo");
    assert_eq!(first.txn_date, "2024-01-05");
    assert_eq!(first.description, "A");
    assert_eq!(first.amount_cents, -100);
    assert_eq!(first.card_member, None);
    assert_eq!(first.fingerprint.len(), 64);
    assert_eq!(store.inserts()[1].description, "B");
}

#[test]
fn a_second_import_inserts_nothing() {
    let rows = vec![row("01/05/2024", "A", "1.00"), row("01/06/2024", "A", "1.00")];
    let mut store = TransactionStore::load(Vec::new());
    assert_eq!(run_import(&mut store, Source::Amex, &rows).unwrap(), (2, 0));
    assert_eq!(run_import(&mut store, Source::Amex, &rows).unwrap(), (0, 2));
    assert_eq!(run_import(&mut store, Source::WellsFargo, &rows).unwrap(), (2, 0));
    let stored: Vec<String> = store.inserts().iter().map(|r| r.fingerprint.clone()).collect();
    let mut later = TransactionStore::load(stored);
    assert_eq!(run_import(&mut later, Source::Amex, &rows).unwrap(), (0, 2));
    assert_eq!(later.inserts().len(), 0);
}

#[test]
fn parts_of_an_export_add_up_to_the_whole() {
    let whole = vec![
        row("01/05/2024", "A", "1"),
        row("01/05/2024", "B", "1"),
        row("01/05/2024", "A", "1"),
    ];
    let first = vec![row("01/05/2024", "A", "1")];
    let rest = vec![row("01/05/2024", "B", "1"), row("01/05/2024", "A", "1")];
    let mut once = TransactionStore::load(Vec::new());
    let mut twice = TransactionStore::load(Vec::new());
    assert_eq!(run_import(&mut once, Source::Amex, &whole).unwrap(), (2, 1));
    assert_eq!(run_import(&mut twice, Source::Amex, &first).unwrap(), (1, 0));
    assert_eq!(run_import(&mut twice, Source::Amex, &rest).unwrap(), (1, 1));
    assert_eq!(once.inserts().len(), twice.inserts().len());
    for (a, b) in once.inserts().iter().zip(twice.inserts()) {
        assert_eq!(a.fingerprint, b.fingerprint);
    }
}

#[test]
fn rows_before_a_bad_one_stay_imported() {
    let rows = vec![
        row("01/05/2024", "A", "1"),
        row("01/05/2024", "B", "one"),
        row("01/05/2024", "C", "1"),
    ];
    let mut store = TransactionStore::load(Vec::new());
    let e = run_import(&mut store, Source::Amex, &rows).unwrap_err();
    assert!(matches!(e, ImportError::BadAmount { text } if text == "one"));
    assert_eq!(store.inserts().len(), 1);
    assert_eq!(store.inserts()[0].description, "A");
}

#[test]
fn an_insert_says_whether_the_row_was_new() {
    let t = Transaction {
        source: Source::Amex,
        txn_date: CalendarDate::from_ymd_opt(2024, 3, 1).unwrap(),
        description: "X".to_string(),
        amount_cents: 1135,
        card_member: Some("ME".to_string()),
    };
    let known = "abd5107964c3a62742e4bc8b893602ad1bb98e4d47c0df54642545242f6a8e7b".to_string();
    let mut store = TransactionStore::load(Vec::new());
    assert!(insert_transaction(&mut store, &t));
    assert!(!insert_transaction(&mut store, &t));
    assert_eq!(store.inserts()[0].fingerprint, known);
    assert_eq!(store.inserts()[0].card_member, Some("ME".to_string()));
    let mut store = TransactionStore::load(vec![known]);
    assert!(!insert_transaction(&mut store, &t));
    assert_eq!(store.inserts().len(), 0);
}

#[test]
fn only_the_least_amex_amount_has_no_negative() {
    let mut r = row("01/05/2024", "A", "-1e300");
    r.rounded_cents = Some(i64::MIN);
    assert!(!is_representable(Source::Amex, &r));
    assert!(is_representable(Source::WellsFargo, &r));
    assert_eq!(read_row(Source::WellsFargo, &r).unwrap().amount_cents, i64::MIN);
    r.rounded_cents = Some(i64::MAX);
    assert!(is_representable(Source::Amex, &r));
    assert_eq!(read_row(Source::Amex, &r).unwrap().amount_cents, -i64::MAX);
    r.rounded_cents = None;
    assert!(is_representable(Source::Amex, &r));
}

#[test]
fn the_inserted_count_is_that_of_new_fingerprints() {
    let rows = vec![
        row("01/05/2024", "A", "1"),
        row("01/05/2024", "B", "1"),
        row("01/05/2024", "A", "1.00"),
        row("01/05/2024", "C", "1"),
        row("01/05/2024", "B", "1"),
    ];
    let known = read_row(Source::Amex, &rows[3]).unwrap().fingerprint();
    let mut store = TransactionStore::load(vec![known.clone()]);
    let counts = run_import(&mut store, Source::Amex, &rows).unwrap();
    let mut prints: Vec<String> =
        rows.iter().map(|r| read_row(Source::Amex, r).unwrap().fingerprint()).collect();
    prints.retain(|f| *f != known);
    prints.sort();
    prints.dedup();
    assert_eq!(counts, (prints.len(), rows.len() - prints.len()));
    assert_eq!(counts, (2, 3));
}

fn overflowing(date: &str) -> BankRow {
    let mut r = row(date, "HUGE", "-1e300");
    r.rounded_cents = Some(i64::MIN);
    r
}

#[test]
fn an_amount_without_a_negative_counts_only_where_it_is_reached() {
    let mut store = TransactionStore::load(Vec::new());
    // After an unreadable row, or on one, it is not reached.
    let rows = vec![row("01/05/2024", "A", "1"), row("x", "B", "1"), overflowing("01/05/2024")];
    assert_eq!(first_overflow(Source::Amex, &rows), None);
    assert!(matches!(
        run_import(&mut store, Source::Amex, &rows),
        Err(ImportError::BadDate { text, .. }) if text == "x"
    ));
    assert_eq!(store.inserts().len(), 1);
    let rows = vec![overflowing("y")];
    assert!(matches!(
        import_rows(&mut store, Source::Amex, &rows),
        Some(Err(ImportError::BadDate { text, .. })) if text == "y"
    ));
    assert!(read_row(Source::Amex, &rows[0]).is_err());
    // Reached, it leaves the table as it is.
    let rows = vec![row("01/05/2024", "C", "1"), overflowing("01/05/2024")];
    assert_eq!(first_overflow(Source::Amex, &rows), Some(1));
    assert!(import_rows(&mut store, Source::Amex, &rows).is_none());
    assert_eq!(store.inserts().len(), 1);
    assert_eq!(first_overflow(Source::WellsFargo, &rows), None);
    assert!(matches!(import_rows(&mut store, Source::WellsFargo, &rows), Some(Ok((2, 0)))));
}
