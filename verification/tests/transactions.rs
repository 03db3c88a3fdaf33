use finance_tracker_api::amount;
use finance_tracker_api::date::CalendarDate;
use finance_tracker_api::model::{Source, Transaction};
use finance_tracker_api::screen::format_amount;

fn day(year: i32, month: u32, day: u32) -> CalendarDate {
    CalendarDate::from_ymd_opt(year, month, day).unwrap()
}

fn wells(description: &str, amount_cents: i64) -> Transaction {
    Transaction {
        source: Source::WellsFargo,
        txn_date: day(2024, 1, 15),
        description: description.to_string(),
        amount_cents,
        card_member: None,
    }
}

#[test]
fn sources_have_their_names() {
    assert_eq!(Source::WellsFargo.as_str(), "wells_fargo");
    assert_eq!(Source::Amex.as_str(), "amex");
}

#[test]
fn only_days_of_the_calendar_exist() {
    assert!(CalendarDate::from_ymd_opt(2024, 2, 29).is_some());
    assert!(CalendarDate::from_ymd_opt(2023, 2, 29).is_none());
    assert!(CalendarDate::from_ymd_opt(1900, 2, 29).is_none());
    assert!(CalendarDate::from_ymd_opt(2000, 2, 29).is_some());
    assert!(CalendarDate::from_ymd_opt(2024, 4, 31).is_none());
    assert!(CalendarDate::from_ymd_opt(2024, 13, 1).is_none());
    assert!(CalendarDate::from_ymd_opt(2024, 0, 1).is_none());
    assert!(CalendarDate::from_ymd_opt(2024, 1, 0).is_none());
}

#[test]
fn days_exist_where_chrono_has_them() {
    for year in [-262143, -262142, -1, 0, 1, 1900, 2000, 2023, 2024, 9999, 10000, 262142, 262143] {
        for month in 0..15 {
            for d in 0..35 {
                let ours = CalendarDate::from_ymd_opt(year, month, d);
                let theirs = chrono::NaiveDate::from_ymd_opt(year, month, d);
                assert_eq!(ours.is_some(), theirs.is_some(), "{year} {month} {d}");
                if let (Some(a), Some(b)) = (ours, theirs) {
                    assert_eq!(a.to_iso(), b.format("%Y-%m-%d").to_string());
                }
            }
        }
    }
}

#[test]
fn dates_are_written_in_iso_form() {
    assert_eq!(day(2024, 1, 5).to_iso(), "2024-01-05");
    assert_eq!(day(33, 12, 31).to_iso(), "0033-12-31");
    assert_eq!(day(12345, 6, 7).to_iso(), "+12345-06-07");
    assert_eq!(day(-4, 6, 7).to_iso(), "-0004-06-07");
}

#[test]
fn dates_are_read_month_first() {
    let read = CalendarDate::parse_month_day_year("02/29/2024");
    assert_eq!(read, Ok(day(2024, 2, 29)));
    assert_eq!(CalendarDate::parse_month_day_year("1/5/2024"), Ok(day(2024, 1, 5)));
    assert_eq!(CalendarDate::parse_month_day_year("1/ 5/-4"), Ok(day(-4, 1, 5)));
    for refused in [
        "02/29/2023",
        "2024-02-29",
        "01052024",
        "01/05",
        "01/05/20/24",
        "01/01/-2147483648",
        "01/01/+9223372036854775808",
        "",
    ] {
        let theirs = chrono::NaiveDate::parse_from_str(refused, "%m/%d/%Y").unwrap_err();
        assert_eq!(CalendarDate::parse_month_day_year(refused), Err(theirs), "{refused}");
    }
}

#[test]
fn every_day_of_a_leap_year_reads_back() {
    for month in 1..=12 {
        for d in 1..=31 {
            let written = format!("{month:02}/{d:02}/2024");
            let read = CalendarDate::parse_month_day_year(&written);
            assert_eq!(read.ok(), CalendarDate::from_ymd_opt(2024, month, d), "{written}");
        }
    }
}

#[test]
fn plain_amounts_are_exact() {
    assert_eq!(amount::parse_cents("-33.21", None), Some(-3321));
    assert_eq!(amount::parse_cents("11.35", None), Some(1135));
    assert_eq!(amount::parse_cents(" 1,234.56 ", None), Some(123456));
    assert_eq!(amount::parse_cents("+7", None), Some(700));
    assert_eq!(amount::parse_cents("7.", None), Some(700));
    assert_eq!(amount::parse_cents(".5", None), Some(50));
    assert_eq!(amount::parse_cents("-0.05", None), Some(-5));
    assert_eq!(amount::parse_cents("9999999999999.99", None), Some(999999999999999));
    assert_eq!(amount::parse_cents("-10000000000000.00", None), Some(-1000000000000000));
    assert_eq!(amount::parse_cents("10000000000000.01", None), None);
}

#[test]
fn plain_amounts_agree_with_rounded_floats() {
    for cents in [0i64, 1, 5, 99, 100, 101, 3321, 8765, 123456, 999999999999999, 1000000000000000] {
        for sign in ["", "-"] {
            let written = format!("{sign}{}.{:02}", cents / 100, cents % 100);
            let value: f64 = written.parse().unwrap();
            let rounded = (value * 100.0).round() as i64;
            assert_eq!(amount::parse_cents(&written, None), Some(rounded), "{written}");
        }
    }
}

#[test]
fn other_amounts_go_by_the_rounded_reading() {
    assert_eq!(amount::parse_cents("1.005", Some(100)), Some(100));
    assert_eq!(amount::parse_cents("1e3", Some(100000)), Some(100000));
    assert_eq!(amount::parse_cents("12345678901234", Some(1234567890123400)), Some(1234567890123400));
    assert_eq!(amount::parse_cents("abc", None), None);
    assert_eq!(amount::parse_cents("", None), None);
    assert_eq!(amount::parse_cents("-", None), None);
    assert_eq!(amount::parse_cents(".", None), None);
    assert_eq!(amount::parse_cents("$5", None), None);
}

#[test]
fn amounts_lose_white_space_and_commas() {
    assert_eq!(amount::clean_amount(" 1,234.56\t"), "1234.56");
    assert_eq!(amount::clean_amount(",,"), "");
}

#[test]
fn the_payload_names_source_date_cents_and_description() {
    let t = wells("WEIS MARKETS 200", -3321);
    assert_eq!(t.payload(), "wells_fargo|2024-01-15|-3321|WEIS MARKETS 200");
}

#[test]
fn the_fingerprint_is_the_digest_of_the_payload() {
    assert_eq!(
        wells("WEIS MARKETS 200", -3321).fingerprint(),
        "4e4ff74005d75a1ecdeea4447ebee1316addad78f4a5fe90884d62a18b782146"
    );
    let t = Transaction {
        source: Source::Amex,
        txn_date: day(2024, 2, 29),
        description: "CAFÉ".to_string(),
        amount_cents: -1135,
        card_member: Some("A B".to_string()),
    };
    assert_eq!(
        t.fingerprint(),
        "53f781220b6b3e725e1caa3ffaacff23c057bfa53ba2636b8a973742961c62ba"
    );
}

#[test]
fn the_fingerprint_tells_transactions_apart_but_not_card_members() {
    let t = wells("A", 100);
    assert_ne!(t.fingerprint(), wells("A", -100).fingerprint());
    assert_ne!(t.fingerprint(), wells("B", 100).fingerprint());
    let mut other = wells("A", 100);
    other.card_member = Some("X".to_string());
    assert_eq!(t.fingerprint(), other.fingerprint());
    assert_eq!(wells("x", i64::MIN).payload(), "wells_fargo|2024-01-15|-9223372036854775808|x");
}

#[test]
fn shown_amounts_read_back_without_their_dollar_sign() {
    for cents in [0i64, 1, 99, 100, 3321, 123456, 999999999999999, 1000000000000000] {
        for c in [cents, -cents] {
            let written = format_amount(c).replace('$', "");
            assert_eq!(amount::parse_cents(&written, None), Some(c), "{written}");
        }
    }
}
