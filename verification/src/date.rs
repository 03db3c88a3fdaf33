//! Calendar dates without a time zone, read and written through `chrono`.

use crate::numeral;
use vstd::prelude::*;

verus! {

/// Whether a year of the proleptic Gregorian calendar is a leap year.
pub open spec fn leap_year(year: int) -> bool {
    year % 4 == 0 && (year % 100 != 0 || year % 400 == 0)
}

/// The number of days of a month.
pub open spec fn days_in_month(year: int, month: int) -> int {
    if month == 2 {
        if leap_year(year) {
            29
        } else {
            28
        }
    } else if month == 4 || month == 6 || month == 9 || month == 11 {
        30
    } else {
        31
    }
}

/// Whether a day exists, in the years that a `chrono::NaiveDate` can hold.
pub open spec fn valid_date(year: int, month: int, day: int) -> bool {
    &&& -262143 <= year <= 262142
    &&& 1 <= month <= 12
    &&& 1 <= day <= days_in_month(year, month)
}

/// A year in four digits; one that needs more, or is negative, has a sign.
pub open spec fn year_text(year: int) -> Seq<char> {
    if year > 9999 {
        seq!['+'] + numeral::decimal(year as nat)
    } else if year >= 0 {
        numeral::four_digits(year)
    } else if year >= -9999 {
        seq!['-'] + numeral::four_digits(-year)
    } else {
        seq!['-'] + numeral::decimal((-year) as nat)
    }
}

/// The date as `YYYY-MM-DD`.
pub open spec fn iso_text(year: int, month: int, day: int) -> Seq<char> {
    year_text(year) + seq!['-'] + numeral::two_digits(month) + seq!['-'] + numeral::two_digits(day)
}

/// The text has the shape `MM/DD/YYYY`: two digits, a slash, two digits, a
/// slash and four digits.
pub open spec fn is_month_day_year(s: Seq<char>) -> bool {
    &&& s.len() == 10
    &&& s[2] == '/'
    &&& s[5] == '/'
    &&& numeral::all_digits(s.subrange(0, 2))
    &&& numeral::all_digits(s.subrange(3, 5))
    &&& numeral::all_digits(s.subrange(6, 10))
}

/// The year, month and day that a text of the shape `MM/DD/YYYY` names.
pub open spec fn named_day(s: Seq<char>) -> (int, int, int) {
    (
        numeral::digits_value(s.subrange(6, 10)),
        numeral::digits_value(s.subrange(0, 2)),
        numeral::digits_value(s.subrange(3, 5)),
    )
}

/// How many slashes stand in a text.
pub open spec fn slashes(s: Seq<char>) -> nat {
    s.filter(|c: char| c == '/').len()
}

/// The year, month and day that a text names, written month first. A text of
/// the shape `MM/DD/YYYY` names the day in its digits, if it exists, and a text
/// with fewer or more than two slashes names none; other texts are left to
/// `chrono`.
pub open spec fn read_date(text: Seq<char>) -> Option<(int, int, int)> {
    if is_month_day_year(text) {
        let (y, m, d) = named_day(text);
        if valid_date(y, m, d) {
            Some((y, m, d))
        } else {
            None
        }
    } else if slashes(text) != 2 {
        None
    } else {
        chrono_date(text, "%m/%d/%Y"@)
    }
}

// --- What chrono does ------------------------------------------------------

/// The error of `chrono`'s parsers. It is handed on as it is: nothing is said
/// of what is inside.
#[verifier::external_type_specification]
#[verifier::external_body]
pub struct ExChronoParseError(chrono::ParseError);

/// The year, month and day that `chrono::NaiveDate::parse_from_str` reads from
/// a text under a format, or `None` where it refuses the text.
pub uninterp spec fn chrono_date(text: Seq<char>, format: Seq<char>) -> Option<(int, int, int)>;

/// Calls `chrono::NaiveDate::parse_from_str` under the format `%m/%d/%Y` and
/// takes the date apart with `year`, `month` and `day`. Other formats are left
/// out: under some, such as that of ISO weeks, there are texts on which the call
/// panics. The outcome depends on the text and the format alone and is named
/// `chrono_date`; what it gives is a day that exists. A text of two digits, a
/// slash, two digits, a slash and four digits is accepted where the digits name
/// a day that exists, and read as that day, and refused where they do not; a
/// text with fewer or more than two slashes is refused. Which error a refusal
/// brings is left unsaid.
#[verifier::external_body]
fn parse_year_month_day(text: &str, format: &str) -> (r: Result<
    (i32, u32, u32),
    chrono::ParseError,
>)
    requires
        format@ == "%m/%d/%Y"@,
    ensures
        r matches Ok(d) ==> {
            &&& chrono_date(text@, format@) == Some((d.0 as int, d.1 as int, d.2 as int))
            &&& valid_date(d.0 as int, d.1 as int, d.2 as int)
        },
        r is Err ==> chrono_date(text@, format@) is None,
        is_month_day_year(text@) ==> ({
            let (y, m, d) = named_day(text@);
            if valid_date(y, m, d) {
                r matches Ok(v) && v.0 == y && v.1 == m && v.2 == d
            } else {
                r is Err
            }
        }),
        slashes(text@) != 2 ==> r is Err,
{
    let date = chrono::NaiveDate::parse_from_str(text, format)?;
    Ok((chrono::Datelike::year(&date), chrono::Datelike::month(&date), chrono::Datelike::day(&date)))
}

/// Calls `chrono::NaiveDate::format` on the date that
/// `chrono::NaiveDate::from_ymd_opt` makes of the three numbers. Under the
/// format `%Y-%m-%d` the result is the date as `iso_text` writes it.
#[verifier::external_body]
fn format_year_month_day(year: i32, month: u32, day: u32, format: &str) -> (r: String)
    requires
        valid_date(year as int, month as int, day as int),
        format@ == "%Y-%m-%d"@,
    ensures
        r@ == iso_text(year as int, month as int, day as int),
{
    chrono::NaiveDate::from_ymd_opt(year, month, day).unwrap().format(format).to_string()
}

// --- The date --------------------------------------------------------------

/// A day of the calendar. Banks deal in calendar dates, not instants.
#[derive(Debug, Clone, Copy, PartialEq, Eq)]
pub struct CalendarDate {
    year: i32,
    month: u32,
    day: u32,
}

impl View for CalendarDate {
    type V = (int, int, int);

    closed spec fn view(&self) -> (int, int, int) {
        (self.year as int, self.month as int, self.day as int)
    }
}

fn is_leap_year(year: i32) -> (r: bool)
    ensures
        r == leap_year(year as int),
{
    year % 4 == 0 && (year % 100 != 0 || year % 400 == 0)
}

impl CalendarDate {
    #[verifier::type_invariant]
    spec fn exists_in_calendar(self) -> bool {
        valid_date(self.year as int, self.month as int, self.day as int)
    }

    /// The day with this year, month and day, where there is one.
    pub fn from_ymd_opt(year: i32, month: u32, day: u32) -> (r: Option<CalendarDate>)
        ensures
            r is Some <==> valid_date(year as int, month as int, day as int),
            r matches Some(d) ==> d@ == (year as int, month as int, day as int),
    {
        if year < -262143 || year > 262142 || month < 1 || month > 12 || day < 1 {
            return None;
        }
        let days: u32 = if month == 2 {
            if is_leap_year(year) {
                29
            } else {
                28
            }
        } else if month == 4 || month == 6 || month == 9 || month == 11 {
            30
        } else {
            31
        };
        if day > days {
            None
        } else {
            Some(CalendarDate { year, month, day })
        }
    }

    /// The day that `text` names, written month first as `MM/DD/YYYY`, or
    /// `chrono`'s error where it names none.
    pub fn parse_month_day_year(text: &str) -> (r: Result<CalendarDate, chrono::ParseError>)
        ensures
            (match r {
                Ok(date) => read_date(text@) == Some(date@),
                Err(_) => read_date(text@) is None,
            }),
    {
        match parse_year_month_day(text, "%m/%d/%Y") {
            Ok((year, month, day)) => Ok(CalendarDate { year, month, day }),
            Err(e) => Err(e),
        }
    }

    /// The date as `YYYY-MM-DD`.
    pub fn to_iso(&self) -> (r: String)
        ensures
            r@ == iso_text(self@.0, self@.1, self@.2),
            valid_date(self@.0, self@.1, self@.2),
    {
        proof {
            use_type_invariant(self);
        }
        format_year_month_day(self.year, self.month, self.day, "%Y-%m-%d")
    }
}

// --- Laws ------------------------------------------------------------------

/// The date as `MM/DD/YYYY`.
pub open spec fn month_day_year(year: int, month: int, day: int) -> Seq<char> {
    numeral::two_digits(month) + seq!['/'] + numeral::two_digits(day) + seq!['/']
        + numeral::four_digits(year)
}

/// Every day of the years 0 to 9999 is read from its `MM/DD/YYYY` text.
pub proof fn every_day_is_read_from_its_text(year: int, month: int, day: int)
    requires
        valid_date(year, month, day),
        0 <= year <= 9999,
    ensures
        read_date(month_day_year(year, month, day)) == Some((year, month, day)),
{
    let s = month_day_year(year, month, day);
    assert(s.subrange(0, 2) =~= numeral::two_digits(month));
    assert(s.subrange(3, 5) =~= numeral::two_digits(day));
    assert(s.subrange(6, 10) =~= numeral::four_digits(year));
    numeral::two_digits_read_back(month);
    numeral::two_digits_read_back(day);
    numeral::four_digits_read_back(year);
}

/// What follows the sign of a year's text, and the sign itself.
proof fn lemma_year_text(year: int) -> (digits: Seq<char>)
    ensures
        numeral::all_digits(digits),
        digits.len() > 0,
        numeral::digits_value(digits) == (if year < 0 {
            -year
        } else {
            year
        }),
        year_text(year) == (if year > 9999 {
            seq!['+'] + digits
        } else if year < 0 {
            seq!['-'] + digits
        } else {
            digits
        }),
{
    let m = if year < 0 {
        -year
    } else {
        year
    };
    if m <= 9999 {
        numeral::four_digits_read_back(m);
        numeral::four_digits(m)
    } else {
        numeral::decimal_reads_back(m as nat);
        numeral::decimal(m as nat)
    }
}

/// Different years have different texts.
proof fn lemma_year_text_injective(a: int, b: int)
    requires
        year_text(a) == year_text(b),
    ensures
        a == b,
{
    let x = lemma_year_text(a);
    let y = lemma_year_text(b);
    assert(year_text(a)[0] == year_text(b)[0]);
    assert(numeral::is_digit(x[0]) && numeral::is_digit(y[0]));
    assert(year_text(a).drop_first() == year_text(b).drop_first());
    if 0 <= a <= 9999 {
        assert(year_text(a)[0] == x[0]);
        assert(0 <= b <= 9999);
    } else {
        assert(!(0 <= b <= 9999)) by {
            if 0 <= b <= 9999 {
                assert(year_text(b)[0] == y[0]);
            }
        }
        assert(year_text(a).drop_first() =~= x);
        assert(year_text(b).drop_first() =~= y);
        assert(year_text(a)[0] == '-' <==> a < 0);
        assert(year_text(b)[0] == '-' <==> b < 0);
    }
}

/// Different days have different `YYYY-MM-DD` texts.
pub proof fn iso_text_injective(y1: int, m1: int, d1: int, y2: int, m2: int, d2: int)
    requires
        valid_date(y1, m1, d1),
        valid_date(y2, m2, d2),
        iso_text(y1, m1, d1) == iso_text(y2, m2, d2),
    ensures
        y1 == y2,
        m1 == m2,
        d1 == d2,
{
    let (a, b) = (iso_text(y1, m1, d1), iso_text(y2, m2, d2));
    let (j, k) = (a.len() - 6, b.len() - 6);
    assert(a.take(j) =~= year_text(y1));
    assert(b.take(k) =~= year_text(y2));
    lemma_year_text_injective(y1, y2);
    assert(a.subrange(j + 1, j + 3) =~= numeral::two_digits(m1));
    assert(b.subrange(k + 1, k + 3) =~= numeral::two_digits(m2));
    assert(a.subrange(j + 4, j + 6) =~= numeral::two_digits(d1));
    assert(b.subrange(k + 4, k + 6) =~= numeral::two_digits(d2));
    assert(numeral::two_digits(m1)[0] == numeral::two_digits(m2)[0]);
    assert(numeral::two_digits(m1)[1] == numeral::two_digits(m2)[1]);
    assert(numeral::two_digits(d1)[0] == numeral::two_digits(d2)[0]);
    assert(numeral::two_digits(d1)[1] == numeral::two_digits(d2)[1]);
}

/// A `YYYY-MM-DD` text holds digits, hyphens and at most a sign, so never a bar.
pub proof fn iso_text_has_no_bar(year: int, month: int, day: int)
    requires
        valid_date(year, month, day),
    ensures
        !iso_text(year, month, day).contains('|'),
{
    let digits = lemma_year_text(year);
    let s = iso_text(year, month, day);
    let t = year_text(year);
    assert forall|i: int| 0 <= i < s.len() implies s[i] != '|' by {
        if i < t.len() {
            assert(s[i] == t[i]);
            let j = i - (t.len() - digits.len());
            if j >= 0 {
                assert(t[i] == digits[j]);
            }
        }
    }
}

} // verus!
