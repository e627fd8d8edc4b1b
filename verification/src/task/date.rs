//! Calendar dates, as the task metadata holds them, and the calls into
//! `chrono` that parse, print and step them.
use chrono::Datelike;
use vstd::prelude::*;

verus! {

/// The first year that `chrono::NaiveDate` can hold.
pub const MIN_YEAR: i32 = -262143;

/// The last year that `chrono::NaiveDate` can hold.
pub const MAX_YEAR: i32 = 262142;

/// Proleptic Gregorian leap year.
pub open spec fn is_leap(y: int) -> bool {
    (y % 4 == 0 && y % 100 != 0) || y % 400 == 0
}

pub open spec fn days_in_month(y: int, m: int) -> int {
    if m == 2 {
        if is_leap(y) {
            29
        } else {
            28
        }
    } else if m == 4 || m == 6 || m == 9 || m == 11 {
        30
    } else {
        31
    }
}

/// A day that `chrono::NaiveDate` can represent.
pub open spec fn valid_ymd(y: int, m: int, d: int) -> bool {
    &&& MIN_YEAR <= y <= MAX_YEAR
    &&& 1 <= m <= 12
    &&& 1 <= d <= days_in_month(y, m)
}

/// A calendar day (year, month, day), always a valid one.
#[derive(Clone, Copy, Debug, PartialEq, Eq, Structural, Hash)]
pub struct Date {
    year: i32,
    month: u32,
    day: u32,
}

impl Date {
    /// The fields make a day that `chrono::NaiveDate` can represent (every
    /// `Date` value of executable code does).
    #[verifier::type_invariant]
    pub closed spec fn wf(self) -> bool {
        valid_ymd(self.year as int, self.month as int, self.day as int)
    }

    /// The year, month and day.
    pub closed spec fn ymd(self) -> (int, int, int) {
        (self.year as int, self.month as int, self.day as int)
    }

    /// The date with these fields, if it is a valid one.
    pub fn from_ymd_opt(year: i32, month: u32, day: u32) -> (r: Option<Date>)
        ensures
            r is Some <==> valid_ymd(year as int, month as int, day as int),
            r matches Some(d) ==> d.ymd() == (year as int, month as int, day as int),
    {
        if year < MIN_YEAR || year > MAX_YEAR || month < 1 || month > 12 || day < 1 {
            return None;
        }
        let leap = (year % 4 == 0 && year % 100 != 0) || year % 400 == 0;
        let dim: u32 = if month == 2 {
            if leap {
                29
            } else {
                28
            }
        } else if month == 4 || month == 6 || month == 9 || month == 11 {
            30
        } else {
            31
        };
        if day > dim {
            None
        } else {
            Some(Date { year, month, day })
        }
    }

    pub fn year(&self) -> (r: i32)
        ensures
            r == self.ymd().0,
    {
        self.year
    }

    pub fn month(&self) -> (r: u32)
        ensures
            r == self.ymd().1,
    {
        self.month
    }

    pub fn day(&self) -> (r: u32)
        ensures
            r == self.ymd().2,
    {
        self.day
    }

    /// Whether `self` comes strictly before `other`.
    pub fn is_before(&self, other: &Date) -> (r: bool)
        ensures
            r == date_lt(*self, *other),
    {
        self.year < other.year || (self.year == other.year && (self.month < other.month || (
        self.month == other.month && self.day < other.day)))
    }
}

/// Calendar order of dates.
pub closed spec fn date_lt(a: Date, b: Date) -> bool {
    ||| a.year < b.year
    ||| (a.year == b.year && a.month < b.month)
    ||| (a.year == b.year && a.month == b.month && a.day < b.day)
}

/// The calendar order is a strict total order.
pub proof fn lemma_date_lt(a: Date, b: Date, c: Date)
    ensures
        !date_lt(a, a),
        date_lt(a, b) ==> !date_lt(b, a),
        a != b ==> date_lt(a, b) || date_lt(b, a),
        date_lt(a, b) && date_lt(b, c) ==> date_lt(a, c),
{
}

/// The ASCII digit for `d` in `0..10`.
pub open spec fn digit_char(d: int) -> char {
    (48 + d) as char
}

/// Decimal digits of `n`, no leading zero.
pub open spec fn decimal(n: nat) -> Seq<char>
    decreases n,
{
    if n < 10 {
        seq![digit_char(n as int)]
    } else {
        decimal(n / 10).push(digit_char((n % 10) as int))
    }
}

/// `n` in four digits, zero padded (for `n < 10000`).
pub open spec fn four_digits(n: int) -> Seq<char> {
    seq![
        digit_char(n / 1000),
        digit_char((n / 100) % 10),
        digit_char((n / 10) % 10),
        digit_char(n % 10),
    ]
}

/// `n` in two digits, zero padded (for `n < 100`).
pub open spec fn two_digits(n: int) -> Seq<char> {
    seq![digit_char(n / 10), digit_char(n % 10)]
}

/// How `%Y` prints a year: four digits, zero padded, with a sign before
/// years outside `0..=9999`.
pub open spec fn year_text(y: int) -> Seq<char> {
    if 0 <= y <= 9999 {
        four_digits(y)
    } else if y < 0 && -y <= 9999 {
        seq!['-'] + four_digits(-y)
    } else if y < 0 {
        seq!['-'] + decimal((-y) as nat)
    } else {
        seq!['+'] + decimal(y as nat)
    }
}

/// How `%Y-%m-%d` prints a date.
pub closed spec fn iso_text(d: Date) -> Seq<char> {
    year_text(d.year as int) + seq!['-'] + two_digits(d.month as int) + seq!['-'] + two_digits(
        d.day as int,
    )
}

/// How `%m-%d` prints a date.
pub closed spec fn month_day_text(d: Date) -> Seq<char> {
    two_digits(d.month as int) + seq!['-'] + two_digits(d.day as int)
}

pub open spec fn is_digit(c: char) -> bool {
    '0' <= c && c <= '9'
}

pub open spec fn digit_value(c: char) -> int {
    (c as int) - 48
}

/// The decimal digits of `n` (how `Display` prints an unsigned number).
pub fn decimal_chars(n: u64) -> (r: Vec<char>)
    ensures
        r@ == decimal(n as nat),
    decreases n,
{
    let d = n % 10;
    let c = if d == 0 {
        '0'
    } else if d == 1 {
        '1'
    } else if d == 2 {
        '2'
    } else if d == 3 {
        '3'
    } else if d == 4 {
        '4'
    } else if d == 5 {
        '5'
    } else if d == 6 {
        '6'
    } else if d == 7 {
        '7'
    } else if d == 8 {
        '8'
    } else {
        '9'
    };
    assert(c == digit_char(d as int));
    if n < 10 {
        vec![c]
    } else {
        let mut v = decimal_chars(n / 10);
        v.push(c);
        v
    }
}

proof fn lemma_decimal_digits(n: nat)
    ensures
        decimal(n).len() > 0,
        forall|i: int| 0 <= i < decimal(n).len() ==> is_digit(#[trigger] decimal(n)[i]),
    decreases n,
{
    if n >= 10 {
        lemma_decimal_digits(n / 10);
        let p = decimal(n / 10);
        assert forall|i: int| 0 <= i < decimal(n).len() implies is_digit(
            #[trigger] decimal(n)[i],
        ) by {
            if i < p.len() {
                assert(decimal(n)[i] == p[i]);
            }
        }
    }
}

/// The `%Y-%m-%d` text of a date of a year from 0 to 9999 is the ten-char
/// canonical form, which reads back as the date.
pub proof fn lemma_iso_canonical(d: Date)
    requires
        d.wf(),
        0 <= d.ymd().0 <= 9999,
    ensures
        canonical_date(iso_text(d), '-') == Some(d),
{
    let y = d.year as int;
    let m = d.month as int;
    let dd = d.day as int;
    let s = iso_text(d);
    assert(s =~= four_digits(y) + seq!['-'] + two_digits(m) + seq!['-'] + two_digits(dd));
    assert(s.len() == 10);
    assert(1 <= m <= 12 && 1 <= dd <= 31) by {
        assert(days_in_month(y, m) <= 31);
    }
    let y3 = y / 1000;
    let y2 = (y / 100) % 10;
    let y1 = (y / 10) % 10;
    let y0 = y % 10;
    assert(0 <= y3 <= 9 && 0 <= y2 <= 9 && 0 <= y1 <= 9 && 0 <= y0 <= 9);
    assert(y3 * 1000 + y2 * 100 + y1 * 10 + y0 == y) by (nonlinear_arith)
        requires
            0 <= y <= 9999,
            y3 == y / 1000,
            y2 == (y / 100) % 10,
            y1 == (y / 10) % 10,
            y0 == y % 10,
    ;
    assert((m / 10) * 10 + m % 10 == m);
    assert((dd / 10) * 10 + dd % 10 == dd);
    assert(s[0] == digit_char(y3) && s[1] == digit_char(y2) && s[2] == digit_char(y1) && s[3]
        == digit_char(y0));
    assert(s[5] == digit_char(m / 10) && s[6] == digit_char(m % 10));
    assert(s[8] == digit_char(dd / 10) && s[9] == digit_char(dd % 10));
    assert(s[4] == '-' && s[7] == '-');
    assert(digit_value(digit_char(y3)) == y3 && digit_value(digit_char(y2)) == y2);
    assert(digit_value(digit_char(y1)) == y1 && digit_value(digit_char(y0)) == y0);
    assert(digit_value(digit_char(m / 10)) == m / 10 && digit_value(digit_char(m % 10)) == m % 10);
    assert(digit_value(digit_char(dd / 10)) == dd / 10 && digit_value(digit_char(dd % 10)) == dd
        % 10);
}

/// `%Y-%m-%d` writes a valid date of a year up to 9999 in ASCII digits
/// and dashes, and its last char is a digit.
pub proof fn lemma_iso_text_chars(d: Date)
    requires
        d.wf(),
        d.ymd().0 <= 9999,
    ensures
        iso_text(d).len() > 0,
        forall|i: int|
            0 <= i < iso_text(d).len() ==> is_digit(#[trigger] iso_text(d)[i]) || iso_text(
                d,
            )[i] == '-',
        is_digit(iso_text(d).last()),
{
    let y = d.year as int;
    let yt = year_text(y);
    if y < -9999 {
        lemma_decimal_digits((-y) as nat);
        assert forall|i: int| 0 <= i < yt.len() implies is_digit(#[trigger] yt[i]) || yt[i]
            == '-' by {
            if i > 0 {
                assert(yt[i] == decimal((-y) as nat)[i - 1]);
            }
        }
    }
    let s = iso_text(d);
    let m = two_digits(d.month as int);
    let dd = two_digits(d.day as int);
    assert(s =~= yt + seq!['-'] + m + seq!['-'] + dd);
    assert forall|i: int| 0 <= i < s.len() implies is_digit(#[trigger] s[i]) || s[i] == '-' by {
        if i < yt.len() {
            assert(s[i] == yt[i]);
        } else if i == yt.len() {
        } else if i < yt.len() + 3 {
            assert(s[i] == m[i - yt.len() - 1]);
        } else if i == yt.len() + 3 {
        } else {
            assert(s[i] == dd[i - yt.len() - 4]);
        }
    }
    assert(s.last() == dd[1]);
}

/// The date that `s` writes as `YYYY<sep>MM<sep>DD`, ten ASCII chars, when
/// that is a valid date.
pub closed spec fn canonical_date(s: Seq<char>, sep: char) -> Option<Date> {
    if s.len() == 10 && is_digit(s[0]) && is_digit(s[1]) && is_digit(s[2]) && is_digit(s[3])
        && s[4] == sep && is_digit(s[5]) && is_digit(s[6]) && s[7] == sep && is_digit(s[8])
        && is_digit(s[9]) {
        let y = digit_value(s[0]) * 1000 + digit_value(s[1]) * 100 + digit_value(s[2]) * 10
            + digit_value(s[3]);
        let m = digit_value(s[5]) * 10 + digit_value(s[6]);
        let d = digit_value(s[8]) * 10 + digit_value(s[9]);
        if valid_ymd(y, m, d) {
            Some(Date { year: y as i32, month: m as u32, day: d as u32 })
        } else {
            None
        }
    } else {
        None
    }
}

/// What `chrono::NaiveDate::parse_from_str(s, fmt)` gives back, `None` for an error.
pub uninterp spec fn parsed_date(s: Seq<char>, fmt: Seq<char>) -> Option<Date>;

/// Calls `chrono::NaiveDate::parse_from_str`. Its result is the name
/// `parsed_date` of the text and the format; of the formats `%Y-%m-%d` and
/// `%Y/%m/%d` it is also stated that a ten-char `YYYY-MM-DD` (or
/// `YYYY/MM/DD`) text of a valid date gives that date. What chrono accepts
/// beyond that (shorter fields, signs, leading blanks) is left unsaid.
#[verifier::external_body]
pub(crate) fn parse_from_str(s: &str, fmt: &str) -> (r: Option<Date>)
    ensures
        r == parsed_date(s@, fmt@),
        fmt@ == "%Y-%m-%d"@ && canonical_date(s@, '-') is Some ==> r == canonical_date(s@, '-'),
        fmt@ == "%Y/%m/%d"@ && canonical_date(s@, '/') is Some ==> r == canonical_date(s@, '/'),
{
    match chrono::NaiveDate::parse_from_str(s, fmt) {
        Ok(d) => Some(Date { year: d.year(), month: d.month(), day: d.day() }),
        Err(_) => None,
    }
}

/// Calls `chrono::NaiveDate::format` with `%Y-%m-%d` or `%m-%d` and prints it;
/// the contract states the text for both formats.
#[verifier::external_body]
pub(crate) fn format_date(d: Date, fmt: &str) -> (r: String)
    requires
        fmt@ == "%Y-%m-%d"@ || fmt@ == "%m-%d"@,
    ensures
        fmt@ == "%Y-%m-%d"@ ==> r@ == iso_text(d),
        fmt@ == "%m-%d"@ ==> r@ == month_day_text(d),
{
    chrono::NaiveDate::from_ymd_opt(d.year, d.month, d.day).unwrap().format(fmt).to_string()
}

/// The day after `d`, `None` after the last representable day.
pub closed spec fn next_day(d: Date) -> Option<Date> {
    if (d.day as int) < days_in_month(d.year as int, d.month as int) {
        Some(Date { year: d.year, month: d.month, day: (d.day + 1) as u32 })
    } else if d.month < 12 {
        Some(Date { year: d.year, month: (d.month + 1) as u32, day: 1 })
    } else if d.year < MAX_YEAR {
        Some(Date { year: (d.year + 1) as i32, month: 1, day: 1 })
    } else {
        None
    }
}

/// The day before `d`, `None` before the first representable day.
pub closed spec fn prev_day(d: Date) -> Option<Date> {
    if d.day > 1 {
        Some(Date { year: d.year, month: d.month, day: (d.day - 1) as u32 })
    } else if d.month > 1 {
        Some(
            Date {
                year: d.year,
                month: (d.month - 1) as u32,
                day: days_in_month(d.year as int, d.month - 1) as u32,
            },
        )
    } else if d.year > MIN_YEAR {
        Some(Date { year: (d.year - 1) as i32, month: 12, day: 31 })
    } else {
        None
    }
}

/// Calls `chrono::NaiveDate::succ_opt`: the next calendar day.
#[verifier::external_body]
pub(crate) fn succ_date(d: Date) -> (r: Option<Date>)
    ensures
        r == next_day(d),
{
    chrono::NaiveDate::from_ymd_opt(d.year, d.month, d.day).unwrap().succ_opt().map(
        |n| Date { year: n.year(), month: n.month(), day: n.day() },
    )
}

/// Calls `chrono::NaiveDate::pred_opt`: the previous calendar day.
#[verifier::external_body]
pub(crate) fn pred_date(d: Date) -> (r: Option<Date>)
    ensures
        r == prev_day(d),
{
    chrono::NaiveDate::from_ymd_opt(d.year, d.month, d.day).unwrap().pred_opt().map(
        |n| Date { year: n.year(), month: n.month(), day: n.day() },
    )
}

/// Calls `chrono::Local::now().date_naive()`: today in the machine's time
/// zone. Nothing is promised of which day that is.
#[verifier::external_body]
pub(crate) fn today() -> (r: Date) {
    let n = chrono::Local::now().date_naive();
    Date { year: n.year(), month: n.month(), day: n.day() }
}

} // verus!
