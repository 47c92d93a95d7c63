//! Calendar dates as plain values, their order, their `YYYY-MM-DD` text, and
//! the date parser of chrono.
use crate::text::{
    decimal, is_digit, lemma_padded_digits, padded, push_decimal, push_padded, string_of,
};
use chrono::Datelike;
use vstd::prelude::*;

verus! {

/// A date of the proleptic Gregorian calendar.
#[derive(Clone, Copy, Debug, PartialEq, Eq, Structural, Hash)]
pub struct Date {
    pub year: i32,
    pub month: u32,
    pub day: u32,
}

pub open spec fn is_leap(y: int) -> bool {
    y % 4 == 0 && (y % 100 != 0 || y % 400 == 0)
}

pub open spec fn days_in_month(y: int, m: int) -> int {
    if m == 2 {
        if is_leap(y) {
            29
        } else {
            28
        }
    } else if m == 4 || m == 6 || m == 9 || m == 11 {
        30
    } else {
        31
    }
}

pub open spec fn valid_ymd(y: int, m: int, d: int) -> bool {
    1 <= m <= 12 && 1 <= d <= days_in_month(y, m)
}

/// `a` comes strictly before `b` in the calendar.
pub open spec fn date_lt(a: Date, b: Date) -> bool {
    ||| a.year < b.year
    ||| a.year == b.year && a.month < b.month
    ||| a.year == b.year && a.month == b.month && a.day < b.day
}

/// The year as `%Y` writes it: four digits, zero-padded, with a sign
/// outside `0..=9999`.
pub open spec fn year_text(y: int) -> Seq<char> {
    if 0 <= y <= 9999 {
        padded(y as nat, 4)
    } else if y > 9999 {
        seq!['+'] + decimal(y as nat)
    } else {
        seq!['-'] + padded((-y) as nat, 4)
    }
}

/// The `YYYY-MM-DD` text of a date.
pub open spec fn ymd_text(y: int, m: nat, d: nat) -> Seq<char> {
    year_text(y) + seq!['-'] + padded(m, 2) + seq!['-'] + padded(d, 2)
}

/// Whether `y` is a leap year.
pub fn is_leap_year(y: i32) -> (r: bool)
    ensures
        r == is_leap(y as int),
{
    // Shifting by a multiple of 400 years keeps the leap-year pattern and
    // makes the year non-negative.
    let s: u64 = (y as i64 + 2_400_000_000i64) as u64;
    proof {
        let yi = y as int;
        assert(s as int == yi + 400 * 6_000_000);
        assert((yi + 400 * 6_000_000) % 4 == yi % 4) by (nonlinear_arith);
        assert((yi + 400 * 6_000_000) % 100 == yi % 100) by (nonlinear_arith);
        assert((yi + 400 * 6_000_000) % 400 == yi % 400) by (nonlinear_arith);
    }
    s % 4 == 0 && (s % 100 != 0 || s % 400 == 0)
}

impl Date {
    pub open spec fn wf(self) -> bool {
        valid_ymd(self.year as int, self.month as int, self.day as int)
    }

    pub open spec fn text(self) -> Seq<char> {
        ymd_text(self.year as int, self.month as nat, self.day as nat)
    }

    /// The date of the given year, month and day, if there is one.
    pub fn new(year: i32, month: u32, day: u32) -> (r: Option<Date>)
        ensures
            r is Some <==> valid_ymd(year as int, month as int, day as int),
            r matches Some(d) ==> d.year == year && d.month == month && d.day == day,
    {
        if month < 1 || month > 12 || day < 1 {
            return None;
        }
        let leap = is_leap_year(year);
        let dim: u32 = if month == 2 {
            if leap {
                29
            } else {
                28
            }
        } else if month == 4 || month == 6 || month == 9 || month == 11 {
            30
        } else {
            31
        };
        if day > dim {
            None
        } else {
            Some(Date { year, month, day })
        }
    }

    /// Whether `self` comes strictly before `other`.
    pub fn before(&self, other: &Date) -> (r: bool)
        ensures
            r == date_lt(*self, *other),
    {
        self.year < other.year || (self.year == other.year && (self.month < other.month || (
        self.month == other.month && self.day < other.day)))
    }

    /// Appends the `YYYY-MM-DD` text of the date to `out`.
    pub fn push_text(&self, out: &mut Vec<char>)
        ensures
            final(out)@ == old(out)@ + self.text(),
    {
        let ghost start = out@;
        if self.year < 0 {
            out.push('-');
            let a: i64 = -(self.year as i64);
            push_padded(out, a as u64, 4);
        } else if self.year > 9999 {
            out.push('+');
            push_decimal(out, self.year as u64);
        } else {
            push_padded(out, self.year as u64, 4);
        }
        assert(out@ =~= start + year_text(self.year as int));
        out.push('-');
        push_padded(out, self.month as u64, 2);
        out.push('-');
        push_padded(out, self.day as u64, 2);
        assert(out@ =~= start + self.text());
    }

    /// The `YYYY-MM-DD` text of the date.
    pub fn to_text(&self) -> (r: String)
        ensures
            r@ == self.text(),
    {
        let mut out: Vec<char> = Vec::new();
        self.push_text(&mut out);
        assert(out@ =~= self.text());
        string_of(out.as_slice())
    }
}

/// What chrono's `NaiveDate::parse_from_str(s, "%Y-%m-%d")` gives for `s`,
/// as year, month and day.
pub uninterp spec fn chrono_ymd(s: Seq<char>) -> Option<(i32, u32, u32)>;

/// Relies on `chrono::NaiveDate::parse_from_str` with the format `%Y-%m-%d`:
/// what it parses is a valid calendar date, and the text that `%Y-%m-%d`
/// writes for a valid date of a four-digit year parses back to that date.
#[verifier::external_body]
pub(crate) fn parse_ymd(s: &str) -> (r: Option<(i32, u32, u32)>)
    ensures
        r == chrono_ymd(s@),
        r matches Some(t) ==> valid_ymd(t.0 as int, t.1 as int, t.2 as int),
        forall|y: i32, m: u32, d: u32|
            0 <= y <= 9999 && valid_ymd(y as int, m as int, d as int) && s@ == #[trigger] ymd_text(
                y as int,
                m as nat,
                d as nat,
            ) ==> r == Some((y, m, d)),
{
    match chrono::NaiveDate::parse_from_str(s, "%Y-%m-%d") {
        Ok(d) => Some((d.year(), d.month(), d.day())),
        Err(_) => None,
    }
}

/// The date that `s` denotes in the `YYYY-MM-DD` form that chrono reads.
pub open spec fn date_of_text(s: Seq<char>) -> Option<Date> {
    match chrono_ymd(s) {
        Some(t) => Some(Date { year: t.0, month: t.1, day: t.2 }),
        None => None,
    }
}

/// Parses a `YYYY-MM-DD` date.
pub fn parse_date(s: &str) -> (r: Option<Date>)
    ensures
        r == date_of_text(s@),
        r matches Some(d) ==> d.wf(),
        forall|d: Date|
            d.wf() && 0 <= d.year <= 9999 && s@ == #[trigger] d.text() ==> r == Some(d),
{
    match parse_ymd(s) {
        Some(t) => Some(Date { year: t.0, month: t.1, day: t.2 }),
        None => None,
    }
}

/// The text of a date of a four-digit year: ten characters, digits but for
/// the two dashes.
pub proof fn lemma_text_shape(d: Date)
    requires
        d.wf(),
        0 <= d.year <= 9999,
    ensures
        d.text().len() == 10,
        forall|i: int| 0 <= i < 10 ==> (is_digit(#[trigger] d.text()[i]) || d.text()[i] == '-'),
        is_digit(d.text()[0]),
        is_digit(d.text()[9]),
{
    lemma_padded_digits(d.year as nat, 4);
    lemma_padded_digits(d.month as nat, 2);
    lemma_padded_digits(d.day as nat, 2);
    crate::text::lemma_decimal_len(d.year as nat);
    crate::text::lemma_decimal_len(d.month as nat);
    crate::text::lemma_decimal_len(d.day as nat);
    let y = padded(d.year as nat, 4);
    let m = padded(d.month as nat, 2);
    let dd = padded(d.day as nat, 2);
    assert(d.text() == y + seq!['-'] + m + seq!['-'] + dd);
    assert forall|i: int| 0 <= i < 10 implies (is_digit(#[trigger] d.text()[i]) || d.text()[i]
        == '-') by {
        if i < 4 {
            assert(d.text()[i] == y[i]);
        } else if i == 4 {
        } else if i < 7 {
            assert(d.text()[i] == m[i - 5]);
        } else if i == 7 {
        } else {
            assert(d.text()[i] == dd[i - 8]);
        }
    }
    assert(d.text()[0] == y[0]);
    assert(d.text()[9] == dd[1]);
}

} // verus!
