//! Calendar days, held as day numbers in the proleptic Gregorian calendar
//! (January 1 of year 1 is day 1), within the range of `chrono::NaiveDate`.

use chrono::Datelike;
use vstd::prelude::*;

verus! {

/// Day number of `chrono::NaiveDate::MIN`, January 1 of year -262143.
pub const MIN_DAY: i32 = -95746129;

/// Day number of `chrono::NaiveDate::MAX`, December 31 of year 262142.
pub const MAX_DAY: i32 = 95745399;

/// A calendar day.
#[derive(Clone, Copy, Debug, PartialEq, Eq, Structural, PartialOrd, Ord, Hash)]
pub struct Date {
    pub(crate) days: i32,
}

/// The text that `chrono::NaiveDate`'s `Display` gives for the day `days`.
pub uninterp spec fn iso_text(days: i32) -> Seq<char>;

/// The day number that `chrono::NaiveDate::parse_from_str(s, "%Y-%m-%d")` reads from `s`,
/// if it reads one.
pub uninterp spec fn iso_date_days(s: Seq<char>) -> Option<i32>;

/// Relies on `chrono::NaiveDate::from_num_days_from_ce_opt`, which gives a date for every day
/// number in the range of `NaiveDate`, and on `NaiveDate`'s `Display`.
#[verifier::external_body]
fn render_iso(days: i32) -> (r: String)
    requires
        MIN_DAY <= days <= MAX_DAY,
    ensures
        r@ == iso_text(days),
{
    chrono::NaiveDate::from_num_days_from_ce_opt(days).unwrap().to_string()
}

/// Relies on `chrono::NaiveDate::parse_from_str` with the format `%Y-%m-%d`, and on
/// `Datelike::num_days_from_ce`; a parsed date lies within the range of `NaiveDate`.
#[verifier::external_body]
fn parse_iso(s: &str) -> (r: Option<i32>)
    ensures
        r == iso_date_days(s@),
        r matches Some(d) ==> MIN_DAY <= d <= MAX_DAY,
{
    match chrono::NaiveDate::parse_from_str(s, "%Y-%m-%d") {
        Ok(d) => Some(d.num_days_from_ce()),
        Err(_) => None,
    }
}

/// Relies on `chrono::Local::now().date_naive()`: the current day in the local time zone,
/// which lies within the range of `NaiveDate`.
#[verifier::external_body]
fn local_today() -> (r: i32)
    ensures
        MIN_DAY <= r <= MAX_DAY,
{
    chrono::Local::now().date_naive().num_days_from_ce()
}

impl View for Date {
    type V = int;

    /// The day number.
    closed spec fn view(&self) -> int {
        self.days as int
    }
}

impl Date {
    #[verifier::type_invariant]
    spec fn in_range(self) -> bool {
        MIN_DAY <= self.days <= MAX_DAY
    }

    /// The day with the given day number, if it lies within the calendar's range.
    pub fn from_days(days: i32) -> (r: Option<Date>)
        ensures
            r matches Some(d) ==> d@ == days,
            r is Some <==> MIN_DAY <= days <= MAX_DAY,
    {
        if MIN_DAY <= days && days <= MAX_DAY {
            Some(Date { days })
        } else {
            None
        }
    }

    /// This day's number.
    pub fn days(&self) -> (r: i32)
        ensures
            r == self@,
            MIN_DAY <= r <= MAX_DAY,
    {
        proof {
            use_type_invariant(self);
        }
        self.days
    }

    /// The day before, if it lies within the calendar's range.
    pub fn pred(&self) -> (r: Option<Date>)
        ensures
            r matches Some(d) ==> d@ == self@ - 1,
            r is Some <==> self@ > MIN_DAY,
    {
        proof {
            use_type_invariant(self);
        }
        if self.days > MIN_DAY {
            Some(Date { days: self.days - 1 })
        } else {
            None
        }
    }

    /// Whether this day is `today` or the day before it.
    pub fn is_today_or_yesterday(&self, today: Date) -> (r: bool)
        ensures
            r == (self@ == today@ || self@ + 1 == today@),
    {
        self.days == today.days || self.days as i64 + 1 == today.days as i64
    }

    /// Reads a date written as `YYYY-MM-DD`.
    pub fn parse_iso(s: &str) -> (r: Option<Date>)
        ensures
            r matches Some(d) ==> iso_date_days(s@) matches Some(n) && d@ == n,
            r is None <==> iso_date_days(s@) is None,
    {
        match parse_iso(s) {
            Some(days) => Some(Date { days }),
            None => None,
        }
    }

    /// This day written as `YYYY-MM-DD`.
    pub fn to_iso(&self) -> (r: String)
        ensures
            r@ == iso_text(self@ as i32),
    {
        proof {
            use_type_invariant(self);
        }
        render_iso(self.days)
    }
}

/// The current day in the local time zone. Sessions may cross midnight, so this is read
/// afresh at each call.
pub fn today() -> (r: Date) {
    Date { days: local_today() }
}

} // verus!
