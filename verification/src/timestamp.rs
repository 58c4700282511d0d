//! Points in time as the registry gives them, and the date as the report shows it.

use chrono::{Datelike, Timelike};
use vstd::prelude::*;
use crate::text::{decimal, push_decimal, push_two_digits, two_digits};

verus! {

/// A point in time on the calendar, in UTC.
#[derive(Debug, Clone, Copy, PartialEq, Eq)]
pub struct Timestamp {
    pub year: i32,
    /// From 1.
    pub month: u32,
    /// From 1.
    pub day: u32,
    pub hour: u32,
    pub minute: u32,
    pub second: u32,
    pub nanosecond: u32,
}

/// The point in time that `chrono` reads out of `text` as a date and time with
/// an offset, moved to UTC; `None` where it reads none.
pub uninterp spec fn timestamp_of(text: Seq<char>) -> Option<Timestamp>;

/// The year as the report shows it: four digits from 0 to 9999, and otherwise
/// a sign and at least four digits.
pub open spec fn year_text(year: int) -> Seq<char> {
    let digits = if year < 0 {
        decimal((-year) as nat)
    } else {
        decimal(year as nat)
    };
    let padded = if digits.len() < 4 {
        Seq::new((4 - digits.len()) as nat, |i: int| '0') + digits
    } else {
        digits
    };
    if year < 0 {
        seq!['-'] + padded
    } else if year > 9999 {
        seq!['+'] + padded
    } else {
        padded
    }
}

/// Reads `text` as `chrono`'s `FromStr` for `DateTime<Utc>` does, and takes the
/// fields of the result from `Datelike` and `Timelike`. The result is the same
/// for the same text.
#[verifier::external_body]
fn read_timestamp(text: &str) -> (parsed: Option<Timestamp>)
    ensures
        parsed == timestamp_of(text@),
{
    match text.parse::<chrono::DateTime<chrono::Utc>>() {
        Ok(time) => Some(
            Timestamp {
                year: time.year(),
                month: time.month(),
                day: time.day(),
                hour: time.hour(),
                minute: time.minute(),
                second: time.second(),
                nanosecond: time.nanosecond(),
            },
        ),
        Err(_) => None,
    }
}

impl Timestamp {
    /// The date as the report shows it: day, month and year, with `/` between.
    pub open spec fn date_text(self) -> Seq<char> {
        two_digits(self.day as nat) + seq!['/'] + two_digits(self.month as nat) + seq!['/']
            + year_text(self.year as int)
    }

    /// The point in time that `text` gives as a date and time with an offset.
    /// The form is that of RFC 3339, read loosely as `chrono` reads it: a
    /// space may stand for the `T` and between the parts, numbers need not
    /// have their leading zeros, and the offset may lack its colon.
    pub fn parse(text: &str) -> (parsed: Option<Timestamp>)
        ensures
            parsed == timestamp_of(text@),
    {
        read_timestamp(text)
    }

    /// Appends the date to `text` as the report shows it.
    pub fn push_date(&self, text: &mut String)
        ensures
            final(text)@ == old(text)@ + self.date_text(),
    {
        push_two_digits(text, self.day as u64);
        text.push('/');
        push_two_digits(text, self.month as u64);
        text.push('/');
        let size: u64 = if self.year < 0 {
            text.push('-');
            (-(self.year as i64)) as u64
        } else {
            if self.year > 9999 {
                text.push('+');
            }
            self.year as u64
        };
        let ghost signed = text@;
        if size < 1000 {
            text.push('0');
        }
        if size < 100 {
            text.push('0');
        }
        if size < 10 {
            text.push('0');
        }
        proof {
            lemma_decimal_len(size as nat);
        }
        let ghost digits = decimal(size as nat);
        assert(digits.len() < 4 ==> text@ =~= signed + Seq::new(
            (4 - digits.len()) as nat,
            |i: int| '0',
        ));
        push_decimal(text, size);
    }

    /// The date as the report shows it.
    pub fn date(&self) -> (text: String)
        ensures
            text@ == self.date_text(),
    {
        let mut text = String::new();
        self.push_date(&mut text);
        text
    }
}

impl Default for Timestamp {
    /// The first instant of 1970.
    fn default() -> (epoch: Timestamp)
        ensures
            epoch == (Timestamp {
                year: 1970,
                month: 1,
                day: 1,
                hour: 0,
                minute: 0,
                second: 0,
                nanosecond: 0,
            }),
    {
        Timestamp { year: 1970, month: 1, day: 1, hour: 0, minute: 0, second: 0, nanosecond: 0 }
    }
}

/// How many digits `decimal` gives, up to four.
pub proof fn lemma_decimal_len(n: nat)
    ensures
        n < 10 ==> decimal(n).len() == 1,
        10 <= n < 100 ==> decimal(n).len() == 2,
        100 <= n < 1000 ==> decimal(n).len() == 3,
        1000 <= n < 10000 ==> decimal(n).len() == 4,
        10000 <= n ==> decimal(n).len() > 4,
    decreases n,
{
    if n >= 10 {
        lemma_decimal_len(n / 10);
    }
}

} // verus!
