//! Calendar days as the game's timestamps give them.

use crate::error::StoreError;
use crate::table::Key;
use crate::text::{
    ascii, lemma_decimal_len, lemma_number_of_bound, lemma_number_of_padded, padded, parse_usize,
    pow10, push_padded, seven_bit, usize_of,
};
use std::cmp::Ordering;
use vstd::prelude::*;
use vstd::string::*;

verus! {

/// The number of bytes of a timestamp, `YYYYMMDDThhmmss.mmmZ`.
pub const TIMESTAMP_WIDTH: usize = 20;

/// A day of the calendar.
#[derive(Debug, PartialEq, Eq, Structural, Ord, Hash, Clone, Copy)]
pub struct Time {
    pub year: usize,
    pub month: usize,
    pub day: usize,
}

impl View for Time {
    type V = Time;

    open spec fn view(&self) -> Time {
        *self
    }
}

impl Key for Time {
    fn same(&self, other: &Self) -> (b: bool) {
        self.year == other.year && self.month == other.month && self.day == other.day
    }
}

impl PartialOrd for Time {
    fn partial_cmp(&self, other: &Self) -> (r: Option<Ordering>) {
        if self.year < other.year {
            Some(Ordering::Less)
        } else if self.year > other.year {
            Some(Ordering::Greater)
        } else if self.month < other.month {
            Some(Ordering::Less)
        } else if self.month > other.month {
            Some(Ordering::Greater)
        } else if self.day < other.day {
            Some(Ordering::Less)
        } else if self.day > other.day {
            Some(Ordering::Greater)
        } else {
            Some(Ordering::Equal)
        }
    }
}

impl vstd::std_specs::cmp::PartialOrdSpecImpl for Time {
    open spec fn obeys_partial_cmp_spec() -> bool {
        true
    }

    /// Days are ordered by year, then month, then day.
    open spec fn partial_cmp_spec(&self, other: &Self) -> Option<Ordering> {
        if self.year < other.year {
            Some(Ordering::Less)
        } else if self.year > other.year {
            Some(Ordering::Greater)
        } else if self.month < other.month {
            Some(Ordering::Less)
        } else if self.month > other.month {
            Some(Ordering::Greater)
        } else if self.day < other.day {
            Some(Ordering::Less)
        } else if self.day > other.day {
            Some(Ordering::Greater)
        } else {
            Some(Ordering::Equal)
        }
    }
}

/// The bytes `T000000.000Z`, which end every timestamp that is written.
pub open spec fn midnight() -> Seq<u8> {
    seq![84u8, 48u8, 48u8, 48u8, 48u8, 48u8, 48u8, 46u8, 48u8, 48u8, 48u8, 90u8]
}

/// The day that the timestamp `text` begins with: four bytes of year, two of
/// month and two of day, each read as a number, in a text of at least twenty
/// bytes.
pub open spec fn time_of(text: Seq<u8>) -> Option<Time> {
    if text.len() < 20 {
        None
    } else {
        match (
            usize_of(text.subrange(0, 4)),
            usize_of(text.subrange(4, 6)),
            usize_of(text.subrange(6, 8)),
        ) {
            (Some(year), Some(month), Some(day)) => Some(Time { year, month, day }),
            _ => None,
        }
    }
}

/// The timestamp of midnight on the day `time`.
pub open spec fn time_text(time: Time) -> Seq<u8> {
    padded(time.year as nat, 4) + padded(time.month as nat, 2) + padded(time.day as nat, 2)
        + midnight()
}

/// `time` has a year of at most four digits, and a month and a day of at
/// most two.
pub open spec fn fits_timestamp(time: Time) -> bool {
    time.year <= 9999 && time.month <= 99 && time.day <= 99
}

/// A day that is read from a timestamp has a year of at most four digits,
/// and a month and a day of at most two.
pub proof fn lemma_time_of_fits(text: Seq<u8>)
    ensures
        time_of(text) matches Some(time) ==> fits_timestamp(time),
{
    if text.len() >= 20 {
        lemma_number_of_bound(text.subrange(0, 4), 4);
        lemma_number_of_bound(text.subrange(4, 6), 2);
        lemma_number_of_bound(text.subrange(6, 8), 2);
        assert(pow10(4) == 10000 && pow10(2) == 100) by {
            reveal_with_fuel(pow10, 5);
        }
    }
}

impl Time {
    /// Reads the day from a timestamp.
    pub fn parse(raw: &str) -> (r: Result<Time, StoreError>)
        ensures
            match r {
                Ok(time) => time_of(raw.spec_bytes()) == Some(time) && fits_timestamp(time),
                Err(e) => time_of(raw.spec_bytes()) is None && e == StoreError::ConfigError,
            },
    {
        proof {
            lemma_time_of_fits(raw.spec_bytes());
        }
        let bytes = raw.as_bytes();
        if bytes.len() < TIMESTAMP_WIDTH {
            return Err(StoreError::ConfigError);
        }
        let year = match parse_usize(bytes, 0, 4) {
            Some(n) => n,
            None => {
                return Err(StoreError::ConfigError);
            },
        };
        let month = match parse_usize(bytes, 4, 6) {
            Some(n) => n,
            None => {
                return Err(StoreError::ConfigError);
            },
        };
        let day = match parse_usize(bytes, 6, 8) {
            Some(n) => n,
            None => {
                return Err(StoreError::ConfigError);
            },
        };
        Ok(Time { year, month, day })
    }

    /// Writes the day as the timestamp of its midnight.
    pub fn to_text(&self) -> (r: String)
        ensures
            r@ == ascii(time_text(*self)),
    {
        let mut out = String::new();
        push_padded(&mut out, self.year, 4);
        push_padded(&mut out, self.month, 2);
        push_padded(&mut out, self.day, 2);
        proof {
            reveal_strlit("T000000.000Z");
        }
        out.append("T000000.000Z");
        assert(out@ =~= ascii(time_text(*self)));
        out
    }
}

/// A day whose year has at most four digits, and whose month and day have
/// at most two, is read back from its timestamp.
pub proof fn lemma_time_text_round_trip(time: Time)
    requires
        fits_timestamp(time),
    ensures
        time_of(time_text(time)) == Some(time),
        seven_bit(time_text(time)),
{
    let y = padded(time.year as nat, 4);
    let m = padded(time.month as nat, 2);
    let d = padded(time.day as nat, 2);
    let text = time_text(time);
    lemma_decimal_len(time.year as nat);
    lemma_decimal_len(time.month as nat);
    lemma_decimal_len(time.day as nat);
    lemma_number_of_padded(time.year as nat, 4);
    lemma_number_of_padded(time.month as nat, 2);
    lemma_number_of_padded(time.day as nat, 2);
    assert(y.len() == 4);
    assert(m.len() == 2);
    assert(d.len() == 2);
    assert(text.subrange(0, 4) =~= y);
    assert(text.subrange(4, 6) =~= m);
    assert(text.subrange(6, 8) =~= d);
    assert forall|i: int| 0 <= i < text.len() implies #[trigger] text[i] < 128 by {
        if i < 4 {
            assert(text[i] == y[i]);
        } else if i < 6 {
            assert(text[i] == m[i - 4]);
        } else if i < 8 {
            assert(text[i] == d[i - 6]);
        } else {
            assert(text[i] == midnight()[i - 8]);
        }
    }
}

} // verus!
