//! The candle intervals that the pipeline knows, with the one table that
//! gives each its request name, its duration and its canonical label.

use crate::text::same_text;
use vstd::prelude::*;

verus! {

/// A candle interval of the known set.
#[derive(Clone, Copy, Debug, PartialEq, Eq, Structural)]
pub enum Interval {
    Minute5,
    Minute15,
    Hour1,
    Day1,
}

impl Interval {
    /// The interval that a request name stands for, if it is a known one.
    pub open spec fn named(name: Seq<char>) -> Option<Interval> {
        if name == "MINUTE_5"@ {
            Some(Interval::Minute5)
        } else if name == "MINUTE_15"@ {
            Some(Interval::Minute15)
        } else if name == "HOUR_1"@ {
            Some(Interval::Hour1)
        } else if name == "DAY_1"@ {
            Some(Interval::Day1)
        } else {
            None
        }
    }

    /// Length of one candle, in milliseconds.
    pub open spec fn millis(self) -> int {
        match self {
            Interval::Minute5 => 300_000,
            Interval::Minute15 => 900_000,
            Interval::Hour1 => 3_600_000,
            Interval::Day1 => 86_400_000,
        }
    }

    /// The canonical timeframe label stored with every record.
    pub open spec fn label(self) -> Seq<char> {
        match self {
            Interval::Minute5 => "5m"@,
            Interval::Minute15 => "15m"@,
            Interval::Hour1 => "1h"@,
            Interval::Day1 => "1d"@,
        }
    }

    /// The name under which the exchange knows the interval.
    pub open spec fn request_name(self) -> Seq<char> {
        match self {
            Interval::Minute5 => "MINUTE_5"@,
            Interval::Minute15 => "MINUTE_15"@,
            Interval::Hour1 => "HOUR_1"@,
            Interval::Day1 => "DAY_1"@,
        }
    }

    /// Looks an interval up by its request name. Names outside the known set
    /// give `None`; there is no fallback.
    pub fn from_name(name: &str) -> (r: Option<Interval>)
        ensures
            r == Interval::named(name@),
    {
        if same_text(name, "MINUTE_5") {
            Some(Interval::Minute5)
        } else if same_text(name, "MINUTE_15") {
            Some(Interval::Minute15)
        } else if same_text(name, "HOUR_1") {
            Some(Interval::Hour1)
        } else if same_text(name, "DAY_1") {
            Some(Interval::Day1)
        } else {
            None
        }
    }

    /// The name under which the exchange knows the interval.
    pub fn name(&self) -> (r: &'static str)
        ensures
            r@ == self.request_name(),
    {
        match self {
            Interval::Minute5 => "MINUTE_5",
            Interval::Minute15 => "MINUTE_15",
            Interval::Hour1 => "HOUR_1",
            Interval::Day1 => "DAY_1",
        }
    }

    /// Length of one candle, in milliseconds.
    pub fn duration_ms(&self) -> (r: i64)
        ensures
            r == self.millis(),
    {
        match self {
            Interval::Minute5 => 300_000,
            Interval::Minute15 => 900_000,
            Interval::Hour1 => 3_600_000,
            Interval::Day1 => 86_400_000,
        }
    }

    /// The canonical timeframe label stored with every record.
    pub fn timeframe(&self) -> (r: &'static str)
        ensures
            r@ == self.label(),
    {
        match self {
            Interval::Minute5 => "5m",
            Interval::Minute15 => "15m",
            Interval::Hour1 => "1h",
            Interval::Day1 => "1d",
        }
    }
}

/// Every known interval is found again under its own request name.
pub proof fn lemma_name_round_trip(interval: Interval)
    ensures
        Interval::named(interval.request_name()) == Some(interval),
{
    reveal_strlit("MINUTE_5");
    reveal_strlit("MINUTE_15");
    reveal_strlit("HOUR_1");
    reveal_strlit("DAY_1");
    assert("MINUTE_5"@.len() == 8);
    assert("MINUTE_15"@.len() == 9);
    assert("HOUR_1"@.len() == 6);
    assert("DAY_1"@.len() == 5);
}

} // verus!
