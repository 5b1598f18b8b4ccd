//! Local calendar timestamps as plain values.
//!
//! The core only ever reads the calendar date and the time of day of a
//! timestamp, so a timestamp is held as its calendar fields. The API client
//! converts the service's timezone-aware timestamps into this form before the
//! core sees them.

use vstd::prelude::*;

verus! {

/// One local calendar timestamp.
#[derive(Clone, Copy, Debug, PartialEq, Eq)]
pub struct Timestamp {
    pub year: u32,
    pub month: u32,
    pub day: u32,
    pub hour: u32,
    pub minute: u32,
    pub second: u32,
}

/// The mathematical value of a [`Timestamp`].
pub struct TimestampV {
    pub year: int,
    pub month: int,
    pub day: int,
    pub hour: int,
    pub minute: int,
    pub second: int,
}

impl View for Timestamp {
    type V = TimestampV;

    open spec fn view(&self) -> TimestampV {
        TimestampV {
            year: self.year as int,
            month: self.month as int,
            day: self.day as int,
            hour: self.hour as int,
            minute: self.minute as int,
            second: self.second as int,
        }
    }
}

impl TimestampV {
    /// The fields form a plausible calendar timestamp.
    pub open spec fn wf(self) -> bool {
        &&& 0 <= self.year
        &&& 1 <= self.month <= 12
        &&& 1 <= self.day <= 31
        &&& 0 <= self.hour < 24
        &&& 0 <= self.minute < 60
        &&& 0 <= self.second < 60
    }

    /// Seconds elapsed since the midnight that began this calendar day.
    pub open spec fn seconds_of_day(self) -> int {
        self.hour * 3600 + self.minute * 60 + self.second
    }

    /// Both timestamps lie on the same calendar day.
    pub open spec fn same_date(self, other: TimestampV) -> bool {
        self.year == other.year && self.month == other.month && self.day == other.day
    }

    /// This timestamp's calendar day lies strictly before the other's.
    pub open spec fn date_before(self, other: TimestampV) -> bool {
        ||| self.year < other.year
        ||| (self.year == other.year && self.month < other.month)
        ||| (self.year == other.year && self.month == other.month && self.day < other.day)
    }

    /// This timestamp is no later than the other.
    pub open spec fn le(self, other: TimestampV) -> bool {
        ||| self.date_before(other)
        ||| (self.same_date(other) && self.seconds_of_day() <= other.seconds_of_day())
    }
}

impl Timestamp {
    /// The fields form a plausible calendar timestamp.
    pub open spec fn wf(self) -> bool {
        self@.wf()
    }

    /// Tests whether `self` and `other` lie on the same calendar day.
    pub fn on_same_date(&self, other: &Timestamp) -> (r: bool)
        ensures
            r == self@.same_date(other@),
    {
        self.year == other.year && self.month == other.month && self.day == other.day
    }

    /// Seconds elapsed since the midnight that began this timestamp's day.
    pub fn day_seconds(&self) -> (r: u32)
        requires
            self.wf(),
        ensures
            r == self@.seconds_of_day(),
            r < 86400,
    {
        self.hour * 3600 + self.minute * 60 + self.second
    }
}

/// The timestamp order is transitive.
pub proof fn lemma_le_transitive(a: TimestampV, b: TimestampV, c: TimestampV)
    requires
        a.le(b),
        b.le(c),
    ensures
        a.le(c),
{
}

/// A timestamp lying between two timestamps of one calendar day lies on that
/// day as well.
pub proof fn lemma_between_same_date(a: TimestampV, b: TimestampV, c: TimestampV)
    requires
        a.le(b),
        b.le(c),
        a.same_date(c),
    ensures
        a.same_date(b),
        b.same_date(c),
{
}

} // verus!
