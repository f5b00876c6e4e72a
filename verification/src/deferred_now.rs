//! Wall-clock instants as plain calendar fields, and deferred capture of
//! "now" so that one log record carries one timestamp however many sinks
//! consume it.

use vstd::prelude::*;

verus! {

/// A wall-clock instant, broken into calendar fields at some UTC offset.
///
/// The sink never computes with absolute instants; every decision it takes
/// (age comparison, day boundaries, rotated-file naming) reads these fields.
#[derive(Clone, Copy, Debug, PartialEq, Eq, Structural)]
pub struct Timestamp {
    pub year: i32,
    pub month: u8,
    pub day: u8,
    pub hour: u8,
    pub minute: u8,
    pub second: u8,
    /// Whole hours of the UTC offset the fields are expressed in.
    pub offset_hour: i8,
}

impl Timestamp {
    /// Field ranges as the `time` crate documents them for its accessors.
    pub open spec fn wf(self) -> bool {
        &&& -9999 <= self.year <= 9999
        &&& 1 <= self.month <= 12
        &&& 1 <= self.day <= 31
        &&& self.hour <= 23
        &&& self.minute <= 59
        &&& self.second <= 59
        &&& -25 <= self.offset_hour <= 25
    }

    /// The packed day number `year * 10000 + month * 100 + day`.
    pub open spec fn spec_day_number(self) -> int {
        self.year * 10000 + self.month * 100 + self.day
    }

    /// Same calendar day, in the fields as stored.
    pub open spec fn same_day(self, other: Self) -> bool {
        self.year == other.year && self.month == other.month && self.day == other.day
    }

    /// Same calendar day and hour.
    pub open spec fn same_hour(self, other: Self) -> bool {
        self.same_day(other) && self.hour == other.hour
    }

    /// Same calendar day, hour and minute.
    pub open spec fn same_minute(self, other: Self) -> bool {
        self.same_hour(other) && self.minute == other.minute
    }

    /// Same calendar day, hour, minute and second.
    pub open spec fn same_second(self, other: Self) -> bool {
        self.same_minute(other) && self.second == other.second
    }

    /// Construct an instant from its fields.
    pub fn new(
        year: i32,
        month: u8,
        day: u8,
        hour: u8,
        minute: u8,
        second: u8,
        offset_hour: i8,
    ) -> (r: Timestamp)
        ensures
            r == (Timestamp { year, month, day, hour, minute, second, offset_hour }),
    {
        Timestamp { year, month, day, hour, minute, second, offset_hour }
    }

    /// The packed day number `year * 10000 + month * 100 + day`.
    pub fn day_number(&self) -> (r: i32)
        requires
            self.wf(),
        ensures
            r == self.spec_day_number(),
    {
        self.year * 10000 + (self.month as i32) * 100 + (self.day as i32)
    }
}

/// The current instant, in the local offset when the platform can determine
/// it and in UTC otherwise.
///
/// Relies on `time::OffsetDateTime::now_local` and `now_utc`, and on the
/// documented ranges of the field accessors `year` (`-9999..=9999` without
/// the `large-dates` feature), `month` (1..=12), `day` (1..=31), `hour`
/// (0..24), `minute` and `second` (0..60), and `UtcOffset::whole_hours`
/// (within +-25 hours).  Nothing is promised about which instant comes back.
#[verifier::external_body]
pub fn now_local_or_utc() -> (r: Timestamp)
    ensures
        r.wf(),
{
    let t = time::OffsetDateTime::now_local().unwrap_or_else(|_| time::OffsetDateTime::now_utc());
    Timestamp {
        year: t.year(),
        month: t.month() as u8,
        day: t.day(),
        hour: t.hour(),
        minute: t.minute(),
        second: t.second(),
        offset_hour: t.offset().whole_hours(),
    }
}

/// The current instant expressed at the given whole-hour UTC offset.
///
/// Relies on `time::OffsetDateTime::now_utc` and `to_offset`, with
/// `time::UtcOffset::from_hms`, which accepts any hour within +-25, and on
/// the documented accessor ranges as for [`now_local_or_utc`].  Nothing is
/// promised about which instant comes back.
#[verifier::external_body]
pub fn now_at_offset_hour(offset_hour: i8) -> (r: Timestamp)
    requires
        -25 <= offset_hour <= 25,
    ensures
        r.wf(),
        r.offset_hour == offset_hour,
{
    let off = time::UtcOffset::from_hms(offset_hour, 0, 0).unwrap();
    let t = time::OffsetDateTime::now_utc().to_offset(off);
    Timestamp {
        year: t.year(),
        month: t.month() as u8,
        day: t.day(),
        hour: t.hour(),
        minute: t.minute(),
        second: t.second(),
        offset_hour,
    }
}

/// The current packed day number at the given whole-hour UTC offset:
/// whatever instant the clock returns, the result packs a real date.
pub fn now_as_year_month_day_number(offset_hour: i8) -> (r: i32)
    requires
        -25 <= offset_hour <= 25,
    ensures
        exists|ts: Timestamp| ts.wf() && r == #[trigger] ts.spec_day_number(),
{
    let now = now_at_offset_hour(offset_hour);
    let r = now.day_number();
    proof {
        assert(now.wf() && r == now.spec_day_number());
    }
    r
}

/// Deferred timestamp creation.
///
/// Is used to ensure that a log record that is sent to multiple outputs
/// always uses the same timestamp: the first reader captures "now", every
/// later reader sees the captured instant.
#[derive(Debug)]
pub struct DeferredNow {
    o_timestamp: Option<Timestamp>,
}

impl DeferredNow {
    /// What the instant is once captured.
    pub closed spec fn captured(self) -> Option<Timestamp> {
        self.o_timestamp
    }

    /// Constructs a new instance, but does not generate the timestamp.
    pub fn new() -> (r: DeferredNow)
        ensures
            r.captured() is None,
    {
        DeferredNow { o_timestamp: None }
    }

    /// Retrieve the timestamp, capturing it at the given whole-hour UTC
    /// offset when no instant was captured yet.
    ///
    /// Like [`DeferredNow::now`], but a fresh capture is expressed at
    /// `offset_hour` rather than in the local offset.
    pub fn now_with_offset(&mut self, offset_hour: i8) -> (r: Timestamp)
        requires
            -25 <= offset_hour <= 25,
        ensures
            final(self).captured() == Some(r),
            old(self).captured() is Some ==> *final(self) == *old(self) && old(self).captured()
                == Some(r),
            old(self).captured() is None ==> r.wf() && r.offset_hour == offset_hour,
    {
        match self.o_timestamp {
            Some(t) => t,
            None => {
                let t = now_at_offset_hour(offset_hour);
                self.o_timestamp = Some(t);
                t
            },
        }
    }

    /// Retrieve the timestamp.
    ///
    /// Requires mutability because the first caller generates the timestamp;
    /// every call afterwards returns the same captured instant.
    pub fn now(&mut self) -> (r: Timestamp)
        ensures
            final(self).captured() == Some(r),
            old(self).captured() is Some ==> *final(self) == *old(self) && old(self).captured()
                == Some(r),
            old(self).captured() is None ==> r.wf(),
    {
        match self.o_timestamp {
            Some(t) => t,
            None => {
                let t = now_local_or_utc();
                self.o_timestamp = Some(t);
                t
            },
        }
    }
}

impl Default for DeferredNow {
    fn default() -> (r: Self)
        ensures
            r.captured() is None,
    {
        Self::new()
    }
}

} // verus!
