//! Configuration values of the rotating sink: when to rotate, how to name
//! rotated files, and what to do with old ones.

use crate::deferred_now::now_as_year_month_day_number;
use std::sync::atomic::AtomicI32;
use std::sync::atomic::Ordering;
use std::sync::Arc;
use vstd::prelude::*;

verus! {

/// Criterion when to rotate the log file.
#[derive(Debug)]
pub enum Criterion {
    /// Rotate the log file when it exceeds the specified size in bytes.
    Size(u64),
    /// Rotate the log file when it has become older than the specified age.
    Age(Age),
    /// Rotate the file when it has either become older than the specified
    /// age, or when it has exceeded the specified size in bytes.
    AgeOrSize(Age, u64),
}

/// A day-boundary detector that several sinks can share.
///
/// All sinks constructed from the same value share the packed day number, so
/// concurrent sinks rotate on the same boundary.  The cell holds
/// `year * 10000 + month * 100 + day` at the configured UTC offset.
#[derive(Debug)]
pub struct SplitAtEveryNewDay {
    day_cell: Arc<AtomicI32>,
    utc_offset_hour: i8,
}

impl SplitAtEveryNewDay {
    /// The well-formedness the constructors establish.
    pub closed spec fn wf(self) -> bool {
        -25 <= self.utc_offset_hour <= 25
    }

    /// The configured UTC offset, in whole hours.
    pub closed spec fn spec_offset_hour(self) -> i8 {
        self.utc_offset_hour
    }

    /// Seeds the shared day number with today's date at the given offset.
    pub fn new(utc_offset_hour: i8) -> (r: Self)
        requires
            -25 <= utc_offset_hour <= 25,
        ensures
            r.wf(),
            r.spec_offset_hour() == utc_offset_hour,
    {
        let seed = now_as_year_month_day_number(utc_offset_hour);
        SplitAtEveryNewDay { day_cell: Arc::new(AtomicI32::new(seed)), utc_offset_hour }
    }

    /// Seeds the shared day number; the offset is given in whole hours.
    pub fn new_by_hour(utc_offset_hour: i8) -> (r: Self)
        requires
            -25 <= utc_offset_hour <= 25,
        ensures
            r.wf(),
            r.spec_offset_hour() == utc_offset_hour,
    {
        Self::new(utc_offset_hour)
    }

    /// The configured UTC offset, in whole hours.
    pub fn offset_hour(&self) -> (r: i8)
        ensures
            r == self.spec_offset_hour(),
            self.wf() ==> -25 <= r <= 25,
    {
        self.utc_offset_hour
    }

    /// Well-formedness means exactly that the offset is one the clock
    /// accepts.
    pub proof fn lemma_wf_is_offset_range(self)
        ensures
            self.wf() == (-25 <= self.spec_offset_hour() <= 25),
    {
    }

    /// The day number another sink stored last; any value can come back,
    /// because the cell is shared.
    pub fn load_day_number(&self) -> i32 {
        self.day_cell.load(Ordering::SeqCst)
    }

    /// Publishes a freshly observed day number to all sharing sinks.
    pub fn store_day_number(&self, day_number: i32) {
        self.day_cell.store(day_number, Ordering::SeqCst)
    }
}

impl Clone for SplitAtEveryNewDay {
    /// Relies on `Arc::clone` of std, which vstd leaves unspecified: the
    /// clone shares the same cell and carries the same offset.
    #[verifier::external_body]
    fn clone(&self) -> (r: Self)
        ensures
            r == *self,
    {
        SplitAtEveryNewDay {
            day_cell: std::sync::Arc::clone(&self.day_cell),
            utc_offset_hour: self.utc_offset_hour,
        }
    }
}

/// The age after which a log file rotation will be triggered, when
/// [`Criterion::Age`] is chosen.
#[derive(Debug)]
pub enum Age {
    /// Rotate when the clock has started a new day since the current file
    /// had been created.
    Day,
    /// Rotate when the clock has started a new hour since the current file
    /// had been created.
    Hour,
    /// Rotate when the clock has started a new minute since the current file
    /// had been created.
    Minute,
    /// Rotate when the clock has started a new second since the current file
    /// had been created.
    Second,
    /// Rotate when a new day begins at the configured UTC offset, on a
    /// boundary shared between all sinks built from the same value.
    EveryNewDay(SplitAtEveryNewDay),
}

impl Age {
    /// Whether the contained configuration is well-formed.
    pub open spec fn wf(self) -> bool {
        match self {
            Age::EveryNewDay(split) => split.wf(),
            _ => true,
        }
    }

    /// A day-boundary age criterion at the given offset.
    pub fn new_with_splitting_at_every_new_day(utc_offset_hour: i8) -> (r: Self)
        requires
            -25 <= utc_offset_hour <= 25,
        ensures
            r.wf(),
            r matches Age::EveryNewDay(s) && s.spec_offset_hour() == utc_offset_hour,
    {
        Age::EveryNewDay(SplitAtEveryNewDay::new(utc_offset_hour))
    }

    /// A day-boundary age criterion; the offset is given in whole hours.
    pub fn new_with_splitting_at_every_new_day_by_offset_hour(utc_offset_hour: i8) -> (r: Self)
        requires
            -25 <= utc_offset_hour <= 25,
        ensures
            r.wf(),
            r matches Age::EveryNewDay(s) && s.spec_offset_hour() == utc_offset_hour,
    {
        Age::EveryNewDay(SplitAtEveryNewDay::new_by_hour(utc_offset_hour))
    }
}

impl Clone for Age {
    fn clone(&self) -> (r: Self)
        ensures
            r == *self,
    {
        match self {
            Age::Day => Age::Day,
            Age::Hour => Age::Hour,
            Age::Minute => Age::Minute,
            Age::Second => Age::Second,
            Age::EveryNewDay(split) => Age::EveryNewDay(split.clone()),
        }
    }
}

impl Clone for Criterion {
    fn clone(&self) -> (r: Self)
        ensures
            r == *self,
    {
        match self {
            Criterion::Size(size) => Criterion::Size(*size),
            Criterion::Age(age) => Criterion::Age(age.clone()),
            Criterion::AgeOrSize(age, size) => Criterion::AgeOrSize(age.clone(), *size),
        }
    }
}

/// The naming convention for rotated log files.
///
/// With file rotation, the logs are written to a file with infix
/// `_rCURRENT`.  When rotation happens, the CURRENT log file is renamed to a
/// file with another infix of the form `_r...`; `Naming` defines which.
#[derive(Copy, Clone, Debug)]
pub enum Naming {
    /// Rotation renames to files with a timestamp infix; the value is the
    /// whole-hour UTC offset at which the writer captures the instants that
    /// name rotated files.  A value outside the range the clock can express
    /// (+-25 hours) is refused when the writer is built.
    Timestamps(i8),
    /// Rotation renames to files with a five-digit number infix.
    Numbers,
}

/// Defines the strategy for handling older log files.
#[derive(Copy, Clone, Debug)]
pub enum Cleanup {
    /// Older log files are not touched - they remain for ever.
    Never,
    /// The specified number of rotated log files are kept.  Older files are
    /// deleted, if necessary.
    KeepLogFiles(usize),
    /// The specified number of rotated log files are compressed and kept.
    /// Older files are deleted, if necessary.
    KeepCompressedFiles(usize),
    /// Keeps some files as text files and some as compressed files: the
    /// youngest by the first number as text, the next by the second number
    /// compressed with an additional suffix `.gz`, and older files removed.
    KeepLogAndCompressedFiles(usize, usize),
}

impl Cleanup {
    /// Returns true if some cleanup is to be done.
    pub fn do_cleanup(&self) -> (r: bool)
        ensures
            r == !(self is Never),
    {
        !matches!(self, Self::Never)
    }
}

} // verus!
