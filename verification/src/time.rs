//! Points in time with a fixed offset from UTC, and their text form.

use chrono::{DateTime, FixedOffset, Local};
use vstd::prelude::*;

verus! {

/// The format in which a timestamp is written to and read from text.
pub const TIME_FORMAT: &'static str = "%+";

/// An instant together with the offset from UTC under which it is shown.
#[derive(Clone, Copy, Debug, PartialEq, Eq, Structural)]
pub struct Timestamp {
    /// Whole seconds since 1970-01-01T00:00:00 UTC, leap seconds not counted.
    pub secs: i64,
    /// Nanoseconds since the last whole second. During a leap second this
    /// is 1_000_000_000 or more.
    pub nanos: u32,
    /// Seconds to add to UTC to get the local time.
    pub offset: i32,
}

impl Timestamp {
    /// Whether this instant is the same as `other` or comes after it. The
    /// offset plays no part.
    pub open spec fn not_before(self, other: Timestamp) -> bool {
        self.secs > other.secs || (self.secs == other.secs && self.nanos >= other.nanos)
    }

    /// Whether the offset is less than a day to either side and the
    /// nanoseconds stay below two seconds, as they do in every date-time
    /// that `chrono` holds.
    pub open spec fn is_in_range(self) -> bool {
        -86_400 < self.offset < 86_400 && self.nanos < 2_000_000_000
    }

    /// The text of this timestamp, if it has one.
    pub open spec fn text(self) -> Option<Seq<char>> {
        timestamp_text(self.secs as int, self.nanos as int, self.offset as int)
    }

    /// The timestamp that `text` stands for, if it stands for one.
    pub open spec fn from_text(text: Seq<char>) -> Option<Timestamp> {
        match text_timestamp(text) {
            Some((secs, nanos, offset)) => Some(Timestamp { secs, nanos, offset }),
            None => None,
        }
    }

    /// Whether this instant is the same as `other` or comes after it.
    pub fn is_not_before(&self, other: &Timestamp) -> (r: bool)
        ensures
            r == self.not_before(*other),
    {
        self.secs > other.secs || (self.secs == other.secs && self.nanos >= other.nanos)
    }

    /// The current local time. Which time that is cannot be known
    /// beforehand; it is a time that the calendar holds and that can be
    /// written as text.
    pub fn now() -> (now: Timestamp)
        ensures
            now.is_in_range(),
            now.text() is Some,
    {
        local_now()
    }

    /// Writes the timestamp as text; `None` if it is outside the dates that
    /// can be written.
    pub fn format(&self) -> (r: Option<String>)
        ensures
            match r {
                Some(text) => self.text() == Some(text@),
                None => self.text() is None,
            },
    {
        format_timestamp(self.secs, self.nanos, self.offset)
    }

    /// Reads a timestamp from text; `None` if the text is not a timestamp.
    /// What is read is a time that the calendar holds and that can be
    /// written as text again.
    pub fn parse(text: &str) -> (r: Option<Timestamp>)
        ensures
            r == Timestamp::from_text(text@),
            r matches Some(read) ==> read.is_in_range() && read.text() is Some,
    {
        match parse_timestamp(text) {
            Some((secs, nanos, offset)) => Some(Timestamp { secs, nanos, offset }),
            None => None,
        }
    }
}

/// What `chrono` writes under [`TIME_FORMAT`] for the date-time that lies
/// `secs` seconds and `nanos` nanoseconds after the Unix epoch, shown at
/// `offset` seconds east of UTC; `None` where `chrono` has no such date-time.
pub uninterp spec fn timestamp_text(secs: int, nanos: int, offset: int) -> Option<Seq<char>>;

/// What `chrono` reads from `text` under [`TIME_FORMAT`]: seconds since the
/// Unix epoch, nanoseconds within the second and offset east of UTC, or
/// `None` where `chrono` rejects the text.
pub uninterp spec fn text_timestamp(text: Seq<char>) -> Option<(i64, u32, i32)>;

/// `chrono::Local::now`, turned into a date-time with a fixed offset and
/// taken apart by `timestamp`, `timestamp_subsec_nanos` and
/// `local_minus_utc`. The result depends on the clock and the time zone of
/// the machine. The contract claims of it what `chrono` documents of every
/// date-time: a `FixedOffset` lies between UTC-23:59:59 and UTC+23:59:59,
/// the nanoseconds end at 1,999,999,999, and `DateTime::from_timestamp`
/// gives the date-time back from its seconds and nanoseconds, so that
/// [`format_timestamp`] finds a text for it. `chrono` panics where the
/// clock stands before 1970.
#[verifier::external_body]
fn local_now() -> (now: Timestamp)
    ensures
        -86_400 < now.offset < 86_400,
        now.nanos < 2_000_000_000,
        timestamp_text(now.secs as int, now.nanos as int, now.offset as int) is Some,
{
    let now: DateTime<FixedOffset> = DateTime::from(Local::now());
    Timestamp {
        secs: now.timestamp(),
        nanos: now.timestamp_subsec_nanos(),
        offset: now.offset().local_minus_utc(),
    }
}

/// `chrono::DateTime::format` with [`TIME_FORMAT`], on the date-time that
/// `DateTime::from_timestamp` makes of `secs` and `nanos` and that
/// `with_timezone` moves to the offset made by `FixedOffset::east_opt`;
/// `None` where one of the two refuses. The contract names the text that
/// comes out and claims nothing else about it.
#[verifier::external_body]
fn format_timestamp(secs: i64, nanos: u32, offset: i32) -> (r: Option<String>)
    ensures
        match r {
            Some(text) => timestamp_text(secs as int, nanos as int, offset as int) == Some(text@),
            None => timestamp_text(secs as int, nanos as int, offset as int) is None,
        },
{
    let zone = FixedOffset::east_opt(offset)?;
    let utc = DateTime::from_timestamp(secs, nanos)?;
    Some(utc.with_timezone(&zone).format(TIME_FORMAT).to_string())
}

/// `chrono::DateTime::parse_from_str` with [`TIME_FORMAT`], the result taken
/// apart by `timestamp`, `timestamp_subsec_nanos` and `local_minus_utc`. The
/// contract names what is read. Of a date-time that was read it claims what
/// `chrono` documents of every date-time: a `FixedOffset` lies between
/// UTC-23:59:59 and UTC+23:59:59, the nanoseconds end at 1,999,999,999, and
/// `DateTime::from_timestamp` gives the date-time back from its seconds
/// and nanoseconds, so that [`format_timestamp`] finds a text for it.
#[verifier::external_body]
fn parse_timestamp(text: &str) -> (r: Option<(i64, u32, i32)>)
    ensures
        r == text_timestamp(text@),
        r matches Some((secs, nanos, offset)) ==> {
            &&& -86_400 < offset < 86_400
            &&& nanos < 2_000_000_000
            &&& timestamp_text(secs as int, nanos as int, offset as int) is Some
        },
{
    let parsed = DateTime::parse_from_str(text, TIME_FORMAT).ok()?;
    Some((parsed.timestamp(), parsed.timestamp_subsec_nanos(), parsed.offset().local_minus_utc()))
}

} // verus!
