//! What the readers of agent transcripts share: their errors and the
//! watermark up to which a stream has been read.
use vstd::prelude::*;

verus! {

/// A time to wait, in seconds and nanoseconds.
#[derive(Clone, Copy, Debug, PartialEq, Eq, Structural)]
pub struct Wait {
    pub secs: u64,
    pub nanos: u32,
}

/// Why a transcript could not be read.
#[derive(Clone, Debug)]
pub enum TranscriptError {
    /// A failure that may go away; worth another try after some time.
    Transient { message: String, retry_after: Wait },
    /// A failure that stays.
    Fatal { message: String },
}

/// A [`TranscriptError`] with its message as a sequence of characters.
pub enum TranscriptErrorView {
    Transient { message: Seq<char>, retry_after: Wait },
    Fatal { message: Seq<char> },
}

impl View for TranscriptError {
    type V = TranscriptErrorView;

    open spec fn view(&self) -> TranscriptErrorView {
        match *self {
            TranscriptError::Transient { message, retry_after } => {
                TranscriptErrorView::Transient { message: message@, retry_after }
            },
            TranscriptError::Fatal { message } => TranscriptErrorView::Fatal { message: message@ },
        }
    }
}

/// The first second that a calendar date can be given for, counted from the
/// Unix epoch: the start of the year -262143.
pub const MIN_SECS: i64 = -8_334_601_228_800;

/// The last second that a calendar date can be given for, counted from the
/// Unix epoch: the end of the year 262142.
pub const MAX_SECS: i64 = 8_210_266_876_799;

/// Whether `secs` seconds and `nanos` nanoseconds after the Unix epoch is an
/// instant with a calendar date. From one billion nanoseconds up the instant
/// lies in a leap second that follows the second.
pub open spec fn is_instant(secs: int, nanos: int) -> bool {
    MIN_SECS <= secs <= MAX_SECS && 0 <= nanos < 2_000_000_000
}

/// The whole milliseconds from the Unix epoch to the instant.
pub open spec fn instant_millis(secs: int, nanos: int) -> int {
    secs * 1000 + nanos / 1_000_000
}

/// Whether the instant `ms` milliseconds after the Unix epoch has a calendar
/// date.
pub open spec fn millis_in_range(ms: int) -> bool {
    MIN_SECS * 1000 <= ms <= MAX_SECS * 1000 + 999
}

/// Calls `chrono::DateTime::timestamp_millis` on the instant, which is made by
/// `DateTime::from_timestamp` of the seconds and `Timelike::with_nanosecond`:
/// its seconds in milliseconds, plus the whole milliseconds among its
/// nanoseconds.
#[verifier::external_body]
fn timestamp_millis(secs: i64, nanos: u32) -> (ms: i64)
    requires
        is_instant(secs as int, nanos as int),
    ensures
        ms == instant_millis(secs as int, nanos as int),
{
    let second = chrono::DateTime::<chrono::Utc>::from_timestamp(secs, 0).unwrap().naive_utc();
    chrono::Timelike::with_nanosecond(&second, nanos).unwrap().and_utc().timestamp_millis()
}

/// Calls `chrono::TimeZone::timestamp_millis_opt` for UTC and takes its single
/// result: the instant `ms` milliseconds after the epoch, in seconds and
/// nanoseconds, where it has a calendar date.
#[verifier::external_body]
fn timestamp_millis_opt(ms: i64) -> (instant: Option<(i64, u32)>)
    ensures
        match instant {
            Some((secs, nanos)) => {
                &&& millis_in_range(ms as int)
                &&& secs == ms as int / 1000
                &&& nanos == (ms as int % 1000) * 1_000_000
            },
            None => !millis_in_range(ms as int),
        },
{
    chrono::TimeZone::timestamp_millis_opt(&chrono::Utc, ms).single().map(
        |t| (t.timestamp(), t.timestamp_subsec_nanos()),
    )
}

/// The instant up to which a stream has been read.
#[derive(Clone, Copy, Debug)]
pub struct TimestampWatermark {
    secs: i64,
    nanos: u32,
}

impl View for TimestampWatermark {
    type V = (int, int);

    /// Seconds and nanoseconds after the Unix epoch.
    closed spec fn view(&self) -> (int, int) {
        (self.secs as int, self.nanos as int)
    }
}

impl TimestampWatermark {
    #[verifier::type_invariant]
    spec fn has_a_date(self) -> bool {
        is_instant(self.secs as int, self.nanos as int)
    }

    /// The milliseconds from the Unix epoch to the watermark.
    pub open spec fn millis(self) -> int {
        instant_millis(self@.0, self@.1)
    }

    /// The watermark at `secs` seconds and `nanos` nanoseconds after the Unix
    /// epoch, where there is such an instant.
    pub fn new(secs: i64, nanos: u32) -> (watermark: Option<TimestampWatermark>)
        ensures
            match watermark {
                Some(w) => is_instant(secs as int, nanos as int) && w@ == (
                    secs as int,
                    nanos as int,
                ),
                None => !is_instant(secs as int, nanos as int),
            },
    {
        if MIN_SECS <= secs && secs <= MAX_SECS && nanos < 2_000_000_000 {
            Some(TimestampWatermark { secs, nanos })
        } else {
            None
        }
    }

    /// The watermark at `ms` milliseconds after the Unix epoch, where there is
    /// such an instant.
    pub fn from_millis(ms: i64) -> (watermark: Option<TimestampWatermark>)
        ensures
            match watermark {
                Some(w) => {
                    &&& millis_in_range(ms as int)
                    &&& w@ == (ms as int / 1000, (ms as int % 1000) * 1_000_000)
                    &&& w.millis() == ms
                },
                None => !millis_in_range(ms as int),
            },
    {
        match timestamp_millis_opt(ms) {
            Some((secs, nanos)) => Some(TimestampWatermark { secs, nanos }),
            None => None,
        }
    }

    /// The milliseconds from the Unix epoch to the watermark.
    pub fn timestamp_millis(&self) -> (ms: i64)
        ensures
            ms == self.millis(),
    {
        proof {
            use_type_invariant(self);
        }
        timestamp_millis(self.secs, self.nanos)
    }

    /// The seconds from the Unix epoch to the watermark, and the nanoseconds on
    /// top of them.
    pub fn parts(&self) -> (parts: (i64, u32))
        ensures
            self@ == (parts.0 as int, parts.1 as int),
            is_instant(parts.0 as int, parts.1 as int),
    {
        proof {
            use_type_invariant(self);
        }
        (self.secs, self.nanos)
    }
}

/// The watermark that a reader was handed. A stream may keep one of another
/// kind, such as a byte offset.
#[derive(Clone, Copy, Debug)]
pub enum Watermark {
    Timestamp(TimestampWatermark),
    Other,
}

} // verus!
