use vstd::math::abs;
use vstd::prelude::*;

verus! {

/// Nanoseconds in one second.
pub const NANOS_PER_SECOND: u32 = 1_000_000_000;

/// Seconds in one day: a UTC offset is strictly smaller in magnitude.
pub const SECONDS_PER_DAY: i32 = 86_400;

/// An absolute instant in UTC, kept as a span of whole seconds and nanoseconds
/// before or after the start of 1970.
///
/// Its view is the instant as a signed number of nanoseconds since the start of 1970.
#[derive(Clone, Copy, Debug, PartialEq, Eq, Hash)]
pub struct Timestamp {
    before_epoch: bool,
    seconds: u64,
    nanos: u32,
}

impl View for Timestamp {
    type V = int;

    closed spec fn view(&self) -> int {
        let span = self.seconds * 1_000_000_000 + self.nanos;
        if self.before_epoch {
            -span
        } else {
            span
        }
    }
}

impl Timestamp {
    /// The instants that a `Timestamp` can hold, in nanoseconds since the start
    /// of 1970: those whose whole seconds, rounded down, fit an `i64`.
    pub open spec fn holds(instant: int) -> bool {
        i64::MIN * 1_000_000_000 <= instant < (i64::MAX + 1) * 1_000_000_000
    }

    /// Each instant is kept in one way only: the nanoseconds stay below a
    /// second, and only an instant before 1970 is marked as such.
    #[verifier::type_invariant]
    spec fn canonical(self) -> bool {
        &&& self.nanos < 1_000_000_000
        &&& Self::holds(self@)
        &&& self.before_epoch ==> self@ < 0
    }

    /// The start of 1970 in UTC.
    pub fn unix_epoch() -> (r: Timestamp)
        ensures
            r@ == 0,
    {
        Timestamp { before_epoch: false, seconds: 0, nanos: 0 }
    }

    /// The instant `seconds` and `nanos` after the start of 1970, where
    /// `nanos` is below one second and the instant can be held.
    pub fn after_epoch(seconds: u64, nanos: u32) -> (r: Option<Timestamp>)
        ensures
            r.is_some() <==> nanos < NANOS_PER_SECOND && Self::holds(
                seconds * 1_000_000_000 + nanos,
            ),
            r matches Some(t) ==> t@ == seconds * 1_000_000_000 + nanos,
    {
        if nanos < NANOS_PER_SECOND && seconds <= i64::MAX as u64 {
            Some(Timestamp { before_epoch: false, seconds, nanos })
        } else {
            None
        }
    }

    /// The instant `seconds` and `nanos` before the start of 1970, where
    /// `nanos` is below one second and the instant can be held.
    pub fn before_epoch(seconds: u64, nanos: u32) -> (r: Option<Timestamp>)
        ensures
            r.is_some() <==> nanos < NANOS_PER_SECOND && Self::holds(
                -(seconds * 1_000_000_000 + nanos),
            ),
            r matches Some(t) ==> t@ == -(seconds * 1_000_000_000 + nanos),
    {
        if nanos >= NANOS_PER_SECOND {
            None
        } else if seconds < 0x8000_0000_0000_0000 || (seconds == 0x8000_0000_0000_0000 && nanos
            == 0) {
            Some(Timestamp { before_epoch: seconds != 0 || nanos != 0, seconds, nanos })
        } else {
            None
        }
    }

    /// Whether the instant lies before the start of 1970.
    pub fn is_before_epoch(&self) -> (r: bool)
        ensures
            Self::holds(self@),
            r == (self@ < 0),
    {
        proof {
            use_type_invariant(self);
        }
        self.before_epoch
    }

    /// The whole seconds between the instant and the start of 1970.
    pub fn seconds(&self) -> (r: u64)
        ensures
            r == abs(self@) / 1_000_000_000,
    {
        proof {
            use_type_invariant(self);
        }
        self.seconds
    }

    /// The nanoseconds beyond the whole seconds between the instant and the
    /// start of 1970.
    pub fn subsec_nanos(&self) -> (r: u32)
        ensures
            r == abs(self@) % 1_000_000_000,
            r < NANOS_PER_SECOND,
    {
        proof {
            use_type_invariant(self);
        }
        self.nanos
    }
}

/// What an offset-aware timestamp holds: the whole seconds since the start of
/// 1970 in UTC, rounded down; the nanoseconds beyond them, which reach a second
/// or more only inside a leap second; and the offset of the local time from
/// UTC, in seconds.
pub struct DateModel {
    pub seconds: int,
    pub nanos: int,
    pub offset: int,
}

impl DateModel {
    /// The instant in nanoseconds since the start of 1970 in UTC, whatever the
    /// offset.
    pub open spec fn instant(self) -> int {
        self.seconds * 1_000_000_000 + self.nanos
    }

    /// The dates that an `OffsetTimestamp` can hold.
    pub open spec fn valid(self) -> bool {
        &&& i64::MIN <= self.seconds <= i64::MAX
        &&& 0 <= self.nanos < 2_000_000_000
        &&& -86_400 < self.offset < 86_400
        &&& Timestamp::holds(self.instant())
    }
}

/// An instant together with the offset from UTC of the local time that it is
/// shown in.
#[derive(Clone, Copy, Debug, PartialEq, Eq, Hash)]
pub struct OffsetTimestamp {
    seconds: i64,
    nanos: u32,
    offset: i32,
}

impl View for OffsetTimestamp {
    type V = DateModel;

    closed spec fn view(&self) -> DateModel {
        DateModel {
            seconds: self.seconds as int,
            nanos: self.nanos as int,
            offset: self.offset as int,
        }
    }
}

impl OffsetTimestamp {
    #[verifier::type_invariant]
    spec fn valid(self) -> bool {
        self@.valid()
    }

    /// The date with these parts, where they make a date that can be held.
    pub fn new(seconds: i64, nanos: u32, offset: i32) -> (r: Option<OffsetTimestamp>)
        ensures
            r.is_some() <==> (DateModel {
                seconds: seconds as int,
                nanos: nanos as int,
                offset: offset as int,
            }).valid(),
            r matches Some(d) ==> d@ == (DateModel {
                seconds: seconds as int,
                nanos: nanos as int,
                offset: offset as int,
            }),
    {
        if nanos < 2 * NANOS_PER_SECOND && (nanos < NANOS_PER_SECOND || seconds < i64::MAX)
            && -SECONDS_PER_DAY < offset && offset < SECONDS_PER_DAY {
            Some(OffsetTimestamp { seconds, nanos, offset })
        } else {
            None
        }
    }

    /// The whole seconds since the start of 1970 in UTC, rounded down.
    pub fn timestamp(&self) -> (r: i64)
        ensures
            r == self@.seconds,
    {
        self.seconds
    }

    /// The nanoseconds beyond the whole seconds.
    pub fn timestamp_subsec_nanos(&self) -> (r: u32)
        ensures
            r == self@.nanos,
            self@.valid(),
    {
        proof {
            use_type_invariant(self);
        }
        self.nanos
    }

    /// The offset of the local time from UTC, in seconds.
    pub fn offset_seconds(&self) -> (r: i32)
        ensures
            r == self@.offset,
    {
        self.offset
    }
}

/// The date that shows an instant in UTC: its whole seconds rounded down, the
/// nanoseconds beyond them, and no offset.
pub open spec fn utc_date(instant: int) -> DateModel {
    DateModel { seconds: instant / 1_000_000_000, nanos: instant % 1_000_000_000, offset: 0 }
}

/// The date that shows an instant in UTC is that instant, to the nanosecond,
/// with no offset and outside a leap second; and the one date of that kind
/// at its instant.
pub proof fn lemma_utc_date_keeps_instant(instant: int)
    ensures
        utc_date(instant).instant() == instant,
        utc_date(instant).offset == 0,
        0 <= utc_date(instant).nanos < 1_000_000_000,
        forall|date: DateModel|
            date.instant() == instant && date.offset == 0 && 0 <= date.nanos < 1_000_000_000
                ==> date == utc_date(instant),
{
}

/// Shows the instant of a structured document as a date of the host: the same
/// instant to the nanosecond, at offset zero.
pub fn convert_date(plist_date: &Timestamp) -> (r: OffsetTimestamp)
    ensures
        r@ == utc_date(plist_date@),
        r@.instant() == plist_date@,
{
    proof {
        use_type_invariant(plist_date);
    }
    if !plist_date.before_epoch {
        OffsetTimestamp { seconds: plist_date.seconds as i64, nanos: plist_date.nanos, offset: 0 }
    } else if plist_date.nanos == 0 {
        let whole: i128 = -(plist_date.seconds as i128);
        OffsetTimestamp { seconds: whole as i64, nanos: 0, offset: 0 }
    } else {
        let whole: i128 = -(plist_date.seconds as i128) - 1;
        OffsetTimestamp {
            seconds: whole as i64,
            nanos: NANOS_PER_SECOND - plist_date.nanos,
            offset: 0,
        }
    }
}

/// Keeps the instant of a date of the host and drops its offset, which a
/// structured document has no place for.
pub fn discard_offset(date: &OffsetTimestamp) -> (r: Timestamp)
    ensures
        r@ == date@.instant(),
{
    proof {
        use_type_invariant(date);
    }
    let leap: bool = date.nanos >= NANOS_PER_SECOND;
    let whole: i64 = if leap {
        date.seconds + 1
    } else {
        date.seconds
    };
    let beyond: u32 = if leap {
        date.nanos - NANOS_PER_SECOND
    } else {
        date.nanos
    };
    if whole >= 0 {
        Timestamp { before_epoch: false, seconds: whole as u64, nanos: beyond }
    } else if beyond == 0 {
        let span: i128 = -(whole as i128);
        Timestamp { before_epoch: true, seconds: span as u64, nanos: 0 }
    } else {
        let span: i128 = -(whole as i128) - 1;
        Timestamp { before_epoch: true, seconds: span as u64, nanos: NANOS_PER_SECOND - beyond }
    }
}

} // verus!
