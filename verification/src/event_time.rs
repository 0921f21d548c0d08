//! Instants in UTC, as whole seconds and nanoseconds since the Unix epoch.

use vstd::prelude::*;
use crate::clock::{since_epoch, subsec_nanos, system_now, whole_secs};

verus! {

/// The last second chrono can represent: the end of the year 262142.
pub const LAST_SECOND: i64 = 8_210_266_876_799;

/// `chrono::DateTime::from_timestamp(secs, nanos)` gives an instant: the
/// seconds lie between the start of the year -262143 and the end of the
/// year 262142 (chrono's date range), and the nanoseconds stay under two
/// seconds, reaching past one second only for a leap second at `:59`.
pub open spec fn chrono_accepts_instant(secs: i64, nanos: u32) -> bool {
    &&& -8_334_601_228_800 <= secs <= LAST_SECOND
    &&& nanos < 2_000_000_000
    &&& (nanos >= 1_000_000_000 ==> secs % 60 == 59)
}

/// What `chrono::DateTime::to_rfc3339` writes for the instant.
pub uninterp spec fn rfc3339_of(secs: i64, nanos: u32) -> Seq<char>;

/// Whether `chrono::DateTime::from_timestamp(secs, nanos)` returns an
/// instant. Its source takes the day `secs.div_euclid(86_400)` (which must
/// fall in chrono's years -262143 to 262142) and the second of the day with
/// the nanoseconds (`NaiveTime::from_num_seconds_from_midnight_opt`: under
/// two seconds, past one only at second 59 of a minute).
#[verifier::external_body]
fn chrono_instant_exists(secs: i64, nanos: u32) -> (r: bool)
    ensures
        r == chrono_accepts_instant(secs, nanos),
{
    chrono::DateTime::from_timestamp(secs, nanos).is_some()
}

/// `chrono::DateTime::from_timestamp(secs, nanos)` written with `to_rfc3339`.
#[verifier::external_body]
fn chrono_rfc3339(secs: i64, nanos: u32) -> (r: String)
    requires
        chrono_accepts_instant(secs, nanos),
    ensures
        r@ == rfc3339_of(secs, nanos),
{
    chrono::DateTime::from_timestamp(secs, nanos).unwrap().to_rfc3339()
}

/// An instant in UTC.
#[derive(Debug, PartialEq, Eq)]
pub struct EventTime {
    secs: i64,
    nanos: u32,
}

impl EventTime {
    #[verifier::type_invariant]
    spec fn inv(self) -> bool {
        chrono_accepts_instant(self.secs, self.nanos)
    }

    pub closed spec fn secs_view(&self) -> i64 {
        self.secs
    }

    pub closed spec fn nanos_view(&self) -> u32 {
        self.nanos
    }

    /// The RFC 3339 text of the instant.
    pub open spec fn rfc3339_view(&self) -> Seq<char> {
        rfc3339_of(self.secs_view(), self.nanos_view())
    }

    /// The current instant, read from the system clock as its distance from
    /// the epoch. A clock set before the epoch reads as the epoch, and one
    /// at or past the last second chrono can represent reads as the second
    /// before it. It is never inside a leap second. Which instant it is
    /// depends on the clock.
    pub fn now() -> (r: EventTime)
        ensures
            0 <= r.secs_view() < LAST_SECOND,
            r.nanos_view() < 1_000_000_000,
    {
        match since_epoch(&system_now()) {
            Some(d) => {
                let secs = whole_secs(&d);
                let nanos = subsec_nanos(&d);
                if secs < LAST_SECOND as u64 && chrono_instant_exists(secs as i64, nanos) {
                    EventTime { secs: secs as i64, nanos }
                } else {
                    EventTime { secs: LAST_SECOND - 1, nanos: 0 }
                }
            },
            None => EventTime { secs: 0, nanos: 0 },
        }
    }

    /// The instant `secs` seconds and `nanos` nanoseconds after the epoch,
    /// when chrono can represent it.
    pub fn from_unix(secs: i64, nanos: u32) -> (r: Option<EventTime>)
        ensures
            match r {
                Some(t) => chrono_accepts_instant(secs, nanos) && t.secs_view() == secs && t.nanos_view() == nanos
                    && nanos < 2_000_000_000 && (nanos >= 1_000_000_000 ==> secs % 60 == 59),
                None => !chrono_accepts_instant(secs, nanos),
            },
    {
        if chrono_instant_exists(secs, nanos) {
            Some(EventTime { secs, nanos })
        } else {
            None
        }
    }

    /// The instant of a pair that chrono accepts.
    pub(crate) fn from_accepted(secs: i64, nanos: u32) -> (r: EventTime)
        requires
            chrono_accepts_instant(secs, nanos),
        ensures
            r.secs_view() == secs,
            r.nanos_view() == nanos,
    {
        EventTime { secs, nanos }
    }

    /// Whole seconds since the epoch.
    /// Chrono accepts every instant of this type.
    pub fn secs(&self) -> (r: i64)
        ensures
            r == self.secs_view(),
            chrono_accepts_instant(self.secs_view(), self.nanos_view()),
    {
        proof {
            use_type_invariant(self);
        }
        self.secs
    }

    /// Nanoseconds past the whole second.
    pub fn nanos(&self) -> (r: u32)
        ensures
            r == self.nanos_view(),
    {
        self.nanos
    }

    /// The same instant.
    pub fn copy(&self) -> (r: EventTime)
        ensures
            r == *self,
    {
        proof {
            use_type_invariant(self);
        }
        EventTime { secs: self.secs, nanos: self.nanos }
    }

    /// The instant in RFC 3339 form, such as `1996-12-19T16:39:57+00:00`.
    pub fn to_rfc3339(&self) -> (r: String)
        ensures
            r@ == self.rfc3339_view(),
    {
        proof {
            use_type_invariant(self);
        }
        chrono_rfc3339(self.secs, self.nanos)
    }
}

} // verus!
