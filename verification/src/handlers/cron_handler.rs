//! The decisions of the cron handler: which expressions are schedules and
//! how long to wait for the next run.

use vstd::prelude::*;
use std::str::FromStr;
use crate::event_time::{EventTime, chrono_accepts_instant, LAST_SECOND};
use crate::text::{split_whitespace_words, words_of};

verus! {

#[verifier::external_type_specification]
#[verifier::external_body]
pub struct ExCronError(cron::error::Error);

#[verifier::external_type_specification]
#[verifier::external_body]
pub struct ExCronSchedule(cron::Schedule);

/// `cron::Schedule::from_str` accepts the expression.
pub uninterp spec fn cron_schedule_parses(expression: Seq<char>) -> bool;

/// Parses the expression with `cron::Schedule::from_str`, which returns the
/// schedule or the crate's error. Which expressions parse is left to the
/// name `cron_schedule_parses`.
#[verifier::external_body]
fn parse_schedule(expression: &str) -> (r: Result<cron::Schedule, cron::error::Error>)
    ensures
        r is Ok == cron_schedule_parses(expression@),
{
    cron::Schedule::from_str(expression)
}

/// The first time of the schedule that `cron::Schedule::from_str` makes of
/// `source` strictly after the instant `secs`, `nanos` (UTC), as seconds and
/// nanoseconds, or `None` when the schedule has no later time.
pub uninterp spec fn cron_next_after(source: Seq<char>, secs: i64, nanos: u32) -> Option<(i64, u32)>;

/// The schedule's first time after the instant: the schedule that
/// `cron::Schedule::from_str` makes of `source`, then
/// `after(&DateTime::from_timestamp(secs, nanos))` and `next()`, split with
/// `timestamp()` and `timestamp_subsec_nanos()`. cron starts its search one
/// second after the instant and builds each candidate with
/// `and_hms_opt(hour, minute, second)` in its years 1970 to 2100, so a time
/// it gives lies on a whole second after the instant and not before the
/// epoch; chrono accepts it back (its documented round trip). cron adds one
/// second to the instant, which would overflow at chrono's last second, so
/// that instant is left out.
#[verifier::external_body]
fn next_instant_after(source: &str, secs: i64, nanos: u32) -> (r: Option<(i64, u32)>)
    requires
        cron_schedule_parses(source@),
        chrono_accepts_instant(secs, nanos),
        secs < LAST_SECOND,
    ensures
        r == cron_next_after(source@, secs, nanos),
        r matches Some(p) ==> chrono_accepts_instant(p.0, p.1) && p.0 > secs && p.0 >= 0 && p.1 == 0,
{
    let schedule = cron::Schedule::from_str(source).unwrap();
    let after = chrono::DateTime::from_timestamp(secs, nanos).unwrap();
    match schedule.after(&after).next() {
        Some(t) => Some((t.timestamp(), t.timestamp_subsec_nanos())),
        None => None,
    }
}

/// `r` is the instant that `x` gives, or nothing when `x` is nothing.
pub open spec fn same_instant(r: Option<EventTime>, x: Option<(i64, u32)>) -> bool {
    match (r, x) {
        (None, None) => true,
        (Some(t), Some(p)) => t.secs_view() == p.0 && t.nanos_view() == p.1,
        _ => false,
    }
}

/// A cron expression that is not a schedule.
#[derive(Debug, Clone, PartialEq)]
pub struct CronExpressionError {
    pub expression: String,
}

/// The text handed to the cron parser: a five-field expression (minute,
/// hour, day of month, month, day of week) gets a seconds field of `0` in
/// front; any other expression is used as written.
pub open spec fn cron_source(expression: Seq<char>) -> Seq<char> {
    if words_of(expression).len() == 5 { "0 "@ + expression } else { expression }
}

/// A five-field expression (minute, hour, day of month, month, day of week)
/// reaches the cron parser as a seconds field of `0` followed by the five
/// fields exactly as written, whatever the first of them is; any other
/// expression reaches it unchanged.
pub proof fn lemma_five_fields_run_at_second_zero(expression: Seq<char>)
    ensures
        words_of(expression).len() == 5 ==> cron_source(expression) == seq!['0', ' '] + expression,
        words_of(expression).len() != 5 ==> cron_source(expression) == expression,
{
    reveal_strlit("0 ");
    assert("0 "@ =~= seq!['0', ' ']);
}

/// The text handed to the cron parser for `expression`.
pub fn cron_source_text(expression: &str) -> (r: String)
    ensures
        r@ == cron_source(expression@),
{
    let words = split_whitespace_words(expression);
    if words.len() == 5 {
        let mut s = "0 ".to_owned();
        s.append(expression);
        proof {
            reveal_strlit("0 ");
        }
        s
    } else {
        expression.to_owned()
    }
}

/// Validate a cron expression without starting a handler. Five-field
/// expressions are read with a seconds field of `0`.
pub fn validate_cron_expression(expression: &str) -> (r: Result<(), CronExpressionError>)
    ensures
        r is Ok == cron_schedule_parses(cron_source(expression@)),
        r matches Err(e) ==> e.expression@ == expression@,
{
    let source = cron_source_text(expression);
    match parse_schedule(source.as_str()) {
        Ok(_) => Ok(()),
        Err(_) => Err(CronExpressionError { expression: expression.to_owned() }),
    }
}

/// A cron schedule with the expression it was written as.
pub struct CronSchedule {
    expression: String,
    source: String,
}

impl CronSchedule {
    #[verifier::type_invariant]
    spec fn inv(self) -> bool {
        &&& self.source@ == cron_source(self.expression@)
        &&& cron_schedule_parses(self.source@)
    }

    pub closed spec fn expression_view(&self) -> Seq<char> {
        self.expression@
    }

    /// The schedule written by `expression`, or the error naming it.
    /// Five-field expressions are read with a seconds field of `0`.
    pub fn parse(expression: &str) -> (r: Result<CronSchedule, CronExpressionError>)
        ensures
            r is Ok == cron_schedule_parses(cron_source(expression@)),
            r matches Ok(s) ==> s.expression_view() == expression@,
            r matches Err(e) ==> e.expression@ == expression@,
    {
        let source = cron_source_text(expression);
        match parse_schedule(source.as_str()) {
            Ok(_) => Ok(CronSchedule { expression: expression.to_owned(), source }),
            Err(_) => Err(CronExpressionError { expression: expression.to_owned() }),
        }
    }

    /// The expression the schedule was parsed from.
    pub fn expression(&self) -> (r: &str)
        ensures
            r@ == self.expression_view(),
    {
        self.expression.as_str()
    }

    /// The schedule's first time after `now`, if it has one. Nothing lies
    /// after chrono's last second.
    pub fn next_time_after(&self, now: &EventTime) -> (r: Option<EventTime>)
        ensures
            now.secs_view() < LAST_SECOND ==> same_instant(r,
                cron_next_after(cron_source(self.expression_view()), now.secs_view(), now.nanos_view())),
            now.secs_view() >= LAST_SECOND ==> r is None,
            r matches Some(t) ==> t.secs_view() > now.secs_view() && t.secs_view() >= 0 && t.nanos_view() == 0,
    {
        proof {
            use_type_invariant(self);
        }
        let secs = now.secs();
        let nanos = now.nanos();
        if secs >= LAST_SECOND {
            return None;
        }
        match next_instant_after(self.source.as_str(), secs, nanos) {
            Some((s, n)) => Some(EventTime::from_accepted(s, n)),
            None => None,
        }
    }

    /// The schedule's first time after the current instant, if it has one:
    /// what `next_time_after` gives for the instant the clock reads.
    pub fn next_time(&self) -> (r: Option<EventTime>)
        ensures
            exists|secs: i64, nanos: u32| 0 <= secs < LAST_SECOND && nanos < 1_000_000_000
                && same_instant(r, cron_next_after(cron_source(self.expression_view()), secs, nanos)),
            r matches Some(t) ==> t.secs_view() > 0 && t.nanos_view() == 0,
    {
        let now = EventTime::now();
        let r = self.next_time_after(&now);
        assert(0 <= now.secs_view() < LAST_SECOND && now.nanos_view() < 1_000_000_000
            && same_instant(r, cron_next_after(cron_source(self.expression_view()), now.secs_view(), now.nanos_view())));
        r
    }
}

/// What the cron loop does next.
#[derive(Debug, Clone, Copy, PartialEq, Eq)]
pub enum CronWait {
    /// Sleep until the next scheduled time, then run the command.
    Sleep { secs: u64, nanos: u32 },
    /// The next time lies in the past: wait a minute and look again.
    RetryLater { secs: u64 },
    /// The schedule has no upcoming time: stop the handler.
    Stop,
}

/// Nanoseconds from `now` to `next`.
pub open spec fn nanos_between(now_secs: i64, now_nanos: u32, next_secs: i64, next_nanos: u32) -> int {
    (next_secs - now_secs) * 1_000_000_000 + next_nanos - now_nanos
}

/// How long to wait for the next scheduled time, if there is one.
pub fn plan_cron_wait(now: &EventTime, next: Option<&EventTime>) -> (w: CronWait)
    ensures
        match next {
            None => w == CronWait::Stop,
            Some(t) => {
                let d = nanos_between(now.secs_view(), now.nanos_view(), t.secs_view(), t.nanos_view());
                if d < 0 {
                    w == CronWait::RetryLater { secs: 60 }
                } else {
                    w matches CronWait::Sleep { secs, nanos } && nanos == d % 1_000_000_000
                        && secs == if d / 1_000_000_000 > u64::MAX { u64::MAX as int } else { d / 1_000_000_000 }
                }
            },
        },
{
    match next {
        None => CronWait::Stop,
        Some(t) => {
            let ds: i128 = (t.secs() as i128) - (now.secs() as i128);
            let d: i128 = ds * 1_000_000_000 + (t.nanos() as i128) - (now.nanos() as i128);
            if d < 0 {
                CronWait::RetryLater { secs: 60 }
            } else {
                let whole = d / 1_000_000_000;
                let nanos = (d % 1_000_000_000) as u32;
                let secs: u64 = if whole > u64::MAX as i128 { u64::MAX } else { whole as u64 };
                CronWait::Sleep { secs, nanos }
            }
        },
    }
}

} // verus!
