//! Leaderboard report scheduling.
//!
//! Reporting is event-triggered, not timer-driven: on each qualifying
//! mention the scheduler is asked whether the configured interval has
//! elapsed since the last report.  If it has, the report time advances to
//! `now` and a snapshot of the leaderboard is produced; otherwise nothing
//! happens.  Because the check and the advance are one call under the
//! caller's serialization, at most one of any set of qualifying mentions
//! inside the same interval receives a payload.

use crate::counter::CounterTable;
use crate::counter::cap_len;
use crate::counter::is_top_n;
use crate::counter::seq_sum;
use crate::counter::sorted_desc;
use vstd::prelude::*;

verus! {

/// Timing state and configuration for the periodic leaderboard report:
/// when the last report went out (seconds; starts at process-start time),
/// how many seconds must elapse between reports, and how many entries a
/// report carries.
pub struct ReportScheduler {
    pub last_report_at: u64,
    pub interval_secs: u64,
    pub limit: usize,
}

impl ReportScheduler {
    /// A report is due at `now` iff the configured interval has elapsed
    /// since the last report.  A `now` that precedes the stored report
    /// time (an out-of-order timestamp) is never due.
    pub open spec fn due(self, now: u64) -> bool {
        self.last_report_at <= now && now - self.last_report_at >= self.interval_secs
    }

    /// The state after a report fired at `now`.
    pub open spec fn advanced(self, now: u64) -> ReportScheduler {
        ReportScheduler { last_report_at: now, interval_secs: self.interval_secs, limit: self.limit }
    }

    /// A fresh scheduler: the last report time is seeded with the
    /// process-start time, so the first report is due only a full
    /// interval after startup.
    pub fn new(start: u64, interval_secs: u64, limit: usize) -> (r: ReportScheduler)
        ensures
            r == (ReportScheduler { last_report_at: start, interval_secs, limit }),
    {
        ReportScheduler { last_report_at: start, interval_secs, limit }
    }

    /// Called on each qualifying mention: if the interval has elapsed,
    /// advance the report time to `now` and return the leaderboard
    /// snapshot (the top `limit` entries of `counter`); otherwise change
    /// nothing and return `None`.
    pub fn maybe_report(&mut self, now: u64, counter: &CounterTable) -> (r: Option<
        Vec<(u64, u64)>,
    >)
        requires
            counter.wf(),
        ensures
            old(self).due(now) ==> *final(self) == old(self).advanced(now),
            !old(self).due(now) ==> *final(self) == *old(self),
            match r {
                Some(entries) => {
                    &&& old(self).due(now)
                    &&& is_top_n(counter@, old(self).limit as int, entries@)
                    &&& sorted_desc(entries@)
                    &&& entries@.len() == cap_len(old(self).limit as int, counter@.len() as int)
                    &&& seq_sum(entries@) <= seq_sum(counter@)
                },
                None => !old(self).due(now),
            },
    {
        if self.last_report_at <= now && now - self.last_report_at >= self.interval_secs {
            self.last_report_at = now;
            Some(counter.top_n(self.limit))
        } else {
            None
        }
    }
}

/// At most one report per interval: once a report fires at `t1`, no
/// mention before `t1 + interval` can trigger another.
pub proof fn lemma_at_most_one_report_per_interval(s: ReportScheduler, t1: u64, t2: u64)
    requires
        s.due(t1),
        t1 <= t2,
        t2 - t1 < s.interval_secs,
    ensures
        !s.advanced(t1).due(t2),
{
}

/// Report times never move backward: whether or not a report fires, the
/// stored report time is monotonically non-decreasing.
pub proof fn lemma_report_time_monotonic(s: ReportScheduler, now: u64)
    ensures
        s.due(now) ==> s.advanced(now).last_report_at >= s.last_report_at,
{
}

} // verus!
