//! The mention-tracking engine: one entry point per inbound message.
//!
//! `process` classifies the text, and for a qualifying mention updates the
//! per-author counter, asks the report scheduler whether a leaderboard
//! report is due, and feeds the mention to the record tracker, producing
//! at most one record announcement and at most one leaderboard
//! announcement.  Messages by the engine's own identity, and texts without
//! the keyword, are non-events: they change nothing.
//!
//! Callers that process events concurrently must serialize their calls
//! (for example behind a lock).  The order of the serialized calls — not
//! the `sent_at` timestamps they carry — decides which mention counts as
//! "previous" for the next one; gaps and report intervals are computed
//! from the supplied `sent_at` values.

use crate::counter::CounterTable;
use crate::counter::counter_step;
use crate::counter::is_top_n;
use crate::counter::seq_count_of;
use crate::matcher::mentions_keyword;
use crate::record::RecordOutcome;
use crate::record::RecordTracker;
use crate::render::format_gap;
use crate::render::spec_format_gap;
use crate::report::ReportScheduler;
use vstd::prelude::*;

verus! {

/// A record announcement: the new record gap and its rendered wording,
/// destined for the channel the triggering message arrived in.
pub struct RecordAnnouncement {
    pub gap_secs: u64,
    pub text: String,
}

/// A leaderboard announcement: the ranked `(author, count)` entries,
/// destined for the designated report channel.
pub struct LeaderboardAnnouncement {
    pub entries: Vec<(u64, u64)>,
}

/// Everything the engine concluded about one qualifying mention.
pub struct ProcessOutcome {
    /// The post-increment mention count of the message's author.
    pub mention_count: u64,
    /// What the mention did to the longest-silence record.
    pub record_outcome: RecordOutcome,
    /// Present exactly when the mention broke the record.
    pub record_announcement: Option<RecordAnnouncement>,
    /// Present exactly when a leaderboard report was due.
    pub leaderboard: Option<LeaderboardAnnouncement>,
}

/// The in-memory core: the bot's own identity plus the three state
/// containers, one entry point per message event.
pub struct Engine {
    pub self_id: u64,
    pub counter: CounterTable,
    pub tracker: RecordTracker,
    pub scheduler: ReportScheduler,
}

impl Engine {
    /// Well-formed: the counter table's invariant holds.
    pub open spec fn wf(self) -> bool {
        self.counter.wf()
    }

    /// A message qualifies when it is not by the engine's own identity
    /// and its text mentions the keyword as a separate word.
    pub open spec fn qualifies(self, author: u64, text: Seq<char>) -> bool {
        author != self.self_id && mentions_keyword(text)
    }

    /// A fresh engine: empty counter, no record state, and the report
    /// clock seeded with the process-start time `start`.
    pub fn new(self_id: u64, start: u64, interval_secs: u64, limit: usize) -> (r: Engine)
        ensures
            r.wf(),
            r.self_id == self_id,
            r.counter@ == Seq::<(u64, u64)>::empty(),
            r.tracker == RecordTracker::initial(),
            r.scheduler == (ReportScheduler { last_report_at: start, interval_secs, limit }),
    {
        Engine {
            self_id,
            counter: CounterTable::new(),
            tracker: RecordTracker::new(),
            scheduler: ReportScheduler::new(start, interval_secs, limit),
        }
    }

    /// Process one inbound message event.
    ///
    /// A non-qualifying message (own identity, or no keyword) returns
    /// `None` and changes nothing.  A qualifying mention increments the
    /// author's count, then — with the fresh count already in the table —
    /// asks the scheduler for a leaderboard snapshot, then updates the
    /// longest-silence record; a broken record carries its rendered
    /// announcement text.
    pub fn process(&mut self, author: u64, text: &str, sent_at: u64) -> (r: Option<
        ProcessOutcome,
    >)
        requires
            old(self).wf(),
            old(self).qualifies(author, text@) ==> seq_count_of(old(self).counter@, author)
                < u64::MAX,
        ensures
            final(self).wf(),
            final(self).self_id == old(self).self_id,
            !old(self).qualifies(author, text@) ==> r is None && *final(self) == *old(self),
            old(self).qualifies(author, text@) ==> match r {
                Some(out) => {
                    &&& final(self).counter@ == counter_step(old(self).counter@, author)
                    &&& out.mention_count == seq_count_of(old(self).counter@, author) + 1
                    &&& final(self).tracker == old(self).tracker.observed(sent_at)
                    &&& out.record_outcome == old(self).tracker.outcome_of(sent_at)
                    &&& match out.record_announcement {
                        Some(ann) => out.record_outcome == RecordOutcome::RecordBroken(
                            ann.gap_secs,
                        ) && ann.text@ == spec_format_gap(ann.gap_secs),
                        None => !(out.record_outcome is RecordBroken),
                    }
                    &&& final(self).scheduler == if old(self).scheduler.due(sent_at) {
                        old(self).scheduler.advanced(sent_at)
                    } else {
                        old(self).scheduler
                    }
                    &&& match out.leaderboard {
                        Some(lb) => {
                            &&& old(self).scheduler.due(sent_at)
                            &&& is_top_n(
                                final(self).counter@,
                                old(self).scheduler.limit as int,
                                lb.entries@,
                            )
                            &&& crate::counter::sorted_desc(lb.entries@)
                            &&& crate::counter::seq_sum(lb.entries@) <= crate::counter::seq_sum(
                                final(self).counter@,
                            )
                        },
                        None => !old(self).scheduler.due(sent_at),
                    }
                    &&& seq_count_of(final(self).counter@, author) == out.mention_count
                    &&& forall|b: u64| b != author ==> seq_count_of(final(self).counter@, b)
                        == seq_count_of(old(self).counter@, b)
                },
                None => false,
            },
    {
        if author == self.self_id || !crate::matcher::matches(text) {
            return None;
        }
        let mention_count = self.counter.record_mention(author);
        let leaderboard = match self.scheduler.maybe_report(sent_at, &self.counter) {
            Some(entries) => Some(LeaderboardAnnouncement { entries }),
            None => None,
        };
        let record_outcome = self.tracker.observe(sent_at);
        let record_announcement = match record_outcome {
            RecordOutcome::RecordBroken(gap_secs) => Some(
                RecordAnnouncement { gap_secs, text: format_gap(gap_secs) },
            ),
            _ => None,
        };
        Some(ProcessOutcome { mention_count, record_outcome, record_announcement, leaderboard })
    }
}

} // verus!
