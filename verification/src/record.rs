//! Longest-silence record tracking.
//!
//! The tracker remembers when the most recent qualifying mention happened
//! and the longest gap ever observed between two consecutive qualifying
//! mentions, channel-wide.  Each call to [`RecordTracker::observe`] is one
//! serialization point: callers that share a tracker must serialize their
//! calls (for example behind a lock), and the order of the calls — not the
//! timestamps they carry — decides which mention is "previous" for the next
//! one.  Gaps themselves are computed from the supplied timestamps, so a
//! mention whose timestamp precedes the stored one (out-of-order delivery)
//! has no computable gap: it can set no record and leaves the best gap
//! untouched; only the mention time advances, following arrival order.
//! Once seeded, the best gap only ever grows.

use vstd::prelude::*;

verus! {

/// What the record tracker concluded about one qualifying mention.
#[derive(Clone, Copy, Debug, PartialEq, Eq, Structural)]
pub enum RecordOutcome {
    /// No earlier mention exists to compare against, or the supplied
    /// timestamp precedes the stored one so no gap can be computed; the
    /// record is left as it was.
    NoPriorMention,
    /// The gap since the previous mention strictly exceeds every gap seen
    /// before; the payload is the new record gap, in seconds.
    RecordBroken(u64),
    /// The gap since the previous mention did not beat the record; the
    /// payload is that gap, in seconds.
    RecordNotBroken(u64),
}

/// Longest-silence record state: the timestamp of the most recent
/// qualifying mention and the best (longest) gap seen so far, both in
/// seconds.  Both start out absent; the first observation seeds the best
/// gap with zero so that the second mention always has a baseline to beat.
pub struct RecordTracker {
    pub last_mention_at: Option<u64>,
    pub best_gap: Option<u64>,
}

impl RecordTracker {
    /// The state at process start: nothing observed yet.
    pub open spec fn initial() -> RecordTracker {
        RecordTracker { last_mention_at: None, best_gap: None }
    }

    /// Well-formed: the best gap can only be present once a mention has
    /// been seen.  The initial state is well-formed and every observation
    /// preserves this.
    pub open spec fn wf(self) -> bool {
        self.last_mention_at is None ==> self.best_gap is None
    }

    /// A gap can be computed iff an earlier mention exists and its
    /// timestamp does not lie in the future of `now`.
    pub open spec fn has_gap(self, now: u64) -> bool {
        match self.last_mention_at {
            Some(lm) => lm <= now,
            None => false,
        }
    }

    /// The gap between the previous mention and one at `now`, in seconds.
    /// Meaningful only when `has_gap(now)` holds.
    pub open spec fn gap(self, now: u64) -> u64 {
        match self.last_mention_at {
            Some(lm) => (now - lm) as u64,
            None => 0u64,
        }
    }

    /// The state after observing a qualifying mention at `now`.  The very
    /// first mention seeds the best gap with zero; a mention without a
    /// computable gap (its timestamp precedes the stored one) advances the
    /// mention time only; otherwise the gap competes with the best gap.
    pub open spec fn observed(self, now: u64) -> RecordTracker {
        if self.last_mention_at is None {
            RecordTracker { last_mention_at: Some(now), best_gap: Some(0u64) }
        } else if !self.has_gap(now) {
            RecordTracker { last_mention_at: Some(now), best_gap: self.best_gap }
        } else {
            match self.best_gap {
                None => RecordTracker { last_mention_at: Some(now), best_gap: Some(self.gap(now)) },
                Some(best) => if self.gap(now) > best {
                    RecordTracker { last_mention_at: Some(now), best_gap: Some(self.gap(now)) }
                } else {
                    RecordTracker { last_mention_at: Some(now), best_gap: Some(best) }
                },
            }
        }
    }

    /// The outcome reported for a qualifying mention at `now`.
    pub open spec fn outcome_of(self, now: u64) -> RecordOutcome {
        if !self.has_gap(now) {
            RecordOutcome::NoPriorMention
        } else {
            match self.best_gap {
                None => RecordOutcome::RecordBroken(self.gap(now)),
                Some(best) => if self.gap(now) > best {
                    RecordOutcome::RecordBroken(self.gap(now))
                } else {
                    RecordOutcome::RecordNotBroken(self.gap(now))
                },
            }
        }
    }

    /// A fresh tracker with no recorded mention and no record gap.
    pub fn new() -> (r: RecordTracker)
        ensures
            r == RecordTracker::initial(),
    {
        RecordTracker { last_mention_at: None, best_gap: None }
    }

    /// Observe one qualifying mention at time `now` (seconds).
    ///
    /// The very first mention seeds the state (best gap becomes zero) and
    /// reports `NoPriorMention`.  A mention whose timestamp precedes the
    /// stored one has no computable gap: it also reports `NoPriorMention`,
    /// but leaves the best gap exactly as it was.  Otherwise the gap to
    /// the previous mention is compared against the best gap: a strictly
    /// greater gap replaces the record and is reported as `RecordBroken`;
    /// an equal or smaller one leaves the record in place and is reported
    /// as `RecordNotBroken`.  In every case `now` becomes the most recent
    /// mention time.
    pub fn observe(&mut self, now: u64) -> (r: RecordOutcome)
        ensures
            *final(self) == old(self).observed(now),
            r == old(self).outcome_of(now),
    {
        match self.last_mention_at {
            Some(lm) => {
                if lm <= now {
                    let g = now - lm;
                    let broke = match self.best_gap {
                        None => true,
                        Some(best) => g > best,
                    };
                    self.last_mention_at = Some(now);
                    if broke {
                        self.best_gap = Some(g);
                        RecordOutcome::RecordBroken(g)
                    } else {
                        RecordOutcome::RecordNotBroken(g)
                    }
                } else {
                    self.last_mention_at = Some(now);
                    RecordOutcome::NoPriorMention
                }
            }
            None => {
                self.last_mention_at = Some(now);
                self.best_gap = Some(0);
                RecordOutcome::NoPriorMention
            }
        }
    }
}

/// Every observation preserves well-formedness.
pub proof fn lemma_observed_wf(s: RecordTracker, now: u64)
    ensures
        s.observed(now).wf(),
{
}

/// The best gap, once set, never decreases: whatever a well-formed
/// tracker observes next, the best gap stays present and at least as
/// large.  (Only the genuine first mention seeds it, at zero.)
pub proof fn lemma_best_gap_monotonic(s: RecordTracker, g: u64, now: u64)
    requires
        s.wf(),
        s.best_gap == Some(g),
    ensures
        match s.observed(now).best_gap {
            Some(g2) => g2 >= g,
            None => false,
        },
{
}

/// A mention whose timestamp precedes the stored one has no computable
/// gap: it sets no record, leaves the best gap untouched, and only
/// advances the mention time (serialization follows arrival order).
pub proof fn lemma_out_of_order_sets_no_record(s: RecordTracker, lm: u64, now: u64)
    requires
        s.last_mention_at == Some(lm),
        now < lm,
    ensures
        s.outcome_of(now) == RecordOutcome::NoPriorMention,
        s.observed(now).best_gap == s.best_gap,
        s.observed(now).last_mention_at == Some(now),
{
}

/// The first-ever mention reports `NoPriorMention` and leaves the best gap
/// seeded at zero, with the mention time recorded.
pub proof fn lemma_first_mention(now: u64)
    ensures
        RecordTracker::initial().outcome_of(now) == RecordOutcome::NoPriorMention,
        RecordTracker::initial().observed(now).best_gap == Some(0u64),
        RecordTracker::initial().observed(now).last_mention_at == Some(now),
{
}

/// The second mention always breaks the zero baseline when its gap is
/// strictly positive; a gap of exactly zero does not break the zero
/// baseline.
pub proof fn lemma_second_mention(t0: u64, t1: u64)
    requires
        t0 <= t1,
    ensures
        t0 < t1 ==> RecordTracker::initial().observed(t0).outcome_of(t1)
            == RecordOutcome::RecordBroken((t1 - t0) as u64),
        t0 == t1 ==> RecordTracker::initial().observed(t0).outcome_of(t1)
            == RecordOutcome::RecordNotBroken(0u64),
{
}

/// For three mentions at `t0 < t1 <= t2` with gaps `g1 = t1 - t0` and
/// `g2 = t2 - t1`: a strictly larger second gap breaks the record and
/// becomes the new best gap, otherwise the outcome is `RecordNotBroken(g2)`
/// and the best gap stays `g1`.
pub proof fn lemma_third_mention(t0: u64, t1: u64, t2: u64)
    requires
        t0 < t1 <= t2,
    ensures
        t2 - t1 > t1 - t0 ==> RecordTracker::initial().observed(t0).observed(t1).outcome_of(t2)
            == RecordOutcome::RecordBroken((t2 - t1) as u64),
        t2 - t1 > t1 - t0 ==> RecordTracker::initial().observed(t0).observed(t1).observed(t2).best_gap
            == Some((t2 - t1) as u64),
        t2 - t1 <= t1 - t0 ==> RecordTracker::initial().observed(t0).observed(t1).outcome_of(t2)
            == RecordOutcome::RecordNotBroken((t2 - t1) as u64),
        t2 - t1 <= t1 - t0 ==> RecordTracker::initial().observed(t0).observed(t1).observed(t2).best_gap
            == Some((t1 - t0) as u64),
{
}

} // verus!
