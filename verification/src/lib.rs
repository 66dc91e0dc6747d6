//! Mention-tracking engine for a chat channel.
//!
//! The library watches a stream of message events for a fixed keyword and
//! maintains three pieces of state derived from the qualifying mentions:
//! a per-author mention counter, a record of the longest silence ever
//! observed between two consecutive mentions, and the timing state for a
//! periodic leaderboard report.  Everything here is plain computation on
//! plain values; delivering events and sending announcements is the job of
//! whatever gateway adapter sits around the library.

use vstd::prelude::*;

pub mod counter;
pub mod engine;
pub mod matcher;
pub mod record;
pub mod render;
pub mod report;

verus! {

/// Default number of seconds that must elapse between two leaderboard
/// reports: five days.
pub const DEFAULT_REPORT_INTERVAL_SECS: u64 = 432000;

/// Default number of entries in a leaderboard report.
pub const DEFAULT_LEADERBOARD_LIMIT: usize = 10;

} // verus!
