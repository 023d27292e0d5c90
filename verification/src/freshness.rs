//! The freshness evaluator: pure rules that turn the most recent sample for
//! a server — or its absence — into a current rate or an online judgment.
//!
//! A sample is fresh while its age, `now - time`, is at most
//! [`STALE_THRESHOLD_SECS`] (the threshold itself is still fresh). A
//! negative age, from clock skew between reporter and reader, also counts
//! as fresh. A server with no sample at all is offline with rate zero.

use vstd::prelude::*;

use crate::models::{DstatLog, SampleModel};

verus! {

/// Maximum age, in seconds, of the most recent sample for a server to be
/// considered online. The configuration constant of the evaluator: it trades
/// false "offline" judgments against staleness-detection latency, and
/// defaults to the expected report cadence.
pub const STALE_THRESHOLD_SECS: i32 = 2;

/// The view of an optional borrowed sample, as the evaluator receives one
/// from the read path.
pub open spec fn latest_view(latest: Option<&DstatLog>) -> Option<SampleModel> {
    match latest {
        Option::None => Option::None,
        Option::Some(l) => Option::Some(l@),
    }
}

/// What the current rate of a server is, given its most recent sample:
/// the sample's rate while the sample is fresh, zero otherwise or when the
/// server never reported.
pub open spec fn spec_current_rate(latest: Option<SampleModel>, now: int) -> int {
    match latest {
        Option::None => 0,
        Option::Some(s) => {
            if now - s.time <= STALE_THRESHOLD_SECS as int {
                s.rps
            } else {
                0
            }
        },
    }
}

/// Whether a server is online, given its most recent sample: it is exactly
/// when it has one and that sample is fresh.
pub open spec fn spec_is_online(latest: Option<SampleModel>, now: int) -> bool {
    match latest {
        Option::None => false,
        Option::Some(s) => now - s.time <= STALE_THRESHOLD_SECS as int,
    }
}

/// The current rate for a server whose most recent sample is `latest`,
/// evaluated at time `now`.
pub fn current_rate(latest: Option<&DstatLog>, now: i32) -> (rate: i32)
    ensures
        rate as int == spec_current_rate(latest_view(latest), now as int),
{
    match latest {
        Option::None => 0,
        Option::Some(l) => {
            if (now as i64) - (l.time as i64) <= STALE_THRESHOLD_SECS as i64 {
                l.rps
            } else {
                0
            }
        },
    }
}

/// Whether a server whose most recent sample is `latest` counts as online
/// at time `now`.
pub fn is_online(latest: Option<&DstatLog>, now: i32) -> (online: bool)
    ensures
        online == spec_is_online(latest_view(latest), now as int),
{
    match latest {
        Option::None => false,
        Option::Some(l) => (now as i64) - (l.time as i64) <= STALE_THRESHOLD_SECS as i64,
    }
}

/// A server that never reported reads as silent at every time: rate zero
/// and offline.
pub proof fn lemma_no_sample_reads_zero_and_offline(now: int)
    ensures
        spec_current_rate(Option::<SampleModel>::None, now) == 0,
        !spec_is_online(Option::<SampleModel>::None, now),
{
}

/// A sample no older than the staleness threshold reads through: the
/// server is online and its current rate is the sample's rate. Negative
/// ages (sample timestamped after `now`) fall under this rule too.
pub proof fn lemma_fresh_sample_reads_through(s: SampleModel, now: int)
    requires
        now - s.time <= STALE_THRESHOLD_SECS as int,
    ensures
        spec_current_rate(Option::Some(s), now) == s.rps,
        spec_is_online(Option::Some(s), now),
{
}

/// A sample older than the staleness threshold reads as silence: the
/// server is offline and its current rate is zero.
pub proof fn lemma_stale_sample_reads_zero_and_offline(s: SampleModel, now: int)
    requires
        now - s.time > STALE_THRESHOLD_SECS as int,
    ensures
        spec_current_rate(Option::Some(s), now) == 0,
        !spec_is_online(Option::Some(s), now),
{
}

/// The staleness threshold is inclusive: a sample exactly
/// [`STALE_THRESHOLD_SECS`] old is still fresh.
pub proof fn lemma_threshold_is_inclusive(s: SampleModel, now: int)
    requires
        now - s.time == STALE_THRESHOLD_SECS as int,
    ensures
        spec_current_rate(Option::Some(s), now) == s.rps,
        spec_is_online(Option::Some(s), now),
{
}

} // verus!
