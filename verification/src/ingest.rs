//! The ingestion service: validates a report's shared secret and appends
//! the timestamped sample to the log store. A report is either rejected
//! before any write, or appended as exactly one row — there is no partial
//! write.

use vstd::prelude::*;

use crate::models::{DstatLog, SampleModel};
use crate::store::{has_time, sorted_insert, LogStore, StoreError};
use crate::text::str_eq;

verus! {

/// Why a report was not ingested.
#[derive(Debug)]
pub enum IngestError {
    /// The report's secret does not match the configured shared secret.
    Unauthorized,
    /// The secret matched but the store refused the row.
    Storage(StoreError),
}

/// The sample a report from `name` becomes when accepted at time `time`.
pub open spec fn report_model(name: Seq<char>, rps: int, time: int) -> SampleModel {
    SampleModel { time: time, server_name: name, rps: rps }
}

/// Ingests one throughput report, stamped with the caller-observed time
/// `now`. A mismatched secret is rejected as `Unauthorized` before any
/// store write; a time collision surfaces as `Storage(Conflict)`. On every
/// failure path the store is left exactly as it was.
pub fn submit_report(
    store: &mut LogStore,
    configured_secret: &str,
    name: &str,
    rps: i32,
    secret: &str,
    now: i32,
) -> (result: Result<(), IngestError>)
    requires
        old(store).wf(),
    ensures
        final(store).wf(),
        match result {
            Ok(()) => secret@ == configured_secret@ && !has_time(old(store)@, now as int)
                && final(store)@ == sorted_insert(
                old(store)@,
                report_model(name@, rps as int, now as int),
            ),
            Err(IngestError::Unauthorized) => secret@ != configured_secret@
                && final(store)@ == old(store)@,
            Err(IngestError::Storage(e)) => secret@ == configured_secret@ && e is Conflict
                && has_time(old(store)@, now as int) && final(store)@ == old(store)@,
        },
{
    if !str_eq(secret, configured_secret) {
        return Err(IngestError::Unauthorized);
    }
    let row = DstatLog { time: now, server_name: name.to_owned(), rps: rps };
    match store.append(row) {
        Ok(()) => Ok(()),
        Err(e) => Err(IngestError::Storage(e)),
    }
}

} // verus!
