//! Persistence planning: which streams a bulk insert writes, and which it
//! reports as failed before any statement runs.

use crate::relative_time::{now_in_range, timestamp_at};
use crate::stream::{current_time, Stream};
use vstd::prelude::*;

verus! {

/// Why a stream was not inserted.
#[derive(Debug)]
pub enum InsertFailReason {
    /// The publication string does not give a timestamp.
    InvalidStreamedDate { malformed_date: String },
}

/// A stream that a bulk insert did not write.
#[derive(Debug)]
pub struct FailedInsert {
    pub video_id: String,
    pub reason: InsertFailReason,
}

/// The outcome of a bulk insert.
#[derive(Debug)]
pub struct BulkInsertResult {
    /// The rows that the store actually wrote; ids already present are skipped.
    pub successful_inserts: usize,
    pub failed_inserts: Vec<FailedInsert>,
}

/// A stream ready to be written, with its absolute publication time.
#[derive(Debug)]
pub struct StreamRow {
    pub stream: Stream,
    /// Seconds since the Unix epoch.
    pub stream_timestamp: i64,
}

/// The two parts of a bulk insert: the rows of the single insert statement and
/// the streams reported as failed without touching the store.
#[derive(Debug)]
pub struct BulkInsertPlan {
    pub rows: Vec<StreamRow>,
    pub failed_inserts: Vec<FailedInsert>,
}

/// The rows that `streams` give at time `now`: each stream with a timestamp,
/// in order, together with it.
pub open spec fn valid_rows(streams: Seq<Stream>, now: int) -> Seq<(Stream, int)>
    decreases streams.len(),
{
    if streams.len() == 0 {
        Seq::empty()
    } else {
        let rest = valid_rows(streams.drop_last(), now);
        match timestamp_at(streams.last().streamed_date@, now) {
            Some(t) => rest.push((streams.last(), t)),
            None => rest,
        }
    }
}

/// The failures that `streams` give: the id and publication string of each
/// stream without a timestamp, in order.
pub open spec fn invalid_dates(streams: Seq<Stream>) -> Seq<(Seq<char>, Seq<char>)>
    decreases streams.len(),
{
    if streams.len() == 0 {
        Seq::empty()
    } else {
        let rest = invalid_dates(streams.drop_last());
        match timestamp_at(streams.last().streamed_date@, 0) {
            Some(_) => rest,
            None => rest.push((streams.last().video_id@, streams.last().streamed_date@)),
        }
    }
}

/// A row as the pair of its stream and timestamp.
pub open spec fn row_view(r: StreamRow) -> (Stream, int) {
    (r.stream, r.stream_timestamp as int)
}

/// A failure as the pair of its id and malformed date.
pub open spec fn failure_view(f: FailedInsert) -> (Seq<char>, Seq<char>) {
    match f.reason {
        InsertFailReason::InvalidStreamedDate { malformed_date } => (f.video_id@, malformed_date@),
    }
}

/// Splits `streams` into the rows to write, stamped at time `now`, and the
/// streams whose publication string gives no timestamp.
pub fn plan_bulk_insert(streams: &Vec<Stream>, now: i64) -> (r: BulkInsertPlan)
    requires
        now_in_range(now),
    ensures
        r.rows@.map_values(|x: StreamRow| row_view(x)) == valid_rows(streams@, now as int),
        r.failed_inserts@.map_values(|f: FailedInsert| failure_view(f)) == invalid_dates(streams@),
{
    let mut rows: Vec<StreamRow> = Vec::new();
    let mut failed: Vec<FailedInsert> = Vec::new();
    let mut i: usize = 0;
    while i < streams.len()
        invariant
            i <= streams.len(),
            now_in_range(now),
            rows@.map_values(|x: StreamRow| row_view(x)) == valid_rows(
                streams@.take(i as int),
                now as int,
            ),
            failed@.map_values(|f: FailedInsert| failure_view(f)) == invalid_dates(
                streams@.take(i as int),
            ),
        decreases streams.len() - i,
    {
        let s = &streams[i];
        assert(streams@.take(i + 1).drop_last() =~= streams@.take(i as int));
        let ghost rows_before = rows@;
        let ghost failed_before = failed@;
        match s.timestamp_at(now) {
            Some(t) => {
                rows.push(StreamRow { stream: s.copy(), stream_timestamp: t });
                assert(rows@.map_values(|x: StreamRow| row_view(x)) =~= rows_before.map_values(
                    |x: StreamRow| row_view(x),
                ).push((*s, t as int)));
            },
            None => {
                failed.push(
                    FailedInsert {
                        video_id: s.video_id.clone(),
                        reason: InsertFailReason::InvalidStreamedDate {
                            malformed_date: s.streamed_date.clone(),
                        },
                    },
                );
                assert(failed@.map_values(|f: FailedInsert| failure_view(f)) =~= failed_before.map_values(
                    |f: FailedInsert| failure_view(f),
                ).push((s.video_id@, s.streamed_date@)));
            },
        }
        i = i + 1;
    }
    assert(streams@.take(streams.len() as int) =~= streams@);
    BulkInsertPlan { rows, failed_inserts: failed }
}

/// [`plan_bulk_insert`] at the current time; `None` when the clock cannot be read.
pub fn plan_bulk_insert_now(streams: &Vec<Stream>) -> (r: Option<BulkInsertPlan>)
    ensures
        r matches Some(p) ==> exists|now: int|
            0 <= now && p.rows@.map_values(|x: StreamRow| row_view(x)) == valid_rows(streams@, now),
        r matches Some(p) ==> p.failed_inserts@.map_values(|f: FailedInsert| failure_view(f))
            == invalid_dates(streams@),
{
    match current_time() {
        Some(now) => Some(plan_bulk_insert(streams, now)),
        None => None,
    }
}

impl BulkInsertPlan {
    /// The outcome once the store reports how many of the rows it wrote.
    pub fn into_result(self, rows_written: usize) -> (r: BulkInsertResult)
        ensures
            r.successful_inserts == rows_written,
            r.failed_inserts@ == self.failed_inserts@,
    {
        BulkInsertResult { successful_inserts: rows_written, failed_inserts: self.failed_inserts }
    }
}

} // verus!
