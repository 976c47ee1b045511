//! The migration summary the coordinator reports.

use vstd::prelude::*;

verus! {

/// What a finished run processed: the parsed records, the records that
/// reached the store, and the elapsed wall time in milliseconds.
pub struct MigrationStats {
    pub total_records: usize,
    pub processed_records: usize,
    pub elapsed_millis: u64,
}

impl MigrationStats {
    /// The summary of a run over `total` records that processed
    /// `processed` of them.
    pub fn new(total_records: usize, processed_records: usize, elapsed_millis: u64) -> (r:
        MigrationStats)
        ensures
            r.total_records == total_records,
            r.processed_records == processed_records,
            r.elapsed_millis == elapsed_millis,
    {
        MigrationStats { total_records, processed_records, elapsed_millis }
    }
}

} // verus!
