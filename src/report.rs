//! The summary of one pass, and the sum of several.

use crate::batch::{successes, tally};
use vstd::prelude::*;

verus! {

/// The job name of a summed report.
pub const TOTAL_JOB: &'static str = "TOTAL";

/// Name, wall-clock duration in nanoseconds, and outcome counts of a pass.
#[derive(Clone, Debug)]
pub struct ReturnReport {
    pub job_name: String,
    pub duration_nanos: u128,
    pub amount_ok: usize,
    pub amount_err: usize,
}

impl ReturnReport {
    /// The report of a pass from the outcome of each of its units.
    pub fn from_outcomes(job_name: String, duration_nanos: u128, outcomes: &Vec<bool>) -> (r:
        ReturnReport)
        ensures
            r.job_name == job_name,
            r.duration_nanos == duration_nanos,
            r.amount_ok == successes(outcomes@),
            r.amount_ok + r.amount_err == outcomes@.len(),
    {
        let (amount_ok, amount_err) = tally(outcomes);
        ReturnReport { job_name, duration_nanos, amount_ok, amount_err }
    }

    /// The field-wise sum of two reports, named `TOTAL`.
    pub fn add(self, rhs: ReturnReport) -> (r: ReturnReport)
        requires
            self.duration_nanos + rhs.duration_nanos <= u128::MAX,
            self.amount_ok + rhs.amount_ok <= usize::MAX,
            self.amount_err + rhs.amount_err <= usize::MAX,
        ensures
            r.job_name@ == TOTAL_JOB@,
            r.duration_nanos == self.duration_nanos + rhs.duration_nanos,
            r.amount_ok == self.amount_ok + rhs.amount_ok,
            r.amount_err == self.amount_err + rhs.amount_err,
    {
        ReturnReport {
            job_name: String::from_str(TOTAL_JOB),
            duration_nanos: self.duration_nanos + rhs.duration_nanos,
            amount_ok: self.amount_ok + rhs.amount_ok,
            amount_err: self.amount_err + rhs.amount_err,
        }
    }
}

} // verus!
