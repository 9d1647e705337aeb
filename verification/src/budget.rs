//! The error budget: a count of row-level failures, the early-termination
//! decision against a configured limit, and the final outcome of a run.

use vstd::prelude::*;
use crate::text::{spec_dec_u64, u64_to_dec, push_all};

verus! {

/// Row-level failures recorded so far, against a limit (`0` = unlimited).
pub struct ErrorBudget {
    pub count: u64,
    pub limit: u64,
}

/// The failure outcome of a whole run: some rows failed, though all
/// successfully produced output was written.
pub struct RunError {
    pub error_count: u64,
}

/// The text `Luau errors encountered: ` followed by the count.
pub open spec fn spec_run_error_text(n: u64) -> Seq<u8> {
    seq![
        76u8, 117u8, 97u8, 117u8, 32u8, 101u8, 114u8, 114u8, 111u8, 114u8, 115u8, 32u8, 101u8,
        110u8, 99u8, 111u8, 117u8, 110u8, 116u8, 101u8, 114u8, 101u8, 100u8, 58u8, 32u8,
    ] + spec_dec_u64(n as nat)
}

impl RunError {
    /// The user-visible message naming the total failure count.
    pub fn message(&self) -> (m: Vec<u8>)
        ensures
            m@ == spec_run_error_text(self.error_count),
    {
        let mut m = vec![
            76u8, 117u8, 97u8, 117u8, 32u8, 101u8, 114u8, 114u8, 111u8, 114u8, 115u8, 32u8, 101u8,
            110u8, 99u8, 111u8, 117u8, 110u8, 116u8, 101u8, 114u8, 101u8, 100u8, 58u8, 32u8,
        ];
        assert(m@ =~= spec_run_error_text(self.error_count).subrange(0, 25));
        let d = u64_to_dec(self.error_count);
        push_all(&mut m, &d);
        assert(m@ =~= spec_run_error_text(self.error_count));
        m
    }
}

impl ErrorBudget {
    /// A fresh budget with no recorded failure.
    pub fn new(limit: u64) -> (b: ErrorBudget)
        ensures
            b.count == 0,
            b.limit == limit,
    {
        ErrorBudget { count: 0, limit }
    }

    /// Records one row-level failure.
    pub fn record_failure(&mut self)
        requires
            old(self).count < u64::MAX,
        ensures
            final(self).count == old(self).count + 1,
            final(self).limit == old(self).limit,
    {
        self.count = self.count + 1;
    }

    /// Whether the run must terminate early: the limit is set and the
    /// recorded failures exceed it.
    pub fn should_abort(&self) -> (r: bool)
        ensures
            r == spec_should_abort(self.count, self.limit),
    {
        self.limit > 0 && self.count > self.limit
    }

    /// Recorded failures so far.
    pub fn count(&self) -> (r: u64)
        ensures
            r == self.count,
    {
        self.count
    }

    /// The run's final outcome: a failure summarizing the count exactly
    /// when any row-level failure was recorded.
    pub fn final_outcome(&self) -> (r: Result<(), RunError>)
        ensures
            self.count == 0 ==> r is Ok,
            self.count > 0 ==> (r matches Err(e) && e.error_count == self.count),
    {
        if self.count > 0 {
            Err(RunError { error_count: self.count })
        } else {
            Ok(())
        }
    }
}

/// The early-termination rule: a limit of `0` never aborts.
pub open spec fn spec_should_abort(count: u64, limit: u64) -> bool {
    limit > 0 && count > limit
}

} // verus!
