//! What runs probes and what hears their results; users may bring their own.

use vstd::prelude::*;
use crate::traffic::faultdetect::req::{FaultDetectPlan, FaultDetectResult};

verus! {

/// Runs one probe against a host.
pub trait FaultDetectProbeExecutor {
    /// Whether `result` is an answer this executor may give to a probe of `plan` against
    /// `host`; an executor that says nothing of its answers keeps this default.
    closed spec fn spec_probed(&self, host: Seq<char>, plan: FaultDetectPlan, result: FaultDetectResult) -> bool {
        true
    }

    fn execute(&self, host: &str, plan: &FaultDetectPlan) -> (r: FaultDetectResult)
        ensures
            self.spec_probed(host@, *plan, r),
    ;
}

/// Hears the result of each probe; `now` is the time of the report, in milliseconds.
pub trait FaultDetectReporter: Sized {
    /// Whether `after` is this reporter once it has heard the result of a plan at `now`.
    spec fn spec_reported(&self, after: Self, plan: FaultDetectPlan, result: FaultDetectResult, now: u64) -> bool;

    fn report(&mut self, plan: &FaultDetectPlan, result: &FaultDetectResult, now: u64)
        ensures
            old(self).spec_reported(*final(self), *plan, *result, now),
    ;
}

} // verus!
