//! What a guarded call tells the circuit breaker before and after it runs.

use vstd::prelude::*;
use crate::model::ServiceKey;

verus! {

/// The call about to be made.
#[derive(Clone, Debug)]
pub struct RequestContext {
    pub caller_service: ServiceKey,
    pub callee_service: ServiceKey,
    pub protocol: String,
    pub method: String,
    pub path: String,
    /// Whether the caller converts results and errors into return codes.
    pub result_to_code: bool,
}

/// How the call ended.
#[derive(Clone, Debug)]
pub struct ResponseContext {
    pub duration_ms: u64,
    /// The code the caller's converter gave for the call's result.
    pub result_code: Option<i32>,
    /// The code the caller's converter gave for the call's error, when there was one.
    pub error_code: Option<i32>,
    /// Whether the call ended because the breaker refused it.
    pub call_aborted: bool,
}

} // verus!
