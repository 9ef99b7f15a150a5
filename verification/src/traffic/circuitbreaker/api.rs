//! A guarded call: asks the breaker for permission, then reports how the call ended.

use vstd::prelude::*;
use vstd::string::StrSliceExecFns;
use crate::model::{PoleError, ServiceKey};
use crate::model::CachedRule;
use crate::model::circuitbreaker::{
    CircuitBreakerStatus, MethodResource, Resource, ResourceStat, RetStatus, ServiceResource, Status, spec_resource_key,
};
use crate::plugins::circuitbreaker::composite::circuitbreaker::{
    CompositeCircuitBreaker, CompositeView, spec_composite_check, spec_composite_report,
};
use crate::text::{i64_to_decimal, string_from_chars};
use crate::traffic::circuitbreaker::req::{RequestContext, ResponseContext};
use crate::traffic::circuitbreaker::default::{DefaultCircuitBreakerAPI, spec_refreshed};

verus! {

/// A call refused because a circuit is open; names the rule that opened it.
#[derive(Clone, Debug)]
pub struct CallAbortedError {
    pub rule_name: String,
}

fn copy_key(k: &ServiceKey) -> (r: ServiceKey)
    ensures
        r == *k,
{
    ServiceKey { namespace: k.namespace.clone(), name: k.name.clone() }
}

/// The service-level resource of a request: its callee, as called by its caller.
pub open spec fn spec_service_resource(req: RequestContext) -> Resource {
    Resource::ServiceResource(ServiceResource { callee: req.callee_service, caller: Some(req.caller_service) })
}

/// The method-level resource of a request.
pub open spec fn spec_method_resource(req: RequestContext) -> Resource {
    Resource::MethodResource(MethodResource {
        callee: req.callee_service,
        caller: Some(req.caller_service),
        protocol: req.protocol,
        method: req.method,
        path: req.path,
    })
}

/// The status reported for a successful call: a rejection when the breaker refused it.
pub open spec fn spec_success_status(rsp: ResponseContext) -> RetStatus {
    if rsp.call_aborted {
        RetStatus::RetReject
    } else {
        RetStatus::RetSuccess
    }
}

/// What the breaker holds after a call's outcome has been reported: the service-level
/// resource, then, when the request names a path, the method-level one.
pub open spec fn spec_report_call(b: CompositeView, req: RequestContext, status: RetStatus, now: u64) -> CompositeView {
    let b1 = spec_composite_report(b, spec_resource_key(spec_service_resource(req)), status, now);
    if req.path@.len() == 0 {
        b1
    } else {
        spec_composite_report(b1, spec_resource_key(spec_method_resource(req)), status, now)
    }
}

/// Guards one call of a request.
pub struct InvokeHandler {
    req_ctx: RequestContext,
}

impl InvokeHandler {
    pub closed spec fn request(&self) -> RequestContext {
        self.req_ctx
    }

    pub fn new(req_ctx: RequestContext) -> (r: InvokeHandler)
        ensures
            r.request() == req_ctx,
    {
        InvokeHandler { req_ctx }
    }

    fn service_resource(&self) -> (r: Resource)
        ensures
            r == spec_service_resource(self.request()),
    {
        Resource::ServiceResource(ServiceResource::new_waith_caller(
            copy_key(&self.req_ctx.caller_service),
            copy_key(&self.req_ctx.callee_service),
        ))
    }

    fn method_resource(&self) -> (r: Resource)
        ensures
            r == spec_method_resource(self.request()),
    {
        Resource::MethodResource(MethodResource::new_waith_caller(
            copy_key(&self.req_ctx.caller_service),
            copy_key(&self.req_ctx.callee_service),
            self.req_ctx.protocol.clone(),
            self.req_ctx.method.clone(),
            self.req_ctx.path.clone(),
        ))
    }

    /// Lets the call through unless a circuit of its service is open; a refusal names the rule.
    pub fn acquire_permission(&self, breaker: &mut CompositeCircuitBreaker, now: u64) -> (r: Result<(), CallAbortedError>)
        ensures
            ({
                let c = spec_composite_check(old(breaker)@, spec_resource_key(spec_service_resource(self.request())), now);
                &&& final(breaker)@ == c.0
                &&& (r is Ok <==> c.1 != Status::Open)
                &&& (r is Err ==> r->Err_0.rule_name@ == c.2)
            }),
    {
        let resource = self.service_resource();
        let ret = breaker.check_resource(&resource, now);
        match ret.status {
            Status::Open => Err(CallAbortedError { rule_name: ret.circuit_breaker }),
            _ => Ok(()),
        }
    }

    /// Reports a call that returned.
    pub fn on_success(&self, breaker: &mut CompositeCircuitBreaker, rsp: &ResponseContext, now: u64) -> (r: Result<(), PoleError>)
        requires
            self.request().result_to_code ==> rsp.result_code.is_some(),
        ensures
            final(breaker)@ == spec_report_call(old(breaker)@, self.request(), spec_success_status(*rsp), now),
            r is Ok,
    {
        let mut code: i32 = -1;
        if self.req_ctx.result_to_code {
            code = rsp.result_code.unwrap();
        }
        let status = if rsp.call_aborted {
            RetStatus::RetReject
        } else {
            RetStatus::RetSuccess
        };
        self.common_report(breaker, rsp.duration_ms, code, status, now)
    }

    /// Reports a call that failed.
    pub fn on_error(&self, breaker: &mut CompositeCircuitBreaker, rsp: &ResponseContext, now: u64) -> (r: Result<(), PoleError>)
        ensures
            final(breaker)@ == spec_report_call(old(breaker)@, self.request(), RetStatus::RetUnknown, now),
            r is Ok,
    {
        let mut code: i32 = 0;
        if self.req_ctx.result_to_code {
            if let Some(c) = rsp.error_code {
                code = c;
            }
        }
        self.common_report(breaker, rsp.duration_ms, code, RetStatus::RetUnknown, now)
    }

    /// Reports the outcome, with its return code in decimal, at service level and, for a
    /// request with a path, at method level.
    fn common_report(
        &self,
        breaker: &mut CompositeCircuitBreaker,
        cost_ms: u64,
        code: i32,
        status: RetStatus,
        now: u64,
    ) -> (r: Result<(), PoleError>)
        ensures
            final(breaker)@ == spec_report_call(old(breaker)@, self.request(), status, now),
            r is Ok,
    {
        let code_chars = i64_to_decimal(code as i64);
        let stat = ResourceStat {
            resource: self.service_resource(),
            ret_code: string_from_chars(code_chars.as_slice()),
            delay_ms: cost_ms,
            status,
        };
        breaker.report_stat(&stat, now);
        if self.req_ctx.path.as_str().unicode_len() == 0 {
            return Ok(());
        }
        let method_stat = ResourceStat {
            resource: self.method_resource(),
            ret_code: string_from_chars(code_chars.as_slice()),
            delay_ms: cost_ms,
            status,
        };
        breaker.report_stat(&method_stat, now);
        Ok(())
    }
}

/// Loads the circuit-breaking rules of a resource's service for an invoke handler:
/// `Ok(None)` for a resource without service rules.
pub trait CircuitBreakerRuleRefresher: Sized {
    /// Whether `after` and `answer` are what this refresher may become and give when asked
    /// for `resource`; a refresher that says nothing of its answers keeps this default.
    closed spec fn spec_refresh(&self, after: Self, resource: Resource, answer: Result<Option<Vec<CachedRule>>, PoleError>) -> bool {
        true
    }

    fn refresh_rules_for_resource(&mut self, resource: &Resource) -> (r: Result<Option<Vec<CachedRule>>, PoleError>)
        ensures
            old(self).spec_refresh(*final(self), *resource, r),
    ;
}

/// The rules a refresh loaded, as values; `None` when loading failed.
pub open spec fn answer_view(answer: Result<Option<Vec<CachedRule>>, PoleError>) -> Option<Option<Seq<CachedRule>>> {
    match answer {
        Ok(Some(v)) => Some(Some(v@)),
        Ok(None) => Some(None),
        Err(_) => None,
    }
}

/// The breaker a permission check starts from after a refresh: the loaded rules installed,
/// or, when loading failed or a loaded rule is not a circuit-breaking rule, the breaker as
/// it was.
pub open spec fn spec_breaker_for_check(b: CompositeView, answer: Option<Option<Seq<CachedRule>>>) -> CompositeView {
    match answer {
        Some(loaded) => match spec_refreshed(b, loaded) {
            Some(b2) => b2,
            None => b,
        },
        None => b,
    }
}

/// Asks the refresher for the rules of the request's service, as the callee of its caller.
pub fn refresh_invoke_service_rules<R: CircuitBreakerRuleRefresher>(req_ctx: &RequestContext, refresher: &mut R) -> (r: Result<Option<Vec<CachedRule>>, PoleError>)
    ensures
        old(refresher).spec_refresh(*final(refresher), spec_service_resource(*req_ctx), r),
{
    let resource = Resource::ServiceResource(ServiceResource::new_waith_caller(
        copy_key(&req_ctx.caller_service),
        copy_key(&req_ctx.callee_service),
    ));
    refresher.refresh_rules_for_resource(&resource)
}

impl InvokeHandler {
    /// Installs what a refresh of the service's rules answered, then asks for permission; a
    /// failed refresh does not stop the check.
    pub fn acquire_permission_with_rules(
        &self,
        api: &mut DefaultCircuitBreakerAPI,
        answer: Result<Option<Vec<CachedRule>>, PoleError>,
        now: u64,
    ) -> (r: Result<(), CallAbortedError>)
        ensures
            ({
                let b = spec_breaker_for_check(old(api).breaker_view(), answer_view(answer));
                let c = spec_composite_check(b, spec_resource_key(spec_service_resource(self.request())), now);
                &&& final(api).breaker_view() == c.0
                &&& (r is Ok <==> c.1 != Status::Open)
                &&& (r is Err ==> r->Err_0.rule_name@ == c.2)
            }),
            final(api).manages_sdk() == old(api).manages_sdk(),
    {
        if let Ok(loaded) = answer {
            let _ = api.refresh_loaded(loaded);
        }
        self.acquire_permission(api.breaker_mut(), now)
    }

    /// Installs what a refresh of the service's rules answered, then reports a call that
    /// returned; a failed refresh is returned and nothing is reported.
    pub fn on_success_with_rules(
        &self,
        api: &mut DefaultCircuitBreakerAPI,
        answer: Result<Option<Vec<CachedRule>>, PoleError>,
        rsp: &ResponseContext,
        now: u64,
    ) -> (r: Result<(), PoleError>)
        requires
            self.request().result_to_code ==> rsp.result_code.is_some(),
        ensures
            match answer {
                Err(e) => r == Err::<(), PoleError>(e) && final(api).breaker_view() == old(api).breaker_view(),
                Ok(loaded) => match spec_refreshed(old(api).breaker_view(), match loaded { Some(v) => Some(v@), None => None }) {
                    Some(b) => r is Ok && final(api).breaker_view()
                        == spec_report_call(b, self.request(), spec_success_status(*rsp), now),
                    None => r matches Err(e) && e.code == crate::model::ErrorCode::InvalidRule
                        && final(api).breaker_view() == old(api).breaker_view(),
                },
            },
            final(api).manages_sdk() == old(api).manages_sdk(),
    {
        let loaded = answer?;
        api.refresh_loaded(loaded)?;
        self.on_success(api.breaker_mut(), rsp, now)
    }

    /// Installs what a refresh of the service's rules answered, then reports a call that
    /// failed; a failed refresh is returned and nothing is reported.
    pub fn on_error_with_rules(
        &self,
        api: &mut DefaultCircuitBreakerAPI,
        answer: Result<Option<Vec<CachedRule>>, PoleError>,
        rsp: &ResponseContext,
        now: u64,
    ) -> (r: Result<(), PoleError>)
        ensures
            match answer {
                Err(e) => r == Err::<(), PoleError>(e) && final(api).breaker_view() == old(api).breaker_view(),
                Ok(loaded) => match spec_refreshed(old(api).breaker_view(), match loaded { Some(v) => Some(v@), None => None }) {
                    Some(b) => r is Ok && final(api).breaker_view()
                        == spec_report_call(b, self.request(), RetStatus::RetUnknown, now),
                    None => r matches Err(e) && e.code == crate::model::ErrorCode::InvalidRule
                        && final(api).breaker_view() == old(api).breaker_view(),
                },
            },
            final(api).manages_sdk() == old(api).manages_sdk(),
    {
        let loaded = answer?;
        api.refresh_loaded(loaded)?;
        self.on_error(api.breaker_mut(), rsp, now)
    }

    /// Refreshes the service's rules through `refresher`, then asks for permission.
    pub fn acquire_permission_refreshing<R: CircuitBreakerRuleRefresher>(
        &self,
        api: &mut DefaultCircuitBreakerAPI,
        refresher: &mut R,
        now: u64,
    ) -> (r: Result<(), CallAbortedError>)
        ensures
            exists|answer: Result<Option<Vec<CachedRule>>, PoleError>| {
                let b = spec_breaker_for_check(old(api).breaker_view(), answer_view(answer));
                let c = spec_composite_check(b, spec_resource_key(spec_service_resource(self.request())), now);
                &&& #[trigger] old(refresher).spec_refresh(*final(refresher), spec_service_resource(self.request()), answer)
                &&& final(api).breaker_view() == c.0
                &&& (r is Ok <==> c.1 != Status::Open)
                &&& (r is Err ==> r->Err_0.rule_name@ == c.2)
            },
            final(api).manages_sdk() == old(api).manages_sdk(),
    {
        let answer = refresh_invoke_service_rules(&self.req_ctx, refresher);
        self.acquire_permission_with_rules(api, answer, now)
    }

    /// Refreshes the service's rules through `refresher`, then reports a call that returned.
    pub fn on_success_refreshing<R: CircuitBreakerRuleRefresher>(
        &self,
        api: &mut DefaultCircuitBreakerAPI,
        refresher: &mut R,
        rsp: &ResponseContext,
        now: u64,
    ) -> (r: Result<(), PoleError>)
        requires
            self.request().result_to_code ==> rsp.result_code.is_some(),
        ensures
            exists|answer: Result<Option<Vec<CachedRule>>, PoleError>| {
                &&& #[trigger] old(refresher).spec_refresh(*final(refresher), spec_service_resource(self.request()), answer)
                &&& match answer {
                    Err(e) => r == Err::<(), PoleError>(e) && final(api).breaker_view() == old(api).breaker_view(),
                    Ok(loaded) => match spec_refreshed(old(api).breaker_view(), match loaded { Some(v) => Some(v@), None => None }) {
                        Some(b) => r is Ok && final(api).breaker_view()
                            == spec_report_call(b, self.request(), spec_success_status(*rsp), now),
                        None => r matches Err(e) && e.code == crate::model::ErrorCode::InvalidRule
                            && final(api).breaker_view() == old(api).breaker_view(),
                    },
                }
            },
            final(api).manages_sdk() == old(api).manages_sdk(),
    {
        let answer = refresh_invoke_service_rules(&self.req_ctx, refresher);
        self.on_success_with_rules(api, answer, rsp, now)
    }

    /// Refreshes the service's rules through `refresher`, then reports a call that failed.
    pub fn on_error_refreshing<R: CircuitBreakerRuleRefresher>(
        &self,
        api: &mut DefaultCircuitBreakerAPI,
        refresher: &mut R,
        rsp: &ResponseContext,
        now: u64,
    ) -> (r: Result<(), PoleError>)
        ensures
            exists|answer: Result<Option<Vec<CachedRule>>, PoleError>| {
                &&& #[trigger] old(refresher).spec_refresh(*final(refresher), spec_service_resource(self.request()), answer)
                &&& match answer {
                    Err(e) => r == Err::<(), PoleError>(e) && final(api).breaker_view() == old(api).breaker_view(),
                    Ok(loaded) => match spec_refreshed(old(api).breaker_view(), match loaded { Some(v) => Some(v@), None => None }) {
                        Some(b) => r is Ok && final(api).breaker_view()
                            == spec_report_call(b, self.request(), RetStatus::RetUnknown, now),
                        None => r matches Err(e) && e.code == crate::model::ErrorCode::InvalidRule
                            && final(api).breaker_view() == old(api).breaker_view(),
                    },
                }
            },
            final(api).manages_sdk() == old(api).manages_sdk(),
    {
        let answer = refresh_invoke_service_rules(&self.req_ctx, refresher);
        self.on_error_with_rules(api, answer, rsp, now)
    }
}

/// Circuit breaking as offered to callers: check a resource, report a call's outcome, and
/// guard calls with an invoke handler. The rules loaded for a resource's service (none for
/// a resource without service rules) are installed before the breaker decides.
pub trait CircuitBreakerAPI {
    fn check_resource_with_rules(&mut self, resource: &Resource, loaded: Option<Vec<CachedRule>>, now: u64) -> Result<CircuitBreakerStatus, PoleError>;

    fn report_stat_with_rules(&mut self, stat: &ResourceStat, loaded: Option<Vec<CachedRule>>, now: u64) -> Result<(), PoleError>;

    fn make_invoke_handler(&self, req: RequestContext) -> Result<InvokeHandler, PoleError>;
}

} // verus!
