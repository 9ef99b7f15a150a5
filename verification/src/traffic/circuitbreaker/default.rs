//! The circuit-breaking API over the composite breaker.

use vstd::prelude::*;
use crate::model::{CachedRule, ErrorCode, PoleError, ServiceKey};
use crate::model::circuitbreaker::{CircuitBreakerStatus, Resource, ResourceStat, spec_resource_key};
use crate::plugins::circuitbreaker::composite::circuitbreaker::{
    CompositeCircuitBreaker, CompositeView, spec_composite_check, spec_composite_report,
};
use crate::specification::CircuitBreakerRule;
use crate::traffic::circuitbreaker::api::{CircuitBreakerAPI, InvokeHandler};
use crate::traffic::circuitbreaker::req::RequestContext;

verus! {

/// The service whose circuit-breaking rules govern a resource: its callee, except
/// for instances, which carry no service rules.
pub open spec fn spec_rule_service_key(resource: Resource) -> Option<ServiceKey> {
    match resource {
        Resource::ServiceResource(r) => Some(r.callee),
        Resource::MethodResource(r) => Some(r.callee),
        Resource::InstanceResource(_) => None,
    }
}

pub fn circuit_breaker_rule_service_key(resource: &Resource) -> (r: Option<ServiceKey>)
    ensures
        r == spec_rule_service_key(*resource),
{
    match resource {
        Resource::ServiceResource(r) => Some(ServiceKey {
            namespace: r.callee.namespace.clone(),
            name: r.callee.name.clone(),
        }),
        Resource::MethodResource(r) => Some(ServiceKey {
            namespace: r.callee.namespace.clone(),
            name: r.callee.name.clone(),
        }),
        Resource::InstanceResource(_) => None,
    }
}

/// Circuit breaking for calls: rules of the callee are refreshed, then the breaker decides.
pub struct DefaultCircuitBreakerAPI {
    manage_sdk: bool,
    breaker: CompositeCircuitBreaker,
}

impl DefaultCircuitBreakerAPI {
    pub closed spec fn breaker_view(&self) -> CompositeView {
        self.breaker@
    }

    pub closed spec fn manages_sdk(&self) -> bool {
        self.manage_sdk
    }

    /// An API that owns its client context.
    pub fn new_raw() -> (r: DefaultCircuitBreakerAPI)
        ensures
            r.manages_sdk(),
            r.breaker_view().rules.len() == 0,
            r.breaker_view().states.len() == 0,
    {
        DefaultCircuitBreakerAPI { manage_sdk: true, breaker: CompositeCircuitBreaker::new() }
    }

    /// An API over a shared client context.
    pub fn new() -> (r: DefaultCircuitBreakerAPI)
        ensures
            !r.manages_sdk(),
            r.breaker_view().rules.len() == 0,
            r.breaker_view().states.len() == 0,
    {
        DefaultCircuitBreakerAPI { manage_sdk: false, breaker: CompositeCircuitBreaker::new() }
    }

    /// Installs the rules loaded for a resource's service.
    pub fn refresh_rules(&mut self, rules: Vec<CircuitBreakerRule>)
        ensures
            final(self).breaker_view().rules == rules@.map_values(|r: CircuitBreakerRule| r@),
            final(self).breaker_view().states.len() == 0,
            final(self).manages_sdk() == old(self).manages_sdk(),
    {
        self.breaker.update_rules(rules);
    }

    pub fn check_resource(&mut self, resource: &Resource, now: u64) -> (r: CircuitBreakerStatus)
        ensures
            ({
                let c = spec_composite_check(old(self).breaker_view(), spec_resource_key(*resource), now);
                &&& final(self).breaker_view() == c.0
                &&& r.status == c.1
                &&& r.circuit_breaker@ == c.2
            }),
            final(self).manages_sdk() == old(self).manages_sdk(),
    {
        self.breaker.check_resource(resource, now)
    }

    pub fn report_stat(&mut self, stat: &ResourceStat, now: u64)
        ensures
            final(self).breaker_view() == spec_composite_report(
                old(self).breaker_view(),
                spec_resource_key(stat.resource),
                stat.status,
                now,
            ),
            final(self).manages_sdk() == old(self).manages_sdk(),
    {
        self.breaker.report_stat(stat, now)
    }

    /// The breaker that invoke handlers of this API report to.
    pub fn breaker_mut(&mut self) -> (r: &mut CompositeCircuitBreaker)
        ensures
            r@ == old(self).breaker_view(),
            final(self).breaker_view() == final(r)@,
            final(self).manages_sdk() == old(self).manages_sdk(),
    {
        &mut self.breaker
    }
}

/// The circuit-breaking rules of cached rules; any other rule is an error.
pub open spec fn spec_circuit_breaker_rules(rules: Seq<CachedRule>) -> Option<Seq<CircuitBreakerRule>>
    decreases rules.len(),
{
    if rules.len() == 0 {
        Some(Seq::empty())
    } else {
        match (spec_circuit_breaker_rules(rules.drop_last()), rules.last()) {
            (Some(prev), CachedRule::CircuitBreaker(r)) => Some(prev.push(r)),
            _ => None,
        }
    }
}

proof fn lemma_circuit_breaker_rules_prefix(rules: Seq<CachedRule>, n: int)
    requires
        0 <= n <= rules.len(),
        spec_circuit_breaker_rules(rules.subrange(0, n)).is_none(),
    ensures
        spec_circuit_breaker_rules(rules).is_none(),
    decreases rules.len() - n,
{
    if n < rules.len() {
        let pre = rules.subrange(0, n + 1);
        assert(pre.drop_last() =~= rules.subrange(0, n));
        lemma_circuit_breaker_rules_prefix(rules, n + 1);
    } else {
        assert(rules.subrange(0, n) =~= rules);
    }
}

pub fn circuit_breaker_rules_from_service_rules(rules: Vec<CachedRule>) -> (r: Result<Vec<CircuitBreakerRule>, PoleError>)
    ensures
        match spec_circuit_breaker_rules(rules@) {
            Some(v) => r matches Ok(out) && out@ == v,
            None => r matches Err(e) && e.code == ErrorCode::InvalidRule
                && e.message@ == "rule type error, expect CircuitBreakerRule"@,
        },
{
    let ghost orig = rules@;
    let mut rest = rules;
    let mut out: Vec<CircuitBreakerRule> = Vec::new();
    let mut taken: usize = 0;
    let total = rest.len();
    assert(orig.subrange(0, 0) =~= Seq::<CachedRule>::empty());
    while rest.len() > 0
        invariant
            orig.len() == total,
            orig == rules@,
            taken + rest@.len() == orig.len(),
            rest@ == orig.subrange(taken as int, orig.len() as int),
            spec_circuit_breaker_rules(orig.subrange(0, taken as int)) == Some(out@),
        decreases rest@.len(),
    {
        let x = rest.remove(0);
        assert(rest@ =~= orig.subrange(taken + 1, orig.len() as int));
        let ghost pre = orig.subrange(0, taken + 1);
        assert(pre.drop_last() =~= orig.subrange(0, taken as int));
        assert(pre.last() == x);
        match x {
            CachedRule::CircuitBreaker(rule) => {
                out.push(rule);
            },
            _ => {
                proof {
                    lemma_circuit_breaker_rules_prefix(orig, taken as int + 1);
                }
                return Err(PoleError::new(ErrorCode::InvalidRule, String::from_str("rule type error, expect CircuitBreakerRule")));
            },
        }
        taken = taken + 1;
    }
    assert(orig.subrange(0, orig.len() as int) =~= orig);
    Ok(out)
}

/// The breaker after the rules loaded for a resource's service are installed: unchanged
/// when nothing was loaded (a resource without service rules); `None` when a loaded rule
/// is not a circuit-breaking rule.
pub open spec fn spec_refreshed(b: CompositeView, loaded: Option<Seq<CachedRule>>) -> Option<CompositeView> {
    match loaded {
        None => Some(b),
        Some(rules) => match spec_circuit_breaker_rules(rules) {
            None => None,
            Some(v) => Some(CompositeView { rules: v.map_values(|r: CircuitBreakerRule| r@), states: Seq::empty() }),
        },
    }
}

impl DefaultCircuitBreakerAPI {
    /// Installs the rules loaded for a resource's service (nothing, when none were loaded);
    /// refused when a loaded rule is not a circuit-breaking rule.
    pub fn refresh_loaded(&mut self, loaded: Option<Vec<CachedRule>>) -> (r: Result<(), PoleError>)
        ensures
            match spec_refreshed(old(self).breaker_view(), match loaded { Some(v) => Some(v@), None => None }) {
                Some(b) => r is Ok && final(self).breaker_view() == b,
                None => r matches Err(e) && e.code == ErrorCode::InvalidRule
                    && final(self).breaker_view() == old(self).breaker_view(),
            },
            final(self).manages_sdk() == old(self).manages_sdk(),
    {
        match loaded {
            None => Ok(()),
            Some(rules) => {
                let rules = circuit_breaker_rules_from_service_rules(rules)?;
                self.refresh_rules(rules);
                assert(self.breaker_view().states =~= Seq::<(Seq<char>, Seq<crate::plugins::circuitbreaker::composite::circuitbreaker::RuleStateView>)>::empty());
                Ok(())
            },
        }
    }
}

impl CircuitBreakerAPI for DefaultCircuitBreakerAPI {
    /// Installs the rules loaded for the resource's service, then checks the resource.
    fn check_resource_with_rules(&mut self, resource: &Resource, loaded: Option<Vec<CachedRule>>, now: u64) -> (r: Result<CircuitBreakerStatus, PoleError>)
        ensures
            match spec_refreshed(old(self).breaker_view(), match loaded { Some(v) => Some(v@), None => None }) {
                Some(b) => {
                    let c = spec_composite_check(b, spec_resource_key(*resource), now);
                    r matches Ok(st) && st.status == c.1 && st.circuit_breaker@ == c.2 && final(self).breaker_view() == c.0
                },
                None => r matches Err(e) && e.code == ErrorCode::InvalidRule
                    && final(self).breaker_view() == old(self).breaker_view(),
            },
    {
        self.refresh_loaded(loaded)?;
        Ok(self.check_resource(resource, now))
    }

    /// Installs the rules loaded for the resource's service, then records the outcome.
    fn report_stat_with_rules(&mut self, stat: &ResourceStat, loaded: Option<Vec<CachedRule>>, now: u64) -> (r: Result<(), PoleError>)
        ensures
            match spec_refreshed(old(self).breaker_view(), match loaded { Some(v) => Some(v@), None => None }) {
                Some(b) => r is Ok && final(self).breaker_view() == spec_composite_report(b, spec_resource_key(stat.resource), stat.status, now),
                None => r matches Err(e) && e.code == ErrorCode::InvalidRule
                    && final(self).breaker_view() == old(self).breaker_view(),
            },
    {
        self.refresh_loaded(loaded)?;
        self.report_stat(stat, now);
        Ok(())
    }

    fn make_invoke_handler(&self, req: RequestContext) -> (r: Result<InvokeHandler, PoleError>)
        ensures
            r matches Ok(h) && h.request() == req,
    {
        Ok(InvokeHandler::new(req))
    }
}

} // verus!
