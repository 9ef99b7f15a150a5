//! Fault detection: probe plans from rules, targets from instances, probe requests and
//! the reading of their answers, and the report of results to the circuit breaker.

use vstd::prelude::*;
use vstd::string::{StrSliceExecFns, StringExecFns};
use crate::model::{
    InstanceView, MetadataEntry, ServiceInstances, ServiceKey, instance_views, metadata_get,
    metadata_lookup,
};
use crate::model::circuitbreaker::{
    Resource, ResourceStat, RetStatus, ServiceResource, spec_resource_key,
};
use crate::plugins::circuitbreaker::composite::circuitbreaker::{CompositeView, spec_composite_report};
use crate::traffic::circuitbreaker::default::DefaultCircuitBreakerAPI;
use crate::priority::{IndexRef, Prioritized, sort_by_priority, stable_sort_by_priority};
use crate::specification::{
    DestinationService, FaultDetectRule, FaultDetectRuleProtocol, FaultDetectSubRule,
    HttpHeader, HttpProtocolConfig, PayloadProtocolConfig,
};
use crate::text::{
    append_chars, chars_of, find_char, find_char_index, is_white, is_white_char, lead_white,
    lower_chars, lower_seq, parse_u16, seq_contains, contains_chars, slice_chars,
    spec_decimal, spec_parse_u16, starts_with, starts_with_chars, string_from_chars, trim_chars,
    trim_seq, u64_to_decimal,
};
use crate::traffic::faultdetect::api::{FaultDetectProbeExecutor, FaultDetectReporter};
use crate::traffic::faultdetect::req::{
    FaultDetectPlan, FaultDetectProtocol, FaultDetectResult, FaultDetectTarget, HttpConfigView,
    HttpFaultDetectConfig, PayloadView, PlanView, TcpFaultDetectConfig, UdpFaultDetectConfig,
    duplicate_plans, duplicate_strings, header_views, plan_views, string_views,
};
use crate::keyed::{key_remove, key_store, keyed_view, map_entries, lemma_map_entries, store_key, take_key};

verus! {

/// Runs plans: each probe's result goes to the reporter.
pub struct FaultDetectScheduler<E: FaultDetectProbeExecutor, R: FaultDetectReporter> {
    pub executor: E,
    pub reporter: R,
}

impl<E: FaultDetectProbeExecutor, R: FaultDetectReporter> FaultDetectScheduler<E, R> {
    pub fn new(executor: E, reporter: R) -> (r: Self)
        ensures
            r.executor == executor,
            r.reporter == reporter,
    {
        FaultDetectScheduler { executor, reporter }
    }

    /// Probes the host once with each plan, in order, reporting each result.
    pub fn run_once(&mut self, host: &str, plans: Vec<FaultDetectPlan>, now: u64)
        ensures
            final(self).executor == old(self).executor,
            exists|states: Seq<R>, results: Seq<FaultDetectResult>|
                ran_in_order(old(self).reporter, final(self).reporter, states, results, plans@, now)
                && probed_in_order(old(self).executor, host@, plans@, results),
    {
        let ghost mut states: Seq<R> = seq![self.reporter];
        let ghost mut results: Seq<FaultDetectResult> = Seq::empty();
        let mut i: usize = 0;
        while i < plans.len()
            invariant
                i <= plans@.len(),
                self.executor == old(self).executor,
                states.len() == i + 1,
                results.len() == i,
                states[0] == old(self).reporter,
                states.last() == self.reporter,
                forall|j: int| 0 <= j < i ==> states[j].spec_reported(states[j + 1], plans@[j], #[trigger] results[j], now),
                forall|j: int| 0 <= j < i ==> self.executor.spec_probed(host@, plans@[j], #[trigger] results[j]),
            decreases plans@.len() - i,
        {
            let result = self.executor.execute(host, &plans[i]);
            self.reporter.report(&plans[i], &result, now);
            proof {
                let prev_states = states;
                states = states.push(self.reporter);
                results = results.push(result);
                assert forall|j: int| 0 <= j < i + 1 implies states[j].spec_reported(states[j + 1], plans@[j], #[trigger] results[j], now) by {
                    if j < i {
                        assert(states[j] == prev_states[j]);
                        assert(states[j + 1] == prev_states[j + 1]);
                    }
                }
                assert forall|j: int| 0 <= j < i + 1 implies self.executor.spec_probed(host@, plans@[j], #[trigger] results[j]) by {
                    if j < i {
                        assert(results[j] == results.drop_last()[j]);
                    }
                }
            }
            i = i + 1;
        }
        assert(ran_in_order(old(self).reporter, self.reporter, states, results, plans@, now));
        assert(probed_in_order(self.executor, host@, plans@, results));
    }

    /// Probes each target once with its plans.
    pub fn run_targets_once(&mut self, targets: Vec<FaultDetectTarget>, now: u64)
        ensures
            final(self).executor == old(self).executor,
            exists|states: Seq<R>, results: Seq<FaultDetectResult>|
                ran_in_order(old(self).reporter, final(self).reporter, states, results, target_plans(targets@), now)
                && probed_targets(old(self).executor, targets@, results),
    {
        let ghost orig = targets@;
        let ghost mut states: Seq<R> = seq![self.reporter];
        let ghost mut results: Seq<FaultDetectResult> = Seq::empty();
        let mut rest = targets;
        let mut taken: usize = 0;
        let total = rest.len();
        assert(orig.subrange(0, 0) =~= Seq::<FaultDetectTarget>::empty());
        while rest.len() > 0
            invariant
                orig.len() == total,
                taken + rest@.len() == orig.len(),
                rest@ == orig.subrange(taken as int, orig.len() as int),
                self.executor == old(self).executor,
                ran_in_order(old(self).reporter, self.reporter, states, results, target_plans(orig.subrange(0, taken as int)), now),
                probed_targets(self.executor, orig.subrange(0, taken as int), results),
            decreases rest@.len(),
        {
            let target = rest.remove(0);
            assert(rest@ =~= orig.subrange(taken + 1, orig.len() as int));
            assert(target == orig[taken as int]);
            let ghost plans_of_target = target.plans@;
            let ghost host_of_target = target.host@;
            let ghost mid = self.reporter;
            self.run_once(target.host.as_str(), target.plans, now);
            proof {
                let (s2, r2) = choose|s2: Seq<R>, r2: Seq<FaultDetectResult>|
                    ran_in_order(mid, self.reporter, s2, r2, plans_of_target, now)
                    && probed_in_order(self.executor, host_of_target, plans_of_target, r2);
                let pre = orig.subrange(0, taken + 1);
                assert(pre.drop_last() =~= orig.subrange(0, taken as int));
                assert(pre.last() == target);
                assert(results.len() == target_plans(orig.subrange(0, taken as int)).len());
                assert((results + r2).subrange(0, results.len() as int) =~= results);
                assert((results + r2).subrange(results.len() as int, (results + r2).len() as int) =~= r2);
                lemma_ran_concat(old(self).reporter, mid, self.reporter, states, results,
                    target_plans(orig.subrange(0, taken as int)), s2, r2, plans_of_target, now);
                let pre = orig.subrange(0, taken + 1);
                assert(pre.drop_last() =~= orig.subrange(0, taken as int));
                assert(target_plans(pre) == target_plans(orig.subrange(0, taken as int)) + plans_of_target);
                states = states + s2.drop_first();
                results = results + r2;
            }
            taken = taken + 1;
        }
        assert(orig.subrange(0, orig.len() as int) =~= orig);
    }
}

/// The plans of targets, target after target.
pub open spec fn target_plans(targets: Seq<FaultDetectTarget>) -> Seq<FaultDetectPlan>
    decreases targets.len(),
{
    if targets.len() == 0 {
        Seq::empty()
    } else {
        target_plans(targets.drop_last()) + targets.last().plans@
    }
}

/// Whether each result is an answer the executor may give to the plan at that place,
/// probed against the host.
pub open spec fn probed_in_order<E: FaultDetectProbeExecutor>(executor: E, host: Seq<char>, plans: Seq<FaultDetectPlan>, results: Seq<FaultDetectResult>) -> bool {
    &&& results.len() == plans.len()
    &&& forall|j: int| 0 <= j < plans.len() ==> executor.spec_probed(host, plans[j], #[trigger] results[j])
}

/// Whether the results, target after target, are answers the executor may give to each
/// target's plans, probed against that target's host.
pub open spec fn probed_targets<E: FaultDetectProbeExecutor>(executor: E, targets: Seq<FaultDetectTarget>, results: Seq<FaultDetectResult>) -> bool
    decreases targets.len(),
{
    if targets.len() == 0 {
        results.len() == 0
    } else {
        let n = results.len() - targets.last().plans@.len();
        &&& n >= 0
        &&& probed_targets(executor, targets.drop_last(), results.subrange(0, n))
        &&& probed_in_order(executor, targets.last().host@, targets.last().plans@, results.subrange(n, results.len() as int))
    }
}

/// Whether a reporter went from `before` to `after` by hearing, in order, a result of each
/// plan: `states` is the reporter before each report and after the last, `results` what
/// each probe gave.
pub open spec fn ran_in_order<R: FaultDetectReporter>(
    before: R,
    after: R,
    states: Seq<R>,
    results: Seq<FaultDetectResult>,
    plans: Seq<FaultDetectPlan>,
    now: u64,
) -> bool {
    &&& states.len() == plans.len() + 1
    &&& results.len() == plans.len()
    &&& states[0] == before
    &&& states.last() == after
    &&& forall|j: int| 0 <= j < plans.len() ==> states[j].spec_reported(states[j + 1], plans[j], #[trigger] results[j], now)
}

proof fn lemma_ran_concat<R: FaultDetectReporter>(
    a: R,
    b: R,
    c: R,
    s1: Seq<R>,
    r1: Seq<FaultDetectResult>,
    p1: Seq<FaultDetectPlan>,
    s2: Seq<R>,
    r2: Seq<FaultDetectResult>,
    p2: Seq<FaultDetectPlan>,
    now: u64,
)
    requires
        ran_in_order(a, b, s1, r1, p1, now),
        ran_in_order(b, c, s2, r2, p2, now),
    ensures
        ran_in_order(a, c, s1 + s2.drop_first(), r1 + r2, p1 + p2, now),
{
    let s = s1 + s2.drop_first();
    let r = r1 + r2;
    let p = p1 + p2;
    let n = p1.len() as int;
    assert(s.len() == p.len() + 1);
    assert(s[0] == a);
    if p2.len() == 0 {
        assert(s =~= s1);
    } else {
        assert(s.last() == s2.last());
    }
    assert forall|j: int| 0 <= j < p.len() implies s[j].spec_reported(s[j + 1], p[j], #[trigger] r[j], now) by {
        if j < n {
            assert(s[j] == s1[j]);
            assert(s[j + 1] == s1[j + 1]);
            assert(r[j] == r1[j]);
            assert(p[j] == p1[j]);
        } else {
            let k = j - n;
            assert(r[j] == r2[k]);
            assert(p[j] == p2[k]);
            if j == n {
                assert(s[j] == s1.last());
            } else {
                assert(s[j] == s2.drop_first()[j - n - 1]);
            }
            assert(s[j] == s2[k]);
            assert(s[j + 1] == s2.drop_first()[k]);
            assert(s[j + 1] == s2[k + 1]);
        }
    }
}

/// The resource a probe's result is reported on: the probed service, from any caller.
pub open spec fn spec_probe_resource(plan: FaultDetectPlan) -> Resource {
    Resource::ServiceResource(ServiceResource {
        callee: ServiceKey { namespace: plan.namespace, name: plan.service },
        caller: None,
    })
}

/// The status a probe's result is reported with: success; a timeout when the message
/// mentions one, in any letter case; else a failure.
pub open spec fn spec_probe_status(result: FaultDetectResult) -> RetStatus {
    if result.success {
        RetStatus::RetSuccess
    } else if seq_contains(lower_seq(result.message@), "timeout"@) {
        RetStatus::RetTimeout
    } else {
        RetStatus::RetFail
    }
}

pub fn fault_detect_result_to_resource_stat(plan: &FaultDetectPlan, result: &FaultDetectResult) -> (r: ResourceStat)
    ensures
        r.resource == spec_probe_resource(*plan),
        r.ret_code@ == result.rule_id@,
        r.delay_ms == 0,
        r.status == spec_probe_status(*result),
{
    let status = if result.success {
        RetStatus::RetSuccess
    } else {
        let lowered = lower_chars(&chars_of(result.message.as_str()));
        if contains_chars(&lowered, &chars_of("timeout")) {
            RetStatus::RetTimeout
        } else {
            RetStatus::RetFail
        }
    };
    ResourceStat {
        resource: Resource::ServiceResource(ServiceResource::new(ServiceKey {
            namespace: plan.namespace.clone(),
            name: plan.service.clone(),
        })),
        ret_code: result.rule_id.clone(),
        delay_ms: 0,
        status,
    }
}

/// Reports probe results to the circuit breaker of a circuit breaking API, as the probed
/// service's results: the same breaker that the API's checks and invoke handlers use.
pub struct CircuitBreakerFaultDetectReporter {
    api: DefaultCircuitBreakerAPI,
}

impl CircuitBreakerFaultDetectReporter {
    pub closed spec fn breaker_view(&self) -> CompositeView {
        self.api.breaker_view()
    }

    pub fn new(api: DefaultCircuitBreakerAPI) -> (r: Self)
        ensures
            r.breaker_view() == api.breaker_view(),
    {
        CircuitBreakerFaultDetectReporter { api }
    }

    /// The API whose breaker the results go to, for its own checks and reports.
    pub fn api_mut(&mut self) -> (r: &mut DefaultCircuitBreakerAPI)
        ensures
            r.breaker_view() == old(self).breaker_view(),
            final(self).breaker_view() == final(r).breaker_view(),
    {
        &mut self.api
    }

    /// The API, with the results reported so far in its breaker.
    pub fn into_api(self) -> (r: DefaultCircuitBreakerAPI)
        ensures
            r.breaker_view() == self.breaker_view(),
    {
        self.api
    }
}

impl FaultDetectReporter for CircuitBreakerFaultDetectReporter {
    open spec fn spec_reported(&self, after: Self, plan: FaultDetectPlan, result: FaultDetectResult, now: u64) -> bool {
        after.breaker_view() == spec_composite_report(
            self.breaker_view(),
            spec_resource_key(spec_probe_resource(plan)),
            spec_probe_status(result),
            now,
        )
    }

    fn report(&mut self, plan: &FaultDetectPlan, result: &FaultDetectResult, now: u64)
        ensures
            final(self).breaker_view() == spec_composite_report(
                old(self).breaker_view(),
                spec_resource_key(spec_probe_resource(*plan)),
                spec_probe_status(*result),
                now,
            ),
    {
        let stat = fault_detect_result_to_resource_stat(plan, result);
        self.api.report_stat(&stat, now);
    }
}

pub open spec fn spec_protocol(p: FaultDetectRuleProtocol) -> Option<FaultDetectProtocol> {
    match p {
        FaultDetectRuleProtocol::Http => Some(FaultDetectProtocol::Http),
        FaultDetectRuleProtocol::Tcp => Some(FaultDetectProtocol::Tcp),
        FaultDetectRuleProtocol::Udp => Some(FaultDetectProtocol::Udp),
        FaultDetectRuleProtocol::Unknown => None,
    }
}

pub fn protocol_from_spec(protocol: FaultDetectRuleProtocol) -> (r: Option<FaultDetectProtocol>)
    ensures
        r == spec_protocol(protocol),
{
    match protocol {
        FaultDetectRuleProtocol::Http => Some(FaultDetectProtocol::Http),
        FaultDetectRuleProtocol::Tcp => Some(FaultDetectProtocol::Tcp),
        FaultDetectRuleProtocol::Udp => Some(FaultDetectProtocol::Udp),
        FaultDetectRuleProtocol::Unknown => None,
    }
}

pub open spec fn spec_http_config(c: HttpProtocolConfig) -> HttpConfigView {
    HttpConfigView {
        method: c.method@,
        url: c.url@,
        headers: c.headers@.map_values(|h: HttpHeader| (h.key@, h.value@)),
        body: c.body@,
    }
}

pub open spec fn spec_payload(c: PayloadProtocolConfig) -> PayloadView {
    PayloadView { send: c.send@, receive: string_views(c.receive@) }
}

/// The plan of one probe of a rule: none for a disabled probe or an unknown protocol.
pub open spec fn spec_sub_plan(rule: FaultDetectRule, target: DestinationService, sub: FaultDetectSubRule) -> Option<PlanView> {
    if sub.disable {
        None
    } else {
        match spec_protocol(sub.protocol) {
            None => None,
            Some(p) => Some(PlanView {
                rule_id: rule.id@,
                namespace: target.namespace@,
                service: target.service@,
                interval_secs: sub.interval,
                timeout_secs: sub.timeout,
                port: sub.port,
                protocol: p,
                http_config: match sub.http_config {
                    Some(c) => Some(spec_http_config(c)),
                    None => None,
                },
                tcp_config: match sub.tcp_config {
                    Some(c) => Some(spec_payload(c)),
                    None => None,
                },
                udp_config: match sub.udp_config {
                    Some(c) => Some(spec_payload(c)),
                    None => None,
                },
            }),
        }
    }
}

pub open spec fn spec_sub_plans(rule: FaultDetectRule, target: DestinationService, subs: Seq<FaultDetectSubRule>) -> Seq<PlanView>
    decreases subs.len(),
{
    if subs.len() == 0 {
        Seq::empty()
    } else {
        let prev = spec_sub_plans(rule, target, subs.drop_last());
        match spec_sub_plan(rule, target, subs.last()) {
            Some(p) => prev.push(p),
            None => prev,
        }
    }
}

/// The plans of one rule: one per enabled probe of known protocol, none without a target.
pub open spec fn spec_rule_plans(rule: FaultDetectRule) -> Seq<PlanView> {
    match rule.target_service {
        None => Seq::empty(),
        Some(t) => spec_sub_plans(rule, t, rule.rules@),
    }
}

pub open spec fn rule_refs(rules: Seq<FaultDetectRule>) -> Seq<IndexRef> {
    Seq::new(rules.len(), |i: int| IndexRef { index: i as usize, priority: rules[i].priority })
}

pub open spec fn plans_of(rules: Seq<FaultDetectRule>, refs: Seq<IndexRef>) -> Seq<PlanView>
    decreases refs.len(),
{
    if refs.len() == 0 {
        Seq::empty()
    } else {
        plans_of(rules, refs.drop_last()) + spec_rule_plans(rules[refs.last().index as int])
    }
}

/// The plans of all rules, the rules taken by priority (ties in order).
pub open spec fn spec_build_plans(rules: Seq<FaultDetectRule>) -> Seq<PlanView> {
    plans_of(rules, sort_by_priority(rule_refs(rules)))
}

fn header_pairs(headers: &Vec<HttpHeader>) -> (r: Vec<(String, String)>)
    ensures
        header_views(r@) == headers@.map_values(|h: HttpHeader| (h.key@, h.value@)),
{
    let mut r: Vec<(String, String)> = Vec::new();
    let mut i: usize = 0;
    while i < headers.len()
        invariant
            i <= headers@.len(),
            r@.len() == i,
            forall|k: int| 0 <= k < i ==> (#[trigger] r@[k]).0@ == headers@[k].key@ && r@[k].1@ == headers@[k].value@,
        decreases headers@.len() - i,
    {
        r.push((headers[i].key.clone(), headers[i].value.clone()));
        i = i + 1;
    }
    assert(header_views(r@) =~= headers@.map_values(|h: HttpHeader| (h.key@, h.value@)));
    r
}

fn sub_plan(rule: &FaultDetectRule, target: &DestinationService, sub: &FaultDetectSubRule) -> (r: Option<FaultDetectPlan>)
    ensures
        match r {
            Some(p) => spec_sub_plan(*rule, *target, *sub) == Some(p@),
            None => spec_sub_plan(*rule, *target, *sub).is_none(),
        },
{
    if sub.disable {
        return None;
    }
    let protocol = match protocol_from_spec(sub.protocol) {
        Some(p) => p,
        None => return None,
    };
    let http_config = match &sub.http_config {
        Some(c) => Some(HttpFaultDetectConfig {
            method: c.method.clone(),
            url: c.url.clone(),
            headers: header_pairs(&c.headers),
            body: c.body.clone(),
        }),
        None => None,
    };
    let tcp_config = match &sub.tcp_config {
        Some(c) => Some(TcpFaultDetectConfig { send: c.send.clone(), receive: duplicate_strings(&c.receive) }),
        None => None,
    };
    let udp_config = match &sub.udp_config {
        Some(c) => Some(UdpFaultDetectConfig { send: c.send.clone(), receive: duplicate_strings(&c.receive) }),
        None => None,
    };
    Some(FaultDetectPlan {
        rule_id: rule.id.clone(),
        namespace: target.namespace.clone(),
        service: target.service.clone(),
        interval_secs: sub.interval,
        timeout_secs: sub.timeout,
        port: sub.port,
        protocol,
        http_config,
        tcp_config,
        udp_config,
    })
}

fn rule_plans(rule: &FaultDetectRule, out: &mut Vec<FaultDetectPlan>)
    ensures
        plan_views(final(out)@) == plan_views(old(out)@) + spec_rule_plans(*rule),
{
    let target = match &rule.target_service {
        None => {
            assert(plan_views(out@) =~= plan_views(out@) + Seq::<PlanView>::empty());
            return;
        },
        Some(t) => t,
    };
    let ghost start = plan_views(out@);
    let mut k: usize = 0;
    assert(start =~= start + spec_sub_plans(*rule, *target, rule.rules@.subrange(0, 0)));
    while k < rule.rules.len()
        invariant
            k <= rule.rules@.len(),
            rule.target_service == Some(*target),
            plan_views(out@) == start + spec_sub_plans(*rule, *target, rule.rules@.subrange(0, k as int)),
        decreases rule.rules@.len() - k,
    {
        let ghost pre = rule.rules@.subrange(0, k + 1);
        assert(pre.drop_last() =~= rule.rules@.subrange(0, k as int));
        let ghost before = plan_views(out@);
        match sub_plan(rule, target, &rule.rules[k]) {
            Some(p) => {
                out.push(p);
                assert(plan_views(out@) =~= before.push(p@));
            },
            None => {},
        }
        assert(plan_views(out@) =~= start + spec_sub_plans(*rule, *target, pre));
        k = k + 1;
    }
    assert(rule.rules@.subrange(0, rule.rules@.len() as int) =~= rule.rules@);
}

/// Probe plans from fault-detection rules: the rules by priority, ties in order; per rule
/// with a target, one plan per enabled probe of known protocol.
pub fn build_fault_detect_plans(rules: &Vec<FaultDetectRule>) -> (r: Vec<FaultDetectPlan>)
    ensures
        plan_views(r@) == spec_build_plans(rules@),
{
    let mut refs: Vec<IndexRef> = Vec::new();
    let mut i: usize = 0;
    while i < rules.len()
        invariant
            i <= rules@.len(),
            refs@ == rule_refs(rules@.subrange(0, i as int)),
        decreases rules@.len() - i,
    {
        refs.push(IndexRef { index: i, priority: rules[i].priority });
        i = i + 1;
        assert(refs@ =~= rule_refs(rules@.subrange(0, i as int)));
    }
    assert(rules@.subrange(0, rules@.len() as int) =~= rules@);
    assert forall|k: int| 0 <= k < refs@.len() implies (#[trigger] refs@[k]).index < rules@.len() by {}
    proof {
        crate::priority::lemma_sort_keeps(refs@, |x: IndexRef| x.index < rules@.len());
    }
    let sorted = stable_sort_by_priority(refs);
    let ghost all = sorted@;
    let mut out: Vec<FaultDetectPlan> = Vec::new();
    let mut j: usize = 0;
    assert(plan_views(out@) =~= plans_of(rules@, all.subrange(0, 0)));
    while j < sorted.len()
        invariant
            j <= all.len(),
            all == sorted@,
            all == sort_by_priority(rule_refs(rules@)),
            forall|k: int| 0 <= k < all.len() ==> (#[trigger] all[k]).index < rules@.len(),
            plan_views(out@) == plans_of(rules@, all.subrange(0, j as int)),
        decreases all.len() - j,
    {
        let ghost pre = all.subrange(0, j + 1);
        assert(pre.drop_last() =~= all.subrange(0, j as int));
        let idx = sorted[j].index;
        rule_plans(&rules[idx], &mut out);
        j = j + 1;
    }
    assert(all.subrange(0, all.len() as int) =~= all);
    out
}

/// The plans that probe a service.
pub open spec fn spec_matching_plans(ns: Seq<char>, name: Seq<char>, plans: Seq<PlanView>) -> Seq<PlanView>
    decreases plans.len(),
{
    if plans.len() == 0 {
        plans
    } else {
        let prev = spec_matching_plans(ns, name, plans.drop_last());
        if plans.last().namespace == ns && plans.last().service == name {
            prev.push(plans.last())
        } else {
            prev
        }
    }
}

/// One target per available instance, in order, each with the plans.
pub open spec fn spec_targets(inss: Seq<InstanceView>, plans: Seq<PlanView>) -> Seq<(Seq<char>, Seq<PlanView>)>
    decreases inss.len(),
{
    if inss.len() == 0 {
        Seq::empty()
    } else {
        let prev = spec_targets(inss.drop_last(), plans);
        if inss.last().available() {
            prev.push((inss.last().ip, plans))
        } else {
            prev
        }
    }
}

pub open spec fn target_views(s: Seq<FaultDetectTarget>) -> Seq<(Seq<char>, Seq<PlanView>)> {
    s.map_values(|t: FaultDetectTarget| (t.host@, plan_views(t.plans@)))
}

/// Targets of the plans that probe the service: one per available instance, none when no
/// plan probes the service.
pub fn build_fault_detect_targets(service_instances: &ServiceInstances, plans: Vec<FaultDetectPlan>) -> (r: Vec<FaultDetectTarget>)
    ensures
        ({
            let matching = spec_matching_plans(service_instances.service.namespace@, service_instances.service.name@, plan_views(plans@));
            target_views(r@) == if matching.len() == 0 {
                Seq::empty()
            } else {
                spec_targets(instance_views(service_instances.instances@), matching)
            }
        }),
{
    let ghost ns = service_instances.service.namespace@;
    let ghost name = service_instances.service.name@;
    let ghost pv = plan_views(plans@);
    let mut matching: Vec<FaultDetectPlan> = Vec::new();
    let mut rest = plans;
    let mut taken: usize = 0;
    let total = rest.len();
    assert(pv.subrange(0, 0) =~= Seq::<PlanView>::empty());
    while rest.len() > 0
        invariant
            pv.len() == total,
            taken + rest@.len() == pv.len(),
            plan_views(rest@) == pv.subrange(taken as int, pv.len() as int),
            plan_views(matching@) == spec_matching_plans(ns, name, pv.subrange(0, taken as int)),
            ns == service_instances.service.namespace@,
            name == service_instances.service.name@,
        decreases rest@.len(),
    {
        let ghost before = rest@;
        let plan = rest.remove(0);
        assert(rest@ =~= before.drop_first());
        assert(plan_views(before.drop_first()) =~= plan_views(before).drop_first());
        assert(plan_views(rest@) =~= pv.subrange(taken + 1, pv.len() as int));
        assert(plan@ == plan_views(before)[0]);
        let ghost pre = pv.subrange(0, taken + 1);
        assert(pre.drop_last() =~= pv.subrange(0, taken as int));
        if crate::text::str_equal(plan.namespace.as_str(), service_instances.service.namespace.as_str())
            && crate::text::str_equal(plan.service.as_str(), service_instances.service.name.as_str()) {
            let ghost mb = plan_views(matching@);
            matching.push(plan);
            assert(plan_views(matching@) =~= mb.push(pre.last()));
        }
        taken = taken + 1;
    }
    assert(pv.subrange(0, pv.len() as int) =~= pv);
    let mut targets: Vec<FaultDetectTarget> = Vec::new();
    if matching.len() == 0 {
        assert(target_views(targets@) =~= Seq::<(Seq<char>, Seq<PlanView>)>::empty());
        return targets;
    }
    let ghost inss = instance_views(service_instances.instances@);
    let ghost mv = plan_views(matching@);
    let mut i: usize = 0;
    assert(target_views(targets@) =~= spec_targets(inss.subrange(0, 0), mv));
    while i < service_instances.instances.len()
        invariant
            i <= inss.len(),
            inss == instance_views(service_instances.instances@),
            mv == plan_views(matching@),
            target_views(targets@) == spec_targets(inss.subrange(0, i as int), mv),
        decreases inss.len() - i,
    {
        let ins = &service_instances.instances[i];
        let ghost pre = inss.subrange(0, i + 1);
        assert(pre.drop_last() =~= inss.subrange(0, i as int));
        assert(pre.last() == ins@);
        if ins.is_available() {
            let ghost tb = target_views(targets@);
            targets.push(FaultDetectTarget { host: ins.ip.clone(), plans: duplicate_plans(&matching) });
            assert(target_views(targets@) =~= tb.push((ins@.ip, mv)));
        }
        i = i + 1;
    }
    assert(inss.subrange(0, inss.len() as int) =~= inss);
    targets
}

pub fn default_http_fault_detect_config() -> (r: HttpFaultDetectConfig)
    ensures
        r@.method == "GET"@,
        r@.url == "/"@,
        r@.headers.len() == 0,
        r@.body.len() == 0,
{
    let r = HttpFaultDetectConfig {
        method: String::from_str("GET"),
        url: String::from_str("/"),
        headers: Vec::new(),
        body: String::new(),
    };
    assert(r@.headers =~= Seq::<(Seq<char>, Seq<char>)>::empty());
    r
}

pub fn default_tcp_fault_detect_config() -> (r: TcpFaultDetectConfig)
    ensures
        r@.send.len() == 0,
        r@.receive.len() == 0,
{
    let r = TcpFaultDetectConfig { send: String::new(), receive: Vec::new() };
    assert(r@.receive =~= Seq::<Seq<char>>::empty());
    r
}

pub fn default_udp_fault_detect_config() -> (r: UdpFaultDetectConfig)
    ensures
        r@.send.len() == 0,
        r@.receive.len() == 0,
{
    let r = UdpFaultDetectConfig { send: String::new(), receive: Vec::new() };
    assert(r@.receive =~= Seq::<Seq<char>>::empty());
    r
}

/// Whether a header named `name` is set, ignoring ASCII case.
pub open spec fn spec_has_header(headers: Seq<(Seq<char>, Seq<char>)>, name: Seq<char>) -> bool {
    exists|i: int| 0 <= i < headers.len() && lower_seq(#[trigger] headers[i].0) == lower_seq(name)
}

pub fn has_header(headers: &Vec<(String, String)>, name: &str) -> (r: bool)
    ensures
        r == spec_has_header(header_views(headers@), name@),
{
    let lname = lower_chars(&chars_of(name));
    let mut i: usize = 0;
    while i < headers.len()
        invariant
            i <= headers@.len(),
            lname@ == lower_seq(name@),
            forall|k: int| 0 <= k < i ==> lower_seq(#[trigger] header_views(headers@)[k].0) != lower_seq(name@),
        decreases headers@.len() - i,
    {
        let lkey = lower_chars(&chars_of(headers[i].0.as_str()));
        assert(header_views(headers@)[i as int].0 == headers@[i as int].0@);
        if crate::text::chars_equal(&lkey, &lname) {
            return true;
        }
        i = i + 1;
    }
    false
}

/// The request target of a probe URL: the path (and query) of an `http://` or `https://`
/// URL, `/` when it has none; a bare path as it is, with a leading `/` added if missing.
pub open spec fn spec_request_target(url: Seq<char>) -> Seq<char> {
    let t = trim_seq(url);
    if t.len() == 0 {
        "/"@
    } else if starts_with(t, "http://"@) || starts_with(t, "https://"@) {
        let rest = if starts_with(t, "http://"@) { t.skip(7) } else { t.skip(8) };
        let idx = match (find_char(rest, '/'), find_char(rest, '?')) {
            (Some(a), Some(b)) => if a <= b { a } else { b },
            (Some(a), None) => a,
            (None, Some(b)) => b,
            (None, None) => rest.len() as int,
        };
        if idx == rest.len() {
            "/"@
        } else if rest[idx] == '?' {
            seq!['/'] + rest.skip(idx)
        } else {
            rest.skip(idx)
        }
    } else if starts_with(t, "/"@) {
        t
    } else {
        seq!['/'] + t
    }
}

fn request_target_chars(url: &str) -> (r: Vec<char>)
    ensures
        r@ == spec_request_target(url@),
{
    let t = trim_chars(&chars_of(url));
    if t.len() == 0 {
        proof { reveal_strlit("/"); }
        return chars_of("/");
    }
    let http = chars_of("http://");
    let https = chars_of("https://");
    proof {
        reveal_strlit("http://");
        reveal_strlit("https://");
        reveal_strlit("/");
    }
    let is_http = starts_with_chars(&t, &http);
    if is_http || starts_with_chars(&t, &https) {
        let skip: usize = if is_http { 7 } else { 8 };
        let rest = slice_chars(&t, skip, t.len());
        assert(rest@ == if starts_with(t@, "http://"@) { t@.skip(7) } else { t@.skip(8) });
        proof {
            crate::text::lemma_find_char_range(rest@, '/');
            crate::text::lemma_find_char_range(rest@, '?');
        }
        let idx: usize = match (find_char_index(&rest, '/'), find_char_index(&rest, '?')) {
            (Some(a), Some(b)) => if a <= b { a } else { b },
            (Some(a), None) => a,
            (None, Some(b)) => b,
            (None, None) => rest.len(),
        };
        if idx == rest.len() {
            chars_of("/")
        } else if rest[idx] == '?' {
            let mut out: Vec<char> = Vec::new();
            out.push('/');
            let tail = slice_chars(&rest, idx, rest.len());
            append_chars(&mut out, &tail);
            assert(out@ =~= seq!['/'] + rest@.skip(idx as int));
            out
        } else {
            let r = slice_chars(&rest, idx, rest.len());
            assert(r@ =~= rest@.skip(idx as int));
            r
        }
    } else if starts_with_chars(&t, &chars_of("/")) {
        t
    } else {
        let mut out: Vec<char> = Vec::new();
        out.push('/');
        append_chars(&mut out, &t);
        out
    }
}

pub fn http_request_target(url: &str) -> (r: String)
    ensures
        r@ == spec_request_target(url@),
{
    string_from_chars(request_target_chars(url).as_slice())
}

/// One header line, `key: value` and a line break, for a header whose trimmed key is not empty.
pub open spec fn header_lines(headers: Seq<(Seq<char>, Seq<char>)>) -> Seq<char>
    decreases headers.len(),
{
    if headers.len() == 0 {
        Seq::empty()
    } else {
        let h = headers.last();
        header_lines(headers.drop_last()) + if trim_seq(h.0).len() == 0 {
            Seq::empty()
        } else {
            trim_seq(h.0) + ": "@ + h.1 + "\r\n"@
        }
    }
}

/// The HTTP/1.1 probe request: request line; `Host`, `Connection: close` and, for a body,
/// `Content-Length` unless the configured headers set them; the configured headers; a blank
/// line; the body.
pub open spec fn spec_http_request(method: Seq<char>, target: Seq<char>, host: Seq<char>, port: u32, config: HttpConfigView) -> Seq<char> {
    method + " "@ + target + " HTTP/1.1\r\n"@
        + (if !spec_has_header(config.headers, "host"@) { "Host: "@ + host + ":"@ + spec_decimal(port as nat) + "\r\n"@ } else { Seq::empty() })
        + (if !spec_has_header(config.headers, "connection"@) { "Connection: close\r\n"@ } else { Seq::empty() })
        + (if config.body.len() > 0 && !spec_has_header(config.headers, "content-length"@) {
            "Content-Length: "@ + spec_decimal(crate::text::spec_utf8_len(config.body)) + "\r\n"@
        } else {
            Seq::empty()
        })
        + header_lines(config.headers) + "\r\n"@ + config.body
}

fn push_str(out: &mut Vec<char>, s: &str)
    ensures
        final(out)@ == old(out)@ + s@,
{
    append_chars(out, &chars_of(s));
}

#[verifier::spinoff_prover]
#[verifier::rlimit(40)]
pub fn build_http_fault_detect_request(method: &str, target: &str, host: &str, port: u32, config: &HttpFaultDetectConfig) -> (r: String)
    ensures
        r@ == spec_http_request(method@, target@, host@, port, config@),
{
    let mut out: Vec<char> = Vec::new();
    push_str(&mut out, method);
    push_str(&mut out, " ");
    push_str(&mut out, target);
    push_str(&mut out, " HTTP/1.1\r\n");
    let ghost line = out@;
    let has_host = has_header(&config.headers, "host");
    if !has_host {
        push_str(&mut out, "Host: ");
        push_str(&mut out, host);
        push_str(&mut out, ":");
        append_chars(&mut out, &u64_to_decimal(port as u64));
        push_str(&mut out, "\r\n");
    }
    let ghost with_host = out@;
    if !has_header(&config.headers, "connection") {
        push_str(&mut out, "Connection: close\r\n");
    }
    let ghost with_conn = out@;
    if config.body.as_str().unicode_len() > 0 && !has_header(&config.headers, "content-length") {
        push_str(&mut out, "Content-Length: ");
        let n = crate::text::utf8_len(config.body.as_str());
        append_chars(&mut out, &u64_to_decimal(n as u64));
        push_str(&mut out, "\r\n");
    }
    let ghost with_len = out@;
    let ghost hv = header_views(config.headers@);
    let mut i: usize = 0;
    assert(with_len =~= with_len + header_lines(hv.subrange(0, 0)));
    while i < config.headers.len()
        invariant
            i <= hv.len(),
            hv == header_views(config.headers@),
            out@ == with_len + header_lines(hv.subrange(0, i as int)),
        decreases hv.len() - i,
    {
        let ghost pre = hv.subrange(0, i + 1);
        assert(pre.drop_last() =~= hv.subrange(0, i as int));
        let key = trim_chars(&chars_of(config.headers[i].0.as_str()));
        if key.len() > 0 {
            append_chars(&mut out, &key);
            push_str(&mut out, ": ");
            push_str(&mut out, config.headers[i].1.as_str());
            push_str(&mut out, "\r\n");
        }
        assert(out@ =~= with_len + header_lines(pre));
        i = i + 1;
    }
    assert(hv.subrange(0, hv.len() as int) =~= hv);
    push_str(&mut out, "\r\n");
    push_str(&mut out, config.body.as_str());
    assert(out@ =~= spec_http_request(method@, target@, host@, port, config@));
    string_from_chars(out.as_slice())
}

/// The method a probe uses: the configured one, trimmed and upper-cased; `GET` if blank.
pub open spec fn spec_probe_method(config: HttpConfigView) -> Seq<char> {
    if trim_seq(config.method).len() == 0 {
        "GET"@
    } else {
        crate::text::upper_seq(trim_seq(config.method))
    }
}

/// The request an HTTP probe of a plan sends to a host.
pub open spec fn spec_probe_request(host: Seq<char>, plan: PlanView) -> Seq<char> {
    let config = match plan.http_config {
        Some(c) => c,
        None => HttpConfigView { method: "GET"@, url: "/"@, headers: Seq::empty(), body: Seq::empty() },
    };
    spec_http_request(spec_probe_method(config), spec_request_target(config.url), host, plan.port, config)
}

/// Where a probe of a plan connects: `host:port`.
pub open spec fn spec_probe_address(host: Seq<char>, plan: PlanView) -> Seq<char> {
    host + ":"@ + spec_decimal(plan.port as nat)
}

/// The request target a probe reports: the configured URL's, `/` without configuration.
pub open spec fn spec_probe_target(plan: PlanView) -> Seq<char> {
    match plan.http_config {
        Some(c) => spec_request_target(c.url),
        None => "/"@,
    }
}

/// How a probe's exchange with the instance went.
pub enum ProbeOutcome {
    /// The probe got an answer: for HTTP, its status code.
    Answered(u16),
    /// The exchange failed, for the reason given.
    Failed(String),
    /// No answer came in time.
    TimedOut,
}

fn address_chars(host: &str, port: u32) -> (r: Vec<char>)
    ensures
        r@ == host@ + ":"@ + spec_decimal(port as nat),
{
    let mut out = chars_of(host);
    push_str(&mut out, ":");
    append_chars(&mut out, &u64_to_decimal(port as u64));
    out
}

/// The result of an HTTP probe: success for a status from 200 to 399.
pub open spec fn spec_http_result_message(host: Seq<char>, plan: PlanView, outcome: ProbeOutcome) -> Option<Seq<char>> {
    let at = spec_probe_address(host, plan) + spec_probe_target(plan);
    match outcome {
        ProbeOutcome::Answered(code) => if 200 <= code && code < 400 {
            None
        } else {
            Some("http"@ + " fault detect request "@ + at + " returned status "@ + spec_decimal(code as nat))
        },
        ProbeOutcome::Failed(err) => Some("http"@ + " fault detect request "@ + at + " failed: "@ + err@),
        ProbeOutcome::TimedOut => Some("http"@ + " fault detect request "@ + at + " timeout"@),
    }
}

/// The result of a TCP or UDP probe: success for any answer.
pub open spec fn spec_payload_result_message(host: Seq<char>, plan: PlanView, outcome: ProbeOutcome) -> Option<Seq<char>> {
    let name = if plan.protocol == FaultDetectProtocol::Udp { "udp"@ } else { "tcp"@ };
    let at = spec_probe_address(host, plan);
    match outcome {
        ProbeOutcome::Answered(_) => None,
        ProbeOutcome::Failed(err) => Some(name + " fault detect request "@ + at + " failed: "@ + err@),
        ProbeOutcome::TimedOut => Some(name + " fault detect request "@ + at + " timeout"@),
    }
}

/// The result message of a probe of a plan: `None` for success.
pub open spec fn spec_probe_message(host: Seq<char>, plan: PlanView, outcome: ProbeOutcome) -> Option<Seq<char>> {
    if plan.protocol == FaultDetectProtocol::Http {
        spec_http_result_message(host, plan, outcome)
    } else {
        spec_payload_result_message(host, plan, outcome)
    }
}

/// When a probe succeeds: an HTTP probe exactly when answered with a status from 200 to
/// 399, a TCP or UDP probe whenever answered; a failed or timed-out exchange never.
pub proof fn law_probe_success_by_outcome(host: Seq<char>, plan: PlanView, outcome: ProbeOutcome)
    ensures
        plan.protocol == FaultDetectProtocol::Http ==> (outcome matches ProbeOutcome::Answered(code)
            ==> (spec_probe_message(host, plan, outcome).is_none() <==> 200 <= code && code <= 399)),
        plan.protocol != FaultDetectProtocol::Http ==> (outcome is Answered
            ==> spec_probe_message(host, plan, outcome).is_none()),
        !(outcome is Answered) ==> spec_probe_message(host, plan, outcome).is_some(),
{
}

/// Probes with the client's own HTTP, TCP and UDP exchanges: it writes the requests and
/// reads the answers, and the caller carries them.
pub struct DefaultFaultDetectProbeExecutor;

impl DefaultFaultDetectProbeExecutor {
    /// The request an HTTP probe sends.
    pub fn http_request(&self, host: &str, plan: &FaultDetectPlan) -> (r: String)
        ensures
            r@ == spec_probe_request(host@, plan@),
    {
        let config = match &plan.http_config {
            Some(c) => c.duplicate(),
            None => default_http_fault_detect_config(),
        };
        let trimmed = trim_chars(&chars_of(config.method.as_str()));
        let method = if trimmed.len() == 0 {
            String::from_str("GET")
        } else {
            string_from_chars(crate::text::upper_chars(&trimmed).as_slice())
        };
        let target = http_request_target(config.url.as_str());
        proof {
            reveal_strlit("GET");
            reveal_strlit("/");
        }
        build_http_fault_detect_request(method.as_str(), target.as_str(), host, plan.port, &config)
    }

    /// The result of a probe of a plan against a host, from how its exchange went.
    pub fn probe_result(&self, host: &str, plan: &FaultDetectPlan, outcome: ProbeOutcome) -> (r: FaultDetectResult)
        ensures
            r.rule_id@ == plan.rule_id@,
            r.success == spec_probe_message(host@, plan@, outcome).is_none(),
            spec_probe_message(host@, plan@, outcome) matches Some(m) ==> r.message@ == m,
            r.success ==> r.message@.len() == 0,
    {
        let ghost g_outcome = outcome;
        let mut msg = match plan.protocol {
            FaultDetectProtocol::Http => chars_of("http"),
            FaultDetectProtocol::Tcp => chars_of("tcp"),
            FaultDetectProtocol::Udp => chars_of("udp"),
        };
        push_str(&mut msg, " fault detect request ");
        append_chars(&mut msg, &address_chars(host, plan.port));
        if plan.protocol == FaultDetectProtocol::Http {
            let target = match &plan.http_config {
                Some(c) => request_target_chars(c.url.as_str()),
                None => chars_of("/"),
            };
            append_chars(&mut msg, &target);
        }
        proof {
            reveal_strlit("http");
            reveal_strlit("tcp");
            reveal_strlit("udp");
            reveal_strlit("/");
        }
        let success = match outcome {
            ProbeOutcome::Answered(code) => {
                if plan.protocol == FaultDetectProtocol::Http && !(200 <= code && code < 400) {
                    push_str(&mut msg, " returned status ");
                    append_chars(&mut msg, &u64_to_decimal(code as u64));
                    false
                } else {
                    true
                }
            },
            ProbeOutcome::Failed(err) => {
                push_str(&mut msg, " failed: ");
                push_str(&mut msg, err.as_str());
                false
            },
            ProbeOutcome::TimedOut => {
                push_str(&mut msg, " timeout");
                false
            },
        };
        let message = if success {
            String::new()
        } else {
            string_from_chars(msg.as_slice())
        };
        proof {
            if !success {
                assert(message@ =~= spec_probe_message(host@, plan@, g_outcome).unwrap());
            }
        }
        FaultDetectResult { rule_id: plan.rule_id.clone(), success, message }
    }
}

/// The key of the service a fault-detection event is about: `namespace#service`, the
/// service from the event's filter (empty when it has none).
pub fn fault_detect_service_key(namespace: &str, filter: &Vec<MetadataEntry>) -> (r: String)
    ensures
        r@ == namespace@ + "#"@ + match metadata_lookup(filter@, "service"@) {
            Some(s) => s,
            None => Seq::empty(),
        },
{
    let service = match metadata_get(filter, "service") {
        Some(s) => s,
        None => String::new(),
    };
    let mut r = String::from_str(namespace);
    r.append("#");
    r.append(service.as_str());
    r
}

/// The status code of an HTTP answer: the second word of its first line.
pub open spec fn spec_status_code(text: Seq<char>) -> Result<u16, Seq<char>> {
    if text.len() == 0 {
        Err("empty http response"@)
    } else {
        let line = crate::text::first_line(text);
        match crate::text::second_word(line) {
            None => Err("invalid http status line: "@ + line),
            Some(w) => match spec_parse_u16(w) {
                Some(c) => Ok(c),
                None => Err("invalid http status code: "@ + w),
            },
        }
    }
}

/// Reads the status code of an HTTP answer.
pub fn parse_http_status_code(response: &[u8]) -> (r: Result<u16, String>)
    ensures
        match spec_status_code(crate::text::spec_utf8_lossy(response@)) {
            Ok(c) => r == Ok::<u16, String>(c),
            Err(m) => r matches Err(e) && e@ == m,
        },
{
    let text = chars_of(crate::text::utf8_lossy(response).as_str());
    if text.len() == 0 {
        return Err(String::from_str("empty http response"));
    }
    let line = crate::text::first_line_chars(&text);
    match crate::text::second_word_chars(&line) {
        None => {
            let mut m = chars_of("invalid http status line: ");
            append_chars(&mut m, &line);
            Err(string_from_chars(m.as_slice()))
        },
        Some(w) => match parse_u16(&w) {
            Some(c) => Ok(c),
            None => {
                let mut m = chars_of("invalid http status code: ");
                append_chars(&mut m, &w);
                Err(string_from_chars(m.as_slice()))
            },
        },
    }
}

/// What Rust's `Debug` writes for a text: quoted, with escapes.
pub uninterp spec fn spec_debug_text(text: Seq<char>) -> Seq<char>;

/// A text as Rust's `Debug` writes it (`format!("{:?}", text)`, std's escaping of `str`).
/// The contract names the result; the escaping is std's.
#[verifier::external_body]
fn debug_text(text: &str) -> (r: String)
    ensures
        r@ == spec_debug_text(text@),
{
    format!("{:?}", text)
}

/// Texts in `Debug` notation, separated by `, `.
pub open spec fn debug_items(items: Seq<String>) -> Seq<char>
    decreases items.len(),
{
    if items.len() == 0 {
        Seq::empty()
    } else if items.len() == 1 {
        spec_debug_text(items[0]@)
    } else {
        debug_items(items.drop_last()) + ", "@ + spec_debug_text(items.last()@)
    }
}

/// The message for an answer that matched none of the expected values, with the answer
/// and the list of values in `Debug` notation.
pub open spec fn spec_mismatch_message(protocol: Seq<char>, text: Seq<char>, expected: Seq<String>) -> Seq<char> {
    protocol + " response "@ + spec_debug_text(text) + " did not match expected values ["@ + debug_items(expected) + "]"@
}

fn mismatch_message(protocol: &str, response: &str, expected_values: &Vec<String>) -> (r: String)
    ensures
        r@ == spec_mismatch_message(protocol@, response@, expected_values@),
{
    let mut m = protocol.to_string();
    m.append(" response ");
    m.append(debug_text(response).as_str());
    m.append(" did not match expected values [");
    let mut i: usize = 0;
    assert(expected_values@.subrange(0, 0) =~= Seq::<String>::empty());
    let ghost head = m@;
    while i < expected_values.len()
        invariant
            i <= expected_values@.len(),
            m@ == head + debug_items(expected_values@.subrange(0, i as int)),
        decreases expected_values@.len() - i,
    {
        let ghost pre = expected_values@.subrange(0, i + 1);
        assert(pre.drop_last() =~= expected_values@.subrange(0, i as int));
        if i > 0 {
            m.append(", ");
        }
        m.append(debug_text(expected_values[i].as_str()).as_str());
        i = i + 1;
    }
    assert(expected_values@.subrange(0, expected_values@.len() as int) =~= expected_values@);
    m.append("]");
    m
}

/// Whether an answer holds one of the expected values.
pub open spec fn spec_expected_found(text: Seq<char>, expected: Seq<String>) -> bool {
    exists|i: int| 0 <= i < expected.len() && seq_contains(text, (#[trigger] expected[i])@)
}

/// Accepts an answer that holds one of the expected values.
pub fn ensure_expected_response(protocol: &str, response: &[u8], expected_values: &Vec<String>) -> (r: Result<(), String>)
    ensures
        r is Ok <==> spec_expected_found(crate::text::spec_utf8_lossy(response@), expected_values@),
        r matches Err(m) ==> m@ == spec_mismatch_message(protocol@, crate::text::spec_utf8_lossy(response@), expected_values@),
{
    let text = crate::text::utf8_lossy(response);
    let chars = chars_of(text.as_str());
    let mut i: usize = 0;
    while i < expected_values.len()
        invariant
            i <= expected_values@.len(),
            chars@ == crate::text::spec_utf8_lossy(response@),
            forall|k: int| 0 <= k < i ==> !seq_contains(chars@, (#[trigger] expected_values@[k])@),
        decreases expected_values@.len() - i,
    {
        if contains_chars(&chars, &chars_of(expected_values[i].as_str())) {
            return Ok(());
        }
        i = i + 1;
    }
    Err(mismatch_message(protocol, text.as_str(), expected_values))
}


/// The targets of one service under plans: one per available instance with the plans that
/// probe it; none when no plan probes it.
pub open spec fn service_targets(si: ServiceInstances, plans: Seq<PlanView>) -> Seq<(Seq<char>, Seq<PlanView>)> {
    let matching = spec_matching_plans(si.service.namespace@, si.service.name@, plans);
    if matching.len() == 0 {
        Seq::empty()
    } else {
        spec_targets(instance_views(si.instances@), matching)
    }
}

/// The plans of every service, service after service.
pub open spec fn all_plans(entries: Seq<(Seq<char>, Seq<PlanView>)>) -> Seq<PlanView>
    decreases entries.len(),
{
    if entries.len() == 0 { Seq::empty() } else { all_plans(entries.drop_last()) + entries.last().1 }
}

/// The targets of every service under all the plans, service after service.
pub open spec fn all_targets(entries: Seq<(Seq<char>, ServiceInstances)>, plans: Seq<PlanView>) -> Seq<(Seq<char>, Seq<PlanView>)>
    decreases entries.len(),
{
    if entries.len() == 0 {
        Seq::empty()
    } else {
        all_targets(entries.drop_last(), plans) + service_targets(entries.last().1, plans)
    }
}

/// What fault detection knows of the services: their plans and their instances, by
/// `namespace#service`.
pub struct FaultDetectListenerState {
    pub plans: Vec<(String, Vec<FaultDetectPlan>)>,
    pub instances: Vec<(String, ServiceInstances)>,
}

impl FaultDetectListenerState {
    pub fn new() -> (r: FaultDetectListenerState)
        ensures
            r.plans@.len() == 0,
            r.instances@.len() == 0,
    {
        FaultDetectListenerState { plans: Vec::new(), instances: Vec::new() }
    }

    /// The plans of each service, as values.
    pub open spec fn plans_view(&self) -> Seq<(Seq<char>, Seq<PlanView>)> {
        map_entries(keyed_view(self.plans@), |v: Vec<FaultDetectPlan>| plan_views(v@))
    }

    /// The targets to probe: every service's available instances, with the plans (of all
    /// services) that probe that service.
    pub open spec fn spec_targets_view(&self) -> Seq<(Seq<char>, Seq<PlanView>)> {
        all_targets(keyed_view(self.instances@), all_plans(self.plans_view()))
    }

    /// The targets to probe now.
    pub fn targets(&self) -> (r: Vec<FaultDetectTarget>)
        ensures
            target_views(r@) == self.spec_targets_view(),
    {
        let ghost pv = self.plans_view();
        let mut plans: Vec<FaultDetectPlan> = Vec::new();
        let mut i: usize = 0;
        while i < self.plans.len()
            invariant
                i <= self.plans@.len(),
                pv == self.plans_view(),
                plan_views(plans@) == all_plans(pv.subrange(0, i as int)),
            decreases self.plans@.len() - i,
        {
            let ghost pre = pv.subrange(0, i + 1);
            assert(pre.drop_last() =~= pv.subrange(0, i as int));
            assert(pre.last().1 == plan_views(self.plans@[i as int].1@));
            let ghost before = plans@;
            let copy = duplicate_plans(&self.plans[i].1);
            let mut k: usize = 0;
            while k < copy.len()
                invariant
                    k <= copy@.len(),
                    plan_views(plans@) == plan_views(before) + plan_views(copy@).subrange(0, k as int),
                decreases copy@.len() - k,
            {
                let p = copy[k].duplicate();
                assert(p@ == plan_views(copy@)[k as int]);
                let ghost prev = plans@;
                plans.push(p);
                assert(plan_views(plans@) =~= plan_views(prev).push(p@));
                assert(plan_views(copy@).subrange(0, k + 1) =~= plan_views(copy@).subrange(0, k as int).push(plan_views(copy@)[k as int]));
                k = k + 1;
                assert(plan_views(plans@) =~= plan_views(before) + plan_views(copy@).subrange(0, k as int));
            }
            assert(plan_views(copy@).subrange(0, copy@.len() as int) =~= plan_views(copy@));
            assert(plan_views(plans@) =~= plan_views(before) + pre.last().1);
            i = i + 1;
        }
        assert(pv.subrange(0, pv.len() as int) =~= pv);
        let ghost ev = keyed_view(self.instances@);
        let mut out: Vec<FaultDetectTarget> = Vec::new();
        let mut j: usize = 0;
        while j < self.instances.len()
            invariant
                j <= self.instances@.len(),
                ev == keyed_view(self.instances@),
                plan_views(plans@) == all_plans(pv),
                pv == self.plans_view(),
                target_views(out@) == all_targets(ev.subrange(0, j as int), plan_views(plans@)),
            decreases self.instances@.len() - j,
        {
            let ghost pre = ev.subrange(0, j + 1);
            assert(pre.drop_last() =~= ev.subrange(0, j as int));
            assert(pre.last().1 == self.instances@[j as int].1);
            let ghost before = out@;
            let found = build_fault_detect_targets(&self.instances[j].1, duplicate_plans(&plans));
            let mut k: usize = 0;
            while k < found.len()
                invariant
                    k <= found@.len(),
                    target_views(out@) == target_views(before) + target_views(found@).subrange(0, k as int),
                decreases found@.len() - k,
            {
                let t = &found[k];
                let copy_t = FaultDetectTarget { host: t.host.clone(), plans: duplicate_plans(&t.plans) };
                let ghost tv = (copy_t.host@, plan_views(copy_t.plans@));
                assert(tv == target_views(found@)[k as int]);
                let ghost prev = out@;
                out.push(copy_t);
                assert(target_views(out@) =~= target_views(prev).push(tv));
                assert(target_views(found@).subrange(0, k + 1) =~= target_views(found@).subrange(0, k as int).push(target_views(found@)[k as int]));
                k = k + 1;
                assert(target_views(out@) =~= target_views(before) + target_views(found@).subrange(0, k as int));
            }
            assert(target_views(found@).subrange(0, found@.len() as int) =~= target_views(found@));
            j = j + 1;
        }
        assert(ev.subrange(0, ev.len() as int) =~= ev);
        out
    }

    /// Takes in a service's fault-detection rules (or their deletion) and gives the targets
    /// to probe from now on.
    pub fn apply_rules(&mut self, deleted: bool, key: String, rules: &Vec<FaultDetectRule>) -> (r: Vec<FaultDetectTarget>)
        ensures
            final(self).plans_view() == if deleted {
                key_remove(old(self).plans_view(), key@)
            } else {
                key_store(old(self).plans_view(), key@, spec_build_plans(rules@))
            },
            keyed_view(final(self).instances@) == keyed_view(old(self).instances@),
            target_views(r@) == final(self).spec_targets_view(),
    {
        let ghost before = keyed_view(self.plans@);
        if deleted {
            proof {
                lemma_map_entries_remove(before, |v: Vec<FaultDetectPlan>| plan_views(v@), key@);
            }
            let _ = take_key(&mut self.plans, key.as_str());
        } else {
            let plans = build_fault_detect_plans(rules);
            proof {
                lemma_map_entries(before, |v: Vec<FaultDetectPlan>| plan_views(v@), key@, plans);
            }
            store_key(&mut self.plans, key, plans);
        }
        self.targets()
    }

    /// Takes in a service's instances (or their deletion) and gives the targets to probe
    /// from now on.
    pub fn apply_instances(&mut self, deleted: bool, key: String, instances: ServiceInstances) -> (r: Vec<FaultDetectTarget>)
        ensures
            keyed_view(final(self).instances@) == if deleted {
                key_remove(keyed_view(old(self).instances@), key@)
            } else {
                key_store(keyed_view(old(self).instances@), key@, instances)
            },
            final(self).plans_view() == old(self).plans_view(),
            target_views(r@) == final(self).spec_targets_view(),
    {
        if deleted {
            let _ = take_key(&mut self.instances, key.as_str());
        } else {
            store_key(&mut self.instances, key, instances);
        }
        self.targets()
    }
}

proof fn lemma_map_entries_remove<A, B>(s: Seq<(Seq<char>, A)>, f: spec_fn(A) -> B, key: Seq<char>)
    ensures
        map_entries(key_remove(s, key), f) == key_remove(map_entries(s, f), key),
{
    crate::keyed::lemma_key_index(s, key);
    match crate::keyed::key_index(s, key) {
        Some(i) => {
            lemma_map_entries_index(s, f, key);
            assert(map_entries(s.remove(i), f) =~= map_entries(s, f).remove(i));
        },
        None => {
            lemma_map_entries_index(s, f, key);
        },
    }
}

proof fn lemma_map_entries_index<A, B>(s: Seq<(Seq<char>, A)>, f: spec_fn(A) -> B, key: Seq<char>)
    ensures
        crate::keyed::key_index(map_entries(s, f), key) == crate::keyed::key_index(s, key),
{
    if s.len() > 0 {
        let v = s[0].1;
        lemma_map_entries(s, f, key, v);
    }
}

} // verus!
