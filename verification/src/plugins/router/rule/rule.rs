//! Rule-based routing: the callee's routes first, then the caller's; the first route the
//! request meets sends it to its highest-priority destination group that has instances.

use vstd::prelude::*;
use crate::model::{
    ErrorCode, Instance, InstanceView, MetadataEntry, PoleError, RouteInfo, ServiceInstances,
    entries_view, weights_sum_fits, instance_views, metadata_get, metadata_lookup, pair_lookup,
    total_weight_of,
};
use crate::model::router::{
    RouteResult, RouteState, ServiceRouterPluginConfig, exist_route, spec_exist_route,
    weight_consistent,
};
use crate::plugins::router::nearby::holds_instances;
use crate::plugins::router::rule::helper::{
    match_label_value, resolve_source_value, route_traffic_match, spec_match_label_value,
    spec_resolve_source_value, spec_route_traffic_match,
};
use crate::priority::{Prioritized, sort_by_priority, stable_sort_by_priority};
use crate::specification::{
    CustomRouteRule, DestinationGroup, LabelMatch, RouteRule, TrafficMatchRule, ValueType,
};
use crate::text::str_equal;
use vstd::string::StrSliceExecFns;

verus! {

/// The name under which the router registers.
pub open spec fn router_name() -> Seq<char> {
    "ruleBasedRouter"@
}

/// Whose routing rules are read.
#[derive(Clone, Copy, Debug, PartialEq, Eq, Structural)]
pub enum Direction {
    Callee,
    Caller,
}

/// What routing does when rules exist but none sends the request anywhere.
#[derive(Clone, Copy, Debug, PartialEq, Eq, Structural)]
pub enum RouteFailoverPolicy {
    /// Keep every instance.
    All,
    /// Keep none.
    NoFailover,
}

/// Rule-based routing with its failover policy.
pub struct RuleRouter {
    failover_policy: RouteFailoverPolicy,
}

impl RuleRouter {
    pub closed spec fn policy(&self) -> RouteFailoverPolicy {
        self.failover_policy
    }
}

/// A router from its options: option `failover` set to `none` keeps no instance on failover.
pub fn new_service_router(conf: &ServiceRouterPluginConfig) -> (r: RuleRouter)
    ensures
        r.policy() == (match conf.options {
            Some(opts) if metadata_lookup(opts@, "failover"@) == Some("none"@) => RouteFailoverPolicy::NoFailover,
            _ => RouteFailoverPolicy::All,
        }),
{
    let mut policy = RouteFailoverPolicy::All;
    if let Some(opts) = &conf.options {
        if let Some(val) = metadata_get(opts, "failover") {
            if str_equal(val.as_str(), "none") {
                policy = RouteFailoverPolicy::NoFailover;
            }
        }
    }
    RuleRouter { failover_policy: policy }
}

/// Makes rule routers from their configuration.
pub struct RuleRouterSupplier;

impl RuleRouterSupplier {
    pub fn create(&self, conf: &ServiceRouterPluginConfig) -> (r: RuleRouter)
        ensures
            r.policy() == new_service_router_policy(*conf),
    {
        new_service_router(conf)
    }
}

pub open spec fn new_service_router_policy(conf: ServiceRouterPluginConfig) -> RouteFailoverPolicy {
    match conf.options {
        Some(opts) if metadata_lookup(opts@, "failover"@) == Some("none"@) => RouteFailoverPolicy::NoFailover,
        _ => RouteFailoverPolicy::All,
    }
}

/// Whether routing by rules applies: the caller or the callee has rules.
pub fn has_route_rules(caller_has_rules: bool, callee_has_rules: bool) -> (r: bool)
    ensures
        r == (caller_has_rules || callee_has_rules),
{
    caller_has_rules || callee_has_rules
}

impl Prioritized for RouteRule {
    open spec fn spec_priority(&self) -> u32 {
        self.priority
    }

    fn priority(&self) -> (r: u32) {
        self.priority
    }
}

impl Prioritized for DestinationGroup {
    open spec fn spec_priority(&self) -> u32 {
        self.priority
    }

    fn priority(&self) -> (r: u32) {
        self.priority
    }
}

/// The enabled rules, in order.
pub open spec fn enabled_rules(rules: Seq<RouteRule>) -> Seq<RouteRule>
    decreases rules.len(),
{
    if rules.len() == 0 {
        rules
    } else if rules.last().enable {
        enabled_rules(rules.drop_last()).push(rules.last())
    } else {
        enabled_rules(rules.drop_last())
    }
}

/// The routes of the rules, one rule after the other.
pub open spec fn routes_of(rules: Seq<RouteRule>) -> Seq<CustomRouteRule>
    decreases rules.len(),
{
    if rules.len() == 0 {
        Seq::empty()
    } else {
        routes_of(rules.drop_last()) + match rules.last().routing_config {
            Some(routes) => routes@,
            None => Seq::empty(),
        }
    }
}

/// The routes of the enabled rules, the rules ordered by priority (ties kept in order).
pub open spec fn spec_decode_routes(rules: Seq<RouteRule>) -> Seq<CustomRouteRule> {
    routes_of(sort_by_priority(enabled_rules(rules)))
}

fn retain_enabled(rules: Vec<RouteRule>) -> (r: Vec<RouteRule>)
    ensures
        r@ == enabled_rules(rules@),
{
    let ghost orig = rules@;
    let mut rest = rules;
    let mut out: Vec<RouteRule> = Vec::new();
    let mut taken: usize = 0;
    let total = rest.len();
    assert(orig.subrange(0, 0) =~= Seq::<RouteRule>::empty());
    assert(orig.subrange(0, orig.len() as int) =~= orig);
    while rest.len() > 0
        invariant
            orig.len() == total,
            out@ == enabled_rules(orig.subrange(0, taken as int)),
            taken + rest@.len() == orig.len(),
            rest@ == orig.subrange(taken as int, orig.len() as int),
        decreases rest@.len(),
    {
        let x = rest.remove(0);
        assert(rest@ =~= orig.subrange(taken + 1, orig.len() as int));
        let ghost pre = orig.subrange(0, taken + 1);
        assert(pre.drop_last() =~= orig.subrange(0, taken as int));
        assert(pre.last() == x);
        if x.enable {
            out.push(x);
        }
        taken = taken + 1;
    }
    out
}

/// The routes of the enabled rules, by rule priority.
pub fn decode_custom_route_rules(rules: Vec<RouteRule>) -> (r: Vec<CustomRouteRule>)
    ensures
        r@ == spec_decode_routes(rules@),
{
    let sorted = stable_sort_by_priority(retain_enabled(rules));
    let ghost orig = sorted@;
    let mut rest = sorted;
    let mut out: Vec<CustomRouteRule> = Vec::new();
    let mut taken: usize = 0;
    let total = rest.len();
    assert(orig.subrange(0, 0) =~= Seq::<RouteRule>::empty());
    assert(orig.subrange(0, orig.len() as int) =~= orig);
    while rest.len() > 0
        invariant
            orig.len() == total,
            out@ == routes_of(orig.subrange(0, taken as int)),
            taken + rest@.len() == orig.len(),
            rest@ == orig.subrange(taken as int, orig.len() as int),
        decreases rest@.len(),
    {
        let x = rest.remove(0);
        assert(rest@ =~= orig.subrange(taken + 1, orig.len() as int));
        let ghost pre = orig.subrange(0, taken + 1);
        assert(pre.drop_last() =~= orig.subrange(0, taken as int));
        assert(pre.last() == x);
        let ghost before = out@;
        match x.routing_config {
            Some(mut routes) => {
                let ghost added = routes@;
                out.append(&mut routes);
                assert(out@ =~= before + added);
            },
            None => {
                assert(out@ =~= before + Seq::<CustomRouteRule>::empty());
            },
        }
        taken = taken + 1;
    }
    out
}

/// The destination groups that are not isolated, in order.
pub open spec fn not_isolated(dests: Seq<DestinationGroup>) -> Seq<DestinationGroup>
    decreases dests.len(),
{
    if dests.len() == 0 {
        dests
    } else if !dests.last().isolate {
        not_isolated(dests.drop_last()).push(dests.last())
    } else {
        not_isolated(dests.drop_last())
    }
}

/// The groups that take traffic, highest priority (lowest number) first.
pub open spec fn spec_available_destinations(dests: Seq<DestinationGroup>) -> Seq<DestinationGroup> {
    sort_by_priority(not_isolated(dests))
}

/// Drops isolated destination groups and orders the rest by priority, ties kept in order.
pub fn filter_available_destinations(dests: Vec<DestinationGroup>) -> (r: Vec<DestinationGroup>)
    ensures
        r@ == spec_available_destinations(dests@),
{
    let ghost orig = dests@;
    let mut rest = dests;
    let mut out: Vec<DestinationGroup> = Vec::new();
    let mut taken: usize = 0;
    let total = rest.len();
    assert(orig.subrange(0, 0) =~= Seq::<DestinationGroup>::empty());
    assert(orig.subrange(0, orig.len() as int) =~= orig);
    while rest.len() > 0
        invariant
            orig.len() == total,
            out@ == not_isolated(orig.subrange(0, taken as int)),
            taken + rest@.len() == orig.len(),
            rest@ == orig.subrange(taken as int, orig.len() as int),
        decreases rest@.len(),
    {
        let x = rest.remove(0);
        assert(rest@ =~= orig.subrange(taken + 1, orig.len() as int));
        let ghost pre = orig.subrange(0, taken + 1);
        assert(pre.drop_last() =~= orig.subrange(0, taken as int));
        assert(pre.last() == x);
        if !x.isolate {
            out.push(x);
        }
        taken = taken + 1;
    }
    stable_sort_by_priority(out)
}

/// Whether an instance's metadata meets one label condition of a group. A parameter
/// condition with an empty value compares with the captured request parameter of the same
/// name.
pub open spec fn spec_label_holds(label: LabelMatch, params: Seq<(Seq<char>, Seq<char>)>, ins: InstanceView) -> bool {
    match pair_lookup(ins.metadata, label.key@) {
        None => false,
        Some(actual) => if label.value.value_type == ValueType::Parameter && label.value.value@.len() == 0 {
            pair_lookup(params, label.key@) == Some(actual)
        } else {
            spec_match_label_value(label.value, actual)
        },
    }
}

/// Whether an available instance belongs to a destination group.
pub open spec fn spec_in_group(dest: DestinationGroup, params: Seq<(Seq<char>, Seq<char>)>, ins: InstanceView) -> bool {
    &&& ins.available()
    &&& (dest.service@ == "*"@ || dest.service@ == ins.service)
    &&& (dest.namespace@ == "*"@ || dest.namespace@ == ins.namespace)
    &&& forall|k: int| 0 <= k < dest.labels@.len() ==> spec_label_holds(#[trigger] dest.labels@[k], params, ins)
}

/// The instances of a destination group, in order.
pub open spec fn spec_group_members(dest: DestinationGroup, params: Seq<(Seq<char>, Seq<char>)>, inss: Seq<InstanceView>) -> Seq<InstanceView>
    decreases inss.len(),
{
    if inss.len() == 0 {
        inss
    } else if spec_in_group(dest, params, inss.last()) {
        spec_group_members(dest, params, inss.drop_last()).push(inss.last())
    } else {
        spec_group_members(dest, params, inss.drop_last())
    }
}

fn label_holds(label: &LabelMatch, params: &Vec<MetadataEntry>, ins: &Instance) -> (r: bool)
    ensures
        r == spec_label_holds(*label, entries_view(params@), ins@),
{
    match metadata_get(&ins.metadata, label.key.as_str()) {
        None => false,
        Some(actual) => {
            if label.value.value_type == ValueType::Parameter && label.value.value.as_str().unicode_len() == 0 {
                match metadata_get(params, label.key.as_str()) {
                    Some(v) => str_equal(v.as_str(), actual.as_str()),
                    None => false,
                }
            } else {
                match_label_value(&label.value, actual)
            }
        },
    }
}

fn in_group(dest: &DestinationGroup, params: &Vec<MetadataEntry>, ins: &Instance) -> (r: bool)
    ensures
        r == spec_in_group(*dest, entries_view(params@), ins@),
{
    if !ins.is_available() {
        return false;
    }
    if !str_equal(dest.service.as_str(), "*") && !str_equal(dest.service.as_str(), ins.service.as_str()) {
        return false;
    }
    if !str_equal(dest.namespace.as_str(), "*") && !str_equal(dest.namespace.as_str(), ins.namespace.as_str()) {
        return false;
    }
    let mut k: usize = 0;
    while k < dest.labels.len()
        invariant
            k <= dest.labels@.len(),
            forall|j: int| 0 <= j < k ==> spec_label_holds(#[trigger] dest.labels@[j], entries_view(params@), ins@),
        decreases dest.labels@.len() - k,
    {
        if !label_holds(&dest.labels[k], params, ins) {
            return false;
        }
        k = k + 1;
    }
    true
}

/// The available instances of a destination group: service and namespace match (or are
/// `*`) and every label condition holds.
pub fn match_callee_group(dest: &DestinationGroup, instances: &ServiceInstances, request_parameters: &Vec<MetadataEntry>) -> (r: Vec<Instance>)
    ensures
        instance_views(r@) == spec_group_members(*dest, entries_view(request_parameters@), instance_views(instances.instances@)),
        r@.len() <= instances.instances@.len(),
{
    let ghost inss = instance_views(instances.instances@);
    let ghost params = entries_view(request_parameters@);
    let mut out: Vec<Instance> = Vec::new();
    let mut i: usize = 0;
    while i < instances.instances.len()
        invariant
            i <= instances.instances@.len(),
            inss == instance_views(instances.instances@),
            params == entries_view(request_parameters@),
            instance_views(out@) == spec_group_members(*dest, params, inss.subrange(0, i as int)),
            out@.len() <= i,
        decreases instances.instances@.len() - i,
    {
        let ins = &instances.instances[i];
        let ghost pre = inss.subrange(0, i + 1);
        assert(pre.drop_last() =~= inss.subrange(0, i as int));
        assert(pre.last() == ins@);
        if in_group(dest, request_parameters, ins) {
            let ghost before = out@;
            out.push(ins.duplicate());
            assert(instance_views(out@) =~= instance_views(before).push(ins@));
        }
        i = i + 1;
    }
    assert(inss.subrange(0, instances.instances@.len() as int) =~= inss);
    out
}

/// The request values a route's conditions capture, under their keys.
pub open spec fn spec_request_parameters(info: RouteInfo, rule: TrafficMatchRule) -> Seq<(Seq<char>, Seq<char>)> {
    captured(info, rule.arguments@)
}

pub open spec fn captured(info: RouteInfo, args: Seq<crate::specification::SourceMatch>) -> Seq<(Seq<char>, Seq<char>)>
    decreases args.len(),
{
    if args.len() == 0 {
        Seq::empty()
    } else {
        let prev = captured(info, args.drop_last());
        match spec_resolve_source_value(info, args.last()) {
            Some(v) => prev.push((args.last().key@, v)),
            None => prev,
        }
    }
}

/// Captures the request values a route's conditions read.
pub fn traffic_match_rule_request_parameters(info: &RouteInfo, rule: &TrafficMatchRule) -> (r: Vec<MetadataEntry>)
    ensures
        entries_view(r@) == spec_request_parameters(*info, *rule),
{
    let ghost args = rule.arguments@;
    let mut out: Vec<MetadataEntry> = Vec::new();
    let mut i: usize = 0;
    while i < rule.arguments.len()
        invariant
            i <= args.len(),
            args == rule.arguments@,
            entries_view(out@) == captured(*info, args.subrange(0, i as int)),
        decreases args.len() - i,
    {
        let sm = &rule.arguments[i];
        let ghost pre = args.subrange(0, i + 1);
        assert(pre.drop_last() =~= args.subrange(0, i as int));
        assert(pre.last() == *sm);
        match resolve_source_value(info, sm) {
            Some(v) => {
                let ghost before = out@;
                out.push(MetadataEntry { key: sm.key.clone(), value: v });
                assert(entries_view(out@) =~= entries_view(before).push((sm.key@, v@)));
            },
            None => {},
        }
        i = i + 1;
    }
    assert(args.subrange(0, args.len() as int) =~= args);
    out
}

/// The instances of the first group, in order, that has any.
pub open spec fn spec_first_group(dests: Seq<DestinationGroup>, params: Seq<(Seq<char>, Seq<char>)>, inss: Seq<InstanceView>) -> Option<Seq<InstanceView>>
    decreases dests.len(),
{
    if dests.len() == 0 {
        None
    } else {
        let g = spec_group_members(dests[0], params, inss);
        if g.len() > 0 {
            Some(g)
        } else {
            spec_first_group(dests.drop_first(), params, inss)
        }
    }
}

/// The parameters a route captures from the request.
pub open spec fn route_parameters(info: RouteInfo, rule: CustomRouteRule) -> Seq<(Seq<char>, Seq<char>)> {
    match rule.arguments {
        Some(args) => spec_request_parameters(info, args),
        None => Seq::empty(),
    }
}

/// The instances routes send a request to: those of the first route the request meets that
/// has a non-empty available group; none if there is no such route.
pub open spec fn spec_route_instances(info: RouteInfo, inss: Seq<InstanceView>, rules: Seq<CustomRouteRule>) -> Seq<InstanceView>
    decreases rules.len(),
{
    if rules.len() == 0 {
        Seq::empty()
    } else {
        let rest = spec_route_instances(info, inss, rules.drop_first());
        if !spec_route_traffic_match(info, rules[0]) {
            rest
        } else {
            match spec_first_group(spec_available_destinations(rules[0].destinations@), route_parameters(info, rules[0]), inss) {
                Some(g) => g,
                None => rest,
            }
        }
    }
}

/// What rule routing leaves of the instances.
pub enum RuleOutcome {
    /// Every instance, unchanged.
    Unchanged,
    /// These instances.
    Routed(Seq<InstanceView>),
    /// No instance.
    Empty,
}

/// Rule routing: the callee's routes, then (when they send the request nowhere) the
/// caller's; with no rules at all the instances stay; with rules that send the request
/// nowhere, the failover policy decides.
pub open spec fn spec_rule_route(
    policy: RouteFailoverPolicy,
    info: RouteInfo,
    inss: Seq<InstanceView>,
    callee: Seq<CustomRouteRule>,
    caller: Seq<CustomRouteRule>,
) -> RuleOutcome {
    let by_callee = spec_route_instances(info, inss, callee);
    let by_caller = spec_route_instances(info, inss, caller);
    if callee.len() > 0 && by_callee.len() > 0 {
        RuleOutcome::Routed(by_callee)
    } else if caller.len() > 0 && by_caller.len() > 0 {
        RuleOutcome::Routed(by_caller)
    } else if callee.len() == 0 && caller.len() == 0 {
        RuleOutcome::Unchanged
    } else if policy == RouteFailoverPolicy::All {
        RuleOutcome::Unchanged
    } else {
        RuleOutcome::Empty
    }
}

impl RuleRouter {
    pub fn builder() -> (r: (RuleRouterSupplier, String))
        ensures
            r.1@ == router_name(),
    {
        (RuleRouterSupplier, String::from_str("ruleBasedRouter"))
    }

    pub fn name(&self) -> (r: String)
        ensures
            r@ == router_name(),
    {
        String::from_str("ruleBasedRouter")
    }

    pub fn init(&mut self)
        ensures
            final(self).policy() == old(self).policy(),
    {
    }

    pub fn destroy(&self) {
    }

    /// The instances of the first route, in order, that the request meets and that has a
    /// non-empty available destination group; none without such a route.
    pub fn filter_instances(&self, info: &RouteInfo, instances: &ServiceInstances, rules: Vec<CustomRouteRule>) -> (r: Vec<Instance>)
        ensures
            instance_views(r@) == spec_route_instances(*info, instance_views(instances.instances@), rules@),
            r@.len() <= instances.instances@.len(),
    {
        let ghost inss = instance_views(instances.instances@);
        let ghost orig = rules@;
        let mut rest = rules;
        while rest.len() > 0
            invariant
                inss == instance_views(instances.instances@),
                orig == rules@,
                spec_route_instances(*info, inss, orig) == spec_route_instances(*info, inss, rest@),
            decreases rest@.len(),
        {
            let ghost before = rest@;
            let rule = rest.remove(0);
            assert(before.drop_first() =~= rest@);
            assert(before[0] == rule);
            if route_traffic_match(info, &rule) {
                let params = match &rule.arguments {
                    Some(args) => traffic_match_rule_request_parameters(info, args),
                    None => Vec::new(),
                };
                assert(entries_view(params@) =~= route_parameters(*info, rule));
                let CustomRouteRule { name: _, destinations, arguments: _ } = rule;
                let destinations = filter_available_destinations(destinations);
                let ghost dests = destinations@;
                let mut d: usize = 0;
                assert(dests.subrange(0, dests.len() as int) =~= dests);
                while d < destinations.len()
                    invariant
                        d <= dests.len(),
                        dests == destinations@,
                        inss == instance_views(instances.instances@),
                        before.len() > 0,
                        orig == rules@,
                        spec_route_instances(*info, inss, orig) == spec_route_instances(*info, inss, before),
                        spec_route_traffic_match(*info, before[0]),
                        dests == spec_available_destinations(before[0].destinations@),
                        entries_view(params@) == route_parameters(*info, before[0]),
                        spec_first_group(dests, entries_view(params@), inss)
                            == spec_first_group(dests.subrange(d as int, dests.len() as int), entries_view(params@), inss),
                    decreases dests.len() - d,
                {
                    let ghost sub = dests.subrange(d as int, dests.len() as int);
                    assert(sub.drop_first() =~= dests.subrange(d + 1, dests.len() as int));
                    assert(sub[0] == dests[d as int]);
                    let ret = match_callee_group(&destinations[d], instances, &params);
                    if ret.len() > 0 {
                        assert(spec_first_group(sub, entries_view(params@), inss) == Some(instance_views(ret@)));
                        assert(spec_route_instances(*info, inss, before) == instance_views(ret@));
                        return ret;
                    }
                    d = d + 1;
                }
                assert(dests.subrange(d as int, dests.len() as int) =~= Seq::<DestinationGroup>::empty());
            }
        }
        let empty: Vec<Instance> = Vec::new();
        assert(instance_views(empty@) =~= Seq::<InstanceView>::empty());
        empty
    }

    /// Routes by the rules read for the callee and for the caller; an error reading the
    /// rules that are needed is returned.
    pub fn choose_instances(
        &self,
        info: &RouteInfo,
        instances: ServiceInstances,
        callee_rules: Result<Vec<CustomRouteRule>, PoleError>,
        caller_rules: Result<Vec<CustomRouteRule>, PoleError>,
    ) -> (r: Result<RouteResult, PoleError>)
        requires
            weights_sum_fits(instances.instances@.len() as int),
        ensures
            ({
                let inss = instance_views(instances.instances@);
                match callee_rules {
                    Err(e) => r == Err::<RouteResult, PoleError>(e),
                    Ok(callee) => {
                        let by_callee = spec_route_instances(*info, inss, callee@);
                        if callee@.len() > 0 && by_callee.len() > 0 {
                            r matches Ok(res) && res.state == RouteState::Next
                                && holds_instances(res.instances, instances.service@, by_callee)
                        } else {
                            match caller_rules {
                                Err(e) => r == Err::<RouteResult, PoleError>(e),
                                Ok(caller) => r matches Ok(res) && res.state == RouteState::Next && match spec_rule_route(self.policy(), *info, inss, callee@, caller@) {
                                    RuleOutcome::Unchanged => res.instances == instances,
                                    RuleOutcome::Routed(sel) => holds_instances(res.instances, instances.service@, sel),
                                    RuleOutcome::Empty => holds_instances(res.instances, instances.service@, Seq::empty()),
                                },
                            }
                        }
                    },
                }
            }),
    {
        let ghost inss = instance_views(instances.instances@);
        let callee = match callee_rules {
            Err(e) => return Err(e),
            Ok(c) => c,
        };
        let mut routed: Option<Vec<Instance>> = None;
        let mut has_rules = callee.len() > 0;
        if callee.len() > 0 {
            let ret = self.filter_instances(info, &instances, callee);
            if ret.len() > 0 {
                routed = Some(ret);
            }
        }
        if routed.is_none() {
            let caller = match caller_rules {
                Err(e) => return Err(e),
                Ok(c) => c,
            };
            if caller.len() > 0 {
                has_rules = true;
                let ret = self.filter_instances(info, &instances, caller);
                if ret.len() > 0 {
                    routed = Some(ret);
                }
            }
        }
        match routed {
            Some(filtered) => {
                let total_weight = crate::model::sum_weights(&filtered);
                Ok(RouteResult {
                    instances: ServiceInstances { service: instances.service.duplicate(), instances: filtered, total_weight },
                    state: RouteState::Next,
                })
            },
            None => {
                if !has_rules || self.failover_policy == RouteFailoverPolicy::All {
                    Ok(RouteResult { instances, state: RouteState::Next })
                } else {
                    let empty: Vec<Instance> = Vec::new();
                    assert(instance_views(empty@) =~= Seq::<InstanceView>::empty());
                    Ok(RouteResult {
                        instances: ServiceInstances { service: instances.service.duplicate(), instances: empty, total_weight: 0 },
                        state: RouteState::Next,
                    })
                }
            },
        }
    }

    /// Whether rule routing applies: the chain holds the router and the caller or the callee
    /// has rules; an error reading either side's rules turns it off.
    pub fn enable(
        &self,
        info: &RouteInfo,
        callee_rules: &Result<Vec<CustomRouteRule>, PoleError>,
        caller_rules: &Result<Vec<CustomRouteRule>, PoleError>,
    ) -> (r: bool)
        ensures
            r == (spec_exist_route(info.chain@, router_name()) && match (callee_rules, caller_rules) {
                (Ok(callee), Ok(caller)) => callee@.len() > 0 || caller@.len() > 0,
                _ => false,
            }),
    {
        if !exist_route(&info.chain, "ruleBasedRouter") {
            return false;
        }
        let caller_empty = match caller_rules {
            Err(_) => return false,
            Ok(c) => c.len() == 0,
        };
        let callee_empty = match callee_rules {
            Err(_) => return false,
            Ok(c) => c.len() == 0,
        };
        has_route_rules(!caller_empty, !callee_empty)
    }
}

} // verus!
