//! Lane routing: a request that meets a lane rule goes to the available instances
//! labelled with the rule's lane.

use vstd::prelude::*;
use crate::model::{
    CachedRule, ErrorCode, Instance, InstanceView, PoleError, RouteInfo, ServiceInstances,
    ServiceRule, weights_sum_fits, instance_views, metadata_get, pair_lookup,
};
use crate::model::router::{
    RouteResult, RouteState, ServiceRouterPluginConfig, exist_route, spec_exist_route,
};
use crate::plugins::router::nearby::holds_instances;
use crate::plugins::router::rule::helper::{spec_traffic_match_rule_match, traffic_match_rule_match};
use crate::priority::{Prioritized, sort_by_priority, stable_sort_by_priority};
use crate::specification::{LaneGroup, LaneMatchMode, LaneRule};
use crate::text::str_equal;
use vstd::string::StrSliceExecFns;

verus! {

/// The name under which the router registers.
pub open spec fn router_name() -> Seq<char> {
    "laneRouter"@
}

/// Lane routing; it has no options.
pub struct LaneRouter {}

/// Makes lane routers.
pub struct LaneRouterSupplier;

impl LaneRouterSupplier {
    pub fn create(&self, conf: &ServiceRouterPluginConfig) -> (r: LaneRouter) {
        new_service_router(conf)
    }
}

pub fn new_service_router(_conf: &ServiceRouterPluginConfig) -> (r: LaneRouter) {
    LaneRouter {}
}

/// Where an enabled lane rule sits among the groups, with its priority.
#[derive(Clone, Copy, Debug)]
pub struct LaneRef {
    pub group: usize,
    pub rule: usize,
    pub priority: u32,
}

impl Prioritized for LaneRef {
    open spec fn spec_priority(&self) -> u32 {
        self.priority
    }

    fn priority(&self) -> (r: u32) {
        self.priority
    }
}

/// The enabled rules of group `g`, in order.
pub open spec fn group_refs(g: int, rules: Seq<LaneRule>) -> Seq<LaneRef>
    decreases rules.len(),
{
    if rules.len() == 0 {
        Seq::empty()
    } else {
        let prev = group_refs(g, rules.drop_last());
        if rules.last().enable {
            prev.push(LaneRef { group: g as usize, rule: (rules.len() - 1) as usize, priority: rules.last().priority })
        } else {
            prev
        }
    }
}

/// The enabled rules of all groups, group after group.
pub open spec fn lane_refs(groups: Seq<LaneGroup>) -> Seq<LaneRef>
    decreases groups.len(),
{
    if groups.len() == 0 {
        Seq::empty()
    } else {
        lane_refs(groups.drop_last()) + group_refs(groups.len() - 1, groups.last().rules@)
    }
}

/// The label that marks an instance's lane: the rule's key, `lane` by default.
pub open spec fn spec_label_key(rule: LaneRule) -> Seq<char> {
    if rule.label_key@.len() == 0 {
        "lane"@
    } else {
        rule.label_key@
    }
}

/// Whether an instance is an available instance of the rule's lane.
pub open spec fn spec_in_lane(rule: LaneRule, ins: InstanceView) -> bool {
    ins.available() && pair_lookup(ins.metadata, spec_label_key(rule)) == Some(rule.default_label_value@)
}

/// The available instances of a rule's lane, in order.
pub open spec fn spec_lane_members(rule: LaneRule, inss: Seq<InstanceView>) -> Seq<InstanceView>
    decreases inss.len(),
{
    if inss.len() == 0 {
        inss
    } else if spec_in_lane(rule, inss.last()) {
        spec_lane_members(rule, inss.drop_last()).push(inss.last())
    } else {
        spec_lane_members(rule, inss.drop_last())
    }
}

/// What lane routing leaves of the instances.
pub enum LaneOutcome {
    Unchanged,
    Routed(Seq<InstanceView>),
    Empty,
}

/// Lane routing over rules in priority order: the first rule the request meets decides;
/// its lane's instances if there are any, else every instance (permissive) or none (strict).
pub open spec fn spec_lane_route(
    info: RouteInfo,
    inss: Seq<InstanceView>,
    groups: Seq<LaneGroup>,
    refs: Seq<LaneRef>,
) -> LaneOutcome
    decreases refs.len(),
{
    if refs.len() == 0 {
        LaneOutcome::Unchanged
    } else {
        let rule = groups[refs[0].group as int].rules@[refs[0].rule as int];
        match rule.traffic_match_rule {
            Some(tm) if spec_traffic_match_rule_match(info, tm) => {
                let members = spec_lane_members(rule, inss);
                if members.len() > 0 {
                    LaneOutcome::Routed(members)
                } else if rule.match_mode == LaneMatchMode::Permissive {
                    LaneOutcome::Unchanged
                } else {
                    LaneOutcome::Empty
                }
            },
            _ => spec_lane_route(info, inss, groups, refs.drop_first()),
        }
    }
}

/// Lane routing with the groups' rules, enabled ones only, ordered by priority.
pub open spec fn spec_lane_filter(info: RouteInfo, inss: Seq<InstanceView>, groups: Seq<LaneGroup>) -> LaneOutcome {
    spec_lane_route(info, inss, groups, sort_by_priority(lane_refs(groups)))
}

/// Every reference of a list points at a rule of the groups.
pub open spec fn refs_valid(refs: Seq<LaneRef>, groups: Seq<LaneGroup>) -> bool {
    forall|k: int| 0 <= k < refs.len() ==> {
        let r = #[trigger] refs[k];
        r.group < groups.len() && r.rule < groups[r.group as int].rules@.len()
    }
}

proof fn lemma_group_refs_enabled(g: int, rules: Seq<LaneRule>)
    requires
        0 <= g <= usize::MAX,
        rules.len() <= usize::MAX,
    ensures
        forall|k: int| 0 <= k < group_refs(g, rules).len() ==> {
            let r = #[trigger] group_refs(g, rules)[k];
            &&& r.group as int == g
            &&& r.rule < rules.len()
            &&& rules[r.rule as int].enable
        },
    decreases rules.len(),
{
    if rules.len() > 0 {
        let d = rules.drop_last();
        lemma_group_refs_enabled(g, d);
        let prev = group_refs(g, d);
        assert forall|k: int| 0 <= k < group_refs(g, rules).len() implies {
            let r = #[trigger] group_refs(g, rules)[k];
            &&& r.group as int == g
            &&& r.rule < rules.len()
            &&& rules[r.rule as int].enable
        } by {
            if k < prev.len() {
                let r = prev[k];
                assert(group_refs(g, rules)[k] == r);
                assert(rules[r.rule as int] == d[r.rule as int]);
            }
        }
    }
}

proof fn lemma_lane_refs_enabled(groups: Seq<LaneGroup>)
    requires
        groups.len() <= usize::MAX,
    ensures
        forall|k: int| 0 <= k < lane_refs(groups).len() ==> {
            let r = #[trigger] lane_refs(groups)[k];
            &&& r.group < groups.len()
            &&& r.rule < groups[r.group as int].rules@.len()
            &&& groups[r.group as int].rules@[r.rule as int].enable
        },
    decreases groups.len(),
{
    if groups.len() > 0 {
        let d = groups.drop_last();
        lemma_lane_refs_enabled(d);
        let g = groups.len() - 1;
        assert(groups.last().rules@.len() <= usize::MAX) by {
            vstd::std_specs::vec::axiom_spec_len(&groups.last().rules);
            assert(groups.last().rules.len() == groups.last().rules@.len());
        }
        lemma_group_refs_enabled(g, groups.last().rules@);
        let a = lane_refs(d);
        let b = group_refs(g, groups.last().rules@);
        assert forall|k: int| 0 <= k < lane_refs(groups).len() implies {
            let r = #[trigger] lane_refs(groups)[k];
            &&& r.group < groups.len()
            &&& r.rule < groups[r.group as int].rules@.len()
            &&& groups[r.group as int].rules@[r.rule as int].enable
        } by {
            if k < a.len() {
                let r = a[k];
                assert(lane_refs(groups)[k] == r);
                assert(groups[r.group as int] == d[r.group as int]);
            } else {
                assert(lane_refs(groups)[k] == b[k - a.len()]);
                assert(groups[g] == groups.last());
            }
        }
    }
}

/// Whether a reference names an existing rule that the request does not meet.
pub open spec fn ref_not_met(info: RouteInfo, groups: Seq<LaneGroup>, r: LaneRef) -> bool {
    &&& r.group < groups.len()
    &&& r.rule < groups[r.group as int].rules@.len()
    &&& !(groups[r.group as int].rules@[r.rule as int].traffic_match_rule matches Some(tm)
        && spec_traffic_match_rule_match(info, tm))
}

proof fn lemma_route_unchanged(info: RouteInfo, inss: Seq<InstanceView>, groups: Seq<LaneGroup>, refs: Seq<LaneRef>)
    requires
        forall|k: int| 0 <= k < refs.len() ==> ref_not_met(info, groups, #[trigger] refs[k]),
    ensures
        spec_lane_route(info, inss, groups, refs) == LaneOutcome::Unchanged,
    decreases refs.len(),
{
    if refs.len() > 0 {
        assert(ref_not_met(info, groups, refs[0]));
        let t = refs.drop_first();
        assert forall|k: int| 0 <= k < t.len() implies ref_not_met(info, groups, #[trigger] t[k]) by {
            assert(t[k] == refs[k + 1]);
        }
        lemma_route_unchanged(info, inss, groups, t);
    }
}

/// A request that meets no enabled lane rule (none whose traffic condition it matches)
/// leaves the instances as they are.
pub proof fn law_unmet_lanes_leave_instances(info: RouteInfo, inss: Seq<InstanceView>, groups: Seq<LaneGroup>)
    requires
        groups.len() <= usize::MAX,
        forall|g: int, r: int| 0 <= g < groups.len() && 0 <= r < groups[g].rules@.len()
            && (#[trigger] groups[g].rules@[r]).enable
            ==> !(groups[g].rules@[r].traffic_match_rule matches Some(tm) && spec_traffic_match_rule_match(info, tm)),
    ensures
        spec_lane_filter(info, inss, groups) == LaneOutcome::Unchanged,
{
    let refs = lane_refs(groups);
    lemma_lane_refs_enabled(groups);
    let p = |x: LaneRef| ref_not_met(info, groups, x);
    assert forall|k: int| 0 <= k < refs.len() implies #[trigger] p(refs[k]) by {
        let r = refs[k];
        assert(groups[r.group as int].rules@[r.rule as int].enable);
    }
    crate::priority::lemma_sort_keeps(refs, p);
    let sorted = sort_by_priority(refs);
    assert forall|k: int| 0 <= k < sorted.len() implies ref_not_met(info, groups, #[trigger] sorted[k]) by {
        assert(p(sorted[k]));
    }
    lemma_route_unchanged(info, inss, groups, sorted);
}

/// References to the enabled rules of all groups, group after group.
fn collect_refs(groups: &Vec<LaneGroup>) -> (r: Vec<LaneRef>)
    ensures
        r@ == lane_refs(groups@),
        refs_valid(r@, groups@),
{
    let mut out: Vec<LaneRef> = Vec::new();
    let mut g: usize = 0;
    while g < groups.len()
        invariant
            g <= groups@.len(),
            out@ == lane_refs(groups@.subrange(0, g as int)),
            refs_valid(out@, groups@),
        decreases groups@.len() - g,
    {
        let ghost pre = groups@.subrange(0, g + 1);
        assert(pre.drop_last() =~= groups@.subrange(0, g as int));
        let rules = &groups[g].rules;
        let ghost start = out@;
        let mut k: usize = 0;
        while k < rules.len()
            invariant
                g < groups@.len(),
                *rules == groups@[g as int].rules,
                k <= rules@.len(),
                out@ == start + group_refs(g as int, rules@.subrange(0, k as int)),
                refs_valid(out@, groups@),
            decreases rules@.len() - k,
        {
            let ghost rpre = rules@.subrange(0, k + 1);
            assert(rpre.drop_last() =~= rules@.subrange(0, k as int));
            if rules[k].enable {
                let ghost before = out@;
                out.push(LaneRef { group: g, rule: k, priority: rules[k].priority });
                assert(out@ =~= start + group_refs(g as int, rpre));
            } else {
                assert(out@ =~= start + group_refs(g as int, rpre));
            }
            k = k + 1;
        }
        assert(rules@.subrange(0, rules@.len() as int) =~= rules@);
        assert(out@ =~= lane_refs(pre));
        g = g + 1;
    }
    assert(groups@.subrange(0, groups@.len() as int) =~= groups@);
    out
}

/// The available instances of a rule's lane.
fn lane_members(rule: &LaneRule, instances: &ServiceInstances) -> (r: Vec<Instance>)
    ensures
        instance_views(r@) == spec_lane_members(*rule, instance_views(instances.instances@)),
        r@.len() <= instances.instances@.len(),
{
    let ghost inss = instance_views(instances.instances@);
    let label_key = if rule.label_key.as_str().unicode_len() == 0 {
        "lane"
    } else {
        rule.label_key.as_str()
    };
    let mut out: Vec<Instance> = Vec::new();
    let mut i: usize = 0;
    while i < instances.instances.len()
        invariant
            i <= instances.instances@.len(),
            inss == instance_views(instances.instances@),
            label_key@ == spec_label_key(*rule),
            instance_views(out@) == spec_lane_members(*rule, inss.subrange(0, i as int)),
            out@.len() <= i,
        decreases instances.instances@.len() - i,
    {
        let ins = &instances.instances[i];
        let ghost pre = inss.subrange(0, i + 1);
        assert(pre.drop_last() =~= inss.subrange(0, i as int));
        assert(pre.last() == ins@);
        let in_lane = ins.is_available() && match metadata_get(&ins.metadata, label_key) {
            Some(lane) => str_equal(lane.as_str(), rule.default_label_value.as_str()),
            None => false,
        };
        if in_lane {
            let ghost before = out@;
            out.push(ins.duplicate());
            assert(instance_views(out@) =~= instance_views(before).push(ins@));
        }
        i = i + 1;
    }
    assert(inss.subrange(0, instances.instances@.len() as int) =~= inss);
    out
}

/// A copy of the instances of a service.
fn keep_all(instances: &ServiceInstances) -> (r: ServiceInstances)
    ensures
        r.service@ == instances.service@,
        instance_views(r.instances@) == instance_views(instances.instances@),
        r.total_weight == instances.total_weight,
{
    instances.duplicate()
}

/// Routes by the lane rules of the groups.
pub fn filter_instances_by_lane_groups(info: &RouteInfo, instances: &ServiceInstances, lane_groups: &Vec<LaneGroup>) -> (r: ServiceInstances)
    requires
        weights_sum_fits(instances.instances@.len() as int),
    ensures
        match spec_lane_filter(*info, instance_views(instances.instances@), lane_groups@) {
            LaneOutcome::Unchanged => r.service@ == instances.service@
                && instance_views(r.instances@) == instance_views(instances.instances@)
                && r.total_weight == instances.total_weight,
            LaneOutcome::Routed(sel) => holds_instances(r, instances.service@, sel),
            LaneOutcome::Empty => holds_instances(r, instances.service@, Seq::empty()),
        },
{
    let ghost inss = instance_views(instances.instances@);
    let refs = collect_refs(lane_groups);
    proof {
        crate::priority::lemma_sort_keeps(refs@, |x: LaneRef| x.group < lane_groups@.len() && x.rule < lane_groups@[x.group as int].rules@.len());
    }
    let sorted = stable_sort_by_priority(refs);
    let ghost all = sorted@;
    let mut i: usize = 0;
    assert(all.subrange(0, all.len() as int) =~= all);
    while i < sorted.len()
        invariant
            i <= all.len(),
            all == sorted@,
            refs_valid(all, lane_groups@),
            inss == instance_views(instances.instances@),
            weights_sum_fits(instances.instances@.len() as int),
            spec_lane_filter(*info, inss, lane_groups@) == spec_lane_route(*info, inss, lane_groups@, all.subrange(i as int, all.len() as int)),
        decreases all.len() - i,
    {
        let ghost sub = all.subrange(i as int, all.len() as int);
        assert(sub.drop_first() =~= all.subrange(i + 1, all.len() as int));
        assert(sub[0] == all[i as int]);
        let lr = sorted[i];
        let rule = &lane_groups[lr.group].rules[lr.rule];
        if let Some(tm) = &rule.traffic_match_rule {
            if traffic_match_rule_match(info, tm) {
                let members = lane_members(rule, instances);
                if members.len() > 0 {
                    let total_weight = crate::model::sum_weights(&members);
                    return ServiceInstances { service: instances.service.duplicate(), instances: members, total_weight };
                }
                return match rule.match_mode {
                    LaneMatchMode::Permissive => keep_all(instances),
                    LaneMatchMode::Strict => {
                        let empty: Vec<Instance> = Vec::new();
                        assert(instance_views(empty@) =~= Seq::<InstanceView>::empty());
                        ServiceInstances { service: instances.service.duplicate(), instances: empty, total_weight: 0 }
                    },
                };
            }
        }
        i = i + 1;
    }
    keep_all(instances)
}

/// The lane groups of a service's cached rules; any rule that is not a lane group is an error.
pub open spec fn spec_lane_groups(rules: Seq<CachedRule>) -> Option<Seq<LaneGroup>>
    decreases rules.len(),
{
    if rules.len() == 0 {
        Some(Seq::empty())
    } else {
        match (spec_lane_groups(rules.drop_last()), rules.last()) {
            (Some(prev), CachedRule::Lane(g)) => Some(prev.push(g)),
            _ => None,
        }
    }
}

pub fn lane_groups_from_service_rule(service_rule: ServiceRule) -> (r: Result<Vec<LaneGroup>, PoleError>)
    ensures
        match spec_lane_groups(service_rule.rules@) {
            Some(groups) => r matches Ok(v) && v@ == groups,
            None => r matches Err(e) && e.code == ErrorCode::InvalidRule,
        },
{
    let ghost orig = service_rule.rules@;
    let mut rest = service_rule.rules;
    let mut groups: Vec<LaneGroup> = Vec::new();
    let mut taken: usize = 0;
    let total = rest.len();
    assert(orig.subrange(0, 0) =~= Seq::<CachedRule>::empty());
    while rest.len() > 0
        invariant
            orig.len() == total,
            orig == service_rule.rules@,
            taken + rest@.len() == orig.len(),
            rest@ == orig.subrange(taken as int, orig.len() as int),
            spec_lane_groups(orig.subrange(0, taken as int)) == Some(groups@),
        decreases rest@.len(),
    {
        let x = rest.remove(0);
        assert(rest@ =~= orig.subrange(taken + 1, orig.len() as int));
        let ghost pre = orig.subrange(0, taken + 1);
        assert(pre.drop_last() =~= orig.subrange(0, taken as int));
        assert(pre.last() == x);
        match x {
            CachedRule::Lane(g) => {
                groups.push(g);
            },
            _ => {
                proof {
                    lemma_lane_groups_prefix(orig, taken as int + 1);
                }
                return Err(PoleError::new(ErrorCode::InvalidRule, String::from_str("rule type error, expect LaneGroup")));
            },
        }
        taken = taken + 1;
    }
    assert(orig.subrange(0, orig.len() as int) =~= orig);
    Ok(groups)
}

proof fn lemma_lane_groups_prefix(rules: Seq<CachedRule>, n: int)
    requires
        0 <= n <= rules.len(),
        spec_lane_groups(rules.subrange(0, n)).is_none(),
    ensures
        spec_lane_groups(rules).is_none(),
    decreases rules.len() - n,
{
    if n < rules.len() {
        let pre = rules.subrange(0, n + 1);
        assert(pre.drop_last() =~= rules.subrange(0, n));
        lemma_lane_groups_prefix(rules, n + 1);
    } else {
        assert(rules.subrange(0, n) =~= rules);
    }
}

impl LaneRouter {
    pub fn builder() -> (r: (LaneRouterSupplier, String))
        ensures
            r.1@ == router_name(),
    {
        (LaneRouterSupplier, String::from_str("laneRouter"))
    }

    pub fn name(&self) -> (r: String)
        ensures
            r@ == router_name(),
    {
        String::from_str("laneRouter")
    }

    pub fn init(&mut self) {
    }

    pub fn destroy(&self) {
    }

    /// Routes by the lane groups read for the callee. Every instance stays when there is
    /// nothing to read them from (`None`) or no group; an error reading them is returned.
    pub fn choose_instances(
        &self,
        info: &RouteInfo,
        instances: ServiceInstances,
        lane_groups: Option<Result<Vec<LaneGroup>, PoleError>>,
    ) -> (r: Result<RouteResult, PoleError>)
        requires
            weights_sum_fits(instances.instances@.len() as int),
        ensures
            match lane_groups {
                Some(Err(e)) => r == Err::<RouteResult, PoleError>(e),
                Some(Ok(groups)) if groups@.len() > 0 => r matches Ok(res) && res.state == RouteState::Next
                    && match spec_lane_filter(*info, instance_views(instances.instances@), groups@) {
                    LaneOutcome::Unchanged => res.instances.service@ == instances.service@
                        && instance_views(res.instances.instances@) == instance_views(instances.instances@)
                        && res.instances.total_weight == instances.total_weight,
                    LaneOutcome::Routed(sel) => holds_instances(res.instances, instances.service@, sel),
                    LaneOutcome::Empty => holds_instances(res.instances, instances.service@, Seq::empty()),
                },
                _ => r == Ok::<RouteResult, PoleError>(RouteResult { instances, state: RouteState::Next }),
            },
    {
        match lane_groups {
            None => Ok(RouteResult { instances, state: RouteState::Next }),
            Some(Err(e)) => Err(e),
            Some(Ok(groups)) => {
                if groups.len() == 0 {
                    return Ok(RouteResult { instances, state: RouteState::Next });
                }
                let filtered = filter_instances_by_lane_groups(info, &instances, &groups);
                Ok(RouteResult { instances: filtered, state: RouteState::Next })
            },
        }
    }

    /// Whether lane routing applies: the chain holds the router and lane groups were read
    /// for the callee.
    pub fn enable(&self, info: &RouteInfo, lane_groups: &Option<Result<Vec<LaneGroup>, PoleError>>) -> (r: bool)
        ensures
            r == (spec_exist_route(info.chain@, router_name()) && match lane_groups {
                Some(Ok(g)) => g@.len() > 0,
                _ => false,
            }),
    {
        if !exist_route(&info.chain, "laneRouter") {
            return false;
        }
        match lane_groups {
            Some(Ok(g)) => g.len() > 0,
            _ => false,
        }
    }
}

} // verus!
