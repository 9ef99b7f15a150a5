//! Nearby routing: keeps the instances that share the caller's campus, zone or region,
//! widening the level while too many of the nearest instances are unhealthy.

use vstd::prelude::*;
use vstd::string::{StrSliceExecFns, StringExecFns};
use crate::model::{
    ErrorCode, Instance, InstanceView, Location, MetadataEntry, PoleError, ServiceInfoView,
    ServiceInstances, instance_count_ok, instance_views, metadata_get, metadata_lookup,
    total_weight_of,
};
use crate::model::router::{RouteResult, RouteState, ServiceRouterPluginConfig, weight_consistent};
use crate::text::{parse_bool, parse_u16, chars_of, spec_parse_bool, spec_parse_u16, str_equal};

verus! {

/// The name under which the router registers.
pub open spec fn router_name() -> Seq<char> {
    "nearbyBasedRouter"@
}

/// Rank of a match level, narrowest first; `None` for an unknown name.
pub open spec fn spec_level_order(level: Seq<char>) -> Option<u16> {
    if level == "unknown"@ {
        Some(0)
    } else if level == "campus"@ {
        Some(1)
    } else if level == "zone"@ {
        Some(2)
    } else if level == "region"@ {
        Some(3)
    } else if level == "all"@ {
        Some(4)
    } else {
        None
    }
}

/// The match level of a rank.
pub open spec fn spec_level_name(order: int) -> Seq<char> {
    if order == 0 {
        "unknown"@
    } else if order == 1 {
        "campus"@
    } else if order == 2 {
        "zone"@
    } else if order == 3 {
        "region"@
    } else {
        "all"@
    }
}

fn level_order(level: &str) -> (r: Option<u16>)
    ensures
        r == spec_level_order(level@),
{
    if str_equal(level, "unknown") {
        Some(0)
    } else if str_equal(level, "campus") {
        Some(1)
    } else if str_equal(level, "zone") {
        Some(2)
    } else if str_equal(level, "region") {
        Some(3)
    } else if str_equal(level, "all") {
        Some(4)
    } else {
        None
    }
}

fn level_name(order: u16) -> (r: String)
    ensures
        r@ == spec_level_name(order as int),
{
    if order == 0 {
        String::from_str("unknown")
    } else if order == 1 {
        String::from_str("campus")
    } else if order == 2 {
        String::from_str("zone")
    } else if order == 3 {
        String::from_str("region")
    } else {
        String::from_str("all")
    }
}

/// Whether level `a` is wider than level `b`; both must be known levels.
pub fn grater_match_level(a: &str, b: &str) -> (r: bool)
    requires
        spec_level_order(a@).is_some(),
        spec_level_order(b@).is_some(),
    ensures
        r == (spec_level_order(a@).unwrap() > spec_level_order(b@).unwrap()),
{
    let a_level = level_order(a).unwrap();
    let b_level = level_order(b).unwrap();
    a_level > b_level
}

/// Whether an instance is near the caller at a level: same campus, zone or region, or
/// the caller's own part unknown; every instance at `all` or an unnamed level.
pub open spec fn spec_level_matches(level: Seq<char>, local: Location, ins: InstanceView) -> bool {
    if level == "campus"@ {
        local.campus@.len() == 0 || ins.campus == local.campus@
    } else if level == "zone"@ {
        local.zone@.len() == 0 || ins.zone == local.zone@
    } else if level == "region"@ {
        local.region@.len() == 0 || ins.region == local.region@
    } else {
        true
    }
}

/// The instances near the caller at a level, in order.
pub open spec fn spec_select(local: Location, level: Seq<char>, inss: Seq<InstanceView>) -> Seq<InstanceView>
    decreases inss.len(),
{
    if inss.len() == 0 {
        Seq::empty()
    } else {
        let prev = spec_select(local, level, inss.drop_last());
        if spec_level_matches(level, local, inss.last()) {
            prev.push(inss.last())
        } else {
            prev
        }
    }
}

/// How many of the instances are healthy.
pub open spec fn spec_health_count(inss: Seq<InstanceView>) -> nat
    decreases inss.len(),
{
    if inss.len() == 0 {
        0
    } else {
        spec_health_count(inss.drop_last()) + if inss.last().health { 1nat } else { 0nat }
    }
}

proof fn lemma_select_len(local: Location, level: Seq<char>, inss: Seq<InstanceView>)
    ensures
        spec_select(local, level, inss).len() <= inss.len(),
        spec_health_count(spec_select(local, level, inss)) <= spec_select(local, level, inss).len(),
    decreases inss.len(),
{
    if inss.len() > 0 {
        lemma_select_len(local, level, inss.drop_last());
        let prev = spec_select(local, level, inss.drop_last());
        assert(prev.push(inss.last()).drop_last() =~= prev);
    }
}

proof fn lemma_select_members(local: Location, level: Seq<char>, inss: Seq<InstanceView>, x: InstanceView)
    ensures
        spec_select(local, level, inss).contains(x) <==> (inss.contains(x) && spec_level_matches(level, local, x)),
    decreases inss.len(),
{
    if inss.len() > 0 {
        let d = inss.drop_last();
        lemma_select_members(local, level, d, x);
        let prev = spec_select(local, level, d);
        if inss.contains(x) && x != inss.last() {
            let j = choose|j: int| 0 <= j < inss.len() && inss[j] == x;
            assert(j < inss.len() - 1);
            assert(d[j] == x);
        }
        if d.contains(x) {
            let j = choose|j: int| 0 <= j < d.len() && d[j] == x;
            assert(inss[j] == x);
        }
        if spec_level_matches(level, local, inss.last()) {
            let sel = prev.push(inss.last());
            if prev.contains(x) {
                let j = choose|j: int| 0 <= j < prev.len() && prev[j] == x;
                assert(sel[j] == x);
            }
            if sel.contains(x) && x != inss.last() {
                let j = choose|j: int| 0 <= j < sel.len() && sel[j] == x;
                assert(j < prev.len());
                assert(prev[j] == x);
            }
            assert(sel[prev.len() as int] == inss.last());
            assert(inss[inss.len() - 1] == inss.last());
        } else {
            assert(inss[inss.len() - 1] == inss.last());
        }
    }
}

/// What each level keeps of the instances: at `campus`, `zone` or `region`, when the
/// caller's own part is known, exactly the instances in the caller's campus, zone or
/// region; when it is not, and at `all`, every instance.
pub proof fn law_level_keeps_exactly_the_near_instances(local: Location, inss: Seq<InstanceView>, x: InstanceView)
    ensures
        local.campus@.len() > 0 ==> (spec_select(local, "campus"@, inss).contains(x)
            <==> inss.contains(x) && x.campus == local.campus@),
        local.zone@.len() > 0 ==> (spec_select(local, "zone"@, inss).contains(x)
            <==> inss.contains(x) && x.zone == local.zone@),
        local.region@.len() > 0 ==> (spec_select(local, "region"@, inss).contains(x)
            <==> inss.contains(x) && x.region == local.region@),
        local.region@.len() == 0 ==> (spec_select(local, "region"@, inss).contains(x) <==> inss.contains(x)),
        spec_select(local, "all"@, inss).contains(x) <==> inss.contains(x),
{
    reveal_strlit("campus");
    reveal_strlit("zone");
    reveal_strlit("region");
    reveal_strlit("all");
    assert("zone"@.len() != "campus"@.len());
    assert("region"@[0] != "campus"@[0] && "region"@.len() != "zone"@.len());
    assert("zone"@ != "campus"@);
    assert("region"@ != "campus"@ && "region"@ != "zone"@);
    assert("all"@ != "campus"@ && "all"@ != "zone"@ && "all"@ != "region"@);
    lemma_select_members(local, "campus"@, inss, x);
    lemma_select_members(local, "zone"@, inss, x);
    lemma_select_members(local, "region"@, inss, x);
    lemma_select_members(local, "all"@, inss, x);
}

/// Nearby routing as configured.
pub struct NearbyRouter {
    pub strict_nearby: bool,
    pub match_level: String,
    pub max_match_level: String,
    pub enable_degrade_unhealthy_percent: bool,
    pub unhealthy_percent_to_degrade: u16,
}

/// Options of a configured router: each is present and parses.
pub open spec fn nearby_options_ok(opts: Seq<MetadataEntry>) -> bool {
    &&& metadata_lookup(opts, "strictNearby"@) matches Some(v) && spec_parse_bool(v).is_some()
    &&& metadata_lookup(opts, "matchLevel"@).is_some()
    &&& metadata_lookup(opts, "maxMatchLevel"@).is_some()
    &&& metadata_lookup(opts, "enableDegradeByUnhealthyPercent"@) matches Some(v) && spec_parse_bool(v).is_some()
    &&& metadata_lookup(opts, "unhealthyPercentToDegrade"@) matches Some(v) && spec_parse_u16(v).is_some()
}

/// Whether `r` is the router its configuration describes: zone to all levels, not
/// strict, no degradation and 100 per cent without options; else each field the parsed
/// value of its option.
pub open spec fn configured_router(conf: ServiceRouterPluginConfig, r: NearbyRouter) -> bool {
    match conf.options {
        None => {
            &&& !r.strict_nearby
            &&& r.match_level@ == "zone"@
            &&& r.max_match_level@ == "all"@
            &&& !r.enable_degrade_unhealthy_percent
            &&& r.unhealthy_percent_to_degrade == 100
        },
        Some(opts) => {
            &&& Some(r.strict_nearby) == spec_parse_bool(metadata_lookup(opts@, "strictNearby"@).unwrap())
            &&& Some(r.match_level@) == metadata_lookup(opts@, "matchLevel"@)
            &&& Some(r.max_match_level@) == metadata_lookup(opts@, "maxMatchLevel"@)
            &&& Some(r.enable_degrade_unhealthy_percent) == spec_parse_bool(
                metadata_lookup(opts@, "enableDegradeByUnhealthyPercent"@).unwrap(),
            )
            &&& Some(r.unhealthy_percent_to_degrade) == spec_parse_u16(
                metadata_lookup(opts@, "unhealthyPercentToDegrade"@).unwrap(),
            )
        },
    }
}

/// A router from its options: zone to all levels, no degradation, without options.
pub fn new_service_router(conf: &ServiceRouterPluginConfig) -> (r: NearbyRouter)
    requires
        conf.options matches Some(opts) ==> nearby_options_ok(opts@),
    ensures
        configured_router(*conf, r),
{
    match &conf.options {
        None => NearbyRouter {
            strict_nearby: false,
            match_level: String::from_str("zone"),
            max_match_level: String::from_str("all"),
            enable_degrade_unhealthy_percent: false,
            unhealthy_percent_to_degrade: 100,
        },
        Some(opts) => {
            let strict = metadata_get(opts, "strictNearby").unwrap();
            let match_level = metadata_get(opts, "matchLevel").unwrap();
            let max_match_level = metadata_get(opts, "maxMatchLevel").unwrap();
            let degrade = metadata_get(opts, "enableDegradeByUnhealthyPercent").unwrap();
            let percent = metadata_get(opts, "unhealthyPercentToDegrade").unwrap();
            NearbyRouter {
                strict_nearby: parse_bool(strict.as_str()).unwrap(),
                match_level,
                max_match_level,
                enable_degrade_unhealthy_percent: parse_bool(degrade.as_str()).unwrap(),
                unhealthy_percent_to_degrade: parse_u16(&chars_of(percent.as_str())).unwrap(),
            }
        },
    }
}

/// Makes nearby routers from their configuration.
pub struct NearbyRouterSupplier;

impl NearbyRouterSupplier {
    /// The router its configuration describes, as `new_service_router` builds it.
    pub fn create(&self, conf: &ServiceRouterPluginConfig) -> (r: NearbyRouter)
        requires
            conf.options matches Some(opts) ==> nearby_options_ok(opts@),
        ensures
            configured_router(*conf, r),
    {
        new_service_router(conf)
    }
}

/// The narrowest level a router looks at.
pub open spec fn spec_min_level(r: NearbyRouter) -> Seq<char> {
    if r.match_level@.len() == 0 {
        "zone"@
    } else {
        r.match_level@
    }
}

/// The widest level a router may widen to.
pub open spec fn spec_max_level(r: NearbyRouter) -> Seq<char> {
    let m = if r.strict_nearby {
        spec_min_level(r)
    } else {
        r.max_match_level@
    };
    if m.len() == 0 {
        "all"@
    } else {
        m
    }
}

/// Both levels name known levels.
pub open spec fn levels_known(r: NearbyRouter) -> bool {
    spec_level_order(spec_min_level(r)).is_some() && spec_level_order(spec_max_level(r)).is_some()
}

/// Whether a level's instances are too unhealthy to keep: only when degradation is on and
/// the level is not `all`; always when none is left; else when the unhealthy share, in whole
/// percent, reaches the threshold.
pub open spec fn spec_should_degrade(r: NearbyRouter, level: Seq<char>, sel: Seq<InstanceView>) -> bool {
    if !r.enable_degrade_unhealthy_percent || level == "all"@ {
        false
    } else if sel.len() == 0 {
        true
    } else {
        (sel.len() - spec_health_count(sel)) * 100 / (sel.len() as int) >= r.unhealthy_percent_to_degrade
    }
}

/// Widening from level `l` to `hi`: the instances of the first non-empty level that need not
/// degrade; where every non-empty level degrades, those of the widest non-empty one.
pub open spec fn spec_scan(r: NearbyRouter, local: Location, inss: Seq<InstanceView>, l: int, hi: int) -> Option<Seq<InstanceView>>
    decreases hi - l + 1,
{
    if l > hi || l < 0 {
        None
    } else {
        let level = spec_level_name(l);
        let sel = spec_select(local, level, inss);
        if sel.len() == 0 {
            spec_scan(r, local, inss, l + 1, hi)
        } else if !spec_should_degrade(r, level, sel) {
            Some(sel)
        } else {
            match spec_scan(r, local, inss, l + 1, hi) {
                Some(s) => Some(s),
                None => Some(sel),
            }
        }
    }
}

/// The instances nearby routing keeps, if any. A narrowest level wider than the widest one
/// keeps the narrowest level's instances, without widening.
pub open spec fn spec_nearby(r: NearbyRouter, local: Location, inss: Seq<InstanceView>) -> Option<Seq<InstanceView>> {
    let lo = spec_level_order(spec_min_level(r)).unwrap() as int;
    let hi = spec_level_order(spec_max_level(r)).unwrap() as int;
    if lo > hi {
        let sel = spec_select(local, spec_min_level(r), inss);
        if sel.len() == 0 {
            None
        } else {
            Some(sel)
        }
    } else {
        spec_scan(r, local, inss, lo, hi)
    }
}

spec fn combine(prev: Option<Seq<InstanceView>>, next: Option<Seq<InstanceView>>) -> Option<Seq<InstanceView>> {
    match next {
        Some(s) => Some(s),
        None => prev,
    }
}

spec fn result_view(r: Option<ServiceInstances>) -> Option<Seq<InstanceView>> {
    match r {
        Some(s) => Some(instance_views(s.instances@)),
        None => None,
    }
}

/// Whether a routing result holds exactly `sel` of the service, with their total weight.
pub open spec fn holds_instances(res: ServiceInstances, service: ServiceInfoView, sel: Seq<InstanceView>) -> bool {
    &&& instance_views(res.instances@) == sel
    &&& res.service@ == service
    &&& weight_consistent(res)
}

impl NearbyRouter {
    pub fn builder() -> (r: (NearbyRouterSupplier, String))
        ensures
            r.1@ == router_name(),
    {
        (NearbyRouterSupplier, String::from_str("nearbyBasedRouter"))
    }

    pub fn name(&self) -> (r: String)
        ensures
            r@ == router_name(),
    {
        String::from_str("nearbyBasedRouter")
    }

    pub fn init(&mut self)
        ensures
            *final(self) == *old(self),
    {
    }

    pub fn destroy(&self) {
    }

    /// The instances near the caller at `match_level`, their total weight and how many are healthy.
    pub fn select_instances(&self, local_loc: &Location, match_level: &str, instances: &ServiceInstances) -> (r: (ServiceInstances, u32))
        requires
            instance_count_ok(instances.instances@.len() as int),
        ensures
            holds_instances(
                r.0,
                instances.service@,
                spec_select(*local_loc, match_level@, instance_views(instances.instances@)),
            ),
            r.1 == spec_health_count(spec_select(*local_loc, match_level@, instance_views(instances.instances@))),
    {
        let ghost inss = instance_views(instances.instances@);
        let mut ret: Vec<Instance> = Vec::new();
        let mut total_weight: u64 = 0;
        let mut health_ins_cnt: u32 = 0;
        let mut i: usize = 0;
        while i < instances.instances.len()
            invariant
                i <= instances.instances@.len(),
                inss == instance_views(instances.instances@),
                instance_count_ok(instances.instances@.len() as int),
                instance_views(ret@) == spec_select(*local_loc, match_level@, inss.subrange(0, i as int)),
                total_weight == total_weight_of(instance_views(ret@)),
                health_ins_cnt == spec_health_count(instance_views(ret@)),
            decreases instances.instances@.len() - i,
        {
            let ins = &instances.instances[i];
            let ghost pre = inss.subrange(0, i + 1);
            assert(pre.drop_last() =~= inss.subrange(0, i as int));
            assert(pre.last() == ins@);
            proof {
                lemma_select_len(*local_loc, match_level@, pre.drop_last());
                crate::model::lemma_total_weight_bound(instance_views(ret@));
            }
            let matched = if str_equal(match_level, "campus") {
                local_loc.campus.as_str().unicode_len() == 0 || str_equal(ins.location.campus.as_str(), local_loc.campus.as_str())
            } else if str_equal(match_level, "zone") {
                local_loc.zone.as_str().unicode_len() == 0 || str_equal(ins.location.zone.as_str(), local_loc.zone.as_str())
            } else if str_equal(match_level, "region") {
                local_loc.region.as_str().unicode_len() == 0 || str_equal(ins.location.region.as_str(), local_loc.region.as_str())
            } else {
                true
            };
            if matched {
                assert((ret@.len() + 1) * (u32::MAX as int) <= (u32::MAX as int) * (u32::MAX as int)) by (nonlinear_arith)
                    requires ret@.len() + 1 <= u32::MAX;
                if ins.health {
                    health_ins_cnt = health_ins_cnt + 1;
                }
                total_weight = total_weight + ins.weight as u64;
                let ghost before = ret@;
                ret.push(ins.duplicate());
                assert(instance_views(ret@).drop_last() =~= instance_views(before));
            }
            i = i + 1;
        }
        assert(inss.subrange(0, instances.instances@.len() as int) =~= inss);
        (ServiceInstances { instances: ret, service: instances.service.duplicate(), total_weight }, health_ins_cnt)
    }

    pub fn should_degrade(&self, match_level: &str, instances: &ServiceInstances, health_cnt: u32) -> (r: bool)
        requires
            instance_count_ok(instances.instances@.len() as int),
            health_cnt <= instances.instances@.len(),
            health_cnt == spec_health_count(instance_views(instances.instances@)),
        ensures
            r == spec_should_degrade(*self, match_level@, instance_views(instances.instances@)),
    {
        if !self.enable_degrade_unhealthy_percent || str_equal(match_level, "all") {
            return false;
        }
        if instances.instances.len() == 0 {
            return true;
        }
        let n = instances.instances.len() as u32;
        let unhealthy_cnt = n - health_cnt;
        assert(unhealthy_cnt * 100 <= n * 100);
        let unhealthy_percent = unhealthy_cnt * 100 / n;
        unhealthy_percent >= self.unhealthy_percent_to_degrade as u32
    }

    /// Routes by the caller's location.
    pub fn choose_instances_with_location(&self, location: Location, instances: ServiceInstances) -> (r: Result<RouteResult, PoleError>)
        requires
            levels_known(*self),
            instance_count_ok(instances.instances@.len() as int),
        ensures
            match spec_nearby(*self, location, instance_views(instances.instances@)) {
                Some(sel) => r matches Ok(res) && res.state == RouteState::Next
                    && holds_instances(res.instances, instances.service@, sel),
                None => r matches Err(e) && e.code == ErrorCode::LocationMismatch,
            },
    {
        let ghost inss = instance_views(instances.instances@);
        let mut min_available_level = self.match_level.clone();
        if min_available_level.as_str().unicode_len() == 0 {
            min_available_level = String::from_str("zone");
        }
        let mut max_match_level = if self.strict_nearby {
            min_available_level.clone()
        } else {
            self.max_match_level.clone()
        };
        if max_match_level.as_str().unicode_len() == 0 {
            max_match_level = String::from_str("all");
        }
        assert(min_available_level@ == spec_min_level(*self));
        assert(max_match_level@ == spec_max_level(*self));
        if grater_match_level(min_available_level.as_str(), max_match_level.as_str()) {
            let (ret_ins, _health_cnt) = self.select_instances(&location, min_available_level.as_str(), &instances);
            if ret_ins.instances.len() == 0 {
                return Err(PoleError::new(ErrorCode::LocationMismatch, String::new()));
            }
            return Ok(RouteResult { instances: ret_ins, state: RouteState::Next });
        }
        let min_level_ord = level_order(min_available_level.as_str()).unwrap();
        let max_level_ord = level_order(max_match_level.as_str()).unwrap();
        let ghost lo = min_level_ord as int;
        let ghost hi = max_level_ord as int;
        let mut ret_ins: Option<ServiceInstances> = None;
        let mut cur_level = min_available_level.clone();
        let mut i: u16 = min_level_ord;
        let mut done = false;
        while i <= max_level_ord && !done
            invariant
                lo <= i <= hi + 1,
                hi <= 4,
                lo == min_level_ord,
                hi == max_level_ord,
                inss == instance_views(instances.instances@),
                instance_count_ok(instances.instances@.len() as int),
                !done ==> spec_scan(*self, location, inss, lo, hi) == combine(result_view(ret_ins), spec_scan(*self, location, inss, i as int, hi)),
                done ==> spec_scan(*self, location, inss, lo, hi) == result_view(ret_ins),
                ret_ins matches Some(s) ==> s.service@ == instances.service@ && weight_consistent(s),
            decreases hi + 1 - i + (if done { 0int } else { 1int }),
        {
            let cur_match_level = level_name(i);
            let (tmp_ins, health_cnt) = self.select_instances(&location, cur_match_level.as_str(), &instances);
            proof {
                lemma_select_len(location, cur_match_level@, inss);
            }
            cur_level = cur_match_level;
            if tmp_ins.instances.len() == 0 {
                i = i + 1;
            } else {
                let should_degrade = self.should_degrade(cur_level.as_str(), &tmp_ins, health_cnt);
                ret_ins = Some(tmp_ins);
                if !should_degrade {
                    done = true;
                } else {
                    i = i + 1;
                }
            }
        }
        match ret_ins {
            None => {
                let mut message = String::from_str("can not find any instance by level ");
                message.append(cur_level.as_str());
                Err(PoleError::new(ErrorCode::LocationMismatch, message))
            },
            Some(found) => Ok(RouteResult { instances: found, state: RouteState::Next }),
        }
    }

    /// Whether the router applies to a service: only where the service's metadata sets
    /// `internal-enable-nearby` to a value other than `true`.
    pub fn enable(&self, instances: &ServiceInstances) -> (r: bool)
        ensures
            r == match metadata_lookup(instances.service.metadata@, "internal-enable-nearby"@) {
                Some(v) => v != "true"@,
                None => false,
            },
    {
        match metadata_get(&instances.service.metadata, "internal-enable-nearby") {
            None => false,
            Some(v) => !str_equal(v.as_str(), "true"),
        }
    }
}

} // verus!
