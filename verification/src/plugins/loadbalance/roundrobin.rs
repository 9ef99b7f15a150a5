//! Smooth weighted round robin: every pick raises each instance's current weight by
//! its weight, takes the highest, and lowers the chosen one by the total weight.

use vstd::prelude::*;
use crate::keyed::{key_index, key_lookup, key_store, lemma_key_index};
use crate::model::{
    Criteria, ErrorCode, Instance, InstanceView, PoleError, ServiceInstances, instance_views,
};
use crate::text::str_equal;

verus! {

/// The name under which the balancer registers.
pub open spec fn plugin_name() -> Seq<char> {
    "weightedRoundRobin"@
}

/// Seconds of disuse after which an instance's balancing state is stale.
pub const EXPIRE_SECS: u64 = 60;

/// Balancing state of one instance.
#[derive(Clone, Copy, Debug)]
pub struct WeightedRoundRobin {
    pub cur_weight: i64,
    pub weight: u32,
    /// When the instance was last considered, in seconds.
    pub last_fetch: u64,
}

pub open spec fn spec_new_robin(weight: u32, now: u64) -> WeightedRoundRobin {
    WeightedRoundRobin { cur_weight: 0, weight, last_fetch: now }
}

/// Unused for more than a minute.
pub open spec fn spec_is_expire(r: WeightedRoundRobin, now: u64) -> bool {
    now > r.last_fetch && now - r.last_fetch > EXPIRE_SECS
}

/// The state after the instance is considered for a pick: its weight added, the time noted.
pub open spec fn spec_increase(r: WeightedRoundRobin, now: u64) -> WeightedRoundRobin {
    WeightedRoundRobin {
        cur_weight: r.cur_weight.wrapping_add(r.weight as i64),
        weight: r.weight,
        last_fetch: now,
    }
}

impl WeightedRoundRobin {
    pub fn new(weight: u32, now: u64) -> (r: WeightedRoundRobin)
        ensures
            r == spec_new_robin(weight, now),
    {
        WeightedRoundRobin { cur_weight: 0, weight, last_fetch: now }
    }

    /// Starts over with a new weight.
    pub fn reset(&mut self, weight: u32)
        ensures
            final(self).cur_weight == 0,
            final(self).weight == weight,
            final(self).last_fetch == old(self).last_fetch,
    {
        self.cur_weight = 0;
        self.weight = weight;
    }

    pub fn get_ins_weight(&self) -> (r: u32)
        ensures
            r == self.weight,
    {
        self.weight
    }

    /// Adds the weight to the current weight, wrapping as the atomic counter does; returns the sum.
    pub fn increase_cur_weight(&mut self) -> (r: i64)
        ensures
            final(self).cur_weight == old(self).cur_weight.wrapping_add(old(self).weight as i64),
            final(self).weight == old(self).weight,
            final(self).last_fetch == old(self).last_fetch,
            r == final(self).cur_weight,
    {
        self.cur_weight = self.cur_weight.wrapping_add(self.weight as i64);
        self.cur_weight
    }

    pub fn decrease_cur_weight(&mut self, weight: u32)
        ensures
            final(self).cur_weight == old(self).cur_weight.wrapping_sub(weight as i64),
            final(self).weight == old(self).weight,
            final(self).last_fetch == old(self).last_fetch,
    {
        self.cur_weight = self.cur_weight.wrapping_sub(weight as i64);
    }

    pub fn update_last_fetch(&mut self, now: u64)
        ensures
            final(self).cur_weight == old(self).cur_weight,
            final(self).weight == old(self).weight,
            final(self).last_fetch == now,
    {
        self.last_fetch = now;
    }

    pub fn is_expire(&self, now: u64) -> (r: bool)
        ensures
            r == spec_is_expire(*self, now),
    {
        now > self.last_fetch && now - self.last_fetch > EXPIRE_SECS
    }
}

/// Balancing state of one instance, under its id.
pub struct RobinEntry {
    id: String,
    robin: WeightedRoundRobin,
}

pub closed spec fn robin_views(s: Seq<RobinEntry>) -> Seq<(Seq<char>, WeightedRoundRobin)> {
    s.map_values(|e: RobinEntry| (e.id@, e.robin))
}

/// Balancing state of the instances of one service.
pub struct WeightedRoundRobins {
    round_robins: Vec<RobinEntry>,
}

impl View for WeightedRoundRobins {
    type V = Seq<(Seq<char>, WeightedRoundRobin)>;

    closed spec fn view(&self) -> Seq<(Seq<char>, WeightedRoundRobin)> {
        robin_views(self.round_robins@)
    }
}

/// The state after one instance is taken in: new instances start afresh, and a changed
/// weight starts its instance over.
pub open spec fn spec_sync_one(
    s: Seq<(Seq<char>, WeightedRoundRobin)>,
    ins: InstanceView,
    now: u64,
) -> Seq<(Seq<char>, WeightedRoundRobin)> {
    match key_index(s, ins.id) {
        None => s.push((ins.id, spec_new_robin(ins.weight, now))),
        Some(j) => if s[j].1.weight != ins.weight {
            s.update(j, (ins.id, WeightedRoundRobin { cur_weight: 0, weight: ins.weight, last_fetch: s[j].1.last_fetch }))
        } else {
            s
        },
    }
}

/// The state after every instance is taken in, in order.
pub open spec fn spec_sync(
    s: Seq<(Seq<char>, WeightedRoundRobin)>,
    inss: Seq<InstanceView>,
    now: u64,
) -> Seq<(Seq<char>, WeightedRoundRobin)>
    decreases inss.len(),
{
    if inss.len() == 0 {
        s
    } else {
        spec_sync_one(spec_sync(s, inss.drop_last(), now), inss.last(), now)
    }
}

/// Whether the kept state of one instance is stale.
pub open spec fn expired_at(s: Seq<(Seq<char>, WeightedRoundRobin)>, id: Seq<char>, now: u64) -> bool {
    match key_index(s, id) {
        Some(j) => spec_is_expire(s[j].1, now),
        None => false,
    }
}

/// Whether the kept state of any of the instances is stale.
pub open spec fn any_expired(s: Seq<(Seq<char>, WeightedRoundRobin)>, inss: Seq<InstanceView>, now: u64) -> bool {
    exists|k: int| 0 <= k < inss.len() && #[trigger] expired_at(s, inss[k].id, now)
}

/// The state a pick starts from: the kept state brought up to date with the instances, or
/// fresh state where none is kept or some of it is stale.
pub open spec fn spec_prepare(
    kept: Option<Seq<(Seq<char>, WeightedRoundRobin)>>,
    inss: Seq<InstanceView>,
    now: u64,
) -> Seq<(Seq<char>, WeightedRoundRobin)> {
    match kept {
        None => spec_sync(Seq::empty(), inss, now),
        Some(s) => if any_expired(s, inss, now) {
            spec_sync(Seq::empty(), inss, now)
        } else {
            spec_sync(s, inss, now)
        },
    }
}

/// Raises each instance's current weight in order, keeping the first instance whose raised
/// weight is the highest: the new state, that instance's position (or -1), and its weight.
pub open spec fn spec_round(
    s: Seq<(Seq<char>, WeightedRoundRobin)>,
    inss: Seq<InstanceView>,
    now: u64,
) -> (Seq<(Seq<char>, WeightedRoundRobin)>, int, i64)
    decreases inss.len(),
{
    if inss.len() == 0 {
        (s, -1, i64::MIN)
    } else {
        let prev = spec_round(s, inss.drop_last(), now);
        let id = inss.last().id;
        match key_index(prev.0, id) {
            Some(j) => {
                let r = spec_increase(prev.0[j].1, now);
                let s2 = prev.0.update(j, (id, r));
                if r.cur_weight > prev.2 {
                    (s2, inss.len() - 1, r.cur_weight)
                } else {
                    (s2, prev.1, prev.2)
                }
            },
            None => prev,
        }
    }
}

/// The state after the chosen instance's current weight is lowered by the total weight.
pub open spec fn spec_settle(
    s: Seq<(Seq<char>, WeightedRoundRobin)>,
    id: Seq<char>,
    total: u64,
) -> Seq<(Seq<char>, WeightedRoundRobin)> {
    match key_index(s, id) {
        Some(j) => s.update(j, (id, WeightedRoundRobin {
            cur_weight: s[j].1.cur_weight.wrapping_sub((total as u32) as i64),
            weight: s[j].1.weight,
            last_fetch: s[j].1.last_fetch,
        })),
        None => s,
    }
}

/// One pick for a service: the service's state afterwards and the chosen position, if any.
pub open spec fn spec_pick(
    kept: Option<Seq<(Seq<char>, WeightedRoundRobin)>>,
    inss: Seq<InstanceView>,
    total: u64,
    now: u64,
) -> (Seq<(Seq<char>, WeightedRoundRobin)>, int) {
    let rd = spec_round(spec_prepare(kept, inss, now), inss, now);
    if rd.1 >= 0 {
        (spec_settle(rd.0, inss[rd.1].id, total), rd.1)
    } else {
        (rd.0, -1)
    }
}

/// Makes weighted round robin balancers.
pub struct BalancerSupplier;

impl BalancerSupplier {
    pub fn create(&self) -> (r: WeightedRoundRobinBalancer)
        ensures
            r@.len() == 0,
    {
        new_instance()
    }
}

/// The balancing state of one service.
pub struct ServiceRobins {
    key: String,
    robins: WeightedRoundRobins,
}

/// Weighted round robin over the instances of each service.
pub struct WeightedRoundRobinBalancer {
    round_robin_cache: Vec<ServiceRobins>,
}

impl View for WeightedRoundRobinBalancer {
    type V = Seq<(Seq<char>, Seq<(Seq<char>, WeightedRoundRobin)>)>;

    closed spec fn view(&self) -> Seq<(Seq<char>, Seq<(Seq<char>, WeightedRoundRobin)>)> {
        self.round_robin_cache@.map_values(|e: ServiceRobins| (e.key@, e.robins@))
    }
}

pub fn new_instance() -> (r: WeightedRoundRobinBalancer)
    ensures
        r@.len() == 0,
{
    let r = WeightedRoundRobinBalancer { round_robin_cache: Vec::new() };
    assert(r@ =~= Seq::<(Seq<char>, Seq<(Seq<char>, WeightedRoundRobin)>)>::empty());
    r
}

impl WeightedRoundRobins {
    /// Fresh state for the instances.
    pub fn new(instances: &Vec<Instance>, now: u64) -> (r: WeightedRoundRobins)
        ensures
            r@ == spec_sync(Seq::empty(), instance_views(instances@), now),
    {
        let mut r = WeightedRoundRobins { round_robins: Vec::new() };
        assert(r@ =~= Seq::<(Seq<char>, WeightedRoundRobin)>::empty());
        r.sync(instances, now);
        r
    }

    fn find(&self, id: &str) -> (r: Option<usize>)
        ensures
            match r {
                Some(j) => key_index(self@, id@) == Some(j as int),
                None => key_index(self@, id@).is_none(),
            },
    {
        let mut i: usize = self.round_robins.len();
        let ghost all = self@;
        assert(all.subrange(0, all.len() as int) =~= all);
        while i > 0
            invariant
                i <= self.round_robins@.len(),
                all == self@,
                all.len() == self.round_robins@.len(),
                key_index(all, id@) == key_index(all.subrange(0, i as int), id@),
            decreases i,
        {
            let ghost pre = all.subrange(0, i as int);
            assert(pre.drop_last() =~= all.subrange(0, i - 1));
            if str_equal(self.round_robins[i - 1].id.as_str(), id) {
                return Some(i - 1);
            }
            i = i - 1;
        }
        None
    }

    fn set_robin(&mut self, j: usize, robin: WeightedRoundRobin)
        requires
            j < old(self)@.len(),
        ensures
            final(self)@ == old(self)@.update(j as int, (old(self)@[j as int].0, robin)),
    {
        let ghost before = self@;
        let mut e = self.round_robins.remove(j);
        e.robin = robin;
        self.round_robins.insert(j, e);
        assert(self@ =~= before.update(j as int, (before[j as int].0, robin)));
    }

    fn robin_at(&self, j: usize) -> (r: WeightedRoundRobin)
        requires
            j < self@.len(),
        ensures
            r == self@[j as int].1,
    {
        self.round_robins[j].robin
    }

    /// Takes the instances in, in order.
    fn sync(&mut self, instances: &Vec<Instance>, now: u64)
        ensures
            final(self)@ == spec_sync(old(self)@, instance_views(instances@), now),
    {
        let ghost start = self@;
        let ghost inss = instance_views(instances@);
        let mut i: usize = 0;
        assert(inss.subrange(0, 0) =~= Seq::<InstanceView>::empty());
        while i < instances.len()
            invariant
                i <= instances@.len(),
                inss == instance_views(instances@),
                self@ == spec_sync(start, inss.subrange(0, i as int), now),
            decreases instances@.len() - i,
        {
            let ins = &instances[i];
            assert(inss.subrange(0, i + 1).drop_last() =~= inss.subrange(0, i as int));
            assert(inss.subrange(0, i + 1).last() == ins@);
            let ghost before = self@;
            proof {
                lemma_key_index(before, ins.id@);
            }
            match self.find(ins.id.as_str()) {
                None => {
                    self.round_robins.push(RobinEntry {
                        id: ins.id.clone(),
                        robin: WeightedRoundRobin::new(ins.weight, now),
                    });
                    assert(self@ =~= before.push((ins@.id, spec_new_robin(ins.weight, now))));
                },
                Some(j) => {
                    let mut r = self.robin_at(j);
                    if r.get_ins_weight() != ins.weight {
                        r.reset(ins.weight);
                        self.set_robin(j, r);
                    }
                },
            }
            i = i + 1;
        }
        assert(inss.subrange(0, instances@.len() as int) =~= inss);
    }

    /// Whether the kept state of any of the instances is stale.
    fn any_expired(&self, instances: &Vec<Instance>, now: u64) -> (r: bool)
        ensures
            r == any_expired(self@, instance_views(instances@), now),
    {
        let ghost inss = instance_views(instances@);
        let mut i: usize = 0;
        while i < instances.len()
            invariant
                i <= instances@.len(),
                inss == instance_views(instances@),
                forall|k: int| 0 <= k < i ==> !#[trigger] expired_at(self@, inss[k].id, now),
            decreases instances@.len() - i,
        {
            assert(inss[i as int] == instances@[i as int]@);
            proof {
                lemma_key_index(self@, inss[i as int].id);
            }
            match self.find(instances[i].id.as_str()) {
                Some(j) => {
                    if self.robin_at(j).is_expire(now) {
                        assert(expired_at(self@, inss[i as int].id, now));
                        return true;
                    }
                },
                None => {},
            }
            i = i + 1;
        }
        false
    }

    /// Raises every instance's current weight in order; gives the position of the first
    /// instance with the highest raised weight, if any is above the lowest `i64`.
    fn round(&mut self, instances: &Vec<Instance>, now: u64) -> (r: Option<usize>)
        ensures
            ({
                let rd = spec_round(old(self)@, instance_views(instances@), now);
                &&& final(self)@ == rd.0
                &&& match r {
                    Some(b) => rd.1 == b as int && b < instances@.len(),
                    None => rd.1 == -1,
                }
            }),
    {
        let ghost start = self@;
        let ghost inss = instance_views(instances@);
        let mut best: Option<usize> = None;
        let mut max_weight: i64 = i64::MIN;
        let mut i: usize = 0;
        assert(inss.subrange(0, 0) =~= Seq::<InstanceView>::empty());
        while i < instances.len()
            invariant
                i <= instances@.len(),
                inss == instance_views(instances@),
                ({
                    let rd = spec_round(start, inss.subrange(0, i as int), now);
                    &&& self@ == rd.0
                    &&& rd.2 == max_weight
                    &&& match best {
                        Some(b) => rd.1 == b as int && b < i,
                        None => rd.1 == -1,
                    }
                }),
            decreases instances@.len() - i,
        {
            let ins = &instances[i];
            assert(inss.subrange(0, i + 1).drop_last() =~= inss.subrange(0, i as int));
            assert(inss.subrange(0, i + 1).last() == ins@);
            proof {
                lemma_key_index(self@, ins.id@);
            }
            match self.find(ins.id.as_str()) {
                Some(j) => {
                    let mut r = self.robin_at(j);
                    let cur_weight = r.increase_cur_weight();
                    r.update_last_fetch(now);
                    self.set_robin(j, r);
                    if cur_weight > max_weight {
                        max_weight = cur_weight;
                        best = Some(i);
                    }
                },
                None => {},
            }
            i = i + 1;
        }
        assert(inss.subrange(0, instances@.len() as int) =~= inss);
        best
    }

    /// Lowers the chosen instance's current weight by the total weight, cut to 32 bits.
    fn settle(&mut self, id: &str, total: u64)
        ensures
            final(self)@ == spec_settle(old(self)@, id@, total),
    {
        proof {
            lemma_key_index(self@, id@);
        }
        match self.find(id) {
            Some(j) => {
                let mut r = self.robin_at(j);
                r.decrease_cur_weight(total as u32);
                self.set_robin(j, r);
            },
            None => {},
        }
    }
}

impl WeightedRoundRobinBalancer {
    pub fn builder() -> (r: (BalancerSupplier, String))
        ensures
            r.1@ == plugin_name(),
    {
        (BalancerSupplier, String::from_str("weightedRoundRobin"))
    }

    pub fn name(&self) -> (r: String)
        ensures
            r@ == plugin_name(),
    {
        String::from_str("weightedRoundRobin")
    }

    pub fn init(&mut self)
        ensures
            final(self)@ == old(self)@,
    {
    }

    pub fn destroy(&self) {
    }

    fn find(&self, key: &str) -> (r: Option<usize>)
        ensures
            match r {
                Some(j) => key_index(self@, key@) == Some(j as int),
                None => key_index(self@, key@).is_none(),
            },
    {
        let mut i: usize = self.round_robin_cache.len();
        let ghost all = self@;
        assert(all.subrange(0, all.len() as int) =~= all);
        while i > 0
            invariant
                i <= self.round_robin_cache@.len(),
                all == self@,
                all.len() == self.round_robin_cache@.len(),
                key_index(all, key@) == key_index(all.subrange(0, i as int), key@),
            decreases i,
        {
            let ghost pre = all.subrange(0, i as int);
            assert(pre.drop_last() =~= all.subrange(0, i - 1));
            if str_equal(self.round_robin_cache[i - 1].key.as_str(), key) {
                return Some(i - 1);
            }
            i = i - 1;
        }
        None
    }

    /// Chooses an instance of the service at time `now` (seconds). Fails when the service has
    /// no instance or a total weight of 0, and when no instance's raised current weight is
    /// above the lowest `i64`.
    pub fn choose_instance(
        &mut self,
        _criteria: Criteria,
        instances: ServiceInstances,
        now: u64,
    ) -> (r: Result<Instance, PoleError>)
        ensures
            ({
                let inss = instance_views(instances.instances@);
                let key = ServiceInstances::spec_cache_key(instances.service@);
                let p = spec_pick(key_lookup(old(self)@, key), inss, instances.total_weight, now);
                if inss.len() == 0 || instances.total_weight == 0 {
                    &&& final(self)@ == old(self)@
                    &&& r is Err
                    &&& r->Err_0.code == ErrorCode::InstanceInfoError
                } else {
                    &&& final(self)@ == key_store(old(self)@, key, p.0)
                    &&& match r {
                        Ok(ins) => 0 <= p.1 < inss.len() && ins@ == inss[p.1],
                        Err(e) => p.1 == -1 && e.code == ErrorCode::InternalError,
                    }
                }
            }),
    {
        if instances.instances.len() == 0 || instances.get_total_weight() == 0 {
            return Err(PoleError::new(
                ErrorCode::InstanceInfoError,
                String::from_str("instances is empty or total weight is 0"),
            ));
        }
        let ghost inss = instance_views(instances.instances@);
        let key = instances.get_cache_key();
        let ghost old_view = self@;
        proof {
            lemma_key_index(old_view, key@);
        }
        let found = self.find(key.as_str());
        let mut robins = match found {
            Some(idx) => {
                let entry = self.round_robin_cache.remove(idx);
                let mut robins = entry.robins;
                assert(robins@ == old_view[idx as int].1);
                if robins.any_expired(&instances.instances, now) {
                    WeightedRoundRobins::new(&instances.instances, now)
                } else {
                    robins.sync(&instances.instances, now);
                    robins
                }
            },
            None => WeightedRoundRobins::new(&instances.instances, now),
        };
        assert(robins@ == spec_prepare(key_lookup(old_view, key@), inss, now));
        let best = robins.round(&instances.instances, now);
        let result = match best {
            Some(b) => {
                assert(inss[b as int] == instances.instances@[b as int]@);
                robins.settle(instances.instances[b].id.as_str(), instances.get_total_weight());
                Ok(instances.instances[b].duplicate())
            },
            None => Err(PoleError::new(
                ErrorCode::InternalError,
                String::from_str("no instance could be selected"),
            )),
        };
        let ghost new_robins = robins@;
        match found {
            Some(idx) => {
                self.round_robin_cache.insert(idx, ServiceRobins { key, robins });
                assert(self@ =~= old_view.update(idx as int, (key@, new_robins)));
            },
            None => {
                self.round_robin_cache.push(ServiceRobins { key, robins });
                assert(self@ =~= old_view.push((key@, new_robins)));
            },
        }
        result
    }
}

/// The picks of consecutive calls for one service, each at its time: the state kept
/// afterwards and the chosen positions.
pub open spec fn spec_picks(
    kept: Option<Seq<(Seq<char>, WeightedRoundRobin)>>,
    inss: Seq<InstanceView>,
    total: u64,
    times: Seq<u64>,
) -> (Option<Seq<(Seq<char>, WeightedRoundRobin)>>, Seq<int>)
    decreases times.len(),
{
    if times.len() == 0 {
        (kept, Seq::empty())
    } else {
        let prev = spec_picks(kept, inss, total, times.drop_last());
        let p = spec_pick(prev.0, inss, total, times.last());
        (Some(p.0), prev.1.push(p.1))
    }
}

/// How often position `k` occurs among the picks.
pub open spec fn pick_count(picks: Seq<int>, k: int) -> int
    decreases picks.len(),
{
    if picks.len() == 0 {
        0
    } else {
        pick_count(picks.drop_last(), k) + if picks.last() == k { 1int } else { 0int }
    }
}

/// The sum of the instances' weights.
pub open spec fn weight_total(inss: Seq<InstanceView>) -> int
    decreases inss.len(),
{
    if inss.len() == 0 {
        0
    } else {
        weight_total(inss.drop_last()) + inss.last().weight
    }
}

/// No two instances share an id.
pub open spec fn ids_distinct(inss: Seq<InstanceView>) -> bool {
    forall|i: int, j: int| 0 <= i < j < inss.len() ==> (#[trigger] inss[i]).id != (#[trigger] inss[j]).id
}

spec fn aligned(s: Seq<(Seq<char>, WeightedRoundRobin)>, inss: Seq<InstanceView>) -> bool {
    &&& s.len() == inss.len()
    &&& forall|k: int| 0 <= k < s.len() ==> (#[trigger] s[k]).0 == inss[k].id && s[k].1.weight == inss[k].weight
}

spec fn cur_sum(s: Seq<(Seq<char>, WeightedRoundRobin)>) -> int
    decreases s.len(),
{
    if s.len() == 0 {
        0
    } else {
        cur_sum(s.drop_last()) + s.last().1.cur_weight
    }
}

proof fn lemma_cur_sum_update(s: Seq<(Seq<char>, WeightedRoundRobin)>, j: int, v: (Seq<char>, WeightedRoundRobin))
    requires
        0 <= j < s.len(),
    ensures
        cur_sum(s.update(j, v)) == cur_sum(s) - s[j].1.cur_weight + v.1.cur_weight,
    decreases s.len(),
{
    if j < s.len() - 1 {
        assert(s.update(j, v).drop_last() =~= s.drop_last().update(j, v));
        lemma_cur_sum_update(s.drop_last(), j, v);
    } else {
        assert(s.update(j, v).drop_last() =~= s.drop_last());
    }
}

proof fn lemma_cur_sum_positive(s: Seq<(Seq<char>, WeightedRoundRobin)>)
    requires
        cur_sum(s) > 0,
    ensures
        exists|k: int| 0 <= k < s.len() && (#[trigger] s[k]).1.cur_weight > 0,
    decreases s.len(),
{
    if s.last().1.cur_weight > 0 {
        assert(s[s.len() - 1].1.cur_weight > 0);
    } else {
        lemma_cur_sum_positive(s.drop_last());
        let k = choose|k: int| 0 <= k < s.drop_last().len() && (#[trigger] s.drop_last()[k]).1.cur_weight > 0;
        assert(s[k] == s.drop_last()[k]);
    }
}

proof fn lemma_cur_sum_nonneg(s: Seq<(Seq<char>, WeightedRoundRobin)>)
    requires
        forall|k: int| 0 <= k < s.len() ==> (#[trigger] s[k]).1.cur_weight >= 0,
    ensures
        cur_sum(s) >= 0,
        cur_sum(s) == 0 ==> forall|k: int| 0 <= k < s.len() ==> (#[trigger] s[k]).1.cur_weight == 0,
    decreases s.len(),
{
    if s.len() > 0 {
        let d = s.drop_last();
        assert forall|k: int| 0 <= k < d.len() implies (#[trigger] d[k]).1.cur_weight >= 0 by {
            assert(d[k] == s[k]);
        }
        lemma_cur_sum_nonneg(d);
        assert(s[s.len() - 1].1.cur_weight >= 0);
        if cur_sum(s) == 0 {
            assert forall|k: int| 0 <= k < s.len() implies (#[trigger] s[k]).1.cur_weight == 0 by {
                if k < s.len() - 1 {
                    assert(d[k] == s[k]);
                }
            }
        }
    }
}

proof fn lemma_cur_sum_zero(s: Seq<(Seq<char>, WeightedRoundRobin)>)
    requires
        forall|k: int| 0 <= k < s.len() ==> (#[trigger] s[k]).1.cur_weight == 0,
    ensures
        cur_sum(s) == 0,
    decreases s.len(),
{
    if s.len() > 0 {
        let d = s.drop_last();
        assert forall|k: int| 0 <= k < d.len() implies (#[trigger] d[k]).1.cur_weight == 0 by {
            assert(d[k] == s[k]);
        }
        lemma_cur_sum_zero(d);
        assert(s[s.len() - 1].1.cur_weight == 0);
    }
}

proof fn lemma_cur_sum_lower(s: Seq<(Seq<char>, WeightedRoundRobin)>, lo: int)
    requires
        forall|j: int| 0 <= j < s.len() ==> (#[trigger] s[j]).1.cur_weight >= lo,
    ensures
        cur_sum(s) >= s.len() * lo,
    decreases s.len(),
{
    if s.len() > 0 {
        let d = s.drop_last();
        assert forall|j: int| 0 <= j < d.len() implies (#[trigger] d[j]).1.cur_weight >= lo by {
            assert(d[j] == s[j]);
        }
        lemma_cur_sum_lower(d, lo);
        assert(s[s.len() - 1].1.cur_weight >= lo);
        let m = d.len() as int;
        assert((m + 1) * lo == m * lo + lo) by (nonlinear_arith);
    }
}

/// With every current weight at least `lo`, the sum is at least one weight plus `lo` for
/// each of the others.
proof fn lemma_cur_sum_other_bound(s: Seq<(Seq<char>, WeightedRoundRobin)>, k: int, lo: int)
    requires
        0 <= k < s.len(),
        forall|j: int| 0 <= j < s.len() ==> (#[trigger] s[j]).1.cur_weight >= lo,
    ensures
        cur_sum(s) >= s[k].1.cur_weight + (s.len() - 1) * lo,
    decreases s.len(),
{
    let d = s.drop_last();
    assert forall|j: int| 0 <= j < d.len() implies (#[trigger] d[j]).1.cur_weight >= lo by {
        assert(d[j] == s[j]);
    }
    if k == s.len() - 1 {
        lemma_cur_sum_lower(d, lo);
    } else {
        lemma_cur_sum_other_bound(d, k, lo);
        assert(d[k] == s[k]);
        assert(s[s.len() - 1].1.cur_weight >= lo);
        let m = d.len() as int;
        assert((m - 1) * lo + lo == m * lo) by (nonlinear_arith);
    }
}

proof fn lemma_weight_below_total(inss: Seq<InstanceView>, k: int)
    requires
        0 <= k < inss.len(),
    ensures
        inss[k].weight <= weight_total(inss),
        weight_total(inss) >= 0,
    decreases inss.len(),
{
    lemma_weight_total_nonneg(inss.drop_last());
    if k < inss.len() - 1 {
        assert(inss.drop_last()[k] == inss[k]);
        lemma_weight_below_total(inss.drop_last(), k);
    }
}

proof fn lemma_weight_total_nonneg(inss: Seq<InstanceView>)
    ensures
        weight_total(inss) >= 0,
    decreases inss.len(),
{
    if inss.len() > 0 {
        lemma_weight_total_nonneg(inss.drop_last());
    }
}

proof fn lemma_index_of_id(s: Seq<(Seq<char>, WeightedRoundRobin)>, inss: Seq<InstanceView>, k: int)
    requires
        ids_distinct(inss),
        s.len() == inss.len(),
        forall|i: int| 0 <= i < s.len() ==> (#[trigger] s[i]).0 == inss[i].id,
        0 <= k < inss.len(),
    ensures
        key_index(s, inss[k].id) == Some(k),
{
    lemma_key_index(s, inss[k].id);
    match key_index(s, inss[k].id) {
        Some(i) => {
            assert(s[i].0 == inss[i].id);
            if i < k {
                assert(inss[i].id != inss[k].id);
            } else if i > k {
                assert(inss[k].id != inss[i].id);
            }
        },
        None => {
            assert(s[k].0 == inss[k].id);
        },
    }
}

proof fn lemma_sync_fresh(inss: Seq<InstanceView>, now: u64, q: int)
    requires
        ids_distinct(inss),
        0 <= q <= inss.len(),
    ensures
        spec_sync(Seq::empty(), inss.take(q), now)
            == Seq::new(q as nat, |k: int| (inss[k].id, spec_new_robin(inss[k].weight, now))),
    decreases q,
{
    let fresh = Seq::new(q as nat, |k: int| (inss[k].id, spec_new_robin(inss[k].weight, now)));
    if q == 0 {
        assert(fresh =~= Seq::<(Seq<char>, WeightedRoundRobin)>::empty());
    } else {
        lemma_sync_fresh(inss, now, q - 1);
        assert(inss.take(q).drop_last() =~= inss.take(q - 1));
        let prev = Seq::new((q - 1) as nat, |k: int| (inss[k].id, spec_new_robin(inss[k].weight, now)));
        lemma_key_index(prev, inss[q - 1].id);
        if key_index(prev, inss[q - 1].id) is Some {
            let i = key_index(prev, inss[q - 1].id)->0;
            assert(prev[i].0 == inss[i].id);
            assert(inss[i].id != inss[q - 1].id);
        }
        assert(prev.push((inss[q - 1].id, spec_new_robin(inss[q - 1].weight, now))) =~= fresh);
    }
}

proof fn lemma_sync_same(s: Seq<(Seq<char>, WeightedRoundRobin)>, inss: Seq<InstanceView>, now: u64, q: int)
    requires
        ids_distinct(inss),
        aligned(s, inss),
        0 <= q <= inss.len(),
    ensures
        spec_sync(s, inss.take(q), now) == s,
    decreases q,
{
    if q > 0 {
        lemma_sync_same(s, inss, now, q - 1);
        assert(inss.take(q).drop_last() =~= inss.take(q - 1));
        lemma_index_of_id(s, inss, q - 1);
    }
}

proof fn lemma_round(
    p: Seq<(Seq<char>, WeightedRoundRobin)>,
    inss: Seq<InstanceView>,
    now: u64,
    q: int,
)
    requires
        ids_distinct(inss),
        aligned(p, inss),
        forall|k: int| 0 <= k < p.len() ==> i64::MIN < (#[trigger] p[k]).1.cur_weight + p[k].1.weight <= i64::MAX,
        0 <= q <= inss.len(),
    ensures
        ({
            let rd = spec_round(p, inss.take(q), now);
            &&& aligned(rd.0, inss)
            &&& forall|k: int| 0 <= k < q ==> (#[trigger] rd.0[k]).1.cur_weight == p[k].1.cur_weight + p[k].1.weight
                && rd.0[k].1.last_fetch == now
            &&& forall|k: int| q <= k < inss.len() ==> #[trigger] rd.0[k] == p[k]
            &&& cur_sum(rd.0) == cur_sum(p) + weight_total(inss.take(q))
            &&& q == 0 ==> rd.1 == -1 && rd.2 == i64::MIN
            &&& q > 0 ==> 0 <= rd.1 < q && rd.2 == rd.0[rd.1].1.cur_weight
                && forall|k: int| 0 <= k < q ==> (#[trigger] rd.0[k]).1.cur_weight <= rd.2
        }),
    decreases q,
{
    if q > 0 {
        lemma_round(p, inss, now, q - 1);
        let x = inss.take(q);
        assert(x.drop_last() =~= inss.take(q - 1));
        assert(x.last() == inss[q - 1]);
        let prev = spec_round(p, inss.take(q - 1), now);
        lemma_index_of_id(prev.0, inss, q - 1);
        let j = q - 1;
        let r = spec_increase(prev.0[j].1, now);
        assert(prev.0[j] == p[j]);
        lemma_cur_sum_update(prev.0, j, (inss[j].id, r));
        let s2 = prev.0.update(j, (inss[j].id, r));
        assert forall|k: int| 0 <= k < s2.len() implies (#[trigger] s2[k]).0 == inss[k].id && s2[k].1.weight == inss[k].weight by {
            assert(prev.0[k].0 == inss[k].id);
        }
    } else {
        assert(inss.take(0).len() == 0);
    }
}

/// The state of one service after `t` picks: aligned with the instances, each current
/// weight `t` times its weight less the total for each time it was chosen, summing to zero,
/// each above minus the total, and every instance considered at the last pick's time.
spec fn cycle_state(
    s: Seq<(Seq<char>, WeightedRoundRobin)>,
    inss: Seq<InstanceView>,
    picks: Seq<int>,
    last: u64,
) -> bool {
    let w = weight_total(inss);
    &&& aligned(s, inss)
    &&& cur_sum(s) == 0
    &&& forall|k: int| 0 <= k < s.len() ==> (#[trigger] s[k]).1.cur_weight
        == picks.len() * inss[k].weight - w * pick_count(picks, k)
        && s[k].1.cur_weight > -w
        && s[k].1.last_fetch == last
}

proof fn lemma_pick_count_nonneg(picks: Seq<int>, k: int)
    ensures
        pick_count(picks, k) >= 0,
    decreases picks.len(),
{
    if picks.len() > 0 {
        lemma_pick_count_nonneg(picks.drop_last(), k);
    }
}

proof fn lemma_cycle(inss: Seq<InstanceView>, times: Seq<u64>)
    requires
        inss.len() > 0,
        ids_distinct(inss),
        0 < weight_total(inss) <= u32::MAX,
        (inss.len() - 1) * (weight_total(inss) - 1) + weight_total(inss) <= i64::MAX,
        times.len() <= weight_total(inss),
        forall|t: int| 0 <= t < times.len() - 1 ==> times[t + 1] <= #[trigger] times[t] + EXPIRE_SECS,
    ensures
        ({
            let r = spec_picks(None, inss, weight_total(inss) as u64, times);
            &&& r.1.len() == times.len()
            &&& times.len() == 0 ==> r.0 is None
            &&& times.len() > 0 ==> r.0 is Some && cycle_state(r.0->0, inss, r.1, times.last())
        }),
    decreases times.len(),
{
    let w = weight_total(inss);
    let total = w as u64;
    let n = inss.len() as int;
    if times.len() > 0 {
        let d = times.drop_last();
        assert forall|t: int| 0 <= t < d.len() - 1 implies d[t + 1] <= #[trigger] d[t] + EXPIRE_SECS by {
            assert(d[t] == times[t] && d[t + 1] == times[t + 1]);
        }
        lemma_cycle(inss, d);
        let prev = spec_picks(None, inss, total, d);
        let now = times.last();
        let tp = d.len() as int;
        // The state the pick starts from.
        let start = spec_prepare(prev.0, inss, now);
        assert(inss.take(n) =~= inss);
        if tp == 0 {
            lemma_sync_fresh(inss, now, n);
            assert(aligned(start, inss));
        } else {
            let s = prev.0->0;
            assert(d.last() == times[tp - 1]);
            assert(now <= d.last() + EXPIRE_SECS) by {
                assert(times[tp] <= times[tp - 1] + EXPIRE_SECS);
            }
            assert forall|k: int| 0 <= k < inss.len() implies !(#[trigger] expired_at(s, inss[k].id, now)) by {
                lemma_index_of_id(s, inss, k);
            }
            lemma_sync_same(s, inss, now, n);
        }
        // Every current weight the pick starts from, with the count so far.
        assert forall|k: int| 0 <= k < n implies (#[trigger] start[k]).1.cur_weight
            == tp * inss[k].weight - w * pick_count(prev.1, k)
            && start[k].1.cur_weight > -w by {
            if tp == 0 {
                assert(start[k].1.cur_weight == 0);
                assert(pick_count(prev.1, k) == 0);
            }
        }
        assert(cur_sum(start) == 0) by {
            if tp == 0 {
                lemma_cur_sum_zero(start);
            }
        }
        assert forall|k: int| 0 <= k < start.len() implies i64::MIN < (#[trigger] start[k]).1.cur_weight + start[k].1.weight <= i64::MAX by {
            lemma_weight_below_total(inss, k);
            let wk = inss[k].weight as int;
            let ck = start[k].1.cur_weight as int;
            assert forall|j: int| 0 <= j < start.len() implies (#[trigger] start[j]).1.cur_weight >= 1 - w by {}
            lemma_cur_sum_other_bound(start, k, 1 - w);
            assert(ck <= (n - 1) * (w - 1)) by (nonlinear_arith)
                requires 0 >= ck + (n - 1) * (1 - w);
            assert(ck + wk <= (n - 1) * (w - 1) + w);
        }
        lemma_round(start, inss, now, n);
        let rd = spec_round(start, inss, now);
        assert(cur_sum(rd.0) == w);
        lemma_cur_sum_positive(rd.0);
        let m = rd.1;
        assert(0 <= m < n);
        let raised = rd.0[m].1;
        assert(raised.cur_weight > 0) by {
            let k = choose|k: int| 0 <= k < rd.0.len() && (#[trigger] rd.0[k]).1.cur_weight > 0;
            assert(rd.0[k].1.cur_weight <= rd.2);
        }
        lemma_index_of_id(rd.0, inss, m);
        assert((total as u32) as i64 == w);
        let settled = WeightedRoundRobin {
            cur_weight: raised.cur_weight.wrapping_sub((total as u32) as i64),
            weight: raised.weight,
            last_fetch: raised.last_fetch,
        };
        assert(settled.cur_weight == raised.cur_weight - w);
        let fin = rd.0.update(m, (inss[m].id, settled));
        assert(spec_pick(prev.0, inss, total, now) == (fin, m));
        lemma_cur_sum_update(rd.0, m, (inss[m].id, settled));
        let picks = prev.1.push(m);
        assert(picks.drop_last() =~= prev.1);
        assert forall|k: int| 0 <= k < fin.len() implies (#[trigger] fin[k]).1.cur_weight
            == picks.len() * inss[k].weight - w * pick_count(picks, k)
            && fin[k].1.cur_weight > -w
            && fin[k].1.last_fetch == now by {
            let wk = inss[k].weight as int;
            let c = pick_count(prev.1, k);
            assert((tp + 1) * wk == tp * wk + wk) by (nonlinear_arith);
            assert(w * (c + 1) == w * c + w) by (nonlinear_arith);
            assert(rd.0[k].1.cur_weight == start[k].1.cur_weight + wk);
            if k != m {
                assert(fin[k] == rd.0[k]);
                assert(wk >= 0);
            }
        }
        assert(aligned(fin, inss)) by {
            assert forall|k: int| 0 <= k < fin.len() implies (#[trigger] fin[k]).0 == inss[k].id && fin[k].1.weight == inss[k].weight by {
                assert(rd.0[k].0 == inss[k].id);
            }
        }
    }
}

/// Over one full cycle (as many picks as the weights add up to) a fresh balancer chooses
/// every instance exactly as often as its weight, so an instance of weight zero never, when
/// the instance ids are distinct and no pick comes more than a minute after the one before.
/// The instances and total are bounded so that no current weight can wrap.
pub proof fn law_full_cycle_picks_each_by_weight(inss: Seq<InstanceView>, times: Seq<u64>)
    requires
        inss.len() > 0,
        ids_distinct(inss),
        0 < weight_total(inss) <= u32::MAX,
        (inss.len() - 1) * (weight_total(inss) - 1) + weight_total(inss) <= i64::MAX,
        times.len() == weight_total(inss),
        forall|t: int| 0 <= t < times.len() - 1 ==> times[t + 1] <= #[trigger] times[t] + EXPIRE_SECS,
    ensures
        forall|k: int| 0 <= k < inss.len() ==>
            #[trigger] pick_count(spec_picks(None, inss, weight_total(inss) as u64, times).1, k) == inss[k].weight,
{
    let w = weight_total(inss);
    lemma_cycle(inss, times);
    let r = spec_picks(None, inss, w as u64, times);
    let s = r.0->0;
    assert forall|k: int| 0 <= k < s.len() implies (#[trigger] s[k]).1.cur_weight >= 0 by {
        let x = inss[k].weight - pick_count(r.1, k);
        assert(s[k].1.cur_weight == w * x) by (nonlinear_arith)
            requires s[k].1.cur_weight == w * inss[k].weight - w * pick_count(r.1, k), x == inss[k].weight - pick_count(r.1, k);
        assert(x >= 0) by (nonlinear_arith)
            requires w * x > -w, w > 0;
    }
    lemma_cur_sum_nonneg(s);
    assert forall|k: int| 0 <= k < inss.len() implies #[trigger] pick_count(r.1, k) == inss[k].weight by {
        let x = inss[k].weight - pick_count(r.1, k);
        assert(s[k].1.cur_weight == 0);
        assert(s[k].1.cur_weight == w * x) by (nonlinear_arith)
            requires s[k].1.cur_weight == w * inss[k].weight - w * pick_count(r.1, k), x == inss[k].weight - pick_count(r.1, k);
        assert(x == 0) by (nonlinear_arith)
            requires w * x == 0, w > 0;
    }
}

} // verus!
