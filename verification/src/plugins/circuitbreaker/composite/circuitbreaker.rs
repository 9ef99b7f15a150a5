//! The composite circuit breaker: per-resource circuits driven by
//! consecutive-error triggers, with timed half-open recovery.

use vstd::prelude::*;
use vstd::string::StringExecFns;
use crate::model::circuitbreaker::{
    CircuitBreakerStatus, Resource, ResourceStat, RetStatus, Status, resource_key,
    spec_resource_key,
};
use crate::specification::{
    CircuitBreakerPolicyView, CircuitBreakerRule, CircuitBreakerRuleView, RecoverCondition,
    TriggerCondition, TriggerType, duplicate_circuit_breaker_rules,
};
use crate::text::str_equal;

verus! {

/// The name under which the plugin registers.
pub open spec fn plugin_name() -> Seq<char> {
    "composite"@
}

/// Makes a composite circuit breaker with no rules.
pub struct CircuitBreakerSupplier;

impl CircuitBreakerSupplier {
    pub fn create(&self) -> (r: CompositeCircuitBreaker)
        ensures
            r@.rules.len() == 0,
            r@.states.len() == 0,
    {
        new_circuir_breaker()
    }
}

pub fn new_circuir_breaker() -> (r: CompositeCircuitBreaker)
    ensures
        r@.rules.len() == 0,
        r@.states.len() == 0,
{
    CompositeCircuitBreaker::new()
}

/// Whether a call outcome counts as an error.
pub open spec fn spec_is_error_status(status: RetStatus) -> bool {
    status == RetStatus::RetFail || status == RetStatus::RetTimeout || status == RetStatus::RetReject
}

pub fn is_error_status(status: &RetStatus) -> (r: bool)
    ensures
        r == spec_is_error_status(*status),
{
    match status {
        RetStatus::RetFail | RetStatus::RetTimeout | RetStatus::RetReject => true,
        _ => false,
    }
}

/// The circuit of one rule for one resource.
pub struct CircuitBreakerRuleState {
    rule: CircuitBreakerRule,
    status: Status,
    opened_at: Option<u64>,
    consecutive_errors: u32,
    consecutive_successes: u32,
    request_count: u32,
}

/// A circuit as values; times are milliseconds on the caller's clock.
pub struct RuleStateView {
    pub rule: CircuitBreakerRuleView,
    pub status: Status,
    pub opened_at: Option<u64>,
    pub consecutive_errors: u32,
    pub consecutive_successes: u32,
    pub request_count: u32,
}

impl View for CircuitBreakerRuleState {
    type V = RuleStateView;

    closed spec fn view(&self) -> RuleStateView {
        RuleStateView {
            rule: self.rule@,
            status: self.status,
            opened_at: self.opened_at,
            consecutive_errors: self.consecutive_errors,
            consecutive_successes: self.consecutive_successes,
            request_count: self.request_count,
        }
    }
}

/// A fresh, closed circuit for `rule`.
pub open spec fn spec_new_state(rule: CircuitBreakerRuleView) -> RuleStateView {
    RuleStateView {
        rule,
        status: Status::Close,
        opened_at: None,
        consecutive_errors: 0,
        consecutive_successes: 0,
        request_count: 0,
    }
}

/// The recovery condition of the first policy that has one.
pub open spec fn spec_recover_condition(policies: Seq<CircuitBreakerPolicyView>) -> Option<RecoverCondition>
    decreases policies.len(),
{
    if policies.len() == 0 {
        None
    } else if policies[0].recover.is_some() {
        policies[0].recover
    } else {
        spec_recover_condition(policies.drop_first())
    }
}

/// How many successes in a row close a half-open circuit (at least one).
pub open spec fn spec_recover_success_threshold(rule: CircuitBreakerRuleView) -> u32 {
    match spec_recover_condition(rule.policies) {
        Some(c) => if c.consecutive_success >= 1 { c.consecutive_success } else { 1 },
        None => 1,
    }
}

/// The triggers of a policy (none without a block config).
pub open spec fn spec_policy_triggers(p: CircuitBreakerPolicyView) -> Seq<TriggerCondition> {
    match p.triggers {
        Some(t) => t,
        None => Seq::empty(),
    }
}

/// All triggers of the policies that have a block config, in order.
pub open spec fn spec_triggers(policies: Seq<CircuitBreakerPolicyView>) -> Seq<TriggerCondition>
    decreases policies.len(),
{
    if policies.len() == 0 {
        Seq::empty()
    } else {
        spec_triggers(policies.drop_last()) + spec_policy_triggers(policies.last())
    }
}

/// Whether one trigger fires on a circuit's counters.
pub open spec fn spec_trigger_fires(s: RuleStateView, t: TriggerCondition) -> bool {
    t.trigger_type == TriggerType::ConsecutiveError && s.request_count >= t.minimum_request
        && t.error_count > 0 && s.consecutive_errors >= t.error_count
}

/// Whether a closed circuit must open: its rule is enabled and a trigger fires.
pub open spec fn spec_should_open(s: RuleStateView) -> bool {
    s.rule.enable && exists|i: int|
        0 <= i < spec_triggers(s.rule.policies).len() && spec_trigger_fires(
            s,
            #[trigger] spec_triggers(s.rule.policies)[i],
        )
}

/// Milliseconds from `from` to `now`, zero when `now` is earlier.
pub open spec fn spec_elapsed(now: u64, from: u64) -> int {
    if now >= from { now - from } else { 0 }
}

/// An open circuit becomes half-open once its recovery's sleep window has passed.
pub open spec fn spec_refresh(s: RuleStateView, now: u64) -> RuleStateView {
    if s.status != Status::Open {
        s
    } else {
        match spec_recover_condition(s.rule.policies) {
            None => s,
            Some(c) => match s.opened_at {
                None => s,
                Some(t) => if spec_elapsed(now, t) >= (c.sleep_window as int) * 1000 {
                    RuleStateView { status: Status::HalfOpen, consecutive_successes: 0, ..s }
                } else {
                    s
                },
            },
        }
    }
}

pub open spec fn saturating_inc(v: u32) -> u32 {
    if v < u32::MAX { (v + 1) as u32 } else { v }
}

pub open spec fn spec_open(s: RuleStateView, now: u64) -> RuleStateView {
    RuleStateView { status: Status::Open, opened_at: Some(now), consecutive_successes: 0, ..s }
}

pub open spec fn spec_close(s: RuleStateView) -> RuleStateView {
    RuleStateView {
        status: Status::Close,
        opened_at: None,
        consecutive_errors: 0,
        consecutive_successes: 0,
        request_count: 0,
        ..s
    }
}

/// What a circuit becomes when a call outcome is reported at `now`.
pub open spec fn spec_report(s0: RuleStateView, ret: RetStatus, now: u64) -> RuleStateView {
    let s = spec_refresh(s0, now);
    if s.status == Status::Open {
        s
    } else if s.status == Status::HalfOpen {
        if spec_is_error_status(ret) {
            spec_open(s, now)
        } else {
            let s2 = RuleStateView { consecutive_successes: saturating_inc(s.consecutive_successes), ..s };
            if s2.consecutive_successes >= spec_recover_success_threshold(s.rule) {
                spec_close(s2)
            } else {
                s2
            }
        }
    } else {
        let s1 = RuleStateView {
            request_count: saturating_inc(s.request_count),
            consecutive_errors: if spec_is_error_status(ret) { saturating_inc(s.consecutive_errors) } else { 0 },
            ..s
        };
        if spec_should_open(s1) {
            spec_open(s1, now)
        } else {
            s1
        }
    }
}

impl CircuitBreakerRuleState {
    pub fn new(rule: CircuitBreakerRule) -> (r: CircuitBreakerRuleState)
        ensures
            r@ == spec_new_state(rule@),
    {
        CircuitBreakerRuleState {
            rule,
            status: Status::Close,
            opened_at: None,
            consecutive_errors: 0,
            consecutive_successes: 0,
            request_count: 0,
        }
    }

    pub fn status(&self) -> (r: Status)
        ensures
            r == self@.status,
    {
        self.status
    }

    pub fn rule_name(&self) -> (r: String)
        ensures
            r@ == self@.rule.name,
    {
        self.rule.name.clone()
    }

    fn recover_condition(&self) -> (r: Option<RecoverCondition>)
        ensures
            r == spec_recover_condition(self@.rule.policies),
    {
        let mut i: usize = 0;
        let ghost policies = self@.rule.policies;
        assert(policies.subrange(0, policies.len() as int) =~= policies);
        while i < self.rule.block_configs.len()
            invariant
                i <= self.rule.block_configs@.len(),
                policies == self@.rule.policies,
                policies.len() == self.rule.block_configs@.len(),
                spec_recover_condition(policies) == spec_recover_condition(
                    policies.subrange(i as int, policies.len() as int),
                ),
            decreases self.rule.block_configs@.len() - i,
        {
            let ghost rest = policies.subrange(i as int, policies.len() as int);
            assert(rest.drop_first() =~= policies.subrange(i + 1, policies.len() as int));
            assert(rest[0] == self.rule.block_configs@[i as int]@);
            if self.rule.block_configs[i].recover_condition.is_some() {
                return self.rule.block_configs[i].recover_condition;
            }
            i = i + 1;
        }
        None
    }

    fn recover_success_threshold(&self) -> (r: u32)
        ensures
            r == spec_recover_success_threshold(self@.rule),
    {
        match self.recover_condition() {
            Some(c) => if c.consecutive_success >= 1 { c.consecutive_success } else { 1 },
            None => 1,
        }
    }

    fn collect_triggers(&self) -> (r: Vec<TriggerCondition>)
        ensures
            r@ == spec_triggers(self@.rule.policies),
    {
        let ghost policies = self@.rule.policies;
        let mut r: Vec<TriggerCondition> = Vec::new();
        let mut i: usize = 0;
        while i < self.rule.block_configs.len()
            invariant
                i <= self.rule.block_configs@.len(),
                policies == self@.rule.policies,
                policies.len() == self.rule.block_configs@.len(),
                r@ == spec_triggers(policies.subrange(0, i as int)),
            decreases self.rule.block_configs@.len() - i,
        {
            let ghost next = policies.subrange(0, i + 1);
            assert(next.drop_last() =~= policies.subrange(0, i as int));
            assert(next.last() == self.rule.block_configs@[i as int]@);
            match &self.rule.block_configs[i].block_config {
                Some(block) => {
                    let mut j: usize = 0;
                    let ghost base = r@;
                    while j < block.trigger_conditions.len()
                        invariant
                            j <= block.trigger_conditions@.len(),
                            r@ == base + block.trigger_conditions@.subrange(0, j as int),
                        decreases block.trigger_conditions@.len() - j,
                    {
                        r.push(block.trigger_conditions[j]);
                        j = j + 1;
                        assert(r@ =~= base + block.trigger_conditions@.subrange(0, j as int));
                    }
                    assert(block.trigger_conditions@.subrange(0, block.trigger_conditions@.len() as int) =~= block.trigger_conditions@);
                },
                None => {
                    assert(spec_policy_triggers(next.last()) =~= Seq::<TriggerCondition>::empty());
                    assert(r@ + Seq::<TriggerCondition>::empty() =~= r@);
                },
            }
            i = i + 1;
        }
        assert(policies.subrange(0, policies.len() as int) =~= policies);
        r
    }

    fn should_open(&self) -> (r: bool)
        ensures
            r == spec_should_open(self@),
    {
        if !self.rule.enable {
            return false;
        }
        let triggers = self.collect_triggers();
        let mut j: usize = 0;
        while j < triggers.len()
            invariant
                j <= triggers@.len(),
                self@.rule.enable,
                triggers@ == spec_triggers(self@.rule.policies),
                forall|k: int| 0 <= k < j ==> !spec_trigger_fires(self@, #[trigger] triggers@[k]),
            decreases triggers@.len() - j,
        {
            let t = triggers[j];
            if t.trigger_type == TriggerType::ConsecutiveError && self.request_count >= t.minimum_request
                && t.error_count > 0 && self.consecutive_errors >= t.error_count {
                assert(spec_trigger_fires(self@, spec_triggers(self@.rule.policies)[j as int]));
                assert(0 <= j < spec_triggers(self@.rule.policies).len());
                return true;
            }
            j = j + 1;
        }
        false
    }

    fn refresh_status(&mut self, now: u64)
        ensures
            final(self)@ == spec_refresh(old(self)@, now),
    {
        if self.status != Status::Open {
            return;
        }
        let recover = self.recover_condition();
        let Some(recover_condition) = recover else {
            return;
        };
        let Some(opened_at) = self.opened_at else {
            return;
        };
        let elapsed: u64 = if now >= opened_at { now - opened_at } else { 0 };
        let sleep_window: u64 = recover_condition.sleep_window as u64 * 1000;
        if elapsed >= sleep_window {
            self.status = Status::HalfOpen;
            self.consecutive_successes = 0;
        }
    }

    pub fn current_status(&mut self, now: u64) -> (r: Status)
        ensures
            final(self)@ == spec_refresh(old(self)@, now),
            r == final(self)@.status,
    {
        self.refresh_status(now);
        self.status()
    }

    fn open(&mut self, now: u64)
        ensures
            final(self)@ == spec_open(old(self)@, now),
    {
        self.status = Status::Open;
        self.opened_at = Some(now);
        self.consecutive_successes = 0;
    }

    fn close(&mut self)
        ensures
            final(self)@ == spec_close(old(self)@),
    {
        self.status = Status::Close;
        self.opened_at = None;
        self.consecutive_errors = 0;
        self.consecutive_successes = 0;
        self.request_count = 0;
    }

    /// Records one call outcome at `now` (milliseconds).
    pub fn report_status(&mut self, ret_status: &RetStatus, now: u64)
        ensures
            final(self)@ == spec_report(old(self)@, *ret_status, now),
    {
        self.refresh_status(now);
        if self.status == Status::Open {
            return;
        }
        if self.status == Status::HalfOpen {
            if is_error_status(ret_status) {
                self.open(now);
            } else {
                self.consecutive_successes = self.consecutive_successes.saturating_add(1);
                if self.consecutive_successes >= self.recover_success_threshold() {
                    self.close();
                }
            }
            return;
        }
        self.request_count = self.request_count.saturating_add(1);
        if is_error_status(ret_status) {
            self.consecutive_errors = self.consecutive_errors.saturating_add(1);
        } else {
            self.consecutive_errors = 0;
        }
        if self.should_open() {
            self.open(now);
        }
    }
}

/// The circuits of one resource.
pub struct ResourceStates {
    key: String,
    states: Vec<CircuitBreakerRuleState>,
}

/// Circuit states of a list of circuits.
pub closed spec fn state_views(s: Seq<CircuitBreakerRuleState>) -> Seq<RuleStateView> {
    s.map_values(|c: CircuitBreakerRuleState| c@)
}

/// Keys and circuits of the resources a breaker keeps.
pub closed spec fn resource_views(s: Seq<ResourceStates>) -> Seq<(Seq<char>, Seq<RuleStateView>)> {
    s.map_values(|e: ResourceStates| (e.key@, state_views(e.states@)))
}

/// A composite breaker as values: its rules and, per resource key, one circuit per rule.
pub struct CompositeView {
    pub rules: Seq<CircuitBreakerRuleView>,
    pub states: Seq<(Seq<char>, Seq<RuleStateView>)>,
}

/// One circuit per rule for every resource, each rule tracked separately.
pub struct CompositeCircuitBreaker {
    rules: Vec<CircuitBreakerRule>,
    states: Vec<ResourceStates>,
}

impl View for CompositeCircuitBreaker {
    type V = CompositeView;

    closed spec fn view(&self) -> CompositeView {
        CompositeView {
            rules: self.rules@.map_values(|r: CircuitBreakerRule| r@),
            states: resource_views(self.states@),
        }
    }
}

/// Index of the entry kept under `key`.
pub open spec fn find_resource(states: Seq<(Seq<char>, Seq<RuleStateView>)>, key: Seq<char>) -> Option<int>
    decreases states.len(),
{
    if states.len() == 0 {
        None
    } else if states.last().0 == key {
        Some(states.len() - 1)
    } else {
        find_resource(states.drop_last(), key)
    }
}

/// Refreshing the circuits from `i` on until the first open one; answers the first
/// open circuit, else the first half-open one, else closed.
pub open spec fn spec_check_from(
    c: Seq<RuleStateView>,
    now: u64,
    i: int,
    half: Option<Seq<char>>,
) -> (Seq<RuleStateView>, Status, Seq<char>)
    decreases c.len() - i,
{
    if i < 0 || i >= c.len() {
        match half {
            Some(n) => (c, Status::HalfOpen, n),
            None => (c, Status::Close, Seq::empty()),
        }
    } else {
        let r = spec_refresh(c[i], now);
        let c2 = c.update(i, r);
        if r.status == Status::Open {
            (c2, Status::Open, r.rule.name)
        } else {
            let h = if r.status == Status::HalfOpen && half.is_none() { Some(r.rule.name) } else { half };
            spec_check_from(c2, now, i + 1, h)
        }
    }
}

/// Every circuit after one reported outcome.
pub open spec fn spec_report_all(c: Seq<RuleStateView>, ret: RetStatus, now: u64) -> Seq<RuleStateView> {
    c.map_values(|s: RuleStateView| spec_report(s, ret, now))
}

/// Fresh circuits, one per rule.
pub open spec fn spec_new_states(rules: Seq<CircuitBreakerRuleView>) -> Seq<RuleStateView> {
    rules.map_values(|r: CircuitBreakerRuleView| spec_new_state(r))
}

/// The breaker after reporting one outcome for the resource kept under `key`.
pub open spec fn spec_composite_report(b: CompositeView, key: Seq<char>, ret: RetStatus, now: u64) -> CompositeView {
    match find_resource(b.states, key) {
        Some(idx) => CompositeView {
            rules: b.rules,
            states: b.states.update(idx, (key, spec_report_all(b.states[idx].1, ret, now))),
        },
        None => CompositeView {
            rules: b.rules,
            states: b.states.push((key, spec_report_all(spec_new_states(b.rules), ret, now))),
        },
    }
}

/// The breaker and its answer after checking the resource kept under `key`.
pub open spec fn spec_composite_check(b: CompositeView, key: Seq<char>, now: u64) -> (CompositeView, Status, Seq<char>) {
    match find_resource(b.states, key) {
        None => (b, Status::Close, Seq::empty()),
        Some(idx) => {
            let r = spec_check_from(b.states[idx].1, now, 0, None);
            (CompositeView { rules: b.rules, states: b.states.update(idx, (key, r.0)) }, r.1, r.2)
        },
    }
}

impl CompositeCircuitBreaker {
    pub fn builder() -> (r: (CircuitBreakerSupplier, String))
        ensures
            r.1@ == plugin_name(),
    {
        (CircuitBreakerSupplier, String::from_str("composite"))
    }

    pub fn name(&self) -> (r: String)
        ensures
            r@ == plugin_name(),
    {
        String::from_str("composite")
    }

    pub fn init(&mut self)
        ensures
            final(self)@ == old(self)@,
    {
    }

    pub fn destroy(&self) {
    }

    pub fn new() -> (r: CompositeCircuitBreaker)
        ensures
            r@.rules.len() == 0,
            r@.states.len() == 0,
    {
        CompositeCircuitBreaker { rules: Vec::new(), states: Vec::new() }
    }

    pub fn new_with_rules(rules: Vec<CircuitBreakerRule>) -> (r: CompositeCircuitBreaker)
        ensures
            r@.rules == rules@.map_values(|r: CircuitBreakerRule| r@),
            r@.states.len() == 0,
    {
        CompositeCircuitBreaker { rules, states: Vec::new() }
    }

    /// Replaces the rules and forgets every circuit.
    pub fn update_rules(&mut self, rules: Vec<CircuitBreakerRule>)
        ensures
            final(self)@.rules == rules@.map_values(|r: CircuitBreakerRule| r@),
            final(self)@.states.len() == 0,
    {
        self.rules = rules;
        self.states = Vec::new();
    }

    /// A copy of the current rules.
    pub fn rules_snapshot(&self) -> (r: Vec<CircuitBreakerRule>)
        ensures
            r@.map_values(|x: CircuitBreakerRule| x@) == self@.rules,
    {
        let r = duplicate_circuit_breaker_rules(&self.rules);
        assert(r@.map_values(|x: CircuitBreakerRule| x@) =~= self@.rules);
        r
    }

    fn find_index(&self, key: &String) -> (r: Option<usize>)
        ensures
            match r {
                Some(i) => find_resource(self@.states, key@) == Some(i as int) && i < self.states@.len(),
                None => find_resource(self@.states, key@).is_none(),
            },
    {
        let mut i: usize = self.states.len();
        let ghost all = self@.states;
        assert(all.subrange(0, all.len() as int) =~= all);
        while i > 0
            invariant
                i <= self.states@.len(),
                all == self@.states,
                all.len() == self.states@.len(),
                find_resource(all, key@) == find_resource(all.subrange(0, i as int), key@),
            decreases i,
        {
            let ghost pre = all.subrange(0, i as int);
            assert(pre.drop_last() =~= all.subrange(0, i - 1));
            assert(pre.last() == all[i - 1]);
            if str_equal(self.states[i - 1].key.as_str(), key.as_str()) {
                return Some(i - 1);
            }
            i = i - 1;
        }
        None
    }

    /// The circuit state of a resource now, after any timed transition.
    pub fn check_resource(&mut self, resource: &Resource, now: u64) -> (r: CircuitBreakerStatus)
        ensures
            ({
                let c = spec_composite_check(old(self)@, spec_resource_key(*resource), now);
                &&& final(self)@ == c.0
                &&& r.status == c.1
                &&& r.circuit_breaker@ == c.2
                &&& r.start_ms == 0
                &&& !r.destroy
            }),
    {
        let key = resource_key(resource);
        let found = self.find_index(&key);
        let Some(idx) = found else {
            return CircuitBreakerStatus {
                status: Status::Close,
                start_ms: 0,
                circuit_breaker: String::new(),
                destroy: false,
            };
        };
        let ghost old_view = self@;
        proof {
            lemma_find_resource(old_view.states, key@);
        }
        let mut entry = self.states.remove(idx);
        let ghost circuits0 = state_views(entry.states@);
        assert(circuits0 == old_view.states[idx as int].1);
        assert(entry.key@ == key@);
        let mut half: Option<String> = None;
        let mut i: usize = 0;
        let mut done = false;
        let mut open_name = String::new();
        while i < entry.states.len() && !done
            invariant
                i <= entry.states@.len(),
                entry.key@ == key@,
                !done ==> spec_check_from(circuits0, now, 0, None) == spec_check_from(
                    state_views(entry.states@),
                    now,
                    i as int,
                    match half { Some(h) => Some(h@), None => None },
                ),
                done ==> spec_check_from(circuits0, now, 0, None) == (
                    state_views(entry.states@),
                    Status::Open,
                    open_name@,
                ),
            decreases entry.states@.len() - i + (if done { 0int } else { 1int }),
        {
            let ghost views = state_views(entry.states@);
            let mut st = entry.states.remove(i);
            let status = st.current_status(now);
            let name = st.rule_name();
            entry.states.insert(i, st);
            assert(state_views(entry.states@) =~= views.update(i as int, spec_refresh(views[i as int], now)));
            if status == Status::Open {
                open_name = name;
                done = true;
            } else {
                if status == Status::HalfOpen && half.is_none() {
                    half = Some(name);
                }
                i = i + 1;
            }
        }
        let (status, name) = if done {
            (Status::Open, open_name)
        } else {
            match half {
                Some(h) => (Status::HalfOpen, h),
                None => (Status::Close, String::new()),
            }
        };
        let ghost new_views = state_views(entry.states@);
        let ghost entry_key = entry.key@;
        self.states.insert(idx, entry);
        assert(entry_key == key@);
        assert(self@.states =~= old_view.states.update(idx as int, (key@, new_views)));
        CircuitBreakerStatus { status, start_ms: 0, circuit_breaker: name, destroy: false }
    }
}

fn report_all(states: &mut Vec<CircuitBreakerRuleState>, ret: &RetStatus, now: u64)
    ensures
        state_views(final(states)@) == spec_report_all(state_views(old(states)@), *ret, now),
{
    let ghost start = state_views(states@);
    assert(forall|k: int| 0 <= k < states@.len() ==> #[trigger] states@[k]@ == start[k]);
    let mut i: usize = 0;
    while i < states.len()
        invariant
            i <= states@.len(),
            states@.len() == start.len(),
            forall|k: int| 0 <= k < i ==> #[trigger] states@[k]@ == spec_report(start[k], *ret, now),
            forall|k: int| i <= k < states@.len() ==> #[trigger] states@[k]@ == start[k],
        decreases states@.len() - i,
    {
        let ghost before = states@;
        let mut st = states.remove(i);
        st.report_status(ret, now);
        states.insert(i, st);
        assert forall|k: int| 0 <= k < states@.len() && k != i implies #[trigger] states@[k] == before[k] by {}
        i = i + 1;
    }
    assert(state_views(states@) =~= spec_report_all(start, *ret, now));
}

fn new_states(rules: &Vec<CircuitBreakerRule>) -> (r: Vec<CircuitBreakerRuleState>)
    ensures
        state_views(r@) == spec_new_states(rules@.map_values(|x: CircuitBreakerRule| x@)),
{
    let mut r: Vec<CircuitBreakerRuleState> = Vec::new();
    let mut i: usize = 0;
    while i < rules.len()
        invariant
            i <= rules@.len(),
            r@.len() == i,
            forall|k: int| 0 <= k < i ==> #[trigger] r@[k]@ == spec_new_state(rules@[k]@),
        decreases rules@.len() - i,
    {
        r.push(CircuitBreakerRuleState::new(rules[i].duplicate()));
        i = i + 1;
    }
    assert(state_views(r@) =~= spec_new_states(rules@.map_values(|x: CircuitBreakerRule| x@)));
    r
}

impl CompositeCircuitBreaker {
    /// Takes in the outcome of a call to a resource.
    pub fn report_stat(&mut self, stat: &ResourceStat, now: u64)
        ensures
            final(self)@ == spec_composite_report(old(self)@, spec_resource_key(stat.resource), stat.status, now),
    {
        let key = resource_key(&stat.resource);
        let ghost old_view = self@;
        proof {
            lemma_find_resource(old_view.states, key@);
        }
        match self.find_index(&key) {
            Some(idx) => {
                let mut entry = self.states.remove(idx);
                assert(entry.key@ == key@);
                report_all(&mut entry.states, &stat.status, now);
                let ghost new_views = state_views(entry.states@);
                self.states.insert(idx, entry);
                assert(self@.states =~= old_view.states.update(idx as int, (key@, new_views)));
            },
            None => {
                let rules = self.rules_snapshot();
                let mut states = new_states(&rules);
                report_all(&mut states, &stat.status, now);
                let ghost new_views = state_views(states@);
                self.states.push(ResourceStates { key, states });
                assert(self@.states =~= old_view.states.push((key@, new_views)));
            },
        }
    }
}

proof fn lemma_find_resource(states: Seq<(Seq<char>, Seq<RuleStateView>)>, key: Seq<char>)
    ensures
        match find_resource(states, key) {
            Some(i) => 0 <= i < states.len() && states[i].0 == key,
            None => forall|k: int| 0 <= k < states.len() ==> states[k].0 != key,
        },
    decreases states.len(),
{
    if states.len() > 0 {
        lemma_find_resource(states.drop_last(), key);
        if states.last().0 != key {
            match find_resource(states.drop_last(), key) {
                Some(i) => {},
                None => {
                    assert forall|k: int| 0 <= k < states.len() implies states[k].0 != key by {
                        if k < states.len() - 1 {
                            assert(states.drop_last()[k] == states[k]);
                        }
                    }
                },
            }
        }
    }
}

/// A circuit after `n` reports of the same outcome at the same instant.
pub open spec fn spec_report_n(s: RuleStateView, ret: RetStatus, now: u64, n: nat) -> RuleStateView
    decreases n,
{
    if n == 0 {
        s
    } else {
        spec_report(spec_report_n(s, ret, now, (n - 1) as nat), ret, now)
    }
}

proof fn lemma_failures_progress(rule: CircuitBreakerRuleView, now: u64, m: nat)
    requires
        m <= u32::MAX,
    ensures
        spec_report_n(spec_new_state(rule), RetStatus::RetFail, now, m).rule == rule,
        ({
            let s = spec_report_n(spec_new_state(rule), RetStatus::RetFail, now, m);
            s.status == Status::Open || (s.status == Status::Close && s.consecutive_errors == m
                && s.request_count == m)
        }),
    decreases m,
{
    if m > 0 {
        lemma_failures_progress(rule, now, (m - 1) as nat);
    }
}

/// Reported failures open a circuit: a fresh circuit of an enabled rule opens after as
/// many failures in a row as one of its consecutive-error triggers counts, when that
/// trigger needs no more requests than it counts errors.
pub proof fn law_consecutive_failures_open(rule: CircuitBreakerRuleView, k: int, now: u64)
    requires
        rule.enable,
        0 <= k < spec_triggers(rule.policies).len(),
        spec_triggers(rule.policies)[k].trigger_type == TriggerType::ConsecutiveError,
        spec_triggers(rule.policies)[k].error_count >= 1,
        spec_triggers(rule.policies)[k].minimum_request <= spec_triggers(rule.policies)[k].error_count,
    ensures
        spec_report_n(
            spec_new_state(rule),
            RetStatus::RetFail,
            now,
            spec_triggers(rule.policies)[k].error_count as nat,
        ).status == Status::Open,
{
    let t = spec_triggers(rule.policies)[k];
    let n = t.error_count as nat;
    lemma_failures_progress(rule, now, (n - 1) as nat);
    lemma_failures_progress(rule, now, n);
    let s = spec_report_n(spec_new_state(rule), RetStatus::RetFail, now, n);
    if s.status != Status::Open {
        assert(spec_trigger_fires(s, spec_triggers(s.rule.policies)[k]));
    }
}

/// A timeout and a rejection are reported as failures are: whatever state a circuit is in,
/// it becomes the same after either as after a failure; and a success is not an error.
pub proof fn law_timeouts_and_rejections_count_as_failures(s: RuleStateView, now: u64)
    ensures
        spec_report(s, RetStatus::RetTimeout, now) == spec_report(s, RetStatus::RetFail, now),
        spec_report(s, RetStatus::RetReject, now) == spec_report(s, RetStatus::RetFail, now),
        spec_is_error_status(RetStatus::RetFail),
        !spec_is_error_status(RetStatus::RetSuccess),
{
}

proof fn lemma_report_n_timeouts(s: RuleStateView, now: u64, n: nat)
    ensures
        spec_report_n(s, RetStatus::RetTimeout, now, n) == spec_report_n(s, RetStatus::RetFail, now, n),
    decreases n,
{
    if n > 0 {
        lemma_report_n_timeouts(s, now, (n - 1) as nat);
        law_timeouts_and_rejections_count_as_failures(spec_report_n(s, RetStatus::RetFail, now, (n - 1) as nat), now);
    }
}

/// Timeouts open a circuit as failures do: a fresh circuit of an enabled rule opens after
/// as many timeouts in a row as one of its consecutive-error triggers counts, when that
/// trigger needs no more requests than it counts errors.
pub proof fn law_consecutive_timeouts_open(rule: CircuitBreakerRuleView, k: int, now: u64)
    requires
        rule.enable,
        0 <= k < spec_triggers(rule.policies).len(),
        spec_triggers(rule.policies)[k].trigger_type == TriggerType::ConsecutiveError,
        spec_triggers(rule.policies)[k].error_count >= 1,
        spec_triggers(rule.policies)[k].minimum_request <= spec_triggers(rule.policies)[k].error_count,
    ensures
        spec_report_n(
            spec_new_state(rule),
            RetStatus::RetTimeout,
            now,
            spec_triggers(rule.policies)[k].error_count as nat,
        ).status == Status::Open,
{
    law_consecutive_failures_open(rule, k, now);
    lemma_report_n_timeouts(spec_new_state(rule), now, spec_triggers(rule.policies)[k].error_count as nat);
}

/// A breaker takes a reported timeout or rejection for a resource as a failure.
pub proof fn law_breaker_reports_timeouts_as_failures(b: CompositeView, key: Seq<char>, now: u64)
    ensures
        spec_composite_report(b, key, RetStatus::RetTimeout, now) == spec_composite_report(b, key, RetStatus::RetFail, now),
        spec_composite_report(b, key, RetStatus::RetReject, now) == spec_composite_report(b, key, RetStatus::RetFail, now),
{
    assert forall|c: Seq<RuleStateView>| spec_report_all(c, RetStatus::RetTimeout, now) == #[trigger] spec_report_all(c, RetStatus::RetFail, now)
        && spec_report_all(c, RetStatus::RetReject, now) == spec_report_all(c, RetStatus::RetFail, now) by {
        assert forall|i: int| 0 <= i < c.len() implies spec_report_all(c, RetStatus::RetTimeout, now)[i] == spec_report_all(c, RetStatus::RetFail, now)[i]
            && spec_report_all(c, RetStatus::RetReject, now)[i] == spec_report_all(c, RetStatus::RetFail, now)[i] by {
            law_timeouts_and_rejections_count_as_failures(c[i], now);
        }
        assert(spec_report_all(c, RetStatus::RetTimeout, now) =~= spec_report_all(c, RetStatus::RetFail, now));
        assert(spec_report_all(c, RetStatus::RetReject, now) =~= spec_report_all(c, RetStatus::RetFail, now));
    }
    match find_resource(b.states, key) {
        Some(idx) => {
            let c = b.states[idx].1;
            assert(spec_report_all(c, RetStatus::RetTimeout, now) == spec_report_all(c, RetStatus::RetFail, now));
            assert(spec_report_all(c, RetStatus::RetReject, now) == spec_report_all(c, RetStatus::RetFail, now));
        },
        None => {
            let c = spec_new_states(b.rules);
            assert(spec_report_all(c, RetStatus::RetTimeout, now) == spec_report_all(c, RetStatus::RetFail, now));
            assert(spec_report_all(c, RetStatus::RetReject, now) == spec_report_all(c, RetStatus::RetFail, now));
        },
    }
}

/// A closed circuit's counters after a call outcome is counted.
pub open spec fn spec_counted(s: RuleStateView, ret: RetStatus) -> RuleStateView {
    RuleStateView {
        request_count: saturating_inc(s.request_count),
        consecutive_errors: if spec_is_error_status(ret) { saturating_inc(s.consecutive_errors) } else { 0 },
        ..s
    }
}

/// A closed circuit opens only when, after the report is counted, its rule is enabled and
/// one of its consecutive-error triggers fires: enough requests, and at least as many
/// errors in a row as the trigger counts (more than none). Only an error can do it.
pub proof fn law_closed_opens_only_on_a_trigger(s: RuleStateView, ret: RetStatus, now: u64)
    requires
        s.status == Status::Close,
        spec_report(s, ret, now).status == Status::Open,
    ensures
        s.rule.enable,
        spec_is_error_status(ret),
        exists|i: int| 0 <= i < spec_triggers(s.rule.policies).len()
            && spec_trigger_fires(spec_counted(s, ret), #[trigger] spec_triggers(s.rule.policies)[i]),
{
    let s1 = spec_counted(s, ret);
    assert(spec_refresh(s, now) == s);
    assert(spec_should_open(s1));
    let i = choose|i: int| 0 <= i < spec_triggers(s1.rule.policies).len()
        && spec_trigger_fires(s1, #[trigger] spec_triggers(s1.rule.policies)[i]);
    assert(spec_trigger_fires(s1, spec_triggers(s.rule.policies)[i]));
}

/// A success keeps a closed circuit closed and clears its run of errors.
pub proof fn law_success_keeps_closed(s: RuleStateView, now: u64)
    requires
        s.status == Status::Close,
    ensures
        spec_report(s, RetStatus::RetSuccess, now).status == Status::Close,
        spec_report(s, RetStatus::RetSuccess, now).consecutive_errors == 0,
{
}

/// An open circuit ignores reports until its recovery's sleep window has passed.
pub proof fn law_open_within_sleep_window(s: RuleStateView, ret: RetStatus, now: u64)
    requires
        s.status == Status::Open,
        s.opened_at.is_some(),
        spec_recover_condition(s.rule.policies).is_some(),
        spec_elapsed(now, s.opened_at.unwrap()) < (spec_recover_condition(s.rule.policies).unwrap().sleep_window as int) * 1000,
    ensures
        spec_report(s, ret, now) == s,
        spec_refresh(s, now) == s,
{
}

/// Without a recovery condition an open circuit stays open.
pub proof fn law_open_without_recovery_stays_open(s: RuleStateView, ret: RetStatus, now: u64)
    requires
        s.status == Status::Open,
        spec_recover_condition(s.rule.policies).is_none(),
    ensures
        spec_report(s, ret, now) == s,
{
}

/// Once the sleep window has passed, an open circuit is half-open.
pub proof fn law_half_open_after_sleep_window(s: RuleStateView, now: u64)
    requires
        s.status == Status::Open,
        s.opened_at.is_some(),
        spec_recover_condition(s.rule.policies).is_some(),
        spec_elapsed(now, s.opened_at.unwrap()) >= (spec_recover_condition(s.rule.policies).unwrap().sleep_window as int) * 1000,
    ensures
        spec_refresh(s, now).status == Status::HalfOpen,
        spec_refresh(s, now).consecutive_successes == 0,
{
}

/// A failure while half-open opens the circuit again from `now`.
pub proof fn law_half_open_failure_reopens(s: RuleStateView, ret: RetStatus, now: u64)
    requires
        spec_refresh(s, now).status == Status::HalfOpen,
        spec_is_error_status(ret),
    ensures
        spec_report(s, ret, now).status == Status::Open,
        spec_report(s, ret, now).opened_at == Some(now),
{
}

/// Enough successes while half-open close the circuit and reset its counters.
pub proof fn law_half_open_successes_close(s: RuleStateView, now: u64)
    requires
        spec_refresh(s, now).status == Status::HalfOpen,
        spec_refresh(s, now).consecutive_successes < u32::MAX,
        spec_refresh(s, now).consecutive_successes + 1 >= spec_recover_success_threshold(s.rule),
    ensures
        spec_report(s, RetStatus::RetSuccess, now).status == Status::Close,
        spec_report(s, RetStatus::RetSuccess, now).request_count == 0,
        spec_report(s, RetStatus::RetSuccess, now).consecutive_errors == 0,
{
}

/// The circuits kept for `key`, if any.
pub open spec fn circuits_of(states: Seq<(Seq<char>, Seq<RuleStateView>)>, key: Seq<char>) -> Option<Seq<RuleStateView>> {
    match find_resource(states, key) {
        Some(i) => Some(states[i].1),
        None => None,
    }
}

proof fn lemma_find_resource_update(
    states: Seq<(Seq<char>, Seq<RuleStateView>)>,
    i: int,
    key: Seq<char>,
    c: Seq<RuleStateView>,
    other: Seq<char>,
)
    requires
        0 <= i < states.len(),
        states[i].0 == key,
        other != key,
    ensures
        find_resource(states.update(i, (key, c)), other) == find_resource(states, other),
    decreases states.len(),
{
    let u = states.update(i, (key, c));
    if i == states.len() - 1 {
        assert(u.drop_last() =~= states.drop_last());
    } else {
        assert(u.drop_last() =~= states.drop_last().update(i, (key, c)));
        if states.last().0 != other {
            lemma_find_resource_update(states.drop_last(), i, key, c, other);
        }
    }
}

/// Reporting on one resource leaves the circuits of every other resource as they were.
pub proof fn law_report_keeps_other_resources(
    b: CompositeView,
    key: Seq<char>,
    ret: RetStatus,
    now: u64,
    other: Seq<char>,
)
    requires
        other != key,
    ensures
        circuits_of(spec_composite_report(b, key, ret, now).states, other) == circuits_of(b.states, other),
{
    lemma_find_resource(b.states, key);
    let after = spec_composite_report(b, key, ret, now);
    match find_resource(b.states, key) {
        Some(i) => {
            lemma_find_resource_update(b.states, i, key, spec_report_all(b.states[i].1, ret, now), other);
            lemma_find_resource(b.states, other);
            match find_resource(b.states, other) {
                Some(j) => {
                    assert(j != i);
                },
                None => {},
            }
        },
        None => {
            let pushed = b.states.push((key, spec_report_all(spec_new_states(b.rules), ret, now)));
            assert(pushed.drop_last() =~= b.states);
            assert(find_resource(pushed, other) == find_resource(b.states, other));
            lemma_find_resource(b.states, other);
            match find_resource(b.states, other) {
                Some(j) => {
                    assert(pushed[j] == b.states[j]);
                },
                None => {},
            }
        },
    }
}

/// Checking one resource leaves the circuits of every other resource as they were.
pub proof fn law_check_keeps_other_resources(b: CompositeView, key: Seq<char>, now: u64, other: Seq<char>)
    requires
        other != key,
    ensures
        circuits_of(spec_composite_check(b, key, now).0.states, other) == circuits_of(b.states, other),
{
    lemma_find_resource(b.states, key);
    match find_resource(b.states, key) {
        Some(i) => {
            let r = spec_check_from(b.states[i].1, now, 0, None);
            lemma_find_resource_update(b.states, i, key, r.0, other);
            lemma_find_resource(b.states, other);
            match find_resource(b.states, other) {
                Some(j) => {
                    assert(j != i);
                },
                None => {},
            }
        },
        None => {},
    }
}

} // verus!
