//! Quota leases over the local counter: a lease's reports and settlement carried to each
//! local reservation it holds.

use vstd::prelude::*;
use crate::model::{ErrorCode, PoleError};
use crate::traffic::ratelimit::api::{
    LeaseView, QuotaConsumption, QuotaLease, UpdateError, consumption_index, covers,
    law_reapplying_totals_changes_nothing, spec_apply_updates, update_error_code,
    update_error_message,
};
use crate::specification::{FailoverType, LimitTrigger, RateLimit};
use crate::traffic::ratelimit::counter::{
    COMPLETED_TTL_MS, CounterView, LocalLeaseBackend, LocalLeaseState, LocalQuotaCounter, LocalReserveResult, QuotaWindow,
    ReserveOutcome, counts_of, new_lease_ok, result_matches, spec_cleanup, spec_finish,
    spec_reserve_counts, spec_update, ttl_error_message,
};
use crate::traffic::ratelimit::default::{
    consumption_for, initial_consumptions, matching_quota_triggers, quota_rejected,
    spec_initial_consumption, spec_matching_triggers, spec_quota_resource,
    spec_uses_distributed_quota, spec_uses_local_counter, uses_distributed_quota, uses_local_counter,
};
use crate::traffic::ratelimit::req::{QuotaAmount, QuotaRequest, QuotaResource, resource_name, spec_ttl_ms};
use crate::keyed::{key_lookup, key_remove, key_store, keyed_view};

verus! {

/// The refusal for a report that lacks a reserved resource.
pub open spec fn missing_consumption(b: LocalLeaseBackend) -> (ErrorCode, Seq<char>) {
    (ErrorCode::ApiInvalidArgument, "quota consumption for "@ + resource_name(b.resource) + " is missing"@)
}

/// A report carried to one local reservation: its resource's total recorded under the
/// sequence number.
pub open spec fn spec_backend_update(c: CounterView, b: LocalLeaseBackend, cons: Seq<QuotaConsumption>, seq: u64, now: u64) -> (CounterView, Option<(ErrorCode, Seq<char>)>) {
    match consumption_index(cons, b.resource) {
        None => (c, Some(missing_consumption(b))),
        Some(j) => spec_update(c, b.lease_id@, cons[j].consumed_total, seq, now),
    }
}

/// A settlement carried to one local reservation.
pub open spec fn spec_backend_finish(c: CounterView, b: LocalLeaseBackend, cons: Seq<QuotaConsumption>, seq: u64, now: u64) -> (CounterView, Option<(ErrorCode, Seq<char>)>) {
    match consumption_index(cons, b.resource) {
        None => (c, Some(missing_consumption(b))),
        Some(j) => spec_finish(c, b.lease_id@, cons[j].consumed_total, seq, now),
    }
}

/// A report carried to each reservation in turn, stopping at the first refusal.
pub open spec fn spec_backends_update(c: CounterView, bs: Seq<LocalLeaseBackend>, cons: Seq<QuotaConsumption>, seq: u64, now: u64) -> (CounterView, Option<(ErrorCode, Seq<char>)>)
    decreases bs.len(),
{
    if bs.len() == 0 {
        (c, None)
    } else {
        let p = spec_backends_update(c, bs.drop_last(), cons, seq, now);
        match p.1 {
            Some(e) => p,
            None => spec_backend_update(p.0, bs.last(), cons, seq, now),
        }
    }
}

/// A settlement carried to each reservation in turn, stopping at the first refusal.
pub open spec fn spec_backends_finish(c: CounterView, bs: Seq<LocalLeaseBackend>, cons: Seq<QuotaConsumption>, seq: u64, now: u64) -> (CounterView, Option<(ErrorCode, Seq<char>)>)
    decreases bs.len(),
{
    if bs.len() == 0 {
        (c, None)
    } else {
        let p = spec_backends_finish(c, bs.drop_last(), cons, seq, now);
        match p.1 {
            Some(e) => p,
            None => spec_backend_finish(p.0, bs.last(), cons, seq, now),
        }
    }
}

/// A settlement carried to every reservation whatever each answers (a lease given up).
pub open spec fn spec_backends_abandon(c: CounterView, bs: Seq<LocalLeaseBackend>, cons: Seq<QuotaConsumption>, seq: u64, now: u64) -> CounterView
    decreases bs.len(),
{
    if bs.len() == 0 {
        c
    } else {
        spec_backend_finish(spec_backends_abandon(c, bs.drop_last(), cons, seq, now), bs.last(), cons, seq, now).0
    }
}

impl LocalLeaseBackend {
    pub fn update(&self, counter: &mut LocalQuotaCounter, consumptions: &Vec<QuotaConsumption>, sequence: u64, now: u64) -> (r: Result<(), PoleError>)
        ensures
            final(counter)@ == spec_backend_update(old(counter)@, *self, consumptions@, sequence, now).0,
            result_matches(r, spec_backend_update(old(counter)@, *self, consumptions@, sequence, now).1),
    {
        let total = consumption_for(consumptions, self.resource)?;
        counter.update_lease(self.lease_id.as_str(), total, sequence, now)
    }

    pub fn finish(&self, counter: &mut LocalQuotaCounter, consumptions: &Vec<QuotaConsumption>, sequence: u64, now: u64) -> (r: Result<(), PoleError>)
        requires
            now + COMPLETED_TTL_MS <= u64::MAX,
        ensures
            final(counter)@ == spec_backend_finish(old(counter)@, *self, consumptions@, sequence, now).0,
            result_matches(r, spec_backend_finish(old(counter)@, *self, consumptions@, sequence, now).1),
    {
        let total = consumption_for(consumptions, self.resource)?;
        counter.finish_lease(self.lease_id.as_str(), total, sequence, now)
    }

    /// Settles with the given totals, ignoring a refusal.
    pub fn abandon(&self, counter: &mut LocalQuotaCounter, consumptions: &Vec<QuotaConsumption>, sequence: u64, now: u64)
        requires
            now + COMPLETED_TTL_MS <= u64::MAX,
        ensures
            final(counter)@ == spec_backend_finish(old(counter)@, *self, consumptions@, sequence, now).0,
    {
        let _ = self.finish(counter, consumptions, sequence, now);
    }
}

fn update_all(backends: &Vec<LocalLeaseBackend>, counter: &mut LocalQuotaCounter, consumptions: &Vec<QuotaConsumption>, sequence: u64, now: u64) -> (r: Result<(), PoleError>)
    ensures
        final(counter)@ == spec_backends_update(old(counter)@, backends@, consumptions@, sequence, now).0,
        result_matches(r, spec_backends_update(old(counter)@, backends@, consumptions@, sequence, now).1),
{
    let ghost start = counter@;
    let mut i: usize = 0;
    assert(backends@.subrange(0, 0) =~= Seq::<LocalLeaseBackend>::empty());
    while i < backends.len()
        invariant
            i <= backends@.len(),
            start == old(counter)@,
            spec_backends_update(start, backends@.subrange(0, i as int), consumptions@, sequence, now) == (counter@, None::<(ErrorCode, Seq<char>)>),
        decreases backends@.len() - i,
    {
        let ghost pre = backends@.subrange(0, i + 1);
        assert(pre.drop_last() =~= backends@.subrange(0, i as int));
        let r = backends[i].update(counter, consumptions, sequence, now);
        if r.is_err() {
            proof {
                lemma_update_stops(start, backends@, consumptions@, sequence, now, i + 1);
            }
            return r;
        }
        i = i + 1;
    }
    assert(backends@.subrange(0, backends@.len() as int) =~= backends@);
    Ok(())
}

proof fn lemma_update_stops(c: CounterView, bs: Seq<LocalLeaseBackend>, cons: Seq<QuotaConsumption>, seq: u64, now: u64, n: int)
    requires
        0 <= n <= bs.len(),
        spec_backends_update(c, bs.subrange(0, n), cons, seq, now).1 is Some,
    ensures
        spec_backends_update(c, bs, cons, seq, now) == spec_backends_update(c, bs.subrange(0, n), cons, seq, now),
    decreases bs.len() - n,
{
    if n == bs.len() {
        assert(bs.subrange(0, n) =~= bs);
    } else {
        assert(bs.subrange(0, n + 1).drop_last() =~= bs.subrange(0, n));
        lemma_update_stops(c, bs, cons, seq, now, n + 1);
    }
}

fn finish_all(backends: &Vec<LocalLeaseBackend>, counter: &mut LocalQuotaCounter, consumptions: &Vec<QuotaConsumption>, sequence: u64, now: u64) -> (r: Result<(), PoleError>)
    requires
        now + COMPLETED_TTL_MS <= u64::MAX,
    ensures
        final(counter)@ == spec_backends_finish(old(counter)@, backends@, consumptions@, sequence, now).0,
        result_matches(r, spec_backends_finish(old(counter)@, backends@, consumptions@, sequence, now).1),
{
    let ghost start = counter@;
    let mut i: usize = 0;
    assert(backends@.subrange(0, 0) =~= Seq::<LocalLeaseBackend>::empty());
    while i < backends.len()
        invariant
            i <= backends@.len(),
            now + COMPLETED_TTL_MS <= u64::MAX,
            start == old(counter)@,
            spec_backends_finish(start, backends@.subrange(0, i as int), consumptions@, sequence, now) == (counter@, None::<(ErrorCode, Seq<char>)>),
        decreases backends@.len() - i,
    {
        let ghost pre = backends@.subrange(0, i + 1);
        assert(pre.drop_last() =~= backends@.subrange(0, i as int));
        let r = backends[i].finish(counter, consumptions, sequence, now);
        if r.is_err() {
            proof {
                lemma_finish_stops(start, backends@, consumptions@, sequence, now, i + 1);
            }
            return r;
        }
        i = i + 1;
    }
    assert(backends@.subrange(0, backends@.len() as int) =~= backends@);
    Ok(())
}

proof fn lemma_finish_stops(c: CounterView, bs: Seq<LocalLeaseBackend>, cons: Seq<QuotaConsumption>, seq: u64, now: u64, n: int)
    requires
        0 <= n <= bs.len(),
        spec_backends_finish(c, bs.subrange(0, n), cons, seq, now).1 is Some,
    ensures
        spec_backends_finish(c, bs, cons, seq, now) == spec_backends_finish(c, bs.subrange(0, n), cons, seq, now),
    decreases bs.len() - n,
{
    if n == bs.len() {
        assert(bs.subrange(0, n) =~= bs);
    } else {
        assert(bs.subrange(0, n + 1).drop_last() =~= bs.subrange(0, n));
        lemma_finish_stops(c, bs, cons, seq, now, n + 1);
    }
}

/// Settles every reservation with the given totals, whatever each answers.
pub fn abandon_all(backends: &Vec<LocalLeaseBackend>, counter: &mut LocalQuotaCounter, consumptions: &Vec<QuotaConsumption>, sequence: u64, now: u64)
    requires
        now + COMPLETED_TTL_MS <= u64::MAX,
    ensures
        final(counter)@ == spec_backends_abandon(old(counter)@, backends@, consumptions@, sequence, now),
{
    let ghost start = counter@;
    let mut i: usize = 0;
    assert(backends@.subrange(0, 0) =~= Seq::<LocalLeaseBackend>::empty());
    while i < backends.len()
        invariant
            i <= backends@.len(),
            now + COMPLETED_TTL_MS <= u64::MAX,
            spec_backends_abandon(start, backends@.subrange(0, i as int), consumptions@, sequence, now) == counter@,
        decreases backends@.len() - i,
    {
        let ghost pre = backends@.subrange(0, i + 1);
        assert(pre.drop_last() =~= backends@.subrange(0, i as int));
        backends[i].abandon(counter, consumptions, sequence, now);
        i = i + 1;
    }
    assert(backends@.subrange(0, backends@.len() as int) =~= backends@);
}

/// What a lease asks of its reservations and becomes: the lease and counter afterwards and
/// the refusal, if any, for a report of `updates` at `now`. Nothing changes when the
/// totals stay; a refusal by a reservation leaves the lease as it was.
pub open spec fn spec_lease_update(l: LeaseView, bs: Seq<LocalLeaseBackend>, c: CounterView, updates: Seq<QuotaConsumption>, now: u64) -> (LeaseView, CounterView, Option<(ErrorCode, Seq<char>)>) {
    match spec_apply_updates(l.reservations, l.consumptions, updates, l.finished) {
        Err(e) => (l, c, Some((update_error_code(e), update_error_message(e)))),
        Ok(next) => if next == l.consumptions {
            (l, c, None)
        } else if l.sequence == u64::MAX {
            (l, c, Some((ErrorCode::InvalidState, "quota lease sequence is exhausted"@)))
        } else {
            let f = spec_backends_update(c, bs, next, (l.sequence + 1) as u64, now);
            match f.1 {
                Some(e) => (l, f.0, Some(e)),
                None => (LeaseView { consumptions: next, sequence: (l.sequence + 1) as u64, ..l }, f.0, None),
            }
        },
    }
}

/// The same for a settlement: a finished lease accepts only its own totals again.
pub open spec fn spec_lease_finish(l: LeaseView, bs: Seq<LocalLeaseBackend>, c: CounterView, updates: Seq<QuotaConsumption>, now: u64) -> (LeaseView, CounterView, Option<(ErrorCode, Seq<char>)>) {
    match spec_apply_updates(l.reservations, l.consumptions, updates, false) {
        Err(e) => (l, c, Some((update_error_code(e), update_error_message(e)))),
        Ok(next) => if l.finished {
            if next == l.consumptions {
                (l, c, None)
            } else {
                (l, c, Some((ErrorCode::InvalidState, "quota lease is already finished"@)))
            }
        } else if l.sequence == u64::MAX {
            (l, c, Some((ErrorCode::InvalidState, "quota lease sequence is exhausted"@)))
        } else {
            let f = spec_backends_finish(c, bs, next, (l.sequence + 1) as u64, now);
            match f.1 {
                Some(e) => (l, f.0, Some(e)),
                None => (LeaseView { consumptions: next, sequence: (l.sequence + 1) as u64, finished: true, ..l }, f.0, None),
            }
        },
    }
}

/// Once a lease is finished, finishing it again with the totals it was finished with
/// changes nothing and is not refused, whatever the counter holds and whenever it comes;
/// and every report after the finish is refused as coming too late.
pub proof fn law_repeated_finish_is_a_no_op(
    l: LeaseView,
    bs: Seq<LocalLeaseBackend>,
    c: CounterView,
    updates: Seq<QuotaConsumption>,
    now: u64,
    later: CounterView,
    later_now: u64,
    later_updates: Seq<QuotaConsumption>,
)
    requires
        spec_lease_finish(l, bs, c, updates, now).2 is None,
    ensures
        ({
            let done = spec_lease_finish(l, bs, c, updates, now).0;
            &&& done.finished
            &&& spec_lease_finish(done, bs, later, updates, later_now) == (done, later, None::<(ErrorCode, Seq<char>)>)
            &&& spec_lease_update(done, bs, later, later_updates, later_now) == (done, later,
                Some((update_error_code(UpdateError::Finished), update_error_message(UpdateError::Finished))))
        }),
{
    let next = spec_apply_updates(l.reservations, l.consumptions, updates, false)->Ok_0;
    assert(spec_apply_updates(l.reservations, l.consumptions, updates, false) is Ok);
    law_reapplying_totals_changes_nothing(l.reservations, l.consumptions, updates, next);
}

/// A lease held in the local counter: the reservations it made there.
pub struct LocalQuotaLease {
    lease: QuotaLease,
    backends: Vec<LocalLeaseBackend>,
}

impl LocalQuotaLease {
    pub closed spec fn lease_view(&self) -> LeaseView {
        self.lease@
    }

    pub closed spec fn backends(&self) -> Seq<LocalLeaseBackend> {
        self.backends@
    }

    pub closed spec fn wf(&self) -> bool {
        self.lease.wf()
    }

    pub fn new(reservations: Vec<QuotaAmount>, consumptions: Vec<QuotaConsumption>, backends: Vec<LocalLeaseBackend>) -> (r: LocalQuotaLease)
        requires
            covers(reservations@, consumptions@),
        ensures
            r.wf(),
            r.lease_view().reservations == reservations@,
            r.lease_view().consumptions == consumptions@,
            r.lease_view().sequence == 0,
            !r.lease_view().finished,
            r.backends() == backends@,
    {
        LocalQuotaLease { lease: QuotaLease::new(reservations, consumptions), backends }
    }

    /// Reports cumulative totals per resource; resources not listed keep their totals.
    pub fn update_consumptions(&mut self, counter: &mut LocalQuotaCounter, updates: &Vec<QuotaConsumption>, now: u64) -> (r: Result<(), PoleError>)
        requires
            old(self).wf(),
        ensures
            final(self).wf(),
            final(self).backends() == old(self).backends(),
            ({
                let u = spec_lease_update(old(self).lease_view(), old(self).backends(), old(counter)@, updates@, now);
                &&& final(self).lease_view() == u.0
                &&& final(counter)@ == u.1
                &&& result_matches(r, u.2)
            }),
    {
        match self.lease.plan_update(updates)? {
            None => Ok(()),
            Some(op) => {
                update_all(&self.backends, counter, &op.consumptions, op.sequence, now)?;
                self.lease.commit_update(op);
                Ok(())
            },
        }
    }

    /// Settles with cumulative totals per resource; resources not listed keep their totals.
    pub fn finish_consumptions(&mut self, counter: &mut LocalQuotaCounter, updates: &Vec<QuotaConsumption>, now: u64) -> (r: Result<(), PoleError>)
        requires
            old(self).wf(),
            now + COMPLETED_TTL_MS <= u64::MAX,
        ensures
            final(self).wf(),
            final(self).backends() == old(self).backends(),
            ({
                let u = spec_lease_finish(old(self).lease_view(), old(self).backends(), old(counter)@, updates@, now);
                &&& final(self).lease_view() == u.0
                &&& final(counter)@ == u.1
                &&& result_matches(r, u.2)
            }),
    {
        match self.lease.plan_finish(updates)? {
            None => Ok(()),
            Some(op) => {
                finish_all(&self.backends, counter, &op.consumptions, op.sequence, now)?;
                self.lease.commit_finish(op);
                Ok(())
            },
        }
    }

    /// Settles the local reservations of a lease given up before it finished, with its
    /// last confirmed totals; a finished lease has nothing to settle.
    pub fn abandon(&self, counter: &mut LocalQuotaCounter, now: u64)
        requires
            now + COMPLETED_TTL_MS <= u64::MAX,
        ensures
            final(counter)@ == if self.lease_view().finished || self.lease_view().sequence == u64::MAX {
                old(counter)@
            } else {
                spec_backends_abandon(old(counter)@, self.backends(), self.lease_view().consumptions, (self.lease_view().sequence + 1) as u64, now)
            },
    {
        match self.lease.plan_abandon() {
            None => {},
            Some(op) => abandon_all(&self.backends, counter, &op.consumptions, op.sequence, now),
        }
    }
}

impl LocalQuotaLease {
    /// Reports the cumulative total of a single-resource lease.
    pub fn update(&mut self, counter: &mut LocalQuotaCounter, consumed_total: u32, now: u64) -> (r: Result<(), PoleError>)
        requires
            old(self).wf(),
        ensures
            final(self).wf(),
            final(self).backends() == old(self).backends(),
            old(self).lease_view().reservations.len() == 1 ==> ({
                let u = spec_lease_update(old(self).lease_view(), old(self).backends(), old(counter)@,
                    seq![QuotaConsumption { resource: old(self).lease_view().reservations[0].resource, consumed_total }], now);
                &&& final(self).lease_view() == u.0
                &&& final(counter)@ == u.1
                &&& result_matches(r, u.2)
            }),
            old(self).lease_view().reservations.len() != 1 ==> (r matches Err(e) && e.code == ErrorCode::ApiInvalidArgument
                && final(self).lease_view() == old(self).lease_view() && final(counter)@ == old(counter)@),
    {
        let resource = self.lease.single_resource()?;
        let mut updates: Vec<QuotaConsumption> = Vec::new();
        updates.push(QuotaConsumption { resource, consumed_total });
        assert(updates@ =~= seq![QuotaConsumption { resource, consumed_total }]);
        self.update_consumptions(counter, &updates, now)
    }

    /// Settles a single-resource lease with its cumulative total.
    pub fn finish(&mut self, counter: &mut LocalQuotaCounter, consumed_total: u32, now: u64) -> (r: Result<(), PoleError>)
        requires
            old(self).wf(),
            now + COMPLETED_TTL_MS <= u64::MAX,
        ensures
            final(self).wf(),
            final(self).backends() == old(self).backends(),
            old(self).lease_view().reservations.len() == 1 ==> ({
                let u = spec_lease_finish(old(self).lease_view(), old(self).backends(), old(counter)@,
                    seq![QuotaConsumption { resource: old(self).lease_view().reservations[0].resource, consumed_total }], now);
                &&& final(self).lease_view() == u.0
                &&& final(counter)@ == u.1
                &&& result_matches(r, u.2)
            }),
            old(self).lease_view().reservations.len() != 1 ==> (r matches Err(e) && e.code == ErrorCode::ApiInvalidArgument
                && final(self).lease_view() == old(self).lease_view() && final(counter)@ == old(counter)@),
    {
        let resource = self.lease.single_resource()?;
        let mut updates: Vec<QuotaConsumption> = Vec::new();
        updates.push(QuotaConsumption { resource, consumed_total });
        assert(updates@ =~= seq![QuotaConsumption { resource, consumed_total }]);
        self.finish_consumptions(counter, &updates, now)
    }
}

/// A quota of a request to reserve under a trigger: the rule's and trigger's positions and
/// the amount.
#[derive(Clone, Copy, Debug)]
pub struct QuotaSpec {
    pub rule: usize,
    pub trigger: usize,
    pub amount: u32,
}

/// The quotas of a request to reserve at the quota servers and at the local counter.
pub struct QuotaPlan {
    pub distributed: Vec<QuotaSpec>,
    pub local: Vec<QuotaSpec>,
}

pub open spec fn in_bounds(rules: Seq<RateLimit>, rule: usize, trigger: usize) -> bool {
    rule < rules.len() && trigger < rules[rule as int].rules@.len()
}

pub open spec fn trigger_at(rules: Seq<RateLimit>, rule: usize, trigger: usize) -> LimitTrigger {
    rules[rule as int].rules@[trigger as int]
}

/// The first of the given triggers, in order, that counts a resource.
pub open spec fn first_for_resource(rules: Seq<RateLimit>, es: Seq<(usize, usize)>, res: QuotaResource) -> Option<(usize, usize)>
    decreases es.len(),
{
    if es.len() == 0 {
        None
    } else if in_bounds(rules, es[0].0, es[0].1) && spec_quota_resource(trigger_at(rules, es[0].0, es[0].1).resource) == Some(res) {
        Some(es[0])
    } else {
        first_for_resource(rules, es.drop_first(), res)
    }
}

/// The trigger a request's quota of a resource falls under: the first trigger the request
/// falls under that counts the resource.
pub open spec fn spec_selected(req: QuotaRequest, rules: Seq<RateLimit>, res: QuotaResource) -> Option<(usize, usize)> {
    first_for_resource(rules, spec_matching_triggers(req, rules), res)
}

/// The request's quotas, in order, whose triggers count at the quota servers (`distributed`)
/// or, else, at the local counter.
pub open spec fn planned(req: QuotaRequest, rules: Seq<RateLimit>, quotas: Seq<QuotaAmount>, distributed: bool) -> Seq<QuotaSpec>
    decreases quotas.len(),
{
    if quotas.len() == 0 {
        Seq::empty()
    } else {
        let prev = planned(req, rules, quotas.drop_last(), distributed);
        let q = quotas.last();
        match spec_selected(req, rules, q.resource) {
            Some(e) => {
                let rl = rules[e.0 as int];
                let t = trigger_at(rules, e.0, e.1);
                let d = spec_uses_distributed_quota(rl, t);
                let take = if distributed { d } else { !d && spec_uses_local_counter(rl, t) };
                if take { prev.push(QuotaSpec { rule: e.0, trigger: e.1, amount: q.amount }) } else { prev }
            },
            None => prev,
        }
    }
}

proof fn lemma_first_for_resource(rules: Seq<RateLimit>, es: Seq<(usize, usize)>, res: QuotaResource)
    ensures
        first_for_resource(rules, es, res) matches Some(e) ==> in_bounds(rules, e.0, e.1),
    decreases es.len(),
{
    if es.len() > 0 {
        lemma_first_for_resource(rules, es.drop_first(), res);
    }
}

fn select_for_resource(rules: &Vec<RateLimit>, es: &Vec<(usize, usize)>, res: QuotaResource) -> (r: Option<(usize, usize)>)
    ensures
        r == first_for_resource(rules@, es@, res),
{
    let mut i: usize = 0;
    assert(es@.subrange(0, es@.len() as int) =~= es@);
    while i < es.len()
        invariant
            i <= es@.len(),
            first_for_resource(rules@, es@, res) == first_for_resource(rules@, es@.subrange(i as int, es@.len() as int), res),
        decreases es@.len() - i,
    {
        let ghost rest = es@.subrange(i as int, es@.len() as int);
        assert(rest.drop_first() =~= es@.subrange(i + 1, es@.len() as int));
        assert(rest[0] == es@[i as int]);
        let e = es[i];
        if e.0 < rules.len() && e.1 < rules[e.0].rules.len() {
            let q = crate::traffic::ratelimit::default::quota_resource(rules[e.0].rules[e.1].resource);
            if q == Some(res) {
                return Some(e);
            }
        }
        i = i + 1;
    }
    None
}

pub open spec fn specs_in_bounds(rules: Seq<RateLimit>, specs: Seq<QuotaSpec>) -> bool {
    forall|k: int| 0 <= k < specs.len() ==> in_bounds(rules, (#[trigger] specs[k]).rule, specs[k].trigger)
}

/// Which quotas of a request are reserved where.
pub fn plan_quota_reservation(req: &QuotaRequest, rules: &Vec<RateLimit>) -> (r: QuotaPlan)
    ensures
        r.distributed@ == planned(*req, rules@, req.quotas@, true),
        r.local@ == planned(*req, rules@, req.quotas@, false),
        specs_in_bounds(rules@, r.distributed@),
        specs_in_bounds(rules@, r.local@),
{
    let es = matching_quota_triggers(req, rules);
    let mut distributed: Vec<QuotaSpec> = Vec::new();
    let mut local: Vec<QuotaSpec> = Vec::new();
    let mut i: usize = 0;
    while i < req.quotas.len()
        invariant
            i <= req.quotas@.len(),
            es@ == spec_matching_triggers(*req, rules@),
            distributed@ == planned(*req, rules@, req.quotas@.subrange(0, i as int), true),
            local@ == planned(*req, rules@, req.quotas@.subrange(0, i as int), false),
            specs_in_bounds(rules@, distributed@),
            specs_in_bounds(rules@, local@),
        decreases req.quotas@.len() - i,
    {
        let ghost pre = req.quotas@.subrange(0, i + 1);
        assert(pre.drop_last() =~= req.quotas@.subrange(0, i as int));
        let q = req.quotas[i];
        assert(pre.last() == q);
        proof {
            lemma_first_for_resource(rules@, es@, q.resource);
        }
        match select_for_resource(rules, &es, q.resource) {
            Some(e) => {
                let rl = &rules[e.0];
                let t = &rl.rules[e.1];
                if uses_distributed_quota(rl, t) {
                    distributed.push(QuotaSpec { rule: e.0, trigger: e.1, amount: q.amount });
                } else if uses_local_counter(rl, t) {
                    local.push(QuotaSpec { rule: e.0, trigger: e.1, amount: q.amount });
                }
            },
            None => {},
        }
        i = i + 1;
    }
    assert(req.quotas@.subrange(0, req.quotas@.len() as int) =~= req.quotas@);
    QuotaPlan { distributed, local }
}

/// A reservation at the local counter as a lease step: granted with its reservation,
/// refused for want of quota, or nothing to reserve; otherwise as the counter reserves.
pub open spec fn spec_reserve_step(
    before: CounterView,
    after: CounterView,
    req: QuotaRequest,
    rule: RateLimit,
    trigger: LimitTrigger,
    amount: u32,
    now: u64,
    r: Result<Option<LocalLeaseBackend>, PoleError>,
) -> bool {
    let c0 = spec_cleanup(before, now);
    if now + spec_ttl_ms(req) > u64::MAX {
        &&& after == c0
        &&& r matches Err(e) && e.code == ErrorCode::ApiInvalidArgument && e.message@ == ttl_error_message()
    } else {
        let expires_at = (now + spec_ttl_ms(req)) as u64;
        let out = spec_reserve_counts(counts_of(c0), req, rule, trigger, amount, now, expires_at);
        &&& counts_of(after) == out.0
        &&& after.completed == c0.completed
        &&& match out.1 {
            ReserveOutcome::Lease => r matches Ok(Some(b))
                && Some(b.resource) == spec_quota_resource(trigger.resource)
                && (key_lookup(after.leases, b.lease_id@) matches Some(l)
                && new_lease_ok(l, counts_of(c0), req, rule, trigger, amount, now, expires_at)
                && after.leases == key_store(c0.leases, b.lease_id@, l)),
            ReserveOutcome::Rejected(m) => r matches Err(e) && e.code == ErrorCode::RequestLimit
                && e.message@ == m && after.leases == c0.leases,
            ReserveOutcome::NotConfigured => r matches Ok(None) && after.leases == c0.leases,
        }
    }
}

/// Reserves one quota at the local counter.
pub fn reserve_local_quota(counter: &mut LocalQuotaCounter, req: &QuotaRequest, rules: &Vec<RateLimit>, spec: QuotaSpec, now: u64) -> (r: Result<Option<LocalLeaseBackend>, PoleError>)
    requires
        in_bounds(rules@, spec.rule, spec.trigger),
    ensures
        spec_reserve_step(old(counter)@, final(counter)@, *req, rules@[spec.rule as int], trigger_at(rules@, spec.rule, spec.trigger), spec.amount, now, r),
{
    let rule = &rules[spec.rule];
    let trigger = &rule.rules[spec.trigger];
    match counter.reserve(req, rule, trigger, spec.amount, now)? {
        LocalReserveResult::Reserved(backend) => Ok(Some(backend)),
        LocalReserveResult::Rejected(message) => Err(quota_rejected(message)),
        LocalReserveResult::NotConfigured => Ok(None),
    }
}

/// Reserves one quota whose quota servers could not be reached: nothing for a trigger that
/// lets requests pass, else at the local counter.
pub fn reserve_failover_quota(counter: &mut LocalQuotaCounter, req: &QuotaRequest, rules: &Vec<RateLimit>, spec: QuotaSpec, now: u64) -> (r: Result<Option<LocalLeaseBackend>, PoleError>)
    requires
        in_bounds(rules@, spec.rule, spec.trigger),
    ensures
        trigger_at(rules@, spec.rule, spec.trigger).failover == FailoverType::FailoverPass ==> (r matches Ok(None) && final(counter)@ == old(counter)@),
        trigger_at(rules@, spec.rule, spec.trigger).failover == FailoverType::FailoverLocal ==>
            spec_reserve_step(old(counter)@, final(counter)@, *req, rules@[spec.rule as int], trigger_at(rules@, spec.rule, spec.trigger), spec.amount, now, r),
{
    match rules[spec.rule].rules[spec.trigger].failover {
        FailoverType::FailoverPass => Ok(None),
        FailoverType::FailoverLocal => reserve_local_quota(counter, req, rules, spec, now),
    }
}

/// How the quota servers answered a reservation.
pub enum RemoteQuotaOutcome {
    /// Nothing was asked of them.
    NotRequested,
    /// They reserved the quotas.
    Reserved,
    /// They refused, with the reason.
    Rejected(String),
    /// They could not be reached.
    Failed(PoleError),
}

/// The lease a reservation starts with: every requested quota, nothing consumed but the one
/// request of a QPS quota.
pub open spec fn fresh_lease(req: QuotaRequest, l: LeaseView) -> bool {
    &&& l.reservations == req.quotas@
    &&& l.consumptions == req.quotas@.map_values(|q: QuotaAmount| spec_initial_consumption(q))
    &&& l.sequence == 0
    &&& !l.finished
}

/// One reservation step at the counter: for a failover, nothing for a trigger that lets
/// requests pass; otherwise as the counter reserves.
pub open spec fn spec_quota_step(
    before: CounterView,
    after: CounterView,
    req: QuotaRequest,
    rules: Seq<RateLimit>,
    spec: QuotaSpec,
    failover: bool,
    now: u64,
    r: Result<Option<LocalLeaseBackend>, PoleError>,
) -> bool {
    let trigger = trigger_at(rules, spec.rule, spec.trigger);
    if failover && trigger.failover == FailoverType::FailoverPass {
        &&& after == before
        &&& r matches Ok(x) && x is None
    } else {
        spec_reserve_step(before, after, req, rules[spec.rule as int], trigger, spec.amount, now, r)
    }
}

/// The reservations granted along the steps, in order.
pub open spec fn granted(results: Seq<Result<Option<LocalLeaseBackend>, PoleError>>) -> Seq<LocalLeaseBackend>
    decreases results.len(),
{
    if results.len() == 0 {
        Seq::empty()
    } else {
        let p = granted(results.drop_last());
        match results.last() {
            Ok(Some(b)) => p.push(b),
            _ => p,
        }
    }
}

/// Whether the steps stopped at a refusal.
pub open spec fn steps_failed(results: Seq<Result<Option<LocalLeaseBackend>, PoleError>>) -> bool {
    results.len() > 0 && results.last() is Err
}

/// Reserving quotas in order, stopping at the first refusal: `states` is the counter before
/// each step and after the last, `results` each step's result.
pub open spec fn spec_quota_steps(
    states: Seq<CounterView>,
    results: Seq<Result<Option<LocalLeaseBackend>, PoleError>>,
    req: QuotaRequest,
    rules: Seq<RateLimit>,
    specs: Seq<QuotaSpec>,
    failover: bool,
    now: u64,
) -> bool {
    &&& states.len() == results.len() + 1
    &&& results.len() <= specs.len()
    &&& forall|i: int| 0 <= i < results.len() ==> spec_quota_step(states[i], states[i + 1], req, rules, specs[i], failover, now, #[trigger] results[i])
    &&& forall|i: int| 0 <= i < results.len() - 1 ==> (#[trigger] results[i]) is Ok
    &&& results.len() < specs.len() ==> steps_failed(results)
}

/// The initial totals of a request's quotas.
pub open spec fn initial_totals(req: QuotaRequest) -> Seq<QuotaConsumption> {
    req.quotas@.map_values(|q: QuotaAmount| spec_initial_consumption(q))
}

/// Whether anything is to be reserved at the counter: the distributed quotas on failover
/// when the servers could not be reached, or local quotas unless the servers refused.
pub open spec fn reserves_anything(plan: QuotaPlan, remote: RemoteQuotaOutcome) -> bool {
    ||| plan.distributed@.len() > 0 && remote is Failed
    ||| plan.local@.len() > 0 && !(plan.distributed@.len() > 0 && remote is Rejected)
}

/// The counter a reservation starts from: its expired leases settled when anything is to
/// be reserved.
pub open spec fn reservation_start(before: CounterView, plan: QuotaPlan, remote: RemoteQuotaOutcome, now: u64) -> CounterView {
    if reserves_anything(plan, remote) { spec_cleanup(before, now) } else { before }
}

/// Leases with the granted ones forgotten.
pub open spec fn forget_granted(leases: Seq<(Seq<char>, LocalLeaseState)>, bs: Seq<LocalLeaseBackend>) -> Seq<(Seq<char>, LocalLeaseState)>
    decreases bs.len(),
{
    if bs.len() == 0 {
        leases
    } else {
        key_remove(forget_granted(leases, bs.drop_last()), bs.last().lease_id@)
    }
}

/// A reservation taken back: every window and concurrency count as at the start, the
/// leases granted on the way forgotten, remembered settlements as they were last.
pub open spec fn rolled_back(start: CounterView, last: CounterView, after: CounterView, bs: Seq<LocalLeaseBackend>) -> bool {
    &&& after.windows == start.windows
    &&& after.concurrency == start.concurrency
    &&& after.completed == last.completed
    &&& after.leases == forget_granted(last.leases, bs)
}

/// How a reservation of a request's local part goes, from the servers' answer: refused as
/// they refused, with the counter untouched; else, from the counter with its expired
/// leases settled, when the servers could not be reached the distributed quotas go to
/// their triggers' failover (`fs`, `fr`), and a refusal there takes everything back and
/// ends with the servers' error; then the local quotas are reserved (`ls`, `lr`), and a
/// refusal there takes everything back and ends with that refusal; otherwise the lease
/// holds every reservation granted, in order. The reservation is all or nothing.
pub open spec fn spec_reservation_run(
    before: CounterView,
    after: CounterView,
    req: QuotaRequest,
    rules: Seq<RateLimit>,
    plan: QuotaPlan,
    remote: RemoteQuotaOutcome,
    now: u64,
    fs: Seq<CounterView>,
    fr: Seq<Result<Option<LocalLeaseBackend>, PoleError>>,
    ls: Seq<CounterView>,
    lr: Seq<Result<Option<LocalLeaseBackend>, PoleError>>,
    r: Result<LocalQuotaLease, PoleError>,
) -> bool {
    let fallback = plan.distributed@.len() > 0 && remote is Failed;
    if plan.distributed@.len() > 0 && remote is Rejected {
        &&& after == before
        &&& r matches Err(e) && e.code == ErrorCode::RequestLimit
            && (remote matches RemoteQuotaOutcome::Rejected(m) && e.message@ == m@)
    } else {
        &&& fs.len() > 0
        &&& fs[0] == reservation_start(before, plan, remote, now)
        &&& (fallback ==> spec_quota_steps(fs, fr, req, rules, plan.distributed@, true, now))
        &&& (!fallback ==> fs.len() == 1 && fr.len() == 0)
        &&& if steps_failed(fr) {
            &&& rolled_back(fs[0], fs.last(), after, granted(fr))
            &&& r matches Err(e) && remote == RemoteQuotaOutcome::Failed(e)
        } else {
            &&& ls.len() > 0
            &&& ls[0] == fs.last()
            &&& spec_quota_steps(ls, lr, req, rules, plan.local@, false, now)
            &&& if steps_failed(lr) {
                &&& rolled_back(fs[0], ls.last(), after, granted(fr) + granted(lr))
                &&& r matches Err(e) && lr.last() == Err::<Option<LocalLeaseBackend>, PoleError>(e)
            } else {
                &&& after == ls.last()
                &&& r matches Ok(l) && l.wf() && fresh_lease(req, l.lease_view()) && l.backends() == granted(fr) + granted(lr)
            }
        }
    }
}

/// A reservation is all or nothing: whenever it ends in an error, every window and
/// concurrency count is as the reservation found it (the counter with its expired leases
/// settled), whatever was granted on the way.
pub proof fn law_refused_reservation_consumes_nothing(
    before: CounterView,
    after: CounterView,
    req: QuotaRequest,
    rules: Seq<RateLimit>,
    plan: QuotaPlan,
    remote: RemoteQuotaOutcome,
    now: u64,
    fs: Seq<CounterView>,
    fr: Seq<Result<Option<LocalLeaseBackend>, PoleError>>,
    ls: Seq<CounterView>,
    lr: Seq<Result<Option<LocalLeaseBackend>, PoleError>>,
    r: Result<LocalQuotaLease, PoleError>,
)
    requires
        spec_reservation_run(before, after, req, rules, plan, remote, now, fs, fr, ls, lr, r),
        r is Err,
    ensures
        after.windows == reservation_start(before, plan, remote, now).windows,
        after.concurrency == reservation_start(before, plan, remote, now).concurrency,
{
    if !(plan.distributed@.len() > 0 && remote is Rejected) && !steps_failed(fr) && !steps_failed(lr) {
        assert(r is Ok);
    }
}

/// Takes a reservation back: puts back the counts taken at its start and forgets the
/// leases granted.
fn roll_back(counter: &mut LocalQuotaCounter, windows: Vec<(String, QuotaWindow)>, concurrency: Vec<(String, u32)>, backends: &Vec<LocalLeaseBackend>)
    ensures
        final(counter)@.windows == keyed_view(windows@),
        final(counter)@.concurrency == keyed_view(concurrency@),
        final(counter)@.completed == old(counter)@.completed,
        final(counter)@.leases == forget_granted(old(counter)@.leases, backends@),
{
    counter.restore_counts(windows, concurrency);
    let ghost start = counter@.leases;
    let mut i: usize = 0;
    assert(backends@.subrange(0, 0) =~= Seq::<LocalLeaseBackend>::empty());
    while i < backends.len()
        invariant
            i <= backends@.len(),
            counter@.leases == forget_granted(start, backends@.subrange(0, i as int)),
            counter@.windows == keyed_view(windows@),
            counter@.concurrency == keyed_view(concurrency@),
            counter@.completed == old(counter)@.completed,
            start == old(counter)@.leases,
        decreases backends@.len() - i,
    {
        let ghost pre = backends@.subrange(0, i + 1);
        assert(pre.drop_last() =~= backends@.subrange(0, i as int));
        counter.forget_lease(backends[i].lease_id.as_str());
        i = i + 1;
    }
    assert(backends@.subrange(0, backends@.len() as int) =~= backends@);
}

/// Reserves quotas in order at the counter (as failovers, or locally), adding what is
/// granted to `backends`; stops at the first refusal.
fn reserve_in_order(
    counter: &mut LocalQuotaCounter,
    req: &QuotaRequest,
    rules: &Vec<RateLimit>,
    specs: &Vec<QuotaSpec>,
    failover: bool,
    now: u64,
    backends: &mut Vec<LocalLeaseBackend>,
) -> (out: (Result<(), PoleError>, Ghost<Seq<CounterView>>, Ghost<Seq<Result<Option<LocalLeaseBackend>, PoleError>>>))
    requires
        specs_in_bounds(rules@, specs@),
    ensures
        out.1@.len() > 0,
        out.1@[0] == old(counter)@,
        out.1@.last() == final(counter)@,
        spec_quota_steps(out.1@, out.2@, *req, rules@, specs@, failover, now),
        final(backends)@ == old(backends)@ + granted(out.2@),
        out.0 is Ok <==> !steps_failed(out.2@),
        out.0 matches Err(e) ==> out.2@.last() == Err::<Option<LocalLeaseBackend>, PoleError>(e),
{
    let ghost b0 = backends@;
    let ghost mut states: Seq<CounterView> = seq![counter@];
    let ghost mut results: Seq<Result<Option<LocalLeaseBackend>, PoleError>> = Seq::empty();
    let mut i: usize = 0;
    while i < specs.len()
        invariant
            i <= specs@.len(),
            specs_in_bounds(rules@, specs@),
            results.len() == i,
            states.len() == i + 1,
            states[0] == old(counter)@,
            states.last() == counter@,
            forall|j: int| 0 <= j < i ==> spec_quota_step(states[j], states[j + 1], *req, rules@, specs@[j], failover, now, #[trigger] results[j]),
            forall|j: int| 0 <= j < i ==> (#[trigger] results[j]) is Ok,
            backends@ == b0 + granted(results),
            b0 == old(backends)@,
        decreases specs@.len() - i,
    {
        let ghost c_before = counter@;
        let r = if failover {
            reserve_failover_quota(counter, req, rules, specs[i], now)
        } else {
            reserve_local_quota(counter, req, rules, specs[i], now)
        };
        let ghost gr = r;
        let ghost prev = results;
        let ghost prev_backends = backends@;
        proof {
            states = states.push(counter@);
            results = results.push(gr);
            assert(results.drop_last() =~= prev);
            assert(results.drop_last() =~= results.subrange(0, i as int));
            assert(spec_quota_step(states[i as int], states[i + 1], *req, rules@, specs@[i as int], failover, now, results[i as int]));
        }
        match r {
            Ok(Some(b)) => {
                backends.push(b);
                assert(granted(results) == granted(prev).push(b));
                assert(backends@ =~= b0 + granted(results));
            },
            Ok(None) => {},
            Err(e) => {
                assert(granted(results) == granted(prev));
                return (Err(e), Ghost(states), Ghost(results));
            },
        }
        proof {
            assert(results.drop_last() =~= results.subrange(0, i as int));
        }
        i = i + 1;
    }
    (Ok(()), Ghost(states), Ghost(results))
}

/// Reserves the local part of a request after the quota servers answered for the
/// distributed part: refused as they refused; when they could not be reached, the
/// distributed quotas fall back to their triggers' failover; then the local quotas are
/// reserved. A refusal along the way takes back everything reserved (the counts are put
/// back as they were when the reservation started) and ends the reservation with that
/// refusal; the failover's refusal ends it with the servers' error.
pub fn complete_quota_reservation(
    counter: &mut LocalQuotaCounter,
    req: &QuotaRequest,
    rules: &Vec<RateLimit>,
    plan: &QuotaPlan,
    remote: RemoteQuotaOutcome,
    now: u64,
) -> (r: Result<LocalQuotaLease, PoleError>)
    requires
        specs_in_bounds(rules@, plan.distributed@),
        specs_in_bounds(rules@, plan.local@),
        now + COMPLETED_TTL_MS <= u64::MAX,
    ensures
        exists|fs: Seq<CounterView>, fr: Seq<Result<Option<LocalLeaseBackend>, PoleError>>,
            ls: Seq<CounterView>, lr: Seq<Result<Option<LocalLeaseBackend>, PoleError>>|
            spec_reservation_run(old(counter)@, final(counter)@, *req, rules@, *plan, remote, now, fs, fr, ls, lr, r),
        plan.local@.len() == 0 && (plan.distributed@.len() == 0 || !(remote is Failed) && !(remote is Rejected)) ==> (r matches Ok(l)
            && final(counter)@ == old(counter)@ && l.backends().len() == 0),
        r matches Ok(l) ==> l.wf() && fresh_lease(*req, l.lease_view()),
{
    let ghost before = counter@;
    let ghost g_remote = remote;
    let initial = initial_consumptions(&req.quotas);
    let distributed = plan.distributed.len() > 0;
    let (is_rejected, is_failed) = match &remote {
        RemoteQuotaOutcome::Rejected(_) => (true, false),
        RemoteQuotaOutcome::Failed(_) => (false, true),
        _ => (false, false),
    };
    let reserves = (distributed && is_failed) || (plan.local.len() > 0 && !(distributed && is_rejected));
    if reserves {
        counter.cleanup_expired_local_leases(now);
    }
    let (window_snapshot, concurrency_snapshot) = counter.snapshot_counts();
    let ghost start = counter@;
    assert(start == reservation_start(before, *plan, g_remote, now));
    let mut backends: Vec<LocalLeaseBackend> = Vec::new();
    let ghost mut fs: Seq<CounterView> = seq![counter@];
    let ghost mut fr: Seq<Result<Option<LocalLeaseBackend>, PoleError>> = Seq::empty();
    if distributed {
        match remote {
            RemoteQuotaOutcome::Rejected(m) => {
                let e = quota_rejected(m);
                proof {
                    assert(spec_reservation_run(before, counter@, *req, rules@, *plan, g_remote, now, fs, fr, fs, fr, Err(e)));
                }
                return Err(e);
            },
            RemoteQuotaOutcome::Failed(error) => {
                let (res, Ghost(s), Ghost(rr)) = reserve_in_order(counter, req, rules, &plan.distributed, true, now, &mut backends);
                proof {
                    fs = s;
                    fr = rr;
                    assert(backends@ =~= granted(fr));
                }
                if res.is_err() {
                    roll_back(counter, window_snapshot, concurrency_snapshot, &backends);
                    proof {
                        assert(spec_reservation_run(before, counter@, *req, rules@, *plan, g_remote, now, fs, fr, fs, fr, Err(error)));
                    }
                    return Err(error);
                }
            },
            _ => {},
        }
    }
    let ghost granted_failover = backends@;
    let (res, Ghost(ls), Ghost(lr)) = reserve_in_order(counter, req, rules, &plan.local, false, now, &mut backends);
    match res {
        Err(e) => {
            roll_back(counter, window_snapshot, concurrency_snapshot, &backends);
            proof {
                assert(spec_reservation_run(before, counter@, *req, rules@, *plan, g_remote, now, fs, fr, ls, lr, Err(e)));
            }
            Err(e)
        },
        Ok(()) => {
            let lease = LocalQuotaLease::new(req.quotas.clone(), initial, backends);
            proof {
                assert(spec_reservation_run(before, counter@, *req, rules@, *plan, g_remote, now, fs, fr, ls, lr, Ok(lease)));
            }
            Ok(lease)
        },
    }
}

} // verus!
