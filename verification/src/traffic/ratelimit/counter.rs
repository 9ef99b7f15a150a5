//! The local quota counter: windows of consumable quota, concurrency occupancy, and the
//! leases that hold reservations in them until they are settled or expire.
//! Times are milliseconds.

use vstd::prelude::*;
use crate::keyed::{
    find_key, key_index, key_lookup, key_remove, key_store, keyed_view, lemma_key_index,
    lemma_key_store_other, lemma_key_store_same, store_key, take_key,
};
use crate::model::{ErrorCode, PoleError};
use crate::specification::{Amount, LimitResource, LimitTrigger, RateLimit};
use crate::traffic::ratelimit::default::{
    amount_duration, concurrency_counter_key, initial_consumed_total, quota_counter_key,
    spec_amount_duration, spec_concurrency_counter_key, spec_initial_consumed_total,
    spec_quota_counter_key, spec_quota_resource,
};
use crate::traffic::ratelimit::req::{QuotaRequest, QuotaResource, spec_ttl_ms};

verus! {

/// How long a settled lease is remembered, so that a repeated settlement is recognised.
pub const COMPLETED_TTL_MS: u64 = 60000;

/// One quota window.
#[derive(Clone, Copy, Debug)]
pub struct QuotaWindow {
    pub started_at: u64,
    pub generation: u64,
    pub committed: u32,
    pub reserved: u32,
}

/// Whether a lease consumes window quota or occupies concurrency.
#[derive(Clone, Copy, Debug, PartialEq, Eq, Structural)]
pub enum LocalAccounting {
    Consumable,
    Occupancy,
}

/// A lease's reservation in one window, valid for the window's generation.
pub struct LocalWindowReservation {
    pub key: String,
    pub generation: u64,
}

/// A lease not yet settled.
pub struct LocalLeaseState {
    pub accounting: LocalAccounting,
    pub reserved_amount: u32,
    pub consumed_total: u32,
    pub sequence: u64,
    pub expires_at: u64,
    pub windows: Vec<LocalWindowReservation>,
    pub concurrency_key: Option<String>,
}

/// A settled lease, remembered for a while.
#[derive(Clone, Copy, Debug)]
pub struct CompletedLocalLease {
    pub consumed_total: u32,
    pub sequence: u64,
    pub expires_at: u64,
}

/// The windows and concurrency counts.
pub struct Counts {
    pub windows: Seq<(Seq<char>, QuotaWindow)>,
    pub concurrency: Seq<(Seq<char>, u32)>,
}

/// The counter as values.
pub struct CounterView {
    pub windows: Seq<(Seq<char>, QuotaWindow)>,
    pub concurrency: Seq<(Seq<char>, u32)>,
    pub leases: Seq<(Seq<char>, LocalLeaseState)>,
    pub completed: Seq<(Seq<char>, CompletedLocalLease)>,
}

pub open spec fn sat_add(a: u32, b: u32) -> u32 {
    if a + b > u32::MAX { u32::MAX } else { (a + b) as u32 }
}

pub open spec fn sat_sub(a: u32, b: u32) -> u32 {
    if a < b { 0 } else { (a - b) as u32 }
}

/// Settles a lease in its windows: in each window of the same generation, the reservation
/// is returned and the consumption committed.
pub open spec fn settle_windows(
    ws: Seq<(Seq<char>, QuotaWindow)>,
    res: Seq<LocalWindowReservation>,
    amount: u32,
    total: u32,
) -> Seq<(Seq<char>, QuotaWindow)>
    decreases res.len(),
{
    if res.len() == 0 {
        ws
    } else {
        let ws1 = settle_windows(ws, res.drop_last(), amount, total);
        let r = res.last();
        match key_lookup(ws1, r.key@) {
            Some(w) if w.generation == r.generation => key_store(ws1, r.key@, QuotaWindow {
                started_at: w.started_at,
                generation: w.generation,
                committed: sat_add(w.committed, total),
                reserved: sat_sub(w.reserved, amount),
            }),
            _ => ws1,
        }
    }
}

/// Settles a lease: consumable leases in their windows, occupancy leases by releasing their
/// concurrency (a count that drops to zero is removed).
pub open spec fn spec_settle(c: Counts, lease: LocalLeaseState) -> Counts {
    match lease.accounting {
        LocalAccounting::Consumable => Counts {
            windows: settle_windows(c.windows, lease.windows@, lease.reserved_amount, lease.consumed_total),
            concurrency: c.concurrency,
        },
        LocalAccounting::Occupancy => match lease.concurrency_key {
            None => c,
            Some(k) => match key_lookup(c.concurrency, k@) {
                None => c,
                Some(occ) => {
                    let o2 = sat_sub(occ, lease.reserved_amount);
                    Counts {
                        windows: c.windows,
                        concurrency: if o2 == 0 { key_remove(c.concurrency, k@) } else { key_store(c.concurrency, k@, o2) },
                    }
                },
            },
        },
    }
}

/// Settles the expired leases, in order; the others are kept.
pub open spec fn cleanup_leases(c: Counts, leases: Seq<(Seq<char>, LocalLeaseState)>, now: u64) -> (Counts, Seq<(Seq<char>, LocalLeaseState)>)
    decreases leases.len(),
{
    if leases.len() == 0 {
        (c, leases)
    } else {
        let prev = cleanup_leases(c, leases.drop_last(), now);
        let l = leases.last();
        if l.1.expires_at <= now {
            (spec_settle(prev.0, l.1), prev.1)
        } else {
            (prev.0, prev.1.push(l))
        }
    }
}

/// The remembered settlements that have not expired.
pub open spec fn live_completed(s: Seq<(Seq<char>, CompletedLocalLease)>, now: u64) -> Seq<(Seq<char>, CompletedLocalLease)>
    decreases s.len(),
{
    if s.len() == 0 {
        s
    } else if s.last().1.expires_at > now {
        live_completed(s.drop_last(), now).push(s.last())
    } else {
        live_completed(s.drop_last(), now)
    }
}

/// The counter after expired leases are settled and expired settlements forgotten.
pub open spec fn spec_cleanup(c: CounterView, now: u64) -> CounterView {
    let r = cleanup_leases(Counts { windows: c.windows, concurrency: c.concurrency }, c.leases, now);
    CounterView {
        windows: r.0.windows,
        concurrency: r.0.concurrency,
        leases: r.1,
        completed: live_completed(c.completed, now),
    }
}

/// How a reservation at the local counter ended.
pub enum LocalReserveResult {
    /// Reserved under a lease of this counter.
    Reserved(LocalLeaseBackend),
    /// Refused, with the reason.
    Rejected(String),
    /// The trigger sets no quota the counter keeps.
    NotConfigured,
}

/// A lease at the local counter: its id and the resource it reserves.
pub struct LocalLeaseBackend {
    pub lease_id: String,
    pub resource: QuotaResource,
}

/// The outcome of reserving, before a lease is recorded.
pub enum ReserveOutcome {
    Lease,
    Rejected(Seq<char>),
    NotConfigured,
}

/// A window as found for a reservation at `now`: new, or restarted when its time is up.
pub open spec fn window_at(found: Option<QuotaWindow>, secs: u64, now: u64) -> QuotaWindow {
    match found {
        None => QuotaWindow { started_at: now, generation: 0, committed: 0, reserved: 0 },
        Some(w) => if (if now > w.started_at { now - w.started_at } else { 0 }) / 1000 >= secs {
            QuotaWindow { started_at: now, generation: w.generation.wrapping_add(1), committed: 0, reserved: 0 }
        } else {
            w
        },
    }
}

/// The configured window amounts of a trigger.
pub open spec fn configured(amounts: Seq<Amount>) -> Seq<Amount>
    decreases amounts.len(),
{
    if amounts.len() == 0 {
        amounts
    } else if amounts.last().max_amount > 0 {
        configured(amounts.drop_last()).push(amounts.last())
    } else {
        configured(amounts.drop_last())
    }
}

/// Checking the windows in order: each is found (created or restarted as needed and kept
/// so), and the reservation is refused at the first window it would overfill. Gives the
/// windows and either the reservations made or a refusal.
pub open spec fn check_windows(
    ws: Seq<(Seq<char>, QuotaWindow)>,
    req: QuotaRequest,
    rule: RateLimit,
    trigger: LimitTrigger,
    amounts: Seq<Amount>,
    amount: u32,
    now: u64,
) -> (Seq<(Seq<char>, QuotaWindow)>, Option<Seq<(Seq<char>, u64)>>)
    decreases amounts.len(),
{
    if amounts.len() == 0 {
        (ws, Some(Seq::empty()))
    } else {
        let prev = check_windows(ws, req, rule, trigger, amounts.drop_last(), amount, now);
        match prev.1 {
            None => prev,
            Some(done) => {
                let a = amounts.last();
                let secs = spec_amount_duration(a);
                let key = spec_quota_counter_key(req, rule, trigger, secs);
                let w = window_at(key_lookup(prev.0, key), secs, now);
                let ws2 = key_store(prev.0, key, w);
                if sat_add(sat_add(w.committed, w.reserved), amount) > a.max_amount {
                    (ws2, None)
                } else {
                    (ws2, Some(done.push((key, w.generation))))
                }
            },
        }
    }
}

/// Adds the reservation to each reserved window.
pub open spec fn add_reserved(ws: Seq<(Seq<char>, QuotaWindow)>, res: Seq<(Seq<char>, u64)>, amount: u32) -> Seq<(Seq<char>, QuotaWindow)>
    decreases res.len(),
{
    if res.len() == 0 {
        ws
    } else {
        let ws1 = add_reserved(ws, res.drop_last(), amount);
        let k = res.last().0;
        match key_lookup(ws1, k) {
            Some(w) => key_store(ws1, k, QuotaWindow {
                started_at: w.started_at,
                generation: w.generation,
                committed: w.committed,
                reserved: sat_add(w.reserved, amount),
            }),
            None => ws1,
        }
    }
}

pub open spec fn reservation_views(s: Seq<LocalWindowReservation>) -> Seq<(Seq<char>, u64)> {
    s.map_values(|r: LocalWindowReservation| (r.key@, r.generation))
}

/// Reserving `amount` for a trigger in cleaned counts, at `now`, for a lease expiring at
/// `expires_at`: the counts afterwards and the outcome.
pub open spec fn spec_reserve_counts(
    c: Counts,
    req: QuotaRequest,
    rule: RateLimit,
    trigger: LimitTrigger,
    amount: u32,
    now: u64,
    expires_at: u64,
) -> (Counts, ReserveOutcome) {
    match trigger.resource {
        LimitResource::Qps | LimitResource::Token => {
            let amounts = configured(trigger.amounts@);
            if amounts.len() == 0 {
                (c, ReserveOutcome::NotConfigured)
            } else {
                let chk = check_windows(c.windows, req, rule, trigger, amounts, amount, now);
                match chk.1 {
                    None => (Counts { windows: chk.0, concurrency: c.concurrency }, ReserveOutcome::Rejected("rate limit quota exhausted"@)),
                    Some(res) => (
                        Counts { windows: add_reserved(chk.0, res, amount), concurrency: c.concurrency },
                        ReserveOutcome::Lease,
                    ),
                }
            }
        },
        LimitResource::Concurrency => match trigger.concurrency_amount {
            None => (c, ReserveOutcome::NotConfigured),
            Some(max) => if max == 0 {
                (c, ReserveOutcome::NotConfigured)
            } else {
                let key = spec_concurrency_counter_key(req, rule, trigger);
                let occ = match key_lookup(c.concurrency, key) { Some(o) => o, None => 0 };
                if sat_add(occ, amount) > max {
                    (Counts { windows: c.windows, concurrency: key_store(c.concurrency, key, occ) }, ReserveOutcome::Rejected("rate limit concurrency exhausted"@))
                } else {
                    (
                        Counts { windows: c.windows, concurrency: key_store(c.concurrency, key, sat_add(occ, amount)) },
                        ReserveOutcome::Lease,
                    )
                }
            },
        },
        LimitResource::Unknown => (c, ReserveOutcome::NotConfigured),
    }
}

/// The window reservations of a consumable reservation that succeeds.
pub open spec fn spec_reserved_windows(
    c: Counts,
    req: QuotaRequest,
    rule: RateLimit,
    trigger: LimitTrigger,
    amount: u32,
    now: u64,
) -> Seq<(Seq<char>, u64)> {
    check_windows(c.windows, req, rule, trigger, configured(trigger.amounts@), amount, now).1.unwrap()
}

/// Whether a recorded lease is the one a reservation made: window quota for QPS and
/// tokens, held in the windows reserved, starting at one request for QPS; concurrency
/// under its counter key; nothing confirmed yet.
pub open spec fn new_lease_ok(l: LocalLeaseState, c: Counts, req: QuotaRequest, rule: RateLimit, trigger: LimitTrigger, amount: u32, now: u64, expires_at: u64) -> bool {
    &&& l.reserved_amount == amount
    &&& l.sequence == 0
    &&& l.expires_at == expires_at
    &&& if trigger.resource == LimitResource::Concurrency {
        &&& l.accounting == LocalAccounting::Occupancy
        &&& l.consumed_total == 0
        &&& l.windows@.len() == 0
        &&& l.concurrency_key matches Some(k) && k@ == spec_concurrency_counter_key(req, rule, trigger)
    } else {
        &&& l.accounting == LocalAccounting::Consumable
        &&& l.consumed_total == spec_initial_consumed_total(trigger.resource)
        &&& reservation_views(l.windows@) == spec_reserved_windows(c, req, rule, trigger, amount, now)
        &&& l.concurrency_key.is_none()
    }
}

pub open spec fn counts_of(c: CounterView) -> Counts {
    Counts { windows: c.windows, concurrency: c.concurrency }
}

/// Why a lease operation is refused: out of order, or a total outside the reservation.
pub open spec fn spec_validate(lease: LocalLeaseState, total: u32, sequence: u64) -> Option<(ErrorCode, Seq<char>)> {
    if sequence != (if lease.sequence == u64::MAX { u64::MAX } else { (lease.sequence + 1) as u64 }) {
        Some((ErrorCode::InvalidState, "quota lease operation sequence is out of order"@))
    } else if total < lease.consumed_total || total > lease.reserved_amount {
        Some((ErrorCode::ApiInvalidArgument, "quota lease cumulative consumption is outside its reservation"@))
    } else {
        None
    }
}

pub fn validate_local_operation(lease: &LocalLeaseState, consumed_total: u32, sequence: u64) -> (r: Result<(), PoleError>)
    ensures
        match spec_validate(*lease, consumed_total, sequence) {
            None => r is Ok,
            Some((code, m)) => r matches Err(e) && e.code == code && e.message@ == m,
        },
{
    if sequence != lease.sequence.saturating_add(1) {
        return Err(PoleError::new(ErrorCode::InvalidState, String::from_str("quota lease operation sequence is out of order")));
    }
    if consumed_total < lease.consumed_total || consumed_total > lease.reserved_amount {
        return Err(PoleError::new(
            ErrorCode::ApiInvalidArgument,
            String::from_str("quota lease cumulative consumption is outside its reservation"),
        ));
    }
    Ok(())
}

/// A fresh lease id (a random UUID, `uuid::Uuid::new_v4`, in text). Nothing is promised
/// of its value.
#[verifier::external_body]
pub(crate) fn new_lease_id() -> (r: String) {
    uuid::Uuid::new_v4().to_string()
}

/// The local quota counter.
pub struct LocalQuotaCounter {
    windows: Vec<(String, QuotaWindow)>,
    concurrency: Vec<(String, u32)>,
    leases: Vec<(String, LocalLeaseState)>,
    completed: Vec<(String, CompletedLocalLease)>,
}

impl View for LocalQuotaCounter {
    type V = CounterView;

    closed spec fn view(&self) -> CounterView {
        CounterView {
            windows: keyed_view(self.windows@),
            concurrency: keyed_view(self.concurrency@),
            leases: keyed_view(self.leases@),
            completed: keyed_view(self.completed@),
        }
    }
}

fn settle_in_windows(windows: &mut Vec<(String, QuotaWindow)>, res: &Vec<LocalWindowReservation>, amount: u32, total: u32)
    ensures
        keyed_view(final(windows)@) == settle_windows(keyed_view(old(windows)@), res@, amount, total),
{
    let ghost start = keyed_view(windows@);
    let mut i: usize = 0;
    assert(res@.subrange(0, 0) =~= Seq::<LocalWindowReservation>::empty());
    while i < res.len()
        invariant
            i <= res@.len(),
            keyed_view(windows@) == settle_windows(start, res@.subrange(0, i as int), amount, total),
        decreases res@.len() - i,
    {
        let ghost pre = res@.subrange(0, i + 1);
        assert(pre.drop_last() =~= res@.subrange(0, i as int));
        let r = &res[i];
        assert(pre.last() == *r);
        proof {
            lemma_key_index(keyed_view(windows@), r.key@);
        }
        match find_key(windows, r.key.as_str()) {
            Some(j) => {
                let w = windows[j].1;
                if w.generation == r.generation {
                    let nw = QuotaWindow {
                        started_at: w.started_at,
                        generation: w.generation,
                        committed: w.committed.saturating_add(total),
                        reserved: w.reserved.saturating_sub(amount),
                    };
                    store_key(windows, r.key.clone(), nw);
                }
            },
            None => {},
        }
        i = i + 1;
    }
    assert(res@.subrange(0, res@.len() as int) =~= res@);
}

impl LocalQuotaCounter {
    pub fn new() -> (r: LocalQuotaCounter)
        ensures
            r@.windows.len() == 0,
            r@.concurrency.len() == 0,
            r@.leases.len() == 0,
            r@.completed.len() == 0,
    {
        LocalQuotaCounter { windows: Vec::new(), concurrency: Vec::new(), leases: Vec::new(), completed: Vec::new() }
    }

    /// Settles a lease.
    fn settle(&mut self, lease: LocalLeaseState)
        ensures
            counts_of(final(self)@) == spec_settle(counts_of(old(self)@), lease),
            final(self)@.leases == old(self)@.leases,
            final(self)@.completed == old(self)@.completed,
    {
        match lease.accounting {
            LocalAccounting::Consumable => {
                settle_in_windows(&mut self.windows, &lease.windows, lease.reserved_amount, lease.consumed_total);
            },
            LocalAccounting::Occupancy => {
                let key = match &lease.concurrency_key {
                    None => return,
                    Some(k) => k,
                };
                proof {
                    lemma_key_index(keyed_view(self.concurrency@), key@);
                }
                match find_key(&self.concurrency, key.as_str()) {
                    None => {},
                    Some(j) => {
                        let occ = self.concurrency[j].1.saturating_sub(lease.reserved_amount);
                        if occ == 0 {
                            let _ = take_key(&mut self.concurrency, key.as_str());
                        } else {
                            store_key(&mut self.concurrency, key.clone(), occ);
                        }
                    },
                }
            },
        }
    }

    /// A copy of the windows and concurrency counts, to put back with `restore_counts`.
    pub fn snapshot_counts(&self) -> (r: (Vec<(String, QuotaWindow)>, Vec<(String, u32)>))
        ensures
            keyed_view(r.0@) == self@.windows,
            keyed_view(r.1@) == self@.concurrency,
    {
        let mut windows: Vec<(String, QuotaWindow)> = Vec::new();
        let mut i: usize = 0;
        while i < self.windows.len()
            invariant
                i <= self.windows@.len(),
                keyed_view(windows@) == keyed_view(self.windows@).subrange(0, i as int),
            decreases self.windows@.len() - i,
        {
            let ghost prev = windows@;
            windows.push((self.windows[i].0.clone(), self.windows[i].1));
            assert(keyed_view(windows@) =~= keyed_view(prev).push(keyed_view(self.windows@)[i as int]));
            assert(keyed_view(self.windows@).subrange(0, i + 1) =~= keyed_view(self.windows@).subrange(0, i as int).push(keyed_view(self.windows@)[i as int]));
            i = i + 1;
        }
        assert(keyed_view(self.windows@).subrange(0, self.windows@.len() as int) =~= keyed_view(self.windows@));
        let mut concurrency: Vec<(String, u32)> = Vec::new();
        let mut k: usize = 0;
        while k < self.concurrency.len()
            invariant
                k <= self.concurrency@.len(),
                keyed_view(concurrency@) == keyed_view(self.concurrency@).subrange(0, k as int),
            decreases self.concurrency@.len() - k,
        {
            let ghost prev = concurrency@;
            concurrency.push((self.concurrency[k].0.clone(), self.concurrency[k].1));
            assert(keyed_view(concurrency@) =~= keyed_view(prev).push(keyed_view(self.concurrency@)[k as int]));
            assert(keyed_view(self.concurrency@).subrange(0, k + 1) =~= keyed_view(self.concurrency@).subrange(0, k as int).push(keyed_view(self.concurrency@)[k as int]));
            k = k + 1;
        }
        assert(keyed_view(self.concurrency@).subrange(0, self.concurrency@.len() as int) =~= keyed_view(self.concurrency@));
        (windows, concurrency)
    }

    /// Puts back windows and concurrency counts taken with `snapshot_counts`; leases and
    /// remembered settlements stay.
    pub fn restore_counts(&mut self, windows: Vec<(String, QuotaWindow)>, concurrency: Vec<(String, u32)>)
        ensures
            final(self)@.windows == keyed_view(windows@),
            final(self)@.concurrency == keyed_view(concurrency@),
            final(self)@.leases == old(self)@.leases,
            final(self)@.completed == old(self)@.completed,
    {
        self.windows = windows;
        self.concurrency = concurrency;
    }

    /// Forgets a lease without settling it; counts and remembered settlements stay.
    pub fn forget_lease(&mut self, lease_id: &str)
        ensures
            final(self)@.leases == key_remove(old(self)@.leases, lease_id@),
            final(self)@.windows == old(self)@.windows,
            final(self)@.concurrency == old(self)@.concurrency,
            final(self)@.completed == old(self)@.completed,
    {
        let _ = take_key(&mut self.leases, lease_id);
    }

    /// Settles the expired leases and forgets expired settlements.
    pub fn cleanup_expired_local_leases(&mut self, now: u64)
        ensures
            final(self)@ == spec_cleanup(old(self)@, now),
    {
        let ghost start = self@;
        let mut rest: Vec<(String, LocalLeaseState)> = Vec::new();
        std::mem::swap(&mut rest, &mut self.leases);
        let ghost orig = keyed_view(rest@);
        assert(orig == start.leases);
        let mut kept: Vec<(String, LocalLeaseState)> = Vec::new();
        let mut taken: usize = 0;
        let total = rest.len();
        assert(orig.subrange(0, 0) =~= Seq::<(Seq<char>, LocalLeaseState)>::empty());
        assert(keyed_view(kept@) =~= Seq::<(Seq<char>, LocalLeaseState)>::empty());
        while rest.len() > 0
            invariant
                orig.len() == total,
                taken + rest@.len() == orig.len(),
                keyed_view(rest@) == orig.subrange(taken as int, orig.len() as int),
                ({
                    let r = cleanup_leases(counts_of(start), orig.subrange(0, taken as int), now);
                    &&& counts_of(self@) == r.0
                    &&& keyed_view(kept@) == r.1
                }),
                self@.completed == start.completed,
            decreases rest@.len(),
        {
            let ghost before = rest@;
            let removed = rest.remove(0);
            assert(removed == before[0]);
            assert(keyed_view(before)[0] == (removed.0@, removed.1));
            assert(orig.subrange(taken as int, orig.len() as int)[0] == orig[taken as int]);
            let (id, lease) = removed;
            assert(rest@ =~= before.drop_first());
            assert(keyed_view(before.drop_first()) =~= keyed_view(before).drop_first());
            assert(keyed_view(rest@) =~= orig.subrange(taken + 1, orig.len() as int));
            let ghost pre = orig.subrange(0, taken + 1);
            assert(pre.drop_last() =~= orig.subrange(0, taken as int));
            assert(pre.last() == (id@, lease));
            if lease.expires_at <= now {
                self.settle(lease);
            } else {
                let ghost kb = keyed_view(kept@);
                let ghost idv = id@;
                kept.push((id, lease));
                assert(keyed_view(kept@) =~= kb.push((idv, pre.last().1)));
            }
            taken = taken + 1;
        }
        assert(orig.subrange(0, orig.len() as int) =~= orig);
        self.leases = kept;
        let ghost comp = keyed_view(self.completed@);
        let mut live: Vec<(String, CompletedLocalLease)> = Vec::new();
        let mut k: usize = 0;
        assert(keyed_view(live@) =~= live_completed(comp.subrange(0, 0), now));
        while k < self.completed.len()
            invariant
                k <= self.completed@.len(),
                comp == keyed_view(self.completed@),
                keyed_view(live@) == live_completed(comp.subrange(0, k as int), now),
            decreases self.completed@.len() - k,
        {
            let ghost pre = comp.subrange(0, k + 1);
            assert(pre.drop_last() =~= comp.subrange(0, k as int));
            let c = self.completed[k].1;
            if c.expires_at > now {
                let ghost lb = keyed_view(live@);
                live.push((self.completed[k].0.clone(), c));
                assert(keyed_view(live@) =~= lb.push(pre.last()));
            }
            k = k + 1;
        }
        assert(comp.subrange(0, comp.len() as int) =~= comp);
        self.completed = live;
    }
}

proof fn lemma_check_none(
    ws: Seq<(Seq<char>, QuotaWindow)>,
    req: QuotaRequest,
    rule: RateLimit,
    trigger: LimitTrigger,
    amounts: Seq<Amount>,
    amount: u32,
    now: u64,
    n: int,
)
    requires
        0 <= n <= amounts.len(),
        check_windows(ws, req, rule, trigger, amounts.subrange(0, n), amount, now).1.is_none(),
    ensures
        check_windows(ws, req, rule, trigger, amounts, amount, now) == check_windows(ws, req, rule, trigger, amounts.subrange(0, n), amount, now),
    decreases amounts.len() - n,
{
    if n == amounts.len() {
        assert(amounts.subrange(0, n) =~= amounts);
    } else {
        let pre = amounts.subrange(0, n + 1);
        assert(pre.drop_last() =~= amounts.subrange(0, n));
        lemma_check_none(ws, req, rule, trigger, amounts, amount, now, n + 1);
    }
}

fn window_at_exec(found: Option<QuotaWindow>, secs: u64, now: u64) -> (w: QuotaWindow)
    ensures
        w == window_at(found, secs, now),
{
    match found {
        None => QuotaWindow { started_at: now, generation: 0, committed: 0, reserved: 0 },
        Some(w) => {
            let elapsed: u64 = if now > w.started_at { now - w.started_at } else { 0 };
            if elapsed / 1000 >= secs {
                QuotaWindow { started_at: now, generation: w.generation.wrapping_add(1), committed: 0, reserved: 0 }
            } else {
                w
            }
        },
    }
}

fn configured_amounts(amounts: &Vec<Amount>) -> (r: Vec<Amount>)
    ensures
        r@ == configured(amounts@),
{
    let mut r: Vec<Amount> = Vec::new();
    let mut i: usize = 0;
    while i < amounts.len()
        invariant
            i <= amounts@.len(),
            r@ == configured(amounts@.subrange(0, i as int)),
        decreases amounts@.len() - i,
    {
        let ghost pre = amounts@.subrange(0, i + 1);
        assert(pre.drop_last() =~= amounts@.subrange(0, i as int));
        if amounts[i].max_amount > 0 {
            r.push(amounts[i]);
        }
        i = i + 1;
        assert(r@ =~= configured(pre));
    }
    assert(amounts@.subrange(0, amounts@.len() as int) =~= amounts@);
    r
}

fn add_reserved_exec(windows: &mut Vec<(String, QuotaWindow)>, res: &Vec<LocalWindowReservation>, amount: u32)
    ensures
        keyed_view(final(windows)@) == add_reserved(keyed_view(old(windows)@), reservation_views(res@), amount),
{
    let ghost start = keyed_view(windows@);
    let ghost rv = reservation_views(res@);
    let mut i: usize = 0;
    assert(rv.subrange(0, 0) =~= Seq::<(Seq<char>, u64)>::empty());
    while i < res.len()
        invariant
            i <= res@.len(),
            rv == reservation_views(res@),
            keyed_view(windows@) == add_reserved(start, rv.subrange(0, i as int), amount),
        decreases res@.len() - i,
    {
        let ghost pre = rv.subrange(0, i + 1);
        assert(pre.drop_last() =~= rv.subrange(0, i as int));
        let r = &res[i];
        assert(pre.last().0 == r.key@);
        proof {
            lemma_key_index(keyed_view(windows@), r.key@);
        }
        match find_key(windows, r.key.as_str()) {
            Some(j) => {
                let w = windows[j].1;
                let nw = QuotaWindow {
                    started_at: w.started_at,
                    generation: w.generation,
                    committed: w.committed,
                    reserved: w.reserved.saturating_add(amount),
                };
                store_key(windows, r.key.clone(), nw);
            },
            None => {},
        }
        i = i + 1;
    }
    assert(rv.subrange(0, rv.len() as int) =~= rv);
}

/// The error of a lease whose expiry cannot be represented.
pub open spec fn ttl_error_message() -> Seq<char> {
    "quota lease ttl cannot be represented locally"@
}

/// A reservation at the local counter, from the counter before to the counter after, with
/// its result: expired leases are settled first; the lease expires its time to live (in
/// milliseconds, rounded up) after
/// `now` (refused when that cannot be represented); the counts change as reserving
/// decides, and a granted reservation records its lease under the id it returns.
pub open spec fn spec_local_reserve(
    before: CounterView,
    after: CounterView,
    req: QuotaRequest,
    rule: RateLimit,
    trigger: LimitTrigger,
    reserved_amount: u32,
    now: u64,
    r: Result<LocalReserveResult, PoleError>,
) -> bool {
    let c0 = spec_cleanup(before, now);
    if now + spec_ttl_ms(req) > u64::MAX {
        &&& after == c0
        &&& r matches Err(e) && e.code == ErrorCode::ApiInvalidArgument && e.message@ == ttl_error_message()
    } else {
        let expires_at = (now + spec_ttl_ms(req)) as u64;
        let out = spec_reserve_counts(counts_of(c0), req, rule, trigger, reserved_amount, now, expires_at);
        &&& counts_of(after) == out.0
        &&& after.completed == c0.completed
        &&& match out.1 {
            ReserveOutcome::Lease => r matches Ok(LocalReserveResult::Reserved(b))
                && Some(b.resource) == spec_quota_resource(trigger.resource)
                && (key_lookup(after.leases, b.lease_id@) matches Some(l)
                && new_lease_ok(l, counts_of(c0), req, rule, trigger, reserved_amount, now, expires_at)
                && after.leases == key_store(c0.leases, b.lease_id@, l)),
            ReserveOutcome::Rejected(m) => r matches Ok(LocalReserveResult::Rejected(msg))
                && msg@ == m && after.leases == c0.leases,
            ReserveOutcome::NotConfigured => r matches Ok(LocalReserveResult::NotConfigured)
                && after.leases == c0.leases,
        }
    }
}

impl LocalQuotaCounter {
    fn lookup_window(&self, key: &str) -> (r: Option<QuotaWindow>)
        ensures
            r == key_lookup(keyed_view(self.windows@), key@),
    {
        proof {
            lemma_key_index(keyed_view(self.windows@), key@);
        }
        match find_key(&self.windows, key) {
            Some(j) => Some(self.windows[j].1),
            None => None,
        }
    }

    fn lookup_concurrency(&self, key: &str) -> (r: Option<u32>)
        ensures
            r == key_lookup(keyed_view(self.concurrency@), key@),
    {
        proof {
            lemma_key_index(keyed_view(self.concurrency@), key@);
        }
        match find_key(&self.concurrency, key) {
            Some(j) => Some(self.concurrency[j].1),
            None => None,
        }
    }

    /// Reserves `reserved_amount` for a trigger at `now`, after settling expired leases.
    /// Window quota is refused when any configured window would overfill (windows checked
    /// before the refusal stay created or restarted); concurrency when the count would pass
    /// its limit. A trigger without quota is not configured here.
    pub fn reserve(
        &mut self,
        req: &QuotaRequest,
        rule: &RateLimit,
        trigger: &LimitTrigger,
        reserved_amount: u32,
        now: u64,
    ) -> (r: Result<LocalReserveResult, PoleError>)
        ensures
            spec_local_reserve(old(self)@, final(self)@, *req, *rule, *trigger, reserved_amount, now, r),
    {
        self.cleanup_expired_local_leases(now);
        let ghost c0 = self@;
        let lease_id = new_lease_id();
        let ttl_ms = req.lease_ttl_ms();
        if (now as u128) + ttl_ms > 18446744073709551615u128 {
            return Err(PoleError::new(
                ErrorCode::ApiInvalidArgument,
                String::from_str("quota lease ttl cannot be represented locally"),
            ));
        }
        let expires_at: u64 = ((now as u128) + ttl_ms) as u64;
        let lease = match trigger.resource {
            LimitResource::Qps | LimitResource::Token => {
                let amounts = configured_amounts(&trigger.amounts);
                if amounts.len() == 0 {
                    return Ok(LocalReserveResult::NotConfigured);
                }
                let ghost am = amounts@;
                let mut reservations: Vec<LocalWindowReservation> = Vec::new();
                let mut i: usize = 0;
                assert(am.subrange(0, 0) =~= Seq::<Amount>::empty());
                assert(reservation_views(reservations@) =~= Seq::<(Seq<char>, u64)>::empty());
                while i < amounts.len()
                    invariant
                        i <= am.len(),
                        am == amounts@,
                        am == configured(trigger.amounts@),
                        am.len() > 0,
                        trigger.resource == LimitResource::Qps || trigger.resource == LimitResource::Token,
                        c0 == spec_cleanup(old(self)@, now),
                        expires_at == now + spec_ttl_ms(*req),
                        self@.leases == c0.leases,
                        self@.completed == c0.completed,
                        self@.concurrency == c0.concurrency,
                        check_windows(c0.windows, *req, *rule, *trigger, am.subrange(0, i as int), reserved_amount, now)
                            == (self@.windows, Some(reservation_views(reservations@))),
                    decreases am.len() - i,
                {
                    let ghost pre = am.subrange(0, i + 1);
                    assert(pre.drop_last() =~= am.subrange(0, i as int));
                    let a = amounts[i];
                    assert(pre.last() == a);
                    let secs = amount_duration(&a);
                    let key = quota_counter_key(req, rule, trigger, secs);
                    let found = self.lookup_window(key.as_str());
                    let w = window_at_exec(found, secs, now);
                    store_key(&mut self.windows, key.clone(), w);
                    if w.committed.saturating_add(w.reserved).saturating_add(reserved_amount) > a.max_amount {
                        assert(check_windows(c0.windows, *req, *rule, *trigger, pre, reserved_amount, now).1.is_none());
                        proof {
                            lemma_check_none(c0.windows, *req, *rule, *trigger, am, reserved_amount, now, i + 1);
                        }
                        return Ok(LocalReserveResult::Rejected(String::from_str("rate limit quota exhausted")));
                    }
                    let ghost rb = reservation_views(reservations@);
                    let ghost kv = key@;
                    reservations.push(LocalWindowReservation { key, generation: w.generation });
                    assert(reservation_views(reservations@) =~= rb.push((kv, w.generation)));
                    i = i + 1;
                }
                assert(am.subrange(0, am.len() as int) =~= am);
                add_reserved_exec(&mut self.windows, &reservations, reserved_amount);
                LocalLeaseState {
                    accounting: LocalAccounting::Consumable,
                    reserved_amount,
                    consumed_total: initial_consumed_total(trigger),
                    sequence: 0,
                    expires_at,
                    windows: reservations,
                    concurrency_key: None,
                }
            },
            LimitResource::Concurrency => {
                let max = match trigger.concurrency_amount {
                    None => return Ok(LocalReserveResult::NotConfigured),
                    Some(m) => m,
                };
                if max == 0 {
                    return Ok(LocalReserveResult::NotConfigured);
                }
                let key = concurrency_counter_key(req, rule, trigger);
                let occ = match self.lookup_concurrency(key.as_str()) {
                    Some(o) => o,
                    None => 0,
                };
                if occ.saturating_add(reserved_amount) > max {
                    store_key(&mut self.concurrency, key, occ);
                    return Ok(LocalReserveResult::Rejected(String::from_str("rate limit concurrency exhausted")));
                }
                store_key(&mut self.concurrency, key.clone(), occ.saturating_add(reserved_amount));
                LocalLeaseState {
                    accounting: LocalAccounting::Occupancy,
                    reserved_amount,
                    consumed_total: 0,
                    sequence: 0,
                    expires_at,
                    windows: Vec::new(),
                    concurrency_key: Some(key),
                }
            },
            LimitResource::Unknown => return Ok(LocalReserveResult::NotConfigured),
        };
        let ghost recorded = lease;
        store_key(&mut self.leases, lease_id.clone(), lease);
        proof {
            crate::keyed::lemma_key_store_same(c0.leases, lease_id@, recorded);
        }
        let resource = match trigger.resource {
            LimitResource::Qps => QuotaResource::Qps,
            LimitResource::Token => QuotaResource::Token,
            _ => QuotaResource::Concurrency,
        };
        Ok(LocalReserveResult::Reserved(LocalLeaseBackend { lease_id, resource }))
    }
}

/// A lease with its progress recorded.
pub open spec fn with_progress(l: LocalLeaseState, total: u32, sequence: u64) -> LocalLeaseState {
    LocalLeaseState {
        accounting: l.accounting,
        reserved_amount: l.reserved_amount,
        consumed_total: total,
        sequence: sequence,
        expires_at: l.expires_at,
        windows: l.windows,
        concurrency_key: l.concurrency_key,
    }
}

pub open spec fn settled_message() -> Seq<char> {
    "quota lease is expired or already settled"@
}

/// Recording progress on a lease, after cleanup at `now`: the counter afterwards and the
/// refusal, if any. Repeating the last recorded progress changes nothing.
pub open spec fn spec_update(c: CounterView, id: Seq<char>, total: u32, sequence: u64, now: u64) -> (CounterView, Option<(ErrorCode, Seq<char>)>) {
    let c0 = spec_cleanup(c, now);
    match key_lookup(c0.leases, id) {
        None => (c0, Some((ErrorCode::InvalidState, settled_message()))),
        Some(l) => if l.sequence == sequence && l.consumed_total == total {
            (c0, None)
        } else {
            match spec_validate(l, total, sequence) {
                Some(e) => (c0, Some(e)),
                None => (
                    CounterView {
                        windows: c0.windows,
                        concurrency: c0.concurrency,
                        leases: key_store(c0.leases, id, with_progress(l, total, sequence)),
                        completed: c0.completed,
                    },
                    None,
                ),
            }
        },
    }
}

/// Settling a lease with its final consumption, after cleanup at `now`: the counter
/// afterwards and the refusal, if any. Repeating the settlement changes nothing while it
/// is remembered.
pub open spec fn spec_finish(c: CounterView, id: Seq<char>, total: u32, sequence: u64, now: u64) -> (CounterView, Option<(ErrorCode, Seq<char>)>) {
    let c0 = spec_cleanup(c, now);
    if key_lookup(c0.completed, id) matches Some(d) && d.sequence == sequence && d.consumed_total == total {
        (c0, None)
    } else {
        match key_lookup(c0.leases, id) {
            None => (c0, Some((ErrorCode::InvalidState, settled_message()))),
            Some(l) => match spec_validate(l, total, sequence) {
                Some(e) => (c0, Some(e)),
                None => {
                    let counts = spec_settle(counts_of(c0), with_progress(l, total, l.sequence));
                    (
                        CounterView {
                            windows: counts.windows,
                            concurrency: counts.concurrency,
                            leases: key_remove(c0.leases, id),
                            completed: key_store(
                                c0.completed,
                                id,
                                CompletedLocalLease { consumed_total: total, sequence: sequence, expires_at: (now + COMPLETED_TTL_MS) as u64 },
                            ),
                        },
                        None,
                    )
                },
            },
        }
    }
}

pub open spec fn result_matches(r: Result<(), PoleError>, e: Option<(ErrorCode, Seq<char>)>) -> bool {
    match e {
        None => r is Ok,
        Some((code, m)) => r matches Err(err) && err.code == code && err.message@ == m,
    }
}

impl LocalQuotaCounter {
    /// Records the cumulative consumption of a lease under the next sequence number.
    pub fn update_lease(&mut self, lease_id: &str, consumed_total: u32, sequence: u64, now: u64) -> (r: Result<(), PoleError>)
        ensures
            final(self)@ == spec_update(old(self)@, lease_id@, consumed_total, sequence, now).0,
            result_matches(r, spec_update(old(self)@, lease_id@, consumed_total, sequence, now).1),
    {
        self.cleanup_expired_local_leases(now);
        let ghost c0 = self@;
        proof {
            lemma_key_index(c0.leases, lease_id@);
        }
        let j = match find_key(&self.leases, lease_id) {
            None => {
                return Err(PoleError::new(ErrorCode::InvalidState, String::from_str("quota lease is expired or already settled")));
            },
            Some(j) => j,
        };
        assert(c0.leases[j as int] == (self.leases@[j as int].0@, self.leases@[j as int].1));
        if sequence == self.leases[j].1.sequence && consumed_total == self.leases[j].1.consumed_total {
            return Ok(());
        }
        validate_local_operation(&self.leases[j].1, consumed_total, sequence)?;
        let (id, mut lease) = self.leases.remove(j);
        let ghost old_lease = lease;
        lease.consumed_total = consumed_total;
        lease.sequence = sequence;
        assert(lease == with_progress(old_lease, consumed_total, sequence));
        let ghost idv = id@;
        self.leases.insert(j, (id, lease));
        assert(keyed_view(self.leases@) =~= c0.leases.update(j as int, (idv, with_progress(old_lease, consumed_total, sequence))));
        Ok(())
    }

    /// Settles a lease with its final cumulative consumption and remembers the settlement.
    pub fn finish_lease(&mut self, lease_id: &str, consumed_total: u32, sequence: u64, now: u64) -> (r: Result<(), PoleError>)
        requires
            now + COMPLETED_TTL_MS <= u64::MAX,
        ensures
            final(self)@ == spec_finish(old(self)@, lease_id@, consumed_total, sequence, now).0,
            result_matches(r, spec_finish(old(self)@, lease_id@, consumed_total, sequence, now).1),
    {
        self.cleanup_expired_local_leases(now);
        let ghost c0 = self@;
        proof {
            lemma_key_index(c0.completed, lease_id@);
            lemma_key_index(c0.leases, lease_id@);
        }
        match find_key(&self.completed, lease_id) {
            Some(k) => {
                let d = self.completed[k].1;
                if d.sequence == sequence && d.consumed_total == consumed_total {
                    return Ok(());
                }
            },
            None => {},
        }
        let j = match find_key(&self.leases, lease_id) {
            None => {
                return Err(PoleError::new(ErrorCode::InvalidState, String::from_str("quota lease is expired or already settled")));
            },
            Some(j) => j,
        };
        validate_local_operation(&self.leases[j].1, consumed_total, sequence)?;
        let mut lease = match take_key(&mut self.leases, lease_id) {
            Some(l) => l,
            None => {
                return Err(PoleError::new(ErrorCode::InvalidState, String::from_str("quota lease is expired or already settled")));
            },
        };
        let ghost old_lease = lease;
        lease.consumed_total = consumed_total;
        assert(lease == with_progress(old_lease, consumed_total, old_lease.sequence));
        let completed = CompletedLocalLease { consumed_total, sequence, expires_at: now + COMPLETED_TTL_MS };
        self.settle(lease);
        store_key(&mut self.completed, lease_id.to_string(), completed);
        Ok(())
    }
}

/// Every lease kept is unexpired at `now`.
pub open spec fn leases_live(s: Seq<(Seq<char>, LocalLeaseState)>, now: u64) -> bool {
    forall|i: int| 0 <= i < s.len() ==> #[trigger] s[i].1.expires_at > now
}

/// Every settlement remembered is unexpired at `now`.
pub open spec fn completed_live(s: Seq<(Seq<char>, CompletedLocalLease)>, now: u64) -> bool {
    forall|i: int| 0 <= i < s.len() ==> #[trigger] s[i].1.expires_at > now
}

proof fn lemma_cleanup_leases(c: Counts, leases: Seq<(Seq<char>, LocalLeaseState)>, now: u64)
    ensures
        leases_live(cleanup_leases(c, leases, now).1, now),
        leases_live(leases, now) ==> cleanup_leases(c, leases, now) == (c, leases),
    decreases leases.len(),
{
    if leases.len() > 0 {
        let prev = cleanup_leases(c, leases.drop_last(), now);
        lemma_cleanup_leases(c, leases.drop_last(), now);
        if leases_live(leases, now) {
            assert forall|i: int| 0 <= i < leases.drop_last().len() implies #[trigger] leases.drop_last()[i].1.expires_at > now by {
                assert(leases.drop_last()[i] == leases[i]);
            }
            assert(leases.last().1.expires_at > now);
            assert(prev.1.push(leases.last()) =~= leases);
        }
        if leases.last().1.expires_at > now {
            let r = prev.1.push(leases.last());
            assert forall|i: int| 0 <= i < r.len() implies #[trigger] r[i].1.expires_at > now by {
                if i < prev.1.len() {
                    assert(r[i] == prev.1[i]);
                }
            }
        }
    }
}

proof fn lemma_live_completed(s: Seq<(Seq<char>, CompletedLocalLease)>, now: u64)
    ensures
        completed_live(live_completed(s, now), now),
        completed_live(s, now) ==> live_completed(s, now) == s,
    decreases s.len(),
{
    if s.len() > 0 {
        lemma_live_completed(s.drop_last(), now);
        let prev = live_completed(s.drop_last(), now);
        if completed_live(s, now) {
            assert forall|i: int| 0 <= i < s.drop_last().len() implies #[trigger] s.drop_last()[i].1.expires_at > now by {
                assert(s.drop_last()[i] == s[i]);
            }
            assert(s.last().1.expires_at > now);
            assert(prev.push(s.last()) =~= s);
        }
        if s.last().1.expires_at > now {
            let r = prev.push(s.last());
            assert forall|i: int| 0 <= i < r.len() implies #[trigger] r[i].1.expires_at > now by {
                if i < prev.len() {
                    assert(r[i] == prev[i]);
                }
            }
        }
    }
}

/// A cleaned counter has only live leases and settlements, and cleaning it again at the
/// same time changes nothing.
proof fn lemma_cleanup(c: CounterView, now: u64)
    ensures
        leases_live(spec_cleanup(c, now).leases, now),
        completed_live(spec_cleanup(c, now).completed, now),
        leases_live(c.leases, now) && completed_live(c.completed, now) ==> spec_cleanup(c, now) == c,
{
    lemma_cleanup_leases(Counts { windows: c.windows, concurrency: c.concurrency }, c.leases, now);
    lemma_live_completed(c.completed, now);
}

proof fn lemma_store_live_lease(s: Seq<(Seq<char>, LocalLeaseState)>, k: Seq<char>, v: LocalLeaseState, now: u64)
    requires
        leases_live(s, now),
        v.expires_at > now,
    ensures
        leases_live(key_store(s, k, v), now),
{
    lemma_key_index(s, k);
    let t = key_store(s, k, v);
    assert forall|i: int| 0 <= i < t.len() implies #[trigger] t[i].1.expires_at > now by {
        match key_index(s, k) {
            Some(j) => if i != j { assert(t[i] == s[i]); },
            None => if i < s.len() { assert(t[i] == s[i]); },
        }
    }
}

proof fn lemma_store_live_completed(s: Seq<(Seq<char>, CompletedLocalLease)>, k: Seq<char>, v: CompletedLocalLease, now: u64)
    requires
        completed_live(s, now),
        v.expires_at > now,
    ensures
        completed_live(key_store(s, k, v), now),
{
    lemma_key_index(s, k);
    let t = key_store(s, k, v);
    assert forall|i: int| 0 <= i < t.len() implies #[trigger] t[i].1.expires_at > now by {
        match key_index(s, k) {
            Some(j) => if i != j { assert(t[i] == s[i]); },
            None => if i < s.len() { assert(t[i] == s[i]); },
        }
    }
}

proof fn lemma_remove_live_lease(s: Seq<(Seq<char>, LocalLeaseState)>, k: Seq<char>, now: u64)
    requires
        leases_live(s, now),
    ensures
        leases_live(key_remove(s, k), now),
{
    lemma_key_index(s, k);
    let t = key_remove(s, k);
    assert forall|i: int| 0 <= i < t.len() implies #[trigger] t[i].1.expires_at > now by {
        match key_index(s, k) {
            Some(j) => if i < j { assert(t[i] == s[i]); } else { assert(t[i] == s[i + 1]); },
            None => {},
        }
    }
}

/// Recording the same progress twice at the same time: the second call succeeds and
/// changes nothing.
pub proof fn law_update_idempotent(c: CounterView, lease_id: Seq<char>, total: u32, sequence: u64, now: u64)
    requires
        spec_update(c, lease_id, total, sequence, now).1.is_none(),
    ensures
        ({
            let c1 = spec_update(c, lease_id, total, sequence, now).0;
            spec_update(c1, lease_id, total, sequence, now) == (c1, None::<(ErrorCode, Seq<char>)>)
        }),
{
    let c0 = spec_cleanup(c, now);
    lemma_cleanup(c, now);
    let c1 = spec_update(c, lease_id, total, sequence, now).0;
    let l = key_lookup(c0.leases, lease_id).unwrap();
    if !(l.sequence == sequence && l.consumed_total == total) {
        lemma_key_index(c0.leases, lease_id);
        let i = key_index(c0.leases, lease_id).unwrap();
        assert(c0.leases[i].1.expires_at > now);
        lemma_store_live_lease(c0.leases, lease_id, with_progress(l, total, sequence), now);
        crate::keyed::lemma_key_store_same(c0.leases, lease_id, with_progress(l, total, sequence));
    }
    lemma_cleanup(c1, now);
}

/// Settling the same lease twice with the same consumption at the same time: the second
/// call succeeds and changes nothing.
pub proof fn law_finish_idempotent(c: CounterView, lease_id: Seq<char>, total: u32, sequence: u64, now: u64)
    requires
        now + COMPLETED_TTL_MS <= u64::MAX,
        spec_finish(c, lease_id, total, sequence, now).1.is_none(),
    ensures
        ({
            let c1 = spec_finish(c, lease_id, total, sequence, now).0;
            spec_finish(c1, lease_id, total, sequence, now) == (c1, None::<(ErrorCode, Seq<char>)>)
        }),
{
    let c0 = spec_cleanup(c, now);
    lemma_cleanup(c, now);
    let c1 = spec_finish(c, lease_id, total, sequence, now).0;
    if !(key_lookup(c0.completed, lease_id) matches Some(d) && d.sequence == sequence && d.consumed_total == total) {
        let d = CompletedLocalLease { consumed_total: total, sequence: sequence, expires_at: (now + COMPLETED_TTL_MS) as u64 };
        lemma_remove_live_lease(c0.leases, lease_id, now);
        lemma_store_live_completed(c0.completed, lease_id, d, now);
        crate::keyed::lemma_key_store_same(c0.completed, lease_id, d);
    }
    lemma_cleanup(c1, now);
}


/// Whether a window holds no quota.
pub open spec fn window_empty(w: QuotaWindow) -> bool {
    w.committed == 0 && w.reserved == 0
}

/// Whether each window is as before, or (new or restarted) holds no quota.
pub open spec fn windows_hold_nothing_new(before: Seq<(Seq<char>, QuotaWindow)>, after: Seq<(Seq<char>, QuotaWindow)>) -> bool {
    forall|k: Seq<char>| #[trigger] key_lookup(after, k) == key_lookup(before, k)
        || (key_lookup(after, k) matches Some(w) && window_empty(w))
}

proof fn lemma_check_windows_hold_nothing_new(
    ws: Seq<(Seq<char>, QuotaWindow)>,
    req: QuotaRequest,
    rule: RateLimit,
    trigger: LimitTrigger,
    amounts: Seq<Amount>,
    amount: u32,
    now: u64,
)
    ensures
        windows_hold_nothing_new(ws, check_windows(ws, req, rule, trigger, amounts, amount, now).0),
    decreases amounts.len(),
{
    if amounts.len() > 0 {
        lemma_check_windows_hold_nothing_new(ws, req, rule, trigger, amounts.drop_last(), amount, now);
        let prev = check_windows(ws, req, rule, trigger, amounts.drop_last(), amount, now);
        if prev.1 is Some {
            let a = amounts.last();
            let secs = spec_amount_duration(a);
            let key = spec_quota_counter_key(req, rule, trigger, secs);
            let w = window_at(key_lookup(prev.0, key), secs, now);
            assert forall|k: Seq<char>| #[trigger] key_lookup(key_store(prev.0, key, w), k) == key_lookup(ws, k)
                || (key_lookup(key_store(prev.0, key, w), k) matches Some(x) && window_empty(x)) by {
                if k == key {
                    lemma_key_store_same(prev.0, key, w);
                } else {
                    lemma_key_store_other(prev.0, key, w, k);
                }
            }
        }
    }
}

/// A reservation is all or nothing: refused, it holds quota in no window (each is as it
/// was, or new or restarted and empty) and occupies no concurrency (each counter as it was,
/// a new one at zero).
pub proof fn law_refused_reservation_takes_nothing(
    c: Counts,
    req: QuotaRequest,
    rule: RateLimit,
    trigger: LimitTrigger,
    amount: u32,
    now: u64,
    expires_at: u64,
)
    requires
        spec_reserve_counts(c, req, rule, trigger, amount, now, expires_at).1 is Rejected,
    ensures
        windows_hold_nothing_new(c.windows, spec_reserve_counts(c, req, rule, trigger, amount, now, expires_at).0.windows),
        forall|k: Seq<char>| #[trigger] key_lookup(spec_reserve_counts(c, req, rule, trigger, amount, now, expires_at).0.concurrency, k)
            == key_lookup(c.concurrency, k)
            || (key_lookup(c.concurrency, k) is None
                && key_lookup(spec_reserve_counts(c, req, rule, trigger, amount, now, expires_at).0.concurrency, k) == Some(0u32)),
{
    let after = spec_reserve_counts(c, req, rule, trigger, amount, now, expires_at).0;
    match trigger.resource {
        LimitResource::Qps | LimitResource::Token => {
            lemma_check_windows_hold_nothing_new(c.windows, req, rule, trigger, configured(trigger.amounts@), amount, now);
        },
        LimitResource::Concurrency => {
            let key = spec_concurrency_counter_key(req, rule, trigger);
            let occ = match key_lookup(c.concurrency, key) { Some(o) => o, None => 0 };
            assert forall|k: Seq<char>| #[trigger] key_lookup(after.concurrency, k) == key_lookup(c.concurrency, k)
                || (key_lookup(c.concurrency, k) is None && key_lookup(after.concurrency, k) == Some(0u32)) by {
                if k == key {
                    lemma_key_store_same(c.concurrency, key, occ);
                } else {
                    lemma_key_store_other(c.concurrency, key, occ, k);
                }
            }
            assert forall|k: Seq<char>| #[trigger] key_lookup(after.windows, k) == key_lookup(c.windows, k)
                || (key_lookup(after.windows, k) matches Some(w) && window_empty(w)) by {}
        },
        LimitResource::Unknown => {},
    }
}

/// Every concurrency count kept under a key that has a limit is within that limit.
pub open spec fn occupancy_within(conc: Seq<(Seq<char>, u32)>, limits: Map<Seq<char>, u32>) -> bool {
    forall|i: int| 0 <= i < conc.len() && limits.dom().contains((#[trigger] conc[i]).0) ==> conc[i].1 <= limits[conc[i].0]
}

/// The concurrency limit of a trigger is the one `limits` keeps under its counter key.
pub open spec fn concurrency_limit_known(req: QuotaRequest, rule: RateLimit, trigger: LimitTrigger, limits: Map<Seq<char>, u32>) -> bool {
    trigger.resource == LimitResource::Concurrency ==> match trigger.concurrency_amount {
        Some(max) => limits.dom().contains(spec_concurrency_counter_key(req, rule, trigger))
            && limits[spec_concurrency_counter_key(req, rule, trigger)] == max,
        None => true,
    }
}

proof fn lemma_occupancy_store(s: Seq<(Seq<char>, u32)>, key: Seq<char>, value: u32, limits: Map<Seq<char>, u32>)
    requires
        occupancy_within(s, limits),
        limits.dom().contains(key) ==> value <= limits[key],
    ensures
        occupancy_within(key_store(s, key, value), limits),
{
    let t = key_store(s, key, value);
    lemma_key_index(s, key);
    assert forall|i: int| 0 <= i < t.len() && limits.dom().contains((#[trigger] t[i]).0) implies t[i].1 <= limits[t[i].0] by {
        if i < s.len() && t[i] == s[i] {
        } else {
            assert(t[i] == (key, value));
        }
    }
}

proof fn lemma_occupancy_remove(s: Seq<(Seq<char>, u32)>, key: Seq<char>, limits: Map<Seq<char>, u32>)
    requires
        occupancy_within(s, limits),
    ensures
        occupancy_within(key_remove(s, key), limits),
{
    let t = key_remove(s, key);
    lemma_key_index(s, key);
    match key_index(s, key) {
        Some(j) => {
            assert forall|i: int| 0 <= i < t.len() && limits.dom().contains((#[trigger] t[i]).0) implies t[i].1 <= limits[t[i].0] by {
                if i < j {
                    assert(t[i] == s[i]);
                } else {
                    assert(t[i] == s[i + 1]);
                }
            }
        },
        None => {},
    }
}

proof fn lemma_occupancy_lookup(s: Seq<(Seq<char>, u32)>, key: Seq<char>, limits: Map<Seq<char>, u32>)
    requires
        occupancy_within(s, limits),
        limits.dom().contains(key),
    ensures
        key_lookup(s, key) matches Some(o) ==> o <= limits[key],
{
    lemma_key_index(s, key);
    if key_index(s, key) is Some {
        let i = key_index(s, key)->0;
        assert(s[i].0 == key);
    }
}

proof fn lemma_occupancy_settle(c: Counts, l: LocalLeaseState, limits: Map<Seq<char>, u32>)
    requires
        occupancy_within(c.concurrency, limits),
    ensures
        occupancy_within(spec_settle(c, l).concurrency, limits),
{
    if l.accounting == LocalAccounting::Occupancy && l.concurrency_key is Some {
        let k = l.concurrency_key->0;
        if key_lookup(c.concurrency, k@) is Some {
            let occ = key_lookup(c.concurrency, k@)->0;
            let o2 = sat_sub(occ, l.reserved_amount);
            if o2 == 0 {
                lemma_occupancy_remove(c.concurrency, k@, limits);
            } else {
                if limits.dom().contains(k@) {
                    lemma_occupancy_lookup(c.concurrency, k@, limits);
                }
                lemma_occupancy_store(c.concurrency, k@, o2, limits);
            }
        }
    }
}

proof fn lemma_occupancy_cleanup(c: Counts, leases: Seq<(Seq<char>, LocalLeaseState)>, now: u64, limits: Map<Seq<char>, u32>)
    requires
        occupancy_within(c.concurrency, limits),
    ensures
        occupancy_within(cleanup_leases(c, leases, now).0.concurrency, limits),
    decreases leases.len(),
{
    if leases.len() > 0 {
        lemma_occupancy_cleanup(c, leases.drop_last(), now, limits);
        let prev = cleanup_leases(c, leases.drop_last(), now);
        lemma_occupancy_settle(prev.0, leases.last().1, limits);
    }
}

/// A reservation keeps every concurrency count within its limit: when the trigger's limit
/// is the one kept for its counter key and every count was within its limit before, every
/// count is within its limit after, whatever the reservation answers.
pub proof fn law_reserve_keeps_occupancy_within_limits(
    before: CounterView,
    after: CounterView,
    req: QuotaRequest,
    rule: RateLimit,
    trigger: LimitTrigger,
    reserved_amount: u32,
    now: u64,
    r: Result<LocalReserveResult, PoleError>,
    limits: Map<Seq<char>, u32>,
)
    requires
        occupancy_within(before.concurrency, limits),
        concurrency_limit_known(req, rule, trigger, limits),
        spec_local_reserve(before, after, req, rule, trigger, reserved_amount, now, r),
    ensures
        occupancy_within(after.concurrency, limits),
{
    lemma_occupancy_cleanup(counts_of(before), before.leases, now, limits);
    let c0 = spec_cleanup(before, now);
    if trigger.resource == LimitResource::Concurrency && trigger.concurrency_amount is Some {
        let max = trigger.concurrency_amount->0;
        let key = spec_concurrency_counter_key(req, rule, trigger);
        lemma_occupancy_lookup(c0.concurrency, key, limits);
        let occ = match key_lookup(c0.concurrency, key) { Some(o) => o, None => 0 };
        lemma_occupancy_store(c0.concurrency, key, occ, limits);
        if sat_add(occ, reserved_amount) <= max {
            lemma_occupancy_store(c0.concurrency, key, sat_add(occ, reserved_amount), limits);
        }
    }
}

/// Recording progress on a lease and settling one keep every concurrency count within its
/// limit.
pub proof fn law_update_and_finish_keep_occupancy_within_limits(
    c: CounterView,
    lease_id: Seq<char>,
    total: u32,
    sequence: u64,
    now: u64,
    limits: Map<Seq<char>, u32>,
)
    requires
        occupancy_within(c.concurrency, limits),
    ensures
        occupancy_within(spec_update(c, lease_id, total, sequence, now).0.concurrency, limits),
        occupancy_within(spec_finish(c, lease_id, total, sequence, now).0.concurrency, limits),
{
    lemma_occupancy_cleanup(counts_of(c), c.leases, now, limits);
    let c0 = spec_cleanup(c, now);
    if key_lookup(c0.leases, lease_id) is Some {
        let l = key_lookup(c0.leases, lease_id)->0;
        lemma_occupancy_settle(counts_of(c0), with_progress(l, total, l.sequence), limits);
    }
}

} // verus!
