//! Window capacity of the local quota counter: no window ever holds more than its
//! amount's limit, committed and reserved together, over any sequence of reservations,
//! progress reports and settlements, as long as the window amounts of a trigger have
//! distinct counter keys and limits below the largest `u32`. A new counter keeps the
//! invariant `capacity_kept`, every operation keeps it, and it bounds every window.

use vstd::prelude::*;
use crate::keyed::{key_index, key_lookup, key_store, lemma_key_index, lemma_key_store_other, lemma_key_store_same};
use crate::traffic::ratelimit::counter::{
    CounterView, Counts, LocalAccounting, LocalLeaseState, LocalWindowReservation, QuotaWindow,
    cleanup_leases, counts_of, reservation_views, sat_add, sat_sub, settle_windows, spec_cleanup,
    spec_finish, spec_settle, spec_update, spec_validate, with_progress, check_windows, add_reserved,
    window_at, configured, spec_local_reserve, spec_reserve_counts, new_lease_ok,
    LocalReserveResult,
};
use crate::model::PoleError;
use crate::specification::{Amount, LimitResource, LimitTrigger, RateLimit};
use crate::traffic::ratelimit::default::{spec_amount_duration, spec_initial_consumed_total, spec_quota_counter_key};
use crate::traffic::ratelimit::req::QuotaRequest;

verus! {

/// What a list of window reservations of `amount` each holds in window `k` of generation `g`.
pub open spec fn entries_hold(res: Seq<(Seq<char>, u64)>, amount: u32, k: Seq<char>, g: u64) -> int
    decreases res.len(),
{
    if res.len() == 0 {
        0
    } else {
        entries_hold(res.drop_last(), amount, k, g) + if res.last().0 == k && res.last().1 == g { amount as int } else { 0int }
    }
}

/// What a lease holds in window `k` of generation `g`: its amount for each of its
/// reservations there, when it consumes window quota.
pub open spec fn lease_holds(l: LocalLeaseState, k: Seq<char>, g: u64) -> int {
    if l.accounting == LocalAccounting::Consumable {
        entries_hold(reservation_views(l.windows@), l.reserved_amount, k, g)
    } else {
        0
    }
}

/// What the leases hold together in window `k` of generation `g`.
pub open spec fn held(leases: Seq<(Seq<char>, LocalLeaseState)>, k: Seq<char>, g: u64) -> int
    decreases leases.len(),
{
    if leases.len() == 0 {
        0
    } else {
        held(leases.drop_last(), k, g) + lease_holds(leases.last().1, k, g)
    }
}

/// A lease consumes no more than it reserved, and each window it reserved in is kept, at
/// its generation or a later one.
pub open spec fn lease_sound(ws: Seq<(Seq<char>, QuotaWindow)>, l: LocalLeaseState) -> bool {
    l.accounting == LocalAccounting::Consumable ==> {
        &&& l.consumed_total <= l.reserved_amount
        &&& forall|j: int| 0 <= j < l.windows@.len() ==>
            (key_lookup(ws, (#[trigger] l.windows@[j]).key@) matches Some(w) && w.generation >= l.windows@[j].generation)
    }
}

pub open spec fn leases_sound(ws: Seq<(Seq<char>, QuotaWindow)>, leases: Seq<(Seq<char>, LocalLeaseState)>) -> bool {
    forall|i: int| 0 <= i < leases.len() ==> lease_sound(ws, #[trigger] leases[i].1)
}

/// Window `k`, if kept, is within the limit `caps` keeps for it, committed and reserved
/// together, and holds in reserve at least what the leases, and `pending`, hold in it.
pub open spec fn window_ok(
    ws: Seq<(Seq<char>, QuotaWindow)>,
    caps: Map<Seq<char>, u32>,
    leases: Seq<(Seq<char>, LocalLeaseState)>,
    pending: spec_fn(Seq<char>, u64) -> int,
    k: Seq<char>,
) -> bool {
    match key_lookup(ws, k) {
        Some(w) => {
            &&& caps.dom().contains(k) ==> w.committed + w.reserved <= caps[k]
            &&& w.reserved >= held(leases, k, w.generation) + pending(k, w.generation)
        },
        None => true,
    }
}

/// Every kept window is as `window_ok` says.
pub open spec fn windows_cover(
    ws: Seq<(Seq<char>, QuotaWindow)>,
    caps: Map<Seq<char>, u32>,
    leases: Seq<(Seq<char>, LocalLeaseState)>,
    pending: spec_fn(Seq<char>, u64) -> int,
) -> bool {
    forall|k: Seq<char>| #[trigger] window_ok(ws, caps, leases, pending, k)
}

pub open spec fn no_pending() -> spec_fn(Seq<char>, u64) -> int {
    |k: Seq<char>, g: u64| 0int
}

/// `pending` and what a list of reservations of `amount` each holds.
pub open spec fn plus_entries(pending: spec_fn(Seq<char>, u64) -> int, res: Seq<(Seq<char>, u64)>, amount: u32) -> spec_fn(Seq<char>, u64) -> int {
    |k: Seq<char>, g: u64| pending(k, g) + entries_hold(res, amount, k, g)
}

/// The counter keeps every window within its limit: what `caps` keeps for its key.
pub open spec fn capacity_kept(c: CounterView, caps: Map<Seq<char>, u32>) -> bool {
    &&& windows_cover(c.windows, caps, c.leases, no_pending())
    &&& leases_sound(c.windows, c.leases)
}

/// Every kept window whose key has a limit holds no more than it, committed and reserved
/// together.
pub open spec fn windows_within_caps(ws: Seq<(Seq<char>, QuotaWindow)>, caps: Map<Seq<char>, u32>) -> bool {
    forall|k: Seq<char>| caps.dom().contains(k) && #[trigger] key_lookup(ws, k) is Some
        ==> key_lookup(ws, k)->0.committed + key_lookup(ws, k)->0.reserved <= caps[k]
}

/// Windows with the same keys at the same generations.
pub open spec fn same_generations(a: Seq<(Seq<char>, QuotaWindow)>, b: Seq<(Seq<char>, QuotaWindow)>) -> bool {
    forall|k: Seq<char>| #[trigger] key_lookup(b, k) is Some == key_lookup(a, k) is Some
        && (key_lookup(b, k) is Some ==> key_lookup(b, k)->0.generation == key_lookup(a, k)->0.generation)
}

proof fn lemma_entries_hold_nonneg(res: Seq<(Seq<char>, u64)>, amount: u32, k: Seq<char>, g: u64)
    ensures
        entries_hold(res, amount, k, g) >= 0,
    decreases res.len(),
{
    if res.len() > 0 {
        lemma_entries_hold_nonneg(res.drop_last(), amount, k, g);
    }
}

proof fn lemma_held_nonneg(s: Seq<(Seq<char>, LocalLeaseState)>, k: Seq<char>, g: u64)
    ensures
        held(s, k, g) >= 0,
    decreases s.len(),
{
    if s.len() > 0 {
        lemma_held_nonneg(s.drop_last(), k, g);
        let l = s.last().1;
        lemma_entries_hold_nonneg(reservation_views(l.windows@), l.reserved_amount, k, g);
    }
}

proof fn lemma_held_update(s: Seq<(Seq<char>, LocalLeaseState)>, i: int, e: (Seq<char>, LocalLeaseState), k: Seq<char>, g: u64)
    requires
        0 <= i < s.len(),
    ensures
        held(s.update(i, e), k, g) == held(s, k, g) - lease_holds(s[i].1, k, g) + lease_holds(e.1, k, g),
    decreases s.len(),
{
    if i < s.len() - 1 {
        assert(s.update(i, e).drop_last() =~= s.drop_last().update(i, e));
        lemma_held_update(s.drop_last(), i, e, k, g);
    } else {
        assert(s.update(i, e).drop_last() =~= s.drop_last());
    }
}

proof fn lemma_held_remove(s: Seq<(Seq<char>, LocalLeaseState)>, i: int, k: Seq<char>, g: u64)
    requires
        0 <= i < s.len(),
    ensures
        held(s.remove(i), k, g) == held(s, k, g) - lease_holds(s[i].1, k, g),
    decreases s.len(),
{
    if i < s.len() - 1 {
        assert(s.remove(i).drop_last() =~= s.drop_last().remove(i));
        assert(s.remove(i).last() == s.last());
        lemma_held_remove(s.drop_last(), i, k, g);
    } else {
        assert(s.remove(i) =~= s.drop_last());
    }
}

proof fn lemma_held_push(s: Seq<(Seq<char>, LocalLeaseState)>, e: (Seq<char>, LocalLeaseState), k: Seq<char>, g: u64)
    ensures
        held(s.push(e), k, g) == held(s, k, g) + lease_holds(e.1, k, g),
{
    assert(s.push(e).drop_last() =~= s);
}

/// Settling one lease's reservations returns its amount from each window of the same
/// generation and commits its total there.
proof fn lemma_settle_windows(
    ws: Seq<(Seq<char>, QuotaWindow)>,
    res: Seq<LocalWindowReservation>,
    amount: u32,
    total: u32,
    caps: Map<Seq<char>, u32>,
    others: Seq<(Seq<char>, LocalLeaseState)>,
    pending: spec_fn(Seq<char>, u64) -> int,
)
    requires
        total <= amount,
        forall|k: Seq<char>, g: u64| #[trigger] pending(k, g) >= 0,
        windows_cover(ws, caps, others, plus_entries(pending, reservation_views(res), amount)),
    ensures
        windows_cover(settle_windows(ws, res, amount, total), caps, others, pending),
        same_generations(ws, settle_windows(ws, res, amount, total)),
    decreases res.len(),
{
    let out = settle_windows(ws, res, amount, total);
    if res.len() == 0 {
        assert forall|k: Seq<char>| #[trigger] window_ok(out, caps, others, pending, k) by {
            assert(window_ok(ws, caps, others, plus_entries(pending, reservation_views(res), amount), k));
        }
    } else {
        let r = res.last();
        let rv = reservation_views(res);
        assert(reservation_views(res.drop_last()) =~= rv.drop_last());
        assert(rv.last() == (r.key@, r.generation));
        let p2 = |k: Seq<char>, g: u64| pending(k, g) + if r.key@ == k && r.generation == g { amount as int } else { 0int };
        assert forall|k: Seq<char>, g: u64| #[trigger] p2(k, g) >= 0 by {
            assert(pending(k, g) >= 0);
        }
        assert forall|k: Seq<char>| #[trigger] window_ok(ws, caps, others, plus_entries(p2, reservation_views(res.drop_last()), amount), k) by {
            assert(window_ok(ws, caps, others, plus_entries(pending, rv, amount), k));
        }
        lemma_settle_windows(ws, res.drop_last(), amount, total, caps, others, p2);
        let ws1 = settle_windows(ws, res.drop_last(), amount, total);
        assert forall|k: Seq<char>| #[trigger] window_ok(out, caps, others, pending, k)
            && (key_lookup(out, k) is Some == key_lookup(ws, k) is Some)
            && (key_lookup(out, k) is Some ==> key_lookup(out, k)->0.generation == key_lookup(ws, k)->0.generation) by {
            assert(window_ok(ws1, caps, others, p2, k));
            assert(key_lookup(ws1, k) is Some == key_lookup(ws, k) is Some);
            if key_lookup(ws1, r.key@) is Some && key_lookup(ws1, r.key@)->0.generation == r.generation {
                let w = key_lookup(ws1, r.key@)->0;
                let nw = QuotaWindow {
                    started_at: w.started_at,
                    generation: w.generation,
                    committed: sat_add(w.committed, total),
                    reserved: sat_sub(w.reserved, amount),
                };
                assert(out == key_store(ws1, r.key@, nw));
                if k == r.key@ {
                    lemma_key_store_same(ws1, r.key@, nw);
                    assert(window_ok(ws1, caps, others, p2, r.key@));
                    lemma_held_nonneg(others, r.key@, w.generation);
                    assert(pending(r.key@, w.generation) >= 0);
                } else {
                    lemma_key_store_other(ws1, r.key@, nw, k);
                }
            }
        }
        assert forall|k: Seq<char>| #[trigger] key_lookup(out, k) is Some == key_lookup(ws, k) is Some
            && (key_lookup(out, k) is Some ==> key_lookup(out, k)->0.generation == key_lookup(ws, k)->0.generation) by {
            assert(window_ok(out, caps, others, pending, k));
        }
    }
}

/// `pending` and what a lease holds.
pub open spec fn plus_lease(pending: spec_fn(Seq<char>, u64) -> int, l: LocalLeaseState) -> spec_fn(Seq<char>, u64) -> int {
    |k: Seq<char>, g: u64| pending(k, g) + lease_holds(l, k, g)
}

/// Every window kept in `a` is kept in `b`, at the same generation or a later one.
pub open spec fn generations_kept(a: Seq<(Seq<char>, QuotaWindow)>, b: Seq<(Seq<char>, QuotaWindow)>) -> bool {
    forall|k: Seq<char>| #[trigger] key_lookup(a, k) is Some ==> key_lookup(b, k) is Some
        && key_lookup(b, k)->0.generation >= key_lookup(a, k)->0.generation
}

proof fn lemma_same_generations_kept(a: Seq<(Seq<char>, QuotaWindow)>, b: Seq<(Seq<char>, QuotaWindow)>)
    requires
        same_generations(a, b),
    ensures
        generations_kept(a, b),
{
    assert forall|k: Seq<char>| #[trigger] key_lookup(a, k) is Some implies key_lookup(b, k) is Some
        && key_lookup(b, k)->0.generation >= key_lookup(a, k)->0.generation by {
        assert(key_lookup(b, k) is Some == key_lookup(a, k) is Some);
    }
}

proof fn lemma_sound_kept(a: Seq<(Seq<char>, QuotaWindow)>, b: Seq<(Seq<char>, QuotaWindow)>, l: LocalLeaseState)
    requires
        lease_sound(a, l),
        generations_kept(a, b),
    ensures
        lease_sound(b, l),
{
    if l.accounting == LocalAccounting::Consumable {
        assert forall|j: int| 0 <= j < l.windows@.len() implies
            (key_lookup(b, (#[trigger] l.windows@[j]).key@) matches Some(w) && w.generation >= l.windows@[j].generation) by {
            assert(key_lookup(a, l.windows@[j].key@) is Some);
        }
    }
}

proof fn lemma_settle_lease(
    c: Counts,
    l: LocalLeaseState,
    caps: Map<Seq<char>, u32>,
    others: Seq<(Seq<char>, LocalLeaseState)>,
    pending: spec_fn(Seq<char>, u64) -> int,
)
    requires
        l.accounting == LocalAccounting::Consumable ==> l.consumed_total <= l.reserved_amount,
        forall|k: Seq<char>, g: u64| #[trigger] pending(k, g) >= 0,
        windows_cover(c.windows, caps, others, plus_lease(pending, l)),
    ensures
        windows_cover(spec_settle(c, l).windows, caps, others, pending),
        same_generations(c.windows, spec_settle(c, l).windows),
{
    if l.accounting == LocalAccounting::Consumable {
        assert forall|k: Seq<char>| #[trigger] window_ok(c.windows, caps, others, plus_entries(pending, reservation_views(l.windows@), l.reserved_amount), k) by {
            assert(window_ok(c.windows, caps, others, plus_lease(pending, l), k));
        }
        lemma_settle_windows(c.windows, l.windows@, l.reserved_amount, l.consumed_total, caps, others, pending);
    } else {
        assert forall|k: Seq<char>| #[trigger] window_ok(spec_settle(c, l).windows, caps, others, pending, k) by {
            assert(window_ok(c.windows, caps, others, plus_lease(pending, l), k));
        }
        assert forall|k: Seq<char>| #[trigger] key_lookup(spec_settle(c, l).windows, k) is Some == key_lookup(c.windows, k) is Some
            && (key_lookup(spec_settle(c, l).windows, k) is Some ==> key_lookup(spec_settle(c, l).windows, k)->0.generation == key_lookup(c.windows, k)->0.generation) by {
        }
    }
}

proof fn lemma_cleanup_cover(
    c: Counts,
    leases: Seq<(Seq<char>, LocalLeaseState)>,
    now: u64,
    caps: Map<Seq<char>, u32>,
    pending: spec_fn(Seq<char>, u64) -> int,
)
    requires
        forall|k: Seq<char>, g: u64| #[trigger] pending(k, g) >= 0,
        windows_cover(c.windows, caps, leases, pending),
        leases_sound(c.windows, leases),
    ensures
        ({
            let r = cleanup_leases(c, leases, now);
            &&& windows_cover(r.0.windows, caps, r.1, pending)
            &&& same_generations(c.windows, r.0.windows)
            &&& forall|i: int| 0 <= i < r.1.len() ==> exists|j: int| 0 <= j < leases.len() && #[trigger] r.1[i] == leases[j]
        }),
    decreases leases.len(),
{
    let r = cleanup_leases(c, leases, now);
    if leases.len() == 0 {
        assert forall|k: Seq<char>| #[trigger] key_lookup(r.0.windows, k) is Some == key_lookup(c.windows, k) is Some
            && (key_lookup(r.0.windows, k) is Some ==> key_lookup(r.0.windows, k)->0.generation == key_lookup(c.windows, k)->0.generation) by {
        }
    } else {
        let d = leases.drop_last();
        let l = leases.last();
        let p2 = plus_lease(pending, l.1);
        assert forall|k: Seq<char>, g: u64| #[trigger] p2(k, g) >= 0 by {
            assert(pending(k, g) >= 0);
            lemma_entries_hold_nonneg(reservation_views(l.1.windows@), l.1.reserved_amount, k, g);
        }
        assert forall|k: Seq<char>| #[trigger] window_ok(c.windows, caps, d, p2, k) by {
            assert(window_ok(c.windows, caps, leases, pending, k));
        }
        assert forall|i: int| 0 <= i < d.len() implies lease_sound(c.windows, #[trigger] d[i].1) by {
            assert(d[i] == leases[i]);
        }
        lemma_cleanup_cover(c, d, now, caps, p2);
        let prev = cleanup_leases(c, d, now);
        assert(lease_sound(c.windows, leases[leases.len() - 1].1));
        if l.1.expires_at <= now {
            lemma_settle_lease(prev.0, l.1, caps, prev.1, pending);
            assert forall|k: Seq<char>| #[trigger] key_lookup(r.0.windows, k) is Some == key_lookup(c.windows, k) is Some
                && (key_lookup(r.0.windows, k) is Some ==> key_lookup(r.0.windows, k)->0.generation == key_lookup(c.windows, k)->0.generation) by {
                assert(key_lookup(prev.0.windows, k) is Some == key_lookup(c.windows, k) is Some);
                assert(key_lookup(r.0.windows, k) is Some == key_lookup(prev.0.windows, k) is Some);
            }
            assert forall|i: int| 0 <= i < r.1.len() implies exists|j: int| 0 <= j < leases.len() && #[trigger] r.1[i] == leases[j] by {
                let j = choose|j: int| 0 <= j < d.len() && #[trigger] prev.1[i] == d[j];
                assert(d[j] == leases[j]);
            }
        } else {
            assert forall|k: Seq<char>| #[trigger] window_ok(r.0.windows, caps, r.1, pending, k) by {
                assert(window_ok(prev.0.windows, caps, prev.1, p2, k));
                if key_lookup(r.0.windows, k) is Some {
                    lemma_held_push(prev.1, l, k, key_lookup(r.0.windows, k)->0.generation);
                }
            }
            assert forall|i: int| 0 <= i < r.1.len() implies exists|j: int| 0 <= j < leases.len() && #[trigger] r.1[i] == leases[j] by {
                if i < prev.1.len() {
                    let j = choose|j: int| 0 <= j < d.len() && #[trigger] prev.1[i] == d[j];
                    assert(d[j] == leases[j]);
                    assert(r.1[i] == prev.1[i]);
                } else {
                    assert(r.1[i] == leases[leases.len() - 1]);
                }
            }
        }
    }
}

proof fn lemma_cleanup_kept(c: CounterView, now: u64, caps: Map<Seq<char>, u32>)
    requires
        capacity_kept(c, caps),
    ensures
        capacity_kept(spec_cleanup(c, now), caps),
        same_generations(c.windows, spec_cleanup(c, now).windows),
{
    let c0 = spec_cleanup(c, now);
    lemma_cleanup_cover(counts_of(c), c.leases, now, caps, no_pending());
    lemma_same_generations_kept(c.windows, c0.windows);
    assert forall|i: int| 0 <= i < c0.leases.len() implies lease_sound(c0.windows, #[trigger] c0.leases[i].1) by {
        let j = choose|j: int| 0 <= j < c.leases.len() && #[trigger] c0.leases[i] == c.leases[j];
        assert(lease_sound(c.windows, c.leases[j].1));
        lemma_sound_kept(c.windows, c0.windows, c.leases[j].1);
    }
}

/// Recording progress on a lease and settling one keep every window within its limit:
/// when the counter kept them so before (with each window holding in reserve what its
/// leases reserved there), it does after.
pub proof fn law_update_and_finish_keep_windows_within_limits(
    c: CounterView,
    lease_id: Seq<char>,
    total: u32,
    sequence: u64,
    now: u64,
    caps: Map<Seq<char>, u32>,
)
    requires
        capacity_kept(c, caps),
    ensures
        capacity_kept(spec_update(c, lease_id, total, sequence, now).0, caps),
        capacity_kept(spec_finish(c, lease_id, total, sequence, now).0, caps),
{
    lemma_cleanup_kept(c, now, caps);
    let c0 = spec_cleanup(c, now);
    lemma_key_index(c0.leases, lease_id);
    if key_index(c0.leases, lease_id) is Some {
        let i = key_index(c0.leases, lease_id)->0;
        let l = c0.leases[i].1;
        assert(key_lookup(c0.leases, lease_id) == Some(l));
        assert(lease_sound(c0.windows, c0.leases[i].1));
        if spec_validate(l, total, sequence) is None {
            // Progress: the lease is replaced by itself with the new total.
            let lu = with_progress(l, total, sequence);
            let u = spec_update(c, lease_id, total, sequence, now).0;
            if !(l.sequence == sequence && l.consumed_total == total) {
                assert(u.leases == c0.leases.update(i, (lease_id, lu)));
                assert forall|k: Seq<char>| #[trigger] window_ok(u.windows, caps, u.leases, no_pending(), k) by {
                    assert(window_ok(c0.windows, caps, c0.leases, no_pending(), k));
                    if key_lookup(u.windows, k) is Some {
                        lemma_held_update(c0.leases, i, (lease_id, lu), k, key_lookup(u.windows, k)->0.generation);
                    }
                }
                assert forall|j: int| 0 <= j < u.leases.len() implies lease_sound(u.windows, #[trigger] u.leases[j].1) by {
                    if j != i {
                        assert(u.leases[j] == c0.leases[j]);
                    } else if lu.accounting == LocalAccounting::Consumable {
                        assert(u.windows == c0.windows);
                        assert forall|m: int| 0 <= m < lu.windows@.len() implies
                            (key_lookup(u.windows, (#[trigger] lu.windows@[m]).key@) matches Some(w) && w.generation >= lu.windows@[m].generation) by {
                            assert(lu.windows@[m] == l.windows@[m]);
                        }
                    }
                }
            }
            // Settlement: the lease leaves and its reservations are returned.
            let lf = with_progress(l, total, l.sequence);
            if !(key_lookup(c0.completed, lease_id) matches Some(d) && d.sequence == sequence && d.consumed_total == total) {
                let f = spec_finish(c, lease_id, total, sequence, now).0;
                let rest = c0.leases.remove(i);
                assert(f.leases == rest);
                assert forall|k: Seq<char>| #[trigger] window_ok(c0.windows, caps, rest, plus_lease(no_pending(), lf), k) by {
                    assert(window_ok(c0.windows, caps, c0.leases, no_pending(), k));
                    if key_lookup(c0.windows, k) is Some {
                        lemma_held_remove(c0.leases, i, k, key_lookup(c0.windows, k)->0.generation);
                    }
                }
                lemma_settle_lease(counts_of(c0), lf, caps, rest, no_pending());
                lemma_same_generations_kept(c0.windows, f.windows);
                assert forall|j: int| 0 <= j < f.leases.len() implies lease_sound(f.windows, #[trigger] f.leases[j].1) by {
                    if j < i {
                        assert(f.leases[j] == c0.leases[j]);
                        lemma_sound_kept(c0.windows, f.windows, c0.leases[j].1);
                    } else {
                        assert(f.leases[j] == c0.leases[j + 1]);
                        lemma_sound_kept(c0.windows, f.windows, c0.leases[j + 1].1);
                    }
                }
            }
        }
    }
}

proof fn lemma_entries_hold_zero(res: Seq<(Seq<char>, u64)>, amount: u32, k: Seq<char>, g: u64)
    requires
        forall|j: int| 0 <= j < res.len() ==> (#[trigger] res[j]).0 != k || res[j].1 != g,
    ensures
        entries_hold(res, amount, k, g) == 0,
    decreases res.len(),
{
    if res.len() > 0 {
        assert(res[res.len() - 1] == res.last());
        assert forall|j: int| 0 <= j < res.drop_last().len() implies (#[trigger] res.drop_last()[j]).0 != k || res.drop_last()[j].1 != g by {
            assert(res.drop_last()[j] == res[j]);
        }
        lemma_entries_hold_zero(res.drop_last(), amount, k, g);
    }
}

/// No lease holds anything in a window that is not kept, nor in a generation later than
/// the kept one.
proof fn lemma_held_zero(ws: Seq<(Seq<char>, QuotaWindow)>, leases: Seq<(Seq<char>, LocalLeaseState)>, k: Seq<char>, g: u64)
    requires
        leases_sound(ws, leases),
        key_lookup(ws, k) is None || g > key_lookup(ws, k)->0.generation,
    ensures
        held(leases, k, g) == 0,
    decreases leases.len(),
{
    if leases.len() > 0 {
        let d = leases.drop_last();
        assert forall|i: int| 0 <= i < d.len() implies lease_sound(ws, #[trigger] d[i].1) by {
            assert(d[i] == leases[i]);
        }
        lemma_held_zero(ws, d, k, g);
        let l = leases.last().1;
        assert(lease_sound(ws, leases[leases.len() - 1].1));
        if l.accounting == LocalAccounting::Consumable {
            let rv = reservation_views(l.windows@);
            assert forall|j: int| 0 <= j < rv.len() implies (#[trigger] rv[j]).0 != k || rv[j].1 != g by {
                assert(rv[j] == (l.windows@[j].key@, l.windows@[j].generation));
                assert(key_lookup(ws, l.windows@[j].key@) is Some);
            }
            lemma_entries_hold_zero(rv, l.reserved_amount, k, g);
        }
    }
}

/// The counter key of a window amount of a trigger.
pub open spec fn amount_key(req: QuotaRequest, rule: RateLimit, trigger: LimitTrigger, a: Amount) -> Seq<char> {
    spec_quota_counter_key(req, rule, trigger, spec_amount_duration(a))
}

/// The window amounts have distinct counter keys, each with the limit `caps` keeps for it,
/// below the largest `u32`.
pub open spec fn amounts_fit(req: QuotaRequest, rule: RateLimit, trigger: LimitTrigger, amounts: Seq<Amount>, caps: Map<Seq<char>, u32>) -> bool {
    &&& forall|i: int, j: int| 0 <= i < j < amounts.len()
        ==> amount_key(req, rule, trigger, #[trigger] amounts[i]) != amount_key(req, rule, trigger, #[trigger] amounts[j])
    &&& forall|j: int| 0 <= j < amounts.len() ==> caps.dom().contains(amount_key(req, rule, trigger, #[trigger] amounts[j]))
        && caps[amount_key(req, rule, trigger, amounts[j])] == amounts[j].max_amount
        && amounts[j].max_amount < u32::MAX
}

/// No kept window is at the last generation.
pub open spec fn generations_below_max(ws: Seq<(Seq<char>, QuotaWindow)>) -> bool {
    forall|k: Seq<char>| #[trigger] key_lookup(ws, k) is Some ==> key_lookup(ws, k)->0.generation < u64::MAX
}

proof fn lemma_check_windows(
    ws: Seq<(Seq<char>, QuotaWindow)>,
    req: QuotaRequest,
    rule: RateLimit,
    trigger: LimitTrigger,
    amounts: Seq<Amount>,
    amount: u32,
    now: u64,
    caps: Map<Seq<char>, u32>,
    leases: Seq<(Seq<char>, LocalLeaseState)>,
)
    requires
        windows_cover(ws, caps, leases, no_pending()),
        leases_sound(ws, leases),
        amounts_fit(req, rule, trigger, amounts, caps),
        generations_below_max(ws),
    ensures
        ({
            let out = check_windows(ws, req, rule, trigger, amounts, amount, now);
            &&& windows_cover(out.0, caps, leases, no_pending())
            &&& generations_kept(ws, out.0)
            &&& forall|k: Seq<char>| (forall|j: int| 0 <= j < amounts.len() ==> amount_key(req, rule, trigger, #[trigger] amounts[j]) != k)
                ==> #[trigger] key_lookup(out.0, k) == key_lookup(ws, k)
            &&& out.1 matches Some(res) ==> {
                &&& res.len() == amounts.len()
                &&& forall|j: int| 0 <= j < res.len() ==> {
                    &&& (#[trigger] res[j]).0 == amount_key(req, rule, trigger, amounts[j])
                    &&& key_lookup(out.0, res[j].0) is Some
                    &&& key_lookup(out.0, res[j].0)->0.generation == res[j].1
                    &&& key_lookup(out.0, res[j].0)->0.committed + key_lookup(out.0, res[j].0)->0.reserved + amount <= amounts[j].max_amount
                }
            }
        }),
    decreases amounts.len(),
{
    let out = check_windows(ws, req, rule, trigger, amounts, amount, now);
    if amounts.len() == 0 {
        assert forall|k: Seq<char>| #[trigger] key_lookup(ws, k) is Some implies key_lookup(out.0, k) is Some
            && key_lookup(out.0, k)->0.generation >= key_lookup(ws, k)->0.generation by {}
    } else {
        let d = amounts.drop_last();
        let n = amounts.len() - 1;
        assert forall|i: int, j: int| 0 <= i < j < d.len()
            implies amount_key(req, rule, trigger, #[trigger] d[i]) != amount_key(req, rule, trigger, #[trigger] d[j]) by {
            assert(d[i] == amounts[i] && d[j] == amounts[j]);
        }
        assert forall|j: int| 0 <= j < d.len() implies caps.dom().contains(amount_key(req, rule, trigger, #[trigger] d[j]))
            && caps[amount_key(req, rule, trigger, d[j])] == d[j].max_amount
            && d[j].max_amount < u32::MAX by {
            assert(d[j] == amounts[j]);
        }
        lemma_check_windows(ws, req, rule, trigger, d, amount, now, caps, leases);
        let prev = check_windows(ws, req, rule, trigger, d, amount, now);
        if prev.1 is Some {
            let done = prev.1->0;
            let a = amounts.last();
            assert(a == amounts[n]);
            let secs = spec_amount_duration(a);
            let key = spec_quota_counter_key(req, rule, trigger, secs);
            assert(key == amount_key(req, rule, trigger, amounts[n]));
            assert(forall|j: int| 0 <= j < d.len() ==> amount_key(req, rule, trigger, #[trigger] d[j]) != key) by {
                assert forall|j: int| 0 <= j < d.len() implies amount_key(req, rule, trigger, #[trigger] d[j]) != key by {
                    assert(d[j] == amounts[j]);
                }
            }
            assert(key_lookup(prev.0, key) == key_lookup(ws, key));
            let w = window_at(key_lookup(prev.0, key), secs, now);
            let ws2 = key_store(prev.0, key, w);
            assert(caps.dom().contains(key) && caps[key] == a.max_amount && a.max_amount < u32::MAX);
            // The window checked: as it was, or new or restarted and empty.
            assert(window_ok(ws2, caps, leases, no_pending(), key)) by {
                lemma_key_store_same(prev.0, key, w);
                assert(window_ok(prev.0, caps, leases, no_pending(), key));
                if key_lookup(prev.0, key) is None {
                    lemma_held_zero(ws, leases, key, w.generation);
                    lemma_held_nonneg(leases, key, w.generation);
                } else if w != key_lookup(prev.0, key)->0 {
                    assert(key_lookup(ws, key)->0.generation < u64::MAX);
                    lemma_held_zero(ws, leases, key, w.generation);
                }
            }
            assert forall|k: Seq<char>| #[trigger] window_ok(ws2, caps, leases, no_pending(), k) by {
                if k != key {
                    lemma_key_store_other(prev.0, key, w, k);
                    assert(window_ok(prev.0, caps, leases, no_pending(), k));
                }
            }
            assert forall|k: Seq<char>| #[trigger] key_lookup(ws, k) is Some implies key_lookup(ws2, k) is Some
                && key_lookup(ws2, k)->0.generation >= key_lookup(ws, k)->0.generation by {
                assert(key_lookup(prev.0, k) is Some);
                if k == key {
                    lemma_key_store_same(prev.0, key, w);
                } else {
                    lemma_key_store_other(prev.0, key, w, k);
                }
            }
            assert forall|k: Seq<char>| (forall|j: int| 0 <= j < amounts.len() ==> amount_key(req, rule, trigger, #[trigger] amounts[j]) != k)
                implies #[trigger] key_lookup(ws2, k) == key_lookup(ws, k) by {
                assert(amount_key(req, rule, trigger, amounts[n]) != k);
                assert(forall|j: int| 0 <= j < d.len() ==> amount_key(req, rule, trigger, #[trigger] d[j]) != k) by {
                    assert forall|j: int| 0 <= j < d.len() implies amount_key(req, rule, trigger, #[trigger] d[j]) != k by {
                        assert(d[j] == amounts[j]);
                        assert(amount_key(req, rule, trigger, amounts[j]) != k);
                    }
                }
                lemma_key_store_other(prev.0, key, w, k);
            }
            if sat_add(sat_add(w.committed, w.reserved), amount) <= a.max_amount {
                let res = done.push((key, w.generation));
                lemma_key_store_same(prev.0, key, w);
                assert(w.committed + w.reserved <= a.max_amount);
                assert forall|j: int| 0 <= j < res.len() implies {
                    &&& (#[trigger] res[j]).0 == amount_key(req, rule, trigger, amounts[j])
                    &&& key_lookup(ws2, res[j].0) is Some
                    &&& key_lookup(ws2, res[j].0)->0.generation == res[j].1
                    &&& key_lookup(ws2, res[j].0)->0.committed + key_lookup(ws2, res[j].0)->0.reserved + amount <= amounts[j].max_amount
                } by {
                    if j < n {
                        assert(res[j] == done[j]);
                        assert(d[j] == amounts[j]);
                        assert(done[j].0 == amount_key(req, rule, trigger, d[j]));
                        assert(amount_key(req, rule, trigger, amounts[j]) != key);
                        lemma_key_store_other(prev.0, key, w, done[j].0);
                    }
                }
            }
        } else {
            assert forall|k: Seq<char>| (forall|j: int| 0 <= j < amounts.len() ==> amount_key(req, rule, trigger, #[trigger] amounts[j]) != k)
                implies #[trigger] key_lookup(out.0, k) == key_lookup(ws, k) by {
                assert(forall|j: int| 0 <= j < d.len() ==> amount_key(req, rule, trigger, #[trigger] d[j]) != k) by {
                    assert forall|j: int| 0 <= j < d.len() implies amount_key(req, rule, trigger, #[trigger] d[j]) != k by {
                        assert(d[j] == amounts[j]);
                        assert(amount_key(req, rule, trigger, amounts[j]) != k);
                    }
                }
            }
        }
    }
}

/// Whether a reservation list names window `k`.
pub open spec fn has_key(res: Seq<(Seq<char>, u64)>, k: Seq<char>) -> bool
    decreases res.len(),
{
    res.len() > 0 && (res.last().0 == k || has_key(res.drop_last(), k))
}

pub open spec fn keys_distinct(res: Seq<(Seq<char>, u64)>) -> bool {
    forall|i: int, j: int| 0 <= i < j < res.len() ==> (#[trigger] res[i]).0 != (#[trigger] res[j]).0
}

proof fn lemma_has_key(res: Seq<(Seq<char>, u64)>, k: Seq<char>)
    ensures
        has_key(res, k) <==> exists|j: int| 0 <= j < res.len() && (#[trigger] res[j]).0 == k,
    decreases res.len(),
{
    if res.len() > 0 {
        lemma_has_key(res.drop_last(), k);
        if has_key(res.drop_last(), k) {
            let j = choose|j: int| 0 <= j < res.drop_last().len() && (#[trigger] res.drop_last()[j]).0 == k;
            assert(res[j] == res.drop_last()[j]);
        }
        if exists|j: int| 0 <= j < res.len() && (#[trigger] res[j]).0 == k {
            let j = choose|j: int| 0 <= j < res.len() && (#[trigger] res[j]).0 == k;
            if j < res.len() - 1 {
                assert(res.drop_last()[j] == res[j]);
            }
        }
    }
}

/// A window with `amount` more in reserve.
pub open spec fn bumped(o: Option<QuotaWindow>, amount: u32) -> Option<QuotaWindow> {
    match o {
        Some(w) => Some(QuotaWindow { started_at: w.started_at, generation: w.generation, committed: w.committed, reserved: sat_add(w.reserved, amount) }),
        None => None,
    }
}

proof fn lemma_add_reserved(ws: Seq<(Seq<char>, QuotaWindow)>, res: Seq<(Seq<char>, u64)>, amount: u32)
    requires
        keys_distinct(res),
    ensures
        forall|k: Seq<char>| #[trigger] key_lookup(add_reserved(ws, res, amount), k)
            == if has_key(res, k) { bumped(key_lookup(ws, k), amount) } else { key_lookup(ws, k) },
    decreases res.len(),
{
    if res.len() > 0 {
        let d = res.drop_last();
        assert forall|i: int, j: int| 0 <= i < j < d.len() implies (#[trigger] d[i]).0 != (#[trigger] d[j]).0 by {
            assert(d[i] == res[i] && d[j] == res[j]);
        }
        lemma_add_reserved(ws, d, amount);
        let kl = res.last().0;
        lemma_has_key(d, kl);
        if has_key(d, kl) {
            let j = choose|j: int| 0 <= j < d.len() && (#[trigger] d[j]).0 == kl;
            assert(res[j] == d[j]);
            assert(res[res.len() - 1] == res.last());
        }
        let ws1 = add_reserved(ws, d, amount);
        assert(key_lookup(ws1, kl) == key_lookup(ws, kl));
        let out = add_reserved(ws, res, amount);
        assert forall|k: Seq<char>| #[trigger] key_lookup(out, k)
            == if has_key(res, k) { bumped(key_lookup(ws, k), amount) } else { key_lookup(ws, k) } by {
            if key_lookup(ws1, kl) is Some {
                let w = key_lookup(ws1, kl)->0;
                let nw = QuotaWindow { started_at: w.started_at, generation: w.generation, committed: w.committed, reserved: sat_add(w.reserved, amount) };
                if k == kl {
                    lemma_key_store_same(ws1, kl, nw);
                } else {
                    lemma_key_store_other(ws1, kl, nw, k);
                }
            }
        }
    }
}

proof fn lemma_entries_hold_at_most(res: Seq<(Seq<char>, u64)>, amount: u32, k: Seq<char>, g: u64)
    requires
        keys_distinct(res),
    ensures
        entries_hold(res, amount, k, g) <= if has_key(res, k) { amount as int } else { 0int },
        entries_hold(res, amount, k, g) >= 0,
    decreases res.len(),
{
    lemma_entries_hold_nonneg(res, amount, k, g);
    if res.len() > 0 {
        let d = res.drop_last();
        assert forall|i: int, j: int| 0 <= i < j < d.len() implies (#[trigger] d[i]).0 != (#[trigger] d[j]).0 by {
            assert(d[i] == res[i] && d[j] == res[j]);
        }
        lemma_entries_hold_at_most(d, amount, k, g);
        if res.last().0 == k {
            assert forall|j: int| 0 <= j < d.len() implies (#[trigger] d[j]).0 != k || d[j].1 != g by {
                assert(d[j] == res[j]);
                assert(res[res.len() - 1] == res.last());
            }
            lemma_entries_hold_zero(d, amount, k, g);
        }
    }
}

proof fn lemma_held_store(leases: Seq<(Seq<char>, LocalLeaseState)>, id: Seq<char>, l: LocalLeaseState, k: Seq<char>, g: u64)
    ensures
        held(key_store(leases, id, l), k, g) <= held(leases, k, g) + lease_holds(l, k, g),
{
    lemma_key_index(leases, id);
    match key_index(leases, id) {
        Some(i) => {
            lemma_held_update(leases, i, (id, l), k, g);
            let o = leases[i].1;
            lemma_entries_hold_nonneg(reservation_views(o.windows@), o.reserved_amount, k, g);
        },
        None => {
            lemma_held_push(leases, (id, l), k, g);
        },
    }
}

proof fn lemma_store_entries(leases: Seq<(Seq<char>, LocalLeaseState)>, id: Seq<char>, l: LocalLeaseState)
    ensures
        forall|i: int| 0 <= i < key_store(leases, id, l).len() ==> (#[trigger] key_store(leases, id, l)[i]) == (id, l)
            || exists|j: int| 0 <= j < leases.len() && key_store(leases, id, l)[i] == #[trigger] leases[j],
{
    lemma_key_index(leases, id);
    let t = key_store(leases, id, l);
    assert forall|i: int| 0 <= i < t.len() implies (#[trigger] t[i]) == (id, l)
        || exists|j: int| 0 <= j < leases.len() && t[i] == #[trigger] leases[j] by {
        if i < leases.len() && t[i] == leases[i] {
        }
    }
}

/// A new counter keeps every window within its limit.
pub proof fn law_empty_counter_keeps_capacity(c: CounterView, caps: Map<Seq<char>, u32>)
    requires
        c.windows.len() == 0,
        c.leases.len() == 0,
    ensures
        capacity_kept(c, caps),
{
    assert forall|k: Seq<char>| #[trigger] window_ok(c.windows, caps, c.leases, no_pending(), k) by {
        lemma_key_index(c.windows, k);
    }
}

/// What the invariant promises of the windows: each kept window whose key has a limit holds
/// no more than that limit, committed and reserved together.
pub proof fn law_kept_capacity_bounds_windows(c: CounterView, caps: Map<Seq<char>, u32>)
    requires
        capacity_kept(c, caps),
    ensures
        windows_within_caps(c.windows, caps),
{
    assert forall|k: Seq<char>| caps.dom().contains(k) && #[trigger] key_lookup(c.windows, k) is Some
        implies key_lookup(c.windows, k)->0.committed + key_lookup(c.windows, k)->0.reserved <= caps[k] by {
        assert(window_ok(c.windows, caps, c.leases, no_pending(), k));
    }
}

/// A reservation keeps every window within its limit: when the counter kept them so before
/// (each window also holding in reserve what its leases reserved there), the trigger's
/// window amounts have distinct counter keys with the limits `caps` keeps for them (below
/// the largest `u32`), no window is at its last generation, and the reservation is no
/// smaller than what a new lease starts consuming, the counter keeps them so after,
/// whatever the reservation answers.
pub proof fn law_reserve_keeps_windows_within_limits(
    before: CounterView,
    after: CounterView,
    req: QuotaRequest,
    rule: RateLimit,
    trigger: LimitTrigger,
    reserved_amount: u32,
    now: u64,
    r: Result<LocalReserveResult, PoleError>,
    caps: Map<Seq<char>, u32>,
)
    requires
        capacity_kept(before, caps),
        generations_below_max(before.windows),
        amounts_fit(req, rule, trigger, configured(trigger.amounts@), caps),
        reserved_amount >= spec_initial_consumed_total(trigger.resource),
        spec_local_reserve(before, after, req, rule, trigger, reserved_amount, now, r),
    ensures
        capacity_kept(after, caps),
{
    lemma_cleanup_kept(before, now, caps);
    let c0 = spec_cleanup(before, now);
    assert forall|k: Seq<char>| #[trigger] key_lookup(c0.windows, k) is Some implies key_lookup(c0.windows, k)->0.generation < u64::MAX by {
        assert(key_lookup(c0.windows, k) is Some == key_lookup(before.windows, k) is Some);
    }
    if now + crate::traffic::ratelimit::req::spec_ttl_ms(req) <= u64::MAX {
        let expires_at = (now + crate::traffic::ratelimit::req::spec_ttl_ms(req)) as u64;
        let out = spec_reserve_counts(counts_of(c0), req, rule, trigger, reserved_amount, now, expires_at);
        let amounts = configured(trigger.amounts@);
        if (trigger.resource == LimitResource::Qps || trigger.resource == LimitResource::Token) && amounts.len() > 0 {
            lemma_check_windows(c0.windows, req, rule, trigger, amounts, reserved_amount, now, caps, c0.leases);
            let chk = check_windows(c0.windows, req, rule, trigger, amounts, reserved_amount, now);
            assert forall|i: int| 0 <= i < c0.leases.len() implies lease_sound(chk.0, #[trigger] c0.leases[i].1) by {
                lemma_sound_kept(c0.windows, chk.0, c0.leases[i].1);
            }
            if chk.1 is Some {
                let res = chk.1->0;
                assert forall|i: int, j: int| 0 <= i < j < res.len() implies (#[trigger] res[i]).0 != (#[trigger] res[j]).0 by {
                    assert(res[i].0 == amount_key(req, rule, trigger, amounts[i]));
                    assert(res[j].0 == amount_key(req, rule, trigger, amounts[j]));
                }
                lemma_add_reserved(chk.0, res, reserved_amount);
                let b = r->Ok_0->Reserved_0;
                let l = key_lookup(after.leases, b.lease_id@)->0;
                assert(new_lease_ok(l, counts_of(c0), req, rule, trigger, reserved_amount, now, expires_at));
                assert(reservation_views(l.windows@) == res);
                assert(after.leases == key_store(c0.leases, b.lease_id@, l));
                assert(after.windows == add_reserved(chk.0, res, reserved_amount));
                assert forall|k: Seq<char>| #[trigger] window_ok(after.windows, caps, after.leases, no_pending(), k) by {
                    assert(window_ok(chk.0, caps, c0.leases, no_pending(), k));
                    if key_lookup(after.windows, k) is Some {
                        let g = key_lookup(after.windows, k)->0.generation;
                        lemma_held_store(c0.leases, b.lease_id@, l, k, g);
                        lemma_entries_hold_at_most(res, reserved_amount, k, g);
                        if has_key(res, k) {
                            lemma_has_key(res, k);
                            let j = choose|j: int| 0 <= j < res.len() && (#[trigger] res[j]).0 == k;
                            assert(key_lookup(chk.0, res[j].0) is Some);
                        }
                    }
                }
                lemma_store_entries(c0.leases, b.lease_id@, l);
                assert forall|k: Seq<char>| #[trigger] key_lookup(chk.0, k) is Some implies key_lookup(after.windows, k) is Some
                    && key_lookup(after.windows, k)->0.generation >= key_lookup(chk.0, k)->0.generation by {}
                assert forall|i: int| 0 <= i < after.leases.len() implies lease_sound(after.windows, #[trigger] after.leases[i].1) by {
                    if after.leases[i] == (b.lease_id@, l) {
                        assert forall|m: int| 0 <= m < l.windows@.len() implies
                            (key_lookup(after.windows, (#[trigger] l.windows@[m]).key@) matches Some(w) && w.generation >= l.windows@[m].generation) by {
                            assert(reservation_views(l.windows@)[m] == (l.windows@[m].key@, l.windows@[m].generation));
                            assert(res[m] == (l.windows@[m].key@, l.windows@[m].generation));
                            assert(key_lookup(chk.0, res[m].0) is Some);
                            lemma_has_key(res, res[m].0);
                        }
                    } else {
                        let j = choose|j: int| 0 <= j < c0.leases.len() && after.leases[i] == #[trigger] c0.leases[j];
                        lemma_sound_kept(chk.0, after.windows, c0.leases[j].1);
                    }
                }
            }
        } else if trigger.resource == LimitResource::Concurrency && out.1 is Lease {
            let b = r->Ok_0->Reserved_0;
            let l = key_lookup(after.leases, b.lease_id@)->0;
            assert(new_lease_ok(l, counts_of(c0), req, rule, trigger, reserved_amount, now, expires_at));
            assert(after.windows == c0.windows);
            assert forall|k: Seq<char>| #[trigger] window_ok(after.windows, caps, after.leases, no_pending(), k) by {
                assert(window_ok(c0.windows, caps, c0.leases, no_pending(), k));
                if key_lookup(after.windows, k) is Some {
                    lemma_held_store(c0.leases, b.lease_id@, l, k, key_lookup(after.windows, k)->0.generation);
                }
            }
            lemma_store_entries(c0.leases, b.lease_id@, l);
            assert forall|i: int| 0 <= i < after.leases.len() implies lease_sound(after.windows, #[trigger] after.leases[i].1) by {
                if after.leases[i] != (b.lease_id@, l) {
                    let j = choose|j: int| 0 <= j < c0.leases.len() && after.leases[i] == #[trigger] c0.leases[j];
                }
            }
        }
    }
}

} // verus!
