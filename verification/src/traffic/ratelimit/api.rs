//! A quota lease: what was reserved, what has been consumed so far, and the numbered,
//! cumulative reports that move it towards its settlement.

use vstd::prelude::*;
use vstd::string::StringExecFns;
use crate::model::{ErrorCode, PoleError};
use crate::text::{spec_decimal, u64_to_decimal, string_from_chars};
use crate::traffic::ratelimit::req::{
    QuotaAmount, QuotaResource, resource_name, resource_name_string, spec_amount_for,
};

verus! {

/// How much of a resource a lease has consumed in all, so far.
#[derive(Clone, Copy, Debug, Eq, PartialEq, Structural)]
pub struct QuotaConsumption {
    pub resource: QuotaResource,
    pub consumed_total: u32,
}

/// Why a consumption report is refused.
pub enum UpdateError {
    Finished,
    Duplicate(QuotaResource),
    NotReserved(QuotaResource),
    Decrease(u32, u32),
    Exceeds(u32, u32),
}

/// The code and message of a refused report.
pub open spec fn update_error_code(e: UpdateError) -> ErrorCode {
    match e {
        UpdateError::Finished => ErrorCode::InvalidState,
        _ => ErrorCode::ApiInvalidArgument,
    }
}

pub open spec fn update_error_message(e: UpdateError) -> Seq<char> {
    match e {
        UpdateError::Finished => "quota lease is already finished"@,
        UpdateError::Duplicate(r) => "duplicate quota consumption for "@ + resource_name(r),
        UpdateError::NotReserved(r) => "quota resource "@ + resource_name(r) + " was not reserved"@,
        UpdateError::Decrease(from, to) => "quota consumed total cannot decrease from "@
            + spec_decimal(from as nat) + " to "@ + spec_decimal(to as nat),
        UpdateError::Exceeds(total, reserved) => "quota consumed total "@ + spec_decimal(total as nat)
            + " exceeds reservation "@ + spec_decimal(reserved as nat),
    }
}

/// Index of the first consumption of a resource.
pub open spec fn consumption_index(s: Seq<QuotaConsumption>, r: QuotaResource) -> Option<int>
    decreases s.len(),
{
    if s.len() == 0 {
        None
    } else if s[0].resource == r {
        Some(0)
    } else {
        match consumption_index(s.drop_first(), r) {
            Some(i) => Some(i + 1),
            None => None,
        }
    }
}

/// Every reserved resource has a consumption.
pub open spec fn covers(reservations: Seq<QuotaAmount>, current: Seq<QuotaConsumption>) -> bool {
    forall|r: QuotaResource| #[trigger] spec_amount_for(reservations, r).is_some() ==> consumption_index(current, r).is_some()
}

/// One report taken in: refused for a resource already reported in the same call, one not
/// reserved, a total below the last one or above the reservation.
pub open spec fn spec_apply_one(
    reservations: Seq<QuotaAmount>,
    next: Seq<QuotaConsumption>,
    prior: Seq<QuotaConsumption>,
    up: QuotaConsumption,
) -> Result<Seq<QuotaConsumption>, UpdateError> {
    if exists|i: int| 0 <= i < prior.len() && (#[trigger] prior[i]).resource == up.resource {
        Err(UpdateError::Duplicate(up.resource))
    } else {
        match spec_amount_for(reservations, up.resource) {
            None => Err(UpdateError::NotReserved(up.resource)),
            Some(reserved) => match consumption_index(next, up.resource) {
                None => Ok(next),
                Some(j) => if up.consumed_total < next[j].consumed_total {
                    Err(UpdateError::Decrease(next[j].consumed_total, up.consumed_total))
                } else if up.consumed_total > reserved {
                    Err(UpdateError::Exceeds(up.consumed_total, reserved))
                } else {
                    Ok(next.update(j, up))
                },
            },
        }
    }
}

/// The consumptions after a call's reports are taken in, in order.
pub open spec fn spec_apply(
    reservations: Seq<QuotaAmount>,
    current: Seq<QuotaConsumption>,
    updates: Seq<QuotaConsumption>,
) -> Result<Seq<QuotaConsumption>, UpdateError>
    decreases updates.len(),
{
    if updates.len() == 0 {
        Ok(current)
    } else {
        match spec_apply(reservations, current, updates.drop_last()) {
            Err(e) => Err(e),
            Ok(next) => spec_apply_one(reservations, next, updates.drop_last(), updates.last()),
        }
    }
}

proof fn lemma_apply_err(
    reservations: Seq<QuotaAmount>,
    current: Seq<QuotaConsumption>,
    updates: Seq<QuotaConsumption>,
    n: int,
    e: UpdateError,
)
    requires
        0 <= n <= updates.len(),
        spec_apply(reservations, current, updates.subrange(0, n)) == Err::<Seq<QuotaConsumption>, UpdateError>(e),
    ensures
        spec_apply(reservations, current, updates) == Err::<Seq<QuotaConsumption>, UpdateError>(e),
    decreases updates.len() - n,
{
    if n == updates.len() {
        assert(updates.subrange(0, n) =~= updates);
    } else {
        let pre = updates.subrange(0, n + 1);
        assert(pre.drop_last() =~= updates.subrange(0, n));
        lemma_apply_err(reservations, current, updates, n + 1, e);
    }
}

/// What a finished lease or a call's reports come to.
pub open spec fn spec_apply_updates(
    reservations: Seq<QuotaAmount>,
    current: Seq<QuotaConsumption>,
    updates: Seq<QuotaConsumption>,
    finished: bool,
) -> Result<Seq<QuotaConsumption>, UpdateError> {
    if finished {
        Err(UpdateError::Finished)
    } else {
        spec_apply(reservations, current, updates)
    }
}

/// Two lists that name the same resource at each position find each resource at the same
/// position.
proof fn lemma_index_same_resources(a: Seq<QuotaConsumption>, b: Seq<QuotaConsumption>, r: QuotaResource)
    requires
        a.len() == b.len(),
        forall|i: int| 0 <= i < a.len() ==> (#[trigger] a[i]).resource == b[i].resource,
    ensures
        consumption_index(a, r) == consumption_index(b, r),
    decreases a.len(),
{
    if a.len() > 0 {
        assert(a[0].resource == b[0].resource);
        assert forall|i: int| 0 <= i < a.drop_first().len() implies (#[trigger] a.drop_first()[i]).resource == b.drop_first()[i].resource by {
            assert(a.drop_first()[i] == a[i + 1]);
            assert(b.drop_first()[i] == b[i + 1]);
        }
        lemma_index_same_resources(a.drop_first(), b.drop_first(), r);
    }
}

/// What an accepted report `k` of `updates` came to: no earlier report of its resource, a
/// reserved resource, and, where the resource has a consumption, that consumption now the
/// report, within the reservation.
pub open spec fn report_taken(
    reservations: Seq<QuotaAmount>,
    current: Seq<QuotaConsumption>,
    updates: Seq<QuotaConsumption>,
    next: Seq<QuotaConsumption>,
    k: int,
) -> bool {
    &&& forall|i: int| 0 <= i < k ==> (#[trigger] updates[i]).resource != updates[k].resource
    &&& spec_amount_for(reservations, updates[k].resource) is Some
    &&& consumption_index(current, updates[k].resource) matches Some(j) ==> next[j] == updates[k]
        && updates[k].consumed_total <= spec_amount_for(reservations, updates[k].resource)->0
}

proof fn lemma_apply_ok(
    reservations: Seq<QuotaAmount>,
    current: Seq<QuotaConsumption>,
    updates: Seq<QuotaConsumption>,
    next: Seq<QuotaConsumption>,
)
    requires
        spec_apply(reservations, current, updates) == Ok::<Seq<QuotaConsumption>, UpdateError>(next),
    ensures
        next.len() == current.len(),
        forall|i: int| 0 <= i < current.len() ==> (#[trigger] next[i]).resource == current[i].resource
            && next[i].consumed_total >= current[i].consumed_total,
        forall|k: int| 0 <= k < updates.len() ==> #[trigger] report_taken(reservations, current, updates, next, k),
    decreases updates.len(),
{
    if updates.len() > 0 {
        let p = updates.drop_last();
        let up = updates.last();
        let n = updates.len() - 1;
        let g = spec_apply(reservations, current, p)->Ok_0;
        assert(spec_apply(reservations, current, p) is Ok);
        lemma_apply_ok(reservations, current, p, g);
        let r = up.resource;
        assert(!(exists|i: int| 0 <= i < p.len() && (#[trigger] p[i]).resource == r));
        let reserved = spec_amount_for(reservations, r)->0;
        assert(spec_amount_for(reservations, r) is Some);
        lemma_index_same_resources(g, current, r);
        lemma_consumption_index(g, r);
        assert forall|i: int| 0 <= i < current.len() implies (#[trigger] next[i]).resource == current[i].resource
            && next[i].consumed_total >= current[i].consumed_total by {
            assert(g[i].resource == current[i].resource);
        }
        assert forall|k: int| 0 <= k < updates.len() implies #[trigger] report_taken(reservations, current, updates, next, k) by {
            if k < n {
                assert(report_taken(reservations, current, p, g, k));
                assert(p[k] == updates[k]);
                assert forall|i: int| 0 <= i < k implies (#[trigger] updates[i]).resource != updates[k].resource by {
                    assert(p[i] == updates[i]);
                }
                let rk = updates[k].resource;
                if consumption_index(current, rk) is Some {
                    let jk = consumption_index(current, rk)->0;
                    if consumption_index(g, r) is Some {
                        let j = consumption_index(g, r)->0;
                        lemma_index_same_resources(g, current, rk);
                        lemma_consumption_index(g, rk);
                        if jk == j {
                            assert(p[k].resource == r);
                            assert(false);
                        }
                    }
                }
            } else {
                assert(updates[k] == up);
                assert forall|i: int| 0 <= i < k implies (#[trigger] updates[i]).resource != updates[k].resource by {
                    assert(p[i] == updates[i]);
                }
            }
        }
    }
}

proof fn lemma_apply_again(
    reservations: Seq<QuotaAmount>,
    current: Seq<QuotaConsumption>,
    updates: Seq<QuotaConsumption>,
    next: Seq<QuotaConsumption>,
    n: int,
)
    requires
        spec_apply(reservations, current, updates) == Ok::<Seq<QuotaConsumption>, UpdateError>(next),
        0 <= n <= updates.len(),
    ensures
        spec_apply(reservations, next, updates.subrange(0, n)) == Ok::<Seq<QuotaConsumption>, UpdateError>(next),
    decreases n,
{
    if n == 0 {
        assert(updates.subrange(0, 0).len() == 0);
    } else {
        lemma_apply_again(reservations, current, updates, next, n - 1);
        lemma_apply_ok(reservations, current, updates, next);
        let pre = updates.subrange(0, n);
        let prior = updates.subrange(0, n - 1);
        assert(pre.drop_last() =~= prior);
        let up = updates[n - 1];
        assert(pre.last() == up);
        assert(report_taken(reservations, current, updates, next, n - 1));
        let r = up.resource;
        assert(!(exists|i: int| 0 <= i < prior.len() && (#[trigger] prior[i]).resource == r)) by {
            assert forall|i: int| 0 <= i < prior.len() implies (#[trigger] prior[i]).resource != r by {
                assert(prior[i] == updates[i]);
            }
        }
        lemma_index_same_resources(next, current, r);
        lemma_consumption_index(next, r);
        if consumption_index(next, r) is Some {
            let j = consumption_index(next, r)->0;
            assert(next.update(j, up) =~= next);
        }
    }
}

/// Taking the same cumulative totals in again changes nothing; and taking reports in keeps
/// every resource at its place and never lowers a total.
pub proof fn law_reapplying_totals_changes_nothing(
    reservations: Seq<QuotaAmount>,
    current: Seq<QuotaConsumption>,
    updates: Seq<QuotaConsumption>,
    next: Seq<QuotaConsumption>,
)
    requires
        spec_apply_updates(reservations, current, updates, false) == Ok::<Seq<QuotaConsumption>, UpdateError>(next),
    ensures
        spec_apply_updates(reservations, next, updates, false) == Ok::<Seq<QuotaConsumption>, UpdateError>(next),
        next.len() == current.len(),
        forall|i: int| 0 <= i < current.len() ==> (#[trigger] next[i]).resource == current[i].resource
            && next[i].consumed_total >= current[i].consumed_total,
        forall|r: QuotaResource| #[trigger] consumption_index(next, r) == consumption_index(current, r),
{
    lemma_apply_ok(reservations, current, updates, next);
    lemma_apply_again(reservations, current, updates, next, updates.len() as int);
    assert(updates.subrange(0, updates.len() as int) =~= updates);
    assert forall|r: QuotaResource| #[trigger] consumption_index(next, r) == consumption_index(current, r) by {
        lemma_index_same_resources(next, current, r);
    }
}

fn find_consumption(s: &Vec<QuotaConsumption>, r: QuotaResource) -> (i: Option<usize>)
    ensures
        match i {
            Some(j) => consumption_index(s@, r) == Some(j as int) && j < s@.len(),
            None => consumption_index(s@, r).is_none(),
        },
{
    let mut k: usize = 0;
    assert(s@.subrange(0, s@.len() as int) =~= s@);
    while k < s.len()
        invariant
            k <= s@.len(),
            consumption_index(s@, r) == match consumption_index(s@.subrange(k as int, s@.len() as int), r) {
                Some(t) => Some(t + k),
                None => None,
            },
        decreases s@.len() - k,
    {
        let ghost rest = s@.subrange(k as int, s@.len() as int);
        assert(rest.drop_first() =~= s@.subrange(k + 1, s@.len() as int));
        if s[k].resource == r {
            return Some(k);
        }
        k = k + 1;
    }
    None
}

proof fn lemma_consumption_index(s: Seq<QuotaConsumption>, r: QuotaResource)
    ensures
        consumption_index(s, r) matches Some(j) ==> 0 <= j < s.len() && s[j].resource == r,
    decreases s.len(),
{
    if s.len() > 0 && s[0].resource != r {
        lemma_consumption_index(s.drop_first(), r);
    }
}

proof fn lemma_consumption_index_update(s: Seq<QuotaConsumption>, j: int, x: QuotaConsumption, r: QuotaResource)
    requires
        0 <= j < s.len(),
        s[j].resource == x.resource,
    ensures
        consumption_index(s.update(j, x), r) == consumption_index(s, r),
    decreases s.len(),
{
    if j > 0 && s[0].resource != r {
        assert(s.update(j, x).drop_first() =~= s.drop_first().update(j - 1, x));
        lemma_consumption_index_update(s.drop_first(), j - 1, x, r);
    } else if j == 0 {
        assert(s.update(j, x).drop_first() =~= s.drop_first());
    }
}

fn amount_of(reservations: &Vec<QuotaAmount>, r: QuotaResource) -> (a: Option<u32>)
    ensures
        a == spec_amount_for(reservations@, r),
{
    let mut i: usize = 0;
    assert(reservations@.subrange(0, reservations@.len() as int) =~= reservations@);
    while i < reservations.len()
        invariant
            i <= reservations@.len(),
            spec_amount_for(reservations@, r) == spec_amount_for(reservations@.subrange(i as int, reservations@.len() as int), r),
        decreases reservations@.len() - i,
    {
        let ghost rest = reservations@.subrange(i as int, reservations@.len() as int);
        assert(rest.drop_first() =~= reservations@.subrange(i + 1, reservations@.len() as int));
        if reservations[i].resource == r {
            return Some(reservations[i].amount);
        }
        i = i + 1;
    }
    None
}

fn decimal(n: u32) -> (s: String)
    ensures
        s@ == spec_decimal(n as nat),
{
    string_from_chars(u64_to_decimal(n as u64).as_slice())
}

/// The error a refused report is answered with.
pub fn update_error(e: UpdateError) -> (r: PoleError)
    ensures
        r.code == update_error_code(e),
        r.message@ == update_error_message(e),
{
    match e {
        UpdateError::Finished => PoleError::new(ErrorCode::InvalidState, String::from_str("quota lease is already finished")),
        UpdateError::Duplicate(res) => {
            let mut m = String::from_str("duplicate quota consumption for ");
            m.append(resource_name_string(res).as_str());
            PoleError::new(ErrorCode::ApiInvalidArgument, m)
        },
        UpdateError::NotReserved(res) => {
            let mut m = String::from_str("quota resource ");
            m.append(resource_name_string(res).as_str());
            m.append(" was not reserved");
            PoleError::new(ErrorCode::ApiInvalidArgument, m)
        },
        UpdateError::Decrease(from, to) => {
            let mut m = String::from_str("quota consumed total cannot decrease from ");
            m.append(decimal(from).as_str());
            m.append(" to ");
            m.append(decimal(to).as_str());
            PoleError::new(ErrorCode::ApiInvalidArgument, m)
        },
        UpdateError::Exceeds(total, reserved) => {
            let mut m = String::from_str("quota consumed total ");
            m.append(decimal(total).as_str());
            m.append(" exceeds reservation ");
            m.append(decimal(reserved).as_str());
            PoleError::new(ErrorCode::ApiInvalidArgument, m)
        },
    }
}

/// Takes a call's cumulative reports in; refuses them all when the lease is finished or any
/// report is refused.
pub fn apply_consumption_updates(
    reservations: &Vec<QuotaAmount>,
    current: &Vec<QuotaConsumption>,
    updates: &Vec<QuotaConsumption>,
    finished: bool,
) -> (r: Result<Vec<QuotaConsumption>, PoleError>)
    requires
        covers(reservations@, current@),
    ensures
        match spec_apply_updates(reservations@, current@, updates@, finished) {
            Ok(next) => r matches Ok(v) && v@ == next,
            Err(e) => r matches Err(err) && err.code == update_error_code(e) && err.message@ == update_error_message(e),
        },
        r matches Ok(v) ==> covers(reservations@, v@),
{
    if finished {
        return Err(update_error(UpdateError::Finished));
    }
    let mut next: Vec<QuotaConsumption> = Vec::new();
    let mut c: usize = 0;
    while c < current.len()
        invariant
            c <= current@.len(),
            next@ == current@.subrange(0, c as int),
        decreases current@.len() - c,
    {
        next.push(current[c]);
        c = c + 1;
        assert(next@ =~= current@.subrange(0, c as int));
    }
    assert(current@.subrange(0, current@.len() as int) =~= current@);
    let mut k: usize = 0;
    assert(updates@.subrange(0, 0) =~= Seq::<QuotaConsumption>::empty());
    while k < updates.len()
        invariant
            k <= updates@.len(),
            spec_apply(reservations@, current@, updates@.subrange(0, k as int)) == Ok::<Seq<QuotaConsumption>, UpdateError>(next@),
            covers(reservations@, next@),
            !finished,
        decreases updates@.len() - k,
    {
        let up = updates[k];
        let ghost pre = updates@.subrange(0, k + 1);
        assert(pre.drop_last() =~= updates@.subrange(0, k as int));
        assert(pre.last() == up);
        let mut dup = false;
        let mut i: usize = 0;
        while i < k
            invariant
                i <= k < updates@.len(),
                up == updates@[k as int],
                dup <==> exists|j: int| 0 <= j < i && (#[trigger] updates@[j]).resource == up.resource,
            decreases k - i,
        {
            if updates[i].resource == up.resource {
                dup = true;
            }
            i = i + 1;
        }
        let ghost prior = updates@.subrange(0, k as int);
        assert(dup <==> exists|j: int| 0 <= j < prior.len() && (#[trigger] prior[j]).resource == up.resource) by {
            if dup {
                let j = choose|j: int| 0 <= j < k && (#[trigger] updates@[j]).resource == up.resource;
                assert(prior[j] == updates@[j]);
            }
            if exists|j: int| 0 <= j < prior.len() && (#[trigger] prior[j]).resource == up.resource {
                let j = choose|j: int| 0 <= j < prior.len() && (#[trigger] prior[j]).resource == up.resource;
                assert(prior[j] == updates@[j]);
            }
        }
        if dup {
            proof {
                lemma_apply_err(reservations@, current@, updates@, k + 1, UpdateError::Duplicate(up.resource));
            }
            return Err(update_error(UpdateError::Duplicate(up.resource)));
        }
        let reserved = match amount_of(reservations, up.resource) {
            Some(a) => a,
            None => {
                proof {
                    lemma_apply_err(reservations@, current@, updates@, k + 1, UpdateError::NotReserved(up.resource));
                }
                return Err(update_error(UpdateError::NotReserved(up.resource)));
            },
        };
        let j = match find_consumption(&next, up.resource) {
            Some(j) => j,
            None => {
                assert(false);
                return Err(update_error(UpdateError::NotReserved(up.resource)));
            },
        };
        proof {
            lemma_consumption_index(next@, up.resource);
        }
        let cur = next[j];
        if up.consumed_total < cur.consumed_total {
            proof {
                lemma_apply_err(reservations@, current@, updates@, k + 1, UpdateError::Decrease(cur.consumed_total, up.consumed_total));
            }
            return Err(update_error(UpdateError::Decrease(cur.consumed_total, up.consumed_total)));
        }
        if up.consumed_total > reserved {
            proof {
                lemma_apply_err(reservations@, current@, updates@, k + 1, UpdateError::Exceeds(up.consumed_total, reserved));
            }
            return Err(update_error(UpdateError::Exceeds(up.consumed_total, reserved)));
        }
        let ghost before = next@;
        next.set(j, up);
        assert forall|r: QuotaResource| #[trigger] spec_amount_for(reservations@, r).is_some() implies consumption_index(next@, r).is_some() by {
            lemma_consumption_index_update(before, j as int, up, r);
        }
        k = k + 1;
    }
    assert(updates@.subrange(0, updates@.len() as int) =~= updates@);
    Ok(next)
}

/// The number after a lease's last operation; refused when the numbers run out.
pub fn next_sequence(sequence: u64) -> (r: Result<u64, PoleError>)
    ensures
        sequence < u64::MAX ==> r == Ok::<u64, PoleError>((sequence + 1) as u64),
        sequence == u64::MAX ==> (r matches Err(e) && e.code == ErrorCode::InvalidState
            && e.message@ == "quota lease sequence is exhausted"@),
{
    match sequence.checked_add(1) {
        Some(s) => Ok(s),
        None => Err(PoleError::new(ErrorCode::InvalidState, String::from_str("quota lease sequence is exhausted"))),
    }
}

fn same_consumptions(a: &Vec<QuotaConsumption>, b: &Vec<QuotaConsumption>) -> (r: bool)
    ensures
        r == (a@ == b@),
{
    if a.len() != b.len() {
        return false;
    }
    let mut i: usize = 0;
    while i < a.len()
        invariant
            i <= a@.len(),
            a@.len() == b@.len(),
            forall|k: int| 0 <= k < i ==> a@[k] == b@[k],
        decreases a@.len() - i,
    {
        if a[i].resource != b[i].resource || a[i].consumed_total != b[i].consumed_total {
            return false;
        }
        i = i + 1;
    }
    assert(a@ =~= b@);
    true
}

/// A successful reservation: the amounts reserved and the consumption confirmed last, with
/// the number of the last operation.
pub struct QuotaLease {
    reservations: Vec<QuotaAmount>,
    consumptions: Vec<QuotaConsumption>,
    sequence: u64,
    finished: bool,
}

/// A lease as values.
pub struct LeaseView {
    pub reservations: Seq<QuotaAmount>,
    pub consumptions: Seq<QuotaConsumption>,
    pub sequence: u64,
    pub finished: bool,
}

impl View for QuotaLease {
    type V = LeaseView;

    closed spec fn view(&self) -> LeaseView {
        LeaseView {
            reservations: self.reservations@,
            consumptions: self.consumptions@,
            sequence: self.sequence,
            finished: self.finished,
        }
    }
}

/// The operation a lease asks its backend for.
pub struct LeaseOperation {
    pub consumptions: Vec<QuotaConsumption>,
    pub sequence: u64,
}

impl QuotaLease {
    /// The lease is consistent: every reserved resource has a consumption.
    pub closed spec fn wf(&self) -> bool {
        covers(self.reservations@, self.consumptions@)
    }

    pub fn new(reservations: Vec<QuotaAmount>, consumptions: Vec<QuotaConsumption>) -> (r: QuotaLease)
        requires
            covers(reservations@, consumptions@),
        ensures
            r.wf(),
            r@.reservations == reservations@,
            r@.consumptions == consumptions@,
            r@.sequence == 0,
            !r@.finished,
    {
        QuotaLease { reservations, consumptions, sequence: 0, finished: false }
    }

    /// The reports of an update, as the backend is to carry them: `None` when nothing
    /// changes.
    pub fn plan_update(&self, updates: &Vec<QuotaConsumption>) -> (r: Result<Option<LeaseOperation>, PoleError>)
        requires
            self.wf(),
        ensures
            match spec_apply_updates(self@.reservations, self@.consumptions, updates@, self@.finished) {
                Err(e) => r matches Err(err) && err.code == update_error_code(e) && err.message@ == update_error_message(e),
                Ok(next) => if next == self@.consumptions {
                    r matches Ok(None)
                } else if self@.sequence == u64::MAX {
                    r matches Err(e) && e.code == ErrorCode::InvalidState
                        && e.message@ == "quota lease sequence is exhausted"@
                } else {
                    r matches Ok(Some(op)) && op.consumptions@ == next && op.sequence == self@.sequence + 1
                },
            },
            r matches Ok(Some(op)) ==> covers(self@.reservations, op.consumptions@),
    {
        let next = apply_consumption_updates(&self.reservations, &self.consumptions, updates, self.finished)?;
        if same_consumptions(&next, &self.consumptions) {
            return Ok(None);
        }
        let sequence = next_sequence(self.sequence)?;
        Ok(Some(LeaseOperation { consumptions: next, sequence }))
    }

    /// Takes in an update the backend confirmed.
    pub fn commit_update(&mut self, op: LeaseOperation)
        requires
            old(self).wf(),
            covers(old(self)@.reservations, op.consumptions@),
        ensures
            final(self).wf(),
            final(self)@.reservations == old(self)@.reservations,
            final(self)@.consumptions == op.consumptions@,
            final(self)@.sequence == op.sequence,
            final(self)@.finished == old(self)@.finished,
    {
        self.consumptions = op.consumptions;
        self.sequence = op.sequence;
    }

    /// The settlement a finish asks for: `None` when the lease is finished already with the
    /// same totals.
    pub fn plan_finish(&self, updates: &Vec<QuotaConsumption>) -> (r: Result<Option<LeaseOperation>, PoleError>)
        requires
            self.wf(),
        ensures
            match spec_apply_updates(self@.reservations, self@.consumptions, updates@, false) {
                Err(e) => r matches Err(err) && err.code == update_error_code(e) && err.message@ == update_error_message(e),
                Ok(next) => if self@.finished {
                    if next == self@.consumptions {
                        r matches Ok(None)
                    } else {
                        r matches Err(e) && e.code == ErrorCode::InvalidState
                            && e.message@ == "quota lease is already finished"@
                    }
                } else if self@.sequence == u64::MAX {
                    r matches Err(e) && e.code == ErrorCode::InvalidState
                        && e.message@ == "quota lease sequence is exhausted"@
                } else {
                    r matches Ok(Some(op)) && op.consumptions@ == next && op.sequence == self@.sequence + 1
                },
            },
            r matches Ok(Some(op)) ==> covers(self@.reservations, op.consumptions@),
    {
        let next = apply_consumption_updates(&self.reservations, &self.consumptions, updates, false)?;
        if self.finished {
            if same_consumptions(&next, &self.consumptions) {
                return Ok(None);
            }
            return Err(PoleError::new(ErrorCode::InvalidState, String::from_str("quota lease is already finished")));
        }
        let sequence = next_sequence(self.sequence)?;
        Ok(Some(LeaseOperation { consumptions: next, sequence }))
    }

    /// Takes in a settlement the backend confirmed.
    pub fn commit_finish(&mut self, op: LeaseOperation)
        requires
            old(self).wf(),
            covers(old(self)@.reservations, op.consumptions@),
        ensures
            final(self).wf(),
            final(self)@.reservations == old(self)@.reservations,
            final(self)@.consumptions == op.consumptions@,
            final(self)@.sequence == op.sequence,
            final(self)@.finished,
    {
        self.consumptions = op.consumptions;
        self.sequence = op.sequence;
        self.finished = true;
    }

    /// What a lease dropped before it finished asks the backend to settle: its last
    /// confirmed totals under the next number.
    pub fn plan_abandon(&self) -> (r: Option<LeaseOperation>)
        ensures
            match r {
                Some(op) => !self@.finished && self@.sequence < u64::MAX
                    && op.consumptions@ == self@.consumptions && op.sequence == self@.sequence + 1,
                None => self@.finished || self@.sequence == u64::MAX,
            },
    {
        if self.finished {
            return None;
        }
        match next_sequence(self.sequence) {
            Ok(sequence) => {
                let mut c: Vec<QuotaConsumption> = Vec::new();
                let mut i: usize = 0;
                while i < self.consumptions.len()
                    invariant
                        i <= self.consumptions@.len(),
                        c@ == self.consumptions@.subrange(0, i as int),
                    decreases self.consumptions@.len() - i,
                {
                    c.push(self.consumptions[i]);
                    i = i + 1;
                    assert(c@ =~= self.consumptions@.subrange(0, i as int));
                }
                assert(self.consumptions@.subrange(0, self.consumptions@.len() as int) =~= self.consumptions@);
                Some(LeaseOperation { consumptions: c, sequence })
            },
            Err(_) => None,
        }
    }

    /// The one resource of a single-resource lease.
    pub fn single_resource(&self) -> (r: Result<QuotaResource, PoleError>)
        ensures
            self@.reservations.len() == 1 ==> r == Ok::<QuotaResource, PoleError>(self@.reservations[0].resource),
            self@.reservations.len() != 1 ==> (r matches Err(e) && e.code == ErrorCode::ApiInvalidArgument),
    {
        if self.reservations.len() == 1 {
            return Ok(self.reservations[0].resource);
        }
        Err(PoleError::new(
            ErrorCode::ApiInvalidArgument,
            String::from_str("multi-resource quota lease requires the per-resource API"),
        ))
    }
}

} // verus!
