//! The quota-server protocol as the client checks it: the consumptions a lease reports per
//! counter, and whether each answer of the servers is the one asked for.

use vstd::prelude::*;
use crate::model::{ErrorCode, PoleError};
use crate::text::{spec_decimal, string_from_chars, u64_to_decimal};
use crate::traffic::ratelimit::api::QuotaConsumption;
use crate::traffic::ratelimit::req::{QuotaResource, resource_name, resource_name_string};
use vstd::string::StringExecFns;
use crate::model::Instance;
use crate::specification::{Amount, AmountMode, LimitResource, LimitTrigger, RateLimit};
use crate::traffic::ratelimit::default::{spec_quota_resource, quota_resource, spec_remote_quota_labels, remote_quota_labels};
use crate::traffic::ratelimit::req::QuotaRequest;
use crate::text::{chars_of, lower_chars, lower_seq, str_equal};
use crate::textsort::{sort_by_text, stable_sort_by_text, key_of, lemma_sort_map};
use crate::keyed::{key_lookup, key_store, keyed_view, find_key, store_key, map_entries, lemma_map_entries};
use crate::traffic::ratelimit::default::{spec_sha256, sha256_of_text};

verus! {

/// The code of a successful answer of the quota servers.
pub const RATE_LIMIT_SUCCESS_CODE: u32 = 200000;

/// How a counter is charged: consumed quota, or occupancy given back at settlement.
#[derive(Clone, Copy, Debug, PartialEq, Eq, Structural)]
pub enum QuotaAccounting {
    Consumable,
    Occupancy,
}

/// The counters a lease holds for one resource, with the amount reserved on each.
pub struct LeaseCounterGroup {
    pub resource: QuotaResource,
    pub amount: u32,
    pub accounting: QuotaAccounting,
    pub counter_keys: Vec<u32>,
}

/// A counter's cumulative consumption, as reported to the servers.
#[derive(Clone, Copy, Debug, PartialEq, Eq, Structural)]
pub struct RemoteQuotaConsumption {
    pub counter_key: u32,
    pub consumed_total: u32,
}

/// The first consumption reported for a resource.
pub open spec fn consumption_of(cons: Seq<QuotaConsumption>, r: QuotaResource) -> Option<u32>
    decreases cons.len(),
{
    if cons.len() == 0 {
        None
    } else if cons[0].resource == r {
        Some(cons[0].consumed_total)
    } else {
        consumption_of(cons.drop_first(), r)
    }
}

/// A group's counters, each with the given total.
pub open spec fn group_consumptions(keys: Seq<u32>, total: u32) -> Seq<RemoteQuotaConsumption> {
    keys.map_values(|k: u32| RemoteQuotaConsumption { counter_key: k, consumed_total: total })
}

/// The counters' consumptions, group after group, each counter with its resource's total;
/// refused at the first group whose resource has no consumption.
pub open spec fn spec_expand(groups: Seq<LeaseCounterGroup>, cons: Seq<QuotaConsumption>) -> Result<Seq<RemoteQuotaConsumption>, QuotaResource>
    decreases groups.len(),
{
    if groups.len() == 0 {
        Ok(Seq::empty())
    } else {
        match spec_expand(groups.drop_last(), cons) {
            Err(r) => Err(r),
            Ok(prev) => match consumption_of(cons, groups.last().resource) {
                None => Err(groups.last().resource),
                Some(t) => Ok(prev + group_consumptions(groups.last().counter_keys@, t)),
            },
        }
    }
}

fn consumption_total(cons: &Vec<QuotaConsumption>, r: QuotaResource) -> (t: Option<u32>)
    ensures
        t == consumption_of(cons@, r),
{
    let mut i: usize = 0;
    assert(cons@.subrange(0, cons@.len() as int) =~= cons@);
    while i < cons.len()
        invariant
            i <= cons@.len(),
            consumption_of(cons@, r) == consumption_of(cons@.subrange(i as int, cons@.len() as int), r),
        decreases cons@.len() - i,
    {
        let ghost rest = cons@.subrange(i as int, cons@.len() as int);
        assert(rest.drop_first() =~= cons@.subrange(i + 1, cons@.len() as int));
        assert(rest[0] == cons@[i as int]);
        if cons[i].resource == r {
            return Some(cons[i].consumed_total);
        }
        i = i + 1;
    }
    None
}

proof fn lemma_expand_err(groups: Seq<LeaseCounterGroup>, cons: Seq<QuotaConsumption>, n: int)
    requires
        0 <= n <= groups.len(),
        spec_expand(groups.subrange(0, n), cons) is Err,
    ensures
        spec_expand(groups, cons) == spec_expand(groups.subrange(0, n), cons),
    decreases groups.len() - n,
{
    if n == groups.len() {
        assert(groups.subrange(0, n) =~= groups);
    } else {
        assert(groups.subrange(0, n + 1).drop_last() =~= groups.subrange(0, n));
        lemma_expand_err(groups, cons, n + 1);
    }
}

/// The consumptions a lease reports to the servers.
pub fn expand_consumptions(groups: &Vec<LeaseCounterGroup>, consumptions: &Vec<QuotaConsumption>) -> (r: Result<Vec<RemoteQuotaConsumption>, PoleError>)
    ensures
        match spec_expand(groups@, consumptions@) {
            Ok(v) => r matches Ok(x) && x@ == v,
            Err(res) => r matches Err(e) && e.code == ErrorCode::ApiInvalidArgument
                && e.message@ == "quota consumption for "@ + resource_name(res) + " is missing"@,
        },
{
    let mut out: Vec<RemoteQuotaConsumption> = Vec::new();
    let mut g: usize = 0;
    assert(groups@.subrange(0, 0) =~= Seq::<LeaseCounterGroup>::empty());
    while g < groups.len()
        invariant
            g <= groups@.len(),
            spec_expand(groups@.subrange(0, g as int), consumptions@) == Ok::<Seq<RemoteQuotaConsumption>, QuotaResource>(out@),
        decreases groups@.len() - g,
    {
        let ghost pre = groups@.subrange(0, g + 1);
        assert(pre.drop_last() =~= groups@.subrange(0, g as int));
        let group = &groups[g];
        assert(pre.last() == *group);
        match consumption_total(consumptions, group.resource) {
            None => {
                proof {
                    lemma_expand_err(groups@, consumptions@, g + 1);
                }
                let mut m = String::from_str("quota consumption for ");
                m.append(resource_name_string(group.resource).as_str());
                m.append(" is missing");
                return Err(PoleError::new(ErrorCode::ApiInvalidArgument, m));
            },
            Some(total) => {
                let ghost start = out@;
                let mut k: usize = 0;
                while k < group.counter_keys.len()
                    invariant
                        k <= group.counter_keys@.len(),
                        out@ == start + group_consumptions(group.counter_keys@.subrange(0, k as int), total),
                    decreases group.counter_keys@.len() - k,
                {
                    out.push(RemoteQuotaConsumption { counter_key: group.counter_keys[k], consumed_total: total });
                    k = k + 1;
                    assert(out@ =~= start + group_consumptions(group.counter_keys@.subrange(0, k as int), total));
                }
                assert(group.counter_keys@.subrange(0, group.counter_keys@.len() as int) =~= group.counter_keys@);
            },
        }
        g = g + 1;
    }
    assert(groups@.subrange(0, groups@.len() as int) =~= groups@);
    Ok(out)
}

/// What the servers report for one counter at settlement.
#[derive(Clone, Copy, Debug, PartialEq, Eq, Structural)]
pub struct QuotaSettlement {
    pub counter_key: u32,
    pub consumed_total: u32,
    pub returned_amount: u32,
}

/// The servers' answer to a settlement.
pub struct QuotaSettleResponse {
    pub code: u32,
    pub settlements: Vec<QuotaSettlement>,
}

/// The smallest total reported for a counter.
pub open spec fn min_total(cons: Seq<RemoteQuotaConsumption>, key: u32) -> Option<u32>
    decreases cons.len(),
{
    if cons.len() == 0 {
        None
    } else {
        let rest = min_total(cons.drop_last(), key);
        let c = cons.last();
        if c.counter_key != key {
            rest
        } else {
            match rest {
                Some(t) => Some(if c.consumed_total < t { c.consumed_total } else { t }),
                None => Some(c.consumed_total),
            }
        }
    }
}

/// The total the lease reported for a counter (the smallest, when reported more than
/// once); the largest value when not reported.
pub open spec fn requested_total(cons: Seq<RemoteQuotaConsumption>, key: u32) -> u32 {
    match min_total(cons, key) {
        Some(t) => t,
        None => u32::MAX,
    }
}

/// The last settlement reported for a counter.
pub open spec fn settlement_of(s: Seq<QuotaSettlement>, key: u32) -> Option<(u32, u32)>
    decreases s.len(),
{
    if s.len() == 0 {
        None
    } else if s.last().counter_key == key {
        Some((s.last().consumed_total, s.last().returned_amount))
    } else {
        settlement_of(s.drop_last(), key)
    }
}

/// The counters a settlement reports, each once, in order of first report.
pub open spec fn distinct_keys(s: Seq<QuotaSettlement>) -> Seq<u32>
    decreases s.len(),
{
    if s.len() == 0 {
        Seq::empty()
    } else {
        let p = distinct_keys(s.drop_last());
        if p.contains(s.last().counter_key) { p } else { p.push(s.last().counter_key) }
    }
}

/// What a counter gives back at settlement: the unused part of a consumable reservation,
/// the whole of an occupancy.
pub open spec fn expected_returned(g: LeaseCounterGroup, total: u32) -> u32 {
    match g.accounting {
        QuotaAccounting::Consumable => if g.amount < total { 0 } else { (g.amount - total) as u32 },
        QuotaAccounting::Occupancy => g.amount,
    }
}

/// Whether every counter of a group is settled with the lease's total and what it gives back.
pub open spec fn group_settled(g: LeaseCounterGroup, cons: Seq<RemoteQuotaConsumption>, s: Seq<QuotaSettlement>) -> bool {
    forall|k: int| 0 <= k < g.counter_keys@.len() ==> settlement_of(s, #[trigger] g.counter_keys@[k])
        == Some((requested_total(cons, g.counter_keys@[k]), expected_returned(g, requested_total(cons, g.counter_keys@[k]))))
}

/// The number of counters of the groups.
pub open spec fn counter_count(groups: Seq<LeaseCounterGroup>) -> int
    decreases groups.len(),
{
    if groups.len() == 0 { 0 } else { counter_count(groups.drop_last()) + groups.last().counter_keys@.len() }
}

/// Whether a settlement answer is the one asked for: every counter of the lease settled as
/// expected, and no other counter.
pub open spec fn spec_settle_valid(groups: Seq<LeaseCounterGroup>, cons: Seq<RemoteQuotaConsumption>, s: Seq<QuotaSettlement>) -> bool {
    &&& forall|i: int| 0 <= i < groups.len() ==> group_settled(#[trigger] groups[i], cons, s)
    &&& distinct_keys(s).len() == counter_count(groups)
}

/// The outcome of a settlement answer.
pub open spec fn spec_check_settle(groups: Seq<LeaseCounterGroup>, cons: Seq<RemoteQuotaConsumption>, resp: Option<QuotaSettleResponse>) -> Result<(), (ErrorCode, Seq<char>)> {
    match resp {
        None => Err((ErrorCode::InvalidResponse, "quota settle response is missing"@)),
        Some(r) => if r.code != RATE_LIMIT_SUCCESS_CODE {
            Err((ErrorCode::ServerError, "quota settle returned code "@ + spec_decimal(r.code as nat)))
        } else if !spec_settle_valid(groups, cons, r.settlements@) {
            Err((ErrorCode::InvalidResponse, "quota settle response does not match the request"@))
        } else {
            Ok(())
        },
    }
}

pub open spec fn unit_result(r: Result<(), PoleError>) -> Result<(), (ErrorCode, Seq<char>)> {
    match r {
        Ok(()) => Ok(()),
        Err(e) => Err((e.code, e.message@)),
    }
}

fn requested_total_exec(cons: &Vec<RemoteQuotaConsumption>, key: u32) -> (t: u32)
    ensures
        t == requested_total(cons@, key),
{
    let mut best: Option<u32> = None;
    let mut i: usize = 0;
    while i < cons.len()
        invariant
            i <= cons@.len(),
            best == min_total(cons@.subrange(0, i as int), key),
        decreases cons@.len() - i,
    {
        let ghost pre = cons@.subrange(0, i + 1);
        assert(pre.drop_last() =~= cons@.subrange(0, i as int));
        let c = cons[i];
        if c.counter_key == key {
            best = match best {
                Some(t) => Some(if c.consumed_total < t { c.consumed_total } else { t }),
                None => Some(c.consumed_total),
            };
        }
        i = i + 1;
    }
    assert(cons@.subrange(0, cons@.len() as int) =~= cons@);
    match best {
        Some(t) => t,
        None => u32::MAX,
    }
}

fn settlement_of_exec(s: &Vec<QuotaSettlement>, key: u32) -> (r: Option<(u32, u32)>)
    ensures
        r == settlement_of(s@, key),
{
    let mut i: usize = s.len();
    assert(s@.subrange(0, s@.len() as int) =~= s@);
    while i > 0
        invariant
            i <= s@.len(),
            settlement_of(s@, key) == settlement_of(s@.subrange(0, i as int), key),
        decreases i,
    {
        let ghost pre = s@.subrange(0, i as int);
        assert(pre.drop_last() =~= s@.subrange(0, i - 1));
        if s[i - 1].counter_key == key {
            return Some((s[i - 1].consumed_total, s[i - 1].returned_amount));
        }
        i = i - 1;
    }
    None
}

fn distinct_key_count(s: &Vec<QuotaSettlement>) -> (n: usize)
    ensures
        n == distinct_keys(s@).len(),
{
    let mut keys: Vec<u32> = Vec::new();
    let mut i: usize = 0;
    while i < s.len()
        invariant
            i <= s@.len(),
            keys@ == distinct_keys(s@.subrange(0, i as int)),
            keys@.len() <= i,
        decreases s@.len() - i,
    {
        let ghost pre = s@.subrange(0, i + 1);
        assert(pre.drop_last() =~= s@.subrange(0, i as int));
        let k = s[i].counter_key;
        let mut j: usize = 0;
        let mut seen = false;
        while j < keys.len()
            invariant
                j <= keys@.len(),
                seen <==> exists|t: int| 0 <= t < j && keys@[t] == k,
            decreases keys@.len() - j,
        {
            if keys[j] == k {
                seen = true;
            }
            j = j + 1;
        }
        assert(seen <==> keys@.contains(k));
        if !seen {
            keys.push(k);
        }
        i = i + 1;
    }
    assert(s@.subrange(0, s@.len() as int) =~= s@);
    keys.len()
}

fn group_settled_exec(g: &LeaseCounterGroup, cons: &Vec<RemoteQuotaConsumption>, s: &Vec<QuotaSettlement>) -> (r: bool)
    ensures
        r == group_settled(*g, cons@, s@),
{
    let mut k: usize = 0;
    while k < g.counter_keys.len()
        invariant
            k <= g.counter_keys@.len(),
            forall|t: int| 0 <= t < k ==> settlement_of(s@, #[trigger] g.counter_keys@[t])
                == Some((requested_total(cons@, g.counter_keys@[t]), expected_returned(*g, requested_total(cons@, g.counter_keys@[t])))),
        decreases g.counter_keys@.len() - k,
    {
        let key = g.counter_keys[k];
        let total = requested_total_exec(cons, key);
        let expected: u32 = match g.accounting {
            QuotaAccounting::Consumable => g.amount.saturating_sub(total),
            QuotaAccounting::Occupancy => g.amount,
        };
        match settlement_of_exec(s, key) {
            Some((c, r)) => {
                if c != total || r != expected {
                    return false;
                }
            },
            None => {
                return false;
            },
        }
        k = k + 1;
    }
    true
}

/// Checks the servers' answer to a settlement.
pub fn check_settle_response(groups: &Vec<LeaseCounterGroup>, consumptions: &Vec<RemoteQuotaConsumption>, response: &Option<QuotaSettleResponse>) -> (r: Result<(), PoleError>)
    ensures
        unit_result(r) == spec_check_settle(groups@, consumptions@, *response),
{
    let resp = match response {
        None => return Err(PoleError::new(ErrorCode::InvalidResponse, String::from_str("quota settle response is missing"))),
        Some(x) => x,
    };
    if resp.code != RATE_LIMIT_SUCCESS_CODE {
        let mut m = String::from_str("quota settle returned code ");
        m.append(string_from_chars(u64_to_decimal(resp.code as u64).as_slice()).as_str());
        return Err(PoleError::new(ErrorCode::ServerError, m));
    }
    let mut all = true;
    let mut total: u64 = 0;
    let mut overflow = false;
    let mut i: usize = 0;
    while i < groups.len()
        invariant
            i <= groups@.len(),
            all == (forall|t: int| 0 <= t < i ==> group_settled(#[trigger] groups@[t], consumptions@, resp.settlements@)),
            !overflow ==> total == counter_count(groups@.subrange(0, i as int)),
            overflow ==> counter_count(groups@.subrange(0, i as int)) > u64::MAX,
        decreases groups@.len() - i,
    {
        let ghost pre = groups@.subrange(0, i + 1);
        assert(pre.drop_last() =~= groups@.subrange(0, i as int));
        if !group_settled_exec(&groups[i], consumptions, &resp.settlements) {
            all = false;
        }
        let n = groups[i].counter_keys.len() as u64;
        if !overflow {
            match total.checked_add(n) {
                Some(t) => total = t,
                None => overflow = true,
            }
        }
        proof {
            lemma_counter_count_monotone(groups@, i as int);
        }
        i = i + 1;
    }
    assert(groups@.subrange(0, groups@.len() as int) =~= groups@);
    let distinct = distinct_key_count(&resp.settlements);
    if !all || overflow || distinct as u64 != total {
        return Err(PoleError::new(ErrorCode::InvalidResponse, String::from_str("quota settle response does not match the request")));
    }
    Ok(())
}

proof fn lemma_counter_count_monotone(groups: Seq<LeaseCounterGroup>, i: int)
    requires
        0 <= i < groups.len(),
    ensures
        counter_count(groups.subrange(0, i + 1)) == counter_count(groups.subrange(0, i)) + groups[i].counter_keys@.len(),
        counter_count(groups.subrange(0, i)) >= 0,
{
    assert(groups.subrange(0, i + 1).drop_last() =~= groups.subrange(0, i));
    lemma_counter_count_nonneg(groups.subrange(0, i));
}

proof fn lemma_counter_count_nonneg(groups: Seq<LeaseCounterGroup>)
    ensures
        counter_count(groups) >= 0,
    decreases groups.len(),
{
    if groups.len() > 0 {
        lemma_counter_count_nonneg(groups.drop_last());
    }
}


/// The servers' answer to the opening of a quota window.
pub struct QuotaInitResponse {
    pub code: u32,
    pub client_key: u32,
    pub counter_keys: Vec<u32>,
}

/// The outcome of an opening answer: the client key and the window's counters.
pub open spec fn spec_check_init(resp: Option<QuotaInitResponse>) -> Result<(u32, Seq<u32>), (ErrorCode, Seq<char>)> {
    match resp {
        None => Err((ErrorCode::InvalidResponse, "rate limit init response is missing"@)),
        Some(r) => if r.code != RATE_LIMIT_SUCCESS_CODE {
            Err((ErrorCode::ServerError, "rate limit init returned code "@ + spec_decimal(r.code as nat)))
        } else if r.counter_keys@.len() == 0 {
            Err((ErrorCode::InvalidResponse, "rate limit init returned no counters"@))
        } else {
            Ok((r.client_key, r.counter_keys@))
        },
    }
}

pub open spec fn init_result(r: Result<(u32, Vec<u32>), PoleError>) -> Result<(u32, Seq<u32>), (ErrorCode, Seq<char>)> {
    match r {
        Ok((k, c)) => Ok((k, c@)),
        Err(e) => Err((e.code, e.message@)),
    }
}

fn code_message(prefix: &str, code: u32) -> (m: String)
    ensures
        m@ == prefix@ + spec_decimal(code as nat),
{
    let mut m = prefix.to_string();
    m.append(string_from_chars(u64_to_decimal(code as u64).as_slice()).as_str());
    m
}

/// Checks the servers' answer to the opening of a window.
pub fn check_init_response(response: Option<QuotaInitResponse>) -> (r: Result<(u32, Vec<u32>), PoleError>)
    ensures
        init_result(r) == spec_check_init(response),
{
    match response {
        None => Err(PoleError::new(ErrorCode::InvalidResponse, String::from_str("rate limit init response is missing"))),
        Some(init) => {
            if init.code != RATE_LIMIT_SUCCESS_CODE {
                Err(PoleError::new(ErrorCode::ServerError, code_message("rate limit init returned code ", init.code)))
            } else if init.counter_keys.len() == 0 {
                Err(PoleError::new(ErrorCode::InvalidResponse, String::from_str("rate limit init returned no counters")))
            } else {
                Ok((init.client_key, init.counter_keys))
            }
        },
    }
}

/// The servers' answer to a reservation.
pub struct QuotaReserveResponse {
    pub code: u32,
    pub lease_id: String,
}

/// What a reservation came to: a lease, or a refusal with its reason.
#[derive(Debug)]
pub enum ReserveAnswer {
    Reserved { lease_id: String },
    Rejected { message: String },
}

/// A reservation's outcome as values: the lease id, or the refusal's reason.
pub open spec fn reserve_view(a: ReserveAnswer) -> Result<Seq<char>, Seq<char>> {
    match a {
        ReserveAnswer::Reserved { lease_id } => Ok(lease_id@),
        ReserveAnswer::Rejected { message } => Err(message@),
    }
}

/// The outcome of a reservation answer.
pub open spec fn spec_check_reserve(resp: Option<QuotaReserveResponse>) -> Result<Result<Seq<char>, Seq<char>>, (ErrorCode, Seq<char>)> {
    match resp {
        None => Err((ErrorCode::InvalidResponse, "quota reserve response is missing"@)),
        Some(r) => if r.code != RATE_LIMIT_SUCCESS_CODE {
            Ok(Err("distributed rate limit quota exhausted, code "@ + spec_decimal(r.code as nat)))
        } else if r.lease_id@.len() == 0 {
            Err((ErrorCode::InvalidResponse, "quota reserve response has an empty lease id"@))
        } else {
            Ok(Ok(r.lease_id@))
        },
    }
}

pub open spec fn reserve_result(r: Result<ReserveAnswer, PoleError>) -> Result<Result<Seq<char>, Seq<char>>, (ErrorCode, Seq<char>)> {
    match r {
        Ok(a) => Ok(reserve_view(a)),
        Err(e) => Err((e.code, e.message@)),
    }
}

/// Checks the servers' answer to a reservation: a refusal code is an answer, not an error.
pub fn check_reserve_response(response: Option<QuotaReserveResponse>) -> (r: Result<ReserveAnswer, PoleError>)
    ensures
        reserve_result(r) == spec_check_reserve(response),
{
    match response {
        None => Err(PoleError::new(ErrorCode::InvalidResponse, String::from_str("quota reserve response is missing"))),
        Some(reserve) => {
            if reserve.code != RATE_LIMIT_SUCCESS_CODE {
                Ok(ReserveAnswer::Rejected { message: code_message("distributed rate limit quota exhausted, code ", reserve.code) })
            } else if reserve.lease_id.unicode_len() == 0 {
                Err(PoleError::new(ErrorCode::InvalidResponse, String::from_str("quota reserve response has an empty lease id")))
            } else {
                Ok(ReserveAnswer::Reserved { lease_id: reserve.lease_id })
            }
        },
    }
}

/// The servers' answer to an update.
pub struct QuotaUpdateResponse {
    pub code: u32,
    pub sequence: u64,
    pub consumptions: Vec<RemoteQuotaConsumption>,
}

/// How often a counter is reported with a total.
pub open spec fn occurrences(s: Seq<RemoteQuotaConsumption>, x: RemoteQuotaConsumption) -> nat
    decreases s.len(),
{
    if s.len() == 0 {
        0
    } else {
        occurrences(s.drop_last(), x) + if s.last() == x { 1nat } else { 0nat }
    }
}

/// Whether two reports hold the same (counter, total) pairs, as often each, in any order.
pub open spec fn same_report(a: Seq<RemoteQuotaConsumption>, b: Seq<RemoteQuotaConsumption>) -> bool {
    forall|x: RemoteQuotaConsumption| #[trigger] occurrences(a, x) == occurrences(b, x)
}

/// The outcome of an update answer.
pub open spec fn spec_check_update(sequence: u64, sent: Seq<RemoteQuotaConsumption>, resp: Option<QuotaUpdateResponse>) -> Result<(), (ErrorCode, Seq<char>)> {
    match resp {
        None => Err((ErrorCode::InvalidResponse, "quota update response is missing"@)),
        Some(r) => if r.code != RATE_LIMIT_SUCCESS_CODE {
            Err((ErrorCode::ServerError, "quota update returned code "@ + spec_decimal(r.code as nat)))
        } else if r.sequence != sequence || !same_report(r.consumptions@, sent) {
            Err((ErrorCode::InvalidResponse, "quota update response does not match the request"@))
        } else {
            Ok(())
        },
    }
}

proof fn lemma_occurrences_witness(s: Seq<RemoteQuotaConsumption>, x: RemoteQuotaConsumption)
    requires
        occurrences(s, x) > 0,
    ensures
        exists|i: int| 0 <= i < s.len() && s[i] == x,
    decreases s.len(),
{
    if s.last() != x {
        lemma_occurrences_witness(s.drop_last(), x);
        let i = choose|i: int| 0 <= i < s.drop_last().len() && s.drop_last()[i] == x;
        assert(s[i] == x);
    } else {
        assert(s[s.len() - 1] == x);
    }
}

fn count_occurrences(s: &Vec<RemoteQuotaConsumption>, x: RemoteQuotaConsumption) -> (n: usize)
    ensures
        n == occurrences(s@, x),
{
    let mut n: usize = 0;
    let mut i: usize = 0;
    while i < s.len()
        invariant
            i <= s@.len(),
            n == occurrences(s@.subrange(0, i as int), x),
            n <= i,
        decreases s@.len() - i,
    {
        let ghost pre = s@.subrange(0, i + 1);
        assert(pre.drop_last() =~= s@.subrange(0, i as int));
        if s[i] == x {
            n = n + 1;
        }
        i = i + 1;
    }
    assert(s@.subrange(0, s@.len() as int) =~= s@);
    n
}

/// Whether every pair reported in `a` is reported as often in `b`.
fn counts_agree(a: &Vec<RemoteQuotaConsumption>, b: &Vec<RemoteQuotaConsumption>) -> (r: bool)
    ensures
        r == (forall|i: int| 0 <= i < a@.len() ==> occurrences(a@, #[trigger] a@[i]) == occurrences(b@, a@[i])),
{
    let mut i: usize = 0;
    while i < a.len()
        invariant
            i <= a@.len(),
            forall|t: int| 0 <= t < i ==> occurrences(a@, #[trigger] a@[t]) == occurrences(b@, a@[t]),
        decreases a@.len() - i,
    {
        if count_occurrences(a, a[i]) != count_occurrences(b, a[i]) {
            return false;
        }
        i = i + 1;
    }
    true
}

fn same_report_exec(a: &Vec<RemoteQuotaConsumption>, b: &Vec<RemoteQuotaConsumption>) -> (r: bool)
    ensures
        r == same_report(a@, b@),
{
    let ab = counts_agree(a, b);
    let ba = counts_agree(b, a);
    proof {
        if ab && ba {
            assert forall|x: RemoteQuotaConsumption| #[trigger] occurrences(a@, x) == occurrences(b@, x) by {
                if occurrences(a@, x) > 0 {
                    lemma_occurrences_witness(a@, x);
                    let i = choose|i: int| 0 <= i < a@.len() && a@[i] == x;
                    assert(occurrences(a@, a@[i]) == occurrences(b@, a@[i]));
                } else if occurrences(b@, x) > 0 {
                    lemma_occurrences_witness(b@, x);
                    let j = choose|j: int| 0 <= j < b@.len() && b@[j] == x;
                    assert(occurrences(b@, b@[j]) == occurrences(a@, b@[j]));
                }
            }
        }
    }
    ab && ba
}

/// Checks the servers' answer to an update: the sequence sent, and the same pairs reported.
pub fn check_update_response(sequence: u64, sent: &Vec<RemoteQuotaConsumption>, response: Option<QuotaUpdateResponse>) -> (r: Result<(), PoleError>)
    ensures
        unit_result(r) == spec_check_update(sequence, sent@, response),
{
    match response {
        None => Err(PoleError::new(ErrorCode::InvalidResponse, String::from_str("quota update response is missing"))),
        Some(update) => {
            if update.code != RATE_LIMIT_SUCCESS_CODE {
                Err(PoleError::new(ErrorCode::ServerError, code_message("quota update returned code ", update.code)))
            } else if update.sequence != sequence || !same_report_exec(&update.consumptions, sent) {
                Err(PoleError::new(ErrorCode::InvalidResponse, String::from_str("quota update response does not match the request")))
            } else {
                Ok(())
            }
        },
    }
}


/// Whether an instance can serve as a quota server: available, speaking gRPC (in any case).
pub open spec fn is_grpc_server(i: Instance) -> bool {
    i@.available() && lower_seq(i.protocol@) == "grpc"@
}

/// The address of an instance: `ip:port`.
pub open spec fn server_address(i: Instance) -> Seq<char> {
    i.ip@ + ":"@ + spec_decimal(i.port as nat)
}

/// The addresses of the quota servers among the instances, in order.
pub open spec fn grpc_addresses(s: Seq<Instance>) -> Seq<Seq<char>>
    decreases s.len(),
{
    if s.len() == 0 {
        Seq::empty()
    } else if is_grpc_server(s.last()) {
        grpc_addresses(s.drop_last()).push(server_address(s.last()))
    } else {
        grpc_addresses(s.drop_last())
    }
}

/// A sequence with each run of equal neighbours kept once.
pub open spec fn dedup_adjacent(s: Seq<Seq<char>>) -> Seq<Seq<char>>
    decreases s.len(),
{
    if s.len() == 0 {
        s
    } else {
        let p = dedup_adjacent(s.drop_last());
        if p.len() > 0 && p.last() == s.last() { p } else { p.push(s.last()) }
    }
}

/// The text itself, as a sort key.
pub open spec fn text_itself() -> spec_fn(Seq<char>) -> Seq<char> {
    |t: Seq<char>| t
}

/// The quota servers to choose from: their addresses sorted, each once; refused when none.
pub open spec fn spec_available_endpoints(instances: Seq<Instance>) -> Result<Seq<Seq<char>>, (ErrorCode, Seq<char>)> {
    let found = grpc_addresses(instances);
    if found.len() == 0 {
        Err((ErrorCode::InstanceNotFound, "rate limit cluster has no available grpc instance"@))
    } else {
        Ok(dedup_adjacent(sort_by_text(found, text_itself())))
    }
}

pub open spec fn texts_of(v: Seq<String>) -> Seq<Seq<char>> {
    v.map_values(|s: String| s@)
}

pub open spec fn texts_result(r: Result<Vec<String>, PoleError>) -> Result<Seq<Seq<char>>, (ErrorCode, Seq<char>)> {
    match r {
        Ok(v) => Ok(texts_of(v@)),
        Err(e) => Err((e.code, e.message@)),
    }
}

fn is_grpc_server_exec(i: &Instance) -> (r: bool)
    ensures
        r == is_grpc_server(*i),
{
    let lowered = lower_chars(&chars_of(i.protocol.as_str()));
    let grpc = chars_of("grpc");
    let mut same = lowered.len() == grpc.len();
    let mut k: usize = 0;
    while same && k < lowered.len()
        invariant
            lowered@ == lower_seq(i.protocol@),
            grpc@ == "grpc"@,
            k <= lowered@.len(),
            same ==> lowered@.len() == grpc@.len(),
            same ==> forall|t: int| 0 <= t < k ==> lowered@[t] == grpc@[t],
            !same ==> lowered@ != grpc@,
        decreases lowered@.len() - k,
    {
        if lowered[k] != grpc[k] {
            same = false;
        }
        k = k + 1;
    }
    if same {
        assert(lowered@ =~= grpc@);
    }
    i.is_available() && same
}

/// The addresses of the available gRPC instances, sorted, each once.
pub fn available_grpc_endpoints(instances: &Vec<Instance>) -> (r: Result<Vec<String>, PoleError>)
    ensures
        texts_result(r) == spec_available_endpoints(instances@),
        r matches Ok(v) ==> v@.len() > 0,
{
    let mut found: Vec<String> = Vec::new();
    let mut i: usize = 0;
    while i < instances.len()
        invariant
            i <= instances@.len(),
            texts_of(found@) == grpc_addresses(instances@.subrange(0, i as int)),
        decreases instances@.len() - i,
    {
        let ghost pre = instances@.subrange(0, i + 1);
        assert(pre.drop_last() =~= instances@.subrange(0, i as int));
        let inst = &instances[i];
        if is_grpc_server_exec(inst) {
            let mut address = inst.ip.clone();
            address.append(":");
            address.append(string_from_chars(u64_to_decimal(inst.port as u64).as_slice()).as_str());
            let ghost before = found@;
            found.push(address);
            assert(texts_of(found@) =~= texts_of(before).push(server_address(*inst)));
        }
        i = i + 1;
    }
    assert(instances@.subrange(0, instances@.len() as int) =~= instances@);
    if found.len() == 0 {
        return Err(PoleError::new(ErrorCode::InstanceNotFound, String::from_str("rate limit cluster has no available grpc instance")));
    }
    let ghost unsorted = found@;
    let sorted = stable_sort_by_text(found);
    proof {
        lemma_sort_map(unsorted, |s: String| s@, key_of::<String>(), text_itself());
        assert(texts_of(sorted@) == sort_by_text(texts_of(unsorted), text_itself()));
    }
    let ghost all = texts_of(sorted@);
    proof {
        lemma_sort_len(unsorted, key_of::<String>());
    }
    let mut out: Vec<String> = Vec::new();
    let mut k: usize = 0;
    while k < sorted.len()
        invariant
            k <= sorted@.len(),
            k > 0 ==> out@.len() > 0,
            all == texts_of(sorted@),
            texts_of(out@) == dedup_adjacent(all.subrange(0, k as int)),
        decreases sorted@.len() - k,
    {
        let ghost pre = all.subrange(0, k + 1);
        assert(pre.drop_last() =~= all.subrange(0, k as int));
        assert(pre.last() == sorted@[k as int]@);
        let keep = out.len() == 0 || !str_equal(out[out.len() - 1].as_str(), sorted[k].as_str());
        if keep {
            let ghost before = out@;
            out.push(sorted[k].clone());
            assert(texts_of(out@) =~= texts_of(before).push(sorted@[k as int]@));
        }
        k = k + 1;
    }
    assert(all.subrange(0, all.len() as int) =~= all);
    Ok(out)
}

proof fn lemma_sort_len<T>(s: Seq<T>, key: spec_fn(T) -> Seq<char>)
    ensures
        sort_by_text(s, key).len() == s.len(),
    decreases s.len(),
{
    if s.len() > 0 {
        lemma_sort_len(s.drop_last(), key);
        lemma_insert_len(sort_by_text(s.drop_last(), key), s.last(), key);
    }
}

proof fn lemma_insert_len<T>(s: Seq<T>, x: T, key: spec_fn(T) -> Seq<char>)
    ensures
        crate::textsort::insert_by_text(s, x, key).len() == s.len() + 1,
    decreases s.len(),
{
    if s.len() > 0 {
        lemma_insert_len(s.drop_last(), x, key);
    }
}

/// The number the first eight bytes of a digest spell, most significant first.
pub open spec fn big_endian(bytes: Seq<u8>) -> nat
    decreases bytes.len(),
{
    if bytes.len() == 0 { 0 } else { big_endian(bytes.drop_last()) * 256 + (bytes.last() as nat) }
}

pub open spec fn pow256(n: nat) -> nat
    decreases n,
{
    if n == 0 { 1 } else { 256 * pow256((n - 1) as nat) }
}

/// The hash of an affinity: the first eight bytes of its SHA-256 digest, big-endian.
pub open spec fn affinity_hash(affinity: Seq<char>) -> u64 {
    big_endian(spec_sha256(affinity).subrange(0, 8)) as u64
}

/// The server an affinity falls on: its hash modulo the number of servers.
pub open spec fn spec_select_endpoint(available: Seq<Seq<char>>, affinity: Seq<char>) -> Seq<char> {
    available[((affinity_hash(affinity) as usize) as int) % (available.len() as int)]
}

fn digest_prefix(digest: &Vec<u8>) -> (h: u64)
    requires
        digest@.len() >= 8,
    ensures
        h == big_endian(digest@.subrange(0, 8)),
{
    let mut h: u64 = 0;
    let mut i: usize = 0;
    assert(pow256(8) == 0x1_0000_0000_0000_0000nat) by {
        reveal_with_fuel(pow256, 9);
    }
    while i < 8
        invariant
            i <= 8,
            digest@.len() >= 8,
            h == big_endian(digest@.subrange(0, i as int)),
            h < pow256(i as nat),
            pow256(8) == 0x1_0000_0000_0000_0000nat,
        decreases 8 - i,
    {
        let ghost pre = digest@.subrange(0, i + 1);
        assert(pre.drop_last() =~= digest@.subrange(0, i as int));
        proof {
            lemma_pow256_le(i as nat + 1, 8);
        }
        let b = digest[i];
        assert(h * 256 + b < pow256(i as nat + 1)) by (nonlinear_arith)
            requires
                h < pow256(i as nat),
                pow256(i as nat + 1) == 256 * pow256(i as nat),
                b < 256;
        h = h * 256 + b as u64;
        i = i + 1;
    }
    h
}

proof fn lemma_pow256_le(a: nat, b: nat)
    requires
        a <= b,
    ensures
        pow256(a) <= pow256(b),
    decreases b,
{
    if a < b {
        lemma_pow256_le(a, (b - 1) as nat);
    }
}

/// The server an affinity falls on among the available ones.
pub fn select_endpoint_from_available(available: &Vec<String>, affinity: &str) -> (r: String)
    requires
        available@.len() > 0,
    ensures
        r@ == spec_select_endpoint(texts_of(available@), affinity@),
{
    let digest = sha256_of_text(affinity);
    let hash = digest_prefix(&digest);
    let index = (hash as usize) % available.len();
    available[index].clone()
}

/// The server for an affinity and the bindings after: the bound server while it is still
/// available, else the one the affinity's hash falls on, which it is then bound to.
pub open spec fn spec_endpoint_for(bound: Seq<(Seq<char>, Seq<char>)>, instances: Seq<Instance>, affinity: Seq<char>)
    -> Result<(Seq<char>, Seq<(Seq<char>, Seq<char>)>), (ErrorCode, Seq<char>)>
{
    match spec_available_endpoints(instances) {
        Err(e) => Err(e),
        Ok(avail) => {
            let chosen = spec_select_endpoint(avail, affinity);
            match key_lookup(bound, affinity) {
                Some(b) => if avail.contains(b) { Ok((b, bound)) } else { Ok((chosen, key_store(bound, affinity, chosen))) },
                None => Ok((chosen, key_store(bound, affinity, chosen))),
            }
        },
    }
}

proof fn lemma_dedup_nonempty(s: Seq<Seq<char>>)
    ensures
        s.len() > 0 ==> dedup_adjacent(s).len() > 0,
        dedup_adjacent(s).len() <= s.len(),
    decreases s.len(),
{
    if s.len() > 0 {
        lemma_dedup_nonempty(s.drop_last());
    }
}

/// An affinity keeps its server: asked again while the same servers are available, the
/// binding gives the server it gave before, and the bindings stay as they are.
pub proof fn law_binding_is_sticky(bound: Seq<(Seq<char>, Seq<char>)>, instances: Seq<Instance>, affinity: Seq<char>)
    requires
        spec_endpoint_for(bound, instances, affinity) is Ok,
    ensures
        spec_endpoint_for(spec_endpoint_for(bound, instances, affinity)->Ok_0.1, instances, affinity)
            == spec_endpoint_for(bound, instances, affinity),
{
    let avail = spec_available_endpoints(instances)->Ok_0;
    let found = grpc_addresses(instances);
    lemma_sort_len(found, text_itself());
    lemma_dedup_nonempty(sort_by_text(found, text_itself()));
    let idx = ((affinity_hash(affinity) as usize) as int) % (avail.len() as int);
    assert(avail[idx] == spec_select_endpoint(avail, affinity));
    assert(avail.contains(spec_select_endpoint(avail, affinity)));
    let (e, after) = spec_endpoint_for(bound, instances, affinity)->Ok_0;
    crate::keyed::lemma_key_store_same(bound, affinity, spec_select_endpoint(avail, affinity));
    assert(key_lookup(after, affinity) == Some(e));
}

/// Which server each affinity was sent to: affinity, then server address.
pub struct EndpointBindings {
    pub bindings: Vec<(String, String)>,
}

impl EndpointBindings {
    pub fn new() -> (r: EndpointBindings)
        ensures
            r.bindings@.len() == 0,
    {
        EndpointBindings { bindings: Vec::new() }
    }

    /// The bindings as values.
    pub open spec fn spec_bound(&self) -> Seq<(Seq<char>, Seq<char>)> {
        map_entries(keyed_view(self.bindings@), |s: String| s@)
    }

    /// The server for an affinity: the one it was sent to before while that one is still
    /// available; else the one its hash falls on, which it is then bound to.
    pub fn endpoint_for(&mut self, instances: &Vec<Instance>, affinity: &str) -> (r: Result<String, PoleError>)
        ensures
            match spec_endpoint_for(old(self).spec_bound(), instances@, affinity@) {
                Ok((e, b)) => r matches Ok(x) && x@ == e && final(self).spec_bound() == b,
                Err(err) => r matches Err(x) && (x.code, x.message@) == err && final(self).spec_bound() == old(self).spec_bound(),
            },
    {
        let available = match available_grpc_endpoints(instances) {
            Ok(a) => a,
            Err(e) => return Err(e),
        };
        let ghost avail = texts_of(available@);
        let ghost before = keyed_view(self.bindings@);
        match find_key(&self.bindings, affinity) {
            Some(j) => {
                let bound = &self.bindings[j].1;
                proof {
                    lemma_map_entries(before, |s: String| s@, affinity@, *bound);
                    crate::keyed::lemma_key_index(before, affinity@);
                }
                let mut t: usize = 0;
                let mut found = false;
                while t < available.len()
                    invariant
                        t <= available@.len(),
                        avail == texts_of(available@),
                        found <==> exists|u: int| 0 <= u < t && avail[u] == bound@,
                    decreases available@.len() - t,
                {
                    assert(avail[t as int] == available@[t as int]@);
                    if str_equal(available[t].as_str(), bound.as_str()) {
                        found = true;
                    }
                    t = t + 1;
                }
                if found {
                    return Ok(bound.clone());
                }
            },
            None => {},
        }
        let endpoint = select_endpoint_from_available(&available, affinity);
        proof {
            lemma_map_entries(before, |s: String| s@, affinity@, endpoint);
        }
        store_key(&mut self.bindings, affinity.to_string(), endpoint.clone());
        Ok(endpoint)
    }
}


/// How the servers share a total among the clients.
#[derive(Clone, Copy, Debug, PartialEq, Eq, Structural)]
pub enum RemoteQuotaMode {
    Whole,
    Divide,
}

pub open spec fn spec_quota_mode(mode: AmountMode) -> RemoteQuotaMode {
    match mode {
        AmountMode::ShareEqually => RemoteQuotaMode::Divide,
        AmountMode::GlobalTotal => RemoteQuotaMode::Whole,
    }
}

/// The sharing a trigger asks of the servers.
pub fn quota_mode(trigger: &LimitTrigger) -> (r: RemoteQuotaMode)
    ensures
        r == spec_quota_mode(trigger.amount_mode),
{
    match trigger.amount_mode {
        AmountMode::ShareEqually => RemoteQuotaMode::Divide,
        AmountMode::GlobalTotal => RemoteQuotaMode::Whole,
    }
}

pub open spec fn spec_quota_accounting(resource: LimitResource) -> QuotaAccounting {
    match resource {
        LimitResource::Concurrency => QuotaAccounting::Occupancy,
        _ => QuotaAccounting::Consumable,
    }
}

/// How the counters of a resource are charged: concurrency is occupied, the rest consumed.
pub fn quota_accounting(resource: LimitResource) -> (r: QuotaAccounting)
    ensures
        r == spec_quota_accounting(resource),
{
    match resource {
        LimitResource::Concurrency => QuotaAccounting::Occupancy,
        _ => QuotaAccounting::Consumable,
    }
}

/// The resource a lease's counters are for; refused for a resource the servers do not count.
pub fn lease_quota_resource(resource: LimitResource) -> (r: Result<QuotaResource, PoleError>)
    ensures
        match spec_quota_resource(resource) {
            Some(q) => r == Ok::<QuotaResource, PoleError>(q),
            None => r matches Err(e) && e.code == ErrorCode::InvalidRule && e.message@ == "unsupported distributed quota resource"@,
        },
{
    match quota_resource(resource) {
        Some(q) => Ok(q),
        None => Err(PoleError::new(ErrorCode::InvalidRule, String::from_str("unsupported distributed quota resource"))),
    }
}

/// A lease's time to live (whole seconds and nanoseconds) in whole seconds: rounded up, at
/// least one, at most `u32::MAX`.
pub open spec fn spec_ttl_seconds(secs: u64, nanos: u32) -> u32 {
    let total = secs as int * 1_000_000_000 + nanos as int;
    let whole = total / 1_000_000_000 + if total % 1_000_000_000 > 0 { 1int } else { 0int };
    let at_least_one = if whole < 1 { 1 } else { whole };
    if at_least_one > u32::MAX { u32::MAX } else { at_least_one as u32 }
}

pub fn ttl_seconds(secs: u64, nanos: u32) -> (r: u32)
    ensures
        r == spec_ttl_seconds(secs, nanos),
{
    let total: u128 = (secs as u128) * 1_000_000_000 + nanos as u128;
    let whole: u128 = total / 1_000_000_000 + if total % 1_000_000_000 > 0 { 1u128 } else { 0u128 };
    let at_least_one: u128 = if whole < 1 { 1 } else { whole };
    if at_least_one > 4294967295u128 { 4294967295u32 } else { at_least_one as u32 }
}

/// The seconds of an amount's window as the servers take them: the configured seconds (at
/// least one) cut to 32 bits; one without configuration.
pub open spec fn spec_amount_duration_seconds(amount: Amount) -> u32 {
    match amount.valid_duration_secs {
        Some(d) => (if d < 1 { 1i64 } else { d }) as u32,
        None => 1,
    }
}

pub fn amount_duration_seconds(amount: &Amount) -> (r: u32)
    ensures
        r == spec_amount_duration_seconds(*amount),
{
    match amount.valid_duration_secs {
        Some(d) => {
            let v: i64 = if d < 1 { 1 } else { d };
            #[verifier::truncate]
            (v as u32)
        },
        None => 1,
    }
}

/// A total a window is opened with.
#[derive(Clone, Copy, Debug, PartialEq, Eq, Structural)]
pub struct QuotaTotal {
    pub mode: RemoteQuotaMode,
    pub duration: u32,
    pub max_amount: u32,
    pub accounting: QuotaAccounting,
}

/// The totals of a trigger's amounts that allow anything.
pub open spec fn amount_totals(amounts: Seq<Amount>, t: LimitTrigger) -> Seq<QuotaTotal>
    decreases amounts.len(),
{
    if amounts.len() == 0 {
        Seq::empty()
    } else {
        let prev = amount_totals(amounts.drop_last(), t);
        let a = amounts.last();
        if a.max_amount > 0 {
            prev.push(QuotaTotal {
                mode: spec_quota_mode(t.amount_mode),
                duration: spec_amount_duration_seconds(a),
                max_amount: a.max_amount,
                accounting: spec_quota_accounting(t.resource),
            })
        } else {
            prev
        }
    }
}

/// The totals a trigger opens its window with.
pub open spec fn spec_quota_totals(t: LimitTrigger) -> Seq<QuotaTotal> {
    match t.resource {
        LimitResource::Qps | LimitResource::Token => amount_totals(t.amounts@, t),
        LimitResource::Concurrency => match t.concurrency_amount {
            Some(m) => if m > 0 {
                seq![QuotaTotal { mode: spec_quota_mode(t.amount_mode), duration: 0, max_amount: m, accounting: spec_quota_accounting(t.resource) }]
            } else {
                Seq::empty()
            },
            None => Seq::empty(),
        },
        LimitResource::Unknown => Seq::empty(),
    }
}

/// The totals a trigger opens its window with; refused when there are none.
pub open spec fn spec_init_totals(t: LimitTrigger) -> Result<Seq<QuotaTotal>, (ErrorCode, Seq<char>)> {
    if spec_quota_totals(t).len() == 0 {
        Err((ErrorCode::InvalidRule, "rate limit trigger "@ + t.name@ + " has no quota total"@))
    } else {
        Ok(spec_quota_totals(t))
    }
}

pub open spec fn totals_result(r: Result<Vec<QuotaTotal>, PoleError>) -> Result<Seq<QuotaTotal>, (ErrorCode, Seq<char>)> {
    match r {
        Ok(v) => Ok(v@),
        Err(e) => Err((e.code, e.message@)),
    }
}

pub fn init_quota_totals(trigger: &LimitTrigger) -> (r: Result<Vec<QuotaTotal>, PoleError>)
    ensures
        totals_result(r) == spec_init_totals(*trigger),
{
    let mode = quota_mode(trigger);
    let accounting = quota_accounting(trigger.resource);
    let mut totals: Vec<QuotaTotal> = Vec::new();
    match trigger.resource {
        LimitResource::Qps | LimitResource::Token => {
            let mut i: usize = 0;
            while i < trigger.amounts.len()
                invariant
                    i <= trigger.amounts@.len(),
                    mode == spec_quota_mode(trigger.amount_mode),
                    accounting == spec_quota_accounting(trigger.resource),
                    totals@ == amount_totals(trigger.amounts@.subrange(0, i as int), *trigger),
                decreases trigger.amounts@.len() - i,
            {
                let ghost pre = trigger.amounts@.subrange(0, i + 1);
                assert(pre.drop_last() =~= trigger.amounts@.subrange(0, i as int));
                let a = &trigger.amounts[i];
                if a.max_amount > 0 {
                    totals.push(QuotaTotal { mode, duration: amount_duration_seconds(a), max_amount: a.max_amount, accounting });
                }
                i = i + 1;
            }
            assert(trigger.amounts@.subrange(0, trigger.amounts@.len() as int) =~= trigger.amounts@);
        },
        LimitResource::Concurrency => {
            match trigger.concurrency_amount {
                Some(m) => {
                    if m > 0 {
                        totals.push(QuotaTotal { mode, duration: 0, max_amount: m, accounting });
                        assert(totals@ =~= spec_quota_totals(*trigger));
                    }
                },
                None => {},
            }
        },
        LimitResource::Unknown => {},
    }
    if totals.len() == 0 {
        let mut m = String::from_str("rate limit trigger ");
        m.append(trigger.name.as_str());
        m.append(" has no quota total");
        return Err(PoleError::new(ErrorCode::InvalidRule, m));
    }
    Ok(totals)
}

/// A quota window: the server it lives on, the limiter cluster, the quota's target and
/// labels, and the rule, trigger and revision it comes from.
#[derive(Clone, Debug)]
pub struct WindowKey {
    pub endpoint: String,
    pub cluster_namespace: String,
    pub cluster_service: String,
    pub target_namespace: String,
    pub target_service: String,
    pub labels: String,
    pub rule_id: String,
    pub trigger_name: String,
    pub rule_revision: String,
}

/// A window key as values.
pub struct WindowKeyView {
    pub endpoint: Seq<char>,
    pub cluster_namespace: Seq<char>,
    pub cluster_service: Seq<char>,
    pub target_namespace: Seq<char>,
    pub target_service: Seq<char>,
    pub labels: Seq<char>,
    pub rule_id: Seq<char>,
    pub trigger_name: Seq<char>,
    pub rule_revision: Seq<char>,
}

impl View for WindowKey {
    type V = WindowKeyView;

    open spec fn view(&self) -> WindowKeyView {
        WindowKeyView {
            endpoint: self.endpoint@,
            cluster_namespace: self.cluster_namespace@,
            cluster_service: self.cluster_service@,
            target_namespace: self.target_namespace@,
            target_service: self.target_service@,
            labels: self.labels@,
            rule_id: self.rule_id@,
            trigger_name: self.trigger_name@,
            rule_revision: self.rule_revision@,
        }
    }
}

/// The window a request's quota under a trigger of a global rule lives in, on a server;
/// refused when the rule names no cluster, or one without namespace or service.
pub open spec fn spec_window_key(req: QuotaRequest, rule: RateLimit, trigger: LimitTrigger, endpoint: Seq<char>) -> Result<WindowKeyView, (ErrorCode, Seq<char>)> {
    match rule.cluster {
        None => Err((ErrorCode::InvalidRule, "global rate limit rule "@ + rule.id@ + " does not declare cluster"@)),
        Some(c) => if c.namespace@.len() == 0 || c.service@.len() == 0 {
            Err((ErrorCode::InvalidRule, "global rate limit rule "@ + rule.id@ + " has an invalid cluster"@))
        } else {
            Ok(WindowKeyView {
                endpoint,
                cluster_namespace: c.namespace@,
                cluster_service: c.service@,
                target_namespace: req.namespace@,
                target_service: req.service@,
                labels: spec_remote_quota_labels(req, trigger),
                rule_id: rule.id@,
                trigger_name: trigger.name@,
                rule_revision: rule.revision@,
            })
        },
    }
}

pub open spec fn key_result(r: Result<WindowKey, PoleError>) -> Result<WindowKeyView, (ErrorCode, Seq<char>)> {
    match r {
        Ok(k) => Ok(k@),
        Err(e) => Err((e.code, e.message@)),
    }
}

fn rule_message(id: &str, tail: &str) -> (m: String)
    ensures
        m@ == "global rate limit rule "@ + id@ + tail@,
{
    let mut m = String::from_str("global rate limit rule ");
    m.append(id);
    m.append(tail);
    m
}

impl WindowKey {
    pub fn from_rule(req: &QuotaRequest, rule: &RateLimit, trigger: &LimitTrigger, endpoint: &str) -> (r: Result<WindowKey, PoleError>)
        ensures
            key_result(r) == spec_window_key(*req, *rule, *trigger, endpoint@),
    {
        let cluster = match &rule.cluster {
            None => return Err(PoleError::new(ErrorCode::InvalidRule, rule_message(rule.id.as_str(), " does not declare cluster"))),
            Some(c) => c,
        };
        if cluster.namespace.unicode_len() == 0 || cluster.service.unicode_len() == 0 {
            return Err(PoleError::new(ErrorCode::InvalidRule, rule_message(rule.id.as_str(), " has an invalid cluster")));
        }
        Ok(WindowKey {
            endpoint: endpoint.to_string(),
            cluster_namespace: cluster.namespace.clone(),
            cluster_service: cluster.service.clone(),
            target_namespace: req.namespace.clone(),
            target_service: req.service.clone(),
            labels: remote_quota_labels(req, trigger),
            rule_id: rule.id.clone(),
            trigger_name: trigger.name.clone(),
            rule_revision: rule.revision.clone(),
        })
    }
}

/// What a window is opened with.
pub struct QuotaInitRequest {
    pub target_namespace: String,
    pub target_service: String,
    pub labels: String,
    pub client_id: String,
    pub totals: Vec<QuotaTotal>,
}

/// Builds the opening of a window; refused when the trigger has no total.
pub fn build_init_request(client_id: &str, key: &WindowKey, trigger: &LimitTrigger) -> (r: Result<QuotaInitRequest, PoleError>)
    ensures
        match spec_init_totals(*trigger) {
            Ok(t) => r matches Ok(q) && q.totals@ == t && q.client_id@ == client_id@
                && q.target_namespace@ == key.target_namespace@ && q.target_service@ == key.target_service@
                && q.labels@ == key.labels@,
            Err(e) => r matches Err(x) && (x.code, x.message@) == e,
        },
{
    let totals = match init_quota_totals(trigger) {
        Ok(t) => t,
        Err(e) => return Err(e),
    };
    Ok(QuotaInitRequest {
        target_namespace: key.target_namespace.clone(),
        target_service: key.target_service.clone(),
        labels: key.labels.clone(),
        client_id: client_id.to_string(),
        totals,
    })
}

/// What decides the server of a window: `cluster namespace#cluster service#namespace#service#labels`;
/// refused when the rule names no cluster.
pub open spec fn spec_window_affinity(req: QuotaRequest, rule: RateLimit, trigger: LimitTrigger) -> Result<Seq<char>, (ErrorCode, Seq<char>)> {
    match rule.cluster {
        None => Err((ErrorCode::InvalidRule, "global rate limit rule "@ + rule.id@ + " does not declare cluster"@)),
        Some(c) => Ok(c.namespace@ + "#"@ + c.service@ + "#"@ + req.namespace@ + "#"@ + req.service@ + "#"@
            + spec_remote_quota_labels(req, trigger)),
    }
}

pub open spec fn string_result(r: Result<String, PoleError>) -> Result<Seq<char>, (ErrorCode, Seq<char>)> {
    match r {
        Ok(s) => Ok(s@),
        Err(e) => Err((e.code, e.message@)),
    }
}

pub fn window_affinity(req: &QuotaRequest, rule: &RateLimit, trigger: &LimitTrigger) -> (r: Result<String, PoleError>)
    ensures
        string_result(r) == spec_window_affinity(*req, *rule, *trigger),
{
    let cluster = match &rule.cluster {
        None => return Err(PoleError::new(ErrorCode::InvalidRule, rule_message(rule.id.as_str(), " does not declare cluster"))),
        Some(c) => c,
    };
    let mut a = cluster.namespace.clone();
    a.append("#");
    a.append(cluster.service.as_str());
    a.append("#");
    a.append(req.namespace.as_str());
    a.append("#");
    a.append(req.service.as_str());
    a.append("#");
    a.append(remote_quota_labels(req, trigger).as_str());
    Ok(a)
}

/// A trigger of a global rule and what to reserve under it.
pub struct DistributedQuotaSpec {
    pub rule: RateLimit,
    pub trigger: LimitTrigger,
    pub amount: u32,
}

/// Whether a rule's cluster is the given one.
pub open spec fn in_cluster(rule: RateLimit, namespace: Seq<char>, service: Seq<char>) -> bool {
    rule.cluster matches Some(c) && c.namespace@ == namespace && c.service@ == service
}

/// One lease goes to one limiter cluster: that of its first trigger's rule, which all share.
pub open spec fn spec_same_cluster(specs: Seq<DistributedQuotaSpec>) -> Result<(), (ErrorCode, Seq<char>)> {
    if specs.len() == 0 || specs[0].rule.cluster is None {
        Err((ErrorCode::InvalidRule, "global rate limit rule does not declare cluster"@))
    } else {
        let c = specs[0].rule.cluster->Some_0;
        if forall|i: int| 0 <= i < specs.len() ==> in_cluster(#[trigger] specs[i].rule, c.namespace@, c.service@) {
            Ok(())
        } else {
            Err((ErrorCode::InvalidRule, "one quota lease cannot span multiple limiter clusters"@))
        }
    }
}

pub fn ensure_same_cluster(specs: &Vec<DistributedQuotaSpec>) -> (r: Result<(), PoleError>)
    ensures
        unit_result(r) == spec_same_cluster(specs@),
{
    if specs.len() == 0 {
        return Err(PoleError::new(ErrorCode::InvalidRule, String::from_str("global rate limit rule does not declare cluster")));
    }
    let first = match &specs[0].rule.cluster {
        None => return Err(PoleError::new(ErrorCode::InvalidRule, String::from_str("global rate limit rule does not declare cluster"))),
        Some(c) => c,
    };
    let mut i: usize = 0;
    while i < specs.len()
        invariant
            i <= specs@.len(),
            specs@.len() > 0,
            specs@[0].rule.cluster == Some(*first),
            forall|t: int| 0 <= t < i ==> in_cluster(#[trigger] specs@[t].rule, first.namespace@, first.service@),
        decreases specs@.len() - i,
    {
        let same = match &specs[i].rule.cluster {
            Some(c) => str_equal(c.namespace.as_str(), first.namespace.as_str()) && str_equal(c.service.as_str(), first.service.as_str()),
            None => false,
        };
        if !same {
            assert(!in_cluster(specs@[i as int].rule, first.namespace@, first.service@));
            return Err(PoleError::new(ErrorCode::InvalidRule, String::from_str("one quota lease cannot span multiple limiter clusters")));
        }
        i = i + 1;
    }
    Ok(())
}

/// The affinities of the triggers joined with `|`, or the first refusal.
pub open spec fn spec_lease_affinity(req: QuotaRequest, specs: Seq<DistributedQuotaSpec>) -> Result<Seq<char>, (ErrorCode, Seq<char>)>
    decreases specs.len(),
{
    if specs.len() == 0 {
        Ok(Seq::empty())
    } else {
        match spec_lease_affinity(req, specs.drop_last()) {
            Err(e) => Err(e),
            Ok(prev) => match spec_window_affinity(req, specs.last().rule, specs.last().trigger) {
                Err(e) => Err(e),
                Ok(a) => Ok(if specs.len() == 1 { a } else { prev + "|"@ + a }),
            },
        }
    }
}

proof fn lemma_lease_affinity_err(req: QuotaRequest, specs: Seq<DistributedQuotaSpec>, n: int)
    requires
        0 <= n <= specs.len(),
        spec_lease_affinity(req, specs.subrange(0, n)) is Err,
    ensures
        spec_lease_affinity(req, specs) == spec_lease_affinity(req, specs.subrange(0, n)),
    decreases specs.len() - n,
{
    if n == specs.len() {
        assert(specs.subrange(0, n) =~= specs);
    } else {
        assert(specs.subrange(0, n + 1).drop_last() =~= specs.subrange(0, n));
        lemma_lease_affinity_err(req, specs, n + 1);
    }
}

/// What a lease is asked of the servers with: refused when it reserves nothing, spans two
/// limiter clusters, or a rule names no cluster; else the affinity that picks its server.
pub open spec fn spec_plan_distributed_lease(req: QuotaRequest, specs: Seq<DistributedQuotaSpec>) -> Result<Seq<char>, (ErrorCode, Seq<char>)> {
    if specs.len() == 0 {
        Err((ErrorCode::ApiInvalidArgument, "distributed quota reservation is empty"@))
    } else {
        match spec_same_cluster(specs) {
            Err(e) => Err(e),
            Ok(()) => spec_lease_affinity(req, specs),
        }
    }
}

pub fn plan_distributed_lease(req: &QuotaRequest, specs: &Vec<DistributedQuotaSpec>) -> (r: Result<String, PoleError>)
    ensures
        string_result(r) == spec_plan_distributed_lease(*req, specs@),
{
    if specs.len() == 0 {
        return Err(PoleError::new(ErrorCode::ApiInvalidArgument, String::from_str("distributed quota reservation is empty")));
    }
    match ensure_same_cluster(specs) {
        Err(e) => return Err(e),
        Ok(()) => {},
    }
    let mut joined = String::new();
    let mut i: usize = 0;
    assert(specs@.subrange(0, 0) =~= Seq::<DistributedQuotaSpec>::empty());
    while i < specs.len()
        invariant
            i <= specs@.len(),
            spec_lease_affinity(*req, specs@.subrange(0, i as int)) == Ok::<Seq<char>, (ErrorCode, Seq<char>)>(joined@),
            specs@.len() > 0,
            spec_same_cluster(specs@) == Ok::<(), (ErrorCode, Seq<char>)>(()),
        decreases specs@.len() - i,
    {
        let ghost pre = specs@.subrange(0, i + 1);
        assert(pre.drop_last() =~= specs@.subrange(0, i as int));
        assert(pre.last() == specs@[i as int]);
        match window_affinity(req, &specs[i].rule, &specs[i].trigger) {
            Err(e) => {
                proof {
                    lemma_lease_affinity_err(*req, specs@, i + 1);
                }
                return Err(e);
            },
            Ok(a) => {
                if i > 0 {
                    joined.append("|");
                    joined.append(a.as_str());
                } else {
                    joined = a;
                }
            },
        }
        i = i + 1;
    }
    assert(specs@.subrange(0, specs@.len() as int) =~= specs@);
    Ok(joined)
}


/// Whether some value occurs twice.
pub open spec fn has_repeat(s: Seq<u32>) -> bool {
    exists|i: int, j: int| 0 <= i < j < s.len() && s[i] == s[j]
}

fn has_repeat_exec(s: &Vec<u32>) -> (r: bool)
    ensures
        r == has_repeat(s@),
{
    let mut i: usize = 0;
    while i < s.len()
        invariant
            i <= s@.len(),
            forall|a: int, b: int| 0 <= a < b < i ==> s@[a] != s@[b],
        decreases s@.len() - i,
    {
        let mut j: usize = 0;
        while j < i
            invariant
                j <= i < s@.len(),
                forall|a: int| 0 <= a < j ==> s@[a] != s@[i as int],
            decreases i - j,
        {
            if s[j] == s[i] {
                return true;
            }
            j = j + 1;
        }
        i = i + 1;
    }
    false
}

/// The counters a lease is reserved on, gathered window by window: the client key all the
/// windows' openings agreed on, the groups, and every counter key so far.
pub struct LeaseGroupsBuilder {
    pub client_key: Option<u32>,
    pub groups: Vec<LeaseCounterGroup>,
    pub seen: Vec<u32>,
}

/// Why a window's opening cannot join a lease: another client key than before, a counter
/// key met twice, or a resource the servers do not count; nothing when it can.
pub open spec fn spec_add_window_error(current: Option<u32>, seen: Seq<u32>, client_key: u32, counters: Seq<u32>, resource: LimitResource) -> Option<(ErrorCode, Seq<char>)> {
    if current matches Some(k) && k != client_key {
        Some((ErrorCode::InvalidResponse, "rate limit init responses disagree on client key"@))
    } else if has_repeat(seen + counters) {
        Some((ErrorCode::InvalidResponse, "rate limit init returned duplicate counter keys"@))
    } else if spec_quota_resource(resource) is None {
        Some((ErrorCode::InvalidRule, "unsupported distributed quota resource"@))
    } else {
        None
    }
}

impl LeaseGroupsBuilder {
    pub fn new() -> (r: LeaseGroupsBuilder)
        ensures
            r.client_key is None,
            r.groups@.len() == 0,
            r.seen@.len() == 0,
    {
        LeaseGroupsBuilder { client_key: None, groups: Vec::new(), seen: Vec::new() }
    }

    /// Joins a window's opening to the lease, reserving `amount` on each of its counters.
    pub fn add_window(&mut self, client_key: u32, counter_keys: Vec<u32>, trigger: &LimitTrigger, amount: u32) -> (r: Result<(), PoleError>)
        ensures
            match spec_add_window_error(old(self).client_key, old(self).seen@, client_key, counter_keys@, trigger.resource) {
                Some(e) => r matches Err(x) && (x.code, x.message@) == e
                    && final(self).client_key == old(self).client_key
                    && final(self).groups@ == old(self).groups@
                    && final(self).seen@ == old(self).seen@,
                None => r is Ok
                    && final(self).client_key == Some(client_key)
                    && final(self).seen@ == old(self).seen@ + counter_keys@
                    && final(self).groups@.len() == old(self).groups@.len() + 1
                    && final(self).groups@.subrange(0, old(self).groups@.len() as int) == old(self).groups@
                    && final(self).groups@.last().resource == spec_quota_resource(trigger.resource)->Some_0
                    && final(self).groups@.last().amount == amount
                    && final(self).groups@.last().accounting == spec_quota_accounting(trigger.resource)
                    && final(self).groups@.last().counter_keys@ == counter_keys@,
            },
    {
        match self.client_key {
            Some(k) => {
                if k != client_key {
                    return Err(PoleError::new(ErrorCode::InvalidResponse, String::from_str("rate limit init responses disagree on client key")));
                }
            },
            None => {},
        }
        let mut all: Vec<u32> = self.seen.clone();
        let mut i: usize = 0;
        while i < counter_keys.len()
            invariant
                i <= counter_keys@.len(),
                all@ == self.seen@ + counter_keys@.subrange(0, i as int),
            decreases counter_keys@.len() - i,
        {
            all.push(counter_keys[i]);
            i = i + 1;
            assert(all@ =~= self.seen@ + counter_keys@.subrange(0, i as int));
        }
        assert(counter_keys@.subrange(0, counter_keys@.len() as int) =~= counter_keys@);
        if has_repeat_exec(&all) {
            return Err(PoleError::new(ErrorCode::InvalidResponse, String::from_str("rate limit init returned duplicate counter keys")));
        }
        let resource = match lease_quota_resource(trigger.resource) {
            Ok(q) => q,
            Err(e) => return Err(e),
        };
        let ghost old_groups = self.groups@;
        self.client_key = Some(client_key);
        self.seen = all;
        self.groups.push(LeaseCounterGroup { resource, amount, accounting: quota_accounting(trigger.resource), counter_keys });
        assert(self.groups@.subrange(0, old_groups.len() as int) =~= old_groups);
        Ok(())
    }
}

/// What a lease reserves on one counter.
#[derive(Clone, Copy, Debug, PartialEq, Eq, Structural)]
pub struct QuotaReservation {
    pub counter_key: u32,
    pub amount: u32,
}

/// Every counter of the groups with its group's amount, group after group.
pub open spec fn spec_reservations(groups: Seq<LeaseCounterGroup>) -> Seq<QuotaReservation>
    decreases groups.len(),
{
    if groups.len() == 0 {
        Seq::empty()
    } else {
        let g = groups.last();
        spec_reservations(groups.drop_last()) + g.counter_keys@.map_values(|k: u32| QuotaReservation { counter_key: k, amount: g.amount })
    }
}

pub fn reservations_of(groups: &Vec<LeaseCounterGroup>) -> (r: Vec<QuotaReservation>)
    ensures
        r@ == spec_reservations(groups@),
{
    let mut out: Vec<QuotaReservation> = Vec::new();
    let mut g: usize = 0;
    while g < groups.len()
        invariant
            g <= groups@.len(),
            out@ == spec_reservations(groups@.subrange(0, g as int)),
        decreases groups@.len() - g,
    {
        let ghost pre = groups@.subrange(0, g + 1);
        assert(pre.drop_last() =~= groups@.subrange(0, g as int));
        let group = &groups[g];
        assert(pre.last() == *group);
        let ghost start = out@;
        let mut k: usize = 0;
        while k < group.counter_keys.len()
            invariant
                k <= group.counter_keys@.len(),
                out@ == start + group.counter_keys@.subrange(0, k as int).map_values(|c: u32| QuotaReservation { counter_key: c, amount: group.amount }),
            decreases group.counter_keys@.len() - k,
        {
            out.push(QuotaReservation { counter_key: group.counter_keys[k], amount: group.amount });
            k = k + 1;
            assert(out@ =~= start + group.counter_keys@.subrange(0, k as int).map_values(|c: u32| QuotaReservation { counter_key: c, amount: group.amount }));
        }
        assert(group.counter_keys@.subrange(0, group.counter_keys@.len() as int) =~= group.counter_keys@);
        g = g + 1;
    }
    assert(groups@.subrange(0, groups@.len() as int) =~= groups@);
    out
}

/// A reservation asked of the servers.
pub struct QuotaReserveRequest {
    pub client_key: u32,
    pub idempotency_key: String,
    pub reservations: Vec<QuotaReservation>,
    pub ttl_seconds: u32,
    pub timestamp: i64,
}

/// Builds a reservation: every counter with its group's amount, the lease's time to live in
/// seconds, the servers' time, and a fresh idempotency key (a random UUID, of which nothing
/// is stated).
pub fn build_reserve_request(client_key: u32, groups: &Vec<LeaseCounterGroup>, lease_ttl_secs: u64, lease_ttl_nanos: u32, server_timestamp: i64) -> (r: QuotaReserveRequest)
    ensures
        r.client_key == client_key,
        r.reservations@ == spec_reservations(groups@),
        r.ttl_seconds == spec_ttl_seconds(lease_ttl_secs, lease_ttl_nanos),
        r.timestamp == server_timestamp,
{
    QuotaReserveRequest {
        client_key,
        idempotency_key: crate::traffic::ratelimit::counter::new_lease_id(),
        reservations: reservations_of(groups),
        ttl_seconds: ttl_seconds(lease_ttl_secs, lease_ttl_nanos),
        timestamp: server_timestamp,
    }
}

/// The commands of the quota stream.
#[derive(Clone, Copy, Debug, PartialEq, Eq, Structural)]
pub enum RateLimitCmd {
    Init,
    Reserve,
    Update,
    Settle,
}

/// Answers come in the order of the requests: one for another command is refused.
pub fn check_response_command(expected: RateLimitCmd, received: RateLimitCmd) -> (r: Result<(), PoleError>)
    ensures
        expected == received <==> r is Ok,
        r matches Err(e) ==> e.code == ErrorCode::InvalidResponse && e.message@ == "rate limit response command is out of order"@,
{
    if expected != received {
        return Err(PoleError::new(ErrorCode::InvalidResponse, String::from_str("rate limit response command is out of order")));
    }
    Ok(())
}

/// How often the servers' clock is measured again, in milliseconds.
pub const TIME_ADJUST_INTERVAL_MS: i64 = 30000;

/// Whether the servers' clock is to be measured again: the interval has passed since the
/// last measurement.
pub fn time_adjust_due(now_ms: i64, last_adjust_ms: i64) -> (r: bool)
    requires
        now_ms - last_adjust_ms <= i64::MAX,
        now_ms - last_adjust_ms >= i64::MIN,
    ensures
        r == (now_ms - last_adjust_ms >= TIME_ADJUST_INTERVAL_MS),
{
    now_ms - last_adjust_ms >= TIME_ADJUST_INTERVAL_MS
}

/// How far the servers' clock is ahead: their time less the midpoint of the measurement.
pub open spec fn spec_clock_offset(started_ms: int, finished_ms: int, server_ms: int) -> int {
    server_ms - (started_ms + (finished_ms - started_ms) / 2)
}

pub fn clock_offset_ms(started_ms: i64, finished_ms: i64, server_ms: i64) -> (r: i64)
    requires
        started_ms <= finished_ms,
        finished_ms - started_ms <= i64::MAX,
        i64::MIN <= spec_clock_offset(started_ms as int, finished_ms as int, server_ms as int) <= i64::MAX,
    ensures
        r == spec_clock_offset(started_ms as int, finished_ms as int, server_ms as int),
{
    let midpoint = started_ms + (finished_ms - started_ms) / 2;
    server_ms - midpoint
}

/// The servers' time: the local time plus the measured offset.
pub fn server_timestamp(now_ms: i64, offset_ms: i64) -> (r: i64)
    requires
        i64::MIN <= now_ms + offset_ms <= i64::MAX,
    ensures
        r == now_ms + offset_ms,
{
    now_ms + offset_ms
}


/// A window opened on a session: the client key and counters the servers gave it.
pub struct InitializedWindow {
    pub session_id: u64,
    pub client_key: u32,
    pub counter_keys: Vec<u32>,
}

/// A quota window and, once opened, what its opening gave.
pub struct QuotaWindow {
    pub key: WindowKey,
    pub initialized: Option<InitializedWindow>,
}

/// What a window's opening gave on a session, if it was opened on that session.
pub open spec fn spec_opened_on(w: QuotaWindow, session_id: u64) -> Option<(u32, Seq<u32>)> {
    match w.initialized {
        Some(i) => if i.session_id == session_id { Some((i.client_key, i.counter_keys@)) } else { None },
        None => None,
    }
}

pub open spec fn opening_view(r: Option<(u32, Vec<u32>)>) -> Option<(u32, Seq<u32>)> {
    match r {
        Some((k, c)) => Some((k, c@)),
        None => None,
    }
}

impl QuotaWindow {
    pub fn new(key: WindowKey) -> (r: QuotaWindow)
        ensures
            r.key == key,
            r.initialized is None,
    {
        QuotaWindow { key, initialized: None }
    }

    /// What the window's opening gave, when it was opened on this session; a window opened
    /// on another session is opened again.
    pub fn opened_on(&self, session_id: u64) -> (r: Option<(u32, Vec<u32>)>)
        ensures
            opening_view(r) == spec_opened_on(*self, session_id),
    {
        match &self.initialized {
            Some(i) => if i.session_id == session_id { Some((i.client_key, i.counter_keys.clone())) } else { None },
            None => None,
        }
    }

    /// Records what the window's opening on a session gave.
    pub fn record_opening(&mut self, session_id: u64, client_key: u32, counter_keys: Vec<u32>)
        ensures
            final(self).key == old(self).key,
            final(self).initialized matches Some(i) && i.session_id == session_id && i.client_key == client_key
                && i.counter_keys@ == counter_keys@,
    {
        self.initialized = Some(InitializedWindow { session_id, client_key, counter_keys });
    }
}

/// A window's opening is kept for its session: recorded, it is what the window gives on that
/// session, and nothing on any other.
pub proof fn law_opening_is_kept_for_its_session(w: QuotaWindow, after: QuotaWindow, session_id: u64, client_key: u32, counters: Seq<u32>, other: u64)
    requires
        after.key == w.key,
        after.initialized matches Some(i) && i.session_id == session_id && i.client_key == client_key && i.counter_keys@ == counters,
        other != session_id,
    ensures
        spec_opened_on(after, session_id) == Some((client_key, counters)),
        spec_opened_on(after, other) is None,
{
}

/// Whether a window is an older copy of the current one: same cluster, target, labels, rule
/// and trigger, but another server or rule revision.
pub open spec fn spec_is_stale(key: WindowKeyView, current: WindowKeyView) -> bool {
    &&& key.cluster_namespace == current.cluster_namespace
    &&& key.cluster_service == current.cluster_service
    &&& key.target_namespace == current.target_namespace
    &&& key.target_service == current.target_service
    &&& key.labels == current.labels
    &&& key.rule_id == current.rule_id
    &&& key.trigger_name == current.trigger_name
    &&& (key.endpoint != current.endpoint || key.rule_revision != current.rule_revision)
}

pub fn is_stale_window(key: &WindowKey, current: &WindowKey) -> (r: bool)
    ensures
        r == spec_is_stale(key@, current@),
{
    str_equal(key.cluster_namespace.as_str(), current.cluster_namespace.as_str())
        && str_equal(key.cluster_service.as_str(), current.cluster_service.as_str())
        && str_equal(key.target_namespace.as_str(), current.target_namespace.as_str())
        && str_equal(key.target_service.as_str(), current.target_service.as_str())
        && str_equal(key.labels.as_str(), current.labels.as_str())
        && str_equal(key.rule_id.as_str(), current.rule_id.as_str())
        && str_equal(key.trigger_name.as_str(), current.trigger_name.as_str())
        && (!str_equal(key.endpoint.as_str(), current.endpoint.as_str())
            || !str_equal(key.rule_revision.as_str(), current.rule_revision.as_str()))
}

/// The windows that are not older copies of the current one, in order.
pub open spec fn fresh_windows(ws: Seq<QuotaWindow>, current: WindowKeyView) -> Seq<QuotaWindow>
    decreases ws.len(),
{
    if ws.len() == 0 {
        ws
    } else if spec_is_stale(ws.last().key@, current) {
        fresh_windows(ws.drop_last(), current)
    } else {
        fresh_windows(ws.drop_last(), current).push(ws.last())
    }
}

/// The first window with a key.
pub open spec fn window_index(ws: Seq<QuotaWindow>, key: WindowKeyView) -> Option<int>
    decreases ws.len(),
{
    if ws.len() == 0 {
        None
    } else {
        match window_index(ws.drop_last(), key) {
            Some(i) => Some(i),
            None => if ws.last().key@ == key { Some(ws.len() - 1) } else { None },
        }
    }
}

fn same_window_key(a: &WindowKey, b: &WindowKey) -> (r: bool)
    ensures
        r == (a@ == b@),
{
    str_equal(a.endpoint.as_str(), b.endpoint.as_str())
        && str_equal(a.cluster_namespace.as_str(), b.cluster_namespace.as_str())
        && str_equal(a.cluster_service.as_str(), b.cluster_service.as_str())
        && str_equal(a.target_namespace.as_str(), b.target_namespace.as_str())
        && str_equal(a.target_service.as_str(), b.target_service.as_str())
        && str_equal(a.labels.as_str(), b.labels.as_str())
        && str_equal(a.rule_id.as_str(), b.rule_id.as_str())
        && str_equal(a.trigger_name.as_str(), b.trigger_name.as_str())
        && str_equal(a.rule_revision.as_str(), b.rule_revision.as_str())
}

/// The quota windows a client knows.
pub struct QuotaWindows {
    pub windows: Vec<QuotaWindow>,
}

impl QuotaWindows {
    pub fn new() -> (r: QuotaWindows)
        ensures
            r.windows@.len() == 0,
    {
        QuotaWindows { windows: Vec::new() }
    }

    /// Drops the older copies of a window.
    pub fn remove_stale_windows(&mut self, current: &WindowKey)
        ensures
            final(self).windows@ == fresh_windows(old(self).windows@, current@),
    {
        let mut kept: Vec<QuotaWindow> = Vec::new();
        let ghost all = self.windows@;
        let mut rest: Vec<QuotaWindow> = Vec::new();
        std::mem::swap(&mut rest, &mut self.windows);
        let mut taken: usize = 0;
        let total = rest.len();
        assert(all.subrange(0, 0) =~= Seq::<QuotaWindow>::empty());
        while rest.len() > 0
            invariant
                all.len() == total,
                taken + rest@.len() == all.len(),
                rest@ == all.subrange(taken as int, all.len() as int),
                kept@ == fresh_windows(all.subrange(0, taken as int), current@),
            decreases rest@.len(),
        {
            let w = rest.remove(0);
            assert(rest@ =~= all.subrange(taken + 1, all.len() as int));
            let ghost pre = all.subrange(0, taken + 1);
            assert(pre.drop_last() =~= all.subrange(0, taken as int));
            assert(pre.last() == w);
            if !is_stale_window(&w.key, current) {
                kept.push(w);
            }
            taken = taken + 1;
        }
        assert(all.subrange(0, all.len() as int) =~= all);
        self.windows = kept;
    }

    /// The window of a key, after dropping its older copies; a new, unopened one when there
    /// is none.
    pub fn window_for(&mut self, key: WindowKey) -> (r: usize)
        ensures
            ({
                let fresh = fresh_windows(old(self).windows@, key@);
                &&& r < final(self).windows@.len()
                &&& final(self).windows@[r as int].key@ == key@
                &&& match window_index(fresh, key@) {
                    Some(i) => r == i && final(self).windows@ == fresh,
                    None => r == fresh.len() && final(self).windows@.len() == fresh.len() + 1
                        && final(self).windows@.subrange(0, fresh.len() as int) == fresh
                        && final(self).windows@[r as int].initialized is None,
                }
            }),
    {
        self.remove_stale_windows(&key);
        let ghost fresh = self.windows@;
        let mut i: usize = 0;
        while i < self.windows.len()
            invariant
                i <= self.windows@.len(),
                self.windows@ == fresh,
                fresh == fresh_windows(old(self).windows@, key@),
                window_index(fresh.subrange(0, i as int), key@) is None,
            decreases self.windows@.len() - i,
        {
            let ghost pre = fresh.subrange(0, i + 1);
            assert(pre.drop_last() =~= fresh.subrange(0, i as int));
            assert(pre.last() == self.windows@[i as int]);
            if same_window_key(&self.windows[i].key, &key) {
                proof {
                    assert(window_index(pre, key@) == Some(i as int));
                    lemma_window_index_prefix(fresh, key@, i as int + 1);
                }
                return i;
            }
            i = i + 1;
        }
        assert(fresh.subrange(0, fresh.len() as int) =~= fresh);
        let n = self.windows.len();
        self.windows.push(QuotaWindow::new(key));
        assert(self.windows@.subrange(0, fresh.len() as int) =~= fresh);
        n
    }
}

proof fn lemma_window_index_prefix(ws: Seq<QuotaWindow>, key: WindowKeyView, n: int)
    requires
        0 <= n <= ws.len(),
        window_index(ws.subrange(0, n), key) is Some,
    ensures
        window_index(ws, key) == window_index(ws.subrange(0, n), key),
    decreases ws.len() - n,
{
    if n == ws.len() {
        assert(ws.subrange(0, n) =~= ws);
    } else {
        assert(ws.subrange(0, n + 1).drop_last() =~= ws.subrange(0, n));
        lemma_window_index_prefix(ws, key, n + 1);
    }
}


/// A lease the quota servers granted: the client, the lease, and the counters it holds.
pub struct DistributedLease {
    pub client_key: u32,
    pub lease_id: String,
    pub groups: Vec<LeaseCounterGroup>,
}

/// What a lease reports to the servers, as an update or as its settlement.
#[derive(Debug)]
pub struct QuotaLeaseReport {
    pub client_key: u32,
    pub lease_id: String,
    pub consumptions: Vec<RemoteQuotaConsumption>,
    pub sequence: u64,
    pub timestamp: i64,
}

impl DistributedLease {
    pub fn new(client_key: u32, lease_id: String, groups: Vec<LeaseCounterGroup>) -> (r: DistributedLease)
        ensures
            r.client_key == client_key,
            r.lease_id == lease_id,
            r.groups@ == groups@,
    {
        DistributedLease { client_key, lease_id, groups }
    }

    /// The report of cumulative consumptions, numbered `sequence`, at the servers' time:
    /// every counter of the lease with its resource's total; refused when a resource of the
    /// lease has no consumption.
    pub fn report(&self, consumptions: &Vec<QuotaConsumption>, sequence: u64, timestamp: i64) -> (r: Result<QuotaLeaseReport, PoleError>)
        ensures
            match spec_expand(self.groups@, consumptions@) {
                Ok(v) => r matches Ok(q) && q.consumptions@ == v && q.client_key == self.client_key
                    && q.lease_id@ == self.lease_id@ && q.sequence == sequence && q.timestamp == timestamp,
                Err(res) => r matches Err(e) && e.code == ErrorCode::ApiInvalidArgument
                    && e.message@ == "quota consumption for "@ + resource_name(res) + " is missing"@,
            },
    {
        let remote = match expand_consumptions(&self.groups, consumptions) {
            Ok(v) => v,
            Err(e) => return Err(e),
        };
        Ok(QuotaLeaseReport {
            client_key: self.client_key,
            lease_id: self.lease_id.clone(),
            consumptions: remote,
            sequence,
            timestamp,
        })
    }

    /// Checks the servers' answer to an update report.
    pub fn check_update(&self, report: &QuotaLeaseReport, response: Option<QuotaUpdateResponse>) -> (r: Result<(), PoleError>)
        ensures
            unit_result(r) == spec_check_update(report.sequence, report.consumptions@, response),
    {
        check_update_response(report.sequence, &report.consumptions, response)
    }

    /// Checks the servers' answer to a settlement report: every counter settled with the
    /// total reported and what it gives back.
    pub fn check_settle(&self, report: &QuotaLeaseReport, response: &Option<QuotaSettleResponse>) -> (r: Result<(), PoleError>)
        ensures
            unit_result(r) == spec_check_settle(self.groups@, report.consumptions@, *response),
    {
        check_settle_response(&self.groups, &report.consumptions, response)
    }
}

} // verus!
