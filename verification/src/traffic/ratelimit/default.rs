//! Rate limiting: which rule triggers a quota request falls under, the keys its counters
//! are kept under, and the reservation of a request's quotas.

use vstd::prelude::*;
use vstd::string::{StrSliceExecFns, StringExecFns};
use crate::model::{
    ArgumentType, CachedRule, ErrorCode, PoleError, label_get, label_lookup,
};
use crate::plugins::router::rule::helper::{match_label_value, spec_match_label_value};
use crate::priority::{IndexRef, Prioritized, sort_by_priority, stable_sort_by_priority};
use crate::specification::{
    Amount, Api, FailoverType, LimitResource, LimitTrigger, MatchArgument, MatchArgumentType,
    RateLimit, RateLimitType, ValueType,
};
use crate::traffic::matcher::{ApiMatchIndex, ApiMatchInput, InputView, spec_candidates};
use crate::traffic::ratelimit::api::{QuotaConsumption, covers, consumption_index};
use crate::traffic::ratelimit::req::{
    QuotaAmount, QuotaRequest, QuotaResource, resource_name, resource_name_string,
    spec_amount_for,
};

verus! {

pub open spec fn spec_quota_resource(r: LimitResource) -> Option<QuotaResource> {
    match r {
        LimitResource::Qps => Some(QuotaResource::Qps),
        LimitResource::Token => Some(QuotaResource::Token),
        LimitResource::Concurrency => Some(QuotaResource::Concurrency),
        LimitResource::Unknown => None,
    }
}

pub fn quota_resource(r: LimitResource) -> (q: Option<QuotaResource>)
    ensures
        q == spec_quota_resource(r),
{
    match r {
        LimitResource::Qps => Some(QuotaResource::Qps),
        LimitResource::Token => Some(QuotaResource::Token),
        LimitResource::Concurrency => Some(QuotaResource::Concurrency),
        LimitResource::Unknown => None,
    }
}

/// What a fresh lease of a trigger has consumed: one request for QPS, nothing otherwise.
pub open spec fn spec_initial_consumed_total(resource: LimitResource) -> u32 {
    if resource == LimitResource::Qps { 1 } else { 0 }
}

pub fn initial_consumed_total(trigger: &LimitTrigger) -> (r: u32)
    ensures
        r == spec_initial_consumed_total(trigger.resource),
{
    match trigger.resource {
        LimitResource::Qps => 1,
        _ => 0,
    }
}

/// The consumption of a fresh lease: one request for QPS, nothing otherwise.
pub open spec fn spec_initial_consumption(q: QuotaAmount) -> QuotaConsumption {
    QuotaConsumption {
        resource: q.resource,
        consumed_total: if q.resource == QuotaResource::Qps { 1 } else { 0 },
    }
}

proof fn lemma_amount_index(quotas: Seq<QuotaAmount>, r: QuotaResource)
    ensures
        spec_amount_for(quotas, r).is_some() ==> consumption_index(quotas.map_values(|q: QuotaAmount| spec_initial_consumption(q)), r).is_some(),
    decreases quotas.len(),
{
    if quotas.len() > 0 {
        let m = quotas.map_values(|q: QuotaAmount| spec_initial_consumption(q));
        assert(m.drop_first() =~= quotas.drop_first().map_values(|q: QuotaAmount| spec_initial_consumption(q)));
        lemma_amount_index(quotas.drop_first(), r);
    }
}

pub fn initial_consumptions(quotas: &Vec<QuotaAmount>) -> (r: Vec<QuotaConsumption>)
    ensures
        r@ == quotas@.map_values(|q: QuotaAmount| spec_initial_consumption(q)),
        covers(quotas@, r@),
{
    let mut r: Vec<QuotaConsumption> = Vec::new();
    let mut i: usize = 0;
    while i < quotas.len()
        invariant
            i <= quotas@.len(),
            r@ == quotas@.subrange(0, i as int).map_values(|q: QuotaAmount| spec_initial_consumption(q)),
        decreases quotas@.len() - i,
    {
        let q = quotas[i];
        r.push(QuotaConsumption {
            resource: q.resource,
            consumed_total: if q.resource == QuotaResource::Qps { 1 } else { 0 },
        });
        i = i + 1;
        assert(r@ =~= quotas@.subrange(0, i as int).map_values(|q: QuotaAmount| spec_initial_consumption(q)));
    }
    assert(quotas@.subrange(0, quotas@.len() as int) =~= quotas@);
    assert forall|res: QuotaResource| #[trigger] spec_amount_for(quotas@, res).is_some() implies consumption_index(r@, res).is_some() by {
        lemma_amount_index(quotas@, res);
    }
    r
}

/// The total a list of consumptions holds for a resource, from its first entry for it.
pub fn consumption_for(consumptions: &Vec<QuotaConsumption>, resource: QuotaResource) -> (r: Result<u32, PoleError>)
    ensures
        match consumption_index(consumptions@, resource) {
            Some(j) => r == Ok::<u32, PoleError>(consumptions@[j].consumed_total),
            None => r matches Err(e) && e.code == ErrorCode::ApiInvalidArgument
                && e.message@ == "quota consumption for "@ + resource_name(resource) + " is missing"@,
        },
{
    let mut k: usize = 0;
    assert(consumptions@.subrange(0, consumptions@.len() as int) =~= consumptions@);
    while k < consumptions.len()
        invariant
            k <= consumptions@.len(),
            consumption_index(consumptions@, resource) == match consumption_index(consumptions@.subrange(k as int, consumptions@.len() as int), resource) {
                Some(t) => Some(t + k),
                None => None,
            },
        decreases consumptions@.len() - k,
    {
        let ghost rest = consumptions@.subrange(k as int, consumptions@.len() as int);
        assert(rest.drop_first() =~= consumptions@.subrange(k + 1, consumptions@.len() as int));
        if consumptions[k].resource == resource {
            return Ok(consumptions[k].consumed_total);
        }
        k = k + 1;
    }
    let mut m = String::from_str("quota consumption for ");
    m.append(resource_name_string(resource).as_str());
    m.append(" is missing");
    Err(PoleError::new(ErrorCode::ApiInvalidArgument, m))
}

/// A refusal for want of quota.
pub fn quota_rejected(message: String) -> (r: PoleError)
    ensures
        r.code == ErrorCode::RequestLimit,
        r.message@ == message@,
{
    PoleError::new(ErrorCode::RequestLimit, message)
}

/// The rate-limit rules of cached rules; any other rule is an error.
pub open spec fn spec_rate_limits(rules: Seq<CachedRule>) -> Option<Seq<RateLimit>>
    decreases rules.len(),
{
    if rules.len() == 0 {
        Some(Seq::empty())
    } else {
        match (spec_rate_limits(rules.drop_last()), rules.last()) {
            (Some(prev), CachedRule::RateLimit(r)) => Some(prev.push(r)),
            _ => None,
        }
    }
}

proof fn lemma_rate_limits_prefix(rules: Seq<CachedRule>, n: int)
    requires
        0 <= n <= rules.len(),
        spec_rate_limits(rules.subrange(0, n)).is_none(),
    ensures
        spec_rate_limits(rules).is_none(),
    decreases rules.len() - n,
{
    if n < rules.len() {
        let pre = rules.subrange(0, n + 1);
        assert(pre.drop_last() =~= rules.subrange(0, n));
        lemma_rate_limits_prefix(rules, n + 1);
    } else {
        assert(rules.subrange(0, n) =~= rules);
    }
}

pub fn rate_limits_from_service_rules(rules: Vec<CachedRule>) -> (r: Result<Vec<RateLimit>, PoleError>)
    ensures
        match spec_rate_limits(rules@) {
            Some(v) => r matches Ok(out) && out@ == v,
            None => r matches Err(e) && e.code == ErrorCode::InvalidRule,
        },
{
    let ghost orig = rules@;
    let mut rest = rules;
    let mut out: Vec<RateLimit> = Vec::new();
    let mut taken: usize = 0;
    let total = rest.len();
    assert(orig.subrange(0, 0) =~= Seq::<CachedRule>::empty());
    while rest.len() > 0
        invariant
            orig.len() == total,
            orig == rules@,
            taken + rest@.len() == orig.len(),
            rest@ == orig.subrange(taken as int, orig.len() as int),
            spec_rate_limits(orig.subrange(0, taken as int)) == Some(out@),
        decreases rest@.len(),
    {
        let x = rest.remove(0);
        assert(rest@ =~= orig.subrange(taken + 1, orig.len() as int));
        let ghost pre = orig.subrange(0, taken + 1);
        assert(pre.drop_last() =~= orig.subrange(0, taken as int));
        assert(pre.last() == x);
        match x {
            CachedRule::RateLimit(rl) => {
                out.push(rl);
            },
            _ => {
                proof {
                    lemma_rate_limits_prefix(orig, taken as int + 1);
                }
                return Err(PoleError::new(ErrorCode::InvalidRule, String::from_str("rule type error, expect RateLimit")));
            },
        }
        taken = taken + 1;
    }
    assert(orig.subrange(0, orig.len() as int) =~= orig);
    Ok(out)
}

/// An enabled rule that counts locally or globally.
pub open spec fn spec_quota_rule_matches(rule: RateLimit) -> bool {
    !rule.disable && (rule.rule_type == RateLimitType::Local || rule.rule_type == RateLimitType::Global)
}

pub fn quota_rule_matches(rule: &RateLimit) -> (r: bool)
    ensures
        r == spec_quota_rule_matches(*rule),
{
    !rule.disable && (rule.rule_type == RateLimitType::Local || rule.rule_type == RateLimitType::Global)
}

/// Whether a trigger is counted by the local counter: local rules, and global rules that
/// fall back to local counting.
pub open spec fn spec_uses_local_counter(rule: RateLimit, trigger: LimitTrigger) -> bool {
    rule.rule_type == RateLimitType::Local
        || (rule.rule_type == RateLimitType::Global && trigger.failover == FailoverType::FailoverLocal)
}

pub fn uses_local_counter(rule: &RateLimit, trigger: &LimitTrigger) -> (r: bool)
    ensures
        r == spec_uses_local_counter(*rule, *trigger),
{
    rule.rule_type == RateLimitType::Local
        || (rule.rule_type == RateLimitType::Global && trigger.failover == FailoverType::FailoverLocal)
}

/// Whether a trigger is counted by the quota servers: global rules of a known resource.
pub open spec fn spec_uses_distributed_quota(rule: RateLimit, trigger: LimitTrigger) -> bool {
    rule.rule_type == RateLimitType::Global && trigger.resource != LimitResource::Unknown
}

pub fn uses_distributed_quota(rule: &RateLimit, trigger: &LimitTrigger) -> (r: bool)
    ensures
        r == spec_uses_distributed_quota(*rule, *trigger),
{
    rule.rule_type == RateLimitType::Global && trigger.resource != LimitResource::Unknown
}

/// An enabled trigger of a known resource.
pub open spec fn spec_trigger_base_matches(trigger: LimitTrigger) -> bool {
    !trigger.disable && trigger.resource != LimitResource::Unknown
}

pub fn trigger_base_matches(trigger: &LimitTrigger) -> (r: bool)
    ensures
        r == spec_trigger_base_matches(*trigger),
{
    !trigger.disable && trigger.resource != LimitResource::Unknown
}

pub open spec fn spec_argument_type(t: MatchArgumentType) -> ArgumentType {
    match t {
        MatchArgumentType::Method => ArgumentType::Method,
        MatchArgumentType::Header => ArgumentType::Header,
        MatchArgumentType::Query => ArgumentType::Query,
        MatchArgumentType::CallerService => ArgumentType::CallerService,
        MatchArgumentType::CallerIp => ArgumentType::CallerIP,
        MatchArgumentType::CallerMetadata => ArgumentType::CallerService,
        MatchArgumentType::Custom => ArgumentType::Custom,
    }
}

pub fn ratelimit_argument_type(t: MatchArgumentType) -> (r: ArgumentType)
    ensures
        r == spec_argument_type(t),
{
    match t {
        MatchArgumentType::Method => ArgumentType::Method,
        MatchArgumentType::Header => ArgumentType::Header,
        MatchArgumentType::Query => ArgumentType::Query,
        MatchArgumentType::CallerService => ArgumentType::CallerService,
        MatchArgumentType::CallerIp => ArgumentType::CallerIP,
        MatchArgumentType::CallerMetadata => ArgumentType::CallerService,
        MatchArgumentType::Custom => ArgumentType::Custom,
    }
}

/// Whether a request meets a trigger argument: a parameter argument without value asks only
/// that the request carries the label; otherwise the label the argument names (by its key
/// for text values, by its value for parameters) must meet the value. Variable values are
/// not read for rate limiting.
pub open spec fn spec_argument_matches(req: QuotaRequest, argument: MatchArgument) -> bool {
    match argument.value {
        None => false,
        Some(rv) => {
            let t = spec_argument_type(argument.arg_type);
            if rv.value_type == ValueType::Parameter && rv.value@.len() == 0 {
                label_lookup(req.labels@, t, argument.key@).is_some()
            } else {
                let actual = match rv.value_type {
                    ValueType::Text => label_lookup(req.labels@, t, argument.key@),
                    ValueType::Parameter => label_lookup(req.labels@, t, rv.value@),
                    ValueType::Variable => None,
                };
                match actual {
                    None => false,
                    Some(a) => spec_match_label_value(rv, a),
                }
            }
        },
    }
}

pub fn match_argument_matches(req: &QuotaRequest, argument: &MatchArgument) -> (r: bool)
    ensures
        r == spec_argument_matches(*req, *argument),
{
    let rv = match &argument.value {
        None => return false,
        Some(rv) => rv,
    };
    let t = ratelimit_argument_type(argument.arg_type);
    if rv.value_type == ValueType::Parameter && rv.value.as_str().unicode_len() == 0 {
        return label_get(&req.labels, t, argument.key.as_str()).is_some();
    }
    let actual = match rv.value_type {
        ValueType::Text => label_get(&req.labels, t, argument.key.as_str()),
        ValueType::Parameter => label_get(&req.labels, t, rv.value.as_str()),
        ValueType::Variable => None,
    };
    match actual {
        None => false,
        Some(a) => match_label_value(rv, a),
    }
}

/// Whether a request meets every argument of a trigger.
pub open spec fn spec_trigger_arguments_match(req: QuotaRequest, trigger: LimitTrigger) -> bool {
    forall|i: int| 0 <= i < trigger.arguments@.len() ==> spec_argument_matches(req, #[trigger] trigger.arguments@[i])
}

pub fn trigger_arguments_match(req: &QuotaRequest, trigger: &LimitTrigger) -> (r: bool)
    ensures
        r == spec_trigger_arguments_match(*req, *trigger),
{
    let mut i: usize = 0;
    while i < trigger.arguments.len()
        invariant
            i <= trigger.arguments@.len(),
            forall|k: int| 0 <= k < i ==> spec_argument_matches(*req, #[trigger] trigger.arguments@[k]),
        decreases trigger.arguments@.len() - i,
    {
        if !match_argument_matches(req, &trigger.arguments[i]) {
            return false;
        }
        i = i + 1;
    }
    true
}

/// The method and path a quota request is matched by: its method, and its path label.
pub open spec fn spec_quota_input(req: QuotaRequest) -> InputView {
    InputView { method: Some(req.method@), path: label_lookup(req.labels@, ArgumentType::Path, ""@) }
}

pub fn quota_api_match_input(req: &QuotaRequest) -> (r: ApiMatchInput)
    ensures
        r@ == spec_quota_input(*req),
{
    ApiMatchInput::new(Some(req.method.clone()), label_get(&req.labels, ArgumentType::Path, ""))
}

pub open spec fn rule_refs(rules: Seq<RateLimit>) -> Seq<IndexRef> {
    Seq::new(rules.len(), |i: int| IndexRef { index: i as usize, priority: rules[i].priority })
}

/// The triggers of a rule that can apply, as (rule, trigger) positions.
pub open spec fn trigger_entries(rules: Seq<RateLimit>, r: usize, k: int) -> Seq<(usize, usize)>
    decreases k,
{
    if k <= 0 {
        Seq::empty()
    } else {
        let prev = trigger_entries(rules, r, k - 1);
        if spec_trigger_base_matches(rules[r as int].rules@[k - 1]) {
            prev.push((r, (k - 1) as usize))
        } else {
            prev
        }
    }
}

/// The triggers that can apply, rule after rule in the order given.
pub open spec fn all_entries(rules: Seq<RateLimit>, refs: Seq<IndexRef>) -> Seq<(usize, usize)>
    decreases refs.len(),
{
    if refs.len() == 0 {
        Seq::empty()
    } else {
        let r = refs.last().index;
        all_entries(rules, refs.drop_last()) + if spec_quota_rule_matches(rules[r as int]) {
            trigger_entries(rules, r, rules[r as int].rules@.len() as int)
        } else {
            Seq::empty()
        }
    }
}

/// The selected entries whose triggers' arguments the request meets, in order.
pub open spec fn filter_arguments(req: QuotaRequest, rules: Seq<RateLimit>, es: Seq<(usize, usize)>) -> Seq<(usize, usize)>
    decreases es.len(),
{
    if es.len() == 0 {
        es
    } else {
        let prev = filter_arguments(req, rules, es.drop_last());
        let e = es.last();
        if spec_trigger_arguments_match(req, rules[e.0 as int].rules@[e.1 as int]) {
            prev.push(e)
        } else {
            prev
        }
    }
}

/// The triggers a quota request falls under: of enabled local or global rules taken by
/// priority (ties in order), the enabled triggers of known resource whose API selectors the
/// request's method and path select and whose arguments it meets.
pub open spec fn spec_matching_triggers(req: QuotaRequest, rules: Seq<RateLimit>) -> Seq<(usize, usize)> {
    let es = all_entries(rules, sort_by_priority(rule_refs(rules)));
    let apis = es.map_values(|e: (usize, usize)| rules[e.0 as int].rules@[e.1 as int].apis@);
    let cands = spec_candidates(spec_quota_input(req), apis, apis.len() as int);
    filter_arguments(req, rules, cands.map_values(|o: usize| es[o as int]))
}

pub fn duplicate_apis(v: &Vec<Api>) -> (r: Vec<Api>)
    ensures
        r@ == v@,
{
    let mut r: Vec<Api> = Vec::new();
    let mut i: usize = 0;
    while i < v.len()
        invariant
            i <= v@.len(),
            r@ == v@.subrange(0, i as int),
        decreases v@.len() - i,
    {
        r.push(v[i].duplicate());
        i = i + 1;
        assert(r@ =~= v@.subrange(0, i as int));
    }
    assert(v@.subrange(0, v@.len() as int) =~= v@);
    r
}

/// The (rule, trigger) positions of the triggers a quota request falls under, in order.
pub fn matching_quota_triggers(req: &QuotaRequest, rules: &Vec<RateLimit>) -> (r: Vec<(usize, usize)>)
    ensures
        r@ == spec_matching_triggers(*req, rules@),
{
    let mut refs: Vec<IndexRef> = Vec::new();
    let mut i: usize = 0;
    while i < rules.len()
        invariant
            i <= rules@.len(),
            refs@ == rule_refs(rules@.subrange(0, i as int)),
        decreases rules@.len() - i,
    {
        refs.push(IndexRef { index: i, priority: rules[i].priority });
        i = i + 1;
        assert(refs@ =~= rule_refs(rules@.subrange(0, i as int)));
    }
    assert(rules@.subrange(0, rules@.len() as int) =~= rules@);
    assert forall|k: int| 0 <= k < refs@.len() implies (#[trigger] refs@[k]).index < rules@.len() by {}
    proof {
        crate::priority::lemma_sort_keeps(refs@, |x: IndexRef| x.index < rules@.len());
    }
    let sorted = stable_sort_by_priority(refs);
    let ghost all = sorted@;
    let mut es: Vec<(usize, usize)> = Vec::new();
    let mut apis: Vec<Vec<Api>> = Vec::new();
    let mut j: usize = 0;
    assert(es@ =~= all_entries(rules@, all.subrange(0, 0)));
    while j < sorted.len()
        invariant
            j <= all.len(),
            all == sorted@,
            all == sort_by_priority(rule_refs(rules@)),
            forall|k: int| 0 <= k < all.len() ==> (#[trigger] all[k]).index < rules@.len(),
            es@ == all_entries(rules@, all.subrange(0, j as int)),
            apis@.len() == es@.len(),
            forall|k: int| 0 <= k < es@.len() ==> (#[trigger] es@[k]).0 < rules@.len()
                && es@[k].1 < rules@[es@[k].0 as int].rules@.len()
                && apis@[k]@ == rules@[es@[k].0 as int].rules@[es@[k].1 as int].apis@,
        decreases all.len() - j,
    {
        let ghost pre = all.subrange(0, j + 1);
        assert(pre.drop_last() =~= all.subrange(0, j as int));
        let r = sorted[j].index;
        let ghost start = es@;
        if quota_rule_matches(&rules[r]) {
            let triggers = &rules[r].rules;
            let mut k: usize = 0;
            while k < triggers.len()
                invariant
                    k <= triggers@.len(),
                    r < rules@.len(),
                    *triggers == rules@[r as int].rules,
                    es@ == start + trigger_entries(rules@, r, k as int),
                    apis@.len() == es@.len(),
                    forall|t: int| 0 <= t < es@.len() ==> (#[trigger] es@[t]).0 < rules@.len()
                        && es@[t].1 < rules@[es@[t].0 as int].rules@.len()
                        && apis@[t]@ == rules@[es@[t].0 as int].rules@[es@[t].1 as int].apis@,
                decreases triggers@.len() - k,
            {
                if trigger_base_matches(&triggers[k]) {
                    es.push((r, k));
                    apis.push(duplicate_apis(&triggers[k].apis));
                }
                k = k + 1;
                assert(es@ =~= start + trigger_entries(rules@, r, k as int));
            }
            assert(es@ =~= all_entries(rules@, pre));
        } else {
            assert(es@ =~= all_entries(rules@, pre));
        }
        j = j + 1;
    }
    assert(all.subrange(0, all.len() as int) =~= all);
    let ghost ev = apis@.map_values(|v: Vec<Api>| v@);
    assert(ev =~= es@.map_values(|e: (usize, usize)| rules@[e.0 as int].rules@[e.1 as int].apis@));
    let index = ApiMatchIndex::new(&apis);
    let input = quota_api_match_input(req);
    let cands = index.candidates(&input);
    proof {
        crate::traffic::matcher::lemma_candidates_bound(input@, ev, ev.len() as int);
    }
    let ghost mapped = cands@.map_values(|o: usize| es@[o as int]);
    let mut out: Vec<(usize, usize)> = Vec::new();
    let mut c: usize = 0;
    assert(out@ =~= filter_arguments(*req, rules@, mapped.subrange(0, 0)));
    while c < cands.len()
        invariant
            c <= cands@.len(),
            mapped == cands@.map_values(|o: usize| es@[o as int]),
            forall|t: int| 0 <= t < cands@.len() ==> (#[trigger] cands@[t]) < es@.len(),
            forall|t: int| 0 <= t < es@.len() ==> (#[trigger] es@[t]).0 < rules@.len()
                && es@[t].1 < rules@[es@[t].0 as int].rules@.len(),
            out@ == filter_arguments(*req, rules@, mapped.subrange(0, c as int)),
        decreases cands@.len() - c,
    {
        let ghost pre = mapped.subrange(0, c + 1);
        assert(pre.drop_last() =~= mapped.subrange(0, c as int));
        let o = cands[c];
        let e = es[o];
        assert(pre.last() == e);
        if trigger_arguments_match(req, &rules[e.0].rules[e.1]) {
            out.push(e);
        }
        c = c + 1;
    }
    assert(mapped.subrange(0, mapped.len() as int) =~= mapped);
    out
}

/// The seconds of a quota window: the configured duration, at least one second; one
/// second without configuration.
pub open spec fn spec_amount_duration(amount: Amount) -> u64 {
    match amount.valid_duration_secs {
        Some(d) => if d < 1 { 1 } else { d as u64 },
        None => 1,
    }
}

pub fn amount_duration(amount: &Amount) -> (r: u64)
    ensures
        r == spec_amount_duration(*amount),
{
    match amount.valid_duration_secs {
        Some(d) => if d < 1 { 1 } else { d as u64 },
        None => 1,
    }
}

/// What `sha2::Sha256` computes of a text's UTF-8 bytes.
pub uninterp spec fn spec_sha256(text: Seq<char>) -> Seq<u8>;

/// SHA-256 digest of a text's UTF-8 bytes (`sha2::Sha256::digest`); 32 bytes, as SHA-256
/// defines. The contract names the digest; the hash function is the `sha2` crate's.
#[verifier::external_body]
pub(crate) fn sha256_of_text(text: &str) -> (r: Vec<u8>)
    ensures
        r@ == spec_sha256(text@),
        r@.len() == 32,
{
    <sha2::Sha256 as sha2::Digest>::digest(text.as_bytes()).to_vec()
}

pub open spec fn hex_digit(d: u8) -> char {
    if d < 10 { (48 + d) as char } else { (87 + d) as char }
}

/// Lower-case hexadecimal, two digits per byte.
pub open spec fn spec_hex(bytes: Seq<u8>) -> Seq<char>
    decreases bytes.len(),
{
    if bytes.len() == 0 {
        Seq::empty()
    } else {
        spec_hex(bytes.drop_last()) + seq![hex_digit(bytes.last() / 16), hex_digit(bytes.last() % 16)]
    }
}

fn hex_char(d: u8) -> (c: char)
    requires
        d < 16,
    ensures
        c == hex_digit(d),
{
    if d < 10 { (48 + d) as char } else { (87 + d) as char }
}

pub fn hex_string(bytes: &Vec<u8>) -> (r: Vec<char>)
    ensures
        r@ == spec_hex(bytes@),
{
    let mut r: Vec<char> = Vec::new();
    let mut i: usize = 0;
    while i < bytes.len()
        invariant
            i <= bytes@.len(),
            r@ == spec_hex(bytes@.subrange(0, i as int)),
        decreases bytes@.len() - i,
    {
        let ghost pre = bytes@.subrange(0, i + 1);
        assert(pre.drop_last() =~= bytes@.subrange(0, i as int));
        let b = bytes[i];
        r.push(hex_char(b / 16));
        r.push(hex_char(b % 16));
        i = i + 1;
        assert(r@ =~= spec_hex(pre));
    }
    assert(bytes@.subrange(0, bytes@.len() as int) =~= bytes@);
    r
}

/// The name of an argument type, as `Debug` writes it.
pub open spec fn argument_type_name(t: MatchArgumentType) -> Seq<char> {
    match t {
        MatchArgumentType::Custom => "Custom"@,
        MatchArgumentType::Method => "Method"@,
        MatchArgumentType::Header => "Header"@,
        MatchArgumentType::Query => "Query"@,
        MatchArgumentType::CallerService => "CallerService"@,
        MatchArgumentType::CallerIp => "CallerIp"@,
        MatchArgumentType::CallerMetadata => "CallerMetadata"@,
    }
}

fn argument_type_name_string(t: MatchArgumentType) -> (r: String)
    ensures
        r@ == argument_type_name(t),
{
    match t {
        MatchArgumentType::Custom => String::from_str("Custom"),
        MatchArgumentType::Method => String::from_str("Method"),
        MatchArgumentType::Header => String::from_str("Header"),
        MatchArgumentType::Query => String::from_str("Query"),
        MatchArgumentType::CallerService => String::from_str("CallerService"),
        MatchArgumentType::CallerIp => String::from_str("CallerIp"),
        MatchArgumentType::CallerMetadata => String::from_str("CallerMetadata"),
    }
}

/// A counter-key dimension: an argument's name and the digest of the request's value.
pub struct Dimension {
    pub key: String,
    pub value: String,
}

impl crate::textsort::TextKeyed for Dimension {
    open spec fn spec_text_key(&self) -> Seq<char> {
        self.key@
    }

    fn text_key(&self) -> (r: &str) {
        self.key.as_str()
    }
}

/// The dimension an argument adds to counter keys: a parameter argument without value,
/// when the request carries the label, as `Type.key` and the digest of the label's value.
pub open spec fn spec_dimension(req: QuotaRequest, argument: MatchArgument) -> Option<(Seq<char>, Seq<char>)> {
    match argument.value {
        Some(v) if v.value_type == ValueType::Parameter && v.value@.len() == 0 => {
            match label_lookup(req.labels@, spec_argument_type(argument.arg_type), argument.key@) {
                Some(actual) => Some((argument_type_name(argument.arg_type) + "."@ + argument.key@, spec_hex(spec_sha256(actual)))),
                None => None,
            }
        },
        _ => None,
    }
}

pub open spec fn dimensions(req: QuotaRequest, args: Seq<MatchArgument>) -> Seq<(Seq<char>, Seq<char>)>
    decreases args.len(),
{
    if args.len() == 0 {
        Seq::empty()
    } else {
        let prev = dimensions(req, args.drop_last());
        match spec_dimension(req, args.last()) {
            Some(d) => prev.push(d),
            None => prev,
        }
    }
}

pub open spec fn dimension_views(s: Seq<Dimension>) -> Seq<(Seq<char>, Seq<char>)> {
    s.map_values(|d: Dimension| (d.key@, d.value@))
}

/// `#key=digest` for each dimension, in the given order.
pub open spec fn suffix_of(dims: Seq<(Seq<char>, Seq<char>)>) -> Seq<char>
    decreases dims.len(),
{
    if dims.len() == 0 {
        Seq::empty()
    } else {
        suffix_of(dims.drop_last()) + "#"@ + dims.last().0 + "="@ + dims.last().1
    }
}

/// The part of counter keys that separates requests by the values of parameter arguments
/// without value: `#Type.key=digest` per such argument, ordered by `Type.key`.
pub open spec fn spec_dimension_suffix(req: QuotaRequest, trigger: LimitTrigger) -> Seq<char> {
    let dims = dimensions(req, trigger.arguments@);
    suffix_of(sort_dims(dims))
}

/// Dimensions ordered by name, equal names kept in order.
pub open spec fn sort_dims(dims: Seq<(Seq<char>, Seq<char>)>) -> Seq<(Seq<char>, Seq<char>)> {
    crate::textsort::sort_by_text(dims, |p: (Seq<char>, Seq<char>)| p.0)
}

fn dimension_list(req: &QuotaRequest, trigger: &LimitTrigger) -> (r: Vec<Dimension>)
    ensures
        dimension_views(r@) == dimensions(*req, trigger.arguments@),
{
    let ghost args = trigger.arguments@;
    let mut out: Vec<Dimension> = Vec::new();
    let mut i: usize = 0;
    while i < trigger.arguments.len()
        invariant
            i <= args.len(),
            args == trigger.arguments@,
            dimension_views(out@) == dimensions(*req, args.subrange(0, i as int)),
        decreases args.len() - i,
    {
        let ghost pre = args.subrange(0, i + 1);
        assert(pre.drop_last() =~= args.subrange(0, i as int));
        let arg = &trigger.arguments[i];
        assert(pre.last() == *arg);
        let ghost before = dimension_views(out@);
        match &arg.value {
            Some(v) => {
                if v.value_type == ValueType::Parameter && v.value.as_str().unicode_len() == 0 {
                    match label_get(&req.labels, ratelimit_argument_type(arg.arg_type), arg.key.as_str()) {
                        Some(actual) => {
                            let digest = sha256_of_text(actual.as_str());
                            let mut key = argument_type_name_string(arg.arg_type);
                            key.append(".");
                            key.append(arg.key.as_str());
                            let value = crate::text::string_from_chars(hex_string(&digest).as_slice());
                            out.push(Dimension { key, value });
                            assert(dimension_views(out@) =~= before.push((argument_type_name(arg.arg_type) + "."@ + arg.key@, spec_hex(spec_sha256(actual@)))));
                        },
                        None => {},
                    }
                }
            },
            None => {},
        }
        i = i + 1;
    }
    assert(args.subrange(0, args.len() as int) =~= args);
    out
}

/// The suffix of counter keys for the request's parameter values.
pub fn request_parameter_dimension_suffix(req: &QuotaRequest, trigger: &LimitTrigger) -> (r: String)
    ensures
        r@ == spec_dimension_suffix(*req, *trigger),
{
    let dims = dimension_list(req, trigger);
    let ghost dv = dims@;
    let sorted = crate::textsort::stable_sort_by_text(dims);
    proof {
        crate::textsort::lemma_sort_map(
            dv,
            |d: Dimension| (d.key@, d.value@),
            crate::textsort::key_of::<Dimension>(),
            |p: (Seq<char>, Seq<char>)| p.0,
        );
        assert(dimension_views(dv) == dv.map_values(|d: Dimension| (d.key@, d.value@)));
        assert(dimension_views(sorted@) == sorted@.map_values(|d: Dimension| (d.key@, d.value@)));
    }
    let ghost sv = dimension_views(sorted@);
    let mut out = String::new();
    let mut i: usize = 0;
    assert(out@ =~= suffix_of(sv.subrange(0, 0)));
    while i < sorted.len()
        invariant
            i <= sorted@.len(),
            sv == dimension_views(sorted@),
            out@ == suffix_of(sv.subrange(0, i as int)),
        decreases sorted@.len() - i,
    {
        let ghost pre = sv.subrange(0, i + 1);
        assert(pre.drop_last() =~= sv.subrange(0, i as int));
        out.append("#");
        out.append(sorted[i].key.as_str());
        out.append("=");
        out.append(sorted[i].value.as_str());
        i = i + 1;
        assert(out@ =~= suffix_of(pre));
    }
    assert(sv.subrange(0, sv.len() as int) =~= sv);
    out
}

/// The key of a window counter: namespace, service, method, rule, trigger and window
/// seconds, joined by `#`, then the parameter suffix.
pub open spec fn spec_quota_counter_key(req: QuotaRequest, rule: RateLimit, trigger: LimitTrigger, duration: u64) -> Seq<char> {
    req.namespace@ + "#"@ + req.service@ + "#"@ + req.method@ + "#"@ + rule.id@ + "#"@ + trigger.name@ + "#"@
        + crate::text::spec_decimal(duration as nat) + spec_dimension_suffix(req, trigger)
}

pub fn quota_counter_key(req: &QuotaRequest, rule: &RateLimit, trigger: &LimitTrigger, duration: u64) -> (r: String)
    ensures
        r@ == spec_quota_counter_key(*req, *rule, *trigger, duration),
{
    let mut s = req.namespace.clone();
    s.append("#");
    s.append(req.service.as_str());
    s.append("#");
    s.append(req.method.as_str());
    s.append("#");
    s.append(rule.id.as_str());
    s.append("#");
    s.append(trigger.name.as_str());
    s.append("#");
    s.append(crate::text::string_from_chars(crate::text::u64_to_decimal(duration).as_slice()).as_str());
    s.append(request_parameter_dimension_suffix(req, trigger).as_str());
    s
}

/// The key of a concurrency counter.
pub open spec fn spec_concurrency_counter_key(req: QuotaRequest, rule: RateLimit, trigger: LimitTrigger) -> Seq<char> {
    req.namespace@ + "#"@ + req.service@ + "#"@ + req.method@ + "#"@ + rule.id@ + "#"@ + trigger.name@
        + "#concurrency"@ + spec_dimension_suffix(req, trigger)
}

pub fn concurrency_counter_key(req: &QuotaRequest, rule: &RateLimit, trigger: &LimitTrigger) -> (r: String)
    ensures
        r@ == spec_concurrency_counter_key(*req, *rule, *trigger),
{
    let mut s = req.namespace.clone();
    s.append("#");
    s.append(req.service.as_str());
    s.append("#");
    s.append(req.method.as_str());
    s.append("#");
    s.append(rule.id.as_str());
    s.append("#");
    s.append(trigger.name.as_str());
    s.append("#concurrency");
    s.append(request_parameter_dimension_suffix(req, trigger).as_str());
    s
}

/// The name of an argument type in remote labels.
pub open spec fn remote_type_name(t: MatchArgumentType) -> Seq<char> {
    match t {
        MatchArgumentType::Custom => "CUSTOM"@,
        MatchArgumentType::Method => "METHOD"@,
        MatchArgumentType::Header => "HEADER"@,
        MatchArgumentType::Query => "QUERY"@,
        MatchArgumentType::CallerService => "CALLER_SERVICE"@,
        MatchArgumentType::CallerIp => "CALLER_IP"@,
        MatchArgumentType::CallerMetadata => "CALLER_METADATA"@,
    }
}

fn remote_type_name_string(t: MatchArgumentType) -> (r: String)
    ensures
        r@ == remote_type_name(t),
{
    match t {
        MatchArgumentType::Custom => String::from_str("CUSTOM"),
        MatchArgumentType::Method => String::from_str("METHOD"),
        MatchArgumentType::Header => String::from_str("HEADER"),
        MatchArgumentType::Query => String::from_str("QUERY"),
        MatchArgumentType::CallerService => String::from_str("CALLER_SERVICE"),
        MatchArgumentType::CallerIp => String::from_str("CALLER_IP"),
        MatchArgumentType::CallerMetadata => String::from_str("CALLER_METADATA"),
    }
}

/// The remote label of an argument with a value: `TYPE:value` for method and caller IP,
/// `TYPE:key:value` otherwise; the value is the request's method, or the label the argument
/// reads (named by the value for parameters with a value), empty when absent.
pub open spec fn spec_remote_label(req: QuotaRequest, argument: MatchArgument) -> Option<Seq<char>> {
    match argument.value {
        None => None,
        Some(v) => {
            let provider_key = if v.value_type == ValueType::Parameter && v.value@.len() > 0 { v.value@ } else { argument.key@ };
            let actual = if argument.arg_type == MatchArgumentType::Method {
                req.method@
            } else {
                match label_lookup(req.labels@, spec_argument_type(argument.arg_type), provider_key) {
                    Some(a) => a,
                    None => Seq::empty(),
                }
            };
            let name = remote_type_name(argument.arg_type);
            if argument.arg_type == MatchArgumentType::Method || argument.arg_type == MatchArgumentType::CallerIp {
                Some(name + ":"@ + actual)
            } else {
                Some(name + ":"@ + argument.key@ + ":"@ + actual)
            }
        },
    }
}

pub open spec fn remote_labels(req: QuotaRequest, args: Seq<MatchArgument>) -> Seq<Seq<char>>
    decreases args.len(),
{
    if args.len() == 0 {
        Seq::empty()
    } else {
        let prev = remote_labels(req, args.drop_last());
        match spec_remote_label(req, args.last()) {
            Some(l) => prev.push(l),
            None => prev,
        }
    }
}

/// Labels joined with `|`.
pub open spec fn join_bar(items: Seq<Seq<char>>) -> Seq<char>
    decreases items.len(),
{
    if items.len() == 0 {
        Seq::empty()
    } else if items.len() == 1 {
        items[0]
    } else {
        join_bar(items.drop_last()) + "|"@ + items.last()
    }
}

pub open spec fn remote_resource_name(r: LimitResource) -> Seq<char> {
    match r {
        LimitResource::Qps => "QPS"@,
        LimitResource::Token => "TOKEN"@,
        LimitResource::Concurrency => "CONCURRENCY"@,
        LimitResource::Unknown => "UNKNOWN"@,
    }
}

/// The labels quota servers share a counter under: `method|RESOURCE:name|` and the
/// arguments' labels in text order, joined by `|`.
pub open spec fn spec_remote_quota_labels(req: QuotaRequest, trigger: LimitTrigger) -> Seq<char> {
    req.method@ + "|RESOURCE:"@ + remote_resource_name(trigger.resource) + "|"@
        + join_bar(crate::textsort::sort_by_text(remote_labels(req, trigger.arguments@), |t: Seq<char>| t))
}

fn remote_label(req: &QuotaRequest, argument: &MatchArgument) -> (r: Option<String>)
    ensures
        match r {
            Some(l) => spec_remote_label(*req, *argument) == Some(l@),
            None => spec_remote_label(*req, *argument).is_none(),
        },
{
    let v = match &argument.value {
        None => return None,
        Some(v) => v,
    };
    let provider_key = if v.value_type == ValueType::Parameter && v.value.as_str().unicode_len() > 0 {
        v.value.as_str()
    } else {
        argument.key.as_str()
    };
    let actual = if argument.arg_type == MatchArgumentType::Method {
        req.method.clone()
    } else {
        match label_get(&req.labels, ratelimit_argument_type(argument.arg_type), provider_key) {
            Some(a) => a,
            None => String::new(),
        }
    };
    let mut s = remote_type_name_string(argument.arg_type);
    s.append(":");
    if argument.arg_type != MatchArgumentType::Method && argument.arg_type != MatchArgumentType::CallerIp {
        s.append(argument.key.as_str());
        s.append(":");
    }
    s.append(actual.as_str());
    Some(s)
}

/// The labels quota servers share a counter under.
pub fn remote_quota_labels(req: &QuotaRequest, trigger: &LimitTrigger) -> (r: String)
    ensures
        r@ == spec_remote_quota_labels(*req, *trigger),
{
    let ghost args = trigger.arguments@;
    let mut items: Vec<String> = Vec::new();
    let mut i: usize = 0;
    while i < trigger.arguments.len()
        invariant
            i <= args.len(),
            args == trigger.arguments@,
            items@.map_values(|x: String| x@) == remote_labels(*req, args.subrange(0, i as int)),
        decreases args.len() - i,
    {
        let ghost pre = args.subrange(0, i + 1);
        assert(pre.drop_last() =~= args.subrange(0, i as int));
        assert(pre.last() == trigger.arguments@[i as int]);
        let ghost before = items@;
        match remote_label(req, &trigger.arguments[i]) {
            Some(l) => {
                let ghost lv = l@;
                items.push(l);
                assert(items@.map_values(|x: String| x@) =~= before.map_values(|x: String| x@).push(lv));
            },
            None => {},
        }
        i = i + 1;
    }
    assert(args.subrange(0, args.len() as int) =~= args);
    let ghost iv = items@;
    let sorted = crate::textsort::stable_sort_by_text(items);
    proof {
        crate::textsort::lemma_sort_map(iv, |x: String| x@, crate::textsort::key_of::<String>(), |t: Seq<char>| t);
    }
    let ghost sv = sorted@.map_values(|x: String| x@);
    let mut joined = String::new();
    let mut k: usize = 0;
    assert(joined@ =~= join_bar(sv.subrange(0, 0)));
    while k < sorted.len()
        invariant
            k <= sorted@.len(),
            sv == sorted@.map_values(|x: String| x@),
            joined@ == join_bar(sv.subrange(0, k as int)),
        decreases sorted@.len() - k,
    {
        let ghost pre = sv.subrange(0, k + 1);
        assert(pre.drop_last() =~= sv.subrange(0, k as int));
        if k > 0 {
            joined.append("|");
        }
        joined.append(sorted[k].as_str());
        k = k + 1;
        assert(joined@ =~= join_bar(pre));
    }
    assert(sv.subrange(0, sv.len() as int) =~= sv);
    let mut out = req.method.clone();
    out.append("|RESOURCE:");
    let name = match trigger.resource {
        LimitResource::Qps => "QPS",
        LimitResource::Token => "TOKEN",
        LimitResource::Concurrency => "CONCURRENCY",
        LimitResource::Unknown => "UNKNOWN",
    };
    out.append(name);
    out.append("|");
    out.append(joined.as_str());
    out
}

} // verus!
