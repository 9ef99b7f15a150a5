//! Traffic policies: whether a request is allowed, where copies of it are mirrored, and
//! whether it is answered by a mock, with the framing of mirrored requests.

use vstd::prelude::*;
use crate::model::{
    ArgumentType, CachedRule, ErrorCode, Instance, MetadataEntry, PoleError, RouteInfo, duplicate_metadata, label_get,
    label_lookup, metadata_get, metadata_lookup,
};
use crate::plugins::router::rule::helper::{match_label_value, spec_match_label_value};
use crate::text::{
    chars_of, first_line, first_line_chars, lower_chars, lower_seq, parse_u16, slice_chars,
    spec_decimal, spec_parse_u16, spec_utf8_lossy, starts_with, starts_with_chars, string_from_chars,
    u64_to_decimal, utf8_lossy,
};
use crate::plugins::router::rule::helper::{spec_traffic_match_rule_match, traffic_match_rule_match};
use crate::priority::{IndexRef, sort_by_priority, stable_sort_by_priority};
use crate::specification::{
    Api, MirrorDestination, MirrorDestinationView, MockResponse, SourceService, TrafficMatchRule,
    TrafficMirror, TrafficMock, TrafficSecurityAction, TrafficSecurityRejectEffect,
    TrafficSecurityRule,
};
use vstd::string::StringExecFns;
use crate::traffic::ratelimit::default::duplicate_apis;
use crate::textsort::{TextKeyed, key_of, sort_by_text, stable_sort_by_text};
use crate::traffic::matcher::{ApiMatchIndex, ApiMatchInput, InputView, spec_candidates};
use crate::keyed::{find_key, key_lookup, keyed_view, lemma_key_index};
use crate::traffic::policy::req::{
    MirrorRequest, TrafficGovernanceResult, TrafficGovernanceRules, TrafficSecurityDecision,
};

verus! {

/// The four bytes of `n`, most significant first.
pub open spec fn be32(n: u32) -> Seq<u8> {
    seq![(n / 0x1000000) as u8, ((n / 0x10000) % 0x100) as u8, ((n / 0x100) % 0x100) as u8, (n % 0x100) as u8]
}

/// A gRPC message frame: not compressed, the message length in four bytes (big-endian),
/// then the message.
pub open spec fn spec_grpc_frame(message: Seq<u8>) -> Seq<u8> {
    seq![0u8] + be32(message.len() as u32) + message
}

/// Framing of a unary gRPC message body.
pub struct GrpcMirrorBody;

impl GrpcMirrorBody {
    /// Frames `message` as an uncompressed unary gRPC message.
    pub fn uncompressed_unary(message: &[u8]) -> (r: Vec<u8>)
        ensures
            r@ == spec_grpc_frame(message@),
    {
        let n: u32 = message.len() as u32;
        let mut body: Vec<u8> = Vec::new();
        body.push(0u8);
        body.push((n / 0x1000000) as u8);
        body.push(((n / 0x10000) % 0x100) as u8);
        body.push(((n / 0x100) % 0x100) as u8);
        body.push((n % 0x100) as u8);
        assert(body@ =~= seq![0u8] + be32(n));
        let ghost head = body@;
        let mut i: usize = 0;
        while i < message.len()
            invariant
                i <= message@.len(),
                body@ == head + message@.subrange(0, i as int),
            decreases message@.len() - i,
        {
            body.push(message[i]);
            i = i + 1;
            assert(body@ =~= head + message@.subrange(0, i as int));
        }
        assert(message@.subrange(0, message@.len() as int) =~= message@);
        body
    }
}

/// Whether a rule's service field admits a service: empty and `*` admit every one.
pub open spec fn spec_string_matches_service(rule_value: Seq<char>, actual: Seq<char>) -> bool {
    rule_value.len() == 0 || rule_value == "*"@ || rule_value == actual
}

pub fn string_matches_service(rule_value: &str, actual: &str) -> (r: bool)
    ensures
        r == spec_string_matches_service(rule_value@, actual@),
{
    proof {
        reveal_strlit("*");
    }
    rule_value.unicode_len() == 0 || crate::text::str_equal(rule_value, "*") || crate::text::str_equal(rule_value, actual)
}

/// Whether the caller is one a rule is limited to; a rule without caller admits every one.
pub open spec fn spec_source_service_matches(source: Option<SourceService>, info: RouteInfo) -> bool {
    match source {
        None => true,
        Some(s) => spec_string_matches_service(s.namespace@, info.caller.namespace@)
            && spec_string_matches_service(s.service@, info.caller.name@),
    }
}

pub fn source_service_matches(source: Option<&SourceService>, info: &RouteInfo) -> (r: bool)
    ensures
        r == spec_source_service_matches(match source { Some(s) => Some(*s), None => None }, *info),
{
    match source {
        None => true,
        Some(s) => string_matches_service(s.namespace.as_str(), info.caller.namespace.as_str())
            && string_matches_service(s.service.as_str(), info.caller.name.as_str()),
    }
}

/// The decision of a security policy: allowed, or denied with its reject effect.
pub open spec fn spec_security_decision(action: TrafficSecurityAction, reject_effect: Option<TrafficSecurityRejectEffect>) -> TrafficSecurityDecision {
    match action {
        TrafficSecurityAction::Allow => TrafficSecurityDecision { allowed: true, reject_effect: None },
        TrafficSecurityAction::Deny => TrafficSecurityDecision { allowed: false, reject_effect: reject_effect },
    }
}

pub fn security_decision(action: TrafficSecurityAction, reject_effect: Option<TrafficSecurityRejectEffect>) -> (r: TrafficSecurityDecision)
    ensures
        r == spec_security_decision(action, reject_effect),
{
    match action {
        TrafficSecurityAction::Allow => TrafficSecurityDecision::default(),
        TrafficSecurityAction::Deny => TrafficSecurityDecision { allowed: false, reject_effect },
    }
}

/// Whether a request meets a policy's optional traffic conditions; none means it does.
pub open spec fn spec_traffic_rule_matches(info: RouteInfo, rule: Option<TrafficMatchRule>) -> bool {
    match rule {
        None => true,
        Some(r) => spec_traffic_match_rule_match(info, r),
    }
}

pub fn traffic_rule_matches(info: &RouteInfo, rule: &Option<TrafficMatchRule>) -> (r: bool)
    ensures
        r == spec_traffic_rule_matches(*info, *rule),
{
    match rule {
        None => true,
        Some(r) => traffic_match_rule_match(info, r),
    }
}

/// The method and path a request is matched by: its method and path labels.
pub open spec fn spec_policy_input(info: RouteInfo) -> InputView {
    InputView {
        method: label_lookup(info.labels@, ArgumentType::Method, ""@),
        path: label_lookup(info.labels@, ArgumentType::Path, ""@),
    }
}

pub fn api_match_input(info: &RouteInfo) -> (r: ApiMatchInput)
    ensures
        r@ == spec_policy_input(*info),
{
    ApiMatchInput::new(label_get(&info.labels, ArgumentType::Method, ""), label_get(&info.labels, ArgumentType::Path, ""))
}

impl TextKeyed for MetadataEntry {
    open spec fn spec_text_key(&self) -> Seq<char> {
        self.key@
    }

    fn text_key(&self) -> (r: &str) {
        self.key.as_str()
    }
}

/// Keys and values of metadata entries, one after the other.
pub open spec fn flat_pairs(s: Seq<MetadataEntry>) -> Seq<Seq<char>>
    decreases s.len(),
{
    if s.len() == 0 {
        Seq::empty()
    } else {
        flat_pairs(s.drop_last()) + seq![s.last().key@, s.last().value@]
    }
}

/// What a sampling decision hashes: the salt, caller and callee, and the call's metadata
/// ordered by key.
pub open spec fn sample_parts(info: RouteInfo, salt: Seq<char>) -> Seq<Seq<char>> {
    seq![salt, info.caller.namespace@, info.caller.name@, info.callee.namespace@, info.callee.name@]
        + flat_pairs(sort_by_text(info.metadata@, key_of::<MetadataEntry>()))
}

/// The value std's `DefaultHasher` (created by `DefaultHasher::new`) finishes with after
/// hashing each text in turn.
pub uninterp spec fn spec_default_hash(parts: Seq<Seq<char>>) -> u64;

/// Hashes texts in turn with `std::collections::hash_map::DefaultHasher::new()` and
/// returns `finish()`. `DefaultHasher::new` takes no random seed, so the value is a
/// function of the texts; its algorithm is not stated here.
#[verifier::external_body]
fn default_hash(parts: &Vec<String>) -> (r: u64)
    ensures
        r == spec_default_hash(parts@.map_values(|p: String| p@)),
{
    let mut hasher = std::collections::hash_map::DefaultHasher::new();
    for part in parts.iter() {
        std::hash::Hash::hash(part.as_str(), &mut hasher);
    }
    std::hash::Hasher::finish(&hasher)
}

/// Whether a request is in a sample of `percent` per hundred, given its hash: never at
/// zero, always from a hundred up, else when the hash modulo 100 is below the percent.
pub open spec fn spec_sample_decision(percent: u32, hash: u64) -> bool {
    if percent == 0 {
        false
    } else if percent >= 100 {
        true
    } else {
        hash % 100 < percent
    }
}

pub fn sample_decision(percent: u32, hash: u64) -> (r: bool)
    ensures
        r == spec_sample_decision(percent, hash),
{
    if percent == 0 {
        return false;
    }
    if percent >= 100 {
        return true;
    }
    hash % 100 < percent as u64
}

/// Whether a request is sampled at `percent` under `salt`.
pub open spec fn spec_traffic_sample_hit(info: RouteInfo, percent: u32, salt: Seq<char>) -> bool {
    spec_sample_decision(percent, spec_default_hash(sample_parts(info, salt)))
}

proof fn lemma_flat_pairs_push(s: Seq<MetadataEntry>, e: MetadataEntry)
    ensures
        flat_pairs(s.push(e)) == flat_pairs(s) + seq![e.key@, e.value@],
{
    assert(s.push(e).drop_last() =~= s);
}

pub fn traffic_sample_hit(info: &RouteInfo, percent: u32, salt: &str) -> (r: bool)
    ensures
        r == spec_traffic_sample_hit(*info, percent, salt@),
{
    if percent == 0 {
        return false;
    }
    if percent >= 100 {
        return true;
    }
    let mut parts: Vec<String> = Vec::new();
    parts.push(salt.to_string());
    parts.push(info.caller.namespace.clone());
    parts.push(info.caller.name.clone());
    parts.push(info.callee.namespace.clone());
    parts.push(info.callee.name.clone());
    let metadata = stable_sort_by_text(duplicate_metadata(&info.metadata));
    let ghost head = parts@.map_values(|p: String| p@);
    assert(head =~= seq![salt@, info.caller.namespace@, info.caller.name@, info.callee.namespace@, info.callee.name@]);
    let mut i: usize = 0;
    while i < metadata.len()
        invariant
            i <= metadata@.len(),
            parts@.map_values(|p: String| p@) == head + flat_pairs(metadata@.subrange(0, i as int)),
        decreases metadata@.len() - i,
    {
        proof {
            lemma_flat_pairs_push(metadata@.subrange(0, i as int), metadata@[i as int]);
            assert(metadata@.subrange(0, i as int).push(metadata@[i as int]) =~= metadata@.subrange(0, i + 1));
        }
        let ghost before = parts@;
        parts.push(metadata[i].key.clone());
        parts.push(metadata[i].value.clone());
        i = i + 1;
        assert(parts@.map_values(|p: String| p@) =~= before.map_values(|p: String| p@) + seq![metadata@[i - 1].key@, metadata@[i - 1].value@]);
    }
    assert(metadata@.subrange(0, metadata@.len() as int) =~= metadata@);
    let hash = default_hash(&parts);
    sample_decision(percent, hash)
}

/// The call's metadata ordered by key, as (key, value) pairs.
pub open spec fn sorted_metadata_pairs(info: RouteInfo) -> Seq<(Seq<char>, Seq<char>)> {
    sort_by_text(info.metadata@, key_of::<MetadataEntry>()).map_values(|e: MetadataEntry| (e.key@, e.value@))
}

proof fn lemma_flat_pairs_by_pairs(a: Seq<MetadataEntry>, b: Seq<MetadataEntry>)
    requires
        a.map_values(|e: MetadataEntry| (e.key@, e.value@)) == b.map_values(|e: MetadataEntry| (e.key@, e.value@)),
    ensures
        flat_pairs(a) == flat_pairs(b),
    decreases a.len(),
{
    let f = |e: MetadataEntry| (e.key@, e.value@);
    assert(a.len() == a.map_values(f).len() && b.len() == b.map_values(f).len());
    if a.len() > 0 {
        assert(a.drop_last().map_values(f) =~= a.map_values(f).drop_last());
        assert(b.drop_last().map_values(f) =~= b.map_values(f).drop_last());
        lemma_flat_pairs_by_pairs(a.drop_last(), b.drop_last());
        assert(a.map_values(f)[a.len() - 1] == b.map_values(f)[b.len() - 1]);
    }
}

/// A sampling decision is never taken at zero percent and always from a hundred up; in
/// between it depends on nothing but the salt, the caller's and callee's namespace and
/// name, the metadata ordered by key, and the percent: two calls that agree on these are
/// sampled alike.
pub proof fn law_sample_hit_depends_only_on_names_and_sorted_metadata(
    a: RouteInfo,
    b: RouteInfo,
    percent: u32,
    salt: Seq<char>,
)
    requires
        a.caller.namespace@ == b.caller.namespace@,
        a.caller.name@ == b.caller.name@,
        a.callee.namespace@ == b.callee.namespace@,
        a.callee.name@ == b.callee.name@,
        sorted_metadata_pairs(a) == sorted_metadata_pairs(b),
    ensures
        spec_traffic_sample_hit(a, percent, salt) == spec_traffic_sample_hit(b, percent, salt),
        percent == 0 ==> !spec_traffic_sample_hit(a, percent, salt),
        percent >= 100 ==> spec_traffic_sample_hit(a, percent, salt),
{
    lemma_flat_pairs_by_pairs(
        sort_by_text(a.metadata@, key_of::<MetadataEntry>()),
        sort_by_text(b.metadata@, key_of::<MetadataEntry>()),
    );
    assert(sample_parts(a, salt) =~= sample_parts(b, salt));
}

/// Positions and priorities of security rules.
pub open spec fn security_refs(rules: Seq<TrafficSecurityRule>) -> Seq<IndexRef> {
    Seq::new(rules.len(), |i: int| IndexRef { index: i as usize, priority: rules[i].priority })
}

/// The first `k` policies of rule `r`, as (rule, policy) positions.
pub open spec fn policy_entries(rules: Seq<TrafficSecurityRule>, r: usize, k: int) -> Seq<(usize, usize)>
    decreases k,
{
    if k <= 0 {
        Seq::empty()
    } else {
        policy_entries(rules, r, k - 1).push((r, (k - 1) as usize))
    }
}

/// The policies of the enabled rules, rule after rule in the order given.
pub open spec fn security_entries(rules: Seq<TrafficSecurityRule>, refs: Seq<IndexRef>) -> Seq<(usize, usize)>
    decreases refs.len(),
{
    if refs.len() == 0 {
        Seq::empty()
    } else {
        let r = refs.last().index;
        security_entries(rules, refs.drop_last()) + if rules[r as int].enable {
            policy_entries(rules, r, rules[r as int].policies@.len() as int)
        } else {
            Seq::empty()
        }
    }
}

/// The first selected policy, in selection order, whose traffic conditions the request meets.
pub open spec fn first_security(info: RouteInfo, rules: Seq<TrafficSecurityRule>, es: Seq<(usize, usize)>, cands: Seq<usize>) -> Option<(usize, usize)>
    decreases cands.len(),
{
    if cands.len() == 0 {
        None
    } else {
        let e = es[cands[0] as int];
        if spec_traffic_rule_matches(info, rules[e.0 as int].policies@[e.1 as int].traffic_match_rule) {
            Some(e)
        } else {
            first_security(info, rules, es, cands.drop_first())
        }
    }
}

/// The security decision for a request: of the policies of enabled rules taken by
/// priority (ties in order), those whose API selectors select the request's method and
/// path, the first whose traffic conditions it meets decides; without one it is allowed.
pub open spec fn spec_evaluate_security(info: RouteInfo, rules: Seq<TrafficSecurityRule>) -> TrafficSecurityDecision {
    let es = security_entries(rules, sort_by_priority(security_refs(rules)));
    let apis = es.map_values(|e: (usize, usize)| rules[e.0 as int].policies@[e.1 as int].apis@);
    let cands = spec_candidates(spec_policy_input(info), apis, apis.len() as int);
    match first_security(info, rules, es, cands) {
        Some(e) => {
            let p = rules[e.0 as int].policies@[e.1 as int];
            spec_security_decision(p.action, p.reject_effect)
        },
        None => TrafficSecurityDecision { allowed: true, reject_effect: None },
    }
}

pub fn evaluate_security(info: &RouteInfo, rules: &Vec<TrafficSecurityRule>) -> (r: TrafficSecurityDecision)
    ensures
        r == spec_evaluate_security(*info, rules@),
{
    let mut refs: Vec<IndexRef> = Vec::new();
    let mut i: usize = 0;
    while i < rules.len()
        invariant
            i <= rules@.len(),
            refs@ == security_refs(rules@.subrange(0, i as int)),
        decreases rules@.len() - i,
    {
        refs.push(IndexRef { index: i, priority: rules[i].priority });
        i = i + 1;
        assert(refs@ =~= security_refs(rules@.subrange(0, i as int)));
    }
    assert(rules@.subrange(0, rules@.len() as int) =~= rules@);
    assert forall|k: int| 0 <= k < refs@.len() implies (#[trigger] refs@[k]).index < rules@.len() by {}
    proof {
        crate::priority::lemma_sort_keeps(refs@, |x: IndexRef| x.index < rules@.len());
    }
    let sorted = stable_sort_by_priority(refs);
    let ghost all = sorted@;
    let mut es: Vec<(usize, usize)> = Vec::new();
    let mut apis: Vec<Vec<Api>> = Vec::new();
    let mut j: usize = 0;
    assert(es@ =~= security_entries(rules@, all.subrange(0, 0)));
    while j < sorted.len()
        invariant
            j <= all.len(),
            all == sorted@,
            all == sort_by_priority(security_refs(rules@)),
            forall|k: int| 0 <= k < all.len() ==> (#[trigger] all[k]).index < rules@.len(),
            es@ == security_entries(rules@, all.subrange(0, j as int)),
            apis@.len() == es@.len(),
            forall|k: int| 0 <= k < es@.len() ==> (#[trigger] es@[k]).0 < rules@.len()
                && es@[k].1 < rules@[es@[k].0 as int].policies@.len()
                && apis@[k]@ == rules@[es@[k].0 as int].policies@[es@[k].1 as int].apis@,
        decreases all.len() - j,
    {
        let ghost pre = all.subrange(0, j + 1);
        assert(pre.drop_last() =~= all.subrange(0, j as int));
        let r = sorted[j].index;
        let ghost start = es@;
        if rules[r].enable {
            let policies = &rules[r].policies;
            let mut k: usize = 0;
            while k < policies.len()
                invariant
                    k <= policies@.len(),
                    r < rules@.len(),
                    *policies == rules@[r as int].policies,
                    es@ == start + policy_entries(rules@, r, k as int),
                    apis@.len() == es@.len(),
                    forall|t: int| 0 <= t < es@.len() ==> (#[trigger] es@[t]).0 < rules@.len()
                        && es@[t].1 < rules@[es@[t].0 as int].policies@.len()
                        && apis@[t]@ == rules@[es@[t].0 as int].policies@[es@[t].1 as int].apis@,
                decreases policies@.len() - k,
            {
                es.push((r, k));
                apis.push(duplicate_apis(&policies[k].apis));
                k = k + 1;
                assert(es@ =~= start + policy_entries(rules@, r, k as int));
            }
            assert(es@ =~= security_entries(rules@, pre));
        } else {
            assert(es@ =~= security_entries(rules@, pre));
        }
        j = j + 1;
    }
    assert(all.subrange(0, all.len() as int) =~= all);
    let ghost ev = apis@.map_values(|v: Vec<Api>| v@);
    assert(ev =~= es@.map_values(|e: (usize, usize)| rules@[e.0 as int].policies@[e.1 as int].apis@));
    let index = ApiMatchIndex::new(&apis);
    let input = api_match_input(info);
    let cands = index.candidates(&input);
    proof {
        crate::traffic::matcher::lemma_candidates_bound(input@, ev, ev.len() as int);
    }
    let ghost whole = cands@;
    let mut c: usize = 0;
    assert(whole.subrange(0, whole.len() as int) =~= whole);
    while c < cands.len()
        invariant
            c <= cands@.len(),
            whole == cands@,
            es@ == security_entries(rules@, sort_by_priority(security_refs(rules@))),
            whole == spec_candidates(
                spec_policy_input(*info),
                es@.map_values(|e: (usize, usize)| rules@[e.0 as int].policies@[e.1 as int].apis@),
                es@.len() as int,
            ),
            forall|t: int| 0 <= t < cands@.len() ==> (#[trigger] cands@[t]) < es@.len(),
            forall|t: int| 0 <= t < es@.len() ==> (#[trigger] es@[t]).0 < rules@.len()
                && es@[t].1 < rules@[es@[t].0 as int].policies@.len(),
            first_security(*info, rules@, es@, whole) == first_security(*info, rules@, es@, whole.subrange(c as int, whole.len() as int)),
        decreases cands@.len() - c,
    {
        let ghost rest = whole.subrange(c as int, whole.len() as int);
        assert(rest.drop_first() =~= whole.subrange(c + 1, whole.len() as int));
        let e = es[cands[c]];
        let policy = &rules[e.0].policies[e.1];
        if traffic_rule_matches(info, &policy.traffic_match_rule) {
            let effect = match &policy.reject_effect {
                Some(x) => Some(x.duplicate()),
                None => None,
            };
            return security_decision(policy.action, effect);
        }
        c = c + 1;
    }
    TrafficSecurityDecision::default()
}

/// Positions and priorities of mirror rules.
pub open spec fn mirror_refs(rules: Seq<TrafficMirror>) -> Seq<IndexRef> {
    Seq::new(rules.len(), |i: int| IndexRef { index: i as usize, priority: rules[i].priority })
}

/// The enabled mirrorings with a share among the first `k` of rule `r`.
pub open spec fn mirror_sub_entries(rules: Seq<TrafficMirror>, r: usize, k: int) -> Seq<(usize, usize)>
    decreases k,
{
    if k <= 0 {
        Seq::empty()
    } else {
        let prev = mirror_sub_entries(rules, r, k - 1);
        let m = rules[r as int].rules@[k - 1];
        if !m.disable && m.mirror_percent != 0 {
            prev.push((r, (k - 1) as usize))
        } else {
            prev
        }
    }
}

/// The mirrorings of the enabled rules for this caller, rule after rule in the order given.
pub open spec fn mirror_entries(info: RouteInfo, rules: Seq<TrafficMirror>, refs: Seq<IndexRef>) -> Seq<(usize, usize)>
    decreases refs.len(),
{
    if refs.len() == 0 {
        Seq::empty()
    } else {
        let r = refs.last().index;
        mirror_entries(info, rules, refs.drop_last()) + if rules[r as int].enable
            && spec_source_service_matches(rules[r as int].caller, info) {
            mirror_sub_entries(rules, r, rules[r as int].rules@.len() as int)
        } else {
            Seq::empty()
        }
    }
}

/// The sampling salt of a mirroring: caller and destination.
pub open spec fn mirror_salt(info: RouteInfo, d: MirrorDestinationView) -> Seq<char> {
    "mirror#"@ + info.caller.namespace@ + "#"@ + info.caller.name@ + "#"@ + d.namespace + "#"@ + d.service
}

/// The destinations of the selected mirrorings, in selection order, whose traffic
/// conditions the request meets and whose sample takes it.
pub open spec fn selected_mirrors(info: RouteInfo, rules: Seq<TrafficMirror>, es: Seq<(usize, usize)>, cands: Seq<usize>) -> Seq<MirrorDestinationView>
    decreases cands.len(),
{
    if cands.len() == 0 {
        Seq::empty()
    } else {
        let prev = selected_mirrors(info, rules, es, cands.drop_last());
        let e = es[cands.last() as int];
        let m = rules[e.0 as int].rules@[e.1 as int];
        if spec_traffic_rule_matches(info, m.traffic_match_rule) && m.destination is Some
            && spec_traffic_sample_hit(info, m.mirror_percent, mirror_salt(info, m.destination.unwrap()@)) {
            prev.push(m.destination.unwrap()@)
        } else {
            prev
        }
    }
}

/// Where copies of a request go: of the mirrorings of enabled rules for the caller taken by
/// priority (ties in order), not disabled and with a share, those whose API selectors
/// select the request, whose traffic conditions it meets and whose sample takes it.
pub open spec fn spec_evaluate_mirrors(info: RouteInfo, rules: Seq<TrafficMirror>) -> Seq<MirrorDestinationView> {
    let es = mirror_entries(info, rules, sort_by_priority(mirror_refs(rules)));
    let apis = es.map_values(|e: (usize, usize)| rules[e.0 as int].rules@[e.1 as int].apis@);
    let cands = spec_candidates(spec_policy_input(info), apis, apis.len() as int);
    selected_mirrors(info, rules, es, cands)
}

fn mirror_salt_of(info: &RouteInfo, d: &MirrorDestination) -> (r: String)
    ensures
        r@ == mirror_salt(*info, d@),
{
    let mut s = String::from_str("mirror#");
    s.append(info.caller.namespace.as_str());
    s.append("#");
    s.append(info.caller.name.as_str());
    s.append("#");
    s.append(d.namespace.as_str());
    s.append("#");
    s.append(d.service.as_str());
    s
}

pub fn evaluate_mirrors(info: &RouteInfo, rules: &Vec<TrafficMirror>) -> (r: Vec<MirrorDestination>)
    ensures
        r@.map_values(|d: MirrorDestination| d@) == spec_evaluate_mirrors(*info, rules@),
{
    let mut refs: Vec<IndexRef> = Vec::new();
    let mut i: usize = 0;
    while i < rules.len()
        invariant
            i <= rules@.len(),
            refs@ == mirror_refs(rules@.subrange(0, i as int)),
        decreases rules@.len() - i,
    {
        refs.push(IndexRef { index: i, priority: rules[i].priority });
        i = i + 1;
        assert(refs@ =~= mirror_refs(rules@.subrange(0, i as int)));
    }
    assert(rules@.subrange(0, rules@.len() as int) =~= rules@);
    assert forall|k: int| 0 <= k < refs@.len() implies (#[trigger] refs@[k]).index < rules@.len() by {}
    proof {
        crate::priority::lemma_sort_keeps(refs@, |x: IndexRef| x.index < rules@.len());
    }
    let sorted = stable_sort_by_priority(refs);
    let ghost all = sorted@;
    let mut es: Vec<(usize, usize)> = Vec::new();
    let mut apis: Vec<Vec<Api>> = Vec::new();
    let mut j: usize = 0;
    assert(es@ =~= mirror_entries(*info, rules@, all.subrange(0, 0)));
    while j < sorted.len()
        invariant
            j <= all.len(),
            all == sorted@,
            all == sort_by_priority(mirror_refs(rules@)),
            forall|k: int| 0 <= k < all.len() ==> (#[trigger] all[k]).index < rules@.len(),
            es@ == mirror_entries(*info, rules@, all.subrange(0, j as int)),
            apis@.len() == es@.len(),
            forall|k: int| 0 <= k < es@.len() ==> (#[trigger] es@[k]).0 < rules@.len()
                && es@[k].1 < rules@[es@[k].0 as int].rules@.len()
                && apis@[k]@ == rules@[es@[k].0 as int].rules@[es@[k].1 as int].apis@,
        decreases all.len() - j,
    {
        let ghost pre = all.subrange(0, j + 1);
        assert(pre.drop_last() =~= all.subrange(0, j as int));
        let r = sorted[j].index;
        let ghost start = es@;
        let caller = match &rules[r].caller {
            Some(c) => Some(c),
            None => None,
        };
        if rules[r].enable && source_service_matches(caller, info) {
            let subs = &rules[r].rules;
            let mut k: usize = 0;
            while k < subs.len()
                invariant
                    k <= subs@.len(),
                    r < rules@.len(),
                    *subs == rules@[r as int].rules,
                    es@ == start + mirror_sub_entries(rules@, r, k as int),
                    apis@.len() == es@.len(),
                    forall|t: int| 0 <= t < es@.len() ==> (#[trigger] es@[t]).0 < rules@.len()
                        && es@[t].1 < rules@[es@[t].0 as int].rules@.len()
                        && apis@[t]@ == rules@[es@[t].0 as int].rules@[es@[t].1 as int].apis@,
                decreases subs@.len() - k,
            {
                if !subs[k].disable && subs[k].mirror_percent != 0 {
                    es.push((r, k));
                    apis.push(duplicate_apis(&subs[k].apis));
                }
                k = k + 1;
                assert(es@ =~= start + mirror_sub_entries(rules@, r, k as int));
            }
            assert(es@ =~= mirror_entries(*info, rules@, pre));
        } else {
            assert(es@ =~= mirror_entries(*info, rules@, pre));
        }
        j = j + 1;
    }
    assert(all.subrange(0, all.len() as int) =~= all);
    let ghost ev = apis@.map_values(|v: Vec<Api>| v@);
    assert(ev =~= es@.map_values(|e: (usize, usize)| rules@[e.0 as int].rules@[e.1 as int].apis@));
    let index = ApiMatchIndex::new(&apis);
    let input = api_match_input(info);
    let cands = index.candidates(&input);
    proof {
        crate::traffic::matcher::lemma_candidates_bound(input@, ev, ev.len() as int);
    }
    let mut out: Vec<MirrorDestination> = Vec::new();
    let mut c: usize = 0;
    assert(out@.map_values(|d: MirrorDestination| d@) =~= selected_mirrors(*info, rules@, es@, cands@.subrange(0, 0)));
    while c < cands.len()
        invariant
            c <= cands@.len(),
            forall|t: int| 0 <= t < cands@.len() ==> (#[trigger] cands@[t]) < es@.len(),
            forall|t: int| 0 <= t < es@.len() ==> (#[trigger] es@[t]).0 < rules@.len()
                && es@[t].1 < rules@[es@[t].0 as int].rules@.len(),
            out@.map_values(|d: MirrorDestination| d@) == selected_mirrors(*info, rules@, es@, cands@.subrange(0, c as int)),
        decreases cands@.len() - c,
    {
        let ghost pre = cands@.subrange(0, c + 1);
        assert(pre.drop_last() =~= cands@.subrange(0, c as int));
        let e = es[cands[c]];
        let m = &rules[e.0].rules[e.1];
        let ghost before = out@;
        if traffic_rule_matches(info, &m.traffic_match_rule) {
            match &m.destination {
                Some(d) => {
                    let salt = mirror_salt_of(info, d);
                    if traffic_sample_hit(info, m.mirror_percent, salt.as_str()) {
                        out.push(d.duplicate());
                        assert(out@.map_values(|x: MirrorDestination| x@) =~= before.map_values(|x: MirrorDestination| x@).push(d@));
                    }
                },
                None => {},
            }
        }
        c = c + 1;
    }
    assert(cands@.subrange(0, cands@.len() as int) =~= cands@);
    out
}

/// Positions and priorities of mock rules.
pub open spec fn mock_refs(rules: Seq<TrafficMock>) -> Seq<IndexRef> {
    Seq::new(rules.len(), |i: int| IndexRef { index: i as usize, priority: rules[i].priority })
}

/// The enabled mocks with a share among the first `k` of rule `r`.
pub open spec fn mock_sub_entries(rules: Seq<TrafficMock>, r: usize, k: int) -> Seq<(usize, usize)>
    decreases k,
{
    if k <= 0 {
        Seq::empty()
    } else {
        let prev = mock_sub_entries(rules, r, k - 1);
        let m = rules[r as int].rules@[k - 1];
        if !m.disable && m.mock_percent != 0 {
            prev.push((r, (k - 1) as usize))
        } else {
            prev
        }
    }
}

/// The mocks of the enabled rules for this caller, rule after rule in the order given.
pub open spec fn mock_entries(info: RouteInfo, rules: Seq<TrafficMock>, refs: Seq<IndexRef>) -> Seq<(usize, usize)>
    decreases refs.len(),
{
    if refs.len() == 0 {
        Seq::empty()
    } else {
        let r = refs.last().index;
        mock_entries(info, rules, refs.drop_last()) + if rules[r as int].enable
            && spec_source_service_matches(rules[r as int].caller, info) {
            mock_sub_entries(rules, r, rules[r as int].rules@.len() as int)
        } else {
            Seq::empty()
        }
    }
}

/// The sampling salt of a mock: caller and response.
pub open spec fn mock_salt(info: RouteInfo, resp: MockResponse) -> Seq<char> {
    "mock#"@ + info.caller.namespace@ + "#"@ + info.caller.name@ + "#"@ + resp.code@ + "#"@ + resp.body@
}

/// The response of the first selected mock, in selection order, whose traffic conditions
/// the request meets and whose sample takes it.
pub open spec fn first_mock(info: RouteInfo, rules: Seq<TrafficMock>, es: Seq<(usize, usize)>, cands: Seq<usize>) -> Option<MockResponse>
    decreases cands.len(),
{
    if cands.len() == 0 {
        None
    } else {
        let e = es[cands[0] as int];
        let m = rules[e.0 as int].rules@[e.1 as int];
        if spec_traffic_rule_matches(info, m.traffic_match_rule) && m.response is Some
            && spec_traffic_sample_hit(info, m.mock_percent, mock_salt(info, m.response.unwrap())) {
            m.response
        } else {
            first_mock(info, rules, es, cands.drop_first())
        }
    }
}

/// The mock answer to a request: of the mocks of enabled rules for the caller taken by
/// priority (ties in order), not disabled and with a share, those whose API selectors
/// select the request, the first whose traffic conditions it meets and whose sample takes it.
pub open spec fn spec_evaluate_mock(info: RouteInfo, rules: Seq<TrafficMock>) -> Option<MockResponse> {
    let es = mock_entries(info, rules, sort_by_priority(mock_refs(rules)));
    let apis = es.map_values(|e: (usize, usize)| rules[e.0 as int].rules@[e.1 as int].apis@);
    let cands = spec_candidates(spec_policy_input(info), apis, apis.len() as int);
    first_mock(info, rules, es, cands)
}

fn mock_salt_of(info: &RouteInfo, resp: &MockResponse) -> (r: String)
    ensures
        r@ == mock_salt(*info, *resp),
{
    let mut s = String::from_str("mock#");
    s.append(info.caller.namespace.as_str());
    s.append("#");
    s.append(info.caller.name.as_str());
    s.append("#");
    s.append(resp.code.as_str());
    s.append("#");
    s.append(resp.body.as_str());
    s
}

pub fn evaluate_mock(info: &RouteInfo, rules: &Vec<TrafficMock>) -> (r: Option<MockResponse>)
    ensures
        r == spec_evaluate_mock(*info, rules@),
{
    let mut refs: Vec<IndexRef> = Vec::new();
    let mut i: usize = 0;
    while i < rules.len()
        invariant
            i <= rules@.len(),
            refs@ == mock_refs(rules@.subrange(0, i as int)),
        decreases rules@.len() - i,
    {
        refs.push(IndexRef { index: i, priority: rules[i].priority });
        i = i + 1;
        assert(refs@ =~= mock_refs(rules@.subrange(0, i as int)));
    }
    assert(rules@.subrange(0, rules@.len() as int) =~= rules@);
    assert forall|k: int| 0 <= k < refs@.len() implies (#[trigger] refs@[k]).index < rules@.len() by {}
    proof {
        crate::priority::lemma_sort_keeps(refs@, |x: IndexRef| x.index < rules@.len());
    }
    let sorted = stable_sort_by_priority(refs);
    let ghost all = sorted@;
    let mut es: Vec<(usize, usize)> = Vec::new();
    let mut apis: Vec<Vec<Api>> = Vec::new();
    let mut j: usize = 0;
    assert(es@ =~= mock_entries(*info, rules@, all.subrange(0, 0)));
    while j < sorted.len()
        invariant
            j <= all.len(),
            all == sorted@,
            all == sort_by_priority(mock_refs(rules@)),
            forall|k: int| 0 <= k < all.len() ==> (#[trigger] all[k]).index < rules@.len(),
            es@ == mock_entries(*info, rules@, all.subrange(0, j as int)),
            apis@.len() == es@.len(),
            forall|k: int| 0 <= k < es@.len() ==> (#[trigger] es@[k]).0 < rules@.len()
                && es@[k].1 < rules@[es@[k].0 as int].rules@.len()
                && apis@[k]@ == rules@[es@[k].0 as int].rules@[es@[k].1 as int].apis@,
        decreases all.len() - j,
    {
        let ghost pre = all.subrange(0, j + 1);
        assert(pre.drop_last() =~= all.subrange(0, j as int));
        let r = sorted[j].index;
        let ghost start = es@;
        let caller = match &rules[r].caller {
            Some(c) => Some(c),
            None => None,
        };
        if rules[r].enable && source_service_matches(caller, info) {
            let subs = &rules[r].rules;
            let mut k: usize = 0;
            while k < subs.len()
                invariant
                    k <= subs@.len(),
                    r < rules@.len(),
                    *subs == rules@[r as int].rules,
                    es@ == start + mock_sub_entries(rules@, r, k as int),
                    apis@.len() == es@.len(),
                    forall|t: int| 0 <= t < es@.len() ==> (#[trigger] es@[t]).0 < rules@.len()
                        && es@[t].1 < rules@[es@[t].0 as int].rules@.len()
                        && apis@[t]@ == rules@[es@[t].0 as int].rules@[es@[t].1 as int].apis@,
                decreases subs@.len() - k,
            {
                if !subs[k].disable && subs[k].mock_percent != 0 {
                    es.push((r, k));
                    apis.push(duplicate_apis(&subs[k].apis));
                }
                k = k + 1;
                assert(es@ =~= start + mock_sub_entries(rules@, r, k as int));
            }
            assert(es@ =~= mock_entries(*info, rules@, pre));
        } else {
            assert(es@ =~= mock_entries(*info, rules@, pre));
        }
        j = j + 1;
    }
    assert(all.subrange(0, all.len() as int) =~= all);
    let ghost ev = apis@.map_values(|v: Vec<Api>| v@);
    assert(ev =~= es@.map_values(|e: (usize, usize)| rules@[e.0 as int].rules@[e.1 as int].apis@));
    let index = ApiMatchIndex::new(&apis);
    let input = api_match_input(info);
    let cands = index.candidates(&input);
    proof {
        crate::traffic::matcher::lemma_candidates_bound(input@, ev, ev.len() as int);
    }
    let ghost whole = cands@;
    let mut c: usize = 0;
    assert(whole.subrange(0, whole.len() as int) =~= whole);
    while c < cands.len()
        invariant
            c <= cands@.len(),
            whole == cands@,
            es@ == mock_entries(*info, rules@, sort_by_priority(mock_refs(rules@))),
            whole == spec_candidates(
                spec_policy_input(*info),
                es@.map_values(|e: (usize, usize)| rules@[e.0 as int].rules@[e.1 as int].apis@),
                es@.len() as int,
            ),
            forall|t: int| 0 <= t < cands@.len() ==> (#[trigger] cands@[t]) < es@.len(),
            forall|t: int| 0 <= t < es@.len() ==> (#[trigger] es@[t]).0 < rules@.len()
                && es@[t].1 < rules@[es@[t].0 as int].rules@.len(),
            first_mock(*info, rules@, es@, whole) == first_mock(*info, rules@, es@, whole.subrange(c as int, whole.len() as int)),
        decreases cands@.len() - c,
    {
        let ghost rest = whole.subrange(c as int, whole.len() as int);
        assert(rest.drop_first() =~= whole.subrange(c + 1, whole.len() as int));
        let e = es[cands[c]];
        let m = &rules[e.0].rules[e.1];
        if traffic_rule_matches(info, &m.traffic_match_rule) {
            match &m.response {
                Some(resp) => {
                    let salt = mock_salt_of(info, resp);
                    if traffic_sample_hit(info, m.mock_percent, salt.as_str()) {
                        return Some(resp.duplicate());
                    }
                },
                None => {},
            }
        }
        c = c + 1;
    }
    None
}

/// The decisions of a service's traffic policies for a request.
pub fn evaluate_traffic_governance(info: &RouteInfo, rules: &TrafficGovernanceRules) -> (r: TrafficGovernanceResult)
    ensures
        r.security == spec_evaluate_security(*info, rules.security_rules@),
        r.mirrors@.map_values(|d: MirrorDestination| d@) == spec_evaluate_mirrors(*info, rules.mirror_rules@),
        r.mock == spec_evaluate_mock(*info, rules.mock_rules@),
{
    TrafficGovernanceResult {
        security: evaluate_security(info, &rules.security_rules),
        mirrors: evaluate_mirrors(info, &rules.mirror_rules),
        mock: evaluate_mock(info, &rules.mock_rules),
    }
}

/// Whether an instance can receive mirrored requests for a destination: it is available
/// and its metadata meets every label condition of the destination.
pub open spec fn spec_mirror_instance_matches(instance: Instance, d: MirrorDestinationView) -> bool {
    &&& instance@.available()
    &&& forall|i: int| 0 <= i < d.labels.len() ==> (match metadata_lookup(instance.metadata@, #[trigger] d.labels[i].key@) {
        Some(actual) => spec_match_label_value(d.labels[i].value, actual),
        None => false,
    })
}

pub fn mirror_instance_matches(instance: &Instance, destination: &MirrorDestination) -> (r: bool)
    ensures
        r == spec_mirror_instance_matches(*instance, destination@),
{
    if !instance.is_available() {
        return false;
    }
    let mut i: usize = 0;
    while i < destination.labels.len()
        invariant
            i <= destination.labels@.len(),
            instance@.available(),
            forall|k: int| 0 <= k < i ==> (match metadata_lookup(instance.metadata@, #[trigger] destination.labels@[k].key@) {
                Some(actual) => spec_match_label_value(destination.labels@[k].value, actual),
                None => false,
            }),
        decreases destination.labels@.len() - i,
    {
        let label = &destination.labels[i];
        let ok = match metadata_get(&instance.metadata, label.key.as_str()) {
            Some(actual) => match_label_value(&label.value, actual),
            None => false,
        };
        if !ok {
            assert(!(match metadata_lookup(instance.metadata@, destination.labels@[i as int].key@) {
                Some(actual) => spec_match_label_value(destination.labels@[i as int].value, actual),
                None => false,
            }));
            return false;
        }
        i = i + 1;
    }
    true
}

/// The base URL of an instance for a protocol: refused without an address, or when the
/// instance names another protocol (an instance without protocol takes the expected one).
pub open spec fn spec_instance_base_url(instance: Instance, expected: Seq<char>) -> Result<Seq<char>, (ErrorCode, Seq<char>)> {
    if instance.ip@.len() == 0 || instance.port == 0 {
        Err((ErrorCode::InvalidServerResponse,
            "invalid mirror destination instance address: "@ + instance.ip@ + ":"@ + spec_decimal(instance.port as nat)))
    } else {
        let protocol = if instance.protocol@.len() == 0 { expected } else { instance.protocol@ };
        if protocol != expected {
            Err((ErrorCode::ApiInvalidArgument, "unsupported mirror destination protocol: "@ + protocol))
        } else {
            Ok(expected + "://"@ + instance.ip@ + ":"@ + spec_decimal(instance.port as nat))
        }
    }
}

/// A result as values: the text, or the error's code and message.
pub open spec fn text_result(r: Result<String, PoleError>) -> Result<Seq<char>, (ErrorCode, Seq<char>)> {
    match r {
        Ok(s) => Ok(s@),
        Err(e) => Err((e.code, e.message@)),
    }
}

pub fn mirror_instance_base_url_with_protocol(instance: &Instance, expected_protocol: &str) -> (r: Result<String, PoleError>)
    ensures
        text_result(r) == spec_instance_base_url(*instance, expected_protocol@),
{
    let port = string_from_chars(u64_to_decimal(instance.port as u64).as_slice());
    if instance.ip.unicode_len() == 0 || instance.port == 0 {
        let mut m = String::from_str("invalid mirror destination instance address: ");
        m.append(instance.ip.as_str());
        m.append(":");
        m.append(port.as_str());
        return Err(PoleError::new(ErrorCode::InvalidServerResponse, m));
    }
    let protocol: &str = if instance.protocol.unicode_len() == 0 { expected_protocol } else { instance.protocol.as_str() };
    if !crate::text::str_equal(protocol, expected_protocol) {
        let mut m = String::from_str("unsupported mirror destination protocol: ");
        m.append(protocol);
        return Err(PoleError::new(ErrorCode::ApiInvalidArgument, m));
    }
    let mut url = expected_protocol.to_string();
    url.append("://");
    url.append(instance.ip.as_str());
    url.append(":");
    url.append(port.as_str());
    Ok(url)
}

pub fn mirror_instance_base_url(instance: &Instance) -> (r: Result<String, PoleError>)
    ensures
        text_result(r) == spec_instance_base_url(*instance, "http"@),
{
    mirror_instance_base_url_with_protocol(instance, "http")
}

/// The first instance, in order, that can receive mirrored requests for a destination.
pub open spec fn first_mirror_instance(instances: Seq<Instance>, d: MirrorDestinationView) -> Option<int>
    decreases instances.len(),
{
    if instances.len() == 0 {
        None
    } else if spec_mirror_instance_matches(instances[0], d) {
        Some(0)
    } else {
        match first_mirror_instance(instances.drop_first(), d) {
            Some(i) => Some(i + 1),
            None => None,
        }
    }
}

/// The base URL a destination resolves to among instances: that of the first instance
/// that can receive, else an error naming the destination.
pub open spec fn spec_resolve_from_instances(instances: Seq<Instance>, d: MirrorDestinationView, protocol: Seq<char>, missing: Seq<char>) -> Result<Seq<char>, (ErrorCode, Seq<char>)> {
    match first_mirror_instance(instances, d) {
        Some(i) => spec_instance_base_url(instances[i], protocol),
        None => Err((ErrorCode::ServiceNotFound, missing + d.namespace + "#"@ + d.service)),
    }
}

proof fn lemma_first_mirror_instance(instances: Seq<Instance>, d: MirrorDestinationView)
    ensures
        match first_mirror_instance(instances, d) {
            Some(i) => 0 <= i < instances.len() && spec_mirror_instance_matches(instances[i], d)
                && forall|k: int| 0 <= k < i ==> !spec_mirror_instance_matches(#[trigger] instances[k], d),
            None => forall|k: int| 0 <= k < instances.len() ==> !spec_mirror_instance_matches(#[trigger] instances[k], d),
        },
    decreases instances.len(),
{
    if instances.len() > 0 {
        lemma_first_mirror_instance(instances.drop_first(), d);
        assert forall|k: int| 1 <= k < instances.len() implies instances[k] == #[trigger] instances.drop_first()[k - 1] by {}
        if !spec_mirror_instance_matches(instances[0], d) {
            match first_mirror_instance(instances.drop_first(), d) {
                Some(i) => {
                    assert forall|k: int| 0 <= k < i + 1 implies !spec_mirror_instance_matches(#[trigger] instances[k], d) by {
                        if k > 0 {
                            assert(instances[k] == instances.drop_first()[k - 1]);
                        }
                    }
                },
                None => {
                    assert forall|k: int| 0 <= k < instances.len() implies !spec_mirror_instance_matches(#[trigger] instances[k], d) by {
                        if k > 0 {
                            assert(instances[k] == instances.drop_first()[k - 1]);
                        }
                    }
                },
            }
        }
    }
}

fn resolve_from_instances(instances: &Vec<Instance>, destination: &MirrorDestination, protocol: &str, missing: &str) -> (r: Result<String, PoleError>)
    ensures
        text_result(r) == spec_resolve_from_instances(instances@, destination@, protocol@, missing@),
{
    proof {
        lemma_first_mirror_instance(instances@, destination@);
    }
    let mut i: usize = 0;
    while i < instances.len()
        invariant
            i <= instances@.len(),
            forall|k: int| 0 <= k < i ==> !spec_mirror_instance_matches(#[trigger] instances@[k], destination@),
        decreases instances@.len() - i,
    {
        if mirror_instance_matches(&instances[i], destination) {
            proof {
                lemma_first_mirror_instance(instances@, destination@);
            }
            return mirror_instance_base_url_with_protocol(&instances[i], protocol);
        }
        i = i + 1;
    }
    proof {
        lemma_first_mirror_instance(instances@, destination@);
    }
    let mut m = missing.to_string();
    m.append(destination.namespace.as_str());
    m.append("#");
    m.append(destination.service.as_str());
    Err(PoleError::new(ErrorCode::ServiceNotFound, m))
}

/// The HTTP base URL of a mirror destination among the instances of its service.
pub fn resolve_http_destination(instances: &Vec<Instance>, destination: &MirrorDestination) -> (r: Result<String, PoleError>)
    ensures
        text_result(r) == spec_resolve_from_instances(instances@, destination@, "http"@, "no available mirror destination instance: "@),
{
    resolve_from_instances(instances, destination, "http", "no available mirror destination instance: ")
}

/// The gRPC base URL of a mirror destination among the instances of its service.
pub fn resolve_grpc_destination(instances: &Vec<Instance>, destination: &MirrorDestination) -> (r: Result<String, PoleError>)
    ensures
        text_result(r) == spec_resolve_from_instances(instances@, destination@, "grpc"@, "no available grpc mirror destination instance: "@),
{
    resolve_from_instances(instances, destination, "grpc", "no available grpc mirror destination instance: ")
}

/// The key a mirror destination is configured under: `namespace#service`.
pub open spec fn spec_destination_key(d: MirrorDestinationView) -> Seq<char> {
    d.namespace + "#"@ + d.service
}

pub fn destination_key(d: &MirrorDestination) -> (r: String)
    ensures
        r@ == spec_destination_key(d@),
{
    let mut k = d.namespace.clone();
    k.append("#");
    k.append(d.service.as_str());
    k
}

/// Where the base URL of a mirror destination comes from.
pub enum DestinationBaseUrl {
    /// Configured for the destination.
    Configured(String),
    /// To be resolved among the available instances of the destination service.
    FromInstances,
    /// Neither configured nor resolvable.
    NotConfigured(PoleError),
}

/// The base URL source of a destination: the configured URL under its key, else
/// resolution among instances when a resource cache is at hand, else an error.
pub open spec fn spec_destination_base_url(
    urls: Seq<(Seq<char>, String)>,
    uses_resource_cache: bool,
    d: MirrorDestinationView,
    not_configured_prefix: Seq<char>,
    r: DestinationBaseUrl,
) -> bool {
    match key_lookup(urls, spec_destination_key(d)) {
        Some(u) => r matches DestinationBaseUrl::Configured(x) && x@ == u@,
        None => if uses_resource_cache {
            r is FromInstances
        } else {
            r matches DestinationBaseUrl::NotConfigured(e) && e.code == ErrorCode::ServiceNotFound
                && e.message@ == not_configured_prefix + spec_destination_key(d) + " is not configured"@
        },
    }
}

fn lookup_base_url(urls: &Vec<(String, String)>, uses_resource_cache: bool, d: &MirrorDestination, not_configured_prefix: &str) -> (r: DestinationBaseUrl)
    ensures
        spec_destination_base_url(keyed_view(urls@), uses_resource_cache, d@, not_configured_prefix@, r),
{
    let key = destination_key(d);
    proof {
        lemma_key_index(keyed_view(urls@), key@);
    }
    match find_key(urls, key.as_str()) {
        Some(j) => DestinationBaseUrl::Configured(urls[j].1.clone()),
        None => {
            if uses_resource_cache {
                DestinationBaseUrl::FromInstances
            } else {
                let mut m = not_configured_prefix.to_string();
                m.append(key.as_str());
                m.append(" is not configured");
                DestinationBaseUrl::NotConfigured(PoleError::new(ErrorCode::ServiceNotFound, m))
            }
        },
    }
}

/// Sends mirrored requests over HTTP/1.1 to configured base URLs, or to instances of the
/// destination service found through the resource cache.
pub struct HttpMirrorSender {
    pub destination_base_urls: Vec<(String, String)>,
    pub uses_resource_cache: bool,
    pub timeout_ms: u64,
}

impl HttpMirrorSender {
    /// A sender to the configured base URLs, keyed `namespace#service`.
    pub fn new(destination_base_urls: Vec<(String, String)>, timeout_ms: u64) -> (r: HttpMirrorSender)
        ensures
            r.destination_base_urls@ == destination_base_urls@,
            !r.uses_resource_cache,
            r.timeout_ms == timeout_ms,
    {
        HttpMirrorSender { destination_base_urls, uses_resource_cache: false, timeout_ms }
    }

    /// A sender that finds destinations among service instances.
    pub fn with_resource_cache(timeout_ms: u64) -> (r: HttpMirrorSender)
        ensures
            r.destination_base_urls@.len() == 0,
            r.uses_resource_cache,
            r.timeout_ms == timeout_ms,
    {
        HttpMirrorSender { destination_base_urls: Vec::new(), uses_resource_cache: true, timeout_ms }
    }

    pub fn destination_base_url(&self, d: &MirrorDestination) -> (r: DestinationBaseUrl)
        ensures
            spec_destination_base_url(keyed_view(self.destination_base_urls@), self.uses_resource_cache, d@, "mirror destination "@, r),
    {
        lookup_base_url(&self.destination_base_urls, self.uses_resource_cache, d, "mirror destination ")
    }

    /// The error of a send that did not finish in time.
    pub fn timeout_error(&self, d: &MirrorDestination) -> (r: PoleError)
        ensures
            r.code == ErrorCode::ServerError,
            r.message@ == "mirror destination "@ + spec_destination_key(d@) + " timed out"@,
    {
        let mut m = String::from_str("mirror destination ");
        m.append(destination_key(d).as_str());
        m.append(" timed out");
        PoleError::new(ErrorCode::ServerError, m)
    }
}

/// Sends mirrored requests as unary gRPC calls over HTTP/2 to configured base URLs, or to
/// instances of the destination service found through the resource cache.
pub struct GrpcMirrorSender {
    pub destination_base_urls: Vec<(String, String)>,
    pub uses_resource_cache: bool,
    pub timeout_ms: u64,
}

impl GrpcMirrorSender {
    /// A sender to the configured base URLs, keyed `namespace#service`.
    pub fn new(destination_base_urls: Vec<(String, String)>, timeout_ms: u64) -> (r: GrpcMirrorSender)
        ensures
            r.destination_base_urls@ == destination_base_urls@,
            !r.uses_resource_cache,
            r.timeout_ms == timeout_ms,
    {
        GrpcMirrorSender { destination_base_urls, uses_resource_cache: false, timeout_ms }
    }

    /// A sender that finds destinations among service instances.
    pub fn with_resource_cache(timeout_ms: u64) -> (r: GrpcMirrorSender)
        ensures
            r.destination_base_urls@.len() == 0,
            r.uses_resource_cache,
            r.timeout_ms == timeout_ms,
    {
        GrpcMirrorSender { destination_base_urls: Vec::new(), uses_resource_cache: true, timeout_ms }
    }

    pub fn destination_base_url(&self, d: &MirrorDestination) -> (r: DestinationBaseUrl)
        ensures
            spec_destination_base_url(keyed_view(self.destination_base_urls@), self.uses_resource_cache, d@, "grpc mirror destination "@, r),
    {
        lookup_base_url(&self.destination_base_urls, self.uses_resource_cache, d, "grpc mirror destination ")
    }

    /// The error of a send that did not finish in time.
    pub fn timeout_error(&self, d: &MirrorDestination) -> (r: PoleError)
        ensures
            r.code == ErrorCode::ServerError,
            r.message@ == "grpc mirror destination "@ + spec_destination_key(d@) + " timed out"@,
    {
        let mut m = String::from_str("grpc mirror destination ");
        m.append(destination_key(d).as_str());
        m.append(" timed out");
        PoleError::new(ErrorCode::ServerError, m)
    }
}

/// A text without its trailing slashes.
pub open spec fn trim_trailing_slashes(s: Seq<char>) -> Seq<char>
    decreases s.len(),
{
    if s.len() > 0 && s.last() == '/' {
        trim_trailing_slashes(s.drop_last())
    } else {
        s
    }
}

/// The position of the last colon.
pub open spec fn last_colon(s: Seq<char>) -> Option<int>
    decreases s.len(),
{
    if s.len() == 0 {
        None
    } else if s.last() == ':' {
        Some(s.len() - 1)
    } else {
        last_colon(s.drop_last())
    }
}

/// What is wrong with a destination address.
#[derive(Clone, Copy, Debug, PartialEq, Eq, Structural)]
pub enum AddressError {
    Port,
    Host,
}

/// Host and port of an address (trailing slashes dropped): split at the last colon, the
/// port read as a `u16`; port 80 without a colon; the host must not be empty.
pub open spec fn spec_parse_address(address: Seq<char>) -> Result<(Seq<char>, u16), AddressError> {
    let a = trim_trailing_slashes(address);
    match last_colon(a) {
        Some(i) => match spec_parse_u16(a.skip(i + 1)) {
            None => Err(AddressError::Port),
            Some(p) => if i == 0 { Err(AddressError::Host) } else { Ok((a.take(i), p)) },
        },
        None => if a.len() == 0 { Err(AddressError::Host) } else { Ok((a, 80u16)) },
    }
}

proof fn lemma_last_colon(s: Seq<char>)
    ensures
        match last_colon(s) {
            Some(i) => 0 <= i < s.len() && s[i] == ':' && forall|k: int| i < k < s.len() ==> s[k] != ':',
            None => forall|k: int| 0 <= k < s.len() ==> s[k] != ':',
        },
    decreases s.len(),
{
    if s.len() > 0 && s.last() != ':' {
        let d = s.drop_last();
        lemma_last_colon(d);
        match last_colon(d) {
            Some(i) => {
                assert forall|k: int| i < k < s.len() implies s[k] != ':' by {
                    if k < s.len() - 1 {
                        assert(s[k] == d[k]);
                    }
                }
            },
            None => {
                assert forall|k: int| 0 <= k < s.len() implies s[k] != ':' by {
                    if k < s.len() - 1 {
                        assert(s[k] == d[k]);
                    }
                }
            },
        }
    }
}

fn parse_address(address: &Vec<char>) -> (r: Result<(Vec<char>, u16), AddressError>)
    ensures
        match spec_parse_address(address@) {
            Ok((h, p)) => r matches Ok((host, port)) && host@ == h && port == p,
            Err(e) => r == Err::<(Vec<char>, u16), AddressError>(e),
        },
{
    let mut end: usize = address.len();
    assert(address@.subrange(0, end as int) =~= address@);
    while end > 0 && address[end - 1] == '/'
        invariant
            end <= address@.len(),
            trim_trailing_slashes(address@) == trim_trailing_slashes(address@.subrange(0, end as int)),
        decreases end,
    {
        assert(address@.subrange(0, end as int).drop_last() =~= address@.subrange(0, end - 1));
        end = end - 1;
    }
    let a = slice_chars(address, 0, end);
    assert(a@ == trim_trailing_slashes(address@));
    proof {
        lemma_last_colon(a@);
    }
    let mut c: usize = a.len();
    while c > 0 && a[c - 1] != ':'
        invariant
            c <= a@.len(),
            forall|k: int| c <= k < a@.len() ==> a@[k] != ':',
        decreases c,
    {
        c = c - 1;
    }
    if c == 0 {
        proof {
            match last_colon(a@) {
                Some(i) => { assert(a@[i] != ':'); },
                None => {},
            }
        }
        if a.len() == 0 {
            return Err(AddressError::Host);
        }
        return Ok((a, 80u16));
    }
    let i: usize = c - 1;
    proof {
        match last_colon(a@) {
            Some(j) => {
                if j < i { assert(a@[i as int] == ':'); }
                if j > i { assert(a@[j] != ':'); }
            },
            None => { assert(a@[i as int] == ':'); },
        }
    }
    let digits = slice_chars(&a, i + 1, a.len());
    assert(digits@ =~= a@.skip(i + 1));
    match parse_u16(&digits) {
        None => Err(AddressError::Port),
        Some(p) => {
            if i == 0 {
                return Err(AddressError::Host);
            }
            let host = slice_chars(&a, 0, i);
            assert(host@ =~= a@.take(i as int));
            Ok((host, p))
        },
    }
}

/// Host and port of a mirror destination.
pub struct MirrorTarget {
    pub host: String,
    pub port: u16,
}

/// An HTTP mirror base URL read: `http://` and an address.
pub open spec fn spec_parse_http_base_url(base: Seq<char>) -> Result<(Seq<char>, u16), (ErrorCode, Seq<char>)> {
    if !starts_with(base, "http://"@) {
        Err((ErrorCode::ApiInvalidArgument, "only http mirror destination is supported: "@ + base))
    } else {
        match spec_parse_address(base.skip(7)) {
            Ok(t) => Ok(t),
            Err(AddressError::Port) => Err((ErrorCode::ApiInvalidArgument, "invalid mirror destination port: "@ + base)),
            Err(AddressError::Host) => Err((ErrorCode::ApiInvalidArgument, "invalid mirror destination host: "@ + base)),
        }
    }
}

/// A gRPC mirror base URL read: `grpc://` or `http://`, and an address.
pub open spec fn spec_parse_grpc_base_url(base: Seq<char>) -> Result<(Seq<char>, u16), (ErrorCode, Seq<char>)> {
    if !starts_with(base, "grpc://"@) && !starts_with(base, "http://"@) {
        Err((ErrorCode::ApiInvalidArgument, "only grpc mirror destination is supported: "@ + base))
    } else {
        match spec_parse_address(base.skip(7)) {
            Ok(t) => Ok(t),
            Err(AddressError::Port) => Err((ErrorCode::ApiInvalidArgument, "invalid grpc mirror destination port: "@ + base)),
            Err(AddressError::Host) => Err((ErrorCode::ApiInvalidArgument, "invalid grpc mirror destination host: "@ + base)),
        }
    }
}

/// A parse result as values.
pub open spec fn target_result(r: Result<MirrorTarget, PoleError>) -> Result<(Seq<char>, u16), (ErrorCode, Seq<char>)> {
    match r {
        Ok(t) => Ok((t.host@, t.port)),
        Err(e) => Err((e.code, e.message@)),
    }
}

fn target_from(base: &str, address: &Vec<char>, port_message: &str, host_message: &str) -> (r: Result<MirrorTarget, PoleError>)
    ensures
        target_result(r) == match spec_parse_address(address@) {
            Ok(t) => Ok(t),
            Err(AddressError::Port) => Err((ErrorCode::ApiInvalidArgument, port_message@ + base@)),
            Err(AddressError::Host) => Err((ErrorCode::ApiInvalidArgument, host_message@ + base@)),
        },
{
    match parse_address(address) {
        Ok((host, port)) => Ok(MirrorTarget { host: string_from_chars(host.as_slice()), port }),
        Err(AddressError::Port) => {
            let mut m = port_message.to_string();
            m.append(base);
            Err(PoleError::new(ErrorCode::ApiInvalidArgument, m))
        },
        Err(AddressError::Host) => {
            let mut m = host_message.to_string();
            m.append(base);
            Err(PoleError::new(ErrorCode::ApiInvalidArgument, m))
        },
    }
}

pub fn parse_http_base_url(base_url: &str) -> (r: Result<MirrorTarget, PoleError>)
    ensures
        target_result(r) == spec_parse_http_base_url(base_url@),
{
    proof {
        reveal_strlit("http://");
    }
    let chars = chars_of(base_url);
    let prefix = chars_of("http://");
    if !starts_with_chars(&chars, &prefix) {
        let mut m = String::from_str("only http mirror destination is supported: ");
        m.append(base_url);
        return Err(PoleError::new(ErrorCode::ApiInvalidArgument, m));
    }
    let address = slice_chars(&chars, 7, chars.len());
    assert(address@ =~= base_url@.skip(7));
    target_from(base_url, &address, "invalid mirror destination port: ", "invalid mirror destination host: ")
}

pub fn parse_grpc_base_url(base_url: &str) -> (r: Result<MirrorTarget, PoleError>)
    ensures
        target_result(r) == spec_parse_grpc_base_url(base_url@),
{
    proof {
        reveal_strlit("grpc://");
        reveal_strlit("http://");
    }
    let chars = chars_of(base_url);
    if !starts_with_chars(&chars, &chars_of("grpc://")) && !starts_with_chars(&chars, &chars_of("http://")) {
        let mut m = String::from_str("only grpc mirror destination is supported: ");
        m.append(base_url);
        return Err(PoleError::new(ErrorCode::ApiInvalidArgument, m));
    }
    let address = slice_chars(&chars, 7, chars.len());
    assert(address@ =~= base_url@.skip(7));
    target_from(base_url, &address, "invalid grpc mirror destination port: ", "invalid grpc mirror destination host: ")
}

/// The request path, `/` when none is given.
pub open spec fn request_path(path: Seq<char>) -> Seq<char> {
    if path.len() == 0 { "/"@ } else { path }
}

/// Header lines `key: value` with CRLF, in order.
pub open spec fn header_lines(hs: Seq<MetadataEntry>) -> Seq<char>
    decreases hs.len(),
{
    if hs.len() == 0 {
        Seq::empty()
    } else {
        header_lines(hs.drop_last()) + hs.last().key@ + ": "@ + hs.last().value@ + "\r\n"@
    }
}

/// The head of a mirrored HTTP/1.1 request: request line, host, content length, closing
/// connection, the request's headers and the blank line; the body follows it.
pub open spec fn spec_http_request_head(host: Seq<char>, request: MirrorRequest) -> Seq<char> {
    request.method@ + " "@ + request_path(request.path@) + " HTTP/1.1\r\nhost: "@ + host
        + "\r\ncontent-length: "@ + spec_decimal(request.body@.len()) + "\r\nconnection: close\r\n"@
        + header_lines(request.headers@) + "\r\n"@
}

fn path_or_root(path: &String) -> (r: &str)
    ensures
        r@ == request_path(path@),
{
    if path.unicode_len() == 0 { "/" } else { path.as_str() }
}

pub fn http_mirror_request_head(target: &MirrorTarget, request: &MirrorRequest) -> (r: String)
    ensures
        r@ == spec_http_request_head(target.host@, *request),
{
    let mut head = request.method.clone();
    head.append(" ");
    head.append(path_or_root(&request.path));
    head.append(" HTTP/1.1\r\nhost: ");
    head.append(target.host.as_str());
    head.append("\r\ncontent-length: ");
    head.append(string_from_chars(u64_to_decimal(request.body.len() as u64).as_slice()).as_str());
    head.append("\r\nconnection: close\r\n");
    let ghost start = head@;
    let mut i: usize = 0;
    while i < request.headers.len()
        invariant
            i <= request.headers@.len(),
            head@ == start + header_lines(request.headers@.subrange(0, i as int)),
        decreases request.headers@.len() - i,
    {
        let ghost pre = request.headers@.subrange(0, i + 1);
        assert(pre.drop_last() =~= request.headers@.subrange(0, i as int));
        head.append(request.headers[i].key.as_str());
        head.append(": ");
        head.append(request.headers[i].value.as_str());
        head.append("\r\n");
        i = i + 1;
    }
    assert(request.headers@.subrange(0, request.headers@.len() as int) =~= request.headers@);
    head.append("\r\n");
    head
}

/// The answer of a mirror destination read as text: accepted when its status line is
/// HTTP/1.1 2xx or 3xx, else refused with its first line.
pub open spec fn spec_http_mirror_status(text: Seq<char>) -> Result<(), (ErrorCode, Seq<char>)> {
    if starts_with(text, "HTTP/1.1 2"@) || starts_with(text, "HTTP/1.1 3"@) {
        Ok(())
    } else {
        Err((ErrorCode::InvalidServerResponse, "mirror destination returned "@ + first_line(text)))
    }
}

/// A unit result as values.
pub open spec fn unit_result(r: Result<(), PoleError>) -> Result<(), (ErrorCode, Seq<char>)> {
    match r {
        Ok(()) => Ok(()),
        Err(e) => Err((e.code, e.message@)),
    }
}

pub fn check_http_mirror_status(text: &str) -> (r: Result<(), PoleError>)
    ensures
        unit_result(r) == spec_http_mirror_status(text@),
{
    let chars = chars_of(text);
    if starts_with_chars(&chars, &chars_of("HTTP/1.1 2")) || starts_with_chars(&chars, &chars_of("HTTP/1.1 3")) {
        return Ok(());
    }
    let mut m = String::from_str("mirror destination returned ");
    m.append(string_from_chars(first_line_chars(&chars).as_slice()).as_str());
    Err(PoleError::new(ErrorCode::InvalidServerResponse, m))
}

/// The first bytes a mirror destination answered: refused when empty, else judged by
/// their text (invalid UTF-8 replaced).
pub open spec fn spec_http_mirror_response(bytes: Seq<u8>) -> Result<(), (ErrorCode, Seq<char>)> {
    if bytes.len() == 0 {
        Err((ErrorCode::InvalidServerResponse, "empty mirror response"@))
    } else {
        spec_http_mirror_status(spec_utf8_lossy(bytes))
    }
}

pub fn check_http_mirror_response(response: &[u8]) -> (r: Result<(), PoleError>)
    ensures
        unit_result(r) == spec_http_mirror_response(response@),
{
    if response.len() == 0 {
        return Err(PoleError::new(ErrorCode::InvalidServerResponse, String::from_str("empty mirror response")));
    }
    check_http_mirror_status(utf8_lossy(response).as_str())
}

/// A character allowed in a header name: a token character of HTTP (upper case letters
/// are taken, as their lower case).
pub open spec fn header_name_char_ok(c: char) -> bool {
    let n = c as u32;
    n == 33 || (35 <= n && n <= 39) || n == 42 || n == 43 || n == 45 || n == 46
        || (48 <= n && n <= 57) || (65 <= n && n <= 90) || (94 <= n && n <= 122) || n == 124 || n == 126
}

/// Whether `http::header::HeaderName::from_bytes` accepts a name: at least one and at most
/// 65535 characters, each a token character.
pub open spec fn spec_header_name_ok(name: Seq<char>) -> bool {
    &&& 1 <= name.len() <= 65535
    &&& forall|i: int| 0 <= i < name.len() ==> header_name_char_ok(#[trigger] name[i])
}

/// `http::header::HeaderName::from_bytes` on the UTF-8 bytes of `name`: accepted exactly
/// when there are 1 to 65535 bytes and each maps to a token character in http's table (a
/// character beyond ASCII never does, so then bytes and characters coincide).
#[verifier::external_body]
fn header_name_ok(name: &str) -> (r: bool)
    ensures
        r == spec_header_name_ok(name@),
{
    http::header::HeaderName::from_bytes(name.as_bytes()).is_ok()
}

/// A character `http::header::HeaderValue::from_str` accepts: tab, or not a control
/// character (a character beyond ASCII is encoded in bytes from 0x80 up, all accepted).
pub open spec fn header_value_char_ok(c: char) -> bool {
    (c as u32) == 9 || ((c as u32) >= 32 && (c as u32) != 127)
}

/// `http::header::HeaderValue::from_str`: accepted exactly when every byte is a tab or at
/// least 32 and not 127.
#[verifier::external_body]
fn header_value_ok(value: &str) -> (r: bool)
    ensures
        r == forall|i: int| 0 <= i < value@.len() ==> header_value_char_ok(#[trigger] value@[i]),
{
    http::header::HeaderValue::from_str(value).is_ok()
}

/// The message `http::Uri` parsing reports for a text it refuses; none when it parses.
pub uninterp spec fn spec_uri_error(uri: Seq<char>) -> Option<Seq<char>>;

/// Parses a URI with `http::Uri::try_from`: none when it parses, else the error's text.
#[verifier::external_body]
fn uri_error(uri: &str) -> (r: Option<String>)
    ensures
        match r {
            None => spec_uri_error(uri@).is_none(),
            Some(m) => spec_uri_error(uri@) == Some(m@),
        },
{
    match http::Uri::try_from(uri) {
        Ok(_) => None,
        Err(e) => Some(e.to_string()),
    }
}

/// Request headers that the gRPC framing sets itself and that are not copied.
pub open spec fn grpc_reserved_header(key: Seq<char>) -> bool {
    let k = lower_seq(key);
    k == "content-type"@ || k == "content-length"@ || k == "connection"@ || k == "te"@
}

/// The request headers a mirrored gRPC call carries, in order, reserved ones left out;
/// refused at the first header whose name or value HTTP does not accept.
pub open spec fn spec_grpc_headers(hs: Seq<MetadataEntry>) -> Result<Seq<(Seq<char>, Seq<char>)>, (ErrorCode, Seq<char>)>
    decreases hs.len(),
{
    if hs.len() == 0 {
        Ok(Seq::empty())
    } else {
        match spec_grpc_headers(hs.drop_last()) {
            Err(e) => Err(e),
            Ok(prev) => {
                let h = hs.last();
                if grpc_reserved_header(h.key@) {
                    Ok(prev)
                } else if !spec_header_name_ok(h.key@) {
                    Err((ErrorCode::ApiInvalidArgument, "invalid grpc mirror header name "@ + h.key@ + ": invalid HTTP header name"@))
                } else if !(forall|i: int| 0 <= i < h.value@.len() ==> header_value_char_ok(#[trigger] h.value@[i])) {
                    Err((ErrorCode::ApiInvalidArgument, "invalid grpc mirror header value "@ + h.key@ + ": failed to parse header value"@))
                } else {
                    Ok(prev.push((h.key@, h.value@)))
                }
            },
        }
    }
}

/// The URI of a mirrored gRPC call.
pub open spec fn spec_grpc_uri(host: Seq<char>, port: u16, path: Seq<char>) -> Seq<char> {
    "http://"@ + host + ":"@ + spec_decimal(port as nat) + request_path(path)
}

/// A mirrored gRPC call as it is sent: POST to this URI with these headers, the body as given.
pub struct GrpcMirrorPlan {
    pub uri: String,
    pub headers: Vec<(String, String)>,
}

/// The headers and URI of a mirrored gRPC call: `te: trailers` and the gRPC content type,
/// then the copied headers; refused for a header HTTP does not accept, then for a URI it
/// does not parse.
pub open spec fn spec_grpc_plan(host: Seq<char>, port: u16, request: MirrorRequest) -> Result<(Seq<char>, Seq<(Seq<char>, Seq<char>)>), (ErrorCode, Seq<char>)> {
    match spec_grpc_headers(request.headers@) {
        Err(e) => Err(e),
        Ok(hs) => {
            let uri = spec_grpc_uri(host, port, request.path@);
            match spec_uri_error(uri) {
                Some(m) => Err((ErrorCode::ApiInvalidArgument, "invalid grpc mirror request: "@ + m)),
                None => Ok((uri, seq![("te"@, "trailers"@), ("content-type"@, "application/grpc"@)] + hs)),
            }
        },
    }
}

pub open spec fn pair_views(s: Seq<(String, String)>) -> Seq<(Seq<char>, Seq<char>)> {
    s.map_values(|p: (String, String)| (p.0@, p.1@))
}

pub open spec fn plan_result(r: Result<GrpcMirrorPlan, PoleError>) -> Result<(Seq<char>, Seq<(Seq<char>, Seq<char>)>), (ErrorCode, Seq<char>)> {
    match r {
        Ok(p) => Ok((p.uri@, pair_views(p.headers@))),
        Err(e) => Err((e.code, e.message@)),
    }
}

fn is_reserved_header(key: &str) -> (r: bool)
    ensures
        r == grpc_reserved_header(key@),
{
    let k = string_from_chars(lower_chars(&chars_of(key)).as_slice());
    crate::text::str_equal(k.as_str(), "content-type") || crate::text::str_equal(k.as_str(), "content-length")
        || crate::text::str_equal(k.as_str(), "connection") || crate::text::str_equal(k.as_str(), "te")
}

pub fn grpc_mirror_request_plan(target: &MirrorTarget, request: &MirrorRequest) -> (r: Result<GrpcMirrorPlan, PoleError>)
    ensures
        plan_result(r) == spec_grpc_plan(target.host@, target.port, *request),
{
    let mut headers: Vec<(String, String)> = Vec::new();
    headers.push((String::from_str("te"), String::from_str("trailers")));
    headers.push((String::from_str("content-type"), String::from_str("application/grpc")));
    let ghost fixed = pair_views(headers@);
    assert(fixed =~= seq![("te"@, "trailers"@), ("content-type"@, "application/grpc"@)]);
    let mut i: usize = 0;
    assert(request.headers@.subrange(0, 0) =~= Seq::<MetadataEntry>::empty());
    assert(pair_views(headers@) =~= fixed + Seq::<(Seq<char>, Seq<char>)>::empty());
    while i < request.headers.len()
        invariant
            i <= request.headers@.len(),
            spec_grpc_headers(request.headers@.subrange(0, i as int)) matches Ok(hs) && pair_views(headers@) == fixed + hs,
        decreases request.headers@.len() - i,
    {
        let ghost pre = request.headers@.subrange(0, i + 1);
        assert(pre.drop_last() =~= request.headers@.subrange(0, i as int));
        let h = &request.headers[i];
        assert(pre.last() == *h);
        if !is_reserved_header(h.key.as_str()) {
            if !header_name_ok(h.key.as_str()) {
                proof {
                    lemma_grpc_headers_err(request.headers@, i + 1);
                }
                let mut m = String::from_str("invalid grpc mirror header name ");
                m.append(h.key.as_str());
                m.append(": invalid HTTP header name");
                return Err(PoleError::new(ErrorCode::ApiInvalidArgument, m));
            }
            if !header_value_ok(h.value.as_str()) {
                proof {
                    lemma_grpc_headers_err(request.headers@, i + 1);
                }
                let mut m = String::from_str("invalid grpc mirror header value ");
                m.append(h.key.as_str());
                m.append(": failed to parse header value");
                return Err(PoleError::new(ErrorCode::ApiInvalidArgument, m));
            }
            let ghost before = headers@;
            let key = h.key.clone();
            let value = h.value.clone();
            headers.push((key, value));
            assert(pair_views(headers@) =~= pair_views(before).push((h.key@, h.value@)));
        }
        i = i + 1;
    }
    assert(request.headers@.subrange(0, request.headers@.len() as int) =~= request.headers@);
    let mut uri = String::from_str("http://");
    uri.append(target.host.as_str());
    uri.append(":");
    uri.append(string_from_chars(u64_to_decimal(target.port as u64).as_slice()).as_str());
    uri.append(path_or_root(&request.path));
    if let Some(m) = uri_error(uri.as_str()) {
        let mut msg = String::from_str("invalid grpc mirror request: ");
        msg.append(m.as_str());
        return Err(PoleError::new(ErrorCode::ApiInvalidArgument, msg));
    }
    Ok(GrpcMirrorPlan { uri, headers })
}

proof fn lemma_grpc_headers_err(hs: Seq<MetadataEntry>, n: int)
    requires
        0 <= n <= hs.len(),
        spec_grpc_headers(hs.subrange(0, n)) is Err,
    ensures
        spec_grpc_headers(hs) == spec_grpc_headers(hs.subrange(0, n)),
    decreases hs.len() - n,
{
    if n == hs.len() {
        assert(hs.subrange(0, n) =~= hs);
    } else {
        let pre = hs.subrange(0, n + 1);
        assert(pre.drop_last() =~= hs.subrange(0, n));
        lemma_grpc_headers_err(hs, n + 1);
    }
}

/// The canonical reason phrase `http::StatusCode` gives a status code.
pub uninterp spec fn spec_canonical_reason(code: u16) -> Option<Seq<char>>;

/// `http::StatusCode::canonical_reason` of a code from 100 to 999 (the range
/// `StatusCode::from_u16` accepts). The name states the phrase; the table is http's.
#[verifier::external_body]
fn canonical_reason(code: u16) -> (r: Option<String>)
    requires
        100 <= code <= 999,
    ensures
        match r {
            None => spec_canonical_reason(code).is_none(),
            Some(s) => spec_canonical_reason(code) == Some(s@),
        },
{
    match http::StatusCode::from_u16(code) {
        Ok(status) => status.canonical_reason().map(String::from),
        Err(_) => None,
    }
}

/// The answer status of a mirrored gRPC call: accepted for 2xx and 3xx, else refused with
/// the status as http writes it (code and reason phrase).
pub open spec fn spec_grpc_mirror_status(code: u16) -> Result<(), (ErrorCode, Seq<char>)> {
    if 200 <= code < 400 {
        Ok(())
    } else {
        Err((ErrorCode::InvalidServerResponse, "grpc mirror destination returned "@ + spec_decimal(code as nat) + " "@
            + match spec_canonical_reason(code) { Some(r) => r, None => "<unknown status code>"@ }))
    }
}

pub fn check_grpc_mirror_status(code: u16) -> (r: Result<(), PoleError>)
    requires
        100 <= code <= 999,
    ensures
        unit_result(r) == spec_grpc_mirror_status(code),
{
    if 200 <= code && code < 400 {
        return Ok(());
    }
    let mut m = String::from_str("grpc mirror destination returned ");
    m.append(string_from_chars(u64_to_decimal(code as u64).as_slice()).as_str());
    m.append(" ");
    match canonical_reason(code) {
        Some(r) => m.append(r.as_str()),
        None => m.append("<unknown status code>"),
    }
    Err(PoleError::new(ErrorCode::InvalidServerResponse, m))
}

/// The security rules of cached rules; any other rule is an error.
pub open spec fn spec_security_rules(rules: Seq<CachedRule>) -> Option<Seq<TrafficSecurityRule>>
    decreases rules.len(),
{
    if rules.len() == 0 {
        Some(Seq::empty())
    } else {
        match (spec_security_rules(rules.drop_last()), rules.last()) {
            (Some(prev), CachedRule::TrafficSecurity(r)) => Some(prev.push(r)),
            _ => None,
        }
    }
}

proof fn lemma_security_rules_prefix(rules: Seq<CachedRule>, n: int)
    requires
        0 <= n <= rules.len(),
        spec_security_rules(rules.subrange(0, n)).is_none(),
    ensures
        spec_security_rules(rules).is_none(),
    decreases rules.len() - n,
{
    if n < rules.len() {
        let pre = rules.subrange(0, n + 1);
        assert(pre.drop_last() =~= rules.subrange(0, n));
        lemma_security_rules_prefix(rules, n + 1);
    } else {
        assert(rules.subrange(0, n) =~= rules);
    }
}

fn security_rules_from_cached(rules: Vec<CachedRule>) -> (r: Result<Vec<TrafficSecurityRule>, PoleError>)
    ensures
        match spec_security_rules(rules@) {
            Some(v) => r matches Ok(out) && out@ == v,
            None => r matches Err(e) && e.code == ErrorCode::InvalidRule && e.message@ == "rule type error, expect TrafficSecurityRule"@,
        },
{
    let ghost orig = rules@;
    let mut rest = rules;
    let mut out: Vec<TrafficSecurityRule> = Vec::new();
    let mut taken: usize = 0;
    let total = rest.len();
    assert(orig.subrange(0, 0) =~= Seq::<CachedRule>::empty());
    while rest.len() > 0
        invariant
            orig.len() == total,
            orig == rules@,
            taken + rest@.len() == orig.len(),
            rest@ == orig.subrange(taken as int, orig.len() as int),
            spec_security_rules(orig.subrange(0, taken as int)) == Some(out@),
        decreases rest@.len(),
    {
        let x = rest.remove(0);
        assert(rest@ =~= orig.subrange(taken + 1, orig.len() as int));
        let ghost pre = orig.subrange(0, taken + 1);
        assert(pre.drop_last() =~= orig.subrange(0, taken as int));
        assert(pre.last() == x);
        match x {
            CachedRule::TrafficSecurity(rule) => {
                out.push(rule);
            },
            _ => {
                proof {
                    lemma_security_rules_prefix(orig, taken as int + 1);
                }
                return Err(PoleError::new(ErrorCode::InvalidRule, String::from_str("rule type error, expect TrafficSecurityRule")));
            },
        }
        taken = taken + 1;
    }
    assert(orig.subrange(0, orig.len() as int) =~= orig);
    Ok(out)
}

/// The mirror rules of cached rules; any other rule is an error.
pub open spec fn spec_mirror_rules(rules: Seq<CachedRule>) -> Option<Seq<TrafficMirror>>
    decreases rules.len(),
{
    if rules.len() == 0 {
        Some(Seq::empty())
    } else {
        match (spec_mirror_rules(rules.drop_last()), rules.last()) {
            (Some(prev), CachedRule::TrafficMirror(r)) => Some(prev.push(r)),
            _ => None,
        }
    }
}

proof fn lemma_mirror_rules_prefix(rules: Seq<CachedRule>, n: int)
    requires
        0 <= n <= rules.len(),
        spec_mirror_rules(rules.subrange(0, n)).is_none(),
    ensures
        spec_mirror_rules(rules).is_none(),
    decreases rules.len() - n,
{
    if n < rules.len() {
        let pre = rules.subrange(0, n + 1);
        assert(pre.drop_last() =~= rules.subrange(0, n));
        lemma_mirror_rules_prefix(rules, n + 1);
    } else {
        assert(rules.subrange(0, n) =~= rules);
    }
}

fn mirror_rules_from_cached(rules: Vec<CachedRule>) -> (r: Result<Vec<TrafficMirror>, PoleError>)
    ensures
        match spec_mirror_rules(rules@) {
            Some(v) => r matches Ok(out) && out@ == v,
            None => r matches Err(e) && e.code == ErrorCode::InvalidRule && e.message@ == "rule type error, expect TrafficMirror"@,
        },
{
    let ghost orig = rules@;
    let mut rest = rules;
    let mut out: Vec<TrafficMirror> = Vec::new();
    let mut taken: usize = 0;
    let total = rest.len();
    assert(orig.subrange(0, 0) =~= Seq::<CachedRule>::empty());
    while rest.len() > 0
        invariant
            orig.len() == total,
            orig == rules@,
            taken + rest@.len() == orig.len(),
            rest@ == orig.subrange(taken as int, orig.len() as int),
            spec_mirror_rules(orig.subrange(0, taken as int)) == Some(out@),
        decreases rest@.len(),
    {
        let x = rest.remove(0);
        assert(rest@ =~= orig.subrange(taken + 1, orig.len() as int));
        let ghost pre = orig.subrange(0, taken + 1);
        assert(pre.drop_last() =~= orig.subrange(0, taken as int));
        assert(pre.last() == x);
        match x {
            CachedRule::TrafficMirror(rule) => {
                out.push(rule);
            },
            _ => {
                proof {
                    lemma_mirror_rules_prefix(orig, taken as int + 1);
                }
                return Err(PoleError::new(ErrorCode::InvalidRule, String::from_str("rule type error, expect TrafficMirror")));
            },
        }
        taken = taken + 1;
    }
    assert(orig.subrange(0, orig.len() as int) =~= orig);
    Ok(out)
}

/// The mock rules of cached rules; any other rule is an error.
pub open spec fn spec_mock_rules(rules: Seq<CachedRule>) -> Option<Seq<TrafficMock>>
    decreases rules.len(),
{
    if rules.len() == 0 {
        Some(Seq::empty())
    } else {
        match (spec_mock_rules(rules.drop_last()), rules.last()) {
            (Some(prev), CachedRule::TrafficMock(r)) => Some(prev.push(r)),
            _ => None,
        }
    }
}

proof fn lemma_mock_rules_prefix(rules: Seq<CachedRule>, n: int)
    requires
        0 <= n <= rules.len(),
        spec_mock_rules(rules.subrange(0, n)).is_none(),
    ensures
        spec_mock_rules(rules).is_none(),
    decreases rules.len() - n,
{
    if n < rules.len() {
        let pre = rules.subrange(0, n + 1);
        assert(pre.drop_last() =~= rules.subrange(0, n));
        lemma_mock_rules_prefix(rules, n + 1);
    } else {
        assert(rules.subrange(0, n) =~= rules);
    }
}

fn mock_rules_from_cached(rules: Vec<CachedRule>) -> (r: Result<Vec<TrafficMock>, PoleError>)
    ensures
        match spec_mock_rules(rules@) {
            Some(v) => r matches Ok(out) && out@ == v,
            None => r matches Err(e) && e.code == ErrorCode::InvalidRule && e.message@ == "rule type error, expect TrafficMock"@,
        },
{
    let ghost orig = rules@;
    let mut rest = rules;
    let mut out: Vec<TrafficMock> = Vec::new();
    let mut taken: usize = 0;
    let total = rest.len();
    assert(orig.subrange(0, 0) =~= Seq::<CachedRule>::empty());
    while rest.len() > 0
        invariant
            orig.len() == total,
            orig == rules@,
            taken + rest@.len() == orig.len(),
            rest@ == orig.subrange(taken as int, orig.len() as int),
            spec_mock_rules(orig.subrange(0, taken as int)) == Some(out@),
        decreases rest@.len(),
    {
        let x = rest.remove(0);
        assert(rest@ =~= orig.subrange(taken + 1, orig.len() as int));
        let ghost pre = orig.subrange(0, taken + 1);
        assert(pre.drop_last() =~= orig.subrange(0, taken as int));
        assert(pre.last() == x);
        match x {
            CachedRule::TrafficMock(rule) => {
                out.push(rule);
            },
            _ => {
                proof {
                    lemma_mock_rules_prefix(orig, taken as int + 1);
                }
                return Err(PoleError::new(ErrorCode::InvalidRule, String::from_str("rule type error, expect TrafficMock")));
            },
        }
        taken = taken + 1;
    }
    assert(orig.subrange(0, orig.len() as int) =~= orig);
    Ok(out)
}

/// The security, mirror and mock rules of cached rule lists, each list holding only rules
/// of its kind.
pub fn traffic_governance_rules_from_cached_rules(
    security_rules: Vec<CachedRule>,
    mirror_rules: Vec<CachedRule>,
    mock_rules: Vec<CachedRule>,
) -> (r: Result<TrafficGovernanceRules, PoleError>)
    ensures
        match (spec_security_rules(security_rules@), spec_mirror_rules(mirror_rules@), spec_mock_rules(mock_rules@)) {
            (Some(s), Some(m), Some(k)) => r matches Ok(rules) && rules.security_rules@ == s
                && rules.mirror_rules@ == m && rules.mock_rules@ == k,
            (None, _, _) => r matches Err(e) && e.code == ErrorCode::InvalidRule
                && e.message@ == "rule type error, expect TrafficSecurityRule"@,
            (Some(_), None, _) => r matches Err(e) && e.code == ErrorCode::InvalidRule
                && e.message@ == "rule type error, expect TrafficMirror"@,
            (Some(_), Some(_), None) => r matches Err(e) && e.code == ErrorCode::InvalidRule
                && e.message@ == "rule type error, expect TrafficMock"@,
        },
{
    let security_rules = security_rules_from_cached(security_rules)?;
    let mirror_rules = mirror_rules_from_cached(mirror_rules)?;
    let mock_rules = mock_rules_from_cached(mock_rules)?;
    Ok(TrafficGovernanceRules { security_rules, mirror_rules, mock_rules })
}

} // verus!
