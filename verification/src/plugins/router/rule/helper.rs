//! Request matching shared by routing, lanes, rate limiting and traffic policies.

use vstd::prelude::*;
use crate::model::{
    ArgumentType, MetadataEntry, RouteInfo, label_get, label_lookup, metadata_get, metadata_lookup,
};
use crate::specification::{
    CustomRouteRule, MatchString, MatchStringType, SourceMatch, SourceMatchType,
    TrafficMatchMode, TrafficMatchRule, ValueType,
};
use crate::text::{
    chars_equal, chars_of, find_char, find_char_index, parse_i64, slice_chars, spec_parse_i64,
    spec_split, split_chars, str_equal, string_from_chars,
};

verus! {

/// Whether the regular expression `pattern` compiles and matches somewhere in `text`.
pub uninterp spec fn spec_regex_match(pattern: Seq<char>, text: Seq<char>) -> bool;

/// Compiles `pattern` with `regex::Regex::new` and calls `is_match` on `text`;
/// a pattern that does not compile matches nothing. The contract only names the
/// result: what a regular expression matches is the `regex` crate's, not restated here.
#[verifier::external_body]
fn regex_matches(pattern: &str, text: &str) -> (r: bool)
    ensures
        r == spec_regex_match(pattern@, text@),
{
    regex::Regex::new(pattern).map(|re| re.is_match(text)).unwrap_or(false)
}

pub open spec fn spec_is_match_all(s: Seq<char>) -> bool {
    s == "*"@
}

/// Whether a rule value is the wildcard `*`.
pub fn is_match_all(s: &str) -> (r: bool)
    ensures
        r == spec_is_match_all(s@),
{
    str_equal(s, "*")
}

/// Whether `actual` is one of the comma-separated items of `list`.
pub open spec fn spec_in_list(list: Seq<char>, actual: Seq<char>) -> bool {
    spec_split(list, ',').contains(actual)
}

/// Whether `actual` is an integer within the comma-separated bounds `lo,hi`.
pub open spec fn spec_in_range(bounds: Seq<char>, actual: Seq<char>) -> bool {
    let parts = spec_split(bounds, ',');
    parts.len() == 2 && match (
        spec_parse_i64(parts[0]),
        spec_parse_i64(parts[1]),
        spec_parse_i64(actual),
    ) {
        (Some(lo), Some(hi), Some(x)) => lo <= x && x <= hi,
        _ => false,
    }
}

/// Whether a request value satisfies a rule value.
pub open spec fn spec_match_label_value(rule: MatchString, actual: Seq<char>) -> bool {
    let v = rule.value@;
    if spec_is_match_all(v) {
        true
    } else {
        match rule.match_type {
            MatchStringType::Exact => v == actual,
            MatchStringType::NotEquals => v != actual,
            MatchStringType::Regex => spec_regex_match(v, actual),
            MatchStringType::In => spec_in_list(v, actual),
            MatchStringType::NotIn => !spec_in_list(v, actual),
            MatchStringType::Range => spec_in_range(v, actual),
        }
    }
}

/// How a rule value judges a request value: the wildcard `*` accepts anything; otherwise
/// `Exact` accepts exactly the rule value, `NotEquals` exactly every other value (so the
/// two always disagree), and `NotIn` exactly what `In` refuses.
pub proof fn law_match_label_value_by_type(rule: MatchString, actual: Seq<char>)
    ensures
        rule.value@ == "*"@ ==> spec_match_label_value(rule, actual),
        rule.value@ != "*"@ && rule.match_type == MatchStringType::Exact
            ==> (spec_match_label_value(rule, actual) <==> actual == rule.value@),
        rule.value@ != "*"@ && rule.match_type == MatchStringType::NotEquals
            ==> (spec_match_label_value(rule, actual) <==> actual != rule.value@),
        rule.value@ != "*"@ ==> spec_match_label_value(MatchString { match_type: MatchStringType::NotEquals, ..rule }, actual)
            == !spec_match_label_value(MatchString { match_type: MatchStringType::Exact, ..rule }, actual),
        rule.value@ != "*"@ ==> spec_match_label_value(MatchString { match_type: MatchStringType::NotIn, ..rule }, actual)
            == !spec_match_label_value(MatchString { match_type: MatchStringType::In, ..rule }, actual),
{
}

fn in_list(list: &Vec<char>, actual: &Vec<char>) -> (r: bool)
    ensures
        r == spec_in_list(list@, actual@),
{
    let parts = split_chars(list, ',');
    let mut i: usize = 0;
    while i < parts.len()
        invariant
            i <= parts@.len(),
            parts@.len() == spec_split(list@, ',').len(),
            forall|k: int| 0 <= k < parts@.len() ==> #[trigger] parts@[k]@ == spec_split(list@, ',')[k],
            forall|k: int| 0 <= k < i ==> spec_split(list@, ',')[k] != actual@,
        decreases parts@.len() - i,
    {
        if chars_equal(&parts[i], actual) {
            assert(spec_split(list@, ',')[i as int] == actual@);
            return true;
        }
        i = i + 1;
    }
    false
}

fn in_range(bounds: &Vec<char>, actual: &Vec<char>) -> (r: bool)
    ensures
        r == spec_in_range(bounds@, actual@),
{
    let parts = split_chars(bounds, ',');
    if parts.len() != 2 {
        return false;
    }
    let lo = parse_i64(&parts[0]);
    let hi = parse_i64(&parts[1]);
    let x = parse_i64(actual);
    match (lo, hi, x) {
        (Some(lo), Some(hi), Some(x)) => lo <= x && x <= hi,
        _ => false,
    }
}

/// Whether an actual value meets a match rule.
pub fn match_label_value(rule_value: &MatchString, actual_val: String) -> (r: bool)
    ensures
        r == spec_match_label_value(*rule_value, actual_val@),
{
    if is_match_all(rule_value.value.as_str()) {
        return true;
    }
    match rule_value.match_type {
        MatchStringType::Exact => str_equal(rule_value.value.as_str(), actual_val.as_str()),
        MatchStringType::NotEquals => !str_equal(rule_value.value.as_str(), actual_val.as_str()),
        MatchStringType::Regex => regex_matches(rule_value.value.as_str(), actual_val.as_str()),
        MatchStringType::In => in_list(&chars_of(rule_value.value.as_str()), &chars_of(actual_val.as_str())),
        MatchStringType::NotIn => !in_list(&chars_of(rule_value.value.as_str()), &chars_of(actual_val.as_str())),
        MatchStringType::Range => in_range(&chars_of(rule_value.value.as_str()), &chars_of(actual_val.as_str())),
    }
}

/// The label kind a `$kind.key` prefix names; unknown names read custom labels.
pub open spec fn spec_parse_argument_type(s: Seq<char>) -> ArgumentType {
    if s == "method"@ {
        ArgumentType::Method
    } else if s == "header"@ {
        ArgumentType::Header
    } else if s == "query"@ {
        ArgumentType::Query
    } else if s == "caller_service"@ {
        ArgumentType::CallerService
    } else if s == "caller_ip"@ {
        ArgumentType::CallerIP
    } else if s == "path"@ {
        ArgumentType::Path
    } else if s == "cookie"@ {
        ArgumentType::Cookie
    } else {
        ArgumentType::Custom
    }
}

pub fn parse_argument_type(s: &str) -> (t: ArgumentType)
    ensures
        t == spec_parse_argument_type(s@),
{
    if str_equal(s, "method") {
        ArgumentType::Method
    } else if str_equal(s, "header") {
        ArgumentType::Header
    } else if str_equal(s, "query") {
        ArgumentType::Query
    } else if str_equal(s, "caller_service") {
        ArgumentType::CallerService
    } else if str_equal(s, "caller_ip") {
        ArgumentType::CallerIP
    } else if str_equal(s, "path") {
        ArgumentType::Path
    } else if str_equal(s, "cookie") {
        ArgumentType::Cookie
    } else {
        ArgumentType::Custom
    }
}

pub open spec fn spec_argument_type_from_source(t: SourceMatchType) -> ArgumentType {
    match t {
        SourceMatchType::Method => ArgumentType::Method,
        SourceMatchType::Header => ArgumentType::Header,
        SourceMatchType::Query => ArgumentType::Query,
        SourceMatchType::CallerIp => ArgumentType::CallerIP,
        SourceMatchType::Path => ArgumentType::Path,
        SourceMatchType::Cookie => ArgumentType::Cookie,
        SourceMatchType::CallerMetadata => ArgumentType::CallerService,
        SourceMatchType::Custom => ArgumentType::Custom,
    }
}

fn argument_type_from_source(t: SourceMatchType) -> (r: ArgumentType)
    ensures
        r == spec_argument_type_from_source(t),
{
    match t {
        SourceMatchType::Method => ArgumentType::Method,
        SourceMatchType::Header => ArgumentType::Header,
        SourceMatchType::Query => ArgumentType::Query,
        SourceMatchType::CallerIp => ArgumentType::CallerIP,
        SourceMatchType::Path => ArgumentType::Path,
        SourceMatchType::Cookie => ArgumentType::Cookie,
        SourceMatchType::CallerMetadata => ArgumentType::CallerService,
        SourceMatchType::Custom => ArgumentType::Custom,
    }
}

/// The request value a condition reads: for text values the label named by the key
/// (`kind.key` or `$kind.key` selects the label kind), for parameters the label the
/// value names, for variables the environment and then the caller's parameters.
pub open spec fn spec_resolve_actual_value(info: RouteInfo, sm: SourceMatch, rv: MatchString) -> Option<Seq<char>> {
    match rv.value_type {
        ValueType::Text => {
            let key = sm.key@;
            match find_char(key, '.') {
                None => label_lookup(info.labels@, spec_argument_type_from_source(sm.match_type), key),
                Some(i) => {
                    let prefix = key.subrange(0, i);
                    let rest = key.subrange(i + 1, key.len() as int);
                    let kind = if prefix.len() > 0 && prefix[0] == '$' { prefix.drop_first() } else { prefix };
                    label_lookup(info.labels@, spec_parse_argument_type(kind), rest)
                },
            }
        },
        ValueType::Parameter => label_lookup(
            info.labels@,
            spec_argument_type_from_source(sm.match_type),
            rv.value@,
        ),
        ValueType::Variable => match metadata_lookup(info.environment@, rv.value@) {
            Some(v) => Some(v),
            None => metadata_lookup(info.external_parameters@, rv.value@),
        },
    }
}

fn resolve_actual_value(info: &RouteInfo, sm: &SourceMatch, rv: &MatchString) -> (r: Option<String>)
    ensures
        match r {
            Some(v) => spec_resolve_actual_value(*info, *sm, *rv) == Some(v@),
            None => spec_resolve_actual_value(*info, *sm, *rv).is_none(),
        },
{
    match rv.value_type {
        ValueType::Text => {
            let key = chars_of(sm.key.as_str());
            match find_char_index(&key, '.') {
                None => label_get(&info.labels, argument_type_from_source(sm.match_type), sm.key.as_str()),
                Some(i) => {
                    proof {
                        crate::text::lemma_find_char_range(key@, '.');
                    }
                    let prefix = slice_chars(&key, 0, i);
                    let rest = slice_chars(&key, i + 1, key.len());
                    let kind = if prefix.len() > 0 && prefix[0] == '$' {
                        slice_chars(&prefix, 1, prefix.len())
                    } else {
                        prefix
                    };
                    assert(prefix@.len() > 0 && prefix@[0] == '$' ==> kind@ =~= prefix@.drop_first());
                    let kind_str = string_from_chars(kind.as_slice());
                    let rest_str = string_from_chars(rest.as_slice());
                    label_get(&info.labels, parse_argument_type(kind_str.as_str()), rest_str.as_str())
                },
            }
        },
        ValueType::Parameter => label_get(
            &info.labels,
            argument_type_from_source(sm.match_type),
            rv.value.as_str(),
        ),
        ValueType::Variable => match metadata_get(&info.environment, rv.value.as_str()) {
            Some(v) => Some(v),
            None => metadata_get(&info.external_parameters, rv.value.as_str()),
        },
    }
}

pub open spec fn spec_source_match_matches(info: RouteInfo, sm: SourceMatch) -> bool {
    match sm.value {
        None => false,
        Some(rv) => match spec_resolve_actual_value(info, sm, rv) {
            None => false,
            Some(actual) => spec_match_label_value(rv, actual),
        },
    }
}

/// The request value a condition reads, if it has a value to compare with.
pub open spec fn spec_resolve_source_value(info: RouteInfo, sm: SourceMatch) -> Option<Seq<char>> {
    match sm.value {
        None => None,
        Some(rv) => spec_resolve_actual_value(info, sm, rv),
    }
}

pub fn resolve_source_value(info: &RouteInfo, sm: &SourceMatch) -> (r: Option<String>)
    ensures
        match r {
            Some(v) => spec_resolve_source_value(*info, *sm) == Some(v@),
            None => spec_resolve_source_value(*info, *sm).is_none(),
        },
{
    match &sm.value {
        None => None,
        Some(rv) => resolve_actual_value(info, sm, rv),
    }
}

fn source_match_matches(info: &RouteInfo, sm: &SourceMatch) -> (r: bool)
    ensures
        r == spec_source_match_matches(*info, *sm),
{
    match &sm.value {
        None => false,
        Some(rv) => match resolve_actual_value(info, sm, rv) {
            None => false,
            Some(actual) => match_label_value(rv, actual),
        },
    }
}

/// Whether a request meets a rule's conditions: never at zero percent, always
/// without conditions, else all (`And`) or any (`Or`) of them.
pub open spec fn spec_traffic_match_rule_match(info: RouteInfo, rule: TrafficMatchRule) -> bool {
    if rule.random_percent == 0 {
        false
    } else if rule.arguments@.len() == 0 {
        true
    } else {
        match rule.match_mode {
            TrafficMatchMode::Or => exists|i: int|
                0 <= i < rule.arguments@.len() && spec_source_match_matches(info, #[trigger] rule.arguments@[i]),
            TrafficMatchMode::And => forall|i: int|
                0 <= i < rule.arguments@.len() ==> spec_source_match_matches(info, #[trigger] rule.arguments@[i]),
        }
    }
}

pub fn traffic_match_rule_match(info: &RouteInfo, rule: &TrafficMatchRule) -> (r: bool)
    ensures
        r == spec_traffic_match_rule_match(*info, *rule),
{
    if rule.random_percent == 0 {
        return false;
    }
    if rule.arguments.len() == 0 {
        return true;
    }
    let any_mode = match rule.match_mode {
        TrafficMatchMode::Or => true,
        TrafficMatchMode::And => false,
    };
    let mut i: usize = 0;
    while i < rule.arguments.len()
        invariant
            i <= rule.arguments@.len(),
            rule.random_percent != 0,
            rule.arguments@.len() > 0,
            any_mode == (rule.match_mode == TrafficMatchMode::Or),
            any_mode ==> forall|k: int| 0 <= k < i ==> !spec_source_match_matches(*info, #[trigger] rule.arguments@[k]),
            !any_mode ==> forall|k: int| 0 <= k < i ==> spec_source_match_matches(*info, #[trigger] rule.arguments@[k]),
        decreases rule.arguments@.len() - i,
    {
        let arg = &rule.arguments[i];
        let hit = source_match_matches(info, arg);
        assert(*arg == rule.arguments@[i as int]);
        if any_mode && hit {
            assert(0 <= i < rule.arguments@.len() && spec_source_match_matches(*info, rule.arguments@[i as int]));
            return true;
        }
        if !any_mode && !hit {
            return false;
        }
        i = i + 1;
    }
    !any_mode
}

/// Whether every destination of a route names the callee or the wildcard.
pub open spec fn spec_match_callee_caller(info: RouteInfo, rule: CustomRouteRule) -> bool {
    forall|i: int|
        0 <= i < rule.destinations@.len() ==> {
            let d = #[trigger] rule.destinations@[i];
            (d.service@ == info.callee.name@ || spec_is_match_all(d.service@)) && (d.namespace@
                == info.callee.namespace@ || spec_is_match_all(d.namespace@))
        }
}

/// Whether a route rule's sources and destinations name the caller and callee.
pub fn match_callee_caller(info: &RouteInfo, rule: &CustomRouteRule) -> (r: bool)
    ensures
        r == spec_match_callee_caller(*info, *rule),
{
    let mut i: usize = 0;
    while i < rule.destinations.len()
        invariant
            i <= rule.destinations@.len(),
            forall|k: int|
                0 <= k < i ==> {
                    let d = #[trigger] rule.destinations@[k];
                    (d.service@ == info.callee.name@ || spec_is_match_all(d.service@)) && (
                    d.namespace@ == info.callee.namespace@ || spec_is_match_all(d.namespace@))
                },
        decreases rule.destinations@.len() - i,
    {
        let d = &rule.destinations[i];
        if !str_equal(d.service.as_str(), info.callee.name.as_str()) && !is_match_all(d.service.as_str()) {
            return false;
        }
        if !str_equal(d.namespace.as_str(), info.callee.namespace.as_str()) && !is_match_all(d.namespace.as_str()) {
            return false;
        }
        i = i + 1;
    }
    true
}

pub open spec fn spec_route_traffic_match(info: RouteInfo, rule: CustomRouteRule) -> bool {
    spec_match_callee_caller(info, rule) && match rule.arguments {
        Some(args) => spec_traffic_match_rule_match(info, args),
        None => true,
    }
}

/// Whether a route rule selects the call: caller and callee, then the request's traffic labels.
pub fn route_traffic_match(info: &RouteInfo, rule: &CustomRouteRule) -> (r: bool)
    ensures
        r == spec_route_traffic_match(*info, *rule),
{
    if !match_callee_caller(info, rule) {
        return false;
    }
    match &rule.arguments {
        Some(args) => traffic_match_rule_match(info, args),
        None => true,
    }
}

} // verus!
