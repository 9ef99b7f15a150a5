use pole_rust::model::{
    ArgumentType, Instance, Location, MetadataEntry, RouteInfo, ServiceInfo, ServiceInstances,
    ServiceKey, TrafficLabel,
};
use pole_rust::plugins::router::rule::helper::{match_label_value, traffic_match_rule_match};
use pole_rust::plugins::router::rule::rule::{
    decode_custom_route_rules, filter_available_destinations, has_route_rules, match_callee_group,
};
use pole_rust::specification::{
    CustomRouteRule, DestinationGroup, LabelMatch, MatchString, MatchStringType, RouteRule,
    SourceMatch, SourceMatchType, TrafficMatchMode, TrafficMatchRule, ValueType,
};

fn key(namespace: &str, name: &str) -> ServiceKey {
    ServiceKey { namespace: namespace.to_string(), name: name.to_string() }
}

fn label(t: ArgumentType, k: &str, v: &str) -> TrafficLabel {
    TrafficLabel { arg_type: t, key: k.to_string(), value: v.to_string() }
}

fn route_info() -> RouteInfo {
    RouteInfo {
        caller: key("", ""),
        callee: key("", ""),
        metadata: Vec::new(),
        labels: vec![
            label(ArgumentType::Header, "x-env", "prod"),
            label(ArgumentType::Query, "uid", "42"),
            label(ArgumentType::Path, "", "/v1/orders/123"),
            label(ArgumentType::Method, "", "GET"),
        ],
        environment: Vec::new(),
        external_parameters: Vec::new(),
        chain: Vec::new(),
    }
}

fn source(source_type: SourceMatchType, key: &str, match_type: MatchStringType, value: &str) -> SourceMatch {
    SourceMatch {
        match_type: source_type,
        key: key.to_string(),
        value: Some(MatchString { match_type, value: value.to_string(), value_type: ValueType::Text }),
    }
}

fn instance(id: &str, version: &str, healthy: bool) -> Instance {
    Instance {
        id: id.to_string(),
        namespace: "default".to_string(),
        service: "svc-a".to_string(),
        ip: String::new(),
        port: 0,
        protocol: String::new(),
        weight: 100,
        health: healthy,
        isolated: false,
        location: Location { region: String::new(), zone: String::new(), campus: String::new() },
        metadata: vec![MetadataEntry { key: "version".to_string(), value: version.to_string() }],
    }
}

fn destination(name: &str, isolate: bool, priority: u32) -> DestinationGroup {
    DestinationGroup {
        name: name.to_string(),
        service: "svc-a".to_string(),
        namespace: "default".to_string(),
        labels: vec![LabelMatch {
            key: "version".to_string(),
            value: MatchString { match_type: MatchStringType::Exact, value: "v1".to_string(), value_type: ValueType::Text },
        }],
        priority,
        weight: 0,
        isolate,
    }
}

fn outer_route_rule(name: &str, enable: bool, priority: u32) -> RouteRule {
    RouteRule {
        name: format!("outer-{name}"),
        enable,
        priority,
        routing_config: Some(vec![CustomRouteRule { name: name.to_string(), destinations: Vec::new(), arguments: None }]),
    }
}

fn svc_a(instances: Vec<Instance>) -> ServiceInstances {
    ServiceInstances::new(
        ServiceInfo { namespace: "default".to_string(), name: "svc-a".to_string(), revision: String::new(), metadata: Vec::new() },
        instances,
    )
}

#[test]
fn traffic_match_rule_match_supports_and_mode() {
    let rule = TrafficMatchRule {
        arguments: vec![
            source(SourceMatchType::Header, "x-env", MatchStringType::Exact, "prod"),
            source(SourceMatchType::Path, "", MatchStringType::Regex, r"^/v1/orders/\d+$"),
        ],
        random_percent: 100,
        match_mode: TrafficMatchMode::And,
    };

    assert!(traffic_match_rule_match(&route_info(), &rule));
}

#[test]
fn traffic_match_rule_match_supports_or_mode() {
    let rule = TrafficMatchRule {
        arguments: vec![
            source(SourceMatchType::Header, "missing", MatchStringType::Exact, "prod"),
            source(SourceMatchType::Query, "uid", MatchStringType::Range, "40,50"),
        ],
        random_percent: 100,
        match_mode: TrafficMatchMode::Or,
    };

    assert!(traffic_match_rule_match(&route_info(), &rule));
}

#[test]
fn traffic_match_rule_match_returns_false_when_and_clause_missing() {
    let rule = TrafficMatchRule {
        arguments: vec![
            source(SourceMatchType::Header, "x-env", MatchStringType::Exact, "prod"),
            source(SourceMatchType::Method, "", MatchStringType::Exact, "POST"),
        ],
        random_percent: 100,
        match_mode: TrafficMatchMode::And,
    };

    assert!(!traffic_match_rule_match(&route_info(), &rule));
}

#[test]
fn match_label_value_handles_invalid_range_without_panic() {
    let value = MatchString { match_type: MatchStringType::Range, value: "bad,50".to_string(), value_type: ValueType::Text };

    assert!(!match_label_value(&value, "42".to_string()));
}

#[test]
fn traffic_match_rule_never_matches_at_zero_percent() {
    let rule = TrafficMatchRule { arguments: Vec::new(), random_percent: 0, match_mode: TrafficMatchMode::And };
    assert!(!traffic_match_rule_match(&route_info(), &rule));
}

#[test]
fn filter_available_destinations_excludes_isolated_and_sorts_by_priority() {
    let destinations = filter_available_destinations(vec![
        destination("isolated", true, 0),
        destination("low-priority", false, 8),
        destination("high-priority", false, 1),
    ]);

    assert_eq!(destinations.len(), 2);
    assert_eq!(destinations[0].name, "high-priority");
    assert_eq!(destinations[1].name, "low-priority");
}

#[test]
fn match_callee_group_filters_available_instances_by_destination_labels() {
    let instances = svc_a(vec![
        instance("matched", "v1", true),
        instance("wrong-version", "v2", true),
        instance("unhealthy", "v1", false),
    ]);

    let matched = match_callee_group(&destination("v1-group", false, 0), &instances, &Vec::new());

    assert_eq!(matched.len(), 1);
    assert_eq!(matched[0].id, "matched");
}

#[test]
fn match_callee_group_uses_captured_request_parameter_for_same_named_label() {
    let instances = svc_a(vec![instance("tenant-a", "tenant-a", true), instance("tenant-b", "tenant-b", true)]);
    let mut dynamic_destination = destination("dynamic-version", false, 0);
    dynamic_destination.labels = vec![LabelMatch {
        key: "version".to_string(),
        value: MatchString { match_type: MatchStringType::Exact, value: String::new(), value_type: ValueType::Parameter },
    }];

    let matched = match_callee_group(
        &dynamic_destination,
        &instances,
        &vec![MetadataEntry { key: "version".to_string(), value: "tenant-b".to_string() }],
    );

    assert_eq!(matched.len(), 1);
    assert_eq!(matched[0].id, "tenant-b");
}

#[test]
fn rule_router_is_enabled_when_either_side_has_rules() {
    assert!(has_route_rules(false, true));
    assert!(has_route_rules(true, false));
    assert!(has_route_rules(true, true));
    assert!(!has_route_rules(false, false));
}

#[test]
fn outer_route_rules_filter_disabled_rules_and_stably_apply_priority() {
    let rules = decode_custom_route_rules(vec![
        outer_route_rule("late", true, 20),
        outer_route_rule("first-same-priority", true, 10),
        outer_route_rule("disabled", false, 0),
        outer_route_rule("second-same-priority", true, 10),
    ]);

    assert_eq!(
        rules.iter().map(|rule| rule.name.as_str()).collect::<Vec<_>>(),
        vec!["first-same-priority", "second-same-priority", "late"]
    );
}
