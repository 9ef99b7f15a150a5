use pole_rust::model::router::{RouteResult, ServiceRouterPluginConfig};
use pole_rust::model::{
    ArgumentType, CachedRule, Instance, Location, MetadataEntry, RouteInfo, ServiceInfo, ServiceInstances,
    ServiceKey, ServiceRule, TrafficLabel,
};
use pole_rust::plugins::router::lane::{filter_instances_by_lane_groups, lane_groups_from_service_rule};
use pole_rust::plugins::router::nearby::NearbyRouter;
use pole_rust::specification::{
    LaneGroup, LaneMatchMode, LaneRule, MatchString, MatchStringType, SourceMatch, SourceMatchType,
    TrafficMatchMode, TrafficMatchRule, ValueType,
};

fn key(namespace: &str, name: &str) -> ServiceKey {
    ServiceKey { namespace: namespace.to_string(), name: name.to_string() }
}

fn route_info() -> RouteInfo {
    RouteInfo {
        caller: key("", ""),
        callee: key("", ""),
        metadata: Vec::new(),
        labels: vec![TrafficLabel { arg_type: ArgumentType::Header, key: "x-lane".to_string(), value: "blue".to_string() }],
        environment: Vec::new(),
        external_parameters: Vec::new(),
        chain: Vec::new(),
    }
}

fn lane_rule(match_mode: LaneMatchMode) -> LaneRule {
    LaneRule {
        name: "blue-rule".to_string(),
        enable: true,
        default_label_value: "blue".to_string(),
        label_key: "lane".to_string(),
        match_mode,
        priority: 0,
        traffic_match_rule: Some(TrafficMatchRule {
            arguments: vec![SourceMatch {
                match_type: SourceMatchType::Header,
                key: "x-lane".to_string(),
                value: Some(MatchString { match_type: MatchStringType::Exact, value: "blue".to_string(), value_type: ValueType::Text }),
            }],
            random_percent: 100,
            match_mode: TrafficMatchMode::And,
        }),
    }
}

fn lane_group(rule: LaneRule) -> LaneGroup {
    LaneGroup { name: "blue".to_string(), rules: vec![rule] }
}

fn location(region: &str, zone: &str, campus: &str) -> Location {
    Location { region: region.to_string(), zone: zone.to_string(), campus: campus.to_string() }
}

fn lane_instance(id: &str, lane: &str, healthy: bool) -> Instance {
    Instance {
        id: id.to_string(),
        namespace: "default".to_string(),
        service: "svc-a".to_string(),
        ip: String::new(),
        port: 0,
        protocol: String::new(),
        weight: 100,
        health: healthy,
        isolated: false,
        location: location("", "", ""),
        metadata: vec![MetadataEntry { key: "lane".to_string(), value: lane.to_string() }],
    }
}

fn located_instance(id: &str, region: &str, zone: &str, healthy: bool) -> Instance {
    Instance {
        id: id.to_string(),
        namespace: "default".to_string(),
        service: "svc-a".to_string(),
        ip: String::new(),
        port: 0,
        protocol: String::new(),
        weight: 100,
        health: healthy,
        isolated: false,
        location: location(region, zone, ""),
        metadata: Vec::new(),
    }
}

fn service_instances(instances: Vec<Instance>) -> ServiceInstances {
    ServiceInstances::new(
        ServiceInfo { namespace: "default".to_string(), name: "svc-a".to_string(), revision: String::new(), metadata: Vec::new() },
        instances,
    )
}

#[test]
fn lane_filter_returns_matching_available_instances() {
    let instances = service_instances(vec![
        lane_instance("blue", "blue", true),
        lane_instance("gray", "gray", true),
        lane_instance("unhealthy-blue", "blue", false),
    ]);

    let filtered = filter_instances_by_lane_groups(&route_info(), &instances, &vec![lane_group(lane_rule(LaneMatchMode::Strict))]);

    assert_eq!(filtered.instances.len(), 1);
    assert_eq!(filtered.instances[0].id, "blue");
    assert_eq!(filtered.total_weight, 100);
}

#[test]
fn strict_lane_filter_returns_empty_when_rule_matches_but_no_lane_instance() {
    let instances = service_instances(vec![lane_instance("gray", "gray", true)]);

    let filtered = filter_instances_by_lane_groups(&route_info(), &instances, &vec![lane_group(lane_rule(LaneMatchMode::Strict))]);

    assert!(filtered.instances.is_empty());
}

#[test]
fn permissive_lane_filter_falls_back_when_rule_matches_but_no_lane_instance() {
    let instances = service_instances(vec![lane_instance("gray", "gray", true)]);

    let filtered = filter_instances_by_lane_groups(&route_info(), &instances, &vec![lane_group(lane_rule(LaneMatchMode::Permissive))]);

    assert_eq!(filtered.instances.len(), 1);
    assert_eq!(filtered.instances[0].id, "gray");
}

#[test]
fn lane_groups_from_service_rule_downcasts_cached_groups() {
    let service_rule = ServiceRule {
        rules: vec![CachedRule::Lane(lane_group(lane_rule(LaneMatchMode::Strict)))],
        revision: "rev-1".to_string(),
        initialized: true,
    };

    let groups = lane_groups_from_service_rule(service_rule).unwrap();

    assert_eq!(groups.len(), 1);
    assert_eq!(groups[0].name, "blue");
}

fn router(enable_degrade: bool, strict_nearby: bool) -> NearbyRouter {
    NearbyRouter {
        strict_nearby,
        match_level: "zone".to_string(),
        max_match_level: "all".to_string(),
        enable_degrade_unhealthy_percent: enable_degrade,
        unhealthy_percent_to_degrade: 100,
    }
}

fn selected_ids(result: RouteResult) -> Vec<String> {
    result.instances.instances.into_iter().map(|ins| ins.id).collect()
}

#[test]
fn nearby_router_keeps_zone_when_healthy_instances_are_available() {
    let result = router(true, false)
        .choose_instances_with_location(
            location("r1", "z1", ""),
            service_instances(vec![located_instance("zone-healthy", "r1", "z1", true), located_instance("region-healthy", "r1", "z2", true)]),
        )
        .expect("zone should match");

    assert_eq!(selected_ids(result), vec!["zone-healthy"]);
}

#[test]
fn nearby_router_degrades_when_selected_level_is_fully_unhealthy() {
    let result = router(true, false)
        .choose_instances_with_location(
            location("r1", "z1", ""),
            service_instances(vec![located_instance("zone-unhealthy", "r1", "z1", false), located_instance("region-healthy", "r1", "z2", true)]),
        )
        .expect("region should match after zone degradation");

    assert_eq!(selected_ids(result), vec!["zone-unhealthy", "region-healthy"]);
}

#[test]
fn strict_nearby_router_does_not_degrade_to_wider_level() {
    let result = router(true, true)
        .choose_instances_with_location(
            location("r1", "z1", ""),
            service_instances(vec![located_instance("zone-unhealthy", "r1", "z1", false), located_instance("region-healthy", "r1", "z2", true)]),
        )
        .expect("strict nearby should still return nearest level");

    assert_eq!(selected_ids(result), vec!["zone-unhealthy"]);
}

#[test]
fn nearby_supplier_creates_the_router_its_configuration_describes() {
    let (supplier, name) = NearbyRouter::builder();
    assert_eq!(name, "nearbyBasedRouter");
    let defaults = supplier.create(&ServiceRouterPluginConfig { options: None });
    assert!(!defaults.strict_nearby);
    assert_eq!(defaults.match_level, "zone");
    assert_eq!(defaults.max_match_level, "all");
    assert!(!defaults.enable_degrade_unhealthy_percent);
    assert_eq!(defaults.unhealthy_percent_to_degrade, 100);

    let option = |key: &str, value: &str| MetadataEntry { key: key.to_string(), value: value.to_string() };
    let configured = supplier.create(&ServiceRouterPluginConfig {
        options: Some(vec![
            option("strictNearby", "true"),
            option("matchLevel", "region"),
            option("maxMatchLevel", "campus"),
            option("enableDegradeByUnhealthyPercent", "true"),
            option("unhealthyPercentToDegrade", "42"),
        ]),
    });
    assert!(configured.strict_nearby);
    assert_eq!(configured.match_level, "region");
    assert_eq!(configured.max_match_level, "campus");
    assert!(configured.enable_degrade_unhealthy_percent);
    assert_eq!(configured.unhealthy_percent_to_degrade, 42);
}
