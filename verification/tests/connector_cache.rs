use pole_rust::model::{CachedRule, ErrorCode, Instance, Location};
use pole_rust::plugins::cache::failover::{
    ConfigResponseType, DiskCacheFailover, LocalCacheConfig,
};
use pole_rust::plugins::cache::memory::{EventType, MemoryCache, ResourceCache, rule_cache_key};
use pole_rust::plugins::connector::{
    ContractStep, DATA_NO_CHANGE, EXECUTE_SUCCESS, ServiceContractRequest, discover_response_watch_key,
    select_service_contract, service_contract_discover_request, service_contract_step,
};
use pole_rust::specification::{
    DiscoverRequestType, DiscoverResponse, DiscoverResponseType, LaneGroup, ServiceContract,
    ServiceDescriptor,
};

fn response(response_type: DiscoverResponseType) -> DiscoverResponse {
    DiscoverResponse {
        code: EXECUTE_SUCCESS,
        info: String::new(),
        response_type,
        service: Some(ServiceDescriptor { namespace: "default".to_string(), name: "svc-a".to_string(), revision: "rev-3".to_string() }),
        service_contracts: Vec::new(),
    }
}

fn contract(name: &str, service: &str, version: &str, protocol: &str) -> ServiceContract {
    ServiceContract {
        name: name.to_string(),
        namespace: "default".to_string(),
        service: service.to_string(),
        version: version.to_string(),
        protocol: protocol.to_string(),
        content: String::new(),
    }
}

fn contract_request(name: &str, service: &str, version: &str, protocol: &str) -> ServiceContractRequest {
    ServiceContractRequest { flow_id: "flow".to_string(), contract: contract(name, service, version, protocol) }
}

#[test]
fn discover_response_watch_key_maps_new_service_rule_response_types() {
    let cases = [
        (DiscoverResponseType::Lossless, "LosslessRule#default#svc-a"),
        (DiscoverResponseType::TrafficSecurityRule, "TrafficSecurityRule#default#svc-a"),
        (DiscoverResponseType::TrafficMirrorRule, "TrafficMirrorRule#default#svc-a"),
        (DiscoverResponseType::TrafficMockRule, "TrafficMockRule#default#svc-a"),
    ];

    for (response_type, expected) in cases {
        assert_eq!(discover_response_watch_key(&response(response_type)).as_deref(), Some(expected));
    }
}

#[test]
fn discover_response_watch_key_uses_namespace_for_service_lists() {
    assert_eq!(discover_response_watch_key(&response(DiscoverResponseType::Services)).as_deref(), Some("default"));
    assert_eq!(discover_response_watch_key(&response(DiscoverResponseType::ServiceContracts)), None);
}

#[test]
fn service_contract_discover_request_uses_service_contracts_type() {
    let req = contract_request("api", "svc-a", "v1", "http");

    let discover_req = service_contract_discover_request(&req);

    assert_eq!(discover_req.request_type, DiscoverRequestType::ServiceContracts);
    let service = discover_req.service.expect("service selector is required");
    assert_eq!(service.namespace, "default");
    assert_eq!(service.name, "svc-a");
}

#[test]
fn select_service_contract_matches_requested_identity() {
    let req = contract_request("api", "svc-a", "v2", "grpc");
    let mut resp = response(DiscoverResponseType::ServiceContracts);
    resp.service_contracts = vec![contract("api", "svc-a", "v1", "grpc"), contract("api", "svc-a", "v2", "grpc")];

    let contract = select_service_contract(&req, &resp).expect("contract should match");

    assert_eq!(contract.name, "api");
    assert_eq!(contract.namespace, "default");
    assert_eq!(contract.service, "svc-a");
    assert_eq!(contract.version, "v2");
    assert_eq!(contract.protocol, "grpc");
}

#[test]
fn select_service_contract_returns_none_when_identity_does_not_match() {
    let req = contract_request("api", "svc-a", "v2", "grpc");
    let mut resp = response(DiscoverResponseType::ServiceContracts);
    resp.service_contracts = vec![contract("api", "svc-b", "v2", "grpc")];

    assert!(select_service_contract(&req, &resp).is_none());
}

#[test]
fn contract_lookup_skips_unchanged_answers_and_reports_failures() {
    let req = contract_request("api", "svc-a", "", "");
    let mut unchanged = response(DiscoverResponseType::ServiceContracts);
    unchanged.code = DATA_NO_CHANGE;
    assert!(matches!(service_contract_step(&req, &unchanged), ContractStep::Continue));
    let mut failed = response(DiscoverResponseType::ServiceContracts);
    failed.code = 500000;
    failed.info = "boom".to_string();
    match service_contract_step(&req, &failed) {
        ContractStep::Done(Err(e)) => {
            assert_eq!(e.code, ErrorCode::ServerError);
            assert_eq!(e.message, "boom");
        }
        _ => panic!("failure expected"),
    }
    match service_contract_step(&req, &response(DiscoverResponseType::ServiceContracts)) {
        ContractStep::Done(Err(e)) => assert_eq!(
            e.message,
            "service_contract not found: namespace=default service=svc-a name=api version= protocol="
        ),
        _ => panic!("not found expected"),
    }
}

fn conf(persist_enable: bool) -> LocalCacheConfig {
    LocalCacheConfig {
        name: "memory".to_string(),
        service_expire_enable: false,
        service_expire_time_ms: 0,
        service_refresh_interval_ms: 0,
        service_list_refresh_interval_ms: 0,
        persist_enable,
        persist_dir: "/tmp/pole".to_string(),
    }
}

#[test]
fn save_and_load_naming_failover_supports_new_service_rule_types() {
    let failover = DiskCacheFailover::new(conf(true));
    let cases = [
        (EventType::LosslessRule, DiscoverResponseType::Lossless),
        (EventType::TrafficSecurityRule, DiscoverResponseType::TrafficSecurityRule),
        (EventType::TrafficMirrorRule, DiscoverResponseType::TrafficMirrorRule),
        (EventType::TrafficMockRule, DiscoverResponseType::TrafficMockRule),
    ];
    for (event_type, response_type) in cases {
        let saved = failover.naming_save_path(response_type, "default", "svc-a").unwrap().unwrap();
        let loaded = failover.naming_load_path(event_type, "default", "svc-a").unwrap();
        assert_eq!(saved, loaded);
    }
}

#[test]
fn disabled_persistence_does_not_read_or_write_failover_files() {
    let failover = DiskCacheFailover::new(conf(false));
    assert!(failover.naming_save_path(DiscoverResponseType::Lossless, "default", "svc-a").unwrap().is_none());
    assert!(failover.config_save_path(ConfigResponseType::ConfigFile, "default", "group-a", "file-a").unwrap().is_none());
    let naming_error = failover.naming_load_path(EventType::LosslessRule, "default", "svc-a").unwrap_err();
    assert!(naming_error.message.contains("local cache persistence is disabled"));
    let config_error = failover.config_load_path(EventType::ConfigFile, "default", "group-a", "file-a").unwrap_err();
    assert!(config_error.message.contains("local cache persistence is disabled"));
}

#[test]
fn failover_paths_follow_the_directory_layout() {
    let failover = DiskCacheFailover::new(conf(true));
    assert_eq!(failover.naming_load_path(EventType::Service, "default", "").unwrap(), "/tmp/pole/svc#default#services.data");
    assert_eq!(
        failover.config_load_path(EventType::ConfigGroup, "default", "group-a", "").unwrap(),
        "/tmp/pole/config#default#group-a#config_group.data"
    );
    assert_eq!(
        failover.naming_save_path(DiscoverResponseType::ServiceContracts, "default", "svc-a").unwrap_err().message,
        "unsupported discover response type"
    );
}

fn lane(name: &str) -> CachedRule {
    CachedRule::Lane(LaneGroup { name: name.to_string(), rules: Vec::new() })
}

#[test]
fn memory_cache_fills_a_watched_rule_entry_and_reads_it_back() {
    let mut cache = MemoryCache::new();
    assert!(cache.begin_load_service_rule(EventType::LaneRule, "default", "svc-a").unwrap());
    assert!(!cache.begin_load_service_rule(EventType::LaneRule, "default", "svc-a").unwrap());
    assert!(cache.needs_failover(EventType::LaneRule, "default", "svc-a", true));
    assert!(!cache.needs_failover(EventType::LaneRule, "default", "svc-a", false));
    assert_eq!(cache.load_service_rule(EventType::LaneRule, "default", "svc-a").err().unwrap().message, "load remote resource timeout");

    assert!(cache.on_rules_event(EventType::LaneRule, "default", "svc-a", "rev-1".to_string(), vec![lane("blue")]));
    let entry = cache.load_service_rule(EventType::LaneRule, "default", "svc-a").unwrap();
    assert_eq!(entry.revision, "rev-1");
    assert_eq!(entry.value.len(), 1);
    assert!(!cache.on_rules_event(EventType::RouterRule, "default", "svc-a", "rev-1".to_string(), Vec::new()));
    assert!(cache.begin_load_service_rule(EventType::Instance, "default", "svc-a").is_err());
}

fn instance(id: &str, health: bool) -> Instance {
    Instance {
        id: id.to_string(),
        namespace: "default".to_string(),
        service: "svc-a".to_string(),
        ip: String::new(),
        port: 0,
        protocol: String::new(),
        weight: 100,
        health,
        isolated: false,
        location: Location { region: String::new(), zone: String::new(), campus: String::new() },
        metadata: Vec::new(),
    }
}

#[test]
fn memory_cache_keeps_available_instances_apart() {
    let mut cache = MemoryCache::new();
    assert!(cache.begin_load_instances("default", "svc-a"));
    let mut serving = instance("a", true);
    serving.ip = "127.0.0.1".to_string();
    serving.port = 8080;
    let mut drained = instance("b", true);
    drained.ip = "127.0.0.2".to_string();
    drained.port = 8080;
    drained.weight = 0;
    assert!(cache.on_instances_event("default", "svc-a", "rev-2".to_string(), vec![serving, drained]));
    let entry = cache.load_service_instances("default", "svc-a").unwrap();
    assert!(entry.initialized);
    assert_eq!(entry.value.instances.len(), 2);
    assert_eq!(entry.value.available.len(), 1);
    assert_eq!(entry.value.available[0].ip, "127.0.0.1");
    assert_eq!(entry.value.available[0].weight, 100);
}

#[test]
fn resource_cache_drops_pushes_for_unwatched_keys() {
    let mut cache: ResourceCache<u32> = ResourceCache::new();
    assert!(!cache.apply_update("k", "rev".to_string(), 7));
    assert!(!cache.is_initialized("k"));
    assert!(cache.ensure_entry("k".to_string(), 0));
    assert!(cache.apply_update("k", "rev".to_string(), 7));
    assert_eq!(cache.load("k").unwrap().value, 7);
    assert_eq!(rule_cache_key(EventType::RouterRule, "ns", "svc"), "RouterRule#ns#svc");
}

/// Loads a service's rules of a kind the way the client does: the entry is made sure of,
/// the failover copy is read while the entry is not filled and cached data is accepted, and
/// what it gives is taken in as a push. Counts the copy's reads and the writes it causes.
fn load_with_failover(
    cache: &mut MemoryCache,
    kind: EventType,
    include_cache: bool,
    loads: &mut u32,
    saves: &mut u32,
) -> Result<(String, usize, bool), ErrorCode> {
    cache.begin_load_service_rule(kind, "default", "svc-a").map_err(|e| e.code)?;
    if cache.needs_failover(kind, "default", "svc-a", include_cache) {
        *loads += 1;
        let loaded = Some(("failover-rev".to_string(), vec![lane("from-disk")]));
        if cache.recover_service_rule(kind, "default", "svc-a", include_cache, loaded).save {
            *saves += 1;
        }
    }
    let entry = cache.load_service_rule(kind, "default", "svc-a").map_err(|e| e.code)?;
    Ok((entry.revision.clone(), entry.value.len(), entry.initialized))
}

#[test]
fn load_service_rule_recovers_every_governance_type_from_configured_failover() {
    let event_types = [
        EventType::RouterRule,
        EventType::RateLimitRule,
        EventType::CircuitBreakerRule,
        EventType::FaultDetectRule,
        EventType::LaneRule,
        EventType::LosslessRule,
        EventType::TrafficSecurityRule,
        EventType::TrafficMirrorRule,
        EventType::TrafficMockRule,
    ];
    for event_type in event_types {
        let mut cache = MemoryCache::new();
        let (mut loads, mut saves) = (0, 0);
        let (revision, count, initialized) = load_with_failover(&mut cache, event_type, true, &mut loads, &mut saves).unwrap();
        assert!(initialized, "{event_type:?}");
        assert_eq!(revision, "failover-rev", "{event_type:?}");
        assert_eq!(count, 1, "{event_type:?}");

        let (revision, _, _) = load_with_failover(&mut cache, event_type, true, &mut loads, &mut saves).unwrap();
        assert_eq!(revision, "failover-rev", "{event_type:?}");
        assert_eq!(loads, 1);
        assert_eq!(saves, 1);
    }
}

#[test]
fn load_service_rule_does_not_use_failover_when_cache_is_excluded() {
    let mut cache = MemoryCache::new();
    let (mut loads, mut saves) = (0, 0);
    assert!(load_with_failover(&mut cache, EventType::RouterRule, false, &mut loads, &mut saves).is_err());
    assert_eq!(loads, 0);
    assert_eq!(saves, 0);
}

#[test]
fn failover_copy_is_taken_only_for_an_unfilled_entry() {
    let mut cache = MemoryCache::new();
    let copy = || Some(("failover-rev".to_string(), vec![lane("from-disk")]));
    assert!(!cache.recover_service_rule(EventType::LaneRule, "default", "svc-a", true, copy()).save);
    assert!(cache.begin_load_service_rule(EventType::LaneRule, "default", "svc-a").unwrap());
    cache.register_resource_listener(EventType::LaneRule, 7);
    assert!(!cache.recover_service_rule(EventType::LaneRule, "default", "svc-a", false, copy()).save);
    assert!(!cache.recover_service_rule(EventType::LaneRule, "default", "svc-a", true, None).save);
    let effects = cache.recover_service_rule(EventType::LaneRule, "default", "svc-a", true, copy());
    assert!(effects.save);
    assert_eq!(effects.notify, vec![7]);
    assert_eq!(cache.load_service_rule(EventType::LaneRule, "default", "svc-a").unwrap().revision, "failover-rev");
    assert!(!cache.recover_service_rule(EventType::LaneRule, "default", "svc-a", true, copy()).save);
}

#[test]
fn a_push_taken_in_is_saved_and_reaches_the_listeners_of_its_kind() {
    let mut cache = MemoryCache::new();
    cache.register_resource_listener(EventType::LaneRule, 1);
    cache.register_resource_listener(EventType::Instance, 2);
    cache.register_resource_listener(EventType::LaneRule, 3);
    let dropped = cache.on_rules_push(EventType::LaneRule, "default", "svc-a", "rev-1".to_string(), vec![lane("blue")]);
    assert!(!dropped.save);
    assert!(dropped.notify.is_empty());
    assert!(cache.begin_load_service_rule(EventType::LaneRule, "default", "svc-a").unwrap());
    let taken = cache.on_rules_push(EventType::LaneRule, "default", "svc-a", "rev-1".to_string(), vec![lane("blue")]);
    assert!(taken.save);
    assert_eq!(taken.notify, vec![1, 3]);
    assert!(cache.begin_load_instances("default", "svc-a"));
    let pushed = cache.on_instances_push("default", "svc-a", "rev-2".to_string(), vec![instance("a", true)]);
    assert!(pushed.save);
    assert_eq!(pushed.notify, vec![2]);
}

#[test]
fn services_of_a_namespace_are_watched_once_and_time_out_until_filled() {
    let mut cache = MemoryCache::new();
    assert!(cache.begin_load_services("default"));
    assert!(!cache.begin_load_services("default"));
    let err = cache.load_services("default").err().unwrap();
    assert_eq!(err.code, ErrorCode::InternalError);
    assert_eq!(err.message, "load remote resource timeout");
    assert!(cache.load_services("other").is_err());
}
