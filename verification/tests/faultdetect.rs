use pole_rust::model::circuitbreaker::{Resource, RetStatus, ServiceResource, Status};
use pole_rust::model::{CachedRule, ServiceKey};
use pole_rust::specification::{BlockConfig, CircuitBreakerPolicy, CircuitBreakerRule, TriggerCondition, TriggerType};
use pole_rust::traffic::circuitbreaker::default::DefaultCircuitBreakerAPI;
use pole_rust::traffic::faultdetect::api::FaultDetectReporter;
use pole_rust::traffic::faultdetect::default::CircuitBreakerFaultDetectReporter;
use pole_rust::model::{Instance, Location, ServiceInfo, ServiceInstances};
use pole_rust::specification::{
    DestinationService, FaultDetectRule, FaultDetectRuleProtocol, FaultDetectSubRule, HttpHeader,
    HttpProtocolConfig, PayloadProtocolConfig,
};
use pole_rust::traffic::faultdetect::default::{
    FaultDetectListenerState, build_fault_detect_plans, ensure_expected_response, parse_http_status_code, build_fault_detect_targets, fault_detect_result_to_resource_stat,
};
use pole_rust::traffic::faultdetect::req::{
    FaultDetectPlan, FaultDetectProtocol, FaultDetectResult, HttpFaultDetectConfig, TcpFaultDetectConfig,
    UdpFaultDetectConfig,
};

fn sub_rule(protocol: FaultDetectRuleProtocol, port: u32) -> FaultDetectSubRule {
    FaultDetectSubRule {
        disable: false,
        protocol,
        interval: 0,
        timeout: 0,
        port,
        http_config: None,
        tcp_config: None,
        udp_config: None,
    }
}

fn orders() -> Option<DestinationService> {
    Some(DestinationService { namespace: "default".to_string(), service: "orders".to_string() })
}

fn instance(ip: &str, health: bool, isolated: bool) -> Instance {
    Instance {
        id: String::new(),
        namespace: "default".to_string(),
        service: "orders".to_string(),
        ip: ip.to_string(),
        port: 0,
        protocol: String::new(),
        weight: 100,
        health,
        isolated,
        location: Location { region: String::new(), zone: String::new(), campus: String::new() },
        metadata: Vec::new(),
    }
}

fn tcp_plan(rule_id: &str, service: &str) -> FaultDetectPlan {
    FaultDetectPlan {
        rule_id: rule_id.to_string(),
        namespace: "default".to_string(),
        service: service.to_string(),
        interval_secs: 5,
        timeout_secs: 1,
        port: 8080,
        protocol: FaultDetectProtocol::Tcp,
        http_config: None,
        tcp_config: None,
        udp_config: None,
    }
}

#[test]
fn fault_detect_planner_builds_enabled_probe_plan_for_target_service() {
    let mut sub = sub_rule(FaultDetectRuleProtocol::Http, 8080);
    sub.interval = 5;
    sub.timeout = 2;
    sub.http_config = Some(HttpProtocolConfig {
        method: "POST".to_string(),
        url: "/ready".to_string(),
        headers: vec![HttpHeader { key: "X-Probe".to_string(), value: "true".to_string() }],
        body: "probe-body".to_string(),
    });
    let rules = vec![FaultDetectRule { id: "fd-1".to_string(), priority: 0, target_service: orders(), rules: vec![sub] }];

    let plans = build_fault_detect_plans(&rules);

    assert_eq!(plans.len(), 1);
    assert_eq!(plans[0].rule_id, "fd-1");
    assert_eq!(plans[0].namespace, "default");
    assert_eq!(plans[0].service, "orders");
    assert_eq!(plans[0].interval_secs, 5);
    assert_eq!(plans[0].timeout_secs, 2);
    assert_eq!(plans[0].port, 8080);
    assert_eq!(plans[0].protocol, FaultDetectProtocol::Http);
    assert_eq!(
        plans[0].http_config,
        Some(HttpFaultDetectConfig {
            method: "POST".to_string(),
            url: "/ready".to_string(),
            headers: vec![("X-Probe".to_string(), "true".to_string())],
            body: "probe-body".to_string(),
        })
    );
}

#[test]
fn fault_detect_targets_expand_plans_for_available_matching_instances() {
    let service_instances = ServiceInstances::new(
        ServiceInfo { namespace: "default".to_string(), name: "orders".to_string(), revision: String::new(), metadata: Vec::new() },
        vec![instance("10.0.0.1", true, false), instance("10.0.0.2", false, false), instance("10.0.0.3", true, true)],
    );

    let targets = build_fault_detect_targets(&service_instances, vec![tcp_plan("fd-orders", "orders"), tcp_plan("fd-payments", "payments")]);

    assert_eq!(targets.len(), 1);
    assert_eq!(targets[0].host, "10.0.0.1");
    assert_eq!(targets[0].plans.len(), 1);
    assert_eq!(targets[0].plans[0].rule_id, "fd-orders");
}

#[test]
fn fault_detect_result_to_resource_stat_maps_failure_and_timeout() {
    let plan = tcp_plan("fd-1", "orders");

    let failed = fault_detect_result_to_resource_stat(
        &plan,
        &FaultDetectResult { rule_id: "fd-1".to_string(), success: false, message: "connection refused".to_string() },
    );
    let timeout = fault_detect_result_to_resource_stat(
        &plan,
        &FaultDetectResult { rule_id: "fd-1".to_string(), success: false, message: "tcp fault detect request timeout".to_string() },
    );

    assert_eq!(failed.status, RetStatus::RetFail);
    assert_eq!(timeout.status, RetStatus::RetTimeout);
}

#[test]
fn fault_detect_planner_copies_tcp_and_udp_payload_configs() {
    let mut tcp = sub_rule(FaultDetectRuleProtocol::Tcp, 8081);
    tcp.tcp_config = Some(PayloadProtocolConfig { send: "ping".to_string(), receive: vec!["pong".to_string()] });
    let mut udp = sub_rule(FaultDetectRuleProtocol::Udp, 8082);
    udp.udp_config = Some(PayloadProtocolConfig { send: "ping".to_string(), receive: vec!["pong".to_string()] });
    let rules = vec![
        FaultDetectRule { id: "fd-tcp".to_string(), priority: 1, target_service: orders(), rules: vec![tcp] },
        FaultDetectRule { id: "fd-udp".to_string(), priority: 2, target_service: orders(), rules: vec![udp] },
    ];

    let plans = build_fault_detect_plans(&rules);

    assert_eq!(plans.len(), 2);
    assert_eq!(plans[0].tcp_config, Some(TcpFaultDetectConfig { send: "ping".to_string(), receive: vec!["pong".to_string()] }));
    assert_eq!(plans[1].udp_config, Some(UdpFaultDetectConfig { send: "ping".to_string(), receive: vec!["pong".to_string()] }));
}

#[test]
fn fault_detect_planner_skips_disabled_probes_and_rules_without_target() {
    let mut disabled = sub_rule(FaultDetectRuleProtocol::Tcp, 8081);
    disabled.disable = true;
    let rules = vec![
        FaultDetectRule { id: "fd-off".to_string(), priority: 0, target_service: orders(), rules: vec![disabled] },
        FaultDetectRule { id: "fd-none".to_string(), priority: 0, target_service: None, rules: vec![sub_rule(FaultDetectRuleProtocol::Tcp, 1)] },
    ];
    assert_eq!(build_fault_detect_plans(&rules).len(), 0);
}

#[test]
fn fault_detect_listener_starts_targets_once_rules_and_instances_are_known() {
    let mut state = FaultDetectListenerState::new();
    let rules = vec![FaultDetectRule {
        id: "fd-1".to_string(),
        priority: 0,
        target_service: orders(),
        rules: vec![sub_rule(FaultDetectRuleProtocol::Tcp, 8080)],
    }];
    assert!(state.apply_rules(false, "default#orders".to_string(), &rules).is_empty());

    let service_instances = ServiceInstances::new(
        ServiceInfo { namespace: "default".to_string(), name: "orders".to_string(), revision: String::new(), metadata: Vec::new() },
        vec![instance("10.0.0.1", true, false), instance("10.0.0.2", false, false)],
    );
    let targets = state.apply_instances(false, "default#orders".to_string(), service_instances);
    assert_eq!(targets.len(), 1);
    assert_eq!(targets[0].host, "10.0.0.1");
    assert_eq!(targets[0].plans.len(), 1);
    assert_eq!(targets[0].plans[0].rule_id, "fd-1");

    assert!(state.apply_rules(true, "default#orders".to_string(), &Vec::new()).is_empty());
    assert_eq!(state.targets().len(), 0);
    assert_eq!(state.instances.len(), 1);
}

#[test]
fn expected_response_is_found_anywhere_in_the_answer() {
    let expected = vec!["ok".to_string(), "ready".to_string()];
    assert!(ensure_expected_response("tcp", b"server is ready\n", &expected).is_ok());
    let err = ensure_expected_response("udp", b"pong", &expected).unwrap_err();
    assert_eq!(err, format!("udp response {:?} did not match expected values {:?}", "pong", expected));
    assert_eq!(err, "udp response \"pong\" did not match expected values [\"ok\", \"ready\"]");
    assert!(ensure_expected_response("tcp", b"anything", &Vec::new()).is_err());
}

#[test]
fn http_status_code_is_the_second_word_of_the_first_line() {
    assert_eq!(parse_http_status_code(b"HTTP/1.1 204 No Content\r\n\r\n"), Ok(204));
    assert_eq!(parse_http_status_code(b""), Err("empty http response".to_string()));
    assert_eq!(parse_http_status_code(b"garbage"), Err("invalid http status line: garbage".to_string()));
    assert_eq!(parse_http_status_code(b"HTTP/1.1 abc OK"), Err("invalid http status code: abc".to_string()));
}

#[test]
fn probe_results_reach_the_breaker_of_the_api() {
    let rule = CircuitBreakerRule {
        id: "cb-1".to_string(),
        name: "probe-errors".to_string(),
        enable: true,
        block_configs: vec![CircuitBreakerPolicy {
            block_config: Some(BlockConfig {
                name: String::new(),
                trigger_conditions: vec![TriggerCondition {
                    trigger_type: TriggerType::ConsecutiveError,
                    error_count: 2,
                    error_percent: 0,
                    interval: 60,
                    minimum_request: 2,
                }],
            }),
            recover_condition: None,
        }],
    };
    let mut api = DefaultCircuitBreakerAPI::new();
    api.refresh_loaded(Some(vec![CachedRule::CircuitBreaker(rule)])).unwrap();
    let mut reporter = CircuitBreakerFaultDetectReporter::new(api);
    let plan = tcp_plan("fd-1", "orders");
    let refused = FaultDetectResult { rule_id: "fd-1".to_string(), success: false, message: "connection refused".to_string() };

    reporter.report(&plan, &refused, 1000);
    reporter.report(&plan, &refused, 1000);

    let orders = Resource::ServiceResource(ServiceResource::new(ServiceKey {
        namespace: "default".to_string(),
        name: "orders".to_string(),
    }));
    let mut api = reporter.into_api();
    let status = api.check_resource(&orders, 1000);
    assert_eq!(status.status, Status::Open);
    assert_eq!(status.circuit_breaker, "probe-errors");
}
