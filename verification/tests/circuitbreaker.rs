use pole_rust::model::circuitbreaker::{Resource, ResourceStat, RetStatus, ServiceResource, Status};
use pole_rust::model::{CachedRule, ErrorCode, ServiceKey};
use pole_rust::plugins::circuitbreaker::composite::circuitbreaker::{
    CircuitBreakerRuleState, CompositeCircuitBreaker,
};
use pole_rust::specification::{
    BlockConfig, CircuitBreakerPolicy, CircuitBreakerRule, RateLimit, RateLimitType, RecoverCondition,
    TriggerCondition, TriggerType,
};
use pole_rust::model::PoleError;
use pole_rust::traffic::circuitbreaker::api::{
    CircuitBreakerAPI, CircuitBreakerRuleRefresher, InvokeHandler, refresh_invoke_service_rules,
};
use pole_rust::traffic::circuitbreaker::default::{
    DefaultCircuitBreakerAPI, circuit_breaker_rule_service_key, circuit_breaker_rules_from_service_rules,
};
use pole_rust::traffic::circuitbreaker::req::{RequestContext, ResponseContext};

fn consecutive_error_rule(error_count: u32) -> CircuitBreakerRule {
    CircuitBreakerRule {
        id: "cb-1".to_string(),
        name: "consecutive-error".to_string(),
        enable: true,
        block_configs: vec![CircuitBreakerPolicy {
            block_config: Some(BlockConfig {
                name: String::new(),
                trigger_conditions: vec![TriggerCondition {
                    trigger_type: TriggerType::ConsecutiveError,
                    error_count,
                    error_percent: 0,
                    interval: 60,
                    minimum_request: error_count,
                }],
            }),
            recover_condition: None,
        }],
    }
}

fn recoverable_consecutive_error_rule(error_count: u32, sleep_window: u32, consecutive_success: u32) -> CircuitBreakerRule {
    let mut rule = consecutive_error_rule(error_count);
    rule.block_configs[0].recover_condition = Some(RecoverCondition { sleep_window, consecutive_success });
    rule
}

fn key(namespace: &str, name: &str) -> ServiceKey {
    ServiceKey { namespace: namespace.to_string(), name: name.to_string() }
}

fn service_resource(service: &str) -> Resource {
    Resource::ServiceResource(ServiceResource::new(key("default", service)))
}

fn failure(service: &str) -> ResourceStat {
    ResourceStat { resource: service_resource(service), ret_code: "500".to_string(), delay_ms: 10, status: RetStatus::RetFail }
}

fn success(service: &str) -> ResourceStat {
    ResourceStat { resource: service_resource(service), ret_code: "200".to_string(), delay_ms: 10, status: RetStatus::RetSuccess }
}

fn rate_limit_rule() -> RateLimit {
    RateLimit { id: String::new(), revision: String::new(), priority: 0, rule_type: RateLimitType::Local, disable: false, rules: Vec::new(), cluster: None }
}

#[test]
fn rule_state_opens_after_consecutive_failures_reach_threshold() {
    let mut state = CircuitBreakerRuleState::new(consecutive_error_rule(2));

    state.report_status(&RetStatus::RetFail, 0);
    assert_eq!(state.status(), Status::Close);

    state.report_status(&RetStatus::RetFail, 0);
    assert_eq!(state.status(), Status::Open);
}

#[test]
fn composite_circuit_breaker_opens_after_reported_consecutive_failures() {
    let mut breaker = CompositeCircuitBreaker::new_with_rules(vec![consecutive_error_rule(2)]);

    breaker.report_stat(&failure("svc-a"), 1000);
    breaker.report_stat(&failure("svc-a"), 1000);
    let status = breaker.check_resource(&service_resource("svc-a"), 1000);

    assert_eq!(status.status, Status::Open);
    assert_eq!(status.circuit_breaker, "consecutive-error");
}

#[test]
fn composite_circuit_breaker_applies_updated_remote_rules() {
    let mut breaker = CompositeCircuitBreaker::new();

    breaker.update_rules(vec![consecutive_error_rule(1)]);
    breaker.report_stat(&failure("svc-a"), 1000);
    let status = breaker.check_resource(&service_resource("svc-a"), 1000);

    assert_eq!(status.status, Status::Open);
    assert_eq!(status.circuit_breaker, "consecutive-error");
}

#[test]
fn composite_circuit_breaker_keeps_states_isolated_by_resource() {
    let mut breaker = CompositeCircuitBreaker::new_with_rules(vec![consecutive_error_rule(1)]);

    breaker.report_stat(&failure("svc-a"), 1000);
    let opened = breaker.check_resource(&service_resource("svc-a"), 1000);
    let isolated = breaker.check_resource(&service_resource("svc-b"), 1000);

    assert_eq!(opened.status, Status::Open);
    assert_eq!(isolated.status, Status::Close);
}

#[test]
fn composite_circuit_breaker_recovers_after_half_open_successes() {
    let mut breaker = CompositeCircuitBreaker::new_with_rules(vec![recoverable_consecutive_error_rule(1, 0, 1)]);

    breaker.report_stat(&failure("svc-a"), 1000);
    let half_open = breaker.check_resource(&service_resource("svc-a"), 1000);
    assert_eq!(half_open.status, Status::HalfOpen);

    breaker.report_stat(&success("svc-a"), 1000);
    let recovered = breaker.check_resource(&service_resource("svc-a"), 1000);
    assert_eq!(recovered.status, Status::Close);
}

#[test]
fn open_circuit_stays_open_within_sleep_window() {
    let mut breaker = CompositeCircuitBreaker::new_with_rules(vec![recoverable_consecutive_error_rule(1, 10, 1)]);

    breaker.report_stat(&failure("svc-a"), 1000);
    assert_eq!(breaker.check_resource(&service_resource("svc-a"), 5000).status, Status::Open);
    assert_eq!(breaker.check_resource(&service_resource("svc-a"), 11000).status, Status::HalfOpen);
}

#[test]
fn circuit_breaker_rules_from_service_rules_downcasts_expected_type() {
    let rules = circuit_breaker_rules_from_service_rules(vec![CachedRule::CircuitBreaker(CircuitBreakerRule {
        id: "cb-1".to_string(),
        name: String::new(),
        enable: false,
        block_configs: Vec::new(),
    })])
    .unwrap();

    assert_eq!(rules.len(), 1);
    assert_eq!(rules[0].id, "cb-1");
}

#[test]
fn circuit_breaker_rules_from_service_rules_rejects_wrong_rule_type() {
    let err = circuit_breaker_rules_from_service_rules(vec![CachedRule::RateLimit(rate_limit_rule())]).unwrap_err();

    assert!(err.message.contains("expect CircuitBreakerRule"));
    assert_eq!(err.code, ErrorCode::InvalidRule);
}

#[test]
fn circuit_breaker_rule_service_key_uses_callee_service_resource() {
    let key = key("default", "orders");
    let resource = Resource::ServiceResource(ServiceResource::new(key.clone()));

    assert_eq!(circuit_breaker_rule_service_key(&resource), Some(key));
}

fn request_context() -> RequestContext {
    RequestContext {
        caller_service: key("default", "frontend"),
        callee_service: key("default", "orders"),
        protocol: "http".to_string(),
        method: "GET".to_string(),
        path: "/orders".to_string(),
        result_to_code: false,
    }
}

#[test]
fn circuit_breaker_api_installs_loaded_rules_before_checking() {
    let mut api = DefaultCircuitBreakerAPI::new();
    let loaded = vec![CachedRule::CircuitBreaker(consecutive_error_rule(1))];
    api.report_stat_with_rules(&failure("orders"), Some(loaded.clone()), 1000).unwrap();
    let status = api.check_resource_with_rules(&service_resource("orders"), None, 1000).unwrap();
    assert_eq!(status.status, Status::Open);
}

#[test]
fn circuit_breaker_api_refuses_loaded_rules_of_another_kind() {
    let mut api = DefaultCircuitBreakerAPI::new();
    let err = api
        .check_resource_with_rules(&service_resource("orders"), Some(vec![CachedRule::RateLimit(rate_limit_rule())]), 0)
        .unwrap_err();
    assert_eq!(err.code, ErrorCode::InvalidRule);
}

#[test]
fn invoke_handler_permits_and_reports_a_successful_call() {
    let mut api = DefaultCircuitBreakerAPI::new();
    let handler: InvokeHandler = api.make_invoke_handler(request_context()).unwrap();
    assert!(handler.acquire_permission(api.breaker_mut(), 0).is_ok());
    handler
        .on_success(api.breaker_mut(), &ResponseContext { duration_ms: 7, result_code: None, error_code: None, call_aborted: false }, 0)
        .unwrap();
}

struct RecordingRuleRefresher {
    services: Vec<ServiceKey>,
    answer: Option<Vec<CachedRule>>,
}

impl CircuitBreakerRuleRefresher for RecordingRuleRefresher {
    fn refresh_rules_for_resource(&mut self, resource: &Resource) -> Result<Option<Vec<CachedRule>>, PoleError> {
        if let Resource::ServiceResource(resource) = resource {
            self.services.push(resource.callee.clone());
        }
        Ok(self.answer.clone())
    }
}

#[test]
fn invoke_handler_refreshes_callee_service_rules_before_checking() {
    let mut refresher = RecordingRuleRefresher { services: Vec::new(), answer: None };

    refresh_invoke_service_rules(&request_context(), &mut refresher).unwrap();

    assert_eq!(refresher.services.as_slice(), &[key("default", "orders")]);
}

#[test]
fn invoke_handler_refreshes_before_acquire_and_report() {
    let mut api = DefaultCircuitBreakerAPI::new();
    let mut refresher = RecordingRuleRefresher { services: Vec::new(), answer: None };
    let handler = api.make_invoke_handler(request_context()).unwrap();

    assert!(handler.acquire_permission_refreshing(&mut api, &mut refresher, 0).is_ok());
    handler
        .on_success_refreshing(
            &mut api,
            &mut refresher,
            &ResponseContext { duration_ms: 7, result_code: None, error_code: None, call_aborted: false },
            0,
        )
        .unwrap();

    assert_eq!(refresher.services.len(), 2);
    assert!(refresher.services.iter().all(|service| service.namespace == "default" && service.name == "orders"));
}

#[test]
fn invoke_handler_installs_refreshed_rules_before_reporting_and_checking() {
    let mut api = DefaultCircuitBreakerAPI::new();
    let mut refresher = RecordingRuleRefresher {
        services: Vec::new(),
        answer: Some(vec![CachedRule::CircuitBreaker(consecutive_error_rule(1))]),
    };
    let handler = api.make_invoke_handler(request_context()).unwrap();

    handler
        .on_success_refreshing(
            &mut api,
            &mut refresher,
            &ResponseContext { duration_ms: 7, result_code: None, error_code: None, call_aborted: true },
            1000,
        )
        .unwrap();
    refresher.answer = None;
    let refused = handler.acquire_permission_refreshing(&mut api, &mut refresher, 1000).unwrap_err();

    assert_eq!(refused.rule_name, "consecutive-error");
    assert_eq!(refresher.services.len(), 2);
}

#[test]
fn invoke_handler_report_returns_a_failed_refresh_and_a_check_goes_on() {
    let mut api = DefaultCircuitBreakerAPI::new();
    let handler = api.make_invoke_handler(request_context()).unwrap();
    let rsp = ResponseContext { duration_ms: 7, result_code: None, error_code: None, call_aborted: false };

    let failed = PoleError::new(ErrorCode::ServerError, "load failed".to_string());
    let err = handler.on_success_with_rules(&mut api, Err(failed), &rsp, 0).unwrap_err();
    assert_eq!(err.code, ErrorCode::ServerError);

    let wrong = Ok(Some(vec![CachedRule::RateLimit(rate_limit_rule())]));
    let err = handler.on_error_with_rules(&mut api, wrong.clone(), &rsp, 0).unwrap_err();
    assert_eq!(err.code, ErrorCode::InvalidRule);
    assert!(handler.acquire_permission_with_rules(&mut api, wrong, 0).is_ok());
}
