use pole_rust::model::{ArgumentType, ErrorCode, PoleError, TrafficLabel};
use pole_rust::specification::{
    AmountMode,
    Amount, Api, FailoverType, LimitResource, LimitTrigger, MatchString, MatchStringType, RateLimit,
    RateLimitType, ValueType,
};
use pole_rust::traffic::ratelimit::api::{QuotaConsumption, apply_consumption_updates};
use pole_rust::traffic::ratelimit::counter::{LocalQuotaCounter, LocalReserveResult};
use pole_rust::traffic::ratelimit::default::{
    initial_consumptions, matching_quota_triggers, quota_rejected, quota_resource,
};
use pole_rust::traffic::ratelimit::local::{
    LocalQuotaLease, RemoteQuotaOutcome, complete_quota_reservation, plan_quota_reservation,
};
use pole_rust::traffic::ratelimit::req::{QuotaAmount, QuotaRequest, QuotaResource};

fn quota_request(resource: QuotaResource, amount: u32) -> QuotaRequest {
    QuotaRequest {
        flow_id: "flow-1".to_string(),
        timeout_ms: 1000,
        service: "svc-a".to_string(),
        namespace: "default".to_string(),
        method: "GET /orders".to_string(),
        labels: Vec::new(),
        quotas: vec![QuotaAmount { resource, amount }],
        lease_ttl_secs: 30,
        lease_ttl_nanos: 0,
    }
}

fn local_consumable_rule(resource: LimitResource, max_amount: u32) -> RateLimit {
    RateLimit {
        id: format!("{resource:?}-rule"),
        revision: "rev-1".to_string(),
        priority: 0,
        rule_type: RateLimitType::Local,
        disable: false,
        rules: vec![LimitTrigger {
            name: format!("{resource:?}-trigger"),
            disable: false,
            resource,
            apis: vec![Api { protocol: String::new(), method: "GET /orders".to_string(), path: None }],
            arguments: Vec::new(),
            amounts: vec![Amount { max_amount, valid_duration_secs: Some(60) }],
            concurrency_amount: None,
            failover: FailoverType::FailoverLocal,
            amount_mode: AmountMode::GlobalTotal,
        }],
        cluster: None,
    }
}

fn local_concurrency_rule(max_amount: u32) -> RateLimit {
    let mut rule = local_consumable_rule(LimitResource::Qps, 1);
    rule.id = "concurrency-rule".to_string();
    rule.rules[0].name = "concurrency-trigger".to_string();
    rule.rules[0].resource = LimitResource::Concurrency;
    rule.rules[0].amounts.clear();
    rule.rules[0].concurrency_amount = Some(max_amount);
    rule
}

fn reserve_local(counter: &mut LocalQuotaCounter, req: &QuotaRequest, rule: &RateLimit, now: u64) -> Result<LocalQuotaLease, PoleError> {
    let trigger = &rule.rules[0];
    let amount = req.amount_for(quota_resource(trigger.resource).unwrap()).unwrap();
    match counter.reserve(req, rule, trigger, amount, now)? {
        LocalReserveResult::Reserved(backend) => {
            Ok(LocalQuotaLease::new(req.quotas.clone(), initial_consumptions(&req.quotas), vec![backend]))
        }
        LocalReserveResult::Rejected(message) => Err(quota_rejected(message)),
        LocalReserveResult::NotConfigured => panic!("test rule must configure quota"),
    }
}

#[test]
fn rpm_reservation_commits_one_request_at_finish() {
    let mut counter = LocalQuotaCounter::new();
    let rule = local_consumable_rule(LimitResource::Qps, 2);
    let req = quota_request(QuotaResource::Qps, 1);

    reserve_local(&mut counter, &req, &rule, 0).unwrap().finish(&mut counter, 1, 0).unwrap();
    reserve_local(&mut counter, &req, &rule, 0).unwrap().finish(&mut counter, 1, 0).unwrap();

    let rejected = reserve_local(&mut counter, &req, &rule, 0).err().unwrap();
    assert_eq!(rejected.code, ErrorCode::RequestLimit);
}

#[test]
fn tpm_reserves_updates_and_returns_unused_quota() {
    let mut counter = LocalQuotaCounter::new();
    let rule = local_consumable_rule(LimitResource::Token, 100);
    let mut lease = reserve_local(&mut counter, &quota_request(QuotaResource::Token, 80), &rule, 0).unwrap();

    lease.update(&mut counter, 40, 0).unwrap();
    lease.finish(&mut counter, 60, 0).unwrap();

    let mut returned = reserve_local(&mut counter, &quota_request(QuotaResource::Token, 40), &rule, 0).unwrap();
    returned.finish(&mut counter, 0, 0).unwrap();
    let rejected = reserve_local(&mut counter, &quota_request(QuotaResource::Token, 41), &rule, 0).err().unwrap();
    assert_eq!(rejected.code, ErrorCode::RequestLimit);
}

#[test]
fn concurrency_occupancy_is_released_at_finish() {
    let mut counter = LocalQuotaCounter::new();
    let rule = local_concurrency_rule(1);
    let req = quota_request(QuotaResource::Concurrency, 1);
    let mut lease = reserve_local(&mut counter, &req, &rule, 0).unwrap();

    assert!(reserve_local(&mut counter, &req, &rule, 0).is_err());
    lease.finish(&mut counter, 0, 0).unwrap();
    reserve_local(&mut counter, &req, &rule, 0).unwrap();
}

#[test]
fn expired_local_concurrency_is_reclaimed_before_next_reserve() {
    let mut counter = LocalQuotaCounter::new();
    let rule = local_concurrency_rule(1);
    let mut req = quota_request(QuotaResource::Concurrency, 1);
    req.lease_ttl_secs = 0;
    req.lease_ttl_nanos = 1_000_000;
    let lease = reserve_local(&mut counter, &req, &rule, 0).unwrap();

    reserve_local(&mut counter, &req, &rule, 5).unwrap();
    lease.abandon(&mut counter, 5);
}

#[test]
fn cumulative_updates_are_idempotent_and_bounded() {
    let mut counter = LocalQuotaCounter::new();
    let rule = local_consumable_rule(LimitResource::Token, 100);
    let mut lease = reserve_local(&mut counter, &quota_request(QuotaResource::Token, 100), &rule, 0).unwrap();

    lease.update(&mut counter, 40, 0).unwrap();
    lease.update(&mut counter, 40, 0).unwrap();
    assert!(lease.update(&mut counter, 39, 0).is_err());
    assert!(lease.update(&mut counter, 101, 0).is_err());
    lease.finish(&mut counter, 60, 0).unwrap();
    lease.finish(&mut counter, 60, 0).unwrap();
}

#[test]
fn drop_settles_last_confirmed_consumption_without_double_charge() {
    let mut counter = LocalQuotaCounter::new();
    let rule = local_consumable_rule(LimitResource::Token, 100);
    let mut lease = reserve_local(&mut counter, &quota_request(QuotaResource::Token, 80), &rule, 0).unwrap();

    lease.update(&mut counter, 30, 0).unwrap();
    lease.abandon(&mut counter, 0);

    reserve_local(&mut counter, &quota_request(QuotaResource::Token, 70), &rule, 0).unwrap();
}

#[test]
fn all_consumable_windows_are_reserved_atomically() {
    let mut counter = LocalQuotaCounter::new();
    let mut rule = local_consumable_rule(LimitResource::Token, 100);
    rule.rules[0].amounts.push(Amount { max_amount: 50, valid_duration_secs: Some(1) });

    assert!(reserve_local(&mut counter, &quota_request(QuotaResource::Token, 60), &rule, 0).is_err());
    reserve_local(&mut counter, &quota_request(QuotaResource::Token, 50), &rule, 0).unwrap();
}

#[test]
fn local_mixed_metrics_share_one_public_lease() {
    let mut counter = LocalQuotaCounter::new();
    let qps = local_consumable_rule(LimitResource::Qps, 1);
    let token = local_consumable_rule(LimitResource::Token, 100);
    let concurrency = local_concurrency_rule(1);
    let quotas = vec![
        QuotaAmount { resource: QuotaResource::Qps, amount: 1 },
        QuotaAmount { resource: QuotaResource::Token, amount: 80 },
        QuotaAmount { resource: QuotaResource::Concurrency, amount: 1 },
    ];
    let mut req = quota_request(QuotaResource::Token, 80);
    req.quotas = quotas.clone();
    let mut backends = Vec::new();
    for rule in [&qps, &token, &concurrency] {
        let trigger = &rule.rules[0];
        let resource = quota_resource(trigger.resource).unwrap();
        let amount = req.amount_for(resource).unwrap();
        let LocalReserveResult::Reserved(backend) = counter.reserve(&req, rule, trigger, amount, 0).unwrap() else {
            panic!("mixed local quota must reserve");
        };
        backends.push(backend);
    }
    let mut lease = LocalQuotaLease::new(quotas, initial_consumptions(&req.quotas), backends);

    assert!(lease.update(&mut counter, 40, 0).is_err());
    lease
        .update_consumptions(&mut counter, &vec![QuotaConsumption { resource: QuotaResource::Token, consumed_total: 40 }], 0)
        .unwrap();
    lease
        .finish_consumptions(&mut counter, &vec![QuotaConsumption { resource: QuotaResource::Token, consumed_total: 60 }], 0)
        .unwrap();

    reserve_local(&mut counter, &quota_request(QuotaResource::Concurrency, 1), &concurrency, 0).unwrap();
    reserve_local(&mut counter, &quota_request(QuotaResource::Token, 40), &token, 0).unwrap();
    assert!(reserve_local(&mut counter, &quota_request(QuotaResource::Qps, 1), &qps, 0).is_err());
}

#[test]
fn token_rules_participate_in_request_matching() {
    let rule = local_consumable_rule(LimitResource::Token, 100);
    let req = quota_request(QuotaResource::Token, 10);

    let rules = vec![rule];
    let matches = matching_quota_triggers(&req, &rules);

    assert_eq!(matches.len(), 1);
    assert_eq!(rules[matches[0].0].rules[matches[0].1].resource, LimitResource::Token);
}

#[test]
fn api_path_mismatch_does_not_select_a_rule() {
    let mut rule = local_consumable_rule(LimitResource::Qps, 1);
    rule.rules[0].apis[0].method = "GET".to_string();
    rule.rules[0].apis[0].path = Some(MatchString {
        match_type: MatchStringType::Exact,
        value: "/orders/42".to_string(),
        value_type: ValueType::Text,
    });
    let mut req = quota_request(QuotaResource::Qps, 1);
    req.method = "GET".to_string();
    req.labels = vec![TrafficLabel { arg_type: ArgumentType::Path, key: String::new(), value: "/orders/99".to_string() }];

    assert!(matching_quota_triggers(&req, &vec![rule]).is_empty());
}

#[test]
fn window_quota_is_available_again_after_the_window() {
    let mut counter = LocalQuotaCounter::new();
    let rule = local_consumable_rule(LimitResource::Qps, 1);
    let req = quota_request(QuotaResource::Qps, 1);
    reserve_local(&mut counter, &req, &rule, 0).unwrap().finish(&mut counter, 1, 0).unwrap();
    assert!(reserve_local(&mut counter, &req, &rule, 1_000).is_err());
    reserve_local(&mut counter, &req, &rule, 60_000).unwrap();
}

#[test]
fn finished_lease_refuses_other_totals() {
    let mut counter = LocalQuotaCounter::new();
    let rule = local_consumable_rule(LimitResource::Token, 100);
    let mut lease = reserve_local(&mut counter, &quota_request(QuotaResource::Token, 50), &rule, 0).unwrap();
    lease.finish(&mut counter, 20, 0).unwrap();
    let err = lease.finish(&mut counter, 30, 0).unwrap_err();
    assert_eq!(err.code, ErrorCode::InvalidState);
    assert_eq!(err.message, "quota lease is already finished");
}

#[test]
fn reservation_plan_routes_quotas_by_rule_type() {
    let local = local_consumable_rule(LimitResource::Token, 100);
    let mut global = local_consumable_rule(LimitResource::Qps, 5);
    global.rule_type = RateLimitType::Global;
    let mut req = quota_request(QuotaResource::Token, 10);
    req.quotas.push(QuotaAmount { resource: QuotaResource::Qps, amount: 1 });
    let rules = vec![local, global];
    let plan = plan_quota_reservation(&req, &rules);
    assert_eq!(plan.local.len(), 1);
    assert_eq!(plan.local[0].rule, 0);
    assert_eq!(plan.local[0].amount, 10);
    assert_eq!(plan.distributed.len(), 1);
    assert_eq!(plan.distributed[0].rule, 1);
}

#[test]
fn reservation_refused_by_quota_servers_reserves_nothing_locally() {
    let mut counter = LocalQuotaCounter::new();
    let mut global = local_consumable_rule(LimitResource::Qps, 5);
    global.rule_type = RateLimitType::Global;
    let rules = vec![global];
    let req = quota_request(QuotaResource::Qps, 1);
    let plan = plan_quota_reservation(&req, &rules);
    let err = complete_quota_reservation(&mut counter, &req, &rules, &plan, RemoteQuotaOutcome::Rejected("quota exhausted".to_string()), 0)
        .err()
        .unwrap();
    assert_eq!(err.code, ErrorCode::RequestLimit);
    assert_eq!(err.message, "quota exhausted");
}

#[test]
fn unreachable_quota_servers_fall_back_to_local_counting() {
    let mut counter = LocalQuotaCounter::new();
    let mut global = local_consumable_rule(LimitResource::Qps, 1);
    global.rule_type = RateLimitType::Global;
    let rules = vec![global];
    let req = quota_request(QuotaResource::Qps, 1);
    let plan = plan_quota_reservation(&req, &rules);
    let failure = || RemoteQuotaOutcome::Failed(PoleError { code: ErrorCode::NetworkError, message: "unreachable".to_string() });
    let mut lease = complete_quota_reservation(&mut counter, &req, &rules, &plan, failure(), 0).unwrap();
    lease.finish(&mut counter, 1, 0).unwrap();
    let err = complete_quota_reservation(&mut counter, &req, &rules, &plan, failure(), 0).err().unwrap();
    assert_eq!(err.code, ErrorCode::NetworkError);
}

#[test]
fn local_reservation_refusal_gives_back_earlier_reservations() {
    let mut counter = LocalQuotaCounter::new();
    let token = local_consumable_rule(LimitResource::Token, 100);
    let concurrency = local_concurrency_rule(1);
    let rules = vec![token, concurrency];
    let mut req = quota_request(QuotaResource::Token, 80);
    req.quotas.push(QuotaAmount { resource: QuotaResource::Concurrency, amount: 1 });
    let plan = plan_quota_reservation(&req, &rules);
    assert_eq!(plan.local.len(), 2);
    let _held = complete_quota_reservation(&mut counter, &req, &rules, &plan, RemoteQuotaOutcome::NotRequested, 0).unwrap();
    let err = complete_quota_reservation(&mut counter, &req, &rules, &plan, RemoteQuotaOutcome::NotRequested, 0).err().unwrap();
    assert_eq!(err.code, ErrorCode::RequestLimit);
    reserve_local(&mut counter, &quota_request(QuotaResource::Token, 20), &rules[0], 0).unwrap();
}

#[test]
fn refused_reservation_consumes_nothing() {
    let mut counter = LocalQuotaCounter::new();
    let qps = local_consumable_rule(LimitResource::Qps, 2);
    let token = local_consumable_rule(LimitResource::Token, 100);
    let rules = vec![qps, token];
    let mut req = quota_request(QuotaResource::Qps, 1);
    req.quotas.push(QuotaAmount { resource: QuotaResource::Token, amount: 200 });
    let plan = plan_quota_reservation(&req, &rules);
    assert_eq!(plan.local.len(), 2);
    for _ in 0..3 {
        let err = complete_quota_reservation(&mut counter, &req, &rules, &plan, RemoteQuotaOutcome::NotRequested, 0).err().unwrap();
        assert_eq!(err.code, ErrorCode::RequestLimit);
    }
    let single = quota_request(QuotaResource::Qps, 1);
    reserve_local(&mut counter, &single, &rules[0], 0).unwrap().finish(&mut counter, 1, 0).unwrap();
    reserve_local(&mut counter, &single, &rules[0], 0).unwrap().finish(&mut counter, 1, 0).unwrap();
    assert!(reserve_local(&mut counter, &single, &rules[0], 0).is_err());
}

#[test]
fn lease_ttl_is_checked_to_the_nanosecond() {
    let mut req = quota_request(QuotaResource::Token, 80);
    req.lease_ttl_secs = u32::MAX as u64;
    req.lease_ttl_nanos = 0;
    assert!(req.check_valid().is_ok());
    req.lease_ttl_nanos = 1;
    let err = req.check_valid().unwrap_err();
    assert_eq!(err.code, ErrorCode::ApiInvalidArgument);
    assert_eq!(err.message, "quota lease ttl exceeds the protocol limit");
    req.lease_ttl_secs = 0;
    req.lease_ttl_nanos = 0;
    assert_eq!(req.check_valid().unwrap_err().message, "quota lease ttl must be greater than zero");
    req.lease_ttl_nanos = 1;
    assert!(req.check_valid().is_ok());
    assert_eq!(req.lease_ttl_ms(), 1);
}

#[test]
fn finishing_again_with_the_same_total_changes_nothing() {
    let mut counter = LocalQuotaCounter::new();
    let rule = local_consumable_rule(LimitResource::Token, 100);
    let mut lease = reserve_local(&mut counter, &quota_request(QuotaResource::Token, 50), &rule, 0).unwrap();
    lease.finish(&mut counter, 20, 0).unwrap();
    lease.finish(&mut counter, 20, 5).unwrap();
    let err = lease.update(&mut counter, 30, 5).unwrap_err();
    assert_eq!(err.code, ErrorCode::InvalidState);
    assert_eq!(err.message, "quota lease is already finished");
}

#[test]
fn taking_the_same_totals_in_again_changes_nothing() {
    let reservations = vec![
        QuotaAmount { resource: QuotaResource::Token, amount: 100 },
        QuotaAmount { resource: QuotaResource::Qps, amount: 1 },
    ];
    let current = vec![
        QuotaConsumption { resource: QuotaResource::Token, consumed_total: 10 },
        QuotaConsumption { resource: QuotaResource::Qps, consumed_total: 0 },
    ];
    let updates = vec![
        QuotaConsumption { resource: QuotaResource::Qps, consumed_total: 1 },
        QuotaConsumption { resource: QuotaResource::Token, consumed_total: 60 },
    ];
    let next = apply_consumption_updates(&reservations, &current, &updates, false).unwrap();
    assert_eq!(next[0].consumed_total, 60);
    assert_eq!(next[1].consumed_total, 1);
    let again = apply_consumption_updates(&reservations, &next, &updates, false).unwrap();
    assert_eq!(again.len(), 2);
    assert_eq!(again[0].consumed_total, 60);
    assert_eq!(again[1].consumed_total, 1);
    assert_eq!(again[0].resource, QuotaResource::Token);
}

#[test]
fn window_never_holds_more_than_its_limit_over_a_sequence_of_calls() {
    let mut counter = LocalQuotaCounter::new();
    let rule = local_consumable_rule(LimitResource::Token, 100);
    let mut first = reserve_local(&mut counter, &quota_request(QuotaResource::Token, 60), &rule, 0).unwrap();
    assert!(reserve_local(&mut counter, &quota_request(QuotaResource::Token, 50), &rule, 0).is_err());
    first.finish(&mut counter, 30, 0).unwrap();
    let mut second = reserve_local(&mut counter, &quota_request(QuotaResource::Token, 50), &rule, 0).unwrap();
    assert!(reserve_local(&mut counter, &quota_request(QuotaResource::Token, 30), &rule, 0).is_err());
    second.update(&mut counter, 20, 0).unwrap();
    assert!(reserve_local(&mut counter, &quota_request(QuotaResource::Token, 21), &rule, 0).is_err());
    reserve_local(&mut counter, &quota_request(QuotaResource::Token, 20), &rule, 0).unwrap();
}
