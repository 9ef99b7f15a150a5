use pole_rust::model::{ErrorCode, Instance, Location};
use pole_rust::specification::{
    Amount, AmountMode, Api, FailoverType, LimitResource, LimitTrigger, QuotaCluster, RateLimit,
    RateLimitType,
};
use pole_rust::traffic::ratelimit::api::QuotaConsumption;
use pole_rust::traffic::ratelimit::distributed::{
    available_grpc_endpoints, amount_duration_seconds, build_init_request, build_reserve_request,
    check_init_response, check_reserve_response, check_response_command, check_settle_response,
    check_update_response, clock_offset_ms, ensure_same_cluster, expand_consumptions,
    init_quota_totals, is_stale_window, plan_distributed_lease, quota_accounting, quota_mode,
    reservations_of, select_endpoint_from_available, time_adjust_due, ttl_seconds,
    window_affinity, DistributedLease, DistributedQuotaSpec, EndpointBindings, LeaseCounterGroup,
    LeaseGroupsBuilder, QuotaAccounting, QuotaInitResponse, QuotaReservation,
    QuotaReserveResponse, QuotaSettleResponse, QuotaSettlement, QuotaTotal, QuotaUpdateResponse,
    QuotaWindow, QuotaWindows, RateLimitCmd, RemoteQuotaConsumption, RemoteQuotaMode,
    ReserveAnswer, WindowKey,
};
use pole_rust::traffic::ratelimit::req::{QuotaAmount, QuotaRequest, QuotaResource};
use sha2::{Digest, Sha256};

fn quota_request() -> QuotaRequest {
    QuotaRequest {
        flow_id: "flow-1".to_string(),
        timeout_ms: 1000,
        service: "orders".to_string(),
        namespace: "default".to_string(),
        method: "GET /orders".to_string(),
        labels: Vec::new(),
        quotas: vec![QuotaAmount { resource: QuotaResource::Qps, amount: 1 }],
        lease_ttl_secs: 30,
        lease_ttl_nanos: 0,
    }
}

fn trigger(resource: LimitResource) -> LimitTrigger {
    LimitTrigger {
        name: "tpm".to_string(),
        disable: false,
        resource,
        apis: vec![Api { protocol: String::new(), method: "GET /orders".to_string(), path: None }],
        arguments: Vec::new(),
        amounts: vec![
            Amount { max_amount: 100, valid_duration_secs: Some(60) },
            Amount { max_amount: 0, valid_duration_secs: Some(1) },
            Amount { max_amount: 5, valid_duration_secs: None },
        ],
        concurrency_amount: Some(3),
        failover: FailoverType::FailoverLocal,
        amount_mode: AmountMode::GlobalTotal,
    }
}

fn global_rule(cluster: Option<(&str, &str)>) -> RateLimit {
    RateLimit {
        id: "rule-1".to_string(),
        revision: "rev-1".to_string(),
        priority: 0,
        rule_type: RateLimitType::Global,
        disable: false,
        rules: vec![trigger(LimitResource::Qps)],
        cluster: cluster.map(|(n, s)| QuotaCluster { namespace: n.to_string(), service: s.to_string() }),
    }
}

fn limiter(ip: &str, port: u32, protocol: &str, health: bool) -> Instance {
    Instance {
        id: format!("{ip}:{port}"),
        namespace: "Polaris".to_string(),
        service: "polaris.limiter".to_string(),
        ip: ip.to_string(),
        port,
        protocol: protocol.to_string(),
        weight: 100,
        health,
        isolated: false,
        location: Location { region: String::new(), zone: String::new(), campus: String::new() },
        metadata: Vec::new(),
    }
}

fn group(resource: QuotaResource, amount: u32, accounting: QuotaAccounting, keys: Vec<u32>) -> LeaseCounterGroup {
    LeaseCounterGroup { resource, amount, accounting, counter_keys: keys }
}

fn consumption(counter_key: u32, consumed_total: u32) -> RemoteQuotaConsumption {
    RemoteQuotaConsumption { counter_key, consumed_total }
}

fn settlement(counter_key: u32, consumed_total: u32, returned_amount: u32) -> QuotaSettlement {
    QuotaSettlement { counter_key, consumed_total, returned_amount }
}

fn window_key(endpoint: &str, revision: &str) -> WindowKey {
    WindowKey {
        endpoint: endpoint.to_string(),
        cluster_namespace: "Polaris".to_string(),
        cluster_service: "polaris.limiter".to_string(),
        target_namespace: "default".to_string(),
        target_service: "orders".to_string(),
        labels: "GET /orders|RESOURCE:QPS|".to_string(),
        rule_id: "rule-1".to_string(),
        trigger_name: "tpm".to_string(),
        rule_revision: revision.to_string(),
    }
}

#[test]
fn expand_consumptions_reports_each_counter_with_its_resource_total() {
    let groups = vec![
        group(QuotaResource::Qps, 10, QuotaAccounting::Consumable, vec![1, 2]),
        group(QuotaResource::Concurrency, 1, QuotaAccounting::Occupancy, vec![7]),
    ];
    let consumptions = vec![
        QuotaConsumption { resource: QuotaResource::Concurrency, consumed_total: 1 },
        QuotaConsumption { resource: QuotaResource::Qps, consumed_total: 4 },
    ];
    let remote = expand_consumptions(&groups, &consumptions).unwrap();
    assert_eq!(remote, vec![consumption(1, 4), consumption(2, 4), consumption(7, 1)]);

    let missing = expand_consumptions(&groups, &consumptions[..1].to_vec()).unwrap_err();
    assert_eq!(missing.code, ErrorCode::ApiInvalidArgument);
    assert_eq!(missing.message, "quota consumption for Qps is missing");
}

#[test]
fn settle_response_must_return_unused_consumable_quota_and_whole_occupancy() {
    let groups = vec![
        group(QuotaResource::Qps, 10, QuotaAccounting::Consumable, vec![1, 2]),
        group(QuotaResource::Concurrency, 1, QuotaAccounting::Occupancy, vec![7]),
    ];
    let sent = vec![consumption(1, 4), consumption(2, 4), consumption(7, 1)];
    let good = QuotaSettleResponse {
        code: 200000,
        settlements: vec![settlement(1, 4, 6), settlement(2, 4, 6), settlement(7, 1, 1)],
    };
    assert!(check_settle_response(&groups, &sent, &Some(good)).is_ok());

    let wrong_return = QuotaSettleResponse {
        code: 200000,
        settlements: vec![settlement(1, 4, 5), settlement(2, 4, 6), settlement(7, 1, 1)],
    };
    let err = check_settle_response(&groups, &sent, &Some(wrong_return)).unwrap_err();
    assert_eq!(err.code, ErrorCode::InvalidResponse);
    assert_eq!(err.message, "quota settle response does not match the request");

    let extra = QuotaSettleResponse {
        code: 200000,
        settlements: vec![settlement(1, 4, 6), settlement(2, 4, 6), settlement(7, 1, 1), settlement(9, 0, 0)],
    };
    assert!(check_settle_response(&groups, &sent, &Some(extra)).is_err());

    let refused = QuotaSettleResponse { code: 500000, settlements: Vec::new() };
    let err = check_settle_response(&groups, &sent, &Some(refused)).unwrap_err();
    assert_eq!(err.code, ErrorCode::ServerError);
    assert_eq!(err.message, "quota settle returned code 500000");

    let err = check_settle_response(&groups, &sent, &None).unwrap_err();
    assert_eq!(err.message, "quota settle response is missing");
}

#[test]
fn settle_over_consumption_returns_nothing() {
    let groups = vec![group(QuotaResource::Qps, 3, QuotaAccounting::Consumable, vec![1])];
    let sent = vec![consumption(1, 5)];
    let resp = QuotaSettleResponse { code: 200000, settlements: vec![settlement(1, 5, 0)] };
    assert!(check_settle_response(&groups, &sent, &Some(resp)).is_ok());
}

#[test]
fn update_response_matches_in_any_order_but_not_with_other_totals() {
    let sent = vec![consumption(1, 4), consumption(2, 4)];
    let reordered = QuotaUpdateResponse { code: 200000, sequence: 3, consumptions: vec![consumption(2, 4), consumption(1, 4)] };
    assert!(check_update_response(3, &sent, Some(reordered)).is_ok());

    let other_total = QuotaUpdateResponse { code: 200000, sequence: 3, consumptions: vec![consumption(2, 4), consumption(1, 5)] };
    let err = check_update_response(3, &sent, Some(other_total)).unwrap_err();
    assert_eq!(err.code, ErrorCode::InvalidResponse);
    assert_eq!(err.message, "quota update response does not match the request");

    let duplicated = QuotaUpdateResponse { code: 200000, sequence: 3, consumptions: vec![consumption(1, 4), consumption(1, 4)] };
    assert!(check_update_response(3, &sent, Some(duplicated)).is_err());

    let old_sequence = QuotaUpdateResponse { code: 200000, sequence: 2, consumptions: sent.clone() };
    assert!(check_update_response(3, &sent, Some(old_sequence)).is_err());

    let refused = QuotaUpdateResponse { code: 400001, sequence: 3, consumptions: Vec::new() };
    let err = check_update_response(3, &sent, Some(refused)).unwrap_err();
    assert_eq!(err.code, ErrorCode::ServerError);
    assert_eq!(err.message, "quota update returned code 400001");

    assert_eq!(check_update_response(3, &sent, None).unwrap_err().message, "quota update response is missing");
}

#[test]
fn reserve_refusal_is_an_answer_and_an_empty_lease_id_an_error() {
    match check_reserve_response(Some(QuotaReserveResponse { code: 200000, lease_id: "lease-1".to_string() })).unwrap() {
        ReserveAnswer::Reserved { lease_id } => assert_eq!(lease_id, "lease-1"),
        ReserveAnswer::Rejected { .. } => panic!("expected a lease"),
    }
    match check_reserve_response(Some(QuotaReserveResponse { code: 429001, lease_id: String::new() })).unwrap() {
        ReserveAnswer::Rejected { message } => assert_eq!(message, "distributed rate limit quota exhausted, code 429001"),
        ReserveAnswer::Reserved { .. } => panic!("expected a refusal"),
    }
    let err = check_reserve_response(Some(QuotaReserveResponse { code: 200000, lease_id: String::new() })).unwrap_err();
    assert_eq!(err.code, ErrorCode::InvalidResponse);
    assert_eq!(err.message, "quota reserve response has an empty lease id");
    assert_eq!(check_reserve_response(None).unwrap_err().message, "quota reserve response is missing");
}

#[test]
fn init_response_needs_success_and_counters() {
    let (client_key, counters) = check_init_response(Some(QuotaInitResponse { code: 200000, client_key: 9, counter_keys: vec![4, 5] })).unwrap();
    assert_eq!(client_key, 9);
    assert_eq!(counters, vec![4, 5]);
    let err = check_init_response(Some(QuotaInitResponse { code: 200000, client_key: 9, counter_keys: Vec::new() })).unwrap_err();
    assert_eq!(err.message, "rate limit init returned no counters");
    let err = check_init_response(Some(QuotaInitResponse { code: 500001, client_key: 9, counter_keys: vec![4] })).unwrap_err();
    assert_eq!(err.code, ErrorCode::ServerError);
    assert_eq!(err.message, "rate limit init returned code 500001");
    assert_eq!(check_init_response(None).unwrap_err().message, "rate limit init response is missing");
}

#[test]
fn grpc_endpoints_are_available_sorted_and_unique() {
    let instances = vec![
        limiter("10.0.0.2", 8081, "GRPC", true),
        limiter("10.0.0.1", 8081, "grpc", true),
        limiter("10.0.0.3", 8081, "http", true),
        limiter("10.0.0.4", 8081, "grpc", false),
        limiter("10.0.0.1", 8081, "grpc", true),
    ];
    assert_eq!(available_grpc_endpoints(&instances).unwrap(), vec!["10.0.0.1:8081".to_string(), "10.0.0.2:8081".to_string()]);

    let none = vec![limiter("10.0.0.3", 8081, "http", true)];
    let err = available_grpc_endpoints(&none).unwrap_err();
    assert_eq!(err.code, ErrorCode::InstanceNotFound);
    assert_eq!(err.message, "rate limit cluster has no available grpc instance");
}

#[test]
fn endpoint_is_picked_by_the_affinity_hash() {
    let available = vec!["a:1".to_string(), "b:1".to_string(), "c:1".to_string()];
    let digest = Sha256::digest("cluster#affinity".as_bytes());
    let hash = u64::from_be_bytes(digest[..8].try_into().unwrap());
    let expected = available[(hash as usize) % available.len()].clone();
    assert_eq!(select_endpoint_from_available(&available, "cluster#affinity"), expected);
}

#[test]
fn endpoint_binding_sticks_while_its_server_is_available() {
    let mut bindings = EndpointBindings::new();
    let both = vec![limiter("10.0.0.1", 8081, "grpc", true), limiter("10.0.0.2", 8081, "grpc", true)];
    let first = bindings.endpoint_for(&both, "affinity").unwrap();
    assert_eq!(bindings.endpoint_for(&both, "affinity").unwrap(), first);
    assert_eq!(bindings.bindings.len(), 1);

    let other = if first == "10.0.0.1:8081" { limiter("10.0.0.2", 8081, "grpc", true) } else { limiter("10.0.0.1", 8081, "grpc", true) };
    let moved = bindings.endpoint_for(&vec![other.clone()], "affinity").unwrap();
    assert_eq!(moved, format!("{}:{}", other.ip, other.port));
    assert_eq!(bindings.bindings, vec![("affinity".to_string(), moved.clone())]);

    let err = bindings.endpoint_for(&Vec::new(), "affinity").unwrap_err();
    assert_eq!(err.code, ErrorCode::InstanceNotFound);
    assert_eq!(bindings.bindings, vec![("affinity".to_string(), moved)]);
}

#[test]
fn ttl_is_rounded_up_to_whole_seconds() {
    assert_eq!(ttl_seconds(0, 0), 1);
    assert_eq!(ttl_seconds(0, 999_000_000), 1);
    assert_eq!(ttl_seconds(1, 0), 1);
    assert_eq!(ttl_seconds(1, 1), 2);
    assert_eq!(ttl_seconds(30, 0), 30);
    assert_eq!(ttl_seconds(u64::MAX, 0), u32::MAX);
}

#[test]
fn amount_duration_is_at_least_one_second() {
    assert_eq!(amount_duration_seconds(&Amount { max_amount: 1, valid_duration_secs: Some(60) }), 60);
    assert_eq!(amount_duration_seconds(&Amount { max_amount: 1, valid_duration_secs: Some(0) }), 1);
    assert_eq!(amount_duration_seconds(&Amount { max_amount: 1, valid_duration_secs: Some(-5) }), 1);
    assert_eq!(amount_duration_seconds(&Amount { max_amount: 1, valid_duration_secs: None }), 1);
}

#[test]
fn init_totals_follow_the_trigger_resource() {
    let qps = init_quota_totals(&trigger(LimitResource::Qps)).unwrap();
    assert_eq!(qps, vec![
        QuotaTotal { mode: RemoteQuotaMode::Whole, duration: 60, max_amount: 100, accounting: QuotaAccounting::Consumable },
        QuotaTotal { mode: RemoteQuotaMode::Whole, duration: 1, max_amount: 5, accounting: QuotaAccounting::Consumable },
    ]);
    let mut shared = trigger(LimitResource::Concurrency);
    shared.amount_mode = AmountMode::ShareEqually;
    assert_eq!(quota_mode(&shared), RemoteQuotaMode::Divide);
    assert_eq!(init_quota_totals(&shared).unwrap(), vec![
        QuotaTotal { mode: RemoteQuotaMode::Divide, duration: 0, max_amount: 3, accounting: QuotaAccounting::Occupancy },
    ]);
    assert_eq!(quota_accounting(LimitResource::Token), QuotaAccounting::Consumable);

    let mut empty = trigger(LimitResource::Concurrency);
    empty.concurrency_amount = Some(0);
    let err = init_quota_totals(&empty).unwrap_err();
    assert_eq!(err.code, ErrorCode::InvalidRule);
    assert_eq!(err.message, "rate limit trigger tpm has no quota total");
    assert!(init_quota_totals(&trigger(LimitResource::Unknown)).is_err());
}

#[test]
fn window_key_and_init_request_name_the_cluster_and_target() {
    let req = quota_request();
    let rule = global_rule(Some(("Polaris", "polaris.limiter")));
    let key = WindowKey::from_rule(&req, &rule, &rule.rules[0], "10.0.0.1:8081").unwrap();
    assert_eq!(key.labels, "GET /orders|RESOURCE:QPS|");
    assert_eq!(key.rule_revision, "rev-1");
    assert_eq!(key.cluster_service, "polaris.limiter");
    let init = build_init_request("client-1", &key, &rule.rules[0]).unwrap();
    assert_eq!(init.client_id, "client-1");
    assert_eq!(init.target_service, "orders");
    assert_eq!(init.totals.len(), 2);

    let err = WindowKey::from_rule(&req, &global_rule(None), &rule.rules[0], "e").unwrap_err();
    assert_eq!(err.message, "global rate limit rule rule-1 does not declare cluster");
    let err = WindowKey::from_rule(&req, &global_rule(Some(("", "svc"))), &rule.rules[0], "e").unwrap_err();
    assert_eq!(err.message, "global rate limit rule rule-1 has an invalid cluster");
}

#[test]
fn lease_plan_joins_window_affinities_of_one_cluster() {
    let req = quota_request();
    let rule = global_rule(Some(("Polaris", "polaris.limiter")));
    assert_eq!(
        window_affinity(&req, &rule, &rule.rules[0]).unwrap(),
        "Polaris#polaris.limiter#default#orders#GET /orders|RESOURCE:QPS|"
    );
    let specs = vec![
        DistributedQuotaSpec { rule: rule.clone(), trigger: trigger(LimitResource::Qps), amount: 1 },
        DistributedQuotaSpec { rule: rule.clone(), trigger: trigger(LimitResource::Concurrency), amount: 1 },
    ];
    assert_eq!(
        plan_distributed_lease(&req, &specs).unwrap(),
        "Polaris#polaris.limiter#default#orders#GET /orders|RESOURCE:QPS|\
         |Polaris#polaris.limiter#default#orders#GET /orders|RESOURCE:CONCURRENCY|"
    );

    let err = plan_distributed_lease(&req, &Vec::new()).unwrap_err();
    assert_eq!(err.code, ErrorCode::ApiInvalidArgument);
    assert_eq!(err.message, "distributed quota reservation is empty");

    let mixed = vec![
        DistributedQuotaSpec { rule: rule.clone(), trigger: trigger(LimitResource::Qps), amount: 1 },
        DistributedQuotaSpec { rule: global_rule(Some(("Polaris", "other.limiter"))), trigger: trigger(LimitResource::Qps), amount: 1 },
    ];
    let err = ensure_same_cluster(&mixed).unwrap_err();
    assert_eq!(err.message, "one quota lease cannot span multiple limiter clusters");
    let no_cluster = vec![DistributedQuotaSpec { rule: global_rule(None), trigger: trigger(LimitResource::Qps), amount: 1 }];
    assert_eq!(ensure_same_cluster(&no_cluster).unwrap_err().message, "global rate limit rule does not declare cluster");
}

#[test]
fn lease_groups_need_one_client_key_and_distinct_counters() {
    let mut builder = LeaseGroupsBuilder::new();
    builder.add_window(7, vec![1, 2], &trigger(LimitResource::Qps), 3).unwrap();
    builder.add_window(7, vec![5], &trigger(LimitResource::Concurrency), 1).unwrap();
    assert_eq!(builder.client_key, Some(7));
    assert_eq!(builder.seen, vec![1, 2, 5]);
    assert_eq!(builder.groups.len(), 2);
    assert_eq!(builder.groups[1].accounting, QuotaAccounting::Occupancy);

    let err = builder.add_window(8, vec![9], &trigger(LimitResource::Qps), 1).unwrap_err();
    assert_eq!(err.message, "rate limit init responses disagree on client key");
    let err = builder.add_window(7, vec![9, 2], &trigger(LimitResource::Qps), 1).unwrap_err();
    assert_eq!(err.message, "rate limit init returned duplicate counter keys");
    let err = builder.add_window(7, vec![9], &trigger(LimitResource::Unknown), 1).unwrap_err();
    assert_eq!(err.code, ErrorCode::InvalidRule);
    assert_eq!(builder.seen, vec![1, 2, 5]);

    assert_eq!(reservations_of(&builder.groups), vec![
        QuotaReservation { counter_key: 1, amount: 3 },
        QuotaReservation { counter_key: 2, amount: 3 },
        QuotaReservation { counter_key: 5, amount: 1 },
    ]);
    let request = build_reserve_request(7, &builder.groups, 1, 500_000_000, 42);
    assert_eq!(request.ttl_seconds, 2);
    assert_eq!(request.timestamp, 42);
    assert_eq!(request.reservations.len(), 3);
    assert!(!request.idempotency_key.is_empty());
}

#[test]
fn windows_drop_older_copies_and_keep_their_opening() {
    let mut windows = QuotaWindows::new();
    let first = windows.window_for(window_key("a:1", "rev-1"));
    assert_eq!(first, 0);
    windows.windows[first].record_opening(1, 7, vec![3, 4]);
    assert_eq!(windows.windows[first].opened_on(1), Some((7, vec![3, 4])));
    assert_eq!(windows.windows[first].opened_on(2), None);
    assert_eq!(windows.window_for(window_key("a:1", "rev-1")), 0);

    assert!(is_stale_window(&window_key("a:1", "rev-1"), &window_key("a:1", "rev-2")));
    assert!(!is_stale_window(&window_key("a:1", "rev-1"), &window_key("a:1", "rev-1")));
    let moved = windows.window_for(window_key("b:1", "rev-1"));
    assert_eq!(moved, 0);
    assert_eq!(windows.windows.len(), 1);
    assert_eq!(windows.windows[0].key.endpoint, "b:1");
    assert!(windows.windows[0].initialized.is_none());
    assert!(QuotaWindow::new(window_key("a:1", "rev-1")).opened_on(1).is_none());
}

#[test]
fn stream_answers_must_follow_the_request_order() {
    assert!(check_response_command(RateLimitCmd::Reserve, RateLimitCmd::Reserve).is_ok());
    let err = check_response_command(RateLimitCmd::Reserve, RateLimitCmd::Update).unwrap_err();
    assert_eq!(err.code, ErrorCode::InvalidResponse);
    assert_eq!(err.message, "rate limit response command is out of order");
}

#[test]
fn clock_is_measured_at_the_midpoint_and_again_after_the_interval() {
    assert_eq!(clock_offset_ms(1000, 1100, 5050), 4000);
    assert!(!time_adjust_due(30_999, 1_000));
    assert!(time_adjust_due(31_000, 1_000));
}

#[test]
fn distributed_lease_reports_every_counter_and_checks_the_settlement() {
    let lease = DistributedLease::new(
        7,
        "lease-1".to_string(),
        vec![
            group(QuotaResource::Token, 100, QuotaAccounting::Consumable, vec![1, 2]),
            group(QuotaResource::Concurrency, 1, QuotaAccounting::Occupancy, vec![3]),
        ],
    );
    let consumptions = vec![
        QuotaConsumption { resource: QuotaResource::Token, consumed_total: 30 },
        QuotaConsumption { resource: QuotaResource::Concurrency, consumed_total: 1 },
    ];
    let report = lease.report(&consumptions, 2, 1234).unwrap();
    assert_eq!(report.client_key, 7);
    assert_eq!(report.lease_id, "lease-1");
    assert_eq!(report.sequence, 2);
    assert_eq!(report.timestamp, 1234);
    assert_eq!(report.consumptions, vec![consumption(1, 30), consumption(2, 30), consumption(3, 1)]);

    let update = QuotaUpdateResponse { code: 200000, sequence: 2, consumptions: report.consumptions.clone() };
    assert!(lease.check_update(&report, Some(update)).is_ok());
    let settled = QuotaSettleResponse {
        code: 200000,
        settlements: vec![settlement(1, 30, 70), settlement(2, 30, 70), settlement(3, 1, 1)],
    };
    assert!(lease.check_settle(&report, &Some(settled)).is_ok());

    let err = lease.report(&consumptions[..1].to_vec(), 3, 0).unwrap_err();
    assert_eq!(err.message, "quota consumption for Concurrency is missing");
}
