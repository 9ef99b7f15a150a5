use pole_rust::model::{ArgumentType, CachedRule, ErrorCode, Instance, Location, MetadataEntry, RouteInfo, ServiceKey, TrafficLabel};
use pole_rust::specification::{
    Api, LabelMatch, MatchString, MatchStringType, MirrorDestination, MirrorRule, MockResponse, MockRule,
    SourceMatch, SourceMatchType, SourceService, TrafficMatchMode, TrafficMatchRule, TrafficMirror,
    TrafficMock, TrafficSecurityAction, TrafficSecurityPolicy, TrafficSecurityRejectEffect,
    TrafficSecurityRule, ValueType,
};
use pole_rust::traffic::policy::default::{
    DestinationBaseUrl, GrpcMirrorBody, GrpcMirrorSender, HttpMirrorSender, MirrorTarget,
    check_grpc_mirror_status, check_http_mirror_response, evaluate_traffic_governance,
    grpc_mirror_request_plan, http_mirror_request_head, mirror_instance_base_url, parse_grpc_base_url,
    parse_http_base_url, resolve_grpc_destination, resolve_http_destination, sample_decision,
    string_matches_service, traffic_governance_rules_from_cached_rules, traffic_sample_hit,
};
use pole_rust::traffic::policy::req::{MirrorRequest, TrafficGovernanceRules};

fn key(namespace: &str, name: &str) -> ServiceKey {
    ServiceKey { namespace: namespace.to_string(), name: name.to_string() }
}

fn label(t: ArgumentType, k: &str, v: &str) -> TrafficLabel {
    TrafficLabel { arg_type: t, key: k.to_string(), value: v.to_string() }
}

fn route_info() -> RouteInfo {
    RouteInfo {
        caller: key("default", "frontend"),
        callee: key("default", "orders"),
        metadata: Vec::new(),
        labels: vec![
            label(ArgumentType::Header, "x-user", "alice"),
            label(ArgumentType::Header, "x-debug", "true"),
            label(ArgumentType::Method, "", "GET"),
            label(ArgumentType::Path, "", "/orders/42"),
        ],
        environment: Vec::new(),
        external_parameters: Vec::new(),
        chain: Vec::new(),
    }
}

fn header_match(key: &str, value: &str) -> TrafficMatchRule {
    TrafficMatchRule {
        arguments: vec![SourceMatch {
            match_type: SourceMatchType::Header,
            key: key.to_string(),
            value: Some(MatchString { match_type: MatchStringType::Exact, value: value.to_string(), value_type: ValueType::Text }),
        }],
        random_percent: 100,
        match_mode: TrafficMatchMode::And,
    }
}

fn api() -> Api {
    Api {
        protocol: "*".to_string(),
        method: "GET".to_string(),
        path: Some(MatchString { match_type: MatchStringType::Regex, value: r"^/orders/\d+$".to_string(), value_type: ValueType::Text }),
    }
}

fn empty_rules() -> TrafficGovernanceRules {
    TrafficGovernanceRules { security_rules: Vec::new(), mirror_rules: Vec::new(), mock_rules: Vec::new() }
}

fn frontend() -> Option<SourceService> {
    Some(SourceService { namespace: "default".to_string(), service: "frontend".to_string() })
}

fn shadow() -> MirrorDestination {
    MirrorDestination { namespace: "shadow".to_string(), service: "orders-shadow".to_string(), labels: Vec::new() }
}

fn instance(ip: &str, port: u32, protocol: &str, health: bool) -> Instance {
    Instance {
        id: ip.to_string(),
        namespace: "shadow".to_string(),
        service: "orders-shadow".to_string(),
        ip: ip.to_string(),
        port,
        protocol: protocol.to_string(),
        weight: 100,
        health,
        isolated: false,
        location: Location { region: String::new(), zone: String::new(), campus: String::new() },
        metadata: vec![MetadataEntry { key: "env".to_string(), value: "shadow".to_string() }],
    }
}

#[test]
fn traffic_sample_hit_respects_percent_boundaries_and_is_stable() {
    let info = route_info();

    assert!(!traffic_sample_hit(&info, 0, "mirror"));
    assert!(traffic_sample_hit(&info, 100, "mirror"));
    assert_eq!(traffic_sample_hit(&info, 37, "mirror"), traffic_sample_hit(&info, 37, "mirror"));
}

#[test]
fn sample_decision_compares_the_hash_modulo_a_hundred() {
    assert!(sample_decision(37, 136));
    assert!(!sample_decision(37, 137));
    assert!(!sample_decision(0, 0));
    assert!(sample_decision(100, 99));
}

#[test]
fn traffic_governance_denies_with_matching_security_policy() {
    let mut rules = empty_rules();
    rules.security_rules = vec![TrafficSecurityRule {
        id: "security-1".to_string(),
        enable: true,
        priority: 0,
        policies: vec![TrafficSecurityPolicy {
            apis: vec![api()],
            traffic_match_rule: Some(header_match("x-user", "alice")),
            action: TrafficSecurityAction::Deny,
            reject_effect: Some(TrafficSecurityRejectEffect { code: "DENIED".to_string(), message: "blocked".to_string() }),
        }],
    }];
    let result = evaluate_traffic_governance(&route_info(), &rules);

    assert!(!result.security.allowed);
    assert_eq!(result.security.reject_effect.unwrap().code, "DENIED");
}

#[test]
fn traffic_governance_allows_without_matching_policy() {
    let mut rules = empty_rules();
    rules.security_rules = vec![TrafficSecurityRule {
        id: "security-1".to_string(),
        enable: true,
        priority: 0,
        policies: vec![TrafficSecurityPolicy {
            apis: vec![api()],
            traffic_match_rule: Some(header_match("x-user", "bob")),
            action: TrafficSecurityAction::Deny,
            reject_effect: None,
        }],
    }];
    let result = evaluate_traffic_governance(&route_info(), &rules);

    assert!(result.security.allowed);
    assert!(result.security.reject_effect.is_none());
}

#[test]
fn traffic_governance_returns_matching_mirror_destination() {
    let mut rules = empty_rules();
    rules.mirror_rules = vec![TrafficMirror {
        id: "mirror-1".to_string(),
        enable: true,
        priority: 0,
        caller: frontend(),
        rules: vec![MirrorRule {
            apis: vec![api()],
            traffic_match_rule: Some(header_match("x-debug", "true")),
            destination: Some(shadow()),
            mirror_percent: 100,
            disable: false,
        }],
    }];
    let result = evaluate_traffic_governance(&route_info(), &rules);

    assert_eq!(result.mirrors.len(), 1);
    assert_eq!(result.mirrors[0].service, "orders-shadow");
}

#[test]
fn traffic_governance_returns_matching_mock_response() {
    let mut rules = empty_rules();
    rules.mock_rules = vec![TrafficMock {
        id: "mock-1".to_string(),
        enable: true,
        priority: 0,
        caller: frontend(),
        rules: vec![MockRule {
            apis: vec![api()],
            traffic_match_rule: Some(header_match("x-user", "alice")),
            response: Some(MockResponse { code: "OK".to_string(), body: "{\"ok\":true}".to_string() }),
            mock_percent: 100,
            disable: false,
        }],
    }];
    let result = evaluate_traffic_governance(&route_info(), &rules);

    assert_eq!(result.mock.unwrap().code, "OK");
}

#[test]
fn traffic_governance_skips_rules_of_other_callers() {
    let mut rules = empty_rules();
    rules.mock_rules = vec![TrafficMock {
        id: "mock-1".to_string(),
        enable: true,
        priority: 0,
        caller: Some(SourceService { namespace: "default".to_string(), service: "payments".to_string() }),
        rules: vec![MockRule {
            apis: vec![api()],
            traffic_match_rule: None,
            response: Some(MockResponse { code: "OK".to_string(), body: String::new() }),
            mock_percent: 100,
            disable: false,
        }],
    }];
    assert!(evaluate_traffic_governance(&route_info(), &rules).mock.is_none());
}

#[test]
fn traffic_governance_rules_downcast_cached_rule_types() {
    let rules = traffic_governance_rules_from_cached_rules(
        vec![CachedRule::TrafficSecurity(TrafficSecurityRule { id: "security-1".to_string(), enable: false, priority: 0, policies: Vec::new() })],
        vec![CachedRule::TrafficMirror(TrafficMirror { id: "mirror-1".to_string(), enable: false, priority: 0, caller: None, rules: Vec::new() })],
        vec![CachedRule::TrafficMock(TrafficMock { id: "mock-1".to_string(), enable: false, priority: 0, caller: None, rules: Vec::new() })],
    )
    .unwrap();

    assert_eq!(rules.security_rules[0].id, "security-1");
    assert_eq!(rules.mirror_rules[0].id, "mirror-1");
    assert_eq!(rules.mock_rules[0].id, "mock-1");
}

#[test]
fn traffic_governance_rules_refuse_a_rule_of_another_kind() {
    let err = traffic_governance_rules_from_cached_rules(
        Vec::new(),
        vec![CachedRule::TrafficMock(TrafficMock { id: "mock-1".to_string(), enable: false, priority: 0, caller: None, rules: Vec::new() })],
        Vec::new(),
    )
    .err()
    .unwrap();
    assert_eq!(err.code, ErrorCode::InvalidRule);
    assert_eq!(err.message, "rule type error, expect TrafficMirror");
}

#[test]
fn grpc_mirror_body_wraps_uncompressed_unary_message() {
    let body = GrpcMirrorBody::uncompressed_unary(b"abc");

    assert_eq!(body, vec![0, 0, 0, 0, 3, b'a', b'b', b'c']);
}

#[test]
fn grpc_mirror_body_writes_length_big_endian() {
    let message = vec![7u8; 300];
    let body = GrpcMirrorBody::uncompressed_unary(&message);
    assert_eq!(&body[..5], &[0, 0, 0, 1, 44]);
    assert_eq!(body.len(), 305);
}

#[test]
fn service_fields_match_empty_star_or_equal() {
    assert!(string_matches_service("", "orders"));
    assert!(string_matches_service("*", "orders"));
    assert!(string_matches_service("orders", "orders"));
    assert!(!string_matches_service("payments", "orders"));
}

#[test]
fn http_base_urls_parse_host_and_port() {
    let t = parse_http_base_url("http://10.0.0.1:8080/").unwrap();
    assert_eq!(t.host, "10.0.0.1");
    assert_eq!(t.port, 8080);
    let t = parse_http_base_url("http://shadow").unwrap();
    assert_eq!(t.port, 80);
    assert_eq!(parse_http_base_url("grpc://shadow:1").err().unwrap().message, "only http mirror destination is supported: grpc://shadow:1");
    assert_eq!(parse_http_base_url("http://shadow:x").err().unwrap().message, "invalid mirror destination port: http://shadow:x");
    assert_eq!(parse_http_base_url("http://:80").err().unwrap().message, "invalid mirror destination host: http://:80");
}

#[test]
fn grpc_base_urls_accept_grpc_and_http_schemes() {
    assert_eq!(parse_grpc_base_url("grpc://shadow:9090").unwrap().port, 9090);
    assert_eq!(parse_grpc_base_url("http://shadow:9090").unwrap().host, "shadow");
    assert_eq!(parse_grpc_base_url("tcp://shadow").err().unwrap().message, "only grpc mirror destination is supported: tcp://shadow");
}

#[test]
fn mirror_destination_resolves_to_first_available_matching_instance() {
    let mut destination = shadow();
    destination.labels = vec![LabelMatch {
        key: "env".to_string(),
        value: MatchString { match_type: MatchStringType::Exact, value: "shadow".to_string(), value_type: ValueType::Text },
    }];
    let instances = vec![instance("10.0.0.1", 8080, "http", false), instance("10.0.0.2", 8081, "", true)];
    assert_eq!(resolve_http_destination(&instances, &destination).unwrap(), "http://10.0.0.2:8081");
    let err = resolve_http_destination(&Vec::new(), &destination).err().unwrap();
    assert_eq!(err.code, ErrorCode::ServiceNotFound);
    assert_eq!(err.message, "no available mirror destination instance: shadow#orders-shadow");
    let err = resolve_grpc_destination(&vec![instance("10.0.0.3", 9090, "http", true)], &destination).err().unwrap();
    assert_eq!(err.message, "unsupported mirror destination protocol: http");
}

#[test]
fn mirror_instance_without_address_is_refused() {
    let err = mirror_instance_base_url(&instance("", 0, "", true)).err().unwrap();
    assert_eq!(err.code, ErrorCode::InvalidServerResponse);
    assert_eq!(err.message, "invalid mirror destination instance address: :0");
}

#[test]
fn mirror_senders_use_configured_base_urls() {
    let http = HttpMirrorSender::new(vec![("shadow#orders-shadow".to_string(), "http://10.0.0.9:80".to_string())], 1000);
    match http.destination_base_url(&shadow()) {
        DestinationBaseUrl::Configured(url) => assert_eq!(url, "http://10.0.0.9:80"),
        _ => panic!("configured destination expected"),
    }
    let grpc = GrpcMirrorSender::new(Vec::new(), 1000);
    match grpc.destination_base_url(&shadow()) {
        DestinationBaseUrl::NotConfigured(e) => assert_eq!(e.message, "grpc mirror destination shadow#orders-shadow is not configured"),
        _ => panic!("unconfigured destination expected"),
    }
    let cached = HttpMirrorSender::with_resource_cache(1000);
    assert!(matches!(cached.destination_base_url(&shadow()), DestinationBaseUrl::FromInstances));
    assert_eq!(cached.timeout_error(&shadow()).message, "mirror destination shadow#orders-shadow timed out");
}

fn mirror_request() -> MirrorRequest {
    MirrorRequest {
        method: "POST".to_string(),
        path: String::new(),
        headers: vec![
            MetadataEntry { key: "x-trace".to_string(), value: "1".to_string() },
            MetadataEntry { key: "Content-Type".to_string(), value: "text/plain".to_string() },
        ],
        body: b"hello".to_vec(),
    }
}

#[test]
fn http_mirror_request_head_frames_the_request() {
    let head = http_mirror_request_head(&MirrorTarget { host: "shadow".to_string(), port: 80 }, &mirror_request());
    assert_eq!(
        head,
        "POST / HTTP/1.1\r\nhost: shadow\r\ncontent-length: 5\r\nconnection: close\r\nx-trace: 1\r\nContent-Type: text/plain\r\n\r\n"
    );
}

#[test]
fn http_mirror_responses_are_judged_by_status_line() {
    assert!(check_http_mirror_response(b"HTTP/1.1 204 No Content\r\n").is_ok());
    let err = check_http_mirror_response(b"HTTP/1.1 500 Oops\r\nx: y").err().unwrap();
    assert_eq!(err.message, "mirror destination returned HTTP/1.1 500 Oops");
    assert_eq!(check_http_mirror_response(b"").err().unwrap().message, "empty mirror response");
}

#[test]
fn grpc_mirror_plan_sets_grpc_headers_and_skips_reserved_ones() {
    let plan = grpc_mirror_request_plan(&MirrorTarget { host: "shadow".to_string(), port: 9090 }, &mirror_request()).unwrap();
    assert_eq!(plan.uri, "http://shadow:9090/");
    assert_eq!(
        plan.headers,
        vec![
            ("te".to_string(), "trailers".to_string()),
            ("content-type".to_string(), "application/grpc".to_string()),
            ("x-trace".to_string(), "1".to_string()),
        ]
    );
    let mut bad = mirror_request();
    bad.headers.push(MetadataEntry { key: "bad header".to_string(), value: "v".to_string() });
    let err = grpc_mirror_request_plan(&MirrorTarget { host: "shadow".to_string(), port: 9090 }, &bad).err().unwrap();
    assert_eq!(err.message, "invalid grpc mirror header name bad header: invalid HTTP header name");
}

#[test]
fn grpc_mirror_status_accepts_success_and_redirection() {
    assert!(check_grpc_mirror_status(200).is_ok());
    assert!(check_grpc_mirror_status(302).is_ok());
    assert_eq!(check_grpc_mirror_status(503).err().unwrap().message, "grpc mirror destination returned 503 Service Unavailable");
}

#[test]
fn sample_hit_depends_on_metadata_only_as_sorted_by_key() {
    let mut a = route_info();
    a.metadata = vec![
        MetadataEntry { key: "zone".to_string(), value: "z1".to_string() },
        MetadataEntry { key: "env".to_string(), value: "prod".to_string() },
    ];
    let mut b = route_info();
    b.metadata = vec![
        MetadataEntry { key: "env".to_string(), value: "prod".to_string() },
        MetadataEntry { key: "zone".to_string(), value: "z1".to_string() },
    ];
    b.labels = Vec::new();
    for percent in [1u32, 13, 37, 50, 99] {
        assert_eq!(traffic_sample_hit(&a, percent, "mirror"), traffic_sample_hit(&b, percent, "mirror"));
    }
    assert!(!traffic_sample_hit(&a, 0, "mirror"));
    assert!(traffic_sample_hit(&b, 250, "mirror"));
}

#[test]
fn grpc_mirror_header_names_follow_http_token_rules() {
    let target = MirrorTarget { host: "shadow".to_string(), port: 9090 };
    let with_header = |key: String| {
        let mut req = mirror_request();
        req.headers = vec![MetadataEntry { key, value: "v".to_string() }];
        grpc_mirror_request_plan(&target, &req)
    };
    assert!(with_header("X-Trace_ID~1".to_string()).is_ok());
    assert!(with_header("a".repeat(65535)).is_ok());
    assert!(with_header("a".repeat(65536)).is_err());
    assert!(with_header(String::new()).is_err());
    assert!(with_header("zoné".to_string()).is_err());
    assert!(with_header("a\"b".to_string()).is_err());
}
