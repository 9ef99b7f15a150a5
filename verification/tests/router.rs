use pole_rust::model::{ErrorCode, ServiceInfo, ServiceInstances};
use pole_rust::specification::{MirrorDestination, MockResponse, TrafficSecurityRejectEffect};
use pole_rust::traffic::policy::req::{MirrorRequest, TrafficGovernanceResult, TrafficSecurityDecision};
use pole_rust::traffic::router::default::{mock_route_response, reject_denied_traffic, route_mirror_targets};
use pole_rust::model::MetadataEntry;

fn no_instances() -> ServiceInstances {
    ServiceInstances::new(
        ServiceInfo { namespace: String::new(), name: String::new(), revision: String::new(), metadata: Vec::new() },
        Vec::new(),
    )
}

#[test]
fn traffic_security_deny_is_converted_to_router_error() {
    let governance = TrafficGovernanceResult {
        security: TrafficSecurityDecision {
            allowed: false,
            reject_effect: Some(TrafficSecurityRejectEffect {
                code: "DENIED".to_string(),
                message: "blocked".to_string(),
            }),
        },
        ..TrafficGovernanceResult::default()
    };

    let err = reject_denied_traffic(&governance).unwrap_err();

    assert!(err.describe().contains("UNAUTHORIZED"));
    assert!(err.describe().contains("DENIED"));
    assert!(err.describe().contains("blocked"));
}

#[test]
fn mock_governance_short_circuits_route_response() {
    let governance = TrafficGovernanceResult {
        mock: Some(MockResponse {
            code: "OK".to_string(),
            body: "{\"ok\":true}".to_string(),
        }),
        ..TrafficGovernanceResult::default()
    };

    let response = mock_route_response(&governance, &no_instances()).expect("mock matched");

    assert_eq!(response.traffic_governance.mock.unwrap().code, "OK");
    assert!(response.service_instances.instances.is_empty());
}

#[test]
fn allowed_traffic_passes_and_denial_without_effect_has_a_plain_message() {
    assert!(reject_denied_traffic(&TrafficGovernanceResult::default()).is_ok());
    let governance = TrafficGovernanceResult {
        security: TrafficSecurityDecision { allowed: false, reject_effect: None },
        ..TrafficGovernanceResult::default()
    };
    let err = reject_denied_traffic(&governance).unwrap_err();
    assert_eq!(err.code, ErrorCode::Unauthorized);
    assert_eq!(err.message, "traffic security denied");
    assert_eq!(err.describe(), "UNAUTHORIZED: traffic security denied");
    assert!(mock_route_response(&TrafficGovernanceResult::default(), &no_instances()).is_none());
}

#[test]
fn route_mirrors_need_destinations_a_sender_and_the_request() {
    let request = MirrorRequest {
        method: "POST".to_string(),
        path: "/orders/42".to_string(),
        headers: vec![MetadataEntry { key: "x-debug".to_string(), value: "true".to_string() }],
        body: b"{\"id\":42}".to_vec(),
    };
    let governance = TrafficGovernanceResult {
        mirrors: vec![MirrorDestination {
            namespace: "shadow".to_string(),
            service: "orders-shadow".to_string(),
            labels: Vec::new(),
        }],
        ..TrafficGovernanceResult::default()
    };
    let (destinations, copy) = route_mirror_targets(&governance, true, Some(request.clone())).unwrap();
    assert_eq!(destinations.len(), 1);
    assert_eq!(destinations[0].service, "orders-shadow");
    assert_eq!(copy.path, "/orders/42");
    assert_eq!(copy.body, request.body);
    assert!(route_mirror_targets(&governance, false, Some(request.clone())).is_none());
    assert!(route_mirror_targets(&governance, true, None).is_none());
    assert!(route_mirror_targets(&TrafficGovernanceResult::default(), true, Some(request)).is_none());
}
