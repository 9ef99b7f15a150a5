//! The decisions a route makes on the traffic policies' verdict before instances are
//! chosen: refuse denied traffic, answer with a mock, copy the request to mirrors.

use vstd::prelude::*;
use vstd::string::StringExecFns;
use crate::model::{instance_views, ErrorCode, PoleError, ServiceInstances};
use crate::specification::MirrorDestination;
use crate::traffic::policy::req::{destination_views, duplicate_destinations, MirrorRequest, TrafficGovernanceResult};

verus! {

/// A route's answer: the instances left, and what the traffic policies decided.
pub struct ProcessRouteResponse {
    pub service_instances: ServiceInstances,
    pub traffic_governance: TrafficGovernanceResult,
}

/// How a denied request is refused: with the rule's code and message where it gives them.
pub open spec fn spec_denial_message(g: TrafficGovernanceResult) -> Seq<char> {
    match g.security.reject_effect {
        Some(e) => "traffic security denied: code="@ + e.code@ + " message="@ + e.message@,
        None => "traffic security denied"@,
    }
}

/// Lets allowed traffic through; denied traffic is refused as unauthorized.
pub fn reject_denied_traffic(governance: &TrafficGovernanceResult) -> (r: Result<(), PoleError>)
    ensures
        governance.security.allowed <==> r is Ok,
        r matches Err(e) ==> e.code == ErrorCode::Unauthorized && e.message@ == spec_denial_message(*governance),
{
    if governance.security.allowed {
        return Ok(());
    }
    let message = match &governance.security.reject_effect {
        Some(effect) => {
            let mut m = String::from_str("traffic security denied: code=");
            m.append(effect.code.as_str());
            m.append(" message=");
            m.append(effect.message.as_str());
            m
        },
        None => String::from_str("traffic security denied"),
    };
    Err(PoleError::new(ErrorCode::Unauthorized, message))
}

/// A mock rule answers the route itself: the instances as they are and the verdict; no
/// answer when no mock rule matched.
pub fn mock_route_response(governance: &TrafficGovernanceResult, service_instances: &ServiceInstances) -> (r: Option<ProcessRouteResponse>)
    ensures
        governance.mock is None <==> r is None,
        r matches Some(resp) ==> {
            &&& resp.service_instances.service@ == service_instances.service@
            &&& instance_views(resp.service_instances.instances@) == instance_views(service_instances.instances@)
            &&& resp.service_instances.total_weight == service_instances.total_weight
            &&& resp.traffic_governance.mock == governance.mock
            &&& resp.traffic_governance.security.allowed == governance.security.allowed
            &&& resp.traffic_governance.security.reject_effect == governance.security.reject_effect
            &&& destination_views(resp.traffic_governance.mirrors@) == destination_views(governance.mirrors@)
        },
{
    if governance.mock.is_none() {
        return None;
    }
    Some(ProcessRouteResponse {
        service_instances: service_instances.duplicate(),
        traffic_governance: governance.duplicate(),
    })
}

/// Where a route's request is copied to, and the copy: only when mirrors matched, a sender
/// is there to send and the route carries the request.
pub fn route_mirror_targets(governance: &TrafficGovernanceResult, has_sender: bool, mirror_request: Option<MirrorRequest>) -> (r: Option<(Vec<MirrorDestination>, MirrorRequest)>)
    ensures
        r is Some <==> (governance.mirrors@.len() > 0 && has_sender && mirror_request is Some),
        r matches Some((d, q)) ==> destination_views(d@) == destination_views(governance.mirrors@)
            && mirror_request == Some(q),
{
    if governance.mirrors.len() == 0 || !has_sender {
        return None;
    }
    match mirror_request {
        None => None,
        Some(request) => Some((duplicate_destinations(&governance.mirrors), request)),
    }
}

} // verus!
