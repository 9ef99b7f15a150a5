//! What the client decides about the control plane's naming responses: the watch a response
//! answers, the service-contract request, and the contract an answer selects.

use vstd::prelude::*;
use crate::model::{ErrorCode, PoleError};
use crate::plugins::cache::memory::{EventType, rule_cache_key, spec_rule_cache_key};
use crate::specification::{
    DiscoverRequest, DiscoverRequestType, DiscoverResponse, DiscoverResponseType, ServiceContract,
    ServiceDescriptor,
};
use vstd::string::StringExecFns;

verus! {

/// The code of a successful response.
pub const EXECUTE_SUCCESS: u32 = 200000;

/// The code of a response that reports no change since the last one.
pub const DATA_NO_CHANGE: u32 = 200001;

/// The watch a naming response answers: the namespace for a service list, the kind and
/// service for a per-service resource; none for other kinds or a response without service.
pub open spec fn spec_watch_key(resp: DiscoverResponse) -> Option<Seq<char>> {
    match resp.service {
        None => None,
        Some(svc) => {
            let kind = match resp.response_type {
                DiscoverResponseType::Instance => Some(EventType::Instance),
                DiscoverResponseType::CustomRouteRule => Some(EventType::RouterRule),
                DiscoverResponseType::RateLimit => Some(EventType::RateLimitRule),
                DiscoverResponseType::CircuitBreaker => Some(EventType::CircuitBreakerRule),
                DiscoverResponseType::FaultDetector => Some(EventType::FaultDetectRule),
                DiscoverResponseType::Lane => Some(EventType::LaneRule),
                DiscoverResponseType::Lossless => Some(EventType::LosslessRule),
                DiscoverResponseType::TrafficSecurityRule => Some(EventType::TrafficSecurityRule),
                DiscoverResponseType::TrafficMirrorRule => Some(EventType::TrafficMirrorRule),
                DiscoverResponseType::TrafficMockRule => Some(EventType::TrafficMockRule),
                _ => None,
            };
            if resp.response_type == DiscoverResponseType::Services {
                Some(svc.namespace@)
            } else {
                match kind {
                    Some(k) => Some(spec_rule_cache_key(k, svc.namespace@, svc.name@)),
                    None => None,
                }
            }
        },
    }
}

pub fn discover_response_watch_key(resp: &DiscoverResponse) -> (r: Option<String>)
    ensures
        match r {
            Some(k) => spec_watch_key(*resp) == Some(k@),
            None => spec_watch_key(*resp).is_none(),
        },
{
    let svc = match &resp.service {
        None => return None,
        Some(s) => s,
    };
    if resp.response_type == DiscoverResponseType::Services {
        return Some(svc.namespace.clone());
    }
    let kind = match resp.response_type {
        DiscoverResponseType::Instance => EventType::Instance,
        DiscoverResponseType::CustomRouteRule => EventType::RouterRule,
        DiscoverResponseType::RateLimit => EventType::RateLimitRule,
        DiscoverResponseType::CircuitBreaker => EventType::CircuitBreakerRule,
        DiscoverResponseType::FaultDetector => EventType::FaultDetectRule,
        DiscoverResponseType::Lane => EventType::LaneRule,
        DiscoverResponseType::Lossless => EventType::LosslessRule,
        DiscoverResponseType::TrafficSecurityRule => EventType::TrafficSecurityRule,
        DiscoverResponseType::TrafficMirrorRule => EventType::TrafficMirrorRule,
        DiscoverResponseType::TrafficMockRule => EventType::TrafficMockRule,
        _ => return None,
    };
    Some(rule_cache_key(kind, svc.namespace.as_str(), svc.name.as_str()))
}

/// A request for the contracts of a service.
pub struct ServiceContractRequest {
    pub flow_id: String,
    pub contract: ServiceContract,
}

/// The naming request for the contracts of the requested service.
pub fn service_contract_discover_request(req: &ServiceContractRequest) -> (r: DiscoverRequest)
    ensures
        r.request_type == DiscoverRequestType::ServiceContracts,
        r.service matches Some(s) && s.namespace@ == req.contract.namespace@ && s.name@ == req.contract.service@
            && s.revision@.len() == 0,
{
    DiscoverRequest {
        request_type: DiscoverRequestType::ServiceContracts,
        service: Some(ServiceDescriptor {
            namespace: req.contract.namespace.clone(),
            name: req.contract.service.clone(),
            revision: String::new(),
        }),
    }
}

/// An optional field of a request: empty matches every value.
pub open spec fn spec_match_optional(expected: Seq<char>, actual: Seq<char>) -> bool {
    expected.len() == 0 || expected == actual
}

pub fn match_optional(expected: &str, actual: &str) -> (r: bool)
    ensures
        r == spec_match_optional(expected@, actual@),
{
    expected.unicode_len() == 0 || crate::text::str_equal(expected, actual)
}

/// Whether a published contract is the requested one: same namespace and service, and
/// name, version and protocol where the request gives them.
pub open spec fn spec_contract_matches(req: ServiceContract, c: ServiceContract) -> bool {
    &&& c.namespace@ == req.namespace@
    &&& c.service@ == req.service@
    &&& spec_match_optional(req.name@, c.name@)
    &&& spec_match_optional(req.version@, c.version@)
    &&& spec_match_optional(req.protocol@, c.protocol@)
}

fn contract_matches(req: &ServiceContract, c: &ServiceContract) -> (r: bool)
    ensures
        r == spec_contract_matches(*req, *c),
{
    crate::text::str_equal(c.namespace.as_str(), req.namespace.as_str())
        && crate::text::str_equal(c.service.as_str(), req.service.as_str())
        && match_optional(req.name.as_str(), c.name.as_str())
        && match_optional(req.version.as_str(), c.version.as_str())
        && match_optional(req.protocol.as_str(), c.protocol.as_str())
}

/// The first published contract, in order, that is the requested one.
pub open spec fn spec_select_contract(req: ServiceContract, cs: Seq<ServiceContract>) -> Option<ServiceContract>
    decreases cs.len(),
{
    if cs.len() == 0 {
        None
    } else if spec_contract_matches(req, cs[0]) {
        Some(cs[0])
    } else {
        spec_select_contract(req, cs.drop_first())
    }
}

pub fn select_service_contract(req: &ServiceContractRequest, resp: &DiscoverResponse) -> (r: Option<ServiceContract>)
    ensures
        r == spec_select_contract(req.contract, resp.service_contracts@),
{
    let cs = &resp.service_contracts;
    let mut i: usize = 0;
    assert(cs@.subrange(0, cs@.len() as int) =~= cs@);
    while i < cs.len()
        invariant
            i <= cs@.len(),
            cs@ == resp.service_contracts@,
            spec_select_contract(req.contract, cs@) == spec_select_contract(req.contract, cs@.subrange(i as int, cs@.len() as int)),
        decreases cs@.len() - i,
    {
        let ghost rest = cs@.subrange(i as int, cs@.len() as int);
        assert(rest.drop_first() =~= cs@.subrange(i + 1, cs@.len() as int));
        assert(rest[0] == cs@[i as int]);
        if contract_matches(&req.contract, &cs[i]) {
            return Some(cs[i].duplicate());
        }
        i = i + 1;
    }
    None
}

/// What a contract lookup does with one answer of the stream.
pub enum ContractStep {
    /// Wait for the next answer.
    Continue,
    /// The lookup ends with this result.
    Done(Result<ServiceContract, PoleError>),
}

/// The error of a lookup that found no matching contract.
pub open spec fn contract_not_found_message(c: ServiceContract) -> Seq<char> {
    "service_contract not found: namespace="@ + c.namespace@ + " service="@ + c.service@ + " name="@ + c.name@
        + " version="@ + c.version@ + " protocol="@ + c.protocol@
}

/// The step of a contract lookup for an answer: an unchanged answer or one of another kind
/// is skipped; a failed answer ends it with the server's message; a contracts answer ends
/// it with the requested contract, or not found.
pub open spec fn spec_contract_step(req: ServiceContractRequest, resp: DiscoverResponse, r: ContractStep) -> bool {
    if resp.code == DATA_NO_CHANGE {
        r is Continue
    } else if resp.code != EXECUTE_SUCCESS {
        r matches ContractStep::Done(Err(e)) && e.code == ErrorCode::ServerError && e.message@ == resp.info@
    } else if resp.response_type != DiscoverResponseType::ServiceContracts {
        r is Continue
    } else {
        match spec_select_contract(req.contract, resp.service_contracts@) {
            Some(c) => r matches ContractStep::Done(Ok(x)) && x == c,
            None => r matches ContractStep::Done(Err(e)) && e.code == ErrorCode::ServiceNotFound
                && e.message@ == contract_not_found_message(req.contract),
        }
    }
}

pub fn service_contract_step(req: &ServiceContractRequest, resp: &DiscoverResponse) -> (r: ContractStep)
    ensures
        spec_contract_step(*req, *resp, r),
{
    if resp.code == DATA_NO_CHANGE {
        return ContractStep::Continue;
    }
    if resp.code != EXECUTE_SUCCESS {
        return ContractStep::Done(Err(PoleError::new(ErrorCode::ServerError, resp.info.clone())));
    }
    if resp.response_type != DiscoverResponseType::ServiceContracts {
        return ContractStep::Continue;
    }
    match select_service_contract(req, resp) {
        Some(c) => ContractStep::Done(Ok(c)),
        None => {
            let c = &req.contract;
            let mut m = String::from_str("service_contract not found: namespace=");
            m.append(c.namespace.as_str());
            m.append(" service=");
            m.append(c.service.as_str());
            m.append(" name=");
            m.append(c.name.as_str());
            m.append(" version=");
            m.append(c.version.as_str());
            m.append(" protocol=");
            m.append(c.protocol.as_str());
            ContractStep::Done(Err(PoleError::new(ErrorCode::ServiceNotFound, m)))
        },
    }
}

/// The error of a lookup whose answer stream ended.
pub fn contract_stream_closed() -> (e: PoleError)
    ensures
        e.code == ErrorCode::ServiceNotFound,
        e.message@ == "service_contract response stream closed"@,
{
    PoleError::new(ErrorCode::ServiceNotFound, String::from_str("service_contract response stream closed"))
}

/// The error of a lookup that waited too long for an answer.
pub fn contract_timed_out() -> (e: PoleError)
    ensures
        e.code == ErrorCode::ServerError,
        e.message@ == "get service_contract request timeout"@,
{
    PoleError::new(ErrorCode::ServerError, String::from_str("get service_contract request timeout"))
}

} // verus!
