//! Resources that circuit breaking guards and the statistics reported about them.

use vstd::prelude::*;
use vstd::string::StringExecFns;
use crate::model::ServiceKey;

verus! {

/// Outcome of one call.
#[derive(Clone, Copy, Debug, PartialEq, Eq, Structural)]
pub enum RetStatus {
    RetUnknown,
    RetSuccess,
    RetFail,
    RetTimeout,
    RetReject,
}

/// State of a circuit.
#[derive(Clone, Copy, Debug, PartialEq, Eq, Structural)]
pub enum Status {
    Close,
    HalfOpen,
    Open,
}

/// A service, optionally as called by one caller.
#[derive(Clone, Debug)]
pub struct ServiceResource {
    pub callee: ServiceKey,
    pub caller: Option<ServiceKey>,
}

/// One method of a service, optionally as called by one caller.
#[derive(Clone, Debug)]
pub struct MethodResource {
    pub callee: ServiceKey,
    pub caller: Option<ServiceKey>,
    pub protocol: String,
    pub method: String,
    pub path: String,
}

/// One instance of a service.
#[derive(Clone, Debug)]
pub struct InstanceResource {
    pub callee: ServiceKey,
    pub host: String,
    pub port: u32,
}

/// What a circuit guards.
#[derive(Clone, Debug)]
pub enum Resource {
    ServiceResource(ServiceResource),
    MethodResource(MethodResource),
    InstanceResource(InstanceResource),
}

impl ServiceResource {
    pub fn new(callee: ServiceKey) -> (r: ServiceResource)
        ensures
            r.callee == callee,
            r.caller.is_none(),
    {
        ServiceResource { callee, caller: None }
    }

    pub fn new_waith_caller(caller: ServiceKey, callee: ServiceKey) -> (r: ServiceResource)
        ensures
            r.callee == callee,
            r.caller == Some(caller),
    {
        ServiceResource { callee, caller: Some(caller) }
    }
}

impl MethodResource {
    pub fn new_waith_caller(
        caller: ServiceKey,
        callee: ServiceKey,
        protocol: String,
        method: String,
        path: String,
    ) -> (r: MethodResource)
        ensures
            r.callee == callee,
            r.caller == Some(caller),
            r.protocol == protocol,
            r.method == method,
            r.path == path,
    {
        MethodResource { callee, caller: Some(caller), protocol, method, path }
    }
}

/// The outcome of one call to a resource.
#[derive(Clone, Debug)]
pub struct ResourceStat {
    pub resource: Resource,
    pub ret_code: String,
    pub delay_ms: u64,
    pub status: RetStatus,
}

/// What a circuit breaker answers about a resource.
#[derive(Clone, Debug)]
pub struct CircuitBreakerStatus {
    pub status: Status,
    pub start_ms: u64,
    pub circuit_breaker: String,
    pub destroy: bool,
}

/// `namespace#name`.
pub open spec fn spec_service_key(key: ServiceKey) -> Seq<char> {
    key.namespace@ + "#"@ + key.name@
}

/// The caller part of a resource key: the caller's key, or `*` for any caller.
pub open spec fn spec_caller_key(caller: Option<ServiceKey>) -> Seq<char> {
    match caller {
        Some(k) => spec_service_key(k),
        None => "*"@,
    }
}

/// The key under which circuit state of a resource is kept.
pub open spec fn spec_resource_key(resource: Resource) -> Seq<char> {
    match resource {
        Resource::ServiceResource(r) => "service#"@ + spec_service_key(r.callee) + "#"@ + spec_caller_key(r.caller),
        Resource::MethodResource(r) => "method#"@ + spec_service_key(r.callee) + "#"@ + spec_caller_key(r.caller)
            + "#"@ + r.protocol@ + "#"@ + r.method@ + "#"@ + r.path@,
        Resource::InstanceResource(_) => "instance"@,
    }
}

pub fn service_key(key: &ServiceKey) -> (r: String)
    ensures
        r@ == spec_service_key(*key),
{
    let mut s = key.namespace.clone();
    s.append("#");
    s.append(key.name.as_str());
    s
}

fn caller_key(caller: &Option<ServiceKey>) -> (r: String)
    ensures
        r@ == spec_caller_key(*caller),
{
    match caller {
        Some(k) => service_key(k),
        None => String::from_str("*"),
    }
}

pub fn resource_key(resource: &Resource) -> (r: String)
    ensures
        r@ == spec_resource_key(*resource),
{
    match resource {
        Resource::ServiceResource(r) => {
            let mut s = String::from_str("service#");
            s.append(service_key(&r.callee).as_str());
            s.append("#");
            s.append(caller_key(&r.caller).as_str());
            s
        },
        Resource::MethodResource(r) => {
            let mut s = String::from_str("method#");
            s.append(service_key(&r.callee).as_str());
            s.append("#");
            s.append(caller_key(&r.caller).as_str());
            s.append("#");
            s.append(r.protocol.as_str());
            s.append("#");
            s.append(r.method.as_str());
            s.append("#");
            s.append(r.path.as_str());
            s
        },
        Resource::InstanceResource(_) => String::from_str("instance"),
    }
}

} // verus!
