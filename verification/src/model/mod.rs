//! The client's core data model: service identities, instances, request labels and errors.

pub mod circuitbreaker;
pub mod router;

use vstd::prelude::*;
use vstd::string::StringExecFns;
use crate::specification::{
    CircuitBreakerRule, LaneGroup, RateLimit, RouteRule, TrafficMirror, TrafficMock, TrafficSecurityRule,
};
use crate::text::{str_equal, string_from_chars};

verus! {

/// Error kinds the client reports.
#[derive(Clone, Copy, Debug, PartialEq, Eq, Structural)]
pub enum ErrorCode {
    ApiInvalidArgument,
    InvalidState,
    InvalidRule,
    RequestLimit,
    LocationMismatch,
    InstanceInfoError,
    InstanceNotFound,
    InvalidResponse,
    InvalidServerResponse,
    ServerError,
    NetworkError,
    ApiTimeout,
    ServiceNotFound,
    InternalError,
    Unauthorized,
}

/// An error with its kind and a human-readable message.
#[derive(Clone, Debug)]
pub struct PoleError {
    pub code: ErrorCode,
    pub message: String,
}

/// The name an error kind is reported under.
pub open spec fn spec_error_code_name(code: ErrorCode) -> Seq<char> {
    match code {
        ErrorCode::ApiInvalidArgument => "API_INVALID_ARGUMENT"@,
        ErrorCode::InvalidState => "INVALID_STATE"@,
        ErrorCode::InvalidRule => "INVALID_RULE"@,
        ErrorCode::RequestLimit => "REQUEST_LIMIT"@,
        ErrorCode::LocationMismatch => "LOCATION_MISMATCH"@,
        ErrorCode::InstanceInfoError => "INSTANCE_INFO_ERROR"@,
        ErrorCode::InstanceNotFound => "INSTANCE_NOT_FOUND"@,
        ErrorCode::InvalidResponse => "INVALID_RESPONSE"@,
        ErrorCode::InvalidServerResponse => "INVALID_SERVER_RESPONSE"@,
        ErrorCode::ServerError => "SERVER_ERROR"@,
        ErrorCode::NetworkError => "NETWORK_ERROR"@,
        ErrorCode::ApiTimeout => "API_TIMEOUT"@,
        ErrorCode::ServiceNotFound => "SERVICE_NOT_FOUND"@,
        ErrorCode::InternalError => "INTERNAL_ERROR"@,
        ErrorCode::Unauthorized => "UNAUTHORIZED"@,
    }
}

pub fn error_code_name(code: ErrorCode) -> (r: &'static str)
    ensures
        r@ == spec_error_code_name(code),
{
    let r = match code {
        ErrorCode::ApiInvalidArgument => "API_INVALID_ARGUMENT",
        ErrorCode::InvalidState => "INVALID_STATE",
        ErrorCode::InvalidRule => "INVALID_RULE",
        ErrorCode::RequestLimit => "REQUEST_LIMIT",
        ErrorCode::LocationMismatch => "LOCATION_MISMATCH",
        ErrorCode::InstanceInfoError => "INSTANCE_INFO_ERROR",
        ErrorCode::InstanceNotFound => "INSTANCE_NOT_FOUND",
        ErrorCode::InvalidResponse => "INVALID_RESPONSE",
        ErrorCode::InvalidServerResponse => "INVALID_SERVER_RESPONSE",
        ErrorCode::ServerError => "SERVER_ERROR",
        ErrorCode::NetworkError => "NETWORK_ERROR",
        ErrorCode::ApiTimeout => "API_TIMEOUT",
        ErrorCode::ServiceNotFound => "SERVICE_NOT_FOUND",
        ErrorCode::InternalError => "INTERNAL_ERROR",
        ErrorCode::Unauthorized => "UNAUTHORIZED",
    };
    proof {
        reveal_strlit("API_INVALID_ARGUMENT");
        reveal_strlit("INVALID_STATE");
        reveal_strlit("INVALID_RULE");
        reveal_strlit("REQUEST_LIMIT");
        reveal_strlit("LOCATION_MISMATCH");
        reveal_strlit("INSTANCE_INFO_ERROR");
        reveal_strlit("INSTANCE_NOT_FOUND");
        reveal_strlit("INVALID_RESPONSE");
        reveal_strlit("INVALID_SERVER_RESPONSE");
        reveal_strlit("SERVER_ERROR");
        reveal_strlit("NETWORK_ERROR");
        reveal_strlit("API_TIMEOUT");
        reveal_strlit("SERVICE_NOT_FOUND");
        reveal_strlit("INTERNAL_ERROR");
        reveal_strlit("UNAUTHORIZED");
    }
    r
}

impl PoleError {
    pub fn new(code: ErrorCode, message: String) -> (e: PoleError)
        ensures
            e.code == code,
            e.message@ == message@,
    {
        PoleError { code, message }
    }

    /// The error in words: its kind's name, a colon, and its message.
    pub fn describe(&self) -> (r: String)
        ensures
            r@ == spec_error_code_name(self.code) + ": "@ + self.message@,
    {
        let mut r = error_code_name(self.code).to_string();
        r.append(": ");
        r.append(self.message.as_str());
        r
    }
}

/// Namespace and name of a service.
#[derive(Clone, Debug, PartialEq, Eq)]
pub struct ServiceKey {
    pub namespace: String,
    pub name: String,
}

/// Where an instance or the local client runs.
#[derive(Clone, Debug)]
pub struct Location {
    pub region: String,
    pub zone: String,
    pub campus: String,
}

/// One key/value metadata entry.
#[derive(Clone, Debug)]
pub struct MetadataEntry {
    pub key: String,
    pub value: String,
}

/// Key/value pairs of a metadata list.
pub open spec fn entries_view(entries: Seq<MetadataEntry>) -> Seq<(Seq<char>, Seq<char>)> {
    entries.map_values(|e: MetadataEntry| (e.key@, e.value@))
}

/// The value of the first pair whose key is `key`.
pub open spec fn pair_lookup(pairs: Seq<(Seq<char>, Seq<char>)>, key: Seq<char>) -> Option<Seq<char>>
    decreases pairs.len(),
{
    if pairs.len() == 0 {
        None
    } else if pairs[0].0 == key {
        Some(pairs[0].1)
    } else {
        pair_lookup(pairs.drop_first(), key)
    }
}

/// The value that `key` maps to in `entries`, the first entry with that key.
pub open spec fn metadata_lookup(entries: Seq<MetadataEntry>, key: Seq<char>) -> Option<Seq<char>> {
    pair_lookup(entries_view(entries), key)
}

/// Looks `key` up in a metadata list.
pub fn metadata_get(entries: &Vec<MetadataEntry>, key: &str) -> (r: Option<String>)
    ensures
        match r {
            Some(v) => metadata_lookup(entries@, key@) == Some(v@),
            None => metadata_lookup(entries@, key@).is_none(),
        },
{
    let mut i: usize = 0;
    assert(entries_view(entries@).subrange(0, entries@.len() as int) =~= entries_view(entries@));
    while i < entries.len()
        invariant
            i <= entries@.len(),
            metadata_lookup(entries@, key@) == pair_lookup(
                entries_view(entries@).subrange(i as int, entries@.len() as int),
                key@,
            ),
        decreases entries@.len() - i,
    {
        let ghost rest = entries_view(entries@).subrange(i as int, entries@.len() as int);
        assert(rest.drop_first() =~= entries_view(entries@).subrange(i + 1, entries@.len() as int));
        if str_equal(entries[i].key.as_str(), key) {
            return Some(entries[i].value.clone());
        }
        i = i + 1;
    }
    None
}

impl Location {
    pub fn duplicate(&self) -> (r: Location)
        ensures
            r == *self,
    {
        Location { region: self.region.clone(), zone: self.zone.clone(), campus: self.campus.clone() }
    }
}

impl MetadataEntry {
    pub fn duplicate(&self) -> (r: MetadataEntry)
        ensures
            r == *self,
    {
        MetadataEntry { key: self.key.clone(), value: self.value.clone() }
    }
}

/// A copy of a metadata list.
pub fn duplicate_metadata(v: &Vec<MetadataEntry>) -> (r: Vec<MetadataEntry>)
    ensures
        r@ == v@,
{
    let mut r: Vec<MetadataEntry> = Vec::new();
    let mut i: usize = 0;
    while i < v.len()
        invariant
            i <= v@.len(),
            r@ == v@.subrange(0, i as int),
        decreases v@.len() - i,
    {
        r.push(v[i].duplicate());
        i = i + 1;
        assert(r@ =~= v@.subrange(0, i as int));
    }
    assert(v@.subrange(0, v@.len() as int) =~= v@);
    r
}

/// A registered service instance.
#[derive(Clone, Debug)]
pub struct Instance {
    pub id: String,
    pub namespace: String,
    pub service: String,
    pub ip: String,
    pub port: u32,
    pub protocol: String,
    pub weight: u32,
    pub health: bool,
    pub isolated: bool,
    pub location: Location,
    pub metadata: Vec<MetadataEntry>,
}

/// What an instance is, as values.
pub struct InstanceView {
    pub id: Seq<char>,
    pub namespace: Seq<char>,
    pub service: Seq<char>,
    pub ip: Seq<char>,
    pub port: u32,
    pub protocol: Seq<char>,
    pub weight: u32,
    pub health: bool,
    pub isolated: bool,
    pub region: Seq<char>,
    pub zone: Seq<char>,
    pub campus: Seq<char>,
    pub metadata: Seq<(Seq<char>, Seq<char>)>,
}

impl InstanceView {
    /// Healthy, not isolated, and with a weight above zero.
    pub open spec fn available(self) -> bool {
        self.health && !self.isolated && self.weight > 0
    }
}

impl View for Instance {
    type V = InstanceView;

    open spec fn view(&self) -> InstanceView {
        InstanceView {
            id: self.id@,
            namespace: self.namespace@,
            service: self.service@,
            ip: self.ip@,
            port: self.port,
            protocol: self.protocol@,
            weight: self.weight,
            health: self.health,
            isolated: self.isolated,
            region: self.location.region@,
            zone: self.location.zone@,
            campus: self.location.campus@,
            metadata: entries_view(self.metadata@),
        }
    }
}

/// The views of a list of instances.
pub open spec fn instance_views(s: Seq<Instance>) -> Seq<InstanceView> {
    s.map_values(|i: Instance| i@)
}

impl Instance {
    pub fn is_available(&self) -> (r: bool)
        ensures
            r == self@.available(),
    {
        self.health && !self.isolated && self.weight > 0
    }

    pub fn duplicate(&self) -> (r: Instance)
        ensures
            r@ == self@,
    {
        let metadata = duplicate_metadata(&self.metadata);
        let r = Instance {
            id: self.id.clone(),
            namespace: self.namespace.clone(),
            service: self.service.clone(),
            ip: self.ip.clone(),
            port: self.port,
            protocol: self.protocol.clone(),
            weight: self.weight,
            health: self.health,
            isolated: self.isolated,
            location: self.location.duplicate(),
            metadata,
        };
        assert(entries_view(r.metadata@) =~= entries_view(self.metadata@));
        r
    }
}

/// Descriptive data of a service.
#[derive(Clone, Debug)]
pub struct ServiceInfo {
    pub namespace: String,
    pub name: String,
    pub revision: String,
    pub metadata: Vec<MetadataEntry>,
}

/// What a service's descriptive data is, as values.
pub struct ServiceInfoView {
    pub namespace: Seq<char>,
    pub name: Seq<char>,
    pub revision: Seq<char>,
    pub metadata: Seq<(Seq<char>, Seq<char>)>,
}

impl View for ServiceInfo {
    type V = ServiceInfoView;

    open spec fn view(&self) -> ServiceInfoView {
        ServiceInfoView {
            namespace: self.namespace@,
            name: self.name@,
            revision: self.revision@,
            metadata: entries_view(self.metadata@),
        }
    }
}

impl ServiceInfo {
    pub fn duplicate(&self) -> (r: ServiceInfo)
        ensures
            r@ == self@,
    {
        let r = ServiceInfo {
            namespace: self.namespace.clone(),
            name: self.name.clone(),
            revision: self.revision.clone(),
            metadata: duplicate_metadata(&self.metadata),
        };
        assert(entries_view(r.metadata@) =~= entries_view(self.metadata@));
        r
    }
}

/// Sum of the instances' weights.
pub open spec fn total_weight_of(instances: Seq<InstanceView>) -> int
    decreases instances.len(),
{
    if instances.len() == 0 {
        0
    } else {
        total_weight_of(instances.drop_last()) + instances.last().weight
    }
}

pub proof fn lemma_total_weight_bound(instances: Seq<InstanceView>)
    ensures
        0 <= total_weight_of(instances) <= instances.len() * (u32::MAX as int),
    decreases instances.len(),
{
    if instances.len() > 0 {
        lemma_total_weight_bound(instances.drop_last());
    }
}

/// How many instances a percentage of whose count fits a `u32`.
pub open spec fn instance_count_ok(n: int) -> bool {
    n * 100 <= u32::MAX
}

/// How many instances whose `u32` weights sum in a `u64`: up to `u32::MAX` of them.
pub open spec fn weights_sum_fits(n: int) -> bool {
    n <= u32::MAX
}

/// Sums the weights of `instances`.
pub fn sum_weights(instances: &Vec<Instance>) -> (total: u64)
    requires
        weights_sum_fits(instances@.len() as int),
    ensures
        total == total_weight_of(instance_views(instances@)),
{
    let mut total: u64 = 0;
    let mut i: usize = 0;
    while i < instances.len()
        invariant
            i <= instances@.len(),
            weights_sum_fits(instances@.len() as int),
            total == total_weight_of(instance_views(instances@.subrange(0, i as int))),
        decreases instances@.len() - i,
    {
        let ghost next = instance_views(instances@.subrange(0, i + 1));
        assert(next.drop_last() =~= instance_views(instances@.subrange(0, i as int)));
        proof {
            lemma_total_weight_bound(next);
        }
        assert((i + 1) * (u32::MAX as int) <= (u32::MAX as int) * (u32::MAX as int)) by (nonlinear_arith)
            requires i + 1 <= u32::MAX;
        assert(total_weight_of(next) <= u64::MAX);
        total = total + instances[i].weight as u64;
        i = i + 1;
    }
    assert(instances@.subrange(0, instances@.len() as int) =~= instances@);
    total
}

/// A copy of an instance list.
pub fn duplicate_instances(v: &Vec<Instance>) -> (r: Vec<Instance>)
    ensures
        instance_views(r@) == instance_views(v@),
{
    let mut r: Vec<Instance> = Vec::new();
    let mut i: usize = 0;
    while i < v.len()
        invariant
            i <= v@.len(),
            r@.len() == i,
            forall|k: int| 0 <= k < i ==> #[trigger] r@[k]@ == v@[k]@,
        decreases v@.len() - i,
    {
        r.push(v[i].duplicate());
        i = i + 1;
    }
    assert(instance_views(r@) =~= instance_views(v@));
    r
}

/// The instances of one service, with the sum of their weights.
#[derive(Clone, Debug)]
pub struct ServiceInstances {
    pub service: ServiceInfo,
    pub instances: Vec<Instance>,
    pub total_weight: u64,
}

impl ServiceInstances {
    pub fn new(service: ServiceInfo, instances: Vec<Instance>) -> (r: ServiceInstances)
        requires
            weights_sum_fits(instances@.len() as int),
        ensures
            r.service@ == service@,
            instance_views(r.instances@) == instance_views(instances@),
            r.total_weight == total_weight_of(instance_views(instances@)),
    {
        let total_weight = sum_weights(&instances);
        ServiceInstances { service, instances, total_weight }
    }

    pub fn duplicate(&self) -> (r: ServiceInstances)
        ensures
            r.service@ == self.service@,
            instance_views(r.instances@) == instance_views(self.instances@),
            r.total_weight == self.total_weight,
    {
        ServiceInstances {
            service: self.service.duplicate(),
            instances: duplicate_instances(&self.instances),
            total_weight: self.total_weight,
        }
    }
}

impl ServiceInstances {
    /// The key under which per-service balancing state is kept: `namespace#name`.
    pub open spec fn spec_cache_key(service: ServiceInfoView) -> Seq<char> {
        service.namespace + "#"@ + service.name
    }

    pub fn get_cache_key(&self) -> (r: String)
        ensures
            r@ == Self::spec_cache_key(self.service@),
    {
        let mut s = self.service.namespace.clone();
        s.append("#");
        s.append(self.service.name.as_str());
        s
    }

    pub fn get_total_weight(&self) -> (r: u64)
        ensures
            r == self.total_weight,
    {
        self.total_weight
    }
}

/// A governance rule as the local cache holds it.
#[derive(Clone, Debug)]
pub enum CachedRule {
    Route(RouteRule),
    Lane(LaneGroup),
    CircuitBreaker(CircuitBreakerRule),
    RateLimit(RateLimit),
    TrafficSecurity(TrafficSecurityRule),
    TrafficMirror(TrafficMirror),
    TrafficMock(TrafficMock),
}

/// The rules of one kind that the cache holds for a service.
#[derive(Clone, Debug)]
pub struct ServiceRule {
    pub rules: Vec<CachedRule>,
    pub revision: String,
    pub initialized: bool,
}

/// How a load balancer is asked to choose.
#[derive(Clone, Debug)]
pub struct Criteria {
    pub policy: String,
    pub hash_key: String,
}

/// Where a request label comes from.
#[derive(Clone, Copy, Debug, PartialEq, Eq, Structural)]
pub enum ArgumentType {
    Custom,
    Method,
    Header,
    Query,
    CallerService,
    CallerIP,
    Path,
    Cookie,
}

/// A label of the current request.
#[derive(Clone, Debug)]
pub struct TrafficLabel {
    pub arg_type: ArgumentType,
    pub key: String,
    pub value: String,
}

/// The value of the first label of type `t` whose key is `key`.
pub open spec fn label_lookup(labels: Seq<TrafficLabel>, t: ArgumentType, key: Seq<char>) -> Option<Seq<char>>
    decreases labels.len(),
{
    if labels.len() == 0 {
        None
    } else if labels[0].arg_type == t && labels[0].key@ == key {
        Some(labels[0].value@)
    } else {
        label_lookup(labels.drop_first(), t, key)
    }
}

/// Looks a request label up.
pub fn label_get(labels: &Vec<TrafficLabel>, t: ArgumentType, key: &str) -> (r: Option<String>)
    ensures
        match r {
            Some(v) => label_lookup(labels@, t, key@) == Some(v@),
            None => label_lookup(labels@, t, key@).is_none(),
        },
{
    let mut i: usize = 0;
    assert(labels@.subrange(0, labels@.len() as int) =~= labels@);
    while i < labels.len()
        invariant
            i <= labels@.len(),
            label_lookup(labels@, t, key@) == label_lookup(labels@.subrange(i as int, labels@.len() as int), t, key@),
        decreases labels@.len() - i,
    {
        let ghost rest = labels@.subrange(i as int, labels@.len() as int);
        assert(rest.drop_first() =~= labels@.subrange(i + 1, labels@.len() as int));
        if labels[i].arg_type == t && str_equal(labels[i].key.as_str(), key) {
            return Some(labels[i].value.clone());
        }
        i = i + 1;
    }
    None
}

/// What routing knows of the current call: who calls whom, and the request's labels.
#[derive(Clone, Debug)]
pub struct RouteInfo {
    pub caller: ServiceKey,
    pub callee: ServiceKey,
    pub metadata: Vec<MetadataEntry>,
    /// The labels of the request (method, path, headers, ...).
    pub labels: Vec<TrafficLabel>,
    /// Environment variables visible to rule variables.
    pub environment: Vec<MetadataEntry>,
    /// Parameters supplied by the caller for rule variables that are not in the environment.
    pub external_parameters: Vec<MetadataEntry>,
    /// Names of the routers in the call's routing chain.
    pub chain: Vec<String>,
}

} // verus!
