//! Governance rules as the control plane publishes them: matching conditions,
//! routing, lanes, circuit breaking, rate limiting, fault detection and traffic policies.

use vstd::prelude::*;

verus! {

/// How a rule value is compared with a request value.
#[derive(Clone, Copy, Debug, PartialEq, Eq, Structural)]
pub enum MatchStringType {
    Exact,
    Regex,
    NotEquals,
    In,
    NotIn,
    Range,
}

/// Where a rule value comes from.
#[derive(Clone, Copy, Debug, PartialEq, Eq, Structural)]
pub enum ValueType {
    Text,
    Parameter,
    Variable,
}

/// A rule value and how it is compared.
#[derive(Clone, Debug)]
pub struct MatchString {
    pub match_type: MatchStringType,
    pub value: String,
    pub value_type: ValueType,
}

/// The request part a source condition reads.
#[derive(Clone, Copy, Debug, PartialEq, Eq, Structural)]
pub enum SourceMatchType {
    Custom,
    Method,
    Header,
    Query,
    CallerIp,
    Path,
    Cookie,
    CallerMetadata,
}

/// One condition on the request.
#[derive(Clone, Debug)]
pub struct SourceMatch {
    pub match_type: SourceMatchType,
    pub key: String,
    pub value: Option<MatchString>,
}

/// Whether all or any of the conditions must hold.
#[derive(Clone, Copy, Debug, PartialEq, Eq, Structural)]
pub enum TrafficMatchMode {
    And,
    Or,
}

/// Conditions a request must meet for a rule to apply.
#[derive(Clone, Debug)]
pub struct TrafficMatchRule {
    pub arguments: Vec<SourceMatch>,
    pub random_percent: u32,
    pub match_mode: TrafficMatchMode,
}

/// An API selector: method and path.
#[derive(Clone, Debug)]
pub struct Api {
    pub protocol: String,
    pub method: String,
    pub path: Option<MatchString>,
}

/// A metadata condition of a destination group.
#[derive(Clone, Debug)]
pub struct LabelMatch {
    pub key: String,
    pub value: MatchString,
}

/// A group of callee instances a route may send traffic to.
#[derive(Clone, Debug)]
pub struct DestinationGroup {
    pub name: String,
    pub service: String,
    pub namespace: String,
    pub labels: Vec<LabelMatch>,
    pub priority: u32,
    pub weight: u32,
    pub isolate: bool,
}

/// One custom route: request conditions and destination groups.
#[derive(Clone, Debug)]
pub struct CustomRouteRule {
    pub name: String,
    pub destinations: Vec<DestinationGroup>,
    pub arguments: Option<TrafficMatchRule>,
}

/// A published routing rule with its decoded custom routes.
#[derive(Clone, Debug)]
pub struct RouteRule {
    pub name: String,
    pub enable: bool,
    pub priority: u32,
    pub routing_config: Option<Vec<CustomRouteRule>>,
}

/// What a lane rule does when a request is for the lane but no lane instance is available.
#[derive(Clone, Copy, Debug, PartialEq, Eq, Structural)]
pub enum LaneMatchMode {
    /// Route to no instance.
    Strict,
    /// Route to every instance.
    Permissive,
}

/// Sends matching requests to the instances labelled with a lane.
#[derive(Clone, Debug)]
pub struct LaneRule {
    pub name: String,
    pub enable: bool,
    pub default_label_value: String,
    pub label_key: String,
    pub match_mode: LaneMatchMode,
    pub priority: u32,
    pub traffic_match_rule: Option<TrafficMatchRule>,
}

/// A named set of lane rules.
#[derive(Clone, Debug)]
pub struct LaneGroup {
    pub name: String,
    pub rules: Vec<LaneRule>,
}

/// Probe protocol of a fault-detection sub-rule.
#[derive(Clone, Copy, Debug, PartialEq, Eq, Structural)]
pub enum FaultDetectRuleProtocol {
    Unknown,
    Http,
    Tcp,
    Udp,
}

/// One header of an HTTP probe.
#[derive(Clone, Debug)]
pub struct HttpHeader {
    pub key: String,
    pub value: String,
}

/// How an HTTP probe is sent.
#[derive(Clone, Debug)]
pub struct HttpProtocolConfig {
    pub method: String,
    pub url: String,
    pub headers: Vec<HttpHeader>,
    pub body: String,
}

/// What a TCP or UDP probe sends and which answers count as alive.
#[derive(Clone, Debug)]
pub struct PayloadProtocolConfig {
    pub send: String,
    pub receive: Vec<String>,
}

/// One probe of a fault-detection rule.
#[derive(Clone, Debug)]
pub struct FaultDetectSubRule {
    pub disable: bool,
    pub protocol: FaultDetectRuleProtocol,
    pub interval: u32,
    pub timeout: u32,
    pub port: u32,
    pub http_config: Option<HttpProtocolConfig>,
    pub tcp_config: Option<PayloadProtocolConfig>,
    pub udp_config: Option<PayloadProtocolConfig>,
}

/// The service a fault-detection rule probes.
#[derive(Clone, Debug)]
pub struct DestinationService {
    pub namespace: String,
    pub service: String,
}

/// Probes to run against the instances of a service.
#[derive(Clone, Debug)]
pub struct FaultDetectRule {
    pub id: String,
    pub priority: u32,
    pub target_service: Option<DestinationService>,
    pub rules: Vec<FaultDetectSubRule>,
}

/// Where a rate-limit rule counts.
#[derive(Clone, Copy, Debug, PartialEq, Eq, Structural)]
pub enum RateLimitType {
    Global,
    Local,
    Unknown,
}

/// What a rate-limit trigger counts.
#[derive(Clone, Copy, Debug, PartialEq, Eq, Structural)]
pub enum LimitResource {
    Qps,
    Concurrency,
    Token,
    Unknown,
}

/// What a global trigger does when the quota servers cannot be reached.
#[derive(Clone, Copy, Debug, PartialEq, Eq, Structural)]
pub enum FailoverType {
    FailoverLocal,
    FailoverPass,
}

/// How a global quota is shared among the clients of a rule.
#[derive(Clone, Copy, Debug, PartialEq, Eq, Structural)]
pub enum AmountMode {
    GlobalTotal,
    ShareEqually,
}

/// The request part a rate-limit argument reads.
#[derive(Clone, Copy, Debug, PartialEq, Eq, Structural)]
pub enum MatchArgumentType {
    Custom,
    Method,
    Header,
    Query,
    CallerService,
    CallerIp,
    CallerMetadata,
}

/// A condition of a rate-limit trigger on the request.
#[derive(Clone, Debug)]
pub struct MatchArgument {
    pub arg_type: MatchArgumentType,
    pub key: String,
    pub value: Option<MatchString>,
}

/// A quota for a window: at most `max_amount` per `valid_duration_secs` seconds.
#[derive(Clone, Copy, Debug)]
pub struct Amount {
    pub max_amount: u32,
    pub valid_duration_secs: Option<i64>,
}

/// One quota of a rate-limit rule, with the requests it applies to.
#[derive(Clone, Debug)]
pub struct LimitTrigger {
    pub name: String,
    pub disable: bool,
    pub resource: LimitResource,
    pub apis: Vec<Api>,
    pub arguments: Vec<MatchArgument>,
    pub amounts: Vec<Amount>,
    pub concurrency_amount: Option<u32>,
    pub failover: FailoverType,
    pub amount_mode: AmountMode,
}

/// The cluster of quota servers a global rule uses.
#[derive(Clone, Debug)]
pub struct QuotaCluster {
    pub namespace: String,
    pub service: String,
}

/// A rate-limit rule of a service.
#[derive(Clone, Debug)]
pub struct RateLimit {
    pub id: String,
    pub revision: String,
    pub priority: u32,
    pub rule_type: RateLimitType,
    pub disable: bool,
    pub rules: Vec<LimitTrigger>,
    pub cluster: Option<QuotaCluster>,
}

/// Kind of a circuit-breaking trigger.
#[derive(Clone, Copy, Debug, PartialEq, Eq, Structural)]
pub enum TriggerType {
    ErrorRate,
    ConsecutiveError,
}

/// When a circuit opens.
#[derive(Clone, Copy, Debug, PartialEq, Eq, Structural)]
pub struct TriggerCondition {
    pub trigger_type: TriggerType,
    pub error_count: u32,
    pub error_percent: u32,
    pub interval: u32,
    pub minimum_request: u32,
}

/// When an open circuit may be probed and closed again.
#[derive(Clone, Copy, Debug, PartialEq, Eq, Structural)]
pub struct RecoverCondition {
    pub sleep_window: u32,
    pub consecutive_success: u32,
}

/// The triggers of one breaking policy.
#[derive(Clone, Debug)]
pub struct BlockConfig {
    pub name: String,
    pub trigger_conditions: Vec<TriggerCondition>,
}

/// One breaking policy: its triggers and its recovery.
#[derive(Clone, Debug)]
pub struct CircuitBreakerPolicy {
    pub block_config: Option<BlockConfig>,
    pub recover_condition: Option<RecoverCondition>,
}

/// A circuit-breaking rule.
#[derive(Clone, Debug)]
pub struct CircuitBreakerRule {
    pub id: String,
    pub name: String,
    pub enable: bool,
    pub block_configs: Vec<CircuitBreakerPolicy>,
}

/// A breaking policy as values: its triggers (when it has a block config) and its recovery.
pub struct CircuitBreakerPolicyView {
    pub triggers: Option<Seq<TriggerCondition>>,
    pub recover: Option<RecoverCondition>,
}

/// A circuit-breaking rule as values.
pub struct CircuitBreakerRuleView {
    pub id: Seq<char>,
    pub name: Seq<char>,
    pub enable: bool,
    pub policies: Seq<CircuitBreakerPolicyView>,
}

impl View for CircuitBreakerPolicy {
    type V = CircuitBreakerPolicyView;

    open spec fn view(&self) -> CircuitBreakerPolicyView {
        CircuitBreakerPolicyView {
            triggers: match self.block_config {
                Some(b) => Some(b.trigger_conditions@),
                None => None,
            },
            recover: self.recover_condition,
        }
    }
}

impl MatchString {
    pub fn duplicate(&self) -> (r: MatchString)
        ensures
            r == *self,
    {
        MatchString { match_type: self.match_type, value: self.value.clone(), value_type: self.value_type }
    }
}

impl Api {
    pub fn duplicate(&self) -> (r: Api)
        ensures
            r == *self,
    {
        Api {
            protocol: self.protocol.clone(),
            method: self.method.clone(),
            path: match &self.path {
                Some(p) => Some(p.duplicate()),
                None => None,
            },
        }
    }
}

impl View for CircuitBreakerRule {
    type V = CircuitBreakerRuleView;

    open spec fn view(&self) -> CircuitBreakerRuleView {
        CircuitBreakerRuleView {
            id: self.id@,
            name: self.name@,
            enable: self.enable,
            policies: self.block_configs@.map_values(|p: CircuitBreakerPolicy| p@),
        }
    }
}

impl CircuitBreakerPolicy {
    pub fn duplicate(&self) -> (r: CircuitBreakerPolicy)
        ensures
            r@ == self@,
    {
        let block_config = match &self.block_config {
            Some(b) => {
                let triggers = b.trigger_conditions.clone();
                assert(triggers@ =~= b.trigger_conditions@);
                Some(BlockConfig { name: b.name.clone(), trigger_conditions: triggers })
            },
            None => None,
        };
        CircuitBreakerPolicy { block_config, recover_condition: self.recover_condition }
    }
}

impl CircuitBreakerRule {
    pub fn duplicate(&self) -> (r: CircuitBreakerRule)
        ensures
            r@ == self@,
    {
        let mut policies: Vec<CircuitBreakerPolicy> = Vec::new();
        let mut i: usize = 0;
        while i < self.block_configs.len()
            invariant
                i <= self.block_configs@.len(),
                policies@.len() == i,
                forall|k: int| 0 <= k < i ==> #[trigger] policies@[k]@ == self.block_configs@[k]@,
            decreases self.block_configs@.len() - i,
        {
            policies.push(self.block_configs[i].duplicate());
            i = i + 1;
        }
        let r = CircuitBreakerRule {
            id: self.id.clone(),
            name: self.name.clone(),
            enable: self.enable,
            block_configs: policies,
        };
        assert(r@.policies =~= self@.policies);
        r
    }
}

/// Copies of a list of rules.
pub fn duplicate_circuit_breaker_rules(v: &Vec<CircuitBreakerRule>) -> (r: Vec<CircuitBreakerRule>)
    ensures
        r@.len() == v@.len(),
        forall|k: int| 0 <= k < v@.len() ==> #[trigger] r@[k]@ == v@[k]@,
{
    let mut r: Vec<CircuitBreakerRule> = Vec::new();
    let mut i: usize = 0;
    while i < v.len()
        invariant
            i <= v@.len(),
            r@.len() == i,
            forall|k: int| 0 <= k < i ==> #[trigger] r@[k]@ == v@[k]@,
        decreases v@.len() - i,
    {
        r.push(v[i].duplicate());
        i = i + 1;
    }
    r
}

/// The calling service a traffic policy is limited to; an empty or `*` field matches any.
#[derive(Clone, Debug)]
pub struct SourceService {
    pub namespace: String,
    pub service: String,
}

/// Where mirrored requests go: a service, and metadata conditions on its instances.
#[derive(Clone, Debug)]
pub struct MirrorDestination {
    pub namespace: String,
    pub service: String,
    pub labels: Vec<LabelMatch>,
}

/// A mirror destination as values.
pub struct MirrorDestinationView {
    pub namespace: Seq<char>,
    pub service: Seq<char>,
    pub labels: Seq<LabelMatch>,
}

impl View for MirrorDestination {
    type V = MirrorDestinationView;

    open spec fn view(&self) -> MirrorDestinationView {
        MirrorDestinationView { namespace: self.namespace@, service: self.service@, labels: self.labels@ }
    }
}

impl LabelMatch {
    pub fn duplicate(&self) -> (r: LabelMatch)
        ensures
            r == *self,
    {
        LabelMatch { key: self.key.clone(), value: self.value.duplicate() }
    }
}

impl MirrorDestination {
    pub fn duplicate(&self) -> (r: MirrorDestination)
        ensures
            r@ == self@,
    {
        let mut labels: Vec<LabelMatch> = Vec::new();
        let mut i: usize = 0;
        while i < self.labels.len()
            invariant
                i <= self.labels@.len(),
                labels@ == self.labels@.subrange(0, i as int),
            decreases self.labels@.len() - i,
        {
            labels.push(self.labels[i].duplicate());
            i = i + 1;
            assert(labels@ =~= self.labels@.subrange(0, i as int));
        }
        assert(self.labels@.subrange(0, self.labels@.len() as int) =~= self.labels@);
        MirrorDestination { namespace: self.namespace.clone(), service: self.service.clone(), labels }
    }
}

/// The response a mock rule answers with.
#[derive(Clone, Debug)]
pub struct MockResponse {
    pub code: String,
    pub body: String,
}

impl MockResponse {
    pub fn duplicate(&self) -> (r: MockResponse)
        ensures
            r == *self,
    {
        MockResponse { code: self.code.clone(), body: self.body.clone() }
    }
}

/// What a security policy does with the requests it selects.
#[derive(Clone, Copy, Debug, PartialEq, Eq, Structural)]
pub enum TrafficSecurityAction {
    Allow,
    Deny,
}

/// How a denied request is answered.
#[derive(Clone, Debug)]
pub struct TrafficSecurityRejectEffect {
    pub code: String,
    pub message: String,
}

impl TrafficSecurityRejectEffect {
    pub fn duplicate(&self) -> (r: TrafficSecurityRejectEffect)
        ensures
            r == *self,
    {
        TrafficSecurityRejectEffect { code: self.code.clone(), message: self.message.clone() }
    }
}

/// One security policy: the requests it selects and what it does with them.
#[derive(Clone, Debug)]
pub struct TrafficSecurityPolicy {
    pub apis: Vec<Api>,
    pub traffic_match_rule: Option<TrafficMatchRule>,
    pub action: TrafficSecurityAction,
    pub reject_effect: Option<TrafficSecurityRejectEffect>,
}

/// A published traffic-security rule.
#[derive(Clone, Debug)]
pub struct TrafficSecurityRule {
    pub id: String,
    pub enable: bool,
    pub priority: u32,
    pub policies: Vec<TrafficSecurityPolicy>,
}

/// One mirroring: the requests it selects, where a share of them is copied to.
#[derive(Clone, Debug)]
pub struct MirrorRule {
    pub apis: Vec<Api>,
    pub traffic_match_rule: Option<TrafficMatchRule>,
    pub destination: Option<MirrorDestination>,
    pub mirror_percent: u32,
    pub disable: bool,
}

/// A published traffic-mirror rule.
#[derive(Clone, Debug)]
pub struct TrafficMirror {
    pub id: String,
    pub enable: bool,
    pub priority: u32,
    pub caller: Option<SourceService>,
    pub rules: Vec<MirrorRule>,
}

/// One mock: the requests it selects and the response a share of them get.
#[derive(Clone, Debug)]
pub struct MockRule {
    pub apis: Vec<Api>,
    pub traffic_match_rule: Option<TrafficMatchRule>,
    pub response: Option<MockResponse>,
    pub mock_percent: u32,
    pub disable: bool,
}

/// A published traffic-mock rule.
#[derive(Clone, Debug)]
pub struct TrafficMock {
    pub id: String,
    pub enable: bool,
    pub priority: u32,
    pub caller: Option<SourceService>,
    pub rules: Vec<MockRule>,
}

/// Kinds of naming responses of the control plane.
#[derive(Clone, Copy, Debug, PartialEq, Eq, Structural)]
pub enum DiscoverResponseType {
    Unknown,
    Instance,
    Services,
    CustomRouteRule,
    RateLimit,
    CircuitBreaker,
    FaultDetector,
    Lane,
    Lossless,
    TrafficSecurityRule,
    TrafficMirrorRule,
    TrafficMockRule,
    ServiceContracts,
}

/// Kinds of naming requests to the control plane.
#[derive(Clone, Copy, Debug, PartialEq, Eq, Structural)]
pub enum DiscoverRequestType {
    Unknown,
    Instance,
    Services,
    CustomRouteRule,
    RateLimit,
    CircuitBreaker,
    FaultDetector,
    Lane,
    Lossless,
    TrafficSecurityRule,
    TrafficMirrorRule,
    TrafficMockRule,
    ServiceContracts,
}

/// A service as the control plane names it.
#[derive(Clone, Debug)]
pub struct ServiceDescriptor {
    pub namespace: String,
    pub name: String,
    pub revision: String,
}

/// A published interface contract of a service.
#[derive(Clone, Debug)]
pub struct ServiceContract {
    pub name: String,
    pub namespace: String,
    pub service: String,
    pub version: String,
    pub protocol: String,
    pub content: String,
}

impl ServiceContract {
    pub fn duplicate(&self) -> (r: ServiceContract)
        ensures
            r == *self,
    {
        ServiceContract {
            name: self.name.clone(),
            namespace: self.namespace.clone(),
            service: self.service.clone(),
            version: self.version.clone(),
            protocol: self.protocol.clone(),
            content: self.content.clone(),
        }
    }
}

/// A naming response of the control plane, as far as the client reads it.
#[derive(Clone, Debug)]
pub struct DiscoverResponse {
    pub code: u32,
    pub info: String,
    pub response_type: DiscoverResponseType,
    pub service: Option<ServiceDescriptor>,
    pub service_contracts: Vec<ServiceContract>,
}

/// A naming request to the control plane.
#[derive(Clone, Debug)]
pub struct DiscoverRequest {
    pub request_type: DiscoverRequestType,
    pub service: Option<ServiceDescriptor>,
}

} // verus!
