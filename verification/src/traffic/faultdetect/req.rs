//! Probe plans, their targets and their results.

use vstd::prelude::*;

verus! {

/// How a probe reaches an instance.
#[derive(Debug, Clone, Copy, PartialEq, Eq, Structural)]
pub enum FaultDetectProtocol {
    Http,
    Tcp,
    Udp,
}

/// The request an HTTP probe sends.
#[derive(Debug, Clone, PartialEq, Eq)]
pub struct HttpFaultDetectConfig {
    pub method: String,
    pub url: String,
    pub headers: Vec<(String, String)>,
    pub body: String,
}

/// What a TCP probe sends, and the answers that count as alive.
#[derive(Debug, Clone, PartialEq, Eq)]
pub struct TcpFaultDetectConfig {
    pub send: String,
    pub receive: Vec<String>,
}

/// What a UDP probe sends, and the answers that count as alive.
#[derive(Debug, Clone, PartialEq, Eq)]
pub struct UdpFaultDetectConfig {
    pub send: String,
    pub receive: Vec<String>,
}

/// One probe to run against the instances of a service.
#[derive(Debug, Clone, PartialEq, Eq)]
pub struct FaultDetectPlan {
    pub rule_id: String,
    pub namespace: String,
    pub service: String,
    pub interval_secs: u32,
    pub timeout_secs: u32,
    pub port: u32,
    pub protocol: FaultDetectProtocol,
    pub http_config: Option<HttpFaultDetectConfig>,
    pub tcp_config: Option<TcpFaultDetectConfig>,
    pub udp_config: Option<UdpFaultDetectConfig>,
}

/// The outcome of one probe.
#[derive(Debug, Clone, PartialEq, Eq)]
pub struct FaultDetectResult {
    pub rule_id: String,
    pub success: bool,
    pub message: String,
}

/// An instance address with the probes to run against it.
#[derive(Debug, Clone, PartialEq, Eq)]
pub struct FaultDetectTarget {
    pub host: String,
    pub plans: Vec<FaultDetectPlan>,
}

/// An HTTP probe request as values.
pub struct HttpConfigView {
    pub method: Seq<char>,
    pub url: Seq<char>,
    pub headers: Seq<(Seq<char>, Seq<char>)>,
    pub body: Seq<char>,
}

/// A TCP or UDP probe payload as values.
pub struct PayloadView {
    pub send: Seq<char>,
    pub receive: Seq<Seq<char>>,
}

/// A probe plan as values.
pub struct PlanView {
    pub rule_id: Seq<char>,
    pub namespace: Seq<char>,
    pub service: Seq<char>,
    pub interval_secs: u32,
    pub timeout_secs: u32,
    pub port: u32,
    pub protocol: FaultDetectProtocol,
    pub http_config: Option<HttpConfigView>,
    pub tcp_config: Option<PayloadView>,
    pub udp_config: Option<PayloadView>,
}

pub open spec fn string_views(s: Seq<String>) -> Seq<Seq<char>> {
    s.map_values(|x: String| x@)
}

pub open spec fn header_views(s: Seq<(String, String)>) -> Seq<(Seq<char>, Seq<char>)> {
    s.map_values(|h: (String, String)| (h.0@, h.1@))
}

impl View for HttpFaultDetectConfig {
    type V = HttpConfigView;

    open spec fn view(&self) -> HttpConfigView {
        HttpConfigView {
            method: self.method@,
            url: self.url@,
            headers: header_views(self.headers@),
            body: self.body@,
        }
    }
}

impl View for TcpFaultDetectConfig {
    type V = PayloadView;

    open spec fn view(&self) -> PayloadView {
        PayloadView { send: self.send@, receive: string_views(self.receive@) }
    }
}

impl View for UdpFaultDetectConfig {
    type V = PayloadView;

    open spec fn view(&self) -> PayloadView {
        PayloadView { send: self.send@, receive: string_views(self.receive@) }
    }
}

impl View for FaultDetectPlan {
    type V = PlanView;

    open spec fn view(&self) -> PlanView {
        PlanView {
            rule_id: self.rule_id@,
            namespace: self.namespace@,
            service: self.service@,
            interval_secs: self.interval_secs,
            timeout_secs: self.timeout_secs,
            port: self.port,
            protocol: self.protocol,
            http_config: match self.http_config {
                Some(c) => Some(c@),
                None => None,
            },
            tcp_config: match self.tcp_config {
                Some(c) => Some(c@),
                None => None,
            },
            udp_config: match self.udp_config {
                Some(c) => Some(c@),
                None => None,
            },
        }
    }
}

pub open spec fn plan_views(s: Seq<FaultDetectPlan>) -> Seq<PlanView> {
    s.map_values(|p: FaultDetectPlan| p@)
}

/// Copies of a list of strings.
pub fn duplicate_strings(v: &Vec<String>) -> (r: Vec<String>)
    ensures
        string_views(r@) == string_views(v@),
{
    let mut r: Vec<String> = Vec::new();
    let mut i: usize = 0;
    while i < v.len()
        invariant
            i <= v@.len(),
            r@.len() == i,
            forall|k: int| 0 <= k < i ==> (#[trigger] r@[k])@ == v@[k]@,
        decreases v@.len() - i,
    {
        r.push(v[i].clone());
        i = i + 1;
    }
    assert(string_views(r@) =~= string_views(v@));
    r
}

impl HttpFaultDetectConfig {
    pub fn duplicate(&self) -> (r: HttpFaultDetectConfig)
        ensures
            r@ == self@,
    {
        let mut headers: Vec<(String, String)> = Vec::new();
        let mut i: usize = 0;
        while i < self.headers.len()
            invariant
                i <= self.headers@.len(),
                headers@.len() == i,
                forall|k: int| 0 <= k < i ==> (#[trigger] headers@[k]).0@ == self.headers@[k].0@
                    && headers@[k].1@ == self.headers@[k].1@,
            decreases self.headers@.len() - i,
        {
            let h = &self.headers[i];
            headers.push((h.0.clone(), h.1.clone()));
            i = i + 1;
        }
        let r = HttpFaultDetectConfig {
            method: self.method.clone(),
            url: self.url.clone(),
            headers,
            body: self.body.clone(),
        };
        assert(r@.headers =~= self@.headers);
        r
    }
}

impl FaultDetectPlan {
    pub fn duplicate(&self) -> (r: FaultDetectPlan)
        ensures
            r@ == self@,
    {
        FaultDetectPlan {
            rule_id: self.rule_id.clone(),
            namespace: self.namespace.clone(),
            service: self.service.clone(),
            interval_secs: self.interval_secs,
            timeout_secs: self.timeout_secs,
            port: self.port,
            protocol: self.protocol,
            http_config: match &self.http_config {
                Some(c) => Some(c.duplicate()),
                None => None,
            },
            tcp_config: match &self.tcp_config {
                Some(c) => Some(TcpFaultDetectConfig { send: c.send.clone(), receive: duplicate_strings(&c.receive) }),
                None => None,
            },
            udp_config: match &self.udp_config {
                Some(c) => Some(UdpFaultDetectConfig { send: c.send.clone(), receive: duplicate_strings(&c.receive) }),
                None => None,
            },
        }
    }
}

/// Copies of a list of plans.
pub fn duplicate_plans(v: &Vec<FaultDetectPlan>) -> (r: Vec<FaultDetectPlan>)
    ensures
        plan_views(r@) == plan_views(v@),
{
    let mut r: Vec<FaultDetectPlan> = Vec::new();
    let mut i: usize = 0;
    while i < v.len()
        invariant
            i <= v@.len(),
            r@.len() == i,
            forall|k: int| 0 <= k < i ==> (#[trigger] r@[k])@ == v@[k]@,
        decreases v@.len() - i,
    {
        r.push(v[i].duplicate());
        i = i + 1;
    }
    assert(plan_views(r@) =~= plan_views(v@));
    r
}

} // verus!
