//! What traffic-policy evaluation takes and gives.

use vstd::prelude::*;
use crate::model::MetadataEntry;
use crate::specification::{
    MirrorDestination, MirrorDestinationView, MockResponse, TrafficMirror, TrafficMock, TrafficSecurityRejectEffect,
    TrafficSecurityRule,
};

verus! {

/// The security, mirror and mock rules of a service.
pub struct TrafficGovernanceRules {
    pub security_rules: Vec<TrafficSecurityRule>,
    pub mirror_rules: Vec<TrafficMirror>,
    pub mock_rules: Vec<TrafficMock>,
}

/// Whether a request may pass, and how it is refused if not.
#[derive(Clone, Debug)]
pub struct TrafficSecurityDecision {
    pub allowed: bool,
    pub reject_effect: Option<TrafficSecurityRejectEffect>,
}

impl Default for TrafficSecurityDecision {
    fn default() -> (r: TrafficSecurityDecision)
        ensures
            r.allowed,
            r.reject_effect.is_none(),
    {
        TrafficSecurityDecision { allowed: true, reject_effect: None }
    }
}

/// What the traffic policies decide for a request.
pub struct TrafficGovernanceResult {
    pub security: TrafficSecurityDecision,
    pub mirrors: Vec<MirrorDestination>,
    pub mock: Option<MockResponse>,
}

/// The mirror destinations as values.
pub open spec fn destination_views(v: Seq<MirrorDestination>) -> Seq<MirrorDestinationView> {
    v.map_values(|d: MirrorDestination| d@)
}

impl Default for TrafficGovernanceResult {
    fn default() -> (r: TrafficGovernanceResult)
        ensures
            r.security.allowed,
            r.security.reject_effect.is_none(),
            r.mirrors@.len() == 0,
            r.mock.is_none(),
    {
        TrafficGovernanceResult { security: TrafficSecurityDecision::default(), mirrors: Vec::new(), mock: None }
    }
}

impl TrafficGovernanceResult {
    pub fn duplicate(&self) -> (r: TrafficGovernanceResult)
        ensures
            r.security.allowed == self.security.allowed,
            r.security.reject_effect == self.security.reject_effect,
            destination_views(r.mirrors@) == destination_views(self.mirrors@),
            r.mock == self.mock,
    {
        let reject_effect = match &self.security.reject_effect {
            Some(e) => Some(e.duplicate()),
            None => None,
        };
        let mock = match &self.mock {
            Some(m) => Some(m.duplicate()),
            None => None,
        };
        TrafficGovernanceResult {
            security: TrafficSecurityDecision { allowed: self.security.allowed, reject_effect },
            mirrors: duplicate_destinations(&self.mirrors),
            mock,
        }
    }
}

/// A copy of a list of mirror destinations.
pub fn duplicate_destinations(v: &Vec<MirrorDestination>) -> (r: Vec<MirrorDestination>)
    ensures
        destination_views(r@) == destination_views(v@),
{
    let mut r: Vec<MirrorDestination> = Vec::new();
    let mut i: usize = 0;
    while i < v.len()
        invariant
            i <= v@.len(),
            r@.len() == i,
            forall|k: int| 0 <= k < i ==> #[trigger] r@[k]@ == v@[k]@,
        decreases v@.len() - i,
    {
        r.push(v[i].duplicate());
        i = i + 1;
    }
    assert(destination_views(r@) =~= destination_views(v@));
    r
}

/// A request to copy to mirror destinations.
#[derive(Clone, Debug)]
pub struct MirrorRequest {
    pub method: String,
    pub path: String,
    pub headers: Vec<MetadataEntry>,
    pub body: Vec<u8>,
}

} // verus!
