//! What routers are configured with and what they answer.

use vstd::prelude::*;
use crate::model::{MetadataEntry, ServiceInstances, instance_views, total_weight_of};
use crate::text::str_equal;

verus! {

/// Whether routing goes on after a router has answered.
#[derive(Clone, Copy, Debug, PartialEq, Eq, Structural)]
pub enum RouteState {
    Next,
    Retry,
}

/// The instances a router leaves for the rest of the chain.
#[derive(Clone, Debug)]
pub struct RouteResult {
    pub instances: ServiceInstances,
    pub state: RouteState,
}

/// Options of a router plugin, as configured.
#[derive(Clone, Debug)]
pub struct ServiceRouterPluginConfig {
    pub options: Option<Vec<MetadataEntry>>,
}

/// Whether the routing chain holds the router `name`.
pub open spec fn spec_exist_route(chain: Seq<String>, name: Seq<char>) -> bool {
    exists|i: int| 0 <= i < chain.len() && (#[trigger] chain[i])@ == name
}

pub fn exist_route(chain: &Vec<String>, name: &str) -> (r: bool)
    ensures
        r == spec_exist_route(chain@, name@),
{
    let mut i: usize = 0;
    while i < chain.len()
        invariant
            i <= chain@.len(),
            forall|k: int| 0 <= k < i ==> (#[trigger] chain@[k])@ != name@,
        decreases chain@.len() - i,
    {
        if str_equal(chain[i].as_str(), name) {
            return true;
        }
        i = i + 1;
    }
    false
}

/// Whether a result's total weight is the sum of its instances' weights.
pub open spec fn weight_consistent(s: ServiceInstances) -> bool {
    s.total_weight == total_weight_of(instance_views(s.instances@))
}

} // verus!
