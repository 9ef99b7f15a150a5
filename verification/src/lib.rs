//! Traffic-governance logic of the Pole client: service routing, load balancing,
//! circuit breaking, rate-limit quota leases, fault-detection planning and
//! traffic security/mirror/mock evaluation, with contracts checked by Verus.

pub mod text;
pub mod keyed;
pub mod priority;
pub mod textsort;
pub mod model;
pub mod specification;
pub mod plugins;
pub mod traffic;
