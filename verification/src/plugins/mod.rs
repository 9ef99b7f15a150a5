pub mod cache;
pub mod circuitbreaker;
pub mod connector;
pub mod loadbalance;
pub mod router;
