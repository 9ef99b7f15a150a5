pub mod circuitbreaker;
pub mod faultdetect;
pub mod matcher;
pub mod policy;
pub mod ratelimit;
pub mod router;
