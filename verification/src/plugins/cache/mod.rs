pub mod failover;
pub mod memory;
