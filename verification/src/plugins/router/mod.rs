pub mod lane;
pub mod nearby;
pub mod rule;
