pub mod helper;
pub mod rule;
