pub mod default;
pub mod req;
