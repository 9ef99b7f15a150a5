pub mod api;
pub mod default;
pub mod req;
