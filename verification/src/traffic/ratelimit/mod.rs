pub mod api;
pub mod counter;
pub mod default;
pub mod distributed;
pub mod local;
pub mod req;
pub mod capacity;
