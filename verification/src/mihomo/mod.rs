//! The mihomo External Controller: its response models and the parts of the
//! client that only compute (URLs, paths). The HTTP calls, the WebSocket and
//! the process handling stand in the application.

pub mod api;
pub mod process;
pub mod types;
