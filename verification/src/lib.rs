//! Core logic of the ProxyZms desktop proxy client: configuration rewriting,
//! subscription-comment parsing, traffic formatting and the BLE proximity monitor.

pub mod text;
pub mod node_notes;
pub mod ble_lock;
pub mod bootstrap;
pub mod unpack;
pub mod mihomo;
pub mod autostart;
pub mod config;
pub mod theme;
pub mod format;
pub mod traffic;
pub mod logo;
