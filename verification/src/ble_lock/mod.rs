//! Bluetooth Low Energy screen lock: watch the RSSI of a bound device and lock
//! the screen when it leaves.
//!
//! The layers are kept apart: the scanner produces readings, the [`monitor`]
//! folds them into a lock decision, the [`session`] functions decide what the
//! background task does next, and the platform lock call stands outside.

pub mod config;
pub mod device;
pub mod monitor;
pub mod notifier;
pub mod session;
