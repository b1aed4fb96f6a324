//! The logic of a WiFi Android device-farm server: what it reads from `adb`
//! and from UIAutomator dumps, the records it keeps, and the decisions of its
//! batch processor, screenshot cache and scrcpy channel, with their
//! contracts proved by Verus.

pub mod config;
pub mod device;
pub mod json;
pub mod models;
pub mod pool;
pub mod routes;
pub mod services;
pub mod text;
pub mod utils;
