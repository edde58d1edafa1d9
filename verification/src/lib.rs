//! Telemetry state core of a battery-powered tracker: framing and decoding of
//! position sentences, the connection lifecycle of the Bluetooth peripheral,
//! and the latest-value channels that carry their state to consumers.

pub mod ble;
pub mod display;
pub mod gnss;
