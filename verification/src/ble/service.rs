//! The attributes that the device serves to a connected central.

use vstd::prelude::*;

verus! {

/// The values of the device service's characteristics.
#[derive(Debug, Clone, Copy, PartialEq, Eq)]
pub struct DeviceService {
    /// Status: the counter that the telemetry task last notified.
    pub status: u8,
    /// The telemetry record.
    pub telemetry: [u8; 24],
    /// The error log.
    pub error_log: [u8; 7],
}

/// The attribute server: the device service is all it serves.
#[derive(Debug, Clone, Copy, PartialEq, Eq)]
pub struct Server {
    pub device_service: DeviceService,
}

impl Server {
    /// A server whose characteristics are all zero.
    pub fn new() -> (server: Server)
        ensures
            server.device_service.status == 0,
            server.device_service.telemetry@ == Seq::new(24, |i: int| 0u8),
            server.device_service.error_log@ == Seq::new(7, |i: int| 0u8),
    {
        Server { device_service: DeviceService { status: 0, telemetry: [0; 24], error_log: [0; 7] } }
    }
}

} // verus!
