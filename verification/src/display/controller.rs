//! The decisions of the display task.
//!
//! The task reads the connectivity and the position channel. It draws the
//! display again when what it shows has changed, and in any case after a
//! fixed time. A channel that holds no value yet changes nothing.

use crate::ble::state::State;
use crate::gnss::positioning::GnssPositioning;
use vstd::prelude::*;

verus! {

/// After how long the display is drawn again whatever happened, in milliseconds.
pub const FORCED_UPDATE_INTERVAL_MS: u64 = 30_000;

/// How long the task rests after each event, in milliseconds.
pub const SETTLE_DELAY_MS: u64 = 50;

/// What the display shows.
#[derive(Debug, Clone, Copy)]
pub struct DisplayController {
    is_ble_connected: bool,
    positioning: Option<GnssPositioning>,
}

/// Tells whether two fixes are the same, field by field.
pub fn same_fix(a: &GnssPositioning, b: &GnssPositioning) -> (same: bool)
    ensures
        same == (*a == *b),
{
    a.datetime.date.year == b.datetime.date.year && a.datetime.date.month == b.datetime.date.month
        && a.datetime.date.day == b.datetime.date.day && a.datetime.time.hour
        == b.datetime.time.hour && a.datetime.time.minute == b.datetime.time.minute
        && a.datetime.time.second == b.datetime.time.second && a.datetime.time.nanosecond
        == b.datetime.time.nanosecond && a.latitude_e7 == b.latitude_e7 && a.longitude_e7
        == b.longitude_e7 && a.speed_milliknots == b.speed_milliknots && a.heading_millidegrees
        == b.heading_millidegrees
}

impl DisplayController {
    /// Whether the display shows a connection.
    pub closed spec fn shows_connected(&self) -> bool {
        self.is_ble_connected
    }

    /// The fix that the display shows, if it shows one.
    pub closed spec fn shows_fix(&self) -> Option<GnssPositioning> {
        self.positioning
    }

    /// A display that shows no connection and no fix.
    pub fn new() -> (controller: DisplayController)
        ensures
            !controller.shows_connected(),
            controller.shows_fix() == None::<GnssPositioning>,
    {
        DisplayController { is_ble_connected: false, positioning: None }
    }

    /// Takes what the connectivity channel holds after it has changed, and
    /// tells whether the display is to be drawn again: exactly where the
    /// channel holds a state whose connection status the display does not show.
    pub fn ble_changed(&mut self, state: Option<State>) -> (redraw: bool)
        ensures
            redraw == (state matches Some(s) && s.connection_status != old(
                self,
            ).shows_connected()),
            final(self).shows_connected() == match state {
                Some(s) => s.connection_status,
                None => old(self).shows_connected(),
            },
            final(self).shows_fix() == old(self).shows_fix(),
    {
        match state {
            Some(state) => {
                if state.connection_status != self.is_ble_connected {
                    self.is_ble_connected = state.connection_status;
                    true
                } else {
                    false
                }
            },
            None => false,
        }
    }

    /// Takes what the position channel holds after it has changed, and tells
    /// whether the display is to be drawn again: exactly where the channel
    /// holds a report that differs from what the display shows.
    pub fn gps_changed(&mut self, report: Option<Option<GnssPositioning>>) -> (redraw: bool)
        ensures
            redraw == (report matches Some(r) && r != old(self).shows_fix()),
            final(self).shows_fix() == match report {
                Some(r) => r,
                None => old(self).shows_fix(),
            },
            final(self).shows_connected() == old(self).shows_connected(),
    {
        match report {
            Some(report) => {
                let same = match (&self.positioning, &report) {
                    (Some(shown), Some(new)) => same_fix(shown, new),
                    (None, None) => true,
                    _ => false,
                };
                if !same {
                    self.positioning = report;
                }
                !same
            },
            None => false,
        }
    }

    /// Whether the display shows a connection.
    pub fn is_ble_connected(&self) -> (connected: bool)
        ensures
            connected == self.shows_connected(),
    {
        self.is_ble_connected
    }

    /// The fix that the display shows, if it shows one.
    pub fn positioning(&self) -> (fix: Option<GnssPositioning>)
        ensures
            fix == self.shows_fix(),
    {
        self.positioning
    }

    /// The line that tells whether a central is connected.
    pub fn ble_status(&self) -> (line: &'static str)
        ensures
            line == if self.shows_connected() {
                "[X] BLE"
            } else {
                "[ ] BLE"
            },
    {
        if self.is_ble_connected {
            "[X] BLE"
        } else {
            "[ ] BLE"
        }
    }
}

} // verus!
