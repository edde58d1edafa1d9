//! The Bluetooth peripheral: connectivity state and its channel, and the
//! decisions of the connection lifecycle.
//!
//! The peripheral advertises until a central connects, serves the connection
//! until it ends, and advertises again, for ever. While a connection lasts,
//! two tasks run side by side: one answers the central's reads and writes,
//! the other notifies a counter at a fixed period. Whichever ends first ends
//! the connection for both. The radio work is the caller's; what to do next is
//! decided here, one event at a time.

pub mod advertise;
pub mod config;
pub mod error;
pub mod service;
pub mod state;

use crate::ble::advertise::{
    advertise, advertisement_of, scan_response_of, AdvertisementData, ADVERTISEMENT_SIZE,
};
use crate::ble::config::{Config, DEVICE_SERVICE_UUID};
use crate::ble::error::Error;
use crate::ble::service::Server;
use crate::ble::state::{BleStateRx, ChannelState, State, StateController};
use vstd::prelude::*;
use vstd::string::StringSliceAdditionalSpecFns;

verus! {

/// How long to wait before advertising again after a failure, in milliseconds.
pub const RETRY_DELAY_MS: u64 = 1000;

/// The period of the telemetry notifications, in milliseconds.
pub const NOTIFY_PERIOD_MS: u64 = 1000;

/// Where the peripheral stands in its lifecycle.
#[derive(Debug, Clone, Copy, PartialEq, Eq)]
pub enum Phase {
    /// Not started yet.
    Idle,
    /// Advertising, or about to advertise again.
    Advertising,
    /// Serving a connection.
    Connected,
}

/// What the radio, the attribute server or the timer reports.
#[derive(Debug, Clone, Copy, PartialEq, Eq)]
pub enum Event {
    /// The task starts. The attribute server stands, and the status
    /// characteristic has this handle.
    Start { status_handle: u16 },
    /// Advertising could not be started, or no connection could be accepted.
    AdvertiseFailed,
    /// A central has connected.
    Connected,
    /// The central has disconnected.
    Disconnected,
    /// The central reads the attribute with this handle.
    GattRead { handle: u16 },
    /// The central writes the attribute with this handle.
    GattWrite { handle: u16 },
    /// The attribute server has dealt with an event by itself.
    GattHandled,
    /// The attribute server failed on an event.
    GattFailed,
    /// The telemetry period has run out.
    TelemetryDue,
    /// The last notification was delivered.
    Notified,
    /// The last notification could not be delivered.
    NotifyFailed,
}

/// What the caller is to do next.
#[derive(Debug, Clone, Copy, PartialEq, Eq)]
pub enum Action {
    /// Nothing: the event changes nothing for the caller.
    Nothing,
    /// End what is running, wait this long, then advertise and accept a
    /// connection.
    Advertise { delay_ms: u64 },
    /// Serve the connection: run the event service and the telemetry task.
    Serve,
    /// Accept the event and send the reply.
    Reply,
    /// Notify the central of this value of the status characteristic.
    Notify { value: u8 },
    /// Wait this long, then report that the telemetry period has run out.
    Wait { delay_ms: u64 },
}

/// The lifecycle as mathematics: everything that decides what happens next.
pub ghost struct Lifecycle {
    pub phase: Phase,
    /// The counter that the telemetry task notifies.
    pub counter: u8,
    /// The value of the status characteristic.
    pub status: u8,
    /// What the central read last from the status characteristic.
    pub last_read: Option<u8>,
    /// The handle of the status characteristic.
    pub status_handle: u16,
    /// The connectivity state.
    pub state: State,
    /// The channel that the connectivity state is published on.
    pub channel: ChannelState,
}

impl Lifecycle {
    /// The connectivity state with no connection: nothing is known of a signal.
    pub open spec fn disconnected() -> State {
        State { connection_status: false, rssi: None }
    }

    /// Whether the connectivity state tells where the lifecycle stands: it
    /// says connected exactly while a connection is served.
    pub open spec fn consistent(self) -> bool {
        self.state.connection_status == (self.phase is Connected)
    }

    /// The lifecycle with a new connectivity state, published on the channel.
    pub open spec fn publishing(self, phase: Phase, state: State) -> Lifecycle {
        Lifecycle { phase, state, channel: self.channel.published(state), ..self }
    }

    /// Whether the event ends a connection.
    pub open spec fn ends_connection(event: Event) -> bool {
        event is Disconnected || event is GattFailed || event is NotifyFailed
    }

    /// The lifecycle after an event.
    pub open spec fn step(self, event: Event) -> Lifecycle {
        match event {
            Event::Start { status_handle } => {
                if self.phase is Idle {
                    Lifecycle { phase: Phase::Advertising, status_handle, ..self }
                } else {
                    self
                }
            },
            Event::AdvertiseFailed => {
                if self.phase is Advertising {
                    self.publishing(Phase::Advertising, Lifecycle::disconnected())
                } else {
                    self
                }
            },
            Event::Connected => {
                if self.phase is Advertising {
                    Lifecycle { counter: 0, ..self }.publishing(
                        Phase::Connected,
                        State { connection_status: true, rssi: self.state.rssi },
                    )
                } else {
                    self
                }
            },
            Event::Disconnected | Event::GattFailed | Event::NotifyFailed => {
                if self.phase is Connected {
                    self.publishing(Phase::Advertising, Lifecycle::disconnected())
                } else {
                    self
                }
            },
            Event::GattRead { handle } => {
                if self.phase is Connected && handle == self.status_handle {
                    Lifecycle { last_read: Some(self.status), ..self }
                } else {
                    self
                }
            },
            Event::GattWrite { .. } | Event::GattHandled | Event::Notified => self,
            Event::TelemetryDue => {
                if self.phase is Connected {
                    let counter = if self.counter == u8::MAX {
                        0u8
                    } else {
                        (self.counter + 1) as u8
                    };
                    Lifecycle { counter, status: counter, ..self }
                } else {
                    self
                }
            },
        }
    }

    /// What the caller is to do after an event.
    pub open spec fn action(self, event: Event) -> Action {
        match event {
            Event::Start { .. } => {
                if self.phase is Idle {
                    Action::Advertise { delay_ms: 0 }
                } else {
                    Action::Nothing
                }
            },
            Event::AdvertiseFailed => {
                if self.phase is Advertising {
                    Action::Advertise { delay_ms: RETRY_DELAY_MS }
                } else {
                    Action::Nothing
                }
            },
            Event::Connected => {
                if self.phase is Advertising {
                    Action::Serve
                } else {
                    Action::Nothing
                }
            },
            Event::Disconnected | Event::GattFailed | Event::NotifyFailed => {
                if self.phase is Connected {
                    Action::Advertise { delay_ms: 0 }
                } else {
                    Action::Nothing
                }
            },
            Event::GattRead { .. } | Event::GattWrite { .. } => Action::Reply,
            Event::GattHandled => Action::Nothing,
            Event::TelemetryDue => {
                if self.phase is Connected {
                    Action::Notify { value: self.step(event).counter }
                } else {
                    Action::Nothing
                }
            },
            Event::Notified => {
                if self.phase is Connected {
                    Action::Wait { delay_ms: NOTIFY_PERIOD_MS }
                } else {
                    Action::Nothing
                }
            },
        }
    }
}

/// The connection lifecycle manager: the peripheral's state and the sole
/// writer of the connectivity channel.
pub struct Ble {
    config: Config,
    server: Server,
    state_controller: StateController,
    phase: Phase,
    counter: u8,
    last_read: Option<u8>,
    status_handle: u16,
}

impl View for Ble {
    type V = Lifecycle;

    closed spec fn view(&self) -> Lifecycle {
        Lifecycle {
            phase: self.phase,
            counter: self.counter,
            status: self.server.device_service.status,
            last_read: self.last_read,
            status_handle: self.status_handle,
            state: self.state_controller.state(),
            channel: self.state_controller.channel(),
        }
    }
}

impl Ble {
    /// The configuration that the manager was made with.
    pub closed spec fn config(&self) -> Config {
        self.config
    }

    /// A manager that has not started. It makes the connectivity channel and
    /// publishes on it that nothing is connected.
    pub fn new(config: Config) -> (ble: Ble)
        ensures
            ble.config() == config,
            ble@ == (Lifecycle {
                phase: Phase::Idle,
                counter: 0,
                status: 0,
                last_read: None,
                status_handle: 0,
                state: Lifecycle::disconnected(),
                channel: ChannelState::fresh().sent(Lifecycle::disconnected()),
            }),
            ble@.consistent(),
    {
        Ble {
            config,
            server: Server::new(),
            state_controller: StateController::new(),
            phase: Phase::Idle,
            counter: 0,
            last_read: None,
            status_handle: 0,
        }
    }

    /// Takes one event, moves the lifecycle on and tells the caller what to
    /// do next.
    pub fn on_event(&mut self, event: Event) -> (action: Action)
        ensures
            final(self)@ == old(self)@.step(event),
            action == old(self)@.action(event),
            final(self).config() == old(self).config(),
            old(self)@.consistent() ==> final(self)@.consistent(),
    {
        match event {
            Event::Start { status_handle } => {
                match self.phase {
                    Phase::Idle => {
                        self.phase = Phase::Advertising;
                        self.status_handle = status_handle;
                        Action::Advertise { delay_ms: 0 }
                    },
                    _ => Action::Nothing,
                }
            },
            Event::AdvertiseFailed => {
                match self.phase {
                    Phase::Advertising => {
                        self.state_controller.set_disconnected();
                        Action::Advertise { delay_ms: RETRY_DELAY_MS }
                    },
                    _ => Action::Nothing,
                }
            },
            Event::Connected => {
                match self.phase {
                    Phase::Advertising => {
                        self.state_controller.set_connected();
                        self.phase = Phase::Connected;
                        self.counter = 0;
                        Action::Serve
                    },
                    _ => Action::Nothing,
                }
            },
            Event::Disconnected | Event::GattFailed | Event::NotifyFailed => {
                match self.phase {
                    Phase::Connected => {
                        self.state_controller.set_disconnected();
                        self.phase = Phase::Advertising;
                        Action::Advertise { delay_ms: 0 }
                    },
                    _ => Action::Nothing,
                }
            },
            Event::GattRead { handle } => {
                match self.phase {
                    Phase::Connected => {
                        if handle == self.status_handle {
                            self.last_read = Some(self.server.device_service.status);
                        }
                    },
                    _ => {},
                }
                Action::Reply
            },
            Event::GattWrite { handle: _ } => Action::Reply,
            Event::GattHandled => Action::Nothing,
            Event::TelemetryDue => {
                match self.phase {
                    Phase::Connected => {
                        self.counter = self.counter.wrapping_add(1);
                        self.server.device_service.status = self.counter;
                        Action::Notify { value: self.counter }
                    },
                    _ => Action::Nothing,
                }
            },
            Event::Notified => {
                match self.phase {
                    Phase::Connected => Action::Wait { delay_ms: NOTIFY_PERIOD_MS },
                    _ => Action::Nothing,
                }
            },
        }
    }

    /// Makes what the peripheral broadcasts while it advertises, from the
    /// name in its configuration.
    pub fn advertisement(&self) -> (data: Result<AdvertisementData, Error>)
        ensures
            data is Ok <==> self.config().name.spec_bytes().len() + 2 <= ADVERTISEMENT_SIZE,
            data matches Ok(made) ==> {
                &&& made.adv_len <= ADVERTISEMENT_SIZE
                &&& made.scan_len <= ADVERTISEMENT_SIZE
                &&& made.advertisement() == advertisement_of(DEVICE_SERVICE_UUID)
                &&& made.scan_response() == scan_response_of(self.config().name.spec_bytes())
            },
            data matches Err(e) ==> e == Error::AdvertisementError,
    {
        advertise(self.config.name)
    }

    /// The phase of the lifecycle.
    pub fn phase(&self) -> (phase: Phase)
        ensures
            phase == self@.phase,
    {
        self.phase
    }

    /// What the central read last from the status characteristic.
    pub fn last_read(&self) -> (value: Option<u8>)
        ensures
            value == self@.last_read,
    {
        self.last_read
    }

    /// The latest state on the connectivity channel.
    pub fn published(&self) -> (state: Option<State>)
        ensures
            state == self@.channel.latest,
    {
        self.state_controller.try_get()
    }

    /// Adds a reading end to the connectivity channel, if it admits one more.
    /// The new reader has seen nothing, so it finds the state that was
    /// published last at its first look for a change.
    pub fn subscribe(&self) -> (reader: Option<BleStateRx>)
        ensures
            reader matches Some(rx) ==> rx.seen() == 0,
    {
        self.state_controller.subscribe()
    }
}

/// The lifecycle has no end. Once started it advertises or serves a
/// connection for ever: no event brings it to rest.
pub proof fn lemma_lifecycle_never_rests(lifecycle: Lifecycle, event: Event)
    requires
        lifecycle.phase !is Idle,
    ensures
        lifecycle.step(event).phase !is Idle,
{
}

/// The connectivity state follows the lifecycle: after every event it says
/// connected exactly while a connection is served, and whenever a connection
/// has just ended it knows no signal strength.
pub proof fn lemma_state_follows_lifecycle(lifecycle: Lifecycle, event: Event)
    requires
        lifecycle.consistent(),
    ensures
        lifecycle.step(event).consistent(),
        lifecycle.phase is Connected && lifecycle.step(event).phase !is Connected
            ==> lifecycle.step(event).state == Lifecycle::disconnected(),
{
}

} // verus!
