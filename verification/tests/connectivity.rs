use small_black_box::ble::config::{AddrKind, Config, DEVICE_SERVICE_UUID};
use small_black_box::ble::error::Error;
use small_black_box::ble::state::{BleStateTx, State, StateController};
use small_black_box::ble::{Action, Ble, Event, Phase, NOTIFY_PERIOD_MS, RETRY_DELAY_MS};

const STATUS_HANDLE: u16 = 0x0012;
const OTHER_HANDLE: u16 = 0x0015;

const DISCONNECTED: State = State { connection_status: false, rssi: None };
const CONNECTED: State = State { connection_status: true, rssi: None };

#[test]
fn a_fresh_channel_holds_nothing() {
    let tx = BleStateTx::new();
    assert_eq!(tx.try_get(), None);
}

#[test]
fn the_latest_of_many_sends_is_what_a_read_returns() {
    let mut tx = BleStateTx::new();
    for n in 0..100i8 {
        assert!(tx.send(State { connection_status: n % 3 == 0, rssi: Some(-n) }));
    }
    assert_eq!(tx.try_get(), Some(State { connection_status: true, rssi: Some(-99) }));
    assert_eq!(tx.try_get(), Some(State { connection_status: true, rssi: Some(-99) }));
    assert!(tx.send(DISCONNECTED));
    assert_eq!(tx.try_get(), Some(DISCONNECTED));
}

#[test]
fn a_new_reader_sees_the_current_value_at_once() {
    let mut tx = BleStateTx::new();
    tx.send(CONNECTED);
    let mut rx = tx.subscribe().unwrap();
    assert_eq!(rx.receiver.try_changed(), Some(CONNECTED));
    assert_eq!(rx.receiver.try_changed(), None);
    tx.send(DISCONNECTED);
    tx.send(CONNECTED);
    tx.send(DISCONNECTED);
    assert_eq!(rx.receiver.try_get(), Some(DISCONNECTED));
    assert_eq!(rx.receiver.try_changed(), None);
}

#[test]
fn a_reader_added_after_many_sends_has_seen_none_of_them() {
    let mut tx = BleStateTx::new();
    for n in 0..50i8 {
        tx.send(State { connection_status: true, rssi: Some(n) });
    }
    let mut late = tx.subscribe().unwrap();
    assert_eq!(
        late.receiver.try_changed(),
        Some(State { connection_status: true, rssi: Some(49) })
    );
    assert_eq!(late.receiver.try_changed(), None);

    let mut controller = StateController::new();
    controller.set_connected();
    let mut reader = controller.subscribe().unwrap();
    assert_eq!(reader.receiver.try_changed(), Some(CONNECTED));

    let mut ble = Ble::new(Config::default());
    ble.on_event(Event::Start { status_handle: STATUS_HANDLE });
    ble.on_event(Event::Connected);
    ble.on_event(Event::Disconnected);
    let mut reader = ble.subscribe().unwrap();
    assert_eq!(reader.receiver.try_changed(), Some(DISCONNECTED));
    assert_eq!(reader.receiver.try_changed(), None);
}

#[test]
fn readers_do_not_consume_each_others_changes() {
    let mut tx = BleStateTx::new();
    let mut first = tx.subscribe().unwrap();
    let mut second = tx.subscribe().unwrap();
    assert_eq!(first.receiver.try_changed(), None);
    tx.send(CONNECTED);
    assert_eq!(first.receiver.try_changed(), Some(CONNECTED));
    assert_eq!(second.receiver.try_changed(), Some(CONNECTED));
    assert_eq!(tx.try_get(), Some(CONNECTED));
}

#[test]
fn a_channel_admits_four_readers() {
    let tx = BleStateTx::new();
    let readers: Vec<_> = (0..4).map(|_| tx.subscribe()).collect();
    assert!(readers.iter().all(|reader| reader.is_some()));
    assert!(tx.subscribe().is_none());
    drop(readers);
    assert!(tx.subscribe().is_some());
}

#[test]
fn channels_do_not_share_state() {
    let mut first = BleStateTx::new();
    let second = BleStateTx::new();
    first.send(CONNECTED);
    assert_eq!(second.try_get(), None);
}

#[test]
fn the_controller_publishes_every_change() {
    let mut controller = StateController::new();
    let mut rx = controller.subscribe().unwrap();
    assert_eq!(controller.try_get(), Some(DISCONNECTED));
    assert_eq!(rx.receiver.try_changed(), Some(DISCONNECTED));
    controller.set_connected();
    assert_eq!(controller.try_get(), Some(CONNECTED));
    assert_eq!(rx.receiver.try_changed(), Some(CONNECTED));
    controller.set_disconnected();
    assert_eq!(controller.try_get(), Some(DISCONNECTED));
    assert_eq!(rx.receiver.try_changed(), Some(DISCONNECTED));
    assert_eq!(rx.receiver.try_changed(), None);
}

#[test]
fn the_default_state_is_disconnected() {
    assert_eq!(State::default(), DISCONNECTED);
}

#[test]
fn the_default_configuration_names_the_device() {
    let config = Config::default();
    assert_eq!(config.name, "Small Black Box");
    assert_eq!(config.address.kind, AddrKind::Public);
    assert_eq!(config.address.addr, [0x48, 0xca, 0x43, 0x3b, 0x0f, 0xa8]);
    assert_eq!(DEVICE_SERVICE_UUID, 0x17ada41d_b564_4a77_ad1a_22cf554002fc);
}

#[test]
fn a_disconnect_during_the_event_service_ends_the_telemetry() {
    let mut ble = Ble::new(Config::default());
    let mut rx = ble.subscribe().unwrap();
    let mut observed = Vec::new();
    let mut notified = Vec::new();
    observed.extend(rx.receiver.try_changed());

    assert_eq!(ble.on_event(Event::Start { status_handle: STATUS_HANDLE }), Action::Advertise { delay_ms: 0 });
    assert_eq!(ble.on_event(Event::Connected), Action::Serve);
    observed.extend(rx.receiver.try_changed());

    if let Action::Notify { value } = ble.on_event(Event::TelemetryDue) {
        notified.push(value);
    }
    assert_eq!(ble.on_event(Event::Notified), Action::Wait { delay_ms: NOTIFY_PERIOD_MS });
    assert_eq!(ble.on_event(Event::GattRead { handle: STATUS_HANDLE }), Action::Reply);

    assert_eq!(ble.on_event(Event::Disconnected), Action::Advertise { delay_ms: 0 });
    observed.extend(rx.receiver.try_changed());

    for _ in 0..3 {
        if let Action::Notify { value } = ble.on_event(Event::TelemetryDue) {
            notified.push(value);
        }
        assert_eq!(ble.on_event(Event::Notified), Action::Nothing);
    }

    assert_eq!(observed, vec![DISCONNECTED, CONNECTED, DISCONNECTED]);
    assert_eq!(notified, vec![1]);
    assert_eq!(ble.phase(), Phase::Advertising);
    assert_eq!(ble.published(), Some(DISCONNECTED));
}

#[test]
fn the_manager_makes_the_advertisement_from_its_configuration() {
    let ble = Ble::new(Config { name: "tracker", ..Config::default() });
    let data = ble.advertisement().unwrap();
    assert_eq!(&data.scan_data[..data.scan_len], b"\x08\x08tracker");
    assert_eq!(data.adv_len, 21);
    let long = Ble::new(Config { name: "a name of thirty bytes, too long", ..Config::default() });
    assert_eq!(long.advertisement(), Err(Error::AdvertisementError));
}

#[test]
fn starting_twice_changes_nothing() {
    let mut ble = Ble::new(Config::default());
    assert_eq!(
        ble.on_event(Event::Start { status_handle: STATUS_HANDLE }),
        Action::Advertise { delay_ms: 0 }
    );
    assert_eq!(ble.on_event(Event::Start { status_handle: OTHER_HANDLE }), Action::Nothing);
    ble.on_event(Event::Connected);
    assert_eq!(ble.on_event(Event::Connected), Action::Nothing);
    assert_eq!(ble.on_event(Event::AdvertiseFailed), Action::Nothing);
    assert_eq!(ble.on_event(Event::GattRead { handle: OTHER_HANDLE }), Action::Reply);
    assert_eq!(ble.last_read(), None);
    assert_eq!(ble.on_event(Event::GattRead { handle: STATUS_HANDLE }), Action::Reply);
    assert_eq!(ble.last_read(), Some(0));
    assert_eq!(ble.phase(), Phase::Connected);
}

#[test]
fn a_failed_advertisement_is_retried_after_a_pause() {
    let mut ble = Ble::new(Config::default());
    assert_eq!(ble.phase(), Phase::Idle);
    assert_eq!(ble.on_event(Event::AdvertiseFailed), Action::Nothing);
    assert_eq!(ble.on_event(Event::Start { status_handle: STATUS_HANDLE }), Action::Advertise { delay_ms: 0 });
    for _ in 0..5 {
        assert_eq!(
            ble.on_event(Event::AdvertiseFailed),
            Action::Advertise { delay_ms: RETRY_DELAY_MS }
        );
        assert_eq!(ble.phase(), Phase::Advertising);
        assert_eq!(ble.published(), Some(DISCONNECTED));
    }
    assert_eq!(RETRY_DELAY_MS, 1000);
    assert_eq!(ble.on_event(Event::Connected), Action::Serve);
    assert_eq!(ble.phase(), Phase::Connected);
}

#[test]
fn either_task_ending_ends_the_connection() {
    for ending in [Event::Disconnected, Event::GattFailed, Event::NotifyFailed] {
        let mut ble = Ble::new(Config::default());
        ble.on_event(Event::Start { status_handle: STATUS_HANDLE });
        ble.on_event(Event::Connected);
        assert_eq!(ble.published(), Some(CONNECTED));
        assert_eq!(ble.on_event(ending), Action::Advertise { delay_ms: 0 });
        assert_eq!(ble.phase(), Phase::Advertising);
        assert_eq!(ble.published(), Some(DISCONNECTED));
        assert_eq!(ble.on_event(ending), Action::Nothing);
        assert_eq!(ble.on_event(Event::TelemetryDue), Action::Nothing);
    }
}

#[test]
fn every_read_and_write_is_answered() {
    let mut ble = Ble::new(Config::default());
    for event in [
        Event::GattRead { handle: STATUS_HANDLE },
        Event::GattRead { handle: OTHER_HANDLE },
        Event::GattWrite { handle: STATUS_HANDLE },
        Event::GattWrite { handle: OTHER_HANDLE },
    ] {
        assert_eq!(ble.on_event(event), Action::Reply);
    }
    assert_eq!(ble.last_read(), None);
    assert_eq!(ble.on_event(Event::GattHandled), Action::Nothing);
    ble.on_event(Event::Start { status_handle: STATUS_HANDLE });
    ble.on_event(Event::Connected);
    assert_eq!(ble.on_event(Event::GattRead { handle: OTHER_HANDLE }), Action::Reply);
    assert_eq!(ble.last_read(), None);
    assert_eq!(ble.on_event(Event::GattRead { handle: STATUS_HANDLE }), Action::Reply);
    assert_eq!(ble.last_read(), Some(0));
    assert_eq!(ble.on_event(Event::TelemetryDue), Action::Notify { value: 1 });
    assert_eq!(ble.on_event(Event::GattWrite { handle: STATUS_HANDLE }), Action::Reply);
    assert_eq!(ble.last_read(), Some(0));
    assert_eq!(ble.on_event(Event::GattRead { handle: STATUS_HANDLE }), Action::Reply);
    assert_eq!(ble.last_read(), Some(1));
}

#[test]
fn the_counter_wraps_and_starts_anew_with_each_connection() {
    let mut ble = Ble::new(Config::default());
    ble.on_event(Event::Start { status_handle: STATUS_HANDLE });
    ble.on_event(Event::Connected);
    for expected in 1..=255u8 {
        assert_eq!(ble.on_event(Event::TelemetryDue), Action::Notify { value: expected });
    }
    assert_eq!(ble.on_event(Event::TelemetryDue), Action::Notify { value: 0 });
    assert_eq!(ble.on_event(Event::TelemetryDue), Action::Notify { value: 1 });
    ble.on_event(Event::NotifyFailed);
    ble.on_event(Event::Connected);
    assert_eq!(ble.on_event(Event::TelemetryDue), Action::Notify { value: 1 });
}
