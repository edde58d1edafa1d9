use small_black_box::ble::state::State;
use small_black_box::display::controller::{same_fix, DisplayController};
use small_black_box::gnss::positioning::decode;

const FIX: &str = "$GPRMC,123519,A,4807.038,N,01131.000,E,022.4,084.4,230394,003.1,W*6A";
const LATER: &str = "$GPRMC,123520,A,4807.038,N,01131.000,E,022.4,084.4,230394,003.1,W*60";

#[test]
fn a_fresh_display_shows_nothing() {
    let display = DisplayController::new();
    assert!(!display.is_ble_connected());
    assert_eq!(display.positioning(), None);
    assert_eq!(display.ble_status(), "[ ] BLE");
}

#[test]
fn the_display_is_drawn_again_only_when_the_connection_changes() {
    let mut display = DisplayController::new();
    assert!(!display.ble_changed(None));
    assert!(!display.ble_changed(Some(State { connection_status: false, rssi: None })));
    assert!(display.ble_changed(Some(State { connection_status: true, rssi: None })));
    assert_eq!(display.ble_status(), "[X] BLE");
    assert!(!display.ble_changed(Some(State { connection_status: true, rssi: Some(-40) })));
    assert!(!display.ble_changed(None));
    assert!(display.is_ble_connected());
    assert!(display.ble_changed(Some(State { connection_status: false, rssi: None })));
    assert_eq!(display.ble_status(), "[ ] BLE");
}

#[test]
fn the_display_is_drawn_again_only_when_the_fix_changes() {
    let fix = decode(FIX).unwrap();
    let later = decode(LATER).unwrap();
    let mut display = DisplayController::new();
    assert!(!display.gps_changed(None));
    assert!(!display.gps_changed(Some(None)));
    assert!(display.gps_changed(Some(Some(fix))));
    assert_eq!(display.positioning(), Some(fix));
    assert!(!display.gps_changed(Some(Some(fix))));
    assert!(!display.gps_changed(None));
    assert!(display.gps_changed(Some(Some(later))));
    assert_eq!(display.positioning(), Some(later));
    assert!(display.gps_changed(Some(None)));
    assert_eq!(display.positioning(), None);
}

#[test]
fn fixes_are_compared_field_by_field() {
    let fix = decode(FIX).unwrap();
    let later = decode(LATER).unwrap();
    assert!(same_fix(&fix, &fix));
    assert!(!same_fix(&fix, &later));
    let mut moved = fix;
    moved.longitude_e7 += 1;
    assert!(!same_fix(&fix, &moved));
    let mut slower = fix;
    slower.speed_milliknots = None;
    assert!(!same_fix(&fix, &slower));
}
