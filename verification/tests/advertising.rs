use small_black_box::ble::advertise::{advertise, uuid_bytes, ADVERTISEMENT_SIZE};
use small_black_box::ble::config::{Config, DEVICE_SERVICE_UUID};
use small_black_box::ble::error::Error;

#[test]
fn the_advertisement_carries_flags_and_service() {
    let data = advertise(Config::default().name).unwrap();
    let mut expected = vec![0x02, 0x01, 0x06, 0x11, 0x07];
    expected.extend_from_slice(&DEVICE_SERVICE_UUID.to_le_bytes());
    assert_eq!(data.adv_len, 21);
    assert_eq!(&data.adv_data[..data.adv_len], &expected[..]);
}

#[test]
fn the_scan_response_carries_the_name() {
    let data = advertise("Small Black Box").unwrap();
    let mut expected = vec![16, 0x08];
    expected.extend_from_slice(b"Small Black Box");
    assert_eq!(data.scan_len, 17);
    assert_eq!(&data.scan_data[..data.scan_len], &expected[..]);
}

#[test]
fn a_name_fills_the_scan_response_at_most() {
    let longest = "x".repeat(ADVERTISEMENT_SIZE - 2);
    let data = advertise(&longest).unwrap();
    assert_eq!(data.scan_len, ADVERTISEMENT_SIZE);
    assert_eq!(data.scan_data[0], 30);
    assert_eq!(data.scan_data[1], 0x08);
    assert_eq!(&data.scan_data[2..], longest.as_bytes());
    let too_long = "x".repeat(ADVERTISEMENT_SIZE - 1);
    assert_eq!(advertise(&too_long), Err(Error::AdvertisementError));
    let empty = advertise("").unwrap();
    assert_eq!(&empty.scan_data[..empty.scan_len], &[1, 0x08]);
}

#[test]
fn identifiers_are_sent_least_significant_byte_first() {
    assert_eq!(uuid_bytes(DEVICE_SERVICE_UUID), DEVICE_SERVICE_UUID.to_le_bytes());
    assert_eq!(uuid_bytes(0), [0; 16]);
    assert_eq!(uuid_bytes(u128::MAX), [0xff; 16]);
    assert_eq!(uuid_bytes(0x0102), [2, 1, 0, 0, 0, 0, 0, 0, 0, 0, 0, 0, 0, 0, 0, 0]);
}
