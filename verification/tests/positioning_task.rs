use small_black_box::gnss::driver::{backoff, keep_draining, Gnss, RecoveryStep};
use small_black_box::gnss::positioning::decode;

const FIX: &str = "$GPRMC,123519,A,4807.038,N,01131.000,E,022.4,084.4,230394,003.1,W*6A\r\n";
const VOID: &str = "$GPRMC,123519,V,4807.038,N,01131.000,E,022.4,084.4,230394,003.1,W*7D\r\n";
const GGA: &str = "$GPGGA,123519,4807.038,N,01131.000,E,1,08,0.9,545.4,M,46.9,M,,*47\r\n";
const CORRUPT: &str = "$GPRMC,123519,A,4807.038,N,01131.000,E,022.4,084.4,230394,003.1,W*6B\r\n";

#[test]
fn a_fix_is_published_and_no_fix_is_published_as_none() {
    let fix = decode(FIX).unwrap();
    let mut gnss = Gnss::new();
    assert_eq!(gnss.read_positioning(FIX.as_bytes()), vec![Some(fix)]);
    assert_eq!(gnss.read_positioning(VOID.as_bytes()), vec![None]);
}

#[test]
fn sentences_that_do_not_decode_publish_nothing() {
    let mut gnss = Gnss::new();
    assert_eq!(gnss.read_positioning(GGA.as_bytes()), vec![]);
    assert_eq!(gnss.read_positioning(CORRUPT.as_bytes()), vec![]);
    assert_eq!(gnss.read_positioning(b"$GPRMC,,A*00\r\n"), vec![]);
}

#[test]
fn reads_may_cut_sentences_anywhere() {
    let fix = decode(FIX).unwrap();
    let stream = format!("{}{}{}{}{}", GGA, FIX, CORRUPT, VOID, FIX);
    let expected = vec![Some(fix), None, Some(fix)];
    let mut whole = Gnss::new();
    assert_eq!(whole.read_positioning(stream.as_bytes()), expected);
    for chunk in [1, 7, 16, 64] {
        let mut gnss = Gnss::new();
        let mut published = Vec::new();
        for bytes in stream.as_bytes().chunks(chunk) {
            published.extend(gnss.read_positioning(bytes));
        }
        assert_eq!(published, expected);
    }
}

#[test]
fn a_fault_mid_sentence_does_not_stitch() {
    let fix = decode(FIX).unwrap();
    let mut gnss = Gnss::new();
    assert_eq!(gnss.read_positioning(&FIX.as_bytes()[..30]), vec![]);
    let recovery = gnss.handle_uart_error();
    assert_eq!(recovery[0], RecoveryStep::Drain);
    assert_eq!(recovery[1], RecoveryStep::PublishNoFix);
    assert_eq!(gnss.read_positioning(&FIX.as_bytes()[30..]), vec![]);
    assert_eq!(gnss.read_positioning(FIX.as_bytes()), vec![Some(fix)]);
}

#[test]
fn without_the_reset_the_halves_would_have_been_stitched() {
    let fix = decode(FIX).unwrap();
    let mut gnss = Gnss::new();
    assert_eq!(gnss.read_positioning(&FIX.as_bytes()[..30]), vec![]);
    assert_eq!(gnss.read_positioning(&FIX.as_bytes()[30..]), vec![Some(fix)]);
}

#[test]
fn the_pause_doubles_with_every_fault_in_a_row_up_to_a_second() {
    let mut gnss = Gnss::new();
    for expected in [100, 200, 400, 800, 1000, 1000, 1000] {
        let recovery = gnss.handle_uart_error();
        assert_eq!(
            recovery,
            [
                RecoveryStep::Drain,
                RecoveryStep::PublishNoFix,
                RecoveryStep::Wait { delay_ms: expected },
            ]
        );
    }
    gnss.read_positioning(b"");
    assert_eq!(gnss.handle_uart_error()[2], RecoveryStep::Wait { delay_ms: 100 });
}

#[test]
fn the_pause_starts_at_a_tenth_of_a_second_and_never_exceeds_a_second() {
    assert_eq!(backoff(0), 0);
    assert_eq!(backoff(1), 100);
    assert_eq!(backoff(2), 200);
    assert_eq!(backoff(3), 400);
    assert_eq!(backoff(4), 800);
    assert_eq!(backoff(5), 1000);
    assert_eq!(backoff(6), 1000);
    assert_eq!(backoff(u32::MAX), 1000);
}

#[test]
fn draining_goes_on_while_reads_bring_bytes() {
    assert!(keep_draining(Some(128)));
    assert!(keep_draining(Some(1)));
    assert!(!keep_draining(Some(0)));
    assert!(!keep_draining(None));
}
