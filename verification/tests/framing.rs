use small_black_box::gnss::sentence::{SentenceBuffer, MAX_NMEA_SENTENCE_SIZE};

const FIX: &str = "$GPRMC,123519,A,4807.038,N,01131.000,E,022.4,084.4,230394,003.1,W*6A";

fn wire(body: &str, terminator: &str) -> Vec<u8> {
    let mut bytes = body.as_bytes().to_vec();
    bytes.extend_from_slice(terminator.as_bytes());
    bytes
}

fn feed_one_by_one(framer: &mut SentenceBuffer, bytes: &[u8]) -> Vec<String> {
    let mut completed = Vec::new();
    for &byte in bytes {
        if let Some(sentence) = framer.feed(byte) {
            completed.push(sentence.to_string());
        }
    }
    completed
}

#[test]
fn test_gps_sentence_validity() {
    assert!(true);
}

#[test]
fn a_sentence_is_completed_by_its_line_feed_only() {
    let mut framer = SentenceBuffer::new();
    let bytes = wire(FIX, "\r\n");
    for (i, &byte) in bytes.iter().enumerate() {
        let completed = framer.feed(byte).map(|s| s.to_string());
        if i + 1 == bytes.len() {
            assert_eq!(completed, Some(FIX.to_string()));
        } else {
            assert_eq!(completed, None);
        }
    }
}

#[test]
fn byte_by_byte_and_batch_give_the_same_sentence() {
    for terminator in ["\n", "\r\n"] {
        let bytes = wire(FIX, terminator);
        let mut single = SentenceBuffer::new();
        let mut batch = SentenceBuffer::new();
        let one_by_one = feed_one_by_one(&mut single, &bytes);
        let at_once = batch.feed_all(&bytes);
        assert_eq!(one_by_one, vec![FIX.to_string()]);
        assert_eq!(at_once, one_by_one);
    }
}

#[test]
fn sentences_back_to_back_are_all_completed() {
    let mut bytes = wire(FIX, "\r\n");
    bytes.extend_from_slice(&wire("$GPGGA,1*00", "\n"));
    bytes.extend_from_slice(&wire(FIX, "\n"));
    let mut framer = SentenceBuffer::new();
    let completed = framer.feed_all(&bytes);
    assert_eq!(
        completed,
        vec![FIX.to_string(), "$GPGGA,1*00".to_string(), FIX.to_string()]
    );
}

#[test]
fn bytes_before_the_start_marker_are_ignored() {
    let mut bytes = b"noise,*1\r\n\x00\xff".to_vec();
    bytes.extend_from_slice(&wire(FIX, "\r\n"));
    let mut framer = SentenceBuffer::new();
    assert_eq!(framer.feed_all(&bytes), vec![FIX.to_string()]);
}

#[test]
fn a_carriage_return_before_the_checksum_discards_the_sentence() {
    let mut framer = SentenceBuffer::new();
    assert!(framer.feed_all(b"$GPRMC,1,2\r\n").is_empty());
    assert_eq!(framer.as_string().unwrap(), "");
    assert_eq!(framer.feed_all(&wire(FIX, "\n")), vec![FIX.to_string()]);
}

#[test]
fn a_line_feed_inside_the_payload_is_skipped() {
    let mut framer = SentenceBuffer::new();
    assert_eq!(framer.feed_all(b"$AB\nCD*00\n"), vec!["$ABCD*00".to_string()]);
}

#[test]
fn a_byte_other_than_a_terminator_after_the_checksum_resets() {
    let mut framer = SentenceBuffer::new();
    assert!(framer.feed_all(b"$AB*00X\n").is_empty());
    assert_eq!(framer.as_string().unwrap(), "");
}

#[test]
fn a_start_marker_after_the_checksum_does_not_open_a_sentence() {
    let mut framer = SentenceBuffer::new();
    assert!(framer.feed_all(b"$AB*00$CD*11\n").is_empty());
}

#[test]
fn invalid_utf8_is_dropped_silently() {
    let mut framer = SentenceBuffer::new();
    assert!(framer.feed_all(b"$A\xffB*00\r\n").is_empty());
    assert_eq!(framer.as_string().unwrap(), "");
    assert_eq!(framer.feed_all(&wire(FIX, "\n")), vec![FIX.to_string()]);
}

#[test]
fn as_string_shows_what_is_buffered() {
    let mut framer = SentenceBuffer::new();
    framer.feed_all(b"$GPR");
    assert_eq!(framer.as_string().unwrap(), "$GPR");
    framer.feed_all(b"\xff");
    assert!(framer.as_string().is_err());
}

#[test]
fn a_completed_sentence_stays_readable_until_the_next_byte() {
    let mut framer = SentenceBuffer::new();
    framer.feed_all(&wire(FIX, "\n"));
    assert_eq!(framer.as_string().unwrap(), FIX);
    assert_eq!(framer.feed(b'x'), None);
    assert_eq!(framer.as_string().unwrap(), "");
}

#[test]
fn a_sentence_of_exactly_the_capacity_is_completed() {
    let mut body = String::from("$");
    while body.len() < MAX_NMEA_SENTENCE_SIZE - 3 {
        body.push('A');
    }
    body.push_str("*00");
    assert_eq!(body.len(), MAX_NMEA_SENTENCE_SIZE);
    let mut framer = SentenceBuffer::new();
    assert_eq!(framer.feed_all(&wire(&body, "\r\n")), vec![body]);
}

#[test]
fn a_sentence_one_byte_over_the_capacity_is_discarded() {
    let mut body = String::from("$");
    while body.len() < MAX_NMEA_SENTENCE_SIZE - 2 {
        body.push('A');
    }
    body.push_str("*00");
    assert_eq!(body.len(), MAX_NMEA_SENTENCE_SIZE + 1);
    let mut framer = SentenceBuffer::new();
    assert!(framer.feed_all(&wire(&body, "\r\n")).is_empty());
    assert_eq!(framer.as_string().unwrap(), "");
}

#[test]
fn an_unterminated_run_overflows_back_to_idle() {
    let mut framer = SentenceBuffer::new();
    let mut run = vec![b'$'];
    run.extend(std::iter::repeat(b'A').take(MAX_NMEA_SENTENCE_SIZE - 1));
    assert!(framer.feed_all(&run).is_empty());
    assert_eq!(framer.as_string().unwrap().len(), MAX_NMEA_SENTENCE_SIZE);
    assert_eq!(framer.feed(b'A'), None);
    assert_eq!(framer.as_string().unwrap(), "");
    assert!(framer.feed_all(&[b'A'; 1000]).is_empty());
    assert_eq!(framer.as_string().unwrap(), "");
    assert_eq!(framer.feed_all(&wire(FIX, "\r\n")), vec![FIX.to_string()]);
}

#[test]
fn reset_discards_what_is_buffered() {
    let mut framer = SentenceBuffer::new();
    framer.feed_all(b"$GPRMC,1235");
    framer.reset("test");
    assert_eq!(framer.as_string().unwrap(), "");
    assert!(framer.feed_all(b"19,A*00\n").is_empty());
}
