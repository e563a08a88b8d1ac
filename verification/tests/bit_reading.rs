use harborfeed::bitcursor::{ais_text_char, checksum64, fold_pair, nmea_checksum, sixbit_value, BitCursor};
use harborfeed::error::HarborError;
use harborfeed::audit_feed;
use harborfeed::model::{Feed, FeedEvent, PositionSource, VesselPosition};

#[test]
fn sixbit_armoring() {
    assert_eq!(sixbit_value(b'0'), Ok(0));
    assert_eq!(sixbit_value(b'W'), Ok(39));
    assert_eq!(sixbit_value(b'`'), Ok(40));
    assert_eq!(sixbit_value(b'w'), Ok(63));
    assert_eq!(sixbit_value(b'/'), Err(HarborError::InvalidAisPayload));
    assert_eq!(sixbit_value(b'x'), Err(HarborError::InvalidAisPayload));
}

#[test]
fn text_alphabet() {
    assert_eq!(ais_text_char(0), b'@');
    assert_eq!(ais_text_char(1), b'A');
    assert_eq!(ais_text_char(26), b'Z');
    assert_eq!(ais_text_char(28), b'\\');
    assert_eq!(ais_text_char(32), b' ');
    assert_eq!(ais_text_char(33), b'!');
    assert_eq!(ais_text_char(48), b'0');
    assert_eq!(ais_text_char(63), b'?');
    assert_eq!(ais_text_char(64), b' ');
}

#[test]
fn checksums() {
    assert_eq!(nmea_checksum("GPGGA,123519,4807.038,N,01131.000,E,1,08,0.9,545.4,M,46.9,M,,"), 0x47);
    assert_eq!(nmea_checksum(""), 0);
    assert_eq!(checksum64(&[]), 11400714817998274761);
    assert_eq!(checksum64(b"abc"), 17108855459176101408);
    assert_eq!(fold_pair(1, 2), 13527852833713005073);
    assert_eq!(fold_pair(0, 0), 0);
}

#[test]
fn cursor_reads_fields_in_order() {
    let mut c = BitCursor::from_sixbit_payload("w0", 0).unwrap();
    assert_eq!(c.remaining(), 12);
    assert_eq!(c.read_u64(3), Ok(7));
    assert_eq!(c.read_bool(), Ok(true));
    assert_eq!(c.read_signed(2), Ok(-1));
    assert_eq!(c.remaining(), 6);
    assert_eq!(c.read_u64(7), Err(HarborError::InvalidAisPayload));
    assert_eq!(c.remaining(), 6);
    assert_eq!(c.read_u8(6), Ok(0));
    assert_eq!(c.skip(1), Err(HarborError::InvalidAisPayload));
}

#[test]
fn cursor_limits() {
    assert!(BitCursor::from_sixbit_payload("w", 6).is_err());
    assert!(BitCursor::from_sixbit_payload("wé", 0).is_err());
    let mut c = BitCursor::from_sixbit_payload("wwwwwwwwwwww", 4).unwrap();
    assert_eq!(c.remaining(), 68);
    assert_eq!(c.read_u64(65), Err(HarborError::InvalidAisPayload));
    assert_eq!(c.read_u64(64), Ok(u64::MAX));
    assert_eq!(c.read_signed(0), Err(HarborError::InvalidAisPayload));
    assert_eq!(c.read_signed(32), Err(HarborError::InvalidAisPayload));
    assert_eq!(c.read_signed(4), Ok(-1));
}

#[test]
fn cursor_text_consumes_whole_codes_on_failure() {
    // "1" = 000001 ('A'), "P" = 100000 (' '), "0" = 000000 ('@')
    let mut c = BitCursor::from_sixbit_payload("P1P01", 0).unwrap();
    assert_eq!(c.read_text(4).unwrap(), "A");
    assert_eq!(c.remaining(), 6);
    assert!(c.read_text(2).is_err());
    assert_eq!(c.remaining(), 0);
}

fn speed_evidence(n: u32) -> u64 {
    let mut feed = Feed::new();
    feed.push(FeedEvent::VesselPosition(VesselPosition {
        mmsi: 1,
        latitude_raw: 0,
        longitude_raw: 0,
        speed_raw: Some(n),
        course_raw: None,
        heading_degrees: None,
        nav_status: None,
        timestamp_second: None,
        source: PositionSource::Ais,
    }));
    let findings = audit_feed(&feed, &[]);
    assert_eq!(findings.len(), 1);
    assert_eq!(findings[0].rule_id, 11);
    findings[0].evidence
}

#[test]
fn f32_tenths() {
    for n in [801u32, 1022, 123456, 16777215, 16777217, 16777219, 123456789, u32::MAX] {
        assert_eq!(speed_evidence(n), (n as f32 / 10.0).to_bits() as u64, "n = {}", n);
    }
    assert_eq!(speed_evidence(801), 0x42a03333);
}
