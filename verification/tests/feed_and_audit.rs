use harborfeed::bitcursor::checksum64;
use harborfeed::error::HarborError;
use harborfeed::model::{CargoEvent, EdifactSummary, Feed, FeedEvent, GpsFix, PositionSource, TideReading, VesselPosition};
use harborfeed::normalize::{parse_feed_text, parse_nmea_event};
use harborfeed::{audit_feed, parse_feed_bytes};

const MIXED: &str = "$GPGGA,123519,4807.038,N,01131.000,E,1,08,0.9,545.4,M,46.9,M,,*47\n\
\n\
!AIVDM,1,1,,A,15M67FE01srgRk0GBN`9:Ovt0000,0*66\n\
$GPRMC,123519,A,4807.038,N,01131.000,E,022.4,084.4,230394,003.1,W*00\n\
$GPXYZ,1,2*4F\n\
!AIVDM,1,1,,A,403OviQvQHee9000000000000000,0*76\n\
!AIVDM,1,1,,A,802<HH00,0*20\n\
Station,Water\n\
BERTH WINDOW OPEN\n";

#[test]
fn mixed_feed_lines() {
    let feed = parse_feed_text(MIXED).unwrap();
    assert_eq!(feed.invalid_nmea_checksums, 1);
    assert_eq!(feed.parse_warnings, vec!["unsupported sentence XYZ".to_string()]);
    assert_eq!(feed.events.len(), 5);
    assert!(matches!(feed.events[0], FeedEvent::GpsFix(_)));
    match &feed.events[1] {
        FeedEvent::VesselPosition(p) => assert_eq!(p.mmsi, 366053209),
        other => panic!("unexpected {:?}", other),
    }
    match &feed.events[2] {
        FeedEvent::VesselPosition(p) => {
            assert_eq!(*p, VesselPosition::bare(3669702, PositionSource::AisBase));
            assert_eq!(p.source.as_str(), "AIS-BASE");
        }
        other => panic!("unexpected {:?}", other),
    }
    match &feed.events[3] {
        FeedEvent::UnknownSentence(s) => assert_eq!(s, "AIS type 8"),
        other => panic!("unexpected {:?}", other),
    }
    match &feed.events[4] {
        FeedEvent::UnknownSentence(s) => assert_eq!(s, "BERTH WINDOW OPEN"),
        other => panic!("unexpected {:?}", other),
    }
}

#[test]
fn whole_interchange_feed() {
    let text = "UNB+UNOC:3+A+B'UNH+1+COARRI'EQD+CN+ABCD1234'LOC+11+NLRTM'UNT+4+1'UNZ+1+1'";
    let feed = parse_feed_text(text).unwrap();
    assert_eq!(feed.events.len(), 3);
    match &feed.events[0] {
        FeedEvent::EdifactMessage(m) => {
            assert_eq!(m.message_type, "COARRI");
            assert_eq!(m.segment_count, 4);
            assert_eq!(m.container_count, 1);
        }
        other => panic!("unexpected {:?}", other),
    }
    match &feed.events[1] {
        FeedEvent::PortCall(c) => assert_eq!(c.port_locode.as_deref(), Some("NLRTM")),
        other => panic!("unexpected {:?}", other),
    }
    match &feed.events[2] {
        FeedEvent::CargoEvent(c) => {
            assert_eq!(c.equipment_id.as_deref(), Some("ABCD1234"));
            assert_eq!(c.location.as_deref(), Some("NLRTM"));
        }
        other => panic!("unexpected {:?}", other),
    }
}

#[test]
fn whole_tide_feed() {
    let feed = parse_feed_text("station,time,observed\nX,1,2.0\nY,2,3.0\n").unwrap();
    assert_eq!(feed.events.len(), 2);
    assert!(matches!(feed.events[1], FeedEvent::TideReading(_)));
}

#[test]
fn edifact_line_errors_stop_the_feed() {
    let line = "UNB+X'".to_string() + &"A'".repeat(4100);
    let text = format!("$GPGGA,1*4B\n{}\n", line);
    assert_eq!(parse_feed_text(&text).unwrap_err(), HarborError::LimitExceeded("edifact segments"));
}

#[test]
fn feed_bytes_must_be_utf8() {
    assert_eq!(parse_feed_bytes(&[0x24, 0xff, 0xfe]).unwrap_err(), HarborError::InvalidUtf8);
    assert_eq!(harborfeed::parse_edifact_bytes(&[0xc3]).unwrap_err(), HarborError::InvalidUtf8);
    assert_eq!(harborfeed::parse_tide_csv_bytes(&[0x80]).unwrap_err(), HarborError::InvalidUtf8);
}

#[test]
fn nmea_event_checksum_and_errors() {
    assert_eq!(parse_nmea_event("$GPGGA,1*00").unwrap_err(), HarborError::InvalidNmeaChecksum);
    assert_eq!(parse_nmea_event("!AIVDM,2,1,3,A,802<HH00,0*10").unwrap_err(), HarborError::InvalidAisPayload);
    assert_eq!(parse_nmea_event("!AIVDM,1,1,,A,8zzz,0*64").unwrap_err(), HarborError::InvalidAisPayload);
}

#[test]
fn error_messages() {
    assert_eq!(HarborError::EmptyInput.message(), "empty input");
    assert_eq!(HarborError::InvalidNmeaField("gga lat").message(), "invalid NMEA field gga lat");
    assert_eq!(HarborError::UnsupportedAisType(27).message(), "unsupported AIS message type 27");
    assert_eq!(HarborError::LimitExceeded("edifact segments").message(), "limit exceeded while parsing edifact segments");
    assert_eq!(HarborError::CsvSyntax("header").message(), "CSV syntax error in header");
    assert_eq!(HarborError::EdifactSyntax("segment tag").message(), "EDIFACT syntax error in segment tag");
}

fn position(mmsi: u32, lat: i32, lon: i32, speed: Option<u32>) -> FeedEvent {
    FeedEvent::VesselPosition(VesselPosition {
        mmsi,
        latitude_raw: lat,
        longitude_raw: lon,
        speed_raw: speed,
        course_raw: None,
        heading_degrees: None,
        nav_status: None,
        timestamp_second: None,
        source: PositionSource::Ais,
    })
}

#[test]
fn audit_rules() {
    let mut feed = Feed::new();
    feed.push(position(1, 54_000_000, -108_000_000, Some(800)));
    feed.push(position(2, 54_000_001, 0, Some(801)));
    feed.push(FeedEvent::CargoEvent(CargoEvent {
        message_ref: None,
        equipment_id: Some("AB1".to_string()),
        equipment_type: None,
        booking_ref: None,
        gross_mass_kg: None,
        location: None,
        event_code: None,
        dangerous_goods: true,
    }));
    feed.push(FeedEvent::TideReading(TideReading {
        station: "S".to_string(),
        timestamp: "T".to_string(),
        observed_m: None,
        predicted_m: None,
        residual_bits: Some((-3.0f32).to_bits()),
        quality: None,
    }));
    feed.push(FeedEvent::TideReading(TideReading {
        station: "S2".to_string(),
        timestamp: "T".to_string(),
        observed_m: None,
        predicted_m: None,
        residual_bits: Some(2.5f32.to_bits()),
        quality: None,
    }));
    feed.push(FeedEvent::TideReading(TideReading {
        station: "S3".to_string(),
        timestamp: "T".to_string(),
        observed_m: None,
        predicted_m: None,
        residual_bits: Some(f32::NAN.to_bits()),
        quality: None,
    }));
    feed.push(FeedEvent::EdifactMessage(EdifactSummary {
        message_type: "X".to_string(),
        reference: "R".to_string(),
        segment_count: 0,
        container_count: 0,
        dangerous_goods_count: 0,
    }));
    let coords: Vec<(Option<u64>, Option<u64>)> = vec![(Some(1), Some(2)), (None, Some(3))];
    let digest = checksum64(&feed.digest_material(&coords));
    let findings = audit_feed(&feed, &coords);
    let ids: Vec<u16> = findings.iter().map(|f| f.rule_id).collect();
    assert_eq!(ids, vec![10, 11, 20, 21, 40, 50]);
    assert_eq!(findings[0].subject, "2");
    assert_eq!(findings[0].evidence, digest);
    assert_eq!(findings[2].evidence, digest);
    assert_eq!(findings[0].severity, 9);
    assert_eq!(findings[1].evidence, (801f32 / 10.0).to_bits() as u64);
    assert_eq!(findings[1].message, "AIS speed over ground is implausibly high");
    assert_eq!(findings[2].subject, "cargo");
    assert_eq!(findings[3].subject, "dangerous-goods");
    assert_eq!(findings[4].subject, "S");
    assert_eq!(findings[4].evidence, (-3.0f32).to_bits() as u64);
    assert_eq!(findings[5].subject, "R");
}

#[test]
fn digest_material_layout() {
    let mut feed = Feed::new();
    feed.push(position(1, 0, 0, None));
    feed.push(FeedEvent::UnknownSentence("ab".to_string()));
    feed.push(FeedEvent::EdifactMessage(EdifactSummary {
        message_type: "X".to_string(),
        reference: "R".to_string(),
        segment_count: 3,
        container_count: 0,
        dangerous_goods_count: 0,
    }));
    feed.push(FeedEvent::CargoEvent(CargoEvent {
        message_ref: Some("M".to_string()),
        equipment_id: Some("é".to_string()),
        equipment_type: None,
        booking_ref: None,
        gross_mass_kg: None,
        location: None,
        event_code: None,
        dangerous_goods: false,
    }));
    feed.push(FeedEvent::GpsFix(GpsFix {
        talker: "GP".to_string(),
        latitude: None,
        longitude: None,
        speed_knots: None,
        course_degrees: None,
        altitude_m: None,
        fix_quality: None,
        satellites: None,
        utc_time: None,
        date: None,
    }));
    // positions give their own coordinates; a fix takes them from `coords`
    let coords = vec![(Some(0x0102_0304_0506_0708u64), None), (None, None), (None, None), (None, None), (Some(0x0102_0304_0506_0708u64), None)];
    let material = feed.digest_material(&coords);
    let head: Vec<u8> = [vec![1u8, 0, 0, 0], vec![0u8; 16], b"abXR".to_vec(), vec![3, 0, 0, 0, 0, 0, 0, 0], vec![0xc3, 0xa9], b"GP".to_vec()].concat();
    assert_eq!(material, [head.clone(), vec![8, 7, 6, 5, 4, 3, 2, 1]].concat());
    // coordinates beyond `coords` count as absent
    assert_eq!(feed.digest_material(&[]), head);
    let mut south = Feed::new();
    south.push(position(7, -300_000, 600_000, None));
    let bits: Vec<u8> = [vec![7u8, 0, 0, 0], (-0.5f64).to_bits().to_le_bytes().to_vec(), 1.0f64.to_bits().to_le_bytes().to_vec()].concat();
    assert_eq!(south.digest_material(&[(Some(1), Some(2))]), bits);
    let findings = audit_feed(&feed, &coords);
    assert_eq!(findings.len(), 1);
    assert_eq!(findings[0].rule_id, 20);
    assert_eq!(findings[0].evidence, checksum64(&material));
}
