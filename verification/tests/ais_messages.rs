use harborfeed::ais::{ais_coord_bits, decode_payload, decode_single_fragment, parse_aivdm, AisMessage};
use harborfeed::error::HarborError;
use harborfeed::model::PositionSource;

#[test]
fn fragment_fields() {
    let f = parse_aivdm("!AIVDM,2,1,3,A,802<HH00,0*10").unwrap();
    assert_eq!(f.fragment_count, 2);
    assert_eq!(f.fragment_number, 1);
    assert_eq!(f.sequential_id.as_deref(), Some("3"));
    assert_eq!(f.radio_channel, Some('A'));
    assert_eq!(f.payload, "802<HH00");
    assert_eq!(f.fill_bits, 0);
    assert_eq!(decode_single_fragment(&f).unwrap_err(), HarborError::InvalidAisPayload);
}

#[test]
fn fragment_errors() {
    assert_eq!(parse_aivdm("$GPGGA,1*4B").unwrap_err(), HarborError::UnsupportedSentence("GPGGA".to_string()));
    assert_eq!(parse_aivdm("!AIVDM,1,1,,A,802<HH00*3C").unwrap_err(), HarborError::InvalidNmeaField("aivdm fields"));
}

#[test]
fn real_position_report() {
    let f = parse_aivdm("!AIVDM,1,1,,B,177KQJ5000G?tO`K>RA1wUbN0TKH,0*5C").unwrap();
    match decode_single_fragment(&f).unwrap() {
        AisMessage::Position(p) => {
            assert_eq!(p.mmsi, 477553000);
            assert_eq!(p.nav_status, Some(5));
            assert_eq!(p.speed_raw, Some(0));
            assert_eq!(p.longitude_raw, -73407500);
            assert_eq!(p.latitude_raw, 28549700);
            assert_eq!(p.course_raw, Some(510));
            assert_eq!(p.heading_degrees, Some(181));
            assert_eq!(p.timestamp_second, Some(15));
            assert_eq!(p.source, PositionSource::Ais);
        }
        other => panic!("unexpected {:?}", other),
    }
}

#[test]
fn built_position_report() {
    match decode_payload("15M67FE01srgRk0GBN`9:Ovt0000", 0).unwrap() {
        AisMessage::Position(p) => {
            assert_eq!(p.mmsi, 366053209);
            assert_eq!(p.nav_status, Some(5));
            assert_eq!(p.speed_raw, Some(123));
            assert_eq!(p.longitude_raw, -44100000);
            assert_eq!(p.latitude_raw, 24420000);
            assert_eq!(p.course_raw, Some(2345));
            assert_eq!(p.heading_degrees, None);
            assert_eq!(p.timestamp_second, Some(30));
            assert_eq!(p.source.as_str(), "AIS");
        }
        other => panic!("unexpected {:?}", other),
    }
}

#[test]
fn static_voyage_data() {
    let payload = "539>Jh@2Fe3t@48<00221<D621=@58000000001600000000EB0C@UDQh0000000000000";
    match decode_payload(payload, 2).unwrap() {
        AisMessage::Static(s) => {
            assert_eq!(s.mmsi, 211000001);
            assert_eq!(s.imo, Some(9876543));
            assert_eq!(s.callsign.as_deref(), Some("DABC"));
            assert_eq!(s.name.as_deref(), Some("SEA  STAR"));
            assert_eq!(s.ship_type, Some(70));
            assert_eq!(s.draught_dm, Some(85));
            assert_eq!(s.destination.as_deref(), Some("HAMBURG"));
        }
        other => panic!("unexpected {:?}", other),
    }
}

#[test]
fn static_data_report_parts() {
    match decode_payload("H52EpP@8iDF1L5HD00000000000", 2).unwrap() {
        AisMessage::Static(s) => {
            assert_eq!(s.mmsi, 338000001);
            assert_eq!(s.name.as_deref(), Some("BLUE WAVE"));
            assert_eq!(s.ship_type, None);
        }
        other => panic!("unexpected {:?}", other),
    }
    match decode_payload("H52EpPDUF5>4B0031<<i00", 0).unwrap() {
        AisMessage::Static(s) => {
            assert_eq!(s.ship_type, Some(37));
            assert_eq!(s.name.as_deref(), Some("VENDR"));
            assert_eq!(s.callsign.as_deref(), Some("CALL1"));
        }
        other => panic!("unexpected {:?}", other),
    }
}

#[test]
fn class_b_reports() {
    match decode_payload("B5MwqhP3wmrO505uN43Q0e600000", 0).unwrap() {
        AisMessage::Position(p) => {
            assert_eq!(p.mmsi, 367000002);
            assert_eq!(p.speed_raw, None);
            assert_eq!(p.course_raw, None);
            assert_eq!(p.heading_degrees, Some(90));
            assert_eq!(p.longitude_raw, -70000000);
            assert_eq!(p.latitude_raw, 25000000);
            assert_eq!(p.nav_status, None);
            assert_eq!(p.source, PositionSource::AisB);
        }
        other => panic!("unexpected {:?}", other),
    }
    match decode_payload("C5Mwqhh0E@007lOwv306@FSP`b?0NL:0000000000000J0000000", 0).unwrap() {
        AisMessage::Position(p) => {
            assert_eq!(p.mmsi, 367000003);
            assert_eq!(p.speed_raw, Some(85));
            assert_eq!(p.longitude_raw, 1000);
            assert_eq!(p.latitude_raw, -2000);
            assert_eq!(p.nav_status, Some(52));
            assert_eq!(p.source.as_str(), "AIS-B-EXT");
        }
        other => panic!("unexpected {:?}", other),
    }
}

#[test]
fn base_station_and_unknown_types() {
    match decode_payload("403OviQvQHee9000000000000000", 0).unwrap() {
        AisMessage::BaseStation { mmsi, year, month, day, hour, minute, second } => {
            assert_eq!((mmsi, year, month, day, hour, minute, second), (3669702, 2024, 5, 17, 13, 45, 9));
        }
        other => panic!("unexpected {:?}", other),
    }
    match decode_payload("802<HH00", 0).unwrap() {
        AisMessage::Unknown { message_type, mmsi } => {
            assert_eq!(message_type, 8);
            assert_eq!(mmsi, Some(2300000));
        }
        other => panic!("unexpected {:?}", other),
    }
}

#[test]
fn payload_errors() {
    assert_eq!(decode_payload("8zzz", 0).unwrap_err(), HarborError::InvalidAisPayload);
    assert_eq!(decode_payload("802<HH00", 6).unwrap_err(), HarborError::InvalidAisPayload);
    assert_eq!(decode_payload("15M67FE01srg", 0).unwrap_err(), HarborError::InvalidAisPayload);
    assert_eq!(decode_payload("802<HH", 5).unwrap_err(), HarborError::InvalidAisPayload);
}

#[test]
fn ais_line_through_the_crate_root() {
    match harborfeed::parse_ais_line("!AIVDM,1,1,,A,802<HH00,0*20").unwrap() {
        AisMessage::Unknown { message_type, .. } => assert_eq!(message_type, 8),
        other => panic!("unexpected {:?}", other),
    }
}

#[test]
fn coordinates_as_f64_bits() {
    let mut samples: Vec<i32> = vec![
        0, 1, -1, 2, 3, 7, 599_999, 600_000, 600_001, 1_199_999, 1_200_000, 29_119_500, -73_824_360,
        54_000_000, -54_000_000, 108_000_000, -108_000_000, 108_600_000, 91 * 600_000, i32::MAX, i32::MIN,
    ];
    let mut x: u32 = 12345;
    for _ in 0..200000 {
        x = x.wrapping_mul(1664525).wrapping_add(1013904223);
        samples.push(x as i32);
        samples.push((x >> 5) as i32 - (1 << 26));
    }
    for raw in samples {
        assert_eq!(ais_coord_bits(raw), (raw as f64 / 600000.0).to_bits(), "raw = {}", raw);
    }
    assert_eq!(ais_coord_bits(600_000), 1.0f64.to_bits());
    assert_eq!(ais_coord_bits(-300_000), (-0.5f64).to_bits());
}
