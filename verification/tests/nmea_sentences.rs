use harborfeed::error::HarborError;
use harborfeed::model::FeedEvent;
use harborfeed::nmea::{parse_gps_event, parse_sentence, sentence_name};

#[test]
fn framing_reads_talker_formatter_fields_and_checksum() {
    let s = parse_sentence("  $GPGGA,123519,4807.038,N,01131.000,E,1,08,0.9,545.4,M,46.9,M,,*47\r\n").unwrap();
    assert_eq!(s.start, '$');
    assert_eq!(s.talker, "GP");
    assert_eq!(s.formatter, "GGA");
    assert_eq!(s.fields.len(), 14);
    assert_eq!(s.fields[0], "123519");
    assert_eq!(s.fields[13], "");
    assert_eq!(s.checksum, 0x47);
    assert!(s.checksum_valid);
    assert_eq!(s.body, "GPGGA,123519,4807.038,N,01131.000,E,1,08,0.9,545.4,M,46.9,M,,");
    assert_eq!(sentence_name(&s), "GPGGA");
}

#[test]
fn checksum_mismatch_is_flagged_not_refused() {
    let s = parse_sentence("$GPGGA,1*00").unwrap();
    assert_eq!(s.checksum, 0);
    assert!(!s.checksum_valid);
    let s = parse_sentence("$GPGGA,1*4b").unwrap();
    assert_eq!(s.checksum, 0x4b);
    assert!(s.checksum_valid);
}

#[test]
fn framing_errors() {
    assert_eq!(parse_sentence("   ").unwrap_err(), HarborError::EmptyInput);
    assert_eq!(parse_sentence("GPGGA,1*4B").unwrap_err(), HarborError::InvalidNmeaStart);
    assert_eq!(parse_sentence("$GPGGA,1").unwrap_err(), HarborError::MissingNmeaChecksum);
    assert_eq!(parse_sentence("$GPGGA,1*4").unwrap_err(), HarborError::MissingNmeaChecksum);
    assert_eq!(parse_sentence("$GPGGA,1*ZZ").unwrap_err(), HarborError::MissingNmeaChecksum);
    assert_eq!(parse_sentence("$GP*17").unwrap_err(), HarborError::InvalidNmeaField("header"));
}

#[test]
fn split_characters_are_refused_not_sliced() {
    // the checksum's two bytes fall inside a three-byte character
    assert_eq!(parse_sentence("$GPGGA*€").unwrap_err(), HarborError::MissingNmeaChecksum);
    assert_eq!(parse_sentence("$GPGGA*é0").unwrap_err(), HarborError::MissingNmeaChecksum);
    // the two-byte talker ends inside a two-byte character
    assert_eq!(parse_sentence("$Aé*00").unwrap_err(), HarborError::InvalidNmeaField("header"));
    assert_eq!(harborfeed::parse_nmea_line("$Aé*00").unwrap_err(), HarborError::InvalidNmeaField("header"));
    assert_eq!(harborfeed::parse_ais_line("!AIVDM*€").unwrap_err(), HarborError::MissingNmeaChecksum);
    // a two-byte character that ends at the talker's end is fine
    let s = parse_sentence("$éA,1*00").unwrap();
    assert_eq!(s.talker, "é");
    assert_eq!(s.formatter, "A");
    assert_eq!(s.fields, vec!["1".to_string()]);
}

#[test]
fn the_last_star_delimits_the_checksum() {
    let s = parse_sentence("$GPTXT,a*b*00").unwrap();
    assert_eq!(s.body, "GPTXT,a*b");
    assert_eq!(s.fields, vec!["a*b".to_string()]);
}

#[test]
fn gga_fix() {
    let s = parse_sentence("$GPGGA,123519,4807.038,N,01131.000,E,1,08,0.9,545.4,M,46.9,M,,*47").unwrap();
    match parse_gps_event(&s).unwrap() {
        FeedEvent::GpsFix(g) => {
            assert_eq!(g.talker, "GP");
            let lat = g.latitude.unwrap();
            assert_eq!(lat.degrees, "48");
            assert_eq!(lat.minutes, "07.038");
            assert!(!lat.negative);
            let lon = g.longitude.unwrap();
            assert_eq!(lon.degrees, "011");
            assert_eq!(lon.minutes, "31.000");
            assert_eq!(g.fix_quality, Some(1));
            assert_eq!(g.satellites, Some(8));
            assert_eq!(g.altitude_m.as_deref(), Some("545.4"));
            assert_eq!(g.utc_time.as_deref(), Some("123519"));
            assert_eq!(g.speed_knots, None);
            assert_eq!(g.date, None);
        }
        other => panic!("unexpected {:?}", other),
    }
}

#[test]
fn rmc_void_status_keeps_no_position() {
    let s = parse_sentence("$GPRMC,123519,V,,,,,,,230394*33").unwrap();
    match parse_gps_event(&s).unwrap() {
        FeedEvent::GpsFix(g) => {
            assert!(g.latitude.is_none());
            assert!(g.longitude.is_none());
            assert_eq!(g.speed_knots, None);
            assert_eq!(g.date.as_deref(), Some("230394"));
        }
        other => panic!("unexpected {:?}", other),
    }
}

#[test]
fn rmc_active_with_position_speed_course_date() {
    let s = parse_sentence("$GPRMC,123519,A,4807.038,N,01131.000,E,022.4,084.4,230394,003.1,W*6A").unwrap();
    match parse_gps_event(&s).unwrap() {
        FeedEvent::GpsFix(g) => {
            assert_eq!(g.latitude.unwrap().minutes, "07.038");
            assert_eq!(g.speed_knots.as_deref(), Some("022.4"));
            assert_eq!(g.course_degrees.as_deref(), Some("084.4"));
            assert_eq!(g.date.as_deref(), Some("230394"));
        }
        other => panic!("unexpected {:?}", other),
    }
}

#[test]
fn gll_west_is_negative() {
    let s = parse_sentence("$GPGLL,4916.45,N,12311.12,W,225444,A*31").unwrap();
    match parse_gps_event(&s).unwrap() {
        FeedEvent::GpsFix(g) => {
            assert!(!g.latitude.unwrap().negative);
            let lon = g.longitude.unwrap();
            assert!(lon.negative);
            assert_eq!(lon.degrees, "123");
            assert_eq!(g.utc_time.as_deref(), Some("225444"));
        }
        other => panic!("unexpected {:?}", other),
    }
}

#[test]
fn vtg_hdt_zda() {
    let s = parse_sentence("$GPVTG,054.7,T,034.4,M,005.5,N,010.2,K*48").unwrap();
    match parse_gps_event(&s).unwrap() {
        FeedEvent::GpsFix(g) => {
            assert_eq!(g.course_degrees.as_deref(), Some("054.7"));
            assert_eq!(g.speed_knots.as_deref(), Some("005.5"));
        }
        other => panic!("unexpected {:?}", other),
    }
    let s = parse_sentence("$HEHDT,274.07,T*19").unwrap();
    match parse_gps_event(&s).unwrap() {
        FeedEvent::GpsFix(g) => {
            assert_eq!(g.talker, "HE");
            assert_eq!(g.course_degrees.as_deref(), Some("274.07"));
        }
        other => panic!("unexpected {:?}", other),
    }
    let s = parse_sentence("$GPZDA,201530.00,04,07,2002,00,00*60").unwrap();
    match parse_gps_event(&s).unwrap() {
        FeedEvent::GpsFix(g) => {
            assert_eq!(g.utc_time.as_deref(), Some("201530.00"));
            assert_eq!(g.date.as_deref(), Some("2002-07-04"));
        }
        other => panic!("unexpected {:?}", other),
    }
}

#[test]
fn missing_fields_name_the_first_one_read() {
    let s = parse_sentence("$GPGGA,1*4B").unwrap();
    assert_eq!(parse_gps_event(&s).unwrap_err(), HarborError::InvalidNmeaField("gga lat"));
    let s = parse_sentence("$GPXYZ,1,2*4F").unwrap();
    assert_eq!(parse_gps_event(&s).unwrap_err(), HarborError::UnsupportedSentence("XYZ".to_string()));
}

#[test]
fn bad_hemisphere_or_short_coordinate_gives_none() {
    let s = parse_sentence("$GPGLL,4916.45,X,123,W,225444,A*00").unwrap();
    match parse_gps_event(&s).unwrap() {
        FeedEvent::GpsFix(g) => {
            assert!(g.latitude.is_none());
            assert!(g.longitude.is_none());
        }
        other => panic!("unexpected {:?}", other),
    }
}
