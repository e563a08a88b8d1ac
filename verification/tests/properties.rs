use harborfeed::bitcursor::{nmea_checksum, sixbit_value, BitCursor};
use harborfeed::edifact::{extract_cargo_events, parse_interchange, summarize_message};
use harborfeed::error::HarborError;
use harborfeed::lifecycle::{reconcile, touch_sparse_path, LifecycleSignal};
use harborfeed::model::{CargoEvent, EdifactSummary, Feed, FeedEvent, PositionSource, VesselPosition};
use harborfeed::nmea::parse_sentence;
use harborfeed::tide_csv::parse_tide_csv;
use harborfeed::{audit_feed, parse_nmea_line};

const TWO_MESSAGES: &str = "UNB+UNOC:3+S+R+240101:1200+IC1'\
UNH+M1+COARRI:D:00B:UN'EQD+CN+ABCU1234567'LOC+9+NLRTM'EQD+CN+X1'DGS+IMD+3'UNT+6+M1'\
UNH+M2'BGM+1'EQD+CN+MSKU7654321'UNT+4+M2'\
UNH+M3+BAPLIE'EQD+CN+TGHU0000001'\
UNZ+3+IC1'";

#[test]
fn cargo_events_match_container_counts() {
    let ic = parse_interchange(TWO_MESSAGES).unwrap();
    assert_eq!(ic.messages.len(), 3);
    let counts: Vec<(usize, usize)> = ic
        .messages
        .iter()
        .map(|m| (summarize_message(m).container_count, extract_cargo_events(m).len()))
        .collect();
    assert_eq!(counts, vec![(2, 2), (1, 1), (1, 1)]);
}

#[test]
fn messages_open_with_their_header() {
    let ic = parse_interchange(TWO_MESSAGES).unwrap();
    let heads: Vec<(&str, &str, &str)> = ic
        .messages
        .iter()
        .map(|m| (m.segments[0].tag.as_str(), m.reference.as_str(), m.message_type.as_str()))
        .collect();
    assert_eq!(heads, vec![("UNH", "M1", "COARRI"), ("UNH", "M2", "UNKNOWN"), ("UNH", "M3", "BAPLIE")]);
    assert!(ic.messages.iter().all(|m| summarize_message(m).segment_count >= 1));
    let counts: Vec<(usize, usize, usize)> = ic
        .messages
        .iter()
        .map(|m| {
            let s = summarize_message(m);
            (s.segment_count, s.container_count, s.dangerous_goods_count)
        })
        .collect();
    assert_eq!(counts, vec![(6, 2, 1), (4, 1, 0), (2, 1, 0)]);
    assert!(counts.iter().all(|(n, c, d)| c <= n && d <= n));
}

fn cargo(id: Option<&str>, dangerous: bool) -> FeedEvent {
    FeedEvent::CargoEvent(CargoEvent {
        message_ref: None,
        equipment_id: id.map(|s| s.to_string()),
        equipment_type: None,
        booking_ref: None,
        gross_mass_kg: None,
        location: None,
        event_code: None,
        dangerous_goods: dangerous,
    })
}

fn fast_vessel(mmsi: u32) -> FeedEvent {
    FeedEvent::VesselPosition(VesselPosition {
        mmsi,
        latitude_raw: 60_000_000,
        longitude_raw: 0,
        speed_raw: Some(1000),
        course_raw: None,
        heading_degrees: None,
        nav_status: None,
        timestamp_second: None,
        source: PositionSource::Ais,
    })
}

fn empty_message() -> FeedEvent {
    FeedEvent::EdifactMessage(EdifactSummary {
        message_type: "IFTMBC".to_string(),
        reference: "E1".to_string(),
        segment_count: 0,
        container_count: 0,
        dangerous_goods_count: 0,
    })
}

fn rule_ids(feed: &Feed) -> Vec<(u16, String)> {
    audit_feed(feed, &[]).iter().map(|f| (f.rule_id, f.subject.clone())).collect()
}

#[test]
fn audit_of_joined_feeds_joins_the_findings() {
    let first = vec![cargo(None, true), fast_vessel(7)];
    let second = vec![empty_message(), cargo(Some("MSCU1234567"), false), cargo(Some("AB"), false)];
    let mut a = Feed::new();
    let mut b = Feed::new();
    let mut both = Feed::new();
    for e in &first {
        a.push(e.clone());
        both.push(e.clone());
    }
    for e in &second {
        b.push(e.clone());
        both.push(e.clone());
    }
    let mut joined = rule_ids(&a);
    joined.extend(rule_ids(&b));
    assert_eq!(rule_ids(&both), joined);
    let expected: Vec<(u16, String)> = [(20, "cargo"), (21, "dangerous-goods"), (10, "7"), (11, "7"), (50, "E1"), (20, "cargo")]
        .iter()
        .map(|(id, s)| (*id, s.to_string()))
        .collect();
    assert_eq!(rule_ids(&both), expected);
    let findings = audit_feed(&both, &[]);
    assert_eq!(findings[3].evidence, (1000f32 / 10.0).to_bits() as u64);
}

#[test]
fn audit_gives_at_most_two_findings_per_event() {
    let mut feed = Feed::new();
    for i in 0..10 {
        feed.push(cargo(None, true));
        feed.push(fast_vessel(i));
        feed.push(FeedEvent::UnknownSentence("x".to_string()));
    }
    let findings = audit_feed(&feed, &[]);
    assert_eq!(findings.len(), 40);
    assert!(findings.len() <= 2 * feed.events.len());
    assert!(findings.iter().all(|f| [10, 11, 20, 21, 40, 50].contains(&f.rule_id)));
}

#[test]
fn bad_checksum_gives_no_event() {
    let good = "$GPHDT,274.07,T*03";
    let bad = "$GPHDT,274.07,T*04";
    assert!(parse_sentence(good).unwrap().checksum_valid);
    let framed = parse_sentence(bad).unwrap();
    assert!(!framed.checksum_valid);
    assert_eq!(framed.checksum, 4);
    assert!(parse_nmea_line(good).is_ok());
    assert_eq!(parse_nmea_line(bad).unwrap_err(), HarborError::InvalidNmeaChecksum);
}

#[test]
fn checksum_of_joined_text_is_the_xor() {
    let a = "GPGGA,123519,4807.038,N";
    let b = ",01131.000,E,1,08,0.9,545.4,M,46.9,M,,";
    let joined = format!("{}{}", a, b);
    assert_eq!(nmea_checksum(&joined), nmea_checksum(a) ^ nmea_checksum(b));
    assert_eq!(nmea_checksum(&joined), 0x47);
}

#[test]
fn payload_holds_six_bits_per_character() {
    let payload = "15M67FC000G?ufbE`FepT@3n00Sa";
    let mut c = BitCursor::from_sixbit_payload(payload, 0).unwrap();
    for ch in payload.bytes() {
        assert_eq!(c.read_u8(6), Ok(sixbit_value(ch).unwrap()));
    }
    assert_eq!(c.remaining(), 0);
}

#[test]
fn adjacent_fields_join_into_one() {
    let payload = "15M67FC000G?ufbE`FepT@3n00Sa";
    for (w1, w2) in [(6usize, 2usize), (8, 30), (30, 4), (1, 63), (17, 17)] {
        let mut parts = BitCursor::from_sixbit_payload(payload, 0).unwrap();
        let mut whole = BitCursor::from_sixbit_payload(payload, 0).unwrap();
        let hi = parts.read_u64(w1).unwrap();
        let lo = parts.read_u64(w2).unwrap();
        let joined = whole.read_u64(w1 + w2).unwrap();
        assert_eq!(joined, (hi << w2) | lo, "w1 = {}, w2 = {}", w1, w2);
        assert_eq!(parts.remaining(), whole.remaining());
    }
}

#[test]
fn tide_readings_are_bounded_and_leave_residuals_open() {
    let mut text = String::from("station,time,observed,predicted\n");
    for i in 0..4100 {
        text.push_str(&format!("S,{},1.5,1.0\n", i));
    }
    let readings = parse_tide_csv(&text).unwrap();
    assert_eq!(readings.len(), 4096);
    assert!(readings.iter().all(|r| r.residual_bits.is_none()));
    assert_eq!(readings[4095].timestamp, "4095");
}

fn expected_lane(s: &LifecycleSignal) -> Option<usize> {
    let dense = s.event_count >= 4 && s.vessel_count + s.cargo_count + s.tide_count >= 3;
    if !dense {
        return None;
    }
    let folded = s.digest.rotate_left((s.port_depth_dm % 16) as u32)
        ^ s.risk_score.wrapping_mul(0x9e37_79b9_7f4a_7c15)
        ^ ((s.event_count as u64) << 19)
        ^ ((s.invalid_checksums as u64) << 7);
    let relation = ((s.vessel_count as u64) << 3)
        ^ ((s.cargo_count as u64) << 9)
        ^ ((s.tide_count as u64) << 17)
        ^ (s.port_depth_dm as u64);
    if folded & 0x7ff != relation & 0x7ff {
        return None;
    }
    let lane_fold = s.digest ^ s.risk_score.rotate_left((s.port_depth_dm % 32) as u32);
    Some((lane_fold.count_ones() as usize + s.event_count + s.cargo_count + s.tide_count) % 12)
}

#[test]
fn reconcile_opens_lanes_below_twelve_for_dense_signals() {
    let mut opened = 0;
    for digest in 0u64..20000 {
        let s = LifecycleSignal {
            digest,
            event_count: 9,
            vessel_count: 2,
            cargo_count: 3,
            tide_count: 1,
            invalid_checksums: 1,
            risk_score: 42,
            port_depth_dm: 144,
        };
        let lane = reconcile(s);
        assert_eq!(lane, expected_lane(&s), "digest = {}", digest);
        if let Some(l) = lane {
            opened += 1;
            assert!(l < 12);
            assert!(s.dense_enough());
            assert_eq!(s.lane(), l);
        }
    }
    assert!(opened > 0);
    let sparse = LifecycleSignal { event_count: 3, vessel_count: 5, ..LifecycleSignal::default() };
    assert!(!sparse.dense_enough());
    assert_eq!(reconcile(sparse), None);
}

#[test]
fn sparse_probe_opens_one_of_four_lanes() {
    let mut opened = 0;
    for low in 0u64..100000 {
        for (span, gate, seed) in [(4usize, 0u8, low), (7, 0, low), (39, 3, low | (7 << 61)), (37, 200, low)] {
            let folded = seed.rotate_left((gate % 32) as u32) ^ ((span as u64) << 21);
            let expected = if span >= 5 && folded & 0x1fff == (((gate as u64) << 5) | (span as u64 & 0x1f)) {
                Some((folded % 4) as usize)
            } else {
                None
            };
            let lane = touch_sparse_path(seed, span, gate);
            assert_eq!(lane, expected);
            if let Some(l) = lane {
                opened += 1;
                assert!(l < 4 && span >= 5);
            }
        }
    }
    assert!(opened > 0);
}

#[test]
fn digest_material_of_joined_feeds_is_joined() {
    let first = vec![fast_vessel(3), cargo(Some("MSCU1234567"), false)];
    let second = vec![FeedEvent::UnknownSentence("$GPTXT".to_string()), fast_vessel(4), empty_message()];
    let first_coords = vec![(Some(11u64), Some(12u64)), (None, None)];
    let second_coords = vec![(None, None), (Some(13u64), None)];
    let mut a = Feed::new();
    let mut b = Feed::new();
    let mut both = Feed::new();
    for e in &first {
        a.push(e.clone());
        both.push(e.clone());
    }
    for e in &second {
        b.push(e.clone());
        both.push(e.clone());
    }
    let mut joined_coords = first_coords.clone();
    joined_coords.extend(second_coords.iter().cloned());
    let mut joined = a.digest_material(&first_coords);
    joined.extend(b.digest_material(&second_coords));
    assert_eq!(both.digest_material(&joined_coords), joined);
    assert_eq!(joined.len(), (4 + 16) + 11 + 6 + (4 + 16) + (6 + 2 + 8));
}

#[test]
fn every_mixed_line_gives_one_entry() {
    let text = "$GPHDT,274.07,T*03\n$GPHDT,274.07,T*04\n$Aé*00\n  BERTH OPEN \n\n$GPGGA*€\n";
    let feed = harborfeed::normalize::parse_feed_text(text).unwrap();
    let nonblank = text.lines().filter(|l| !l.trim().is_empty()).count();
    assert_eq!(feed.events.len() + feed.invalid_nmea_checksums + feed.parse_warnings.len(), nonblank);
    assert_eq!(feed.events.len(), 2);
    assert!(matches!(feed.events[0], FeedEvent::GpsFix(_)));
    assert!(matches!(&feed.events[1], FeedEvent::UnknownSentence(s) if s == "BERTH OPEN"));
    assert_eq!(feed.invalid_nmea_checksums, 1);
    assert_eq!(
        feed.parse_warnings,
        vec!["invalid NMEA field header".to_string(), "NMEA sentence is missing a checksum".to_string()]
    );
    assert_eq!(harborfeed::parse_feed_bytes(text.as_bytes()).unwrap().parse_warnings.len(), 2);
}

#[test]
fn payload_bytes_decide_and_fill_the_cursor() {
    for (payload, fill) in [("15M67FC000G?ufbE`FepT@3n00Sa", 0u8), ("w0", 4), ("0", 5), ("", 0), ("", 3)] {
        let mut c = BitCursor::from_sixbit_payload(payload, fill).unwrap();
        assert_eq!(c.remaining(), (6 * payload.len()).saturating_sub(fill as usize));
        if fill == 0 {
            for b in payload.bytes() {
                assert_eq!(c.read_u8(6), Ok(sixbit_value(b).unwrap()));
            }
        }
    }
    for payload in ["15Mé", "x", "1/", "\u{7f}", "0€"] {
        assert!(payload.bytes().any(|b| sixbit_value(b).is_err()));
        assert_eq!(BitCursor::from_sixbit_payload(payload, 0).unwrap_err(), HarborError::InvalidAisPayload);
    }
    assert_eq!(BitCursor::from_sixbit_payload("0", 6).unwrap_err(), HarborError::InvalidAisPayload);
}

#[test]
fn signed_fields_stay_in_range() {
    let payload = "w0w0P1";
    for width in 1usize..=31 {
        let mut c = BitCursor::from_sixbit_payload(payload, 0).unwrap();
        let v = c.read_signed(width).unwrap() as i64;
        assert!(-(1i64 << (width - 1)) <= v && v < (1i64 << (width - 1)), "width = {}", width);
        assert_eq!(c.remaining(), 36 - width);
    }
    let mut c = BitCursor::from_sixbit_payload("w", 0).unwrap();
    assert_eq!(c.read_signed(6), Ok(-1));
    assert_eq!(c.read_signed(0), Err(HarborError::InvalidAisPayload));
}
