use harborfeed::model::FeedEvent;

const GGA_FIX: &str = "$GPGGA,123519,4807.038,N,01131.000,E,1,08,0.9,545.4,M,46.9,M,,*47\n";

const COPRAR_MESSAGE: &[u8] = b"UNA:+.? '\n\
UNB+UNOC:3+SENDERID+RECEIVERID+240101:1200+REF001'\n\
UNH+MSG001+COPRAR:D:00B:UN:SMDG21'\n\
BGM+45+BOOK?+1+9'\n\
TDT+20+V123+1++SHIPLINE:172+++IMO9321483:146::MAERSK ESSEX'\n\
LOC+11+NLRTM:139:6'\n\
DTM+132:202401150800:203'\n\
EQD+CN+MSCU1234567+22G1:102:5+2'\n\
RFF+BN:BOOK001'\n\
MEA+AAE+G+KGM:24500'\n\
LOC+9+DEHAM'\n\
DGS+IMD+3'\n\
EQD+CN+AB1'\n\
UNT+13+MSG001'\n\
UNZ+1+REF001'\n";

const MIXED_FEED: &[u8] = b"$GPGGA,123519,4807.038,N,01131.000,E,1,08,0.9,545.4,M,46.9,M,,*47\n\
!AIVDM,1,1,,A,15M67FE01srgRk0GBN`9:Ovt0000,0*66\n\
$GPRMC,123519,A,4807.038,N,01131.000,E,022.4,084.4,230394,003.1,W*6A\n\
$HEHDT,274.07,T*19\n\
$GPRMC,123519,A,4807.038,N,01131.000,E,022.4,084.4,230394,003.1,W*00\n\
BERTH WINDOW OPEN\n";

const NOAA_WATER_LEVEL: &[u8] = b"Station, Time, Water_Level, Predicted, Quality\n\
9414290,2024-01-01 00:00,1.234,1.100,v\n\
9414290,2024-01-01 00:06,1.250,1.120,v\n";

#[test]
fn nmea_seed_decodes() {
    let data = GGA_FIX;
    let event = harborfeed::parse_nmea_line(data.trim()).expect("NMEA seed should parse");
    assert!(matches!(event, FeedEvent::GpsFix(_)));
}

#[test]
fn edifact_seed_decodes() {
    let data = COPRAR_MESSAGE;
    let interchange = harborfeed::parse_edifact_bytes(data).expect("EDIFACT seed should parse");
    assert_eq!(interchange.messages.len(), 1);
}

#[test]
fn mixed_feed_audits() {
    let data = MIXED_FEED;
    let feed = harborfeed::parse_feed_bytes(data).expect("mixed feed should parse");
    assert!(feed.events.len() >= 4);
    let coords: Vec<(Option<u64>, Option<u64>)> = feed
        .events
        .iter()
        .map(|event| match event {
            harborfeed::model::FeedEvent::GpsFix(g) => (
                g.latitude.as_ref().and_then(coordinate).map(f64::to_bits),
                g.longitude.as_ref().and_then(coordinate).map(f64::to_bits),
            ),
            _ => (None, None),
        })
        .collect();
    let _findings = harborfeed::audit_feed(&feed, &coords);
}

fn coordinate(c: &harborfeed::model::CoordText) -> Option<f64> {
    let value = c.degrees.parse::<f64>().ok()? + c.minutes.parse::<f64>().ok()? / 60.0;
    Some(if c.negative { -value } else { value })
}

#[test]
fn tide_seed_decodes() {
    let data = NOAA_WATER_LEVEL;
    let readings = harborfeed::parse_tide_csv_bytes(data).expect("tide seed should parse");
    assert_eq!(readings.len(), 2);
}
