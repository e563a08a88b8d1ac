use harborfeed::edifact::{extract_cargo_events, extract_port_call, parse_interchange, summarize_message, Separators};
use harborfeed::error::HarborError;

const COPRAR: &str = "UNA:+.? '\n\
UNB+UNOC:3+SENDERID+RECEIVERID+240101:1200+REF001'\n\
UNH+MSG001+COPRAR:D:00B:UN:SMDG21'\n\
BGM+45+BOOK?+1+9'\n\
TDT+20+V123+1++SHIPLINE:172+++IMO9321483:146::MAERSK ESSEX'\n\
LOC+11+NLRTM:139:6'\n\
DTM+132:202401150800:203'\n\
EQD+CN+MSCU1234567+22G1:102:5+2'\n\
RFF+BN:BOOK001'\n\
MEA+AAE+G+KGM:24500'\n\
LOC+9+DEHAM'\n\
DGS+IMD+3'\n\
EQD+CN+AB1'\n\
UNT+13+MSG001'\n\
UNZ+1+REF001'\n";

#[test]
fn interchange_header_and_message() {
    let ic = parse_interchange(COPRAR).unwrap();
    assert_eq!(ic.syntax_identifier.as_deref(), Some("UNOC"));
    assert_eq!(ic.sender.as_deref(), Some("SENDERID"));
    assert_eq!(ic.recipient.as_deref(), Some("RECEIVERID"));
    assert_eq!(ic.control_ref.as_deref(), Some("REF001"));
    assert_eq!(ic.messages.len(), 1);
    let m = &ic.messages[0];
    assert_eq!(m.reference, "MSG001");
    assert_eq!(m.message_type, "COPRAR");
    assert_eq!(m.segments.len(), 12);
    assert_eq!(m.segments[0].tag, "UNH");
    assert_eq!(m.segments[11].tag, "UNT");
    // the release character is consumed when segments are split
    assert_eq!(m.segments[1].elements, vec![vec!["45".to_string()], vec!["BOOK".to_string()], vec!["1".to_string()], vec!["9".to_string()]]);
}

#[test]
fn summary_counts() {
    let ic = parse_interchange(COPRAR).unwrap();
    let s = summarize_message(&ic.messages[0]);
    assert_eq!(s.message_type, "COPRAR");
    assert_eq!(s.reference, "MSG001");
    assert_eq!(s.segment_count, 12);
    assert_eq!(s.container_count, 2);
    assert_eq!(s.dangerous_goods_count, 1);
}

#[test]
fn port_call_fields() {
    let ic = parse_interchange(COPRAR).unwrap();
    let call = extract_port_call(&ic.messages[0]).unwrap();
    assert_eq!(call.voyage.as_deref(), Some("V123"));
    assert_eq!(call.vessel_id.as_deref(), Some("IMO9321483"));
    assert_eq!(call.port_locode.as_deref(), Some("DEHAM"));
    assert_eq!(call.berth, None);
    assert_eq!(call.eta.as_deref(), Some("202401150800"));
    assert_eq!(call.etd, None);
}

#[test]
fn cargo_events_follow_equipment() {
    let ic = parse_interchange(COPRAR).unwrap();
    let events = extract_cargo_events(&ic.messages[0]);
    assert_eq!(events.len(), 2);
    let first = &events[0];
    assert_eq!(first.message_ref.as_deref(), Some("MSG001"));
    assert_eq!(first.equipment_type.as_deref(), Some("CN"));
    assert_eq!(first.equipment_id.as_deref(), Some("MSCU1234567"));
    assert_eq!(first.booking_ref.as_deref(), Some("BOOK001"));
    assert_eq!(first.gross_mass_kg.as_deref(), Some("24500"));
    assert_eq!(first.location.as_deref(), Some("DEHAM"));
    assert_eq!(first.event_code.as_deref(), Some("9"));
    assert!(first.dangerous_goods);
    let second = &events[1];
    assert_eq!(second.equipment_id.as_deref(), Some("AB1"));
    assert!(!second.dangerous_goods);
    assert_eq!(second.location, None);
}

#[test]
fn custom_service_string_advice() {
    let text = "UNA|*.? ~UNB*UNOA|2*ME*YOU~UNH*7*BAPLIE|D~LOC*60*B12~UNT*3*7~";
    let ic = parse_interchange(text).unwrap();
    assert_eq!(ic.separators, Separators { component: '|', element: '*', decimal: '.', release: '?', repetition: ' ', segment: '~' });
    assert_eq!(ic.syntax_identifier.as_deref(), Some("UNOA"));
    assert_eq!(ic.messages.len(), 1);
    assert_eq!(ic.messages[0].message_type, "BAPLIE");
    let call = extract_port_call(&ic.messages[0]);
    assert!(call.is_none());
}

#[test]
fn default_separators_without_una() {
    let ic = parse_interchange("UNH+1'FTX+AAA'UNH+2+IFTMBC'TDT+20+V9'").unwrap();
    assert_eq!(ic.separators, Separators::default());
    assert_eq!(ic.messages.len(), 2);
    assert_eq!(ic.messages[0].message_type, "UNKNOWN");
    assert_eq!(ic.messages[0].segments.len(), 2);
    assert_eq!(ic.messages[1].reference, "2");
    let call = extract_port_call(&ic.messages[1]).unwrap();
    assert_eq!(call.voyage.as_deref(), Some("V9"));
}

#[test]
fn segments_outside_messages_and_bad_tags_are_dropped() {
    let ic = parse_interchange("FTX+X'UNH+1+M'+ONLYELEMENT'TOOLONG-TAG+1'UNT+2+1'").unwrap();
    assert_eq!(ic.messages.len(), 1);
    assert_eq!(ic.messages[0].segments.len(), 2);
}

#[test]
fn too_many_segments() {
    let text = "A'".repeat(4097);
    assert_eq!(parse_interchange(&text).unwrap_err(), HarborError::LimitExceeded("edifact segments"));
    let text = "A'".repeat(4096);
    assert!(parse_interchange(&text).is_ok());
}

#[test]
fn advice_that_splits_a_character_is_a_syntax_error() {
    let text = "UNA:+.?€'UNB+UNOC:3+A+B'";
    assert_eq!(parse_interchange(text).unwrap_err(), HarborError::EdifactSyntax("service string advice"));
    assert_eq!(
        harborfeed::parse_edifact_bytes(text.as_bytes()).unwrap_err(),
        HarborError::EdifactSyntax("service string advice")
    );
    // the advice is bytes 3 to 9: a two-byte character that ends at byte 9 is read
    let ic = parse_interchange("UNA:+.?é'UNH+1'UNT+2+1'").unwrap();
    assert_eq!(ic.separators.repetition, 'é');
    assert_eq!(ic.separators.segment, '\'');
    assert_eq!(ic.messages.len(), 1);
}
