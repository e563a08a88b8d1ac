//! HarborFeed parses and normalizes maritime operations feeds: NMEA 0183 GPS
//! sentences, AIS sentences with their six-bit payloads, UN/EDIFACT
//! interchanges and tide station CSV exports, and audits the result.

pub mod ais;
pub mod bitcursor;
pub mod edifact;
pub mod error;
pub mod lifecycle;
pub mod model;
pub mod nmea;
pub mod normalize;
pub mod text;
pub mod tide_csv;
pub mod validate;

pub use error::{HarborError, Result};
pub use model::{Feed, FeedEvent, ValidationFinding};

use vstd::prelude::*;
use crate::ais::{AisMessage, SpecAisMessage, aivdm_spec, single_fragment_spec};
use crate::edifact::{EdifactInterchange, interchange_spec};
use crate::error::{Fault, outcome};
use crate::model::{TideReading, SpecTide, seq_view};
use crate::normalize::{nmea_event_spec, feed_spec, text_of};
use crate::tide_csv::tide_spec;
use crate::validate::{audit_spec, feed_digest};

verus! {

/// What decoding the AIS sentence `line` gives.
pub open spec fn ais_line_spec(line: Seq<char>) -> core::result::Result<SpecAisMessage, Fault> {
    match aivdm_spec(line) {
        Err(e) => Err(e),
        Ok(f) => single_fragment_spec(f),
    }
}

/// Decodes one NMEA line (GPS or AIS) into an event.
pub fn parse_nmea_line(line: &str) -> (r: Result<model::FeedEvent>)
    ensures
        outcome(r, nmea_event_spec(line@)),
{
    normalize::parse_nmea_event(line)
}

/// Decodes one AIS sentence that holds a whole message.
pub fn parse_ais_line(line: &str) -> (r: Result<AisMessage>)
    ensures
        outcome(r, ais_line_spec(line@)),
{
    let fragment = ais::parse_aivdm(line)?;
    ais::decode_single_fragment(&fragment)
}

/// Parses an EDIFACT interchange from bytes.
pub fn parse_edifact_bytes(data: &[u8]) -> (r: Result<EdifactInterchange>)
    ensures
        match text_of(data@) {
            Some(t) => outcome(r, interchange_spec(t)),
            None => r matches Err(e) && e@ == Fault::InvalidUtf8,
        },
{
    let text = normalize::utf8_text(data)?;
    edifact::parse_interchange(text)
}

/// Parses a tide CSV export from bytes.
pub fn parse_tide_csv_bytes(data: &[u8]) -> (r: Result<Vec<TideReading>>)
    ensures
        match text_of(data@) {
            Some(t) => match tide_spec(t) {
                Ok(v) => r matches Ok(x) && seq_view(x@) == v,
                Err(f) => r matches Err(e) && e@ == f,
            },
            None => r matches Err(e) && e@ == Fault::InvalidUtf8,
        },
{
    let text = normalize::utf8_text(data)?;
    tide_csv::parse_tide_csv(text)
}

/// Parses a feed of any supported format from bytes.
pub fn parse_feed_bytes(data: &[u8]) -> (r: Result<Feed>)
    ensures
        match text_of(data@) {
            Some(t) => outcome(r, feed_spec(t)),
            None => r matches Err(e) && e@ == Fault::InvalidUtf8,
        },
{
    normalize::parse_feed_bytes(data)
}

/// Audits a feed, given the bits of its GPS fixes' coordinates as `f64`
/// (see `validate::audit_feed`).
pub fn audit_feed(feed: &Feed, coords: &[(Option<u64>, Option<u64>)]) -> (findings: Vec<ValidationFinding>)
    ensures
        seq_view(findings@) == audit_spec(feed@.events, feed_digest(feed@.events, coords@)),
{
    validate::audit_feed(feed, coords)
}

} // verus!
