//! Turning a whole feed, of any of the supported formats, into events.
use vstd::prelude::*;
use crate::ais::{self, AisMessage, SpecAisMessage, fragment_spec, single_fragment_spec, aivdm_spec};
use crate::edifact::{
    self, SpecMessage, interchange_spec, summary_spec, port_call_spec, cargo_events_spec,
};
use crate::error::{HarborError, Result, Fault, outcome, fault_message};
use crate::model::{Feed, FeedEvent, TideReading, VesselPosition, PositionSource, SpecEvent, SpecFeed, empty_feed, bare_position, seq_view};
use crate::nmea::{self, SpecSentence, sentence_spec, gps_event_spec};
use crate::text::{
    trim, lines, lower, starts_with, contains, decimal, chars_of, lines_of, trim_chars, string_of,
    starts_with_lit, contains_lit, lower_chars, decimal_chars, concat,
};
use crate::tide_csv::{self, tide_spec, nonblank};

verus! {

/// The event of a decoded AIS message.
pub open spec fn ais_event(m: SpecAisMessage) -> SpecEvent {
    match m {
        SpecAisMessage::Position(p) => SpecEvent::VesselPosition(p),
        SpecAisMessage::Static(s) => SpecEvent::VesselStatic(s),
        SpecAisMessage::BaseStation { mmsi, .. } => SpecEvent::VesselPosition(bare_position(mmsi, PositionSource::AisBase)),
        SpecAisMessage::Unknown { message_type, .. } => SpecEvent::UnknownSentence("AIS type "@ + decimal(message_type as nat)),
    }
}

/// The event of a framed sentence with a valid checksum.
pub open spec fn sentence_event_spec(s: SpecSentence) -> core::result::Result<SpecEvent, Fault> {
    if !s.checksum_valid {
        Err(Fault::InvalidNmeaChecksum)
    } else if s.formatter == "VDM"@ || s.formatter == "VDO"@ {
        match fragment_spec(s) {
            Err(e) => Err(e),
            Ok(f) => match single_fragment_spec(f) {
                Err(e) => Err(e),
                Ok(m) => Ok(ais_event(m)),
            },
        }
    } else {
        gps_event_spec(s)
    }
}

/// The event of one NMEA line.
pub open spec fn nmea_event_spec(line: Seq<char>) -> core::result::Result<SpecEvent, Fault> {
    match sentence_spec(line) {
        Err(e) => Err(e),
        Ok(s) => sentence_event_spec(s),
    }
}

/// A sentence is decoded into an event only where its checksum matches, and
/// a framed sentence whose checksum does not match is refused for that.
pub proof fn lemma_event_needs_checksum(line: Seq<char>)
    ensures
        nmea_event_spec(line) is Ok ==> (sentence_spec(line) matches Ok(s) && s.checksum_valid),
        sentence_spec(line) matches Ok(s) && !s.checksum_valid ==> nmea_event_spec(line) == Err::<
            SpecEvent,
            Fault,
        >(Fault::InvalidNmeaChecksum),
{
}

/// The events of one EDIFACT message: its summary, its port call where it
/// has one, and its cargo events.
pub open spec fn message_events(m: SpecMessage) -> Seq<SpecEvent> {
    let head = seq![SpecEvent::EdifactMessage(summary_spec(m))];
    let call = match port_call_spec(m) {
        Some(c) => seq![SpecEvent::PortCall(c)],
        None => Seq::empty(),
    };
    head + call + cargo_events_spec(m).map_values(|c| SpecEvent::CargoEvent(c))
}

pub open spec fn edifact_events(msgs: Seq<SpecMessage>) -> Seq<SpecEvent>
    decreases msgs.len(),
{
    if msgs.len() == 0 {
        Seq::empty()
    } else {
        edifact_events(msgs.drop_last()) + message_events(msgs.last())
    }
}

pub open spec fn with_events(f: SpecFeed, evs: Seq<SpecEvent>) -> SpecFeed {
    SpecFeed { events: f.events + evs, ..f }
}

/// The feed after the interchange `text` is read into `f`.
pub open spec fn ingest_spec(f: SpecFeed, text: Seq<char>) -> core::result::Result<SpecFeed, Fault> {
    match interchange_spec(text) {
        Err(e) => Err(e),
        Ok(ic) => Ok(with_events(f, edifact_events(ic.messages))),
    }
}

pub open spec fn tide_events(f: SpecFeed, text: Seq<char>) -> core::result::Result<SpecFeed, Fault> {
    match tide_spec(text) {
        Err(e) => Err(e),
        Ok(rs) => Ok(with_events(f, rs.map_values(|t| SpecEvent::TideReading(t)))),
    }
}

/// The feed after one line of a mixed feed is read into `f`: blank lines are
/// skipped, interchanges and tide lines read, NMEA sentences decoded (a
/// checksum mismatch counted, another refusal kept as a warning), and any
/// other line kept as an unknown sentence.
#[verifier::opaque]
pub open spec fn line_step(f: SpecFeed, line: Seq<char>) -> core::result::Result<SpecFeed, Fault> {
    let t = trim(line);
    if t.len() == 0 {
        Ok(f)
    } else if starts_with(t, "UNB+"@) || starts_with(t, "UNA"@) {
        ingest_spec(f, t)
    } else if starts_with(t, "$"@) || starts_with(t, "!"@) {
        match nmea_event_spec(t) {
            Ok(ev) => Ok(SpecFeed { events: f.events.push(ev), ..f }),
            Err(Fault::InvalidNmeaChecksum) => Ok(
                SpecFeed { invalid_nmea_checksums: f.invalid_nmea_checksums + 1, ..f },
            ),
            Err(e) => Ok(SpecFeed { parse_warnings: f.parse_warnings.push(fault_message(e)), ..f }),
        }
    } else if contains(t, ","@) && contains(lower(t), "station"@) {
        tide_events(f, t)
    } else {
        Ok(SpecFeed { events: f.events.push(SpecEvent::UnknownSentence(t)), ..f })
    }
}

/// In a mixed feed, an NMEA line whose checksum does not match adds no
/// event and no warning: it is counted.
pub proof fn lemma_bad_checksum_line_counted(f: SpecFeed, line: Seq<char>)
    requires
        trim(line).len() > 0,
        trim(line)[0] == '$' || trim(line)[0] == '!',
        sentence_spec(trim(line)) matches Ok(s) && !s.checksum_valid,
    ensures
        line_step(f, line) == Ok::<SpecFeed, Fault>(
            SpecFeed { invalid_nmea_checksums: f.invalid_nmea_checksums + 1, ..f },
        ),
{
    reveal(line_step);
    reveal_strlit("UNB+");
    reveal_strlit("UNA");
    reveal_strlit("$");
    reveal_strlit("!");
    let t = trim(line);
    assert(!starts_with(t, "UNB+"@)) by {
        if starts_with(t, "UNB+"@) {
            assert(t.subrange(0, 4)[0] == t[0]);
        }
    }
    assert(!starts_with(t, "UNA"@)) by {
        if starts_with(t, "UNA"@) {
            assert(t.subrange(0, 3)[0] == t[0]);
        }
    }
    assert(starts_with(t, "$"@) || starts_with(t, "!"@)) by {
        if t[0] == '$' {
            assert(t.subrange(0, 1) =~= "$"@);
        } else {
            assert(t.subrange(0, 1) =~= "!"@);
        }
    }
}

pub open spec fn lines_fold(ls: Seq<Seq<char>>) -> core::result::Result<SpecFeed, Fault>
    decreases ls.len(),
{
    if ls.len() == 0 {
        Ok(empty_feed())
    } else {
        match lines_fold(ls.drop_last()) {
            Err(e) => Err(e),
            Ok(f) => line_step(f, ls.last()),
        }
    }
}

/// The line is read on its own in a mixed feed: it neither starts an
/// interchange nor is a tide line.
pub open spec fn single_line(line: Seq<char>) -> bool {
    let t = trim(line);
    &&& !(starts_with(t, "UNB+"@) || starts_with(t, "UNA"@))
    &&& !(contains(t, ","@) && contains(lower(t), "station"@))
}

/// What a feed holds from its lines: its events, the sentences counted for
/// a checksum mismatch, and its warnings.
pub open spec fn line_entries(f: SpecFeed) -> nat {
    f.events.len() + f.invalid_nmea_checksums + f.parse_warnings.len()
}

proof fn lemma_fold_counts(ls: Seq<Seq<char>>)
    requires
        forall|i: int| 0 <= i < ls.len() ==> single_line(#[trigger] ls[i]),
    ensures
        lines_fold(ls) matches Ok(f) && line_entries(f) == nonblank(ls).len(),
    decreases ls.len(),
{
    reveal(line_step);
    if ls.len() > 0 {
        let prev = ls.drop_last();
        assert forall|i: int| 0 <= i < prev.len() implies single_line(#[trigger] prev[i]) by {
            assert(prev[i] == ls[i]);
        }
        lemma_fold_counts(prev);
        assert(single_line(ls[ls.len() - 1]));
    }
}

/// A mixed feed none of whose lines starts an interchange or is a tide line
/// is read without a refusal, and each of its non-blank lines gives one
/// event, one counted checksum mismatch or one warning.
pub proof fn lemma_mixed_feed_counts(text: Seq<char>)
    requires
        !looks_like_edifact_spec(text),
        !looks_like_tide_csv_spec(text),
        forall|i: int| 0 <= i < lines(text).len() ==> single_line(#[trigger] lines(text)[i]),
    ensures
        feed_spec(text) matches Ok(f) && line_entries(f) == nonblank(lines(text)).len(),
{
    lemma_fold_counts(lines(text));
}

/// The text holds an EDIFACT interchange.
pub open spec fn looks_like_edifact_spec(text: Seq<char>) -> bool {
    contains(text, "UNB+"@) && contains(text, "UNH+"@) && (contains(text, "UNT+"@) || contains(text, "UNZ+"@))
}

/// The text's first line is a tide CSV header.
pub open spec fn looks_like_tide_csv_spec(text: Seq<char>) -> bool {
    let ls = lines(text);
    let first = lower(if ls.len() > 0 { ls[0] } else { Seq::empty() });
    contains(first, "station"@) && contains(first, "time"@) && contains(first, ","@)
}

/// The feed that `text` holds: a whole interchange, a whole tide export, or
/// a mixed feed read line by line.
pub open spec fn feed_spec(text: Seq<char>) -> core::result::Result<SpecFeed, Fault> {
    if looks_like_edifact_spec(text) {
        ingest_spec(empty_feed(), text)
    } else if looks_like_tide_csv_spec(text) {
        tide_events(empty_feed(), text)
    } else {
        lines_fold(lines(text))
    }
}

/// Decodes one NMEA line into an event.
pub fn parse_nmea_event(line: &str) -> (r: Result<FeedEvent>)
    ensures
        outcome(r, nmea_event_spec(line@)),
{
    let sentence = nmea::parse_sentence(line)?;
    if !sentence.checksum_valid {
        return Err(HarborError::InvalidNmeaChecksum);
    }
    let f = chars_of(sentence.formatter.as_str());
    if crate::text::eq_lit(f.as_slice(), "VDM") || crate::text::eq_lit(f.as_slice(), "VDO") {
        let fragment = ais::parse_aivdm(line)?;
        match ais::decode_single_fragment(&fragment)? {
            AisMessage::Position(position) => Ok(FeedEvent::VesselPosition(position)),
            AisMessage::Static(static_data) => Ok(FeedEvent::VesselStatic(static_data)),
            AisMessage::BaseStation { mmsi, .. } => Ok(
                FeedEvent::VesselPosition(VesselPosition::bare(mmsi, PositionSource::AisBase)),
            ),
            AisMessage::Unknown { message_type, .. } => {
                let d = string_of(decimal_chars(message_type as u64).as_slice());
                Ok(FeedEvent::UnknownSentence(concat("AIS type ", d.as_str())))
            },
        }
    } else {
        nmea::parse_gps_event(&sentence)
    }
}

/// Reads the interchange `text` into `feed`.
fn ingest_edifact(text: &str, feed: &mut Feed) -> (r: Result<()>)
    ensures
        match ingest_spec(old(feed)@, text@) {
            Ok(f) => r is Ok && final(feed)@ == f,
            Err(e) => (r matches Err(x) && x@ == e) && final(feed)@ == old(feed)@,
        },
{
    let interchange = edifact::parse_interchange(text)?;
    let ghost msgs = interchange@.messages;
    let ghost f0 = feed@;
    let mut i: usize = 0;
    assert(msgs.take(0) =~= Seq::<SpecMessage>::empty());
    assert(with_events(f0, edifact_events(msgs.take(0))).events =~= f0.events);
    while i < interchange.messages.len()
        invariant
            i <= interchange.messages@.len(),
            msgs == seq_view(interchange.messages@),
            feed@ == with_events(f0, edifact_events(msgs.take(i as int))),
        decreases interchange.messages.len() - i,
    {
        let message = &interchange.messages[i];
        assert(msgs.take(i + 1).drop_last() =~= msgs.take(i as int));
        assert(msgs.take(i + 1).last() == message@);
        let ghost base = feed@.events;
        let summary = edifact::summarize_message(message);
        feed.push(FeedEvent::EdifactMessage(summary));
        let ghost call_evs = match port_call_spec(message@) {
            Some(c) => seq![SpecEvent::PortCall(c)],
            None => Seq::<SpecEvent>::empty(),
        };
        if let Some(port_call) = edifact::extract_port_call(message) {
            feed.push(FeedEvent::PortCall(port_call));
        }
        assert(feed@.events =~= base + seq![SpecEvent::EdifactMessage(summary_spec(message@))] + call_evs);
        let ghost mid = feed@.events;
        let cargo = edifact::extract_cargo_events(message);
        let ghost cv = cargo_events_spec(message@).map_values(|c| SpecEvent::CargoEvent(c));
        let mut j: usize = 0;
        assert(mid =~= mid + cv.take(0));
        while j < cargo.len()
            invariant
                j <= cargo@.len(),
                seq_view(cargo@) == cargo_events_spec(message@),
                cv == cargo_events_spec(message@).map_values(|c| SpecEvent::CargoEvent(c)),
                feed@.events == mid + cv.take(j as int),
                feed@.invalid_nmea_checksums == f0.invalid_nmea_checksums,
                feed@.parse_warnings == f0.parse_warnings,
            decreases cargo.len() - j,
        {
            let c = cargo[j].clone();
            assert(c@ == cargo_events_spec(message@)[j as int]);
            feed.push(FeedEvent::CargoEvent(c));
            assert(cv.take(j + 1) =~= cv.take(j as int).push(SpecEvent::CargoEvent(c@)));
            j += 1;
        }
        assert(cv.take(cargo@.len() as int) =~= cv);
        assert(edifact_events(msgs.take(i + 1)) == edifact_events(msgs.take(i as int)) + message_events(message@));
        assert(feed@.events =~= f0.events + edifact_events(msgs.take(i + 1)));
        i += 1;
    }
    assert(msgs.take(interchange.messages@.len() as int) =~= msgs);
    Ok(())
}

pub proof fn lemma_fold_settles(ls: Seq<Seq<char>>, k: int)
    requires
        0 <= k <= ls.len(),
        lines_fold(ls.take(k)) is Err,
    ensures
        lines_fold(ls) == lines_fold(ls.take(k)),
    decreases ls.len() - k,
{
    if k < ls.len() {
        assert(ls.take(k + 1).drop_last() =~= ls.take(k));
        lemma_fold_settles(ls, k + 1);
    } else {
        assert(ls.take(k) =~= ls);
    }
}

/// Appends the readings to the feed as events.
fn push_tides(feed: &mut Feed, readings: &Vec<TideReading>)
    ensures
        final(feed)@ == with_events(old(feed)@, seq_view(readings@).map_values(|t| SpecEvent::TideReading(t))),
{
    let ghost tv = seq_view(readings@).map_values(|t| SpecEvent::TideReading(t));
    let ghost base = feed@.events;
    let mut j: usize = 0;
    assert(base =~= base + tv.take(0));
    while j < readings.len()
        invariant
            j <= readings@.len(),
            tv == seq_view(readings@).map_values(|t| SpecEvent::TideReading(t)),
            feed@.events == base + tv.take(j as int),
            base == old(feed)@.events,
            feed@.invalid_nmea_checksums == old(feed)@.invalid_nmea_checksums,
            feed@.parse_warnings == old(feed)@.parse_warnings,
        decreases readings.len() - j,
    {
        let t = readings[j].clone();
        feed.push(FeedEvent::TideReading(t));
        assert(tv.take(j + 1) =~= tv.take(j as int).push(SpecEvent::TideReading(t@)));
        j += 1;
    }
    assert(tv.take(readings@.len() as int) =~= tv);
}

/// Reads one line of a mixed feed into `feed`.
fn read_line(line: &[char], feed: &mut Feed) -> (r: Result<()>)
    requires
        old(feed)@.invalid_nmea_checksums < usize::MAX,
    ensures
        match line_step(old(feed)@, line@) {
            Ok(f) => r is Ok && final(feed)@ == f,
            Err(e) => r matches Err(x) && x@ == e,
        },
        r is Ok ==> final(feed)@.invalid_nmea_checksums <= old(feed)@.invalid_nmea_checksums + 1,
{
    reveal(line_step);
    let trimmed = trim_chars(line);
    if trimmed.len() == 0 {
    } else if starts_with_lit(trimmed.as_slice(), "UNB+") || starts_with_lit(trimmed.as_slice(), "UNA") {
        let s = string_of(trimmed.as_slice());
        let r = ingest_edifact(s.as_str(), feed);
        if r.is_err() {
            return Err(r.unwrap_err());
        }
    } else if starts_with_lit(trimmed.as_slice(), "$") || starts_with_lit(trimmed.as_slice(), "!") {
        let s = string_of(trimmed.as_slice());
        match parse_nmea_event(s.as_str()) {
            Ok(event) => feed.push(event),
            Err(HarborError::InvalidNmeaChecksum) => {
                feed.invalid_nmea_checksums = feed.invalid_nmea_checksums + 1;
            },
            Err(err) => {
                let m = err.message();
                let ghost before = feed.parse_warnings@;
                let ghost old_w = feed@.parse_warnings;
                assert(old_w == before.map_values(|x: String| x.deep_view()));
                feed.parse_warnings.push(m);
                assert(feed.parse_warnings@ == before.push(m));
                assert(feed.parse_warnings.deep_view() =~= old_w.push(m@));
            },
        }
    } else if contains_lit(trimmed.as_slice(), ",") && contains_lit(lower_chars(trimmed.as_slice()).as_slice(), "station") {
        let s = string_of(trimmed.as_slice());
        let readings = match tide_csv::parse_tide_csv(s.as_str()) {
            Ok(v) => v,
            Err(e) => {
                return Err(e);
            },
        };
        push_tides(feed, &readings);
    } else {
        feed.push(FeedEvent::UnknownSentence(string_of(trimmed.as_slice())));
    }
    Ok(())
}

/// Parses a feed of any supported format.
pub fn parse_feed_text(text: &str) -> (r: Result<Feed>)
    ensures
        outcome(r, feed_spec(text@)),
{
    let t = chars_of(text);
    let mut feed = Feed::new();
    if looks_like_edifact(t.as_slice()) {
        ingest_edifact(text, &mut feed)?;
        return Ok(feed);
    }
    if looks_like_tide_csv(t.as_slice()) {
        let readings = tide_csv::parse_tide_csv(text)?;
        push_tides(&mut feed, &readings);
        return Ok(feed);
    }
    let ls = lines_of(t.as_slice());
    let ghost lv = lines(text@);
    assert(crate::text::vec_views(ls@) =~= lv);
    let mut i: usize = 0;
    assert(lv.take(0) =~= Seq::<Seq<char>>::empty());
    while i < ls.len()
        invariant
            i <= ls@.len(),
            lv == crate::text::vec_views(ls@),
            lv == lines(text@),
            feed_spec(text@) == lines_fold(lv),
            lines_fold(lv.take(i as int)) == core::result::Result::<SpecFeed, Fault>::Ok(feed@),
            feed@.invalid_nmea_checksums <= i,
        decreases ls.len() - i,
    {
        assert(lv.take(i + 1).drop_last() =~= lv.take(i as int));
        assert(lv.take(i + 1).last() == ls@[i as int]@);
        assert(feed@.invalid_nmea_checksums < usize::MAX);
        let r = read_line(ls[i].as_slice(), &mut feed);
        if r.is_err() {
            proof {
                lemma_fold_settles(lv, i + 1);
            }
            return Err(r.unwrap_err());
        }
        i += 1;
    }
    assert(lv.take(ls@.len() as int) =~= lv);
    Ok(feed)
}

/// The text of `data`, or `InvalidUtf8`.
pub fn utf8_text(data: &[u8]) -> (r: Result<&str>)
    ensures
        match text_of(data@) {
            Some(t) => r matches Ok(s) && s@ == t,
            None => r matches Err(e) && e@ == Fault::InvalidUtf8,
        },
{
    match crate::text::str_from_utf8(data) {
        Ok(s) => {
            proof {
                vstd::utf8::encode_utf8_decode_utf8(s@);
            }
            Ok(s)
        },
        Err(_) => Err(HarborError::InvalidUtf8),
    }
}

/// The text that `data` encodes, where it is UTF-8.
pub open spec fn text_of(data: Seq<u8>) -> Option<Seq<char>> {
    if vstd::utf8::valid_utf8(data) {
        Some(vstd::utf8::decode_utf8(data))
    } else {
        None
    }
}

/// Parses a feed of any supported format from bytes.
pub fn parse_feed_bytes(data: &[u8]) -> (r: Result<Feed>)
    ensures
        match text_of(data@) {
            Some(t) => outcome(r, feed_spec(t)),
            None => r matches Err(e) && e@ == Fault::InvalidUtf8,
        },
{
    let text = utf8_text(data)?;
    parse_feed_text(text)
}

/// The text holds an EDIFACT interchange.
fn looks_like_edifact(t: &[char]) -> (b: bool)
    ensures
        b == looks_like_edifact_spec(t@),
{
    contains_lit(t, "UNB+") && contains_lit(t, "UNH+") && (contains_lit(t, "UNT+") || contains_lit(t, "UNZ+"))
}

/// The first line of the text is a tide CSV header.
fn looks_like_tide_csv(t: &[char]) -> (b: bool)
    ensures
        b == looks_like_tide_csv_spec(t@),
{
    let ls = lines_of(t);
    let first = if ls.len() > 0 {
        lower_chars(ls[0].as_slice())
    } else {
        Vec::new()
    };
    assert(first@ == lower(if lines(t@).len() > 0 { lines(t@)[0] } else { Seq::empty() }));
    contains_lit(first.as_slice(), "station") && contains_lit(first.as_slice(), "time") && contains_lit(first.as_slice(), ",")
}

} // verus!
