//! The normalized events of a feed.
//!
//! Quantities that the feeds carry as decimal text (GPS coordinates, speeds,
//! tide levels, cargo mass) are kept here as the text that was read, and AIS
//! quantities as the integers of the payload; turning them into floating
//! point numbers is left to the caller.
use vstd::prelude::*;
use vstd::utf8::encode_utf8;
use crate::ais::{ais_coord_bits, ais_coord_f64_bits};
use vstd::string::StringSliceAdditionalSpecFns;

verus! {

/// Where a vessel position came from.
#[derive(Debug, Clone, Copy, PartialEq, Eq, Structural)]
pub enum PositionSource {
    Ais,
    AisB,
    AisBExt,
    AisBase,
}

/// The name of a position source in reports.
pub open spec fn source_name(s: PositionSource) -> Seq<char> {
    match s {
        PositionSource::Ais => "AIS"@,
        PositionSource::AisB => "AIS-B"@,
        PositionSource::AisBExt => "AIS-B-EXT"@,
        PositionSource::AisBase => "AIS-BASE"@,
    }
}

impl PositionSource {
    /// The source's name in reports.
    pub fn as_str(&self) -> (r: &'static str)
        ensures
            r@ == source_name(*self),
    {
        match self {
            PositionSource::Ais => "AIS",
            PositionSource::AisB => "AIS-B",
            PositionSource::AisBExt => "AIS-B-EXT",
            PositionSource::AisBase => "AIS-BASE",
        }
    }
}

/// A vessel position from an AIS report. Latitude and longitude are in
/// 1/600000 of a degree (1/10000 of a minute), speed in tenths of a knot and
/// course in tenths of a degree, as the payload carries them.
#[derive(Debug, Clone, Copy, PartialEq, Eq, Structural)]
pub struct VesselPosition {
    pub mmsi: u32,
    pub latitude_raw: i32,
    pub longitude_raw: i32,
    pub speed_raw: Option<u32>,
    pub course_raw: Option<u32>,
    pub heading_degrees: Option<u16>,
    pub nav_status: Option<u8>,
    pub timestamp_second: Option<u8>,
    pub source: PositionSource,
}

impl VesselPosition {
    /// A position that carries only its vessel and source.
    pub fn bare(mmsi: u32, source: PositionSource) -> (p: Self)
        ensures
            p == bare_position(mmsi, source),
    {
        VesselPosition {
            mmsi,
            latitude_raw: 0,
            longitude_raw: 0,
            speed_raw: None,
            course_raw: None,
            heading_degrees: None,
            nav_status: None,
            timestamp_second: None,
            source,
        }
    }
}

pub open spec fn bare_position(mmsi: u32, source: PositionSource) -> VesselPosition {
    VesselPosition {
        mmsi,
        latitude_raw: 0,
        longitude_raw: 0,
        speed_raw: None,
        course_raw: None,
        heading_degrees: None,
        nav_status: None,
        timestamp_second: None,
        source,
    }
}

/// Static and voyage data of a vessel.
#[derive(Debug, Clone)]
pub struct VesselStatic {
    pub mmsi: u32,
    pub imo: Option<u32>,
    pub callsign: Option<String>,
    pub name: Option<String>,
    pub ship_type: Option<u8>,
    pub draught_dm: Option<u8>,
    pub destination: Option<String>,
}

pub struct SpecStatic {
    pub mmsi: u32,
    pub imo: Option<u32>,
    pub callsign: Option<Seq<char>>,
    pub name: Option<Seq<char>>,
    pub ship_type: Option<u8>,
    pub draught_dm: Option<u8>,
    pub destination: Option<Seq<char>>,
}

impl View for VesselStatic {
    type V = SpecStatic;

    open spec fn view(&self) -> SpecStatic {
        SpecStatic {
            mmsi: self.mmsi,
            imo: self.imo,
            callsign: self.callsign.deep_view(),
            name: self.name.deep_view(),
            ship_type: self.ship_type,
            draught_dm: self.draught_dm,
            destination: self.destination.deep_view(),
        }
    }
}

/// A coordinate as an NMEA sentence writes it: whole degrees, decimal
/// minutes, and the hemisphere as a sign. Its value is
/// `degrees + minutes / 60`, negated when `negative`.
#[derive(Debug, Clone)]
pub struct CoordText {
    pub degrees: String,
    pub minutes: String,
    pub negative: bool,
}

pub struct SpecCoord {
    pub degrees: Seq<char>,
    pub minutes: Seq<char>,
    pub negative: bool,
}

impl View for CoordText {
    type V = SpecCoord;

    open spec fn view(&self) -> SpecCoord {
        SpecCoord { degrees: self.degrees@, minutes: self.minutes@, negative: self.negative }
    }
}

pub open spec fn coord_view(c: Option<CoordText>) -> Option<SpecCoord> {
    match c {
        Some(x) => Some(x@),
        None => None,
    }
}

/// A GPS fix. Speed, course and altitude are the non-empty text of their fields.
#[derive(Debug, Clone)]
pub struct GpsFix {
    pub talker: String,
    pub latitude: Option<CoordText>,
    pub longitude: Option<CoordText>,
    pub speed_knots: Option<String>,
    pub course_degrees: Option<String>,
    pub altitude_m: Option<String>,
    pub fix_quality: Option<u8>,
    pub satellites: Option<u8>,
    pub utc_time: Option<String>,
    pub date: Option<String>,
}

pub struct SpecGpsFix {
    pub talker: Seq<char>,
    pub latitude: Option<SpecCoord>,
    pub longitude: Option<SpecCoord>,
    pub speed_knots: Option<Seq<char>>,
    pub course_degrees: Option<Seq<char>>,
    pub altitude_m: Option<Seq<char>>,
    pub fix_quality: Option<u8>,
    pub satellites: Option<u8>,
    pub utc_time: Option<Seq<char>>,
    pub date: Option<Seq<char>>,
}

impl View for GpsFix {
    type V = SpecGpsFix;

    open spec fn view(&self) -> SpecGpsFix {
        SpecGpsFix {
            talker: self.talker@,
            latitude: coord_view(self.latitude),
            longitude: coord_view(self.longitude),
            speed_knots: self.speed_knots.deep_view(),
            course_degrees: self.course_degrees.deep_view(),
            altitude_m: self.altitude_m.deep_view(),
            fix_quality: self.fix_quality,
            satellites: self.satellites,
            utc_time: self.utc_time.deep_view(),
            date: self.date.deep_view(),
        }
    }
}

/// A container or equipment movement. The gross mass is the text of its
/// measurement component.
#[derive(Debug)]
pub struct CargoEvent {
    pub message_ref: Option<String>,
    pub equipment_id: Option<String>,
    pub equipment_type: Option<String>,
    pub booking_ref: Option<String>,
    pub gross_mass_kg: Option<String>,
    pub location: Option<String>,
    pub event_code: Option<String>,
    pub dangerous_goods: bool,
}

pub struct SpecCargo {
    pub message_ref: Option<Seq<char>>,
    pub equipment_id: Option<Seq<char>>,
    pub equipment_type: Option<Seq<char>>,
    pub booking_ref: Option<Seq<char>>,
    pub gross_mass_kg: Option<Seq<char>>,
    pub location: Option<Seq<char>>,
    pub event_code: Option<Seq<char>>,
    pub dangerous_goods: bool,
}

/// A copy of an optional text.
pub fn clone_text(o: &Option<String>) -> (r: Option<String>)
    ensures
        r.deep_view() == o.deep_view(),
{
    match o {
        Some(s) => Some(s.clone()),
        None => None,
    }
}

impl Clone for CargoEvent {
    fn clone(&self) -> (c: Self)
        ensures
            c@ == self@,
    {
        CargoEvent {
            message_ref: clone_text(&self.message_ref),
            equipment_id: clone_text(&self.equipment_id),
            equipment_type: clone_text(&self.equipment_type),
            booking_ref: clone_text(&self.booking_ref),
            gross_mass_kg: clone_text(&self.gross_mass_kg),
            location: clone_text(&self.location),
            event_code: clone_text(&self.event_code),
            dangerous_goods: self.dangerous_goods,
        }
    }
}

impl View for CargoEvent {
    type V = SpecCargo;

    open spec fn view(&self) -> SpecCargo {
        SpecCargo {
            message_ref: self.message_ref.deep_view(),
            equipment_id: self.equipment_id.deep_view(),
            equipment_type: self.equipment_type.deep_view(),
            booking_ref: self.booking_ref.deep_view(),
            gross_mass_kg: self.gross_mass_kg.deep_view(),
            location: self.location.deep_view(),
            event_code: self.event_code.deep_view(),
            dangerous_goods: self.dangerous_goods,
        }
    }
}

/// A vessel's call at a port.
#[derive(Debug, Clone)]
pub struct PortCall {
    pub vessel_id: Option<String>,
    pub voyage: Option<String>,
    pub port_locode: Option<String>,
    pub berth: Option<String>,
    pub eta: Option<String>,
    pub etd: Option<String>,
}

pub struct SpecPortCall {
    pub vessel_id: Option<Seq<char>>,
    pub voyage: Option<Seq<char>>,
    pub port_locode: Option<Seq<char>>,
    pub berth: Option<Seq<char>>,
    pub eta: Option<Seq<char>>,
    pub etd: Option<Seq<char>>,
}

impl View for PortCall {
    type V = SpecPortCall;

    open spec fn view(&self) -> SpecPortCall {
        SpecPortCall {
            vessel_id: self.vessel_id.deep_view(),
            voyage: self.voyage.deep_view(),
            port_locode: self.port_locode.deep_view(),
            berth: self.berth.deep_view(),
            eta: self.eta.deep_view(),
            etd: self.etd.deep_view(),
        }
    }
}

/// A tide station reading. Observed and predicted levels are the text of
/// their columns; `residual_bits` is the bit pattern of the `f32` difference
/// observed minus predicted, where the caller that reads the levels as numbers
/// has computed it.
#[derive(Debug)]
pub struct TideReading {
    pub station: String,
    pub timestamp: String,
    pub observed_m: Option<String>,
    pub predicted_m: Option<String>,
    pub residual_bits: Option<u32>,
    pub quality: Option<String>,
}

pub struct SpecTide {
    pub station: Seq<char>,
    pub timestamp: Seq<char>,
    pub observed_m: Option<Seq<char>>,
    pub predicted_m: Option<Seq<char>>,
    pub residual_bits: Option<u32>,
    pub quality: Option<Seq<char>>,
}

impl Clone for TideReading {
    fn clone(&self) -> (c: Self)
        ensures
            c@ == self@,
    {
        TideReading {
            station: self.station.clone(),
            timestamp: self.timestamp.clone(),
            observed_m: clone_text(&self.observed_m),
            predicted_m: clone_text(&self.predicted_m),
            residual_bits: self.residual_bits,
            quality: clone_text(&self.quality),
        }
    }
}

impl View for TideReading {
    type V = SpecTide;

    open spec fn view(&self) -> SpecTide {
        SpecTide {
            station: self.station@,
            timestamp: self.timestamp@,
            observed_m: self.observed_m.deep_view(),
            predicted_m: self.predicted_m.deep_view(),
            residual_bits: self.residual_bits,
            quality: self.quality.deep_view(),
        }
    }
}

/// A summary of one EDIFACT message.
#[derive(Debug, Clone)]
pub struct EdifactSummary {
    pub message_type: String,
    pub reference: String,
    pub segment_count: usize,
    pub container_count: usize,
    pub dangerous_goods_count: usize,
}

pub struct SpecSummary {
    pub message_type: Seq<char>,
    pub reference: Seq<char>,
    pub segment_count: nat,
    pub container_count: nat,
    pub dangerous_goods_count: nat,
}

impl View for EdifactSummary {
    type V = SpecSummary;

    open spec fn view(&self) -> SpecSummary {
        SpecSummary {
            message_type: self.message_type@,
            reference: self.reference@,
            segment_count: self.segment_count as nat,
            container_count: self.container_count as nat,
            dangerous_goods_count: self.dangerous_goods_count as nat,
        }
    }
}

/// One finding of the feed audit.
#[derive(Debug, Clone)]
pub struct ValidationFinding {
    pub rule_id: u16,
    pub severity: u8,
    pub subject: String,
    pub message: &'static str,
    pub evidence: u64,
}

pub struct SpecFinding {
    pub rule_id: u16,
    pub severity: u8,
    pub subject: Seq<char>,
    pub message: Seq<char>,
    pub evidence: u64,
}

impl View for ValidationFinding {
    type V = SpecFinding;

    open spec fn view(&self) -> SpecFinding {
        SpecFinding {
            rule_id: self.rule_id,
            severity: self.severity,
            subject: self.subject@,
            message: self.message@,
            evidence: self.evidence,
        }
    }
}

/// One normalized event of a feed.
#[derive(Debug, Clone)]
pub enum FeedEvent {
    VesselPosition(VesselPosition),
    VesselStatic(VesselStatic),
    GpsFix(GpsFix),
    CargoEvent(CargoEvent),
    PortCall(PortCall),
    TideReading(TideReading),
    EdifactMessage(EdifactSummary),
    UnknownSentence(String),
}

pub enum SpecEvent {
    VesselPosition(VesselPosition),
    VesselStatic(SpecStatic),
    GpsFix(SpecGpsFix),
    CargoEvent(SpecCargo),
    PortCall(SpecPortCall),
    TideReading(SpecTide),
    EdifactMessage(SpecSummary),
    UnknownSentence(Seq<char>),
}

impl View for FeedEvent {
    type V = SpecEvent;

    open spec fn view(&self) -> SpecEvent {
        match self {
            FeedEvent::VesselPosition(p) => SpecEvent::VesselPosition(*p),
            FeedEvent::VesselStatic(s) => SpecEvent::VesselStatic(s@),
            FeedEvent::GpsFix(g) => SpecEvent::GpsFix(g@),
            FeedEvent::CargoEvent(c) => SpecEvent::CargoEvent(c@),
            FeedEvent::PortCall(p) => SpecEvent::PortCall(p@),
            FeedEvent::TideReading(t) => SpecEvent::TideReading(t@),
            FeedEvent::EdifactMessage(m) => SpecEvent::EdifactMessage(m@),
            FeedEvent::UnknownSentence(s) => SpecEvent::UnknownSentence(s@),
        }
    }
}

/// The views of a sequence of values.
pub open spec fn seq_view<T: View>(v: Seq<T>) -> Seq<T::V> {
    v.map_values(|x: T| x@)
}

/// A parsed feed: its events in order, the number of NMEA sentences dropped
/// for a checksum mismatch, and a message for every other sentence dropped.
#[derive(Debug, Clone)]
pub struct Feed {
    pub events: Vec<FeedEvent>,
    pub invalid_nmea_checksums: usize,
    pub parse_warnings: Vec<String>,
}

pub struct SpecFeed {
    pub events: Seq<SpecEvent>,
    pub invalid_nmea_checksums: nat,
    pub parse_warnings: Seq<Seq<char>>,
}

impl View for Feed {
    type V = SpecFeed;

    open spec fn view(&self) -> SpecFeed {
        SpecFeed {
            events: seq_view(self.events@),
            invalid_nmea_checksums: self.invalid_nmea_checksums as nat,
            parse_warnings: self.parse_warnings.deep_view(),
        }
    }
}

pub open spec fn empty_feed() -> SpecFeed {
    SpecFeed { events: Seq::empty(), invalid_nmea_checksums: 0, parse_warnings: Seq::empty() }
}

impl Feed {
    /// A feed with no events.
    pub fn new() -> (f: Self)
        ensures
            f@ == empty_feed(),
    {
        let f = Feed { events: Vec::new(), invalid_nmea_checksums: 0, parse_warnings: Vec::new() };
        assert(f@.events =~= Seq::<SpecEvent>::empty());
        assert(f@.parse_warnings =~= Seq::<Seq<char>>::empty());
        f
    }

    /// Appends `event`.
    pub fn push(&mut self, event: FeedEvent)
        ensures
            final(self)@.events == old(self)@.events.push(event@),
            final(self)@.invalid_nmea_checksums == old(self)@.invalid_nmea_checksums,
            final(self)@.parse_warnings == old(self)@.parse_warnings,
    {
        let ghost e = event@;
        self.events.push(event);
        assert(seq_view(self.events@) =~= seq_view(old(self).events@).push(e));
    }
}

/// The `n` low bytes of `x`, least significant first.
pub open spec fn le_bytes(x: nat, n: nat) -> Seq<u8>
    decreases n,
{
    if n == 0 {
        Seq::empty()
    } else {
        seq![(x % 256) as u8] + le_bytes(x / 256, (n - 1) as nat)
    }
}

/// The UTF-8 bytes of an optional text, none when there is no text.
pub open spec fn opt_utf8(o: Option<Seq<char>>) -> Seq<u8> {
    match o {
        Some(s) => encode_utf8(s),
        None => Seq::empty(),
    }
}

/// The eight bytes of a coordinate's `f64` bits, none when there is no coordinate.
pub open spec fn coord_bytes(c: Option<u64>) -> Seq<u8> {
    match c {
        Some(bits) => le_bytes(bits as nat, 8),
        None => Seq::empty(),
    }
}

/// The digest material of one event. A vessel position gives the bits of
/// its coordinates as `f64` numbers of degrees; for a GPS fix, `lat` and
/// `lon` are the bits of its coordinates as `f64`, where it has them.
pub open spec fn event_material(e: SpecEvent, lat: Option<u64>, lon: Option<u64>) -> Seq<u8> {
    match e {
        SpecEvent::VesselPosition(p) => le_bytes(p.mmsi as nat, 4) + le_bytes(
            ais_coord_f64_bits(p.latitude_raw as int) as nat,
            8,
        ) + le_bytes(ais_coord_f64_bits(p.longitude_raw as int) as nat, 8),
        SpecEvent::VesselStatic(s) => le_bytes(s.mmsi as nat, 4) + opt_utf8(s.name),
        SpecEvent::GpsFix(g) => encode_utf8(g.talker) + coord_bytes(lat) + coord_bytes(lon),
        SpecEvent::CargoEvent(c) => opt_utf8(c.equipment_id) + opt_utf8(c.location),
        SpecEvent::PortCall(c) => opt_utf8(c.port_locode),
        SpecEvent::TideReading(t) => encode_utf8(t.station) + encode_utf8(t.timestamp),
        SpecEvent::EdifactMessage(m) => encode_utf8(m.message_type) + encode_utf8(m.reference) + le_bytes(
            m.segment_count,
            8,
        ),
        SpecEvent::UnknownSentence(s) => encode_utf8(s),
    }
}

/// The coordinates given for event `i`; none where `coords` is too short.
pub open spec fn coords_at(coords: Seq<(Option<u64>, Option<u64>)>, i: int) -> (Option<u64>, Option<u64>) {
    if 0 <= i < coords.len() {
        coords[i]
    } else {
        (None, None)
    }
}

/// The digest material of the events, in order.
pub open spec fn material_spec(events: Seq<SpecEvent>, coords: Seq<(Option<u64>, Option<u64>)>) -> Seq<u8>
    decreases events.len(),
{
    if events.len() == 0 {
        Seq::empty()
    } else {
        let k = events.len() - 1;
        material_spec(events.drop_last(), coords) + event_material(
            events[k],
            coords_at(coords, k).0,
            coords_at(coords, k).1,
        )
    }
}

/// The digest material of a feed is that of its events one after another:
/// the material of `a` followed by `b` is that of `a` followed by that of
/// `b`, each event read with its own coordinates.
pub proof fn lemma_material_concat(
    a: Seq<SpecEvent>,
    b: Seq<SpecEvent>,
    ca: Seq<(Option<u64>, Option<u64>)>,
    cb: Seq<(Option<u64>, Option<u64>)>,
)
    requires
        ca.len() == a.len(),
    ensures
        material_spec(a + b, ca + cb) == material_spec(a, ca) + material_spec(b, cb),
    decreases b.len(),
{
    lemma_material_prefix(a, ca, ca + cb);
    if b.len() == 0 {
        assert(a + b =~= a);
        assert(material_spec(a, ca) + material_spec(b, cb) =~= material_spec(a, ca));
    } else {
        lemma_material_concat(a, b.drop_last(), ca, cb);
        assert((a + b).drop_last() =~= a + b.drop_last());
        let k = b.len() - 1;
        assert((a + b)[a.len() + k] == b[k]);
        assert(coords_at(ca + cb, a.len() + k) == coords_at(cb, k));
        let x = material_spec(a, ca);
        let y = material_spec(b.drop_last(), cb);
        let z = event_material(b[k], coords_at(cb, k).0, coords_at(cb, k).1);
        assert(x + y + z =~= x + (y + z));
    }
}

proof fn lemma_material_prefix(
    a: Seq<SpecEvent>,
    c: Seq<(Option<u64>, Option<u64>)>,
    d: Seq<(Option<u64>, Option<u64>)>,
)
    requires
        c.len() == a.len(),
        d.len() >= c.len(),
        forall|i: int| 0 <= i < c.len() ==> d[i] == c[i],
    ensures
        material_spec(a, d) == material_spec(a, c),
    decreases a.len(),
{
    if a.len() > 0 {
        lemma_material_prefix(a.drop_last(), c.drop_last(), d);
        lemma_material_prefix(a.drop_last(), c.drop_last(), c);
    }
}

/// Appends the `n` low bytes of `x`, least significant first.
fn push_le(out: &mut Vec<u8>, x: u64, n: usize)
    requires
        n <= 8,
    ensures
        final(out)@ == old(out)@ + le_bytes(x as nat, n as nat),
{
    let ghost start = old(out)@;
    let mut y = x;
    let mut i: usize = 0;
    assert(start + le_bytes(x as nat, n as nat) =~= out@ + le_bytes(y as nat, (n - i) as nat));
    while i < n
        invariant
            i <= n <= 8,
            out@ + le_bytes(y as nat, (n - i) as nat) == start + le_bytes(x as nat, n as nat),
        decreases n - i,
    {
        let ghost before = out@;
        let ghost rest = le_bytes(y as nat, (n - i) as nat);
        assert(rest == seq![(y as nat % 256) as u8] + le_bytes(y as nat / 256, (n - i - 1) as nat));
        out.push((y % 256) as u8);
        assert(before + rest =~= out@ + le_bytes((y / 256) as nat, (n - i - 1) as nat));
        y = y / 256;
        i += 1;
    }
    assert(le_bytes(y as nat, 0) =~= Seq::<u8>::empty());
    assert(out@ + le_bytes(y as nat, 0) =~= out@);
}

/// Appends the UTF-8 bytes of `s`.
fn push_utf8(out: &mut Vec<u8>, s: &str)
    ensures
        final(out)@ == old(out)@ + encode_utf8(s@),
{
    let b = s.as_bytes();
    let ghost start = old(out)@;
    let mut i: usize = 0;
    assert(b@.take(0) =~= Seq::<u8>::empty());
    assert(out@ =~= start + b@.take(0));
    while i < b.len()
        invariant
            i <= b@.len(),
            b@ == encode_utf8(s@),
            out@ == start + b@.take(i as int),
        decreases b.len() - i,
    {
        out.push(b[i]);
        assert(b@.take(i + 1) =~= b@.take(i as int).push(b@[i as int]));
        assert(out@ =~= start + b@.take(i + 1));
        i += 1;
    }
    assert(b@.take(b@.len() as int) =~= b@);
}

/// Appends the UTF-8 bytes of an optional text.
fn push_opt_utf8(out: &mut Vec<u8>, o: &Option<String>)
    ensures
        final(out)@ == old(out)@ + opt_utf8(o.deep_view()),
{
    match o {
        Some(s) => push_utf8(out, s.as_str()),
        None => {
            assert(out@ =~= old(out)@ + Seq::<u8>::empty());
        },
    }
}

/// Appends the bits of a coordinate, where there is one.
fn push_coord(out: &mut Vec<u8>, c: Option<u64>)
    ensures
        final(out)@ == old(out)@ + coord_bytes(c),
{
    match c {
        Some(bits) => push_le(out, bits, 8),
        None => {
            assert(out@ =~= old(out)@ + Seq::<u8>::empty());
        },
    }
}

impl Feed {
    /// The bytes that the audit digest is taken over. `coords[i]` holds the
    /// bits, as `f64`, of the latitude and longitude of event `i` where it is
    /// a GPS fix that has them; it is not read for other events.
    pub fn digest_material(&self, coords: &[(Option<u64>, Option<u64>)]) -> (out: Vec<u8>)
        ensures
            out@ == material_spec(self@.events, coords@),
    {
        let ghost evs = self@.events;
        let mut out: Vec<u8> = Vec::new();
        let mut i: usize = 0;
        assert(evs.take(0) =~= Seq::<SpecEvent>::empty());
        assert(out@ =~= Seq::<u8>::empty());
        while i < self.events.len()
            invariant
                i <= self.events@.len(),
                evs == seq_view(self.events@),
                out@ == material_spec(evs.take(i as int), coords@),
            decreases self.events.len() - i,
        {
            assert(evs.take(i + 1).drop_last() =~= evs.take(i as int));
            assert(evs.take(i + 1)[i as int] == self.events@[i as int]@);
            let (lat, lon) = if i < coords.len() {
                coords[i]
            } else {
                (None, None)
            };
            let ghost before = out@;
            match &self.events[i] {
                FeedEvent::VesselPosition(p) => {
                    push_le(&mut out, p.mmsi as u64, 4);
                    push_le(&mut out, ais_coord_bits(p.latitude_raw), 8);
                    push_le(&mut out, ais_coord_bits(p.longitude_raw), 8);
                },
                FeedEvent::VesselStatic(s) => {
                    push_le(&mut out, s.mmsi as u64, 4);
                    push_opt_utf8(&mut out, &s.name);
                },
                FeedEvent::GpsFix(g) => {
                    push_utf8(&mut out, g.talker.as_str());
                    push_coord(&mut out, lat);
                    push_coord(&mut out, lon);
                },
                FeedEvent::CargoEvent(c) => {
                    push_opt_utf8(&mut out, &c.equipment_id);
                    push_opt_utf8(&mut out, &c.location);
                },
                FeedEvent::PortCall(c) => {
                    push_opt_utf8(&mut out, &c.port_locode);
                },
                FeedEvent::TideReading(t) => {
                    push_utf8(&mut out, t.station.as_str());
                    push_utf8(&mut out, t.timestamp.as_str());
                },
                FeedEvent::EdifactMessage(m) => {
                    push_utf8(&mut out, m.message_type.as_str());
                    push_utf8(&mut out, m.reference.as_str());
                    push_le(&mut out, m.segment_count as u64, 8);
                },
                FeedEvent::UnknownSentence(s) => {
                    push_utf8(&mut out, s.as_str());
                },
            }
            assert(out@ =~= before + event_material(
                evs.take(i + 1)[i as int],
                coords_at(coords@, i as int).0,
                coords_at(coords@, i as int).1,
            ));
            i += 1;
        }
        assert(evs.take(self.events@.len() as int) =~= evs);
        out
    }
}

impl Default for Feed {
    fn default() -> (f: Self)
        ensures
            f@ == empty_feed(),
    {
        Feed::new()
    }
}

} // verus!
