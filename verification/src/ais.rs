//! AIS sentences (`AIVDM` / `AIVDO`) and the decoding of their six-bit payloads.
use vstd::prelude::*;
use vstd::arithmetic::power2::{pow2, lemma2_to64, lemma_pow2_unfold, lemma_pow2_strictly_increases};
use crate::bitcursor::{
    pow2_u64, BitCursor, field, is_binary, text_chars, signed_value, payload_ok, unpadded_bits,
    lemma_bits_value_bound, lemma_payload_bits_binary, payload_bits,
};
use crate::error::{HarborError, Result, Fault, outcome};
use crate::model::{VesselPosition, VesselStatic, SpecStatic, PositionSource};
use crate::nmea::{self, SpecSentence, sentence_spec, text_opt};
use crate::validate::round_half_even;
use crate::text::{trim, parse_u8_spec, chars_of, trim_chars, string_of, parse_u8_radix, eq_lit};

verus! {

/// One fragment of an AIS sentence.
#[derive(Debug, Clone)]
pub struct AisFragment {
    pub fragment_count: u8,
    pub fragment_number: u8,
    pub sequential_id: Option<String>,
    pub radio_channel: Option<char>,
    pub payload: String,
    pub fill_bits: u8,
}

pub struct SpecFragment {
    pub fragment_count: u8,
    pub fragment_number: u8,
    pub sequential_id: Option<Seq<char>>,
    pub radio_channel: Option<char>,
    pub payload: Seq<char>,
    pub fill_bits: u8,
}

impl View for AisFragment {
    type V = SpecFragment;

    open spec fn view(&self) -> SpecFragment {
        SpecFragment {
            fragment_count: self.fragment_count,
            fragment_number: self.fragment_number,
            sequential_id: self.sequential_id.deep_view(),
            radio_channel: self.radio_channel,
            payload: self.payload@,
            fill_bits: self.fill_bits,
        }
    }
}

/// A decoded AIS message.
#[derive(Debug, Clone)]
#[allow(inconsistent_fields)]
pub enum AisMessage {
    Position(VesselPosition),
    Static(VesselStatic),
    BaseStation { mmsi: u32, year: u16, month: u8, day: u8, hour: u8, minute: u8, second: u8 },
    Unknown { message_type: u8, mmsi: Option<u32> },
}

#[allow(inconsistent_fields)]
pub enum SpecAisMessage {
    Position(VesselPosition),
    Static(SpecStatic),
    BaseStation { mmsi: u32, year: u16, month: u8, day: u8, hour: u8, minute: u8, second: u8 },
    Unknown { message_type: u8, mmsi: Option<u32> },
}

impl View for AisMessage {
    type V = SpecAisMessage;

    open spec fn view(&self) -> SpecAisMessage {
        match self {
            AisMessage::Position(p) => SpecAisMessage::Position(*p),
            AisMessage::Static(s) => SpecAisMessage::Static(s@),
            AisMessage::BaseStation { mmsi, year, month, day, hour, minute, second } =>
                SpecAisMessage::BaseStation {
                mmsi: *mmsi,
                year: *year,
                month: *month,
                day: *day,
                hour: *hour,
                minute: *minute,
                second: *second,
            },
            AisMessage::Unknown { message_type, mmsi } => SpecAisMessage::Unknown {
                message_type: *message_type,
                mmsi: *mmsi,
            },
        }
    }
}

/// The fragment that an `AIVDM`/`AIVDO` sentence carries.
pub open spec fn fragment_spec(s: SpecSentence) -> core::result::Result<SpecFragment, Fault> {
    let f = s.fields;
    if s.formatter != "VDM"@ && s.formatter != "VDO"@ {
        Err(Fault::UnsupportedSentence(s.talker + s.formatter))
    } else if f.len() < 6 {
        Err(Fault::InvalidNmeaField("aivdm fields"@))
    } else {
        match parse_u8_spec(f[0], 10) {
            None => Err(Fault::InvalidNmeaField("fragment count"@)),
            Some(count) => match parse_u8_spec(f[1], 10) {
                None => Err(Fault::InvalidNmeaField("fragment number"@)),
                Some(number) => match parse_u8_spec(f[5], 10) {
                    None => Err(Fault::InvalidNmeaField("fill bits"@)),
                    Some(fill) => Ok(
                        SpecFragment {
                            fragment_count: count,
                            fragment_number: number,
                            sequential_id: text_opt(f[2]),
                            radio_channel: if f[3].len() > 0 { Some(f[3][0]) } else { None },
                            payload: f[4],
                            fill_bits: fill,
                        },
                    ),
                },
            },
        }
    }
}

/// What reading an AIS sentence from `line` gives.
pub open spec fn aivdm_spec(line: Seq<char>) -> core::result::Result<SpecFragment, Fault> {
    match sentence_spec(line) {
        Err(e) => Err(e),
        Ok(s) => fragment_spec(s),
    }
}

/// A text field where it is not blank, trimmed.
pub open spec fn empty_to_none_spec(s: Seq<char>) -> Option<Seq<char>> {
    if trim(s).len() == 0 {
        None
    } else {
        Some(trim(s))
    }
}

/// The text of `n` characters at bit `start`, where the payload holds them.
pub open spec fn text_at(b: Seq<u8>, start: int, n: nat) -> Option<Seq<char>> {
    if b.len() >= start + 6 * n {
        Some(trim(text_chars(b, start, n)))
    } else {
        None
    }
}

pub open spec fn opt_blank_to_none(o: Option<Seq<char>>) -> Option<Seq<char>> {
    match o {
        Some(s) => empty_to_none_spec(s),
        None => None,
    }
}

/// The common tail of position reports: speed, position, course, heading and
/// time stamp, with `base` the bit where the speed starts.
pub open spec fn position_at(b: Seq<u8>, base: int, mmsi: u32, nav_status: Option<u8>, source: PositionSource) -> VesselPosition {
    let sog = field(b, base, 10);
    let cog = field(b, base + 66, 12);
    let heading = field(b, base + 78, 9);
    VesselPosition {
        mmsi,
        latitude_raw: signed_value(field(b, base + 39, 27), 27) as i32,
        longitude_raw: signed_value(field(b, base + 11, 28), 28) as i32,
        speed_raw: if sog == 1023 { None } else { Some(sog as u32) },
        course_raw: if cog == 3600 { None } else { Some(cog as u32) },
        heading_degrees: if heading == 511 { None } else { Some(heading as u16) },
        nav_status,
        timestamp_second: Some(field(b, base + 87, 6) as u8),
        source,
    }
}

pub open spec fn static_of(mmsi: u32) -> SpecStatic {
    SpecStatic {
        mmsi,
        imo: None,
        callsign: None,
        name: None,
        ship_type: None,
        draught_dm: None,
        destination: None,
    }
}

/// The message of an unpacked payload `b`, by the ITU-R M.1371 layouts of
/// message types 1 to 5, 18, 19 and 24; other types keep only their number
/// and MMSI.
pub open spec fn ais_decode_spec(b: Seq<u8>) -> core::result::Result<SpecAisMessage, Fault> {
    let bad = Err(Fault::InvalidAisPayload);
    if b.len() < 38 {
        bad
    } else {
        let t = field(b, 0, 6);
        let mmsi = field(b, 8, 30) as u32;
        if t == 1 || t == 2 || t == 3 {
            if b.len() < 149 {
                bad
            } else {
                Ok(SpecAisMessage::Position(position_at(b, 50, mmsi, Some(field(b, 38, 4) as u8), PositionSource::Ais)))
            }
        } else if t == 4 {
            if b.len() < 78 {
                bad
            } else {
                Ok(SpecAisMessage::BaseStation {
                    mmsi,
                    year: field(b, 38, 14) as u16,
                    month: field(b, 52, 4) as u8,
                    day: field(b, 56, 5) as u8,
                    hour: field(b, 61, 5) as u8,
                    minute: field(b, 66, 6) as u8,
                    second: field(b, 72, 6) as u8,
                })
            }
        } else if t == 5 {
            if b.len() < 296 {
                bad
            } else {
                let imo = field(b, 40, 30) as u32;
                let draught = field(b, 288, 8) as u8;
                Ok(SpecAisMessage::Static(SpecStatic {
                    mmsi,
                    imo: if imo == 0 { None } else { Some(imo) },
                    callsign: empty_to_none_spec(trim(text_chars(b, 70, 7))),
                    name: empty_to_none_spec(trim(text_chars(b, 112, 20))),
                    ship_type: Some(field(b, 232, 8) as u8),
                    draught_dm: if draught == 0 { None } else { Some(draught) },
                    destination: text_at(b, 296, 20),
                }))
            }
        } else if t == 18 {
            if b.len() < 139 {
                bad
            } else {
                Ok(SpecAisMessage::Position(position_at(b, 46, mmsi, None, PositionSource::AisB)))
            }
        } else if t == 19 {
            ais_decode_spec_19(b, mmsi)
        } else if t == 24 {
            ais_decode_spec_24(b, mmsi)
        } else {
            Ok(SpecAisMessage::Unknown { message_type: t as u8, mmsi: Some(mmsi) })
        }
    }
}

/// What decoding the armored `payload` with `fill_bits` padding bits gives.
pub open spec fn payload_spec(payload: Seq<char>, fill_bits: u8) -> core::result::Result<SpecAisMessage, Fault> {
    if fill_bits > 5 || !payload_ok(payload) {
        Err(Fault::InvalidAisPayload)
    } else {
        ais_decode_spec(unpadded_bits(payload, fill_bits as nat))
    }
}

/// A class A position report (message types 1, 2 and 3) of at least 149
/// bits decodes into a position by one layout, whatever its type: MMSI in
/// bits 8..38, navigation status in 38..42, speed in tenths of a knot in
/// 50..60 (1023 for none), longitude in 61..89 and latitude in 89..116 (two's
/// complement, 1/600000 degree), course in tenths in 116..128 (3600 for
/// none), heading in 128..137 (511 for none) and the time stamp's second in
/// 137..143.
pub proof fn lemma_class_a_position(payload: Seq<char>, fill_bits: u8)
    requires
        fill_bits <= 5,
        payload_ok(payload),
        unpadded_bits(payload, fill_bits as nat).len() >= 149,
        1 <= field(unpadded_bits(payload, fill_bits as nat), 0, 6) <= 3,
    ensures
        ({
            let b = unpadded_bits(payload, fill_bits as nat);
            let sog = field(b, 50, 10);
            let cog = field(b, 116, 12);
            let heading = field(b, 128, 9);
            payload_spec(payload, fill_bits) == Ok::<SpecAisMessage, Fault>(
                SpecAisMessage::Position(
                    VesselPosition {
                        mmsi: field(b, 8, 30) as u32,
                        latitude_raw: signed_value(field(b, 89, 27), 27) as i32,
                        longitude_raw: signed_value(field(b, 61, 28), 28) as i32,
                        speed_raw: if sog == 1023 { None } else { Some(sog as u32) },
                        course_raw: if cog == 3600 { None } else { Some(cog as u32) },
                        heading_degrees: if heading == 511 { None } else { Some(heading as u16) },
                        nav_status: Some(field(b, 38, 4) as u8),
                        timestamp_second: Some(field(b, 137, 6) as u8),
                        source: PositionSource::Ais,
                    },
                ),
            )
        }),
{
}

/// A class B position report (message type 18) of at least 139 bits decodes
/// into a position with no navigation status: MMSI in bits 8..38, speed in
/// 46..56, longitude in 57..85, latitude in 85..112, course in 112..124,
/// heading in 124..133 and the time stamp's second in 133..139.
pub proof fn lemma_class_b_position(payload: Seq<char>, fill_bits: u8)
    requires
        fill_bits <= 5,
        payload_ok(payload),
        unpadded_bits(payload, fill_bits as nat).len() >= 139,
        field(unpadded_bits(payload, fill_bits as nat), 0, 6) == 18,
    ensures
        ({
            let b = unpadded_bits(payload, fill_bits as nat);
            let sog = field(b, 46, 10);
            let cog = field(b, 112, 12);
            let heading = field(b, 124, 9);
            payload_spec(payload, fill_bits) == Ok::<SpecAisMessage, Fault>(
                SpecAisMessage::Position(
                    VesselPosition {
                        mmsi: field(b, 8, 30) as u32,
                        latitude_raw: signed_value(field(b, 85, 27), 27) as i32,
                        longitude_raw: signed_value(field(b, 57, 28), 28) as i32,
                        speed_raw: if sog == 1023 { None } else { Some(sog as u32) },
                        course_raw: if cog == 3600 { None } else { Some(cog as u32) },
                        heading_degrees: if heading == 511 { None } else { Some(heading as u16) },
                        nav_status: None,
                        timestamp_second: Some(field(b, 133, 6) as u8),
                        source: PositionSource::AisB,
                    },
                ),
            )
        }),
{
}

/// A base station report (message type 4) of at least 78 bits decodes into
/// its MMSI and UTC time: year in bits 38..52, month 52..56, day 56..61,
/// hour 61..66, minute 66..72 and second 72..78.
pub proof fn lemma_base_station(payload: Seq<char>, fill_bits: u8)
    requires
        fill_bits <= 5,
        payload_ok(payload),
        unpadded_bits(payload, fill_bits as nat).len() >= 78,
        field(unpadded_bits(payload, fill_bits as nat), 0, 6) == 4,
    ensures
        ({
            let b = unpadded_bits(payload, fill_bits as nat);
            payload_spec(payload, fill_bits) == Ok::<SpecAisMessage, Fault>(
                SpecAisMessage::BaseStation {
                    mmsi: field(b, 8, 30) as u32,
                    year: field(b, 38, 14) as u16,
                    month: field(b, 52, 4) as u8,
                    day: field(b, 56, 5) as u8,
                    hour: field(b, 61, 5) as u8,
                    minute: field(b, 66, 6) as u8,
                    second: field(b, 72, 6) as u8,
                },
            )
        }),
{
}

/// A payload decodes into an unknown message only where its type, its first
/// six bits, is none of the decoded types 1 to 5, 18, 19 and 24.
pub proof fn lemma_unknown_only_for_other_types(payload: Seq<char>, fill_bits: u8)
    ensures
        payload_spec(payload, fill_bits) matches Ok(SpecAisMessage::Unknown { message_type, .. }) ==> {
            &&& message_type == field(unpadded_bits(payload, fill_bits as nat), 0, 6)
            &&& !(1 <= message_type <= 5 || message_type == 18 || message_type == 19 || message_type == 24)
        },
{
    let b = unpadded_bits(payload, fill_bits as nat);
    if fill_bits <= 5 && payload_ok(payload) && b.len() >= 38 {
        lemma_payload_bits_binary(payload);
        assert(is_binary(b)) by {
            let full = payload_bits(payload);
            assert forall|i: int| 0 <= i < b.len() implies #[trigger] b[i] <= 1 by {
                assert(b[i] == full[i]);
            }
        }
        lemma_field_bound(b, 0, 6);
        lemma2_to64();
    }
}

/// What decoding a fragment gives: only single-fragment messages are decoded.
pub open spec fn single_fragment_spec(f: SpecFragment) -> core::result::Result<SpecAisMessage, Fault> {
    if f.fragment_count != 1 || f.fragment_number != 1 {
        Err(Fault::InvalidAisPayload)
    } else {
        payload_spec(f.payload, f.fill_bits)
    }
}

/// Reads the AIS fragment of one sentence.
pub fn parse_aivdm(line: &str) -> (r: Result<AisFragment>)
    ensures
        outcome(r, aivdm_spec(line@)),
{
    let sentence = nmea::parse_sentence(line)?;
    let f = chars_of(sentence.formatter.as_str());
    if !eq_lit(f.as_slice(), "VDM") && !eq_lit(f.as_slice(), "VDO") {
        return Err(HarborError::UnsupportedSentence(nmea::sentence_name(&sentence)));
    }
    if sentence.fields.len() < 6 {
        return Err(HarborError::InvalidNmeaField("aivdm fields"));
    }
    let ghost fv = sentence@.fields;
    assert(sentence.fields[0]@ == fv[0]);
    let fragment_count = match parse_u8_radix(chars_of(sentence.fields[0].as_str()).as_slice(), 10) {
        Some(v) => v,
        None => {
            return Err(HarborError::InvalidNmeaField("fragment count"));
        },
    };
    assert(sentence.fields[1]@ == fv[1]);
    let fragment_number = match parse_u8_radix(chars_of(sentence.fields[1].as_str()).as_slice(), 10) {
        Some(v) => v,
        None => {
            return Err(HarborError::InvalidNmeaField("fragment number"));
        },
    };
    assert(sentence.fields[2]@ == fv[2]);
    let sequential_id = if sentence.fields[2].as_str().is_empty() {
        None
    } else {
        Some(sentence.fields[2].clone())
    };
    assert(sentence.fields[3]@ == fv[3]);
    let channel = chars_of(sentence.fields[3].as_str());
    let radio_channel = if channel.len() > 0 {
        Some(channel[0])
    } else {
        None
    };
    assert(sentence.fields[4]@ == fv[4]);
    let payload = sentence.fields[4].clone();
    assert(sentence.fields[5]@ == fv[5]);
    let fill_bits = match parse_u8_radix(chars_of(sentence.fields[5].as_str()).as_slice(), 10) {
        Some(v) => v,
        None => {
            return Err(HarborError::InvalidNmeaField("fill bits"));
        },
    };
    Ok(AisFragment { fragment_count, fragment_number, sequential_id, radio_channel, payload, fill_bits })
}

/// Decodes a fragment that holds a whole message.
pub fn decode_single_fragment(fragment: &AisFragment) -> (r: Result<AisMessage>)
    ensures
        outcome(r, single_fragment_spec(fragment@)),
{
    if fragment.fragment_count != 1 || fragment.fragment_number != 1 {
        return Err(HarborError::InvalidAisPayload);
    }
    decode_payload(fragment.payload.as_str(), fragment.fill_bits)
}

proof fn lemma_field_bound(b: Seq<u8>, start: int, width: int)
    requires
        is_binary(b),
        0 <= start,
        0 <= width,
        start + width <= b.len(),
    ensures
        field(b, start, width) < pow2(width as nat),
{
    let s = b.subrange(start, start + width);
    assert(is_binary(s)) by {
        assert forall|i: int| 0 <= i < s.len() implies #[trigger] s[i] <= 1 by {
            assert(s[i] == b[start + i]);
        }
    }
    lemma_bits_value_bound(s);
}

/// `floor(log2(n / 600000))` for `n >= 600000`: the binary exponent of
/// `n / 600000`.
pub open spec fn coord_exponent(n: nat) -> nat
    decreases n,
{
    if n < 1_200_000 {
        0
    } else {
        1 + coord_exponent(n / 2)
    }
}

/// The sign and exponent bits, and the fraction bits, of the IEEE 754
/// binary64 number nearest to `a / 600000`, for `a >= 1` (a normal number):
/// with `n = a * 2^20`, the binary exponent is `e - 20` for
/// `e = coord_exponent(n)`, and the 53-bit significand is `n * 2^(52 - e) /
/// 600000` rounded to nearest, ties to even; a significand that rounds up to
/// `2^53` carries into the exponent.
pub open spec fn coord_magnitude_bits(a: nat) -> int {
    let n = a * pow2(20);
    let e = coord_exponent(n);
    let m = round_half_even(n * pow2((52 - e) as nat), 600000);
    if m >= pow2(53) {
        ((1004 + e) * pow2(52)) as int
    } else {
        (1003 + e) * pow2(52) + m - pow2(52)
    }
}

/// What `(raw as f64 / 600000.0).to_bits()` gives: the bits of an AIS
/// coordinate, in units of 1/600000 degree, as a number of degrees.
pub open spec fn ais_coord_f64_bits(raw: int) -> u64 {
    if raw == 0 {
        0
    } else if raw > 0 {
        coord_magnitude_bits(raw as nat) as u64
    } else {
        (0x8000_0000_0000_0000 + coord_magnitude_bits((-raw) as nat)) as u64
    }
}

proof fn lemma_coord_exponent_bound(n: nat, k: nat)
    requires
        n < pow2(k + 20),
    ensures
        coord_exponent(n) <= k,
    decreases n,
{
    if n >= 1_200_000 {
        lemma_pow2_unfold(k + 20);
        if k == 0 {
            lemma2_to64();
        } else {
            lemma_coord_exponent_bound(n / 2, (k - 1) as nat);
        }
    }
}

/// The bits of an AIS coordinate, given in units of 1/600000 degree, as an
/// `f64` number of degrees.
pub fn ais_coord_bits(raw: i32) -> (b: u64)
    ensures
        b == ais_coord_f64_bits(raw as int),
{
    if raw == 0 {
        return 0;
    }
    let a: u64 = if raw < 0 {
        (0i64 - raw as i64) as u64
    } else {
        raw as u64
    };
    proof {
        lemma2_to64();
        vstd::arithmetic::power2::lemma2_to64_rest();
    }
    let n: u64 = a * 0x10_0000u64;
    proof {
        lemma_pow2_strictly_increases(51, 52);
        lemma_coord_exponent_bound(n as nat, 32);
    }
    let mut x: u64 = n;
    let mut e: u64 = 0;
    while x >= 1_200_000
        invariant
            coord_exponent(n as nat) == e + coord_exponent(x as nat),
            coord_exponent(n as nat) <= 32,
        decreases x,
    {
        e = e + 1;
        x = x / 2;
    }
    let p = pow2_u64((52 - e) as u32);
    proof {
        lemma2_to64();
        vstd::arithmetic::power2::lemma2_to64_rest();
        if e > 0 {
            lemma_pow2_strictly_increases((52 - e) as nat, 52);
        }
        assert(n as int * p as int <= 0x8_0000_0000_0000 * 0x10_0000_0000_0000) by (nonlinear_arith)
            requires n <= 0x8_0000_0000_0000, p <= 0x10_0000_0000_0000;
    }
    let num: u128 = n as u128 * p as u128;
    let den: u128 = 600000;
    let q = num / den;
    let r = num % den;
    let m: u128 = if 2 * r > den || (2 * r == den && q % 2 == 1) { q + 1 } else { q };
    assert(m == round_half_even(n as nat * pow2((52 - e) as nat), 600000));
    let one: u128 = 0x10_0000_0000_0000;
    let mag: u128 = if m >= 0x20_0000_0000_0000u128 {
        (1004 + e as u128) * one
    } else {
        (1003 + e as u128) * one + m - one
    };
    assert(mag == coord_magnitude_bits(a as nat));
    if raw < 0 {
        (0x8000_0000_0000_0000u128 + mag) as u64
    } else {
        mag as u64
    }
}

/// Decodes an armored AIS payload.
pub fn decode_payload(payload: &str, fill_bits: u8) -> (r: Result<AisMessage>)
    ensures
        outcome(r, payload_spec(payload@, fill_bits)),
{
    let mut bits = BitCursor::from_sixbit_payload(payload, fill_bits)?;
    let ghost b = bits.bit_seq();
    let message_type = bits.read_u8(6)?;
    let _repeat = bits.read_u8(2)?;
    let mmsi = bits.read_u32(30)?;
    proof {
        lemma2_to64();
        lemma_field_bound(b, 0, 6);
        lemma_field_bound(b, 8, 30);
    }
    match message_type {
        1 | 2 | 3 => decode_position_report(message_type, mmsi, bits),
        4 => decode_base_station(mmsi, bits),
        5 => decode_static_voyage(mmsi, bits),
        18 => decode_class_b_position(mmsi, bits),
        19 => decode_extended_class_b(mmsi, bits),
        24 => decode_static_data_report(mmsi, bits),
        other => Ok(AisMessage::Unknown { message_type: other, mmsi: Some(mmsi) }),
    }
}

fn decode_position_report(_message_type: u8, mmsi: u32, bits: BitCursor) -> (r: Result<AisMessage>)
    requires
        is_binary(bits.bit_seq()),
        bits.position() == 38,
        bits.bit_seq().len() >= 38,
    ensures
        outcome(r, if bits.bit_seq().len() < 149 { Err(Fault::InvalidAisPayload) } else {
            Ok(SpecAisMessage::Position(position_at(bits.bit_seq(), 50, mmsi, Some(field(bits.bit_seq(), 38, 4) as u8), PositionSource::Ais)))
        }),
{
    let ghost b = bits.bit_seq();
    let mut bits = bits;
    let nav_status = bits.read_u8(4)?;
    let _rot = bits.read_u8(8)?;
    let sog_raw = bits.read_u32(10)?;
    // A low position accuracy asks for the course rounded to tenths of a
    // degree, which `course_raw` already is.
    let _position_accuracy = bits.read_bool()?;
    let lon_raw = bits.read_signed(28)?;
    let lat_raw = bits.read_signed(27)?;
    let cog_raw = bits.read_u32(12)?;
    let heading_raw = bits.read_u32(9)?;
    let timestamp = bits.read_u8(6)?;
    let _maneuver = bits.read_u8(2)?;
    bits.skip(3)?;
    let _raim = bits.read_bool()?;
    proof {
        lemma2_to64();
        lemma_field_bound(b, 38, 4);
        lemma_field_bound(b, 50, 10);
        lemma_field_bound(b, 116, 12);
        lemma_field_bound(b, 128, 9);
        lemma_field_bound(b, 137, 6);
    }
    Ok(
        AisMessage::Position(
            VesselPosition {
                mmsi,
                latitude_raw: lat_raw,
                longitude_raw: lon_raw,
                speed_raw: if sog_raw == 1023 { None } else { Some(sog_raw) },
                course_raw: if cog_raw == 3600 { None } else { Some(cog_raw) },
                heading_degrees: if heading_raw == 511 { None } else { Some(heading_raw as u16) },
                nav_status: Some(nav_status),
                timestamp_second: Some(timestamp),
                source: PositionSource::Ais,
            },
        ),
    )
}

/// Reads the speed, position, course, heading and time stamp that class B
/// reports carry after an 8-bit reserved field.
fn read_class_b_core(bits: &mut BitCursor, mmsi: u32, nav_status: Option<u8>, source: PositionSource) -> (r: Result<VesselPosition>)
    requires
        is_binary(old(bits).bit_seq()),
        old(bits).position() == 38,
        old(bits).bit_seq().len() >= 38,
    ensures
        final(bits).bit_seq() == old(bits).bit_seq(),
        r is Err <==> old(bits).bit_seq().len() < 139,
        r matches Err(e) ==> e@ == Fault::InvalidAisPayload,
        r matches Ok(p) ==> p == position_at(old(bits).bit_seq(), 46, mmsi, nav_status, source)
            && final(bits).position() == 139,
{
    let ghost b = bits.bit_seq();
    bits.skip(8)?;
    let sog_raw = bits.read_u32(10)?;
    let _accuracy = bits.read_bool()?;
    let lon_raw = bits.read_signed(28)?;
    let lat_raw = bits.read_signed(27)?;
    let cog_raw = bits.read_u32(12)?;
    let heading_raw = bits.read_u32(9)?;
    let timestamp = bits.read_u8(6)?;
    proof {
        lemma2_to64();
        lemma_field_bound(b, 46, 10);
        lemma_field_bound(b, 112, 12);
        lemma_field_bound(b, 124, 9);
        lemma_field_bound(b, 133, 6);
    }
    Ok(
        VesselPosition {
            mmsi,
            latitude_raw: lat_raw,
            longitude_raw: lon_raw,
            speed_raw: if sog_raw == 1023 { None } else { Some(sog_raw) },
            course_raw: if cog_raw == 3600 { None } else { Some(cog_raw) },
            heading_degrees: if heading_raw == 511 { None } else { Some(heading_raw as u16) },
            nav_status,
            timestamp_second: Some(timestamp),
            source,
        },
    )
}

fn decode_class_b_position(mmsi: u32, bits: BitCursor) -> (r: Result<AisMessage>)
    requires
        is_binary(bits.bit_seq()),
        bits.position() == 38,
        bits.bit_seq().len() >= 38,
    ensures
        outcome(r, if bits.bit_seq().len() < 139 { Err(Fault::InvalidAisPayload) } else {
            Ok(SpecAisMessage::Position(position_at(bits.bit_seq(), 46, mmsi, None, PositionSource::AisB)))
        }),
{
    let mut bits = bits;
    let p = read_class_b_core(&mut bits, mmsi, None, PositionSource::AisB)?;
    Ok(AisMessage::Position(p))
}

fn decode_extended_class_b(mmsi: u32, bits: BitCursor) -> (r: Result<AisMessage>)
    requires
        is_binary(bits.bit_seq()),
        bits.position() == 38,
        bits.bit_seq().len() >= 38,
    ensures
        outcome(r, ais_decode_spec_19(bits.bit_seq(), mmsi)),
{
    let ghost b = bits.bit_seq();
    let mut bits = bits;
    let core = read_class_b_core(&mut bits, mmsi, None, PositionSource::AisB)?;
    bits.skip(4)?;
    let name = bits.read_text(20).ok();
    let ship_type = bits.read_u8(8).ok();
    proof {
        lemma2_to64();
        if b.len() >= 271 {
            lemma_field_bound(b, 263, 8);
        }
        if b.len() < 263 {
            assert(6 * ((b.len() - 143) / 6) + 8 > b.len() - 143) by (nonlinear_arith)
                requires b.len() >= 143;
        }
    }
    let source = match &name {
        Some(n) => if n.as_str().is_empty() { PositionSource::AisB } else { PositionSource::AisBExt },
        None => PositionSource::AisB,
    };
    Ok(AisMessage::Position(VesselPosition { nav_status: ship_type, source, ..core }))
}

/// Type 19: the class B report with the vessel's name and type.
pub open spec fn ais_decode_spec_19(b: Seq<u8>, mmsi: u32) -> core::result::Result<SpecAisMessage, Fault> {
    if b.len() < 143 {
        Err(Fault::InvalidAisPayload)
    } else {
        let name = text_at(b, 143, 20);
        let ship_type = if b.len() >= 271 { Some(field(b, 263, 8) as u8) } else { None };
        let source = match name {
            Some(n) => if n.len() == 0 { PositionSource::AisB } else { PositionSource::AisBExt },
            None => PositionSource::AisB,
        };
        Ok(SpecAisMessage::Position(position_at(b, 46, mmsi, ship_type, source)))
    }
}

/// A text field where it is not blank, trimmed.
fn empty_to_none(s: String) -> (r: Option<String>)
    ensures
        r.deep_view() == empty_to_none_spec(s@),
{
    let t = trim_chars(chars_of(s.as_str()).as_slice());
    if t.len() == 0 {
        None
    } else {
        Some(string_of(t.as_slice()))
    }
}

fn opt_empty_to_none(o: Option<String>) -> (r: Option<String>)
    ensures
        r.deep_view() == opt_blank_to_none(o.deep_view()),
{
    match o {
        Some(s) => empty_to_none(s),
        None => None,
    }
}

fn decode_static_voyage(mmsi: u32, bits: BitCursor) -> (r: Result<AisMessage>)
    requires
        is_binary(bits.bit_seq()),
        bits.position() == 38,
        bits.bit_seq().len() >= 38,
    ensures
        outcome(r, if bits.bit_seq().len() < 296 { Err(Fault::InvalidAisPayload) } else {
            let b = bits.bit_seq();
            let imo = field(b, 40, 30) as u32;
            let draught = field(b, 288, 8) as u8;
            Ok(SpecAisMessage::Static(SpecStatic {
                mmsi,
                imo: if imo == 0 { None } else { Some(imo) },
                callsign: empty_to_none_spec(trim(text_chars(b, 70, 7))),
                name: empty_to_none_spec(trim(text_chars(b, 112, 20))),
                ship_type: Some(field(b, 232, 8) as u8),
                draught_dm: if draught == 0 { None } else { Some(draught) },
                destination: text_at(b, 296, 20),
            }))
        }),
{
    let ghost b = bits.bit_seq();
    let mut bits = bits;
    bits.skip(2)?;
    let imo = bits.read_u32(30)?;
    let callsign = bits.read_text(7)?;
    let name = bits.read_text(20)?;
    let ship_type = bits.read_u8(8)?;
    bits.skip(30)?;
    bits.skip(4)?;
    bits.skip(4)?;
    bits.skip(5)?;
    bits.skip(5)?;
    let draught = bits.read_u8(8)?;
    let destination = bits.read_text(20).ok();
    proof {
        lemma2_to64();
        lemma_field_bound(b, 40, 30);
        lemma_field_bound(b, 232, 8);
        lemma_field_bound(b, 288, 8);
    }
    Ok(
        AisMessage::Static(
            VesselStatic {
                mmsi,
                imo: if imo == 0 { None } else { Some(imo) },
                callsign: empty_to_none(callsign),
                name: empty_to_none(name),
                ship_type: Some(ship_type),
                draught_dm: if draught == 0 { None } else { Some(draught) },
                destination,
            },
        ),
    )
}

fn decode_static_data_report(mmsi: u32, bits: BitCursor) -> (r: Result<AisMessage>)
    requires
        is_binary(bits.bit_seq()),
        bits.position() == 38,
        bits.bit_seq().len() >= 38,
    ensures
        outcome(r, ais_decode_spec_24(bits.bit_seq(), mmsi)),
{
    let ghost b = bits.bit_seq();
    let mut bits = bits;
    let part_no = bits.read_u8(2)?;
    proof {
        lemma2_to64();
        lemma_field_bound(b, 38, 2);
    }
    if part_no == 0 {
        let name = bits.read_text(20)?;
        Ok(
            AisMessage::Static(
                VesselStatic {
                    mmsi,
                    imo: None,
                    callsign: None,
                    name: empty_to_none(name),
                    ship_type: None,
                    draught_dm: None,
                    destination: None,
                },
            ),
        )
    } else {
        let ship_type = bits.read_u8(8)?;
        let vendor = bits.read_text(7).ok();
        let callsign = bits.read_text(7).ok();
        proof {
            lemma_field_bound(b, 40, 8);
            if b.len() < 90 {
                assert(6 * ((b.len() - 48) / 6) + 42 > b.len() - 48) by (nonlinear_arith)
                    requires b.len() >= 48;
            }
        }
        Ok(
            AisMessage::Static(
                VesselStatic {
                    mmsi,
                    imo: None,
                    callsign: opt_empty_to_none(callsign),
                    name: opt_empty_to_none(vendor),
                    ship_type: Some(ship_type),
                    draught_dm: None,
                    destination: None,
                },
            ),
        )
    }
}

/// Type 24: the static data report, part A (name) or part B (type, vendor, call sign).
pub open spec fn ais_decode_spec_24(b: Seq<u8>, mmsi: u32) -> core::result::Result<SpecAisMessage, Fault> {
    if b.len() < 40 {
        Err(Fault::InvalidAisPayload)
    } else if field(b, 38, 2) == 0 {
        if b.len() < 160 {
            Err(Fault::InvalidAisPayload)
        } else {
            Ok(SpecAisMessage::Static(SpecStatic {
                name: empty_to_none_spec(trim(text_chars(b, 40, 20))),
                ..static_of(mmsi)
            }))
        }
    } else if b.len() < 48 {
        Err(Fault::InvalidAisPayload)
    } else {
        Ok(SpecAisMessage::Static(SpecStatic {
            callsign: opt_blank_to_none(text_at(b, 90, 7)),
            name: opt_blank_to_none(text_at(b, 48, 7)),
            ship_type: Some(field(b, 40, 8) as u8),
            ..static_of(mmsi)
        }))
    }
}

fn decode_base_station(mmsi: u32, bits: BitCursor) -> (r: Result<AisMessage>)
    requires
        is_binary(bits.bit_seq()),
        bits.position() == 38,
        bits.bit_seq().len() >= 38,
    ensures
        outcome(r, if bits.bit_seq().len() < 78 { Err(Fault::InvalidAisPayload) } else {
            let b = bits.bit_seq();
            Ok(SpecAisMessage::BaseStation {
                mmsi,
                year: field(b, 38, 14) as u16,
                month: field(b, 52, 4) as u8,
                day: field(b, 56, 5) as u8,
                hour: field(b, 61, 5) as u8,
                minute: field(b, 66, 6) as u8,
                second: field(b, 72, 6) as u8,
            })
        }),
{
    let ghost b = bits.bit_seq();
    let mut bits = bits;
    let year = bits.read_u32(14)?;
    let month = bits.read_u8(4)?;
    let day = bits.read_u8(5)?;
    let hour = bits.read_u8(5)?;
    let minute = bits.read_u8(6)?;
    let second = bits.read_u8(6)?;
    proof {
        lemma2_to64();
        lemma_field_bound(b, 38, 14);
        lemma_field_bound(b, 52, 4);
        lemma_field_bound(b, 56, 5);
        lemma_field_bound(b, 61, 5);
        lemma_field_bound(b, 66, 6);
        lemma_field_bound(b, 72, 6);
    }
    Ok(AisMessage::BaseStation { mmsi, year: year as u16, month, day, hour, minute, second })
}

} // verus!
