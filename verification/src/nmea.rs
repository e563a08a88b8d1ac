//! NMEA 0183 sentences: framing, checksum and the GPS sentence types.
use vstd::prelude::*;
use vstd::utf8::encode_utf8;
use crate::bitcursor::{nmea_checksum, xor_all};
use crate::error::{HarborError, Result, Fault, outcome};
use crate::model::{FeedEvent, GpsFix, CoordText, SpecCoord, SpecGpsFix, SpecEvent};
use crate::text::{
    trim, split_on, utf8_len, prefix_chars, last_index, parse_u8_spec, chars_of, trim_chars,
    find_last, lemma_last_index, has_bytes, prefix_chars_at, lemma_prefix_chars_bound, copy_range,
    string_of, string_of_range, parse_u8_radix, split_chars, lemma_split_nonempty, strings_from,
    eq_lit, concat,
};

verus! {

/// A framed NMEA sentence: `$` or `!`, the talker and formatter, the fields,
/// and the checksum it carries.
#[derive(Debug, Clone)]
pub struct NmeaSentence {
    pub start: char,
    pub talker: String,
    pub formatter: String,
    pub fields: Vec<String>,
    pub checksum: u8,
    pub checksum_valid: bool,
    pub body: String,
}

pub struct SpecSentence {
    pub start: char,
    pub talker: Seq<char>,
    pub formatter: Seq<char>,
    pub fields: Seq<Seq<char>>,
    pub checksum: u8,
    pub checksum_valid: bool,
    pub body: Seq<char>,
}

impl View for NmeaSentence {
    type V = SpecSentence;

    open spec fn view(&self) -> SpecSentence {
        SpecSentence {
            start: self.start,
            talker: self.talker@,
            formatter: self.formatter@,
            fields: self.fields.deep_view(),
            checksum: self.checksum,
            checksum_valid: self.checksum_valid,
            body: self.body@,
        }
    }
}

/// What framing `line` gives. A checksum whose two bytes split a
/// multi-byte character counts as missing, and a header whose two-byte
/// talker splits one is an invalid header.
pub open spec fn sentence_spec(line: Seq<char>) -> core::result::Result<SpecSentence, Fault> {
    let t = trim(line);
    if t.len() == 0 {
        Err(Fault::EmptyInput)
    } else if t[0] != '$' && t[0] != '!' {
        Err(Fault::InvalidNmeaStart)
    } else {
        let star = last_index(t, '*');
        if star < 0 {
            Err(Fault::MissingNmeaChecksum)
        } else {
            let after = t.skip(star + 1);
            if utf8_len(after) < 2 {
                Err(Fault::MissingNmeaChecksum)
            } else {
                match prefix_chars(after, 2) {
                    None => Err(Fault::MissingNmeaChecksum),
                    Some(k) => match parse_u8_spec(after.take(k as int), 16) {
                        None => Err(Fault::MissingNmeaChecksum),
                        Some(sum) => {
                            let body = t.subrange(1, star);
                            let parts = split_on(body, ',');
                            let header = parts[0];
                            if utf8_len(header) < 3 {
                                Err(Fault::InvalidNmeaField("header"@))
                            } else {
                                match prefix_chars(header, 2) {
                                    None => Err(Fault::InvalidNmeaField("header"@)),
                                    Some(h) => Ok(
                                        SpecSentence {
                                            start: t[0],
                                            talker: header.take(h as int),
                                            formatter: header.skip(h as int),
                                            fields: parts.drop_first(),
                                            checksum: sum,
                                            checksum_valid: xor_all(encode_utf8(body)) == sum,
                                            body,
                                        },
                                    ),
                                }
                            }
                        },
                    },
                }
            }
        }
    }
}

/// Frames one NMEA sentence and checks its checksum.
pub fn parse_sentence(line: &str) -> (r: Result<NmeaSentence>)
    ensures
        outcome(r, sentence_spec(line@)),
{
    let v = chars_of(line);
    let t = trim_chars(v.as_slice());
    if t.len() == 0 {
        return Err(HarborError::EmptyInput);
    }
    let start = t[0];
    if start != '$' && start != '!' {
        return Err(HarborError::InvalidNmeaStart);
    }
    proof {
        lemma_last_index(t@, '*');
    }
    let star = match find_last(t.as_slice(), '*') {
        Some(i) => i,
        None => {
            return Err(HarborError::MissingNmeaChecksum);
        },
    };
    if !has_bytes(t.as_slice(), star + 1, 2) {
        return Err(HarborError::MissingNmeaChecksum);
    }
    let k = match prefix_chars_at(t.as_slice(), star + 1, 2) {
        Some(k) => k,
        None => {
            return Err(HarborError::MissingNmeaChecksum);
        },
    };
    proof {
        lemma_prefix_chars_bound(t@.skip(star + 1), 2);
    }
    let ct = copy_range(t.as_slice(), star + 1, star + 1 + k);
    assert(ct@ =~= t@.skip(star + 1).take(k as int));
    let checksum = match parse_u8_radix(ct.as_slice(), 16) {
        Some(c) => c,
        None => {
            return Err(HarborError::MissingNmeaChecksum);
        },
    };
    let body_chars = copy_range(t.as_slice(), 1, star);
    let body = string_of(body_chars.as_slice());
    let computed = nmea_checksum(body.as_str());
    let parts = split_chars(body_chars.as_slice(), ',');
    proof {
        lemma_split_nonempty(body_chars@, ',');
    }
    let header = &parts[0];
    if !has_bytes(header.as_slice(), 0, 3) {
        assert(header@.skip(0) =~= header@);
        return Err(HarborError::InvalidNmeaField("header"));
    }
    assert(header@.skip(0) =~= header@);
    let h = match prefix_chars_at(header.as_slice(), 0, 2) {
        Some(h) => h,
        None => {
            return Err(HarborError::InvalidNmeaField("header"));
        },
    };
    proof {
        lemma_prefix_chars_bound(header@, 2);
    }
    let talker = string_of_range(header.as_slice(), 0, h);
    let formatter = string_of_range(header.as_slice(), h, header.len());
    let fields = strings_from(&parts, 1);
    let ghost spec_parts = split_on(body_chars@, ',');
    assert(talker@ =~= header@.take(h as int));
    assert(formatter@ =~= header@.skip(h as int));
    assert(fields.deep_view() =~= spec_parts.drop_first());
    Ok(
        NmeaSentence {
            start,
            talker,
            formatter,
            fields,
            checksum,
            checksum_valid: computed == checksum,
            body,
        },
    )
}

/// The field at `i`, if the sentence has one.
pub open spec fn field_at(s: SpecSentence, i: int) -> Option<Seq<char>> {
    if 0 <= i < s.fields.len() {
        Some(s.fields[i])
    } else {
        None
    }
}

/// A field's text where it is not empty.
pub open spec fn text_opt(t: Seq<char>) -> Option<Seq<char>> {
    if t.len() == 0 {
        None
    } else {
        Some(t)
    }
}

/// A coordinate written as `value` (`deg_digits` degree digits, then minutes)
/// and hemisphere letter `hemi`, where it has that shape.
pub open spec fn coord_spec(value: Seq<char>, hemi: Seq<char>, deg_digits: nat) -> Option<SpecCoord> {
    if utf8_len(value) < deg_digits + 2 || hemi.len() == 0 {
        None
    } else {
        match prefix_chars(value, deg_digits) {
            None => None,
            Some(k) => if hemi[0] == 'S' || hemi[0] == 'W' {
                Some(SpecCoord { degrees: value.take(k as int), minutes: value.skip(k as int), negative: true })
            } else if hemi[0] == 'N' || hemi[0] == 'E' {
                Some(SpecCoord { degrees: value.take(k as int), minutes: value.skip(k as int), negative: false })
            } else {
                None
            },
        }
    }
}

pub open spec fn empty_fix(talker: Seq<char>) -> SpecGpsFix {
    SpecGpsFix {
        talker,
        latitude: None,
        longitude: None,
        speed_knots: None,
        course_degrees: None,
        altitude_m: None,
        fix_quality: None,
        satellites: None,
        utc_time: None,
        date: None,
    }
}

pub open spec fn missing(name: Seq<char>) -> core::result::Result<SpecGpsFix, Fault> {
    Err(Fault::InvalidNmeaField(name))
}

/// A GGA sentence: time, position, fix quality, satellites and altitude.
pub open spec fn gga_spec(s: SpecSentence) -> core::result::Result<SpecGpsFix, Fault> {
    let n = s.fields.len();
    let f = s.fields;
    if n == 0 {
        missing("gga time"@)
    } else if n == 1 {
        missing("gga lat"@)
    } else if n == 2 {
        missing("gga ns"@)
    } else if n == 3 {
        missing("gga lon"@)
    } else if n == 4 {
        missing("gga ew"@)
    } else if n == 5 {
        missing("gga quality"@)
    } else if n == 6 {
        missing("gga satellites"@)
    } else if n < 9 {
        missing("gga altitude"@)
    } else {
        Ok(SpecGpsFix {
            latitude: coord_spec(f[1], f[2], 2),
            longitude: coord_spec(f[3], f[4], 3),
            altitude_m: text_opt(f[8]),
            fix_quality: parse_u8_spec(f[5], 10),
            satellites: parse_u8_spec(f[6], 10),
            utc_time: Some(f[0]),
            ..empty_fix(s.talker)
        })
    }
}

/// An RMC sentence: time, status, position where the status is `A`, speed,
/// course and date.
pub open spec fn rmc_spec(s: SpecSentence) -> core::result::Result<SpecGpsFix, Fault> {
    let n = s.fields.len();
    let f = s.fields;
    if n == 0 {
        missing("rmc time"@)
    } else if n == 1 {
        missing("rmc status"@)
    } else {
        let active = f[1] == "A"@;
        if active && n == 2 {
            missing("rmc lat"@)
        } else if active && n == 3 {
            missing("rmc ns"@)
        } else if active && n == 4 {
            missing("rmc lon"@)
        } else if active && n == 5 {
            missing("rmc ew"@)
        } else if n <= 6 {
            missing("rmc speed"@)
        } else if n == 7 {
            missing("rmc course"@)
        } else if n == 8 {
            missing("rmc date"@)
        } else {
            Ok(SpecGpsFix {
                latitude: if active { coord_spec(f[2], f[3], 2) } else { None },
                longitude: if active { coord_spec(f[4], f[5], 3) } else { None },
                speed_knots: text_opt(f[6]),
                course_degrees: text_opt(f[7]),
                utc_time: Some(f[0]),
                date: Some(f[8]),
                ..empty_fix(s.talker)
            })
        }
    }
}

/// A GLL sentence: position and time.
pub open spec fn gll_spec(s: SpecSentence) -> core::result::Result<SpecGpsFix, Fault> {
    let n = s.fields.len();
    let f = s.fields;
    if n == 0 {
        missing("gll lat"@)
    } else if n == 1 {
        missing("gll ns"@)
    } else if n == 2 {
        missing("gll lon"@)
    } else if n == 3 {
        missing("gll ew"@)
    } else if n == 4 {
        missing("gll time"@)
    } else {
        Ok(SpecGpsFix {
            latitude: coord_spec(f[0], f[1], 2),
            longitude: coord_spec(f[2], f[3], 3),
            utc_time: Some(f[4]),
            ..empty_fix(s.talker)
        })
    }
}

/// A VTG sentence: course and speed in knots.
pub open spec fn vtg_spec(s: SpecSentence) -> core::result::Result<SpecGpsFix, Fault> {
    let n = s.fields.len();
    let f = s.fields;
    if n == 0 {
        missing("vtg course"@)
    } else if n < 5 {
        missing("vtg speed"@)
    } else {
        Ok(SpecGpsFix {
            course_degrees: text_opt(f[0]),
            speed_knots: text_opt(f[4]),
            ..empty_fix(s.talker)
        })
    }
}

/// An HDT sentence: the heading, reported as the course.
pub open spec fn hdt_spec(s: SpecSentence) -> core::result::Result<SpecGpsFix, Fault> {
    if s.fields.len() == 0 {
        missing("hdt heading"@)
    } else {
        Ok(SpecGpsFix { course_degrees: text_opt(s.fields[0]), ..empty_fix(s.talker) })
    }
}

/// A ZDA sentence: time, and the date as `year-month-day` where all three are given.
pub open spec fn zda_spec(s: SpecSentence) -> core::result::Result<SpecGpsFix, Fault> {
    let n = s.fields.len();
    let f = s.fields;
    if n == 0 {
        missing("zda time"@)
    } else if n == 1 {
        missing("zda day"@)
    } else if n == 2 {
        missing("zda month"@)
    } else if n == 3 {
        missing("zda year"@)
    } else {
        Ok(SpecGpsFix {
            utc_time: Some(f[0]),
            date: if f[1].len() == 0 || f[2].len() == 0 || f[3].len() == 0 {
                None
            } else {
                Some(f[3] + "-"@ + f[2] + "-"@ + f[1])
            },
            ..empty_fix(s.talker)
        })
    }
}

/// `h` begins with a hemisphere letter.
pub open spec fn is_hemisphere(h: Seq<char>) -> bool {
    h.len() > 0 && (h[0] == 'N' || h[0] == 'S' || h[0] == 'E' || h[0] == 'W')
}

/// `c` is what the coordinate field `value`, with hemisphere field `hemi`,
/// reads as: where there is a coordinate, the hemisphere is a letter, the
/// coordinate is negative exactly in the south and the west, and its
/// degrees and minutes are the field's text split in two; there is none
/// only where the hemisphere is not a letter or the text is too short or
/// splits a character at the end of the degrees.
pub open spec fn reads_coordinate(c: Option<SpecCoord>, value: Seq<char>, hemi: Seq<char>, digits: nat) -> bool {
    match c {
        Some(x) => {
            &&& is_hemisphere(hemi)
            &&& x.negative == (hemi[0] == 'S' || hemi[0] == 'W')
            &&& x.degrees + x.minutes == value
            &&& x.degrees.len() <= digits
        },
        None => !is_hemisphere(hemi) || utf8_len(value) < digits + 2 || prefix_chars(value, digits) is None,
    }
}

proof fn lemma_coord_reads(value: Seq<char>, hemi: Seq<char>, digits: nat)
    ensures
        reads_coordinate(coord_spec(value, hemi, digits), value, hemi, digits),
{
    lemma_prefix_chars_bound(value, digits);
    if let Some(c) = coord_spec(value, hemi, digits) {
        assert(c.degrees + c.minutes =~= value);
    }
}

/// The coordinates of a GGA, RMC or GLL fix are read from their fields:
/// GGA latitude and hemisphere in fields 1 and 2, longitude in 3 and 4; RMC
/// in fields 2 to 5 where its status (field 1) is `A`, and none otherwise;
/// GLL in fields 0 to 3. A coordinate in the south or the west is negative,
/// one in the north or the east is not.
pub proof fn lemma_fix_coordinates(s: SpecSentence)
    ensures
        gps_event_spec(s) matches Ok(SpecEvent::GpsFix(g)) ==> {
            let f = s.fields;
            &&& s.formatter == "GGA"@ ==> reads_coordinate(g.latitude, f[1], f[2], 2) && reads_coordinate(
                g.longitude,
                f[3],
                f[4],
                3,
            )
            &&& s.formatter == "RMC"@ && f[1] == "A"@ ==> reads_coordinate(g.latitude, f[2], f[3], 2)
                && reads_coordinate(g.longitude, f[4], f[5], 3)
            &&& s.formatter == "RMC"@ && f[1] != "A"@ ==> g.latitude is None && g.longitude is None
            &&& s.formatter == "GLL"@ ==> reads_coordinate(g.latitude, f[0], f[1], 2) && reads_coordinate(
                g.longitude,
                f[2],
                f[3],
                3,
            )
        },
{
    let f = s.fields;
    reveal_strlit("GGA");
    reveal_strlit("RMC");
    reveal_strlit("GLL");
    if f.len() > 4 {
        lemma_coord_reads(f[0], f[1], 2);
        lemma_coord_reads(f[1], f[2], 2);
        lemma_coord_reads(f[2], f[3], 2);
        lemma_coord_reads(f[2], f[3], 3);
        lemma_coord_reads(f[3], f[4], 3);
    }
    if f.len() > 5 {
        lemma_coord_reads(f[4], f[5], 3);
    }
    if let Ok(SpecEvent::GpsFix(g)) = gps_event_spec(s) {
        assert("GGA"@ != "RMC"@ && "GGA"@ != "GLL"@ && "RMC"@ != "GLL"@) by {
            assert("GGA"@[0] != "RMC"@[0]);
            assert("GGA"@[1] != "GLL"@[1]);
            assert("RMC"@[0] != "GLL"@[0]);
        }
        if s.formatter == "GGA"@ {
            assert(gga_spec(s) == Ok::<SpecGpsFix, Fault>(g));
            assert(reads_coordinate(g.latitude, f[1], f[2], 2));
            assert(reads_coordinate(g.longitude, f[3], f[4], 3));
        } else if s.formatter == "RMC"@ {
            assert(rmc_spec(s) == Ok::<SpecGpsFix, Fault>(g));
            if f[1] == "A"@ {
                assert(reads_coordinate(g.latitude, f[2], f[3], 2));
                assert(reads_coordinate(g.longitude, f[4], f[5], 3));
            }
        } else if s.formatter == "GLL"@ {
            assert(gll_spec(s) == Ok::<SpecGpsFix, Fault>(g));
            assert(reads_coordinate(g.latitude, f[0], f[1], 2));
            assert(reads_coordinate(g.longitude, f[2], f[3], 3));
        }
    }
}

pub open spec fn fix_event(r: core::result::Result<SpecGpsFix, Fault>) -> core::result::Result<SpecEvent, Fault> {
    match r {
        Ok(g) => Ok(SpecEvent::GpsFix(g)),
        Err(e) => Err(e),
    }
}

/// The GPS event of a sentence, by its formatter.
pub open spec fn gps_event_spec(s: SpecSentence) -> core::result::Result<SpecEvent, Fault> {
    if s.formatter == "GGA"@ {
        fix_event(gga_spec(s))
    } else if s.formatter == "RMC"@ {
        fix_event(rmc_spec(s))
    } else if s.formatter == "GLL"@ {
        fix_event(gll_spec(s))
    } else if s.formatter == "VTG"@ {
        fix_event(vtg_spec(s))
    } else if s.formatter == "HDT"@ {
        fix_event(hdt_spec(s))
    } else if s.formatter == "ZDA"@ {
        fix_event(zda_spec(s))
    } else {
        Err(Fault::UnsupportedSentence(s.formatter))
    }
}

/// Decodes a GPS sentence by its formatter.
pub fn parse_gps_event(sentence: &NmeaSentence) -> (r: Result<FeedEvent>)
    ensures
        outcome(r, gps_event_spec(sentence@)),
{
    let f = chars_of(sentence.formatter.as_str());
    if eq_lit(f.as_slice(), "GGA") {
        Ok(FeedEvent::GpsFix(parse_gga(sentence)?))
    } else if eq_lit(f.as_slice(), "RMC") {
        Ok(FeedEvent::GpsFix(parse_rmc(sentence)?))
    } else if eq_lit(f.as_slice(), "GLL") {
        Ok(FeedEvent::GpsFix(parse_gll(sentence)?))
    } else if eq_lit(f.as_slice(), "VTG") {
        Ok(FeedEvent::GpsFix(parse_vtg(sentence)?))
    } else if eq_lit(f.as_slice(), "HDT") {
        Ok(FeedEvent::GpsFix(parse_hdt(sentence)?))
    } else if eq_lit(f.as_slice(), "ZDA") {
        Ok(FeedEvent::GpsFix(parse_zda(sentence)?))
    } else {
        Err(HarborError::UnsupportedSentence(sentence.formatter.clone()))
    }
}

/// The field at `index`, or the error that names it.
fn field<'a>(sentence: &'a NmeaSentence, index: usize, name: &'static str) -> (r: Result<&'a String>)
    ensures
        index < sentence@.fields.len() ==> (r matches Ok(x) && x@ == sentence@.fields[index as int]),
        index >= sentence@.fields.len() ==> (r matches Err(e) && e@ == Fault::InvalidNmeaField(name@)),
{
    if index < sentence.fields.len() {
        Ok(&sentence.fields[index])
    } else {
        Err(HarborError::InvalidNmeaField(name))
    }
}

/// A field parsed as `u8`, where it is not empty and parses.
fn parse_u8_opt(text: &String) -> (r: Option<u8>)
    ensures
        r == parse_u8_spec(text@, 10),
{
    let v = chars_of(text.as_str());
    parse_u8_radix(v.as_slice(), 10)
}

/// A field's text where it is not empty.
fn parse_text_opt(text: &String) -> (r: Option<String>)
    ensures
        r.deep_view() == text_opt(text@),
{
    if text.as_str().is_empty() {
        None
    } else {
        Some(text.clone())
    }
}

/// A coordinate field and its hemisphere, where they have the shape of one.
fn parse_lat_lon(value: &String, hemi: &String, deg_digits: usize) -> (r: Option<CoordText>)
    requires
        deg_digits <= 3,
    ensures
        crate::model::coord_view(r) == coord_spec(value@, hemi@, deg_digits as nat),
{
    let v = chars_of(value.as_str());
    let h = chars_of(hemi.as_str());
    assert(v@.skip(0) =~= v@);
    if !has_bytes(v.as_slice(), 0, deg_digits + 2) || h.len() == 0 {
        return None;
    }
    let k = match prefix_chars_at(v.as_slice(), 0, deg_digits) {
        Some(k) => k,
        None => {
            return None;
        },
    };
    proof {
        lemma_prefix_chars_bound(v@, deg_digits as nat);
    }
    let negative = if h[0] == 'S' || h[0] == 'W' {
        true
    } else if h[0] == 'N' || h[0] == 'E' {
        false
    } else {
        return None;
    };
    let degrees = string_of_range(v.as_slice(), 0, k);
    let minutes = string_of_range(v.as_slice(), k, v.len());
    assert(degrees@ =~= v@.take(k as int));
    assert(minutes@ =~= v@.skip(k as int));
    Some(CoordText { degrees, minutes, negative })
}

pub fn parse_gga(sentence: &NmeaSentence) -> (r: Result<GpsFix>)
    ensures
        outcome(r, gga_spec(sentence@)),
{
    let utc_time = field(sentence, 0, "gga time")?.clone();
    let latitude = parse_lat_lon(field(sentence, 1, "gga lat")?, field(sentence, 2, "gga ns")?, 2);
    let longitude = parse_lat_lon(field(sentence, 3, "gga lon")?, field(sentence, 4, "gga ew")?, 3);
    let fix_quality = parse_u8_opt(field(sentence, 5, "gga quality")?);
    let satellites = parse_u8_opt(field(sentence, 6, "gga satellites")?);
    let altitude_m = parse_text_opt(field(sentence, 8, "gga altitude")?);
    Ok(
        GpsFix {
            talker: sentence.talker.clone(),
            latitude,
            longitude,
            speed_knots: None,
            course_degrees: None,
            altitude_m,
            fix_quality,
            satellites,
            utc_time: Some(utc_time),
            date: None,
        },
    )
}

pub fn parse_rmc(sentence: &NmeaSentence) -> (r: Result<GpsFix>)
    ensures
        outcome(r, rmc_spec(sentence@)),
{
    let utc_time = field(sentence, 0, "rmc time")?.clone();
    let status = field(sentence, 1, "rmc status")?;
    let sv = chars_of(status.as_str());
    let active = eq_lit(sv.as_slice(), "A");
    let latitude = if active {
        parse_lat_lon(field(sentence, 2, "rmc lat")?, field(sentence, 3, "rmc ns")?, 2)
    } else {
        None
    };
    let longitude = if active {
        parse_lat_lon(field(sentence, 4, "rmc lon")?, field(sentence, 5, "rmc ew")?, 3)
    } else {
        None
    };
    let speed_knots = parse_text_opt(field(sentence, 6, "rmc speed")?);
    let course_degrees = parse_text_opt(field(sentence, 7, "rmc course")?);
    let date = Some(field(sentence, 8, "rmc date")?.clone());
    Ok(
        GpsFix {
            talker: sentence.talker.clone(),
            latitude,
            longitude,
            speed_knots,
            course_degrees,
            altitude_m: None,
            fix_quality: None,
            satellites: None,
            utc_time: Some(utc_time),
            date,
        },
    )
}

pub fn parse_gll(sentence: &NmeaSentence) -> (r: Result<GpsFix>)
    ensures
        outcome(r, gll_spec(sentence@)),
{
    let latitude = parse_lat_lon(field(sentence, 0, "gll lat")?, field(sentence, 1, "gll ns")?, 2);
    let longitude = parse_lat_lon(field(sentence, 2, "gll lon")?, field(sentence, 3, "gll ew")?, 3);
    let utc_time = Some(field(sentence, 4, "gll time")?.clone());
    Ok(
        GpsFix {
            talker: sentence.talker.clone(),
            latitude,
            longitude,
            speed_knots: None,
            course_degrees: None,
            altitude_m: None,
            fix_quality: None,
            satellites: None,
            utc_time,
            date: None,
        },
    )
}

pub fn parse_vtg(sentence: &NmeaSentence) -> (r: Result<GpsFix>)
    ensures
        outcome(r, vtg_spec(sentence@)),
{
    let course_degrees = parse_text_opt(field(sentence, 0, "vtg course")?);
    let speed_knots = parse_text_opt(field(sentence, 4, "vtg speed")?);
    Ok(
        GpsFix {
            talker: sentence.talker.clone(),
            latitude: None,
            longitude: None,
            speed_knots,
            course_degrees,
            altitude_m: None,
            fix_quality: None,
            satellites: None,
            utc_time: None,
            date: None,
        },
    )
}

pub fn parse_hdt(sentence: &NmeaSentence) -> (r: Result<GpsFix>)
    ensures
        outcome(r, hdt_spec(sentence@)),
{
    let course_degrees = parse_text_opt(field(sentence, 0, "hdt heading")?);
    Ok(
        GpsFix {
            talker: sentence.talker.clone(),
            latitude: None,
            longitude: None,
            speed_knots: None,
            course_degrees,
            altitude_m: None,
            fix_quality: None,
            satellites: None,
            utc_time: None,
            date: None,
        },
    )
}

pub fn parse_zda(sentence: &NmeaSentence) -> (r: Result<GpsFix>)
    ensures
        outcome(r, zda_spec(sentence@)),
{
    let utc_time = Some(field(sentence, 0, "zda time")?.clone());
    let day = field(sentence, 1, "zda day")?;
    let month = field(sentence, 2, "zda month")?;
    let year = field(sentence, 3, "zda year")?;
    let date = if day.as_str().is_empty() || month.as_str().is_empty() || year.as_str().is_empty() {
        None
    } else {
        let a = concat(year.as_str(), "-");
        let b = concat(a.as_str(), month.as_str());
        let c = concat(b.as_str(), "-");
        Some(concat(c.as_str(), day.as_str()))
    };
    Ok(
        GpsFix {
            talker: sentence.talker.clone(),
            latitude: None,
            longitude: None,
            speed_knots: None,
            course_degrees: None,
            altitude_m: None,
            fix_quality: None,
            satellites: None,
            utc_time,
            date,
        },
    )
}

/// The talker and formatter of a sentence, as one name.
pub fn sentence_name(sentence: &NmeaSentence) -> (r: String)
    ensures
        r@ == sentence@.talker + sentence@.formatter,
{
    concat(sentence.talker.as_str(), sentence.formatter.as_str())
}

} // verus!
