//! Consistency checks over a parsed feed.
use vstd::prelude::*;
use vstd::arithmetic::power2::{pow2, lemma2_to64, lemma_pow2_unfold, lemma_pow2_strictly_increases};
use crate::bitcursor::{pow2_u64, checksum64, checksum64_spec};
use crate::model::{SpecTide, material_spec, Feed, FeedEvent, ValidationFinding, SpecFinding, SpecEvent, VesselPosition, seq_view};
use crate::text::{decimal, utf8_len, decimal_chars, string_of, chars_of, char_width, lemma_utf8_len_take};

verus! {

/// `floor(log2(n / 10))` for `n >= 10`: the binary exponent of `n / 10`.
pub open spec fn tenths_exponent(n: nat) -> nat
    decreases n,
{
    if n < 20 {
        0
    } else {
        1 + tenths_exponent(n / 2)
    }
}

/// `num / den` rounded to the nearest integer, ties to even.
pub open spec fn round_half_even(num: nat, den: nat) -> nat {
    let q = num / den;
    let r = num % den;
    if 2 * r > den || (2 * r == den && q % 2 == 1) {
        q + 1
    } else {
        q
    }
}

/// The number of low bits of `n` that do not fit a 24-bit significand.
pub open spec fn excess_bits(n: nat) -> nat
    decreases n,
{
    if n < 0x100_0000 {
        0
    } else {
        1 + excess_bits(n / 2)
    }
}

/// The value of `n as f32`: `n` rounded to 24 significant bits, to nearest,
/// ties to even.
pub open spec fn f32_of_int(n: nat) -> nat {
    let s = excess_bits(n);
    round_half_even(n, pow2(s)) * pow2(s)
}

/// The IEEE 754 binary32 encoding of the number nearest to `n / 10`, for
/// `n >= 10` (a normal number): the biased exponent `127 + e` and the 23
/// fraction bits of the significand `m`, rounded to nearest, ties to even.
pub open spec fn tenths_f32_bits(n: nat) -> u32 {
    let e = tenths_exponent(n);
    let m = round_half_even(n * pow2(23), 10 * pow2(e));
    if m >= pow2(24) {
        ((128 + e) * pow2(23)) as u32
    } else {
        ((127 + e) * pow2(23) + m - pow2(23)) as u32
    }
}

proof fn lemma_tenths_exponent_bound(n: nat, k: nat)
    requires
        n < pow2(k + 4),
    ensures
        tenths_exponent(n) <= k,
    decreases n,
{
    if n >= 20 {
        lemma_pow2_unfold(k + 4);
        if k == 0 {
            lemma2_to64();
        } else {
            lemma_tenths_exponent_bound(n / 2, (k - 1) as nat);
        }
    }
}

/// What `(n as f32 / 10.0).to_bits()` gives, for `n >= 10`.
pub open spec fn speed_f32_bits(n: nat) -> u32 {
    tenths_f32_bits(f32_of_int(n))
}

proof fn lemma_excess_bits_bound(n: nat, k: nat)
    requires
        n < pow2(k + 24),
    ensures
        excess_bits(n) <= k,
    decreases n,
{
    if n >= 0x100_0000 {
        lemma_pow2_unfold(k + 24);
        if k == 0 {
            lemma2_to64();
        } else {
            lemma_excess_bits_bound(n / 2, (k - 1) as nat);
        }
    }
}

/// The value of `n as f32`, as an integer.
fn int_to_f32_value(n: u32) -> (v: u64)
    ensures
        v == f32_of_int(n as nat),
        v <= 0x1_0000_0000,
        n >= 10 ==> v >= 10,
{
    let mut x: u32 = n;
    let mut s: u64 = 0;
    proof {
        lemma2_to64();
        lemma_excess_bits_bound(n as nat, 8);
    }
    while x >= 0x100_0000
        invariant
            excess_bits(n as nat) == s + excess_bits(x as nat),
            excess_bits(n as nat) <= 8,
        decreases x,
    {
        s = s + 1;
        x = x / 2;
    }
    let d = pow2_u64(s as u32);
    proof {
        lemma2_to64();
        if s < 8 {
            lemma_pow2_strictly_increases(s as nat, 8);
        }
    }
    let q = n as u64 / d;
    let r = n as u64 % d;
    let m = if 2 * r > d || (2 * r == d && q % 2 == 1) { q + 1 } else { q };
    let ghost k = pow2((32 - s) as nat);
    proof {
        vstd::arithmetic::power2::lemma_pow2_adds(s as nat, (32 - s) as nat);
        assert(k * d == 0x1_0000_0000);
        assert(q * d <= n) by (nonlinear_arith)
            requires q == n as u64 / d, d >= 1;
        assert(q < k) by (nonlinear_arith)
            requires q * d <= n, n < k * d, d >= 1;
    }
    assert(m * d <= 0x1_0000_0000) by (nonlinear_arith)
        requires m <= q + 1, q < k, k * d == 0x1_0000_0000, d >= 1;
    assert(m * d + d > n) by (nonlinear_arith)
        requires m >= q, q == n as u64 / d, d >= 1, r == n as u64 % d;
    m * d
}

/// `(n as f32 / 10.0).to_bits()`, for `n >= 10`.
fn speed_to_f32_bits(n: u32) -> (b: u32)
    requires
        n >= 10,
    ensures
        b == speed_f32_bits(n as nat),
{
    let v = int_to_f32_value(n);
    tenths_to_f32_bits(v)
}

/// The bits of the `f32` nearest to `n / 10`, for `10 <= n <= 2^32`.
fn tenths_to_f32_bits(n: u64) -> (b: u32)
    requires
        10 <= n <= 0x1_0000_0000,
    ensures
        b == tenths_f32_bits(n as nat),
{
    let mut x: u64 = n;
    let mut e: u64 = 0;
    proof {
        lemma2_to64();
        vstd::arithmetic::power2::lemma2_to64_rest();
        lemma_tenths_exponent_bound(n as nat, 29);
    }
    while x >= 20
        invariant
            tenths_exponent(n as nat) == e + tenths_exponent(x as nat),
            tenths_exponent(n as nat) <= 29,
        decreases x,
    {
        e = e + 1;
        x = x / 2;
    }
    proof {
        lemma2_to64();
        if e < 29 {
            lemma_pow2_strictly_increases(e as nat, 29);
        }
        lemma_pow2_strictly_increases(29, 32);
    }
    let scale = pow2_u64(e as u32);
    let num: u64 = n * 0x80_0000u64;
    let den: u64 = 10 * scale;
    let q = num / den;
    let r = num % den;
    let m = if 2 * r > den || (2 * r == den && q % 2 == 1) { q + 1 } else { q };
    assert(m == round_half_even(n as nat * pow2(23), 10 * pow2(e as nat)));
    proof {
        lemma_pow2_strictly_increases(23, 24);
        assert(m <= num) by (nonlinear_arith)
            requires m <= q + 1, q == num / den, den >= 10, num >= 0x80_0000 * 10;
        assert(num == n * pow2(23));
    }
    if m >= 0x100_0000u64 {
        ((128 + e) * 0x80_0000u64) as u32
    } else {
        ((127 + e) * 0x80_0000u64 + m - 0x80_0000u64) as u32
    }
}

/// The position lies within WGS84 bounds: latitude within 90 degrees and
/// longitude within 180 degrees of zero, in units of 1/600000 degree.
pub open spec fn in_wgs84_bounds(p: VesselPosition) -> bool {
    -54_000_000 <= p.latitude_raw <= 54_000_000 && -108_000_000 <= p.longitude_raw <= 108_000_000
}

/// A residual, given by the bits of an `f32`, exceeds 2.5 metres in
/// magnitude (`NaN` does not).
pub open spec fn residual_alert(bits: u32) -> bool {
    let mag = bits % 0x8000_0000;
    mag > 0x4020_0000 && mag <= 0x7f80_0000
}

pub open spec fn one_finding(rule_id: u16, severity: u8, subject: Seq<char>, message: Seq<char>, evidence: u64) -> Seq<SpecFinding> {
    seq![SpecFinding { rule_id, severity, subject, message, evidence }]
}

pub open spec fn when(c: bool, s: Seq<SpecFinding>) -> Seq<SpecFinding> {
    if c {
        s
    } else {
        Seq::empty()
    }
}

/// The findings about one event: positions out of bounds (10) or too fast
/// (11, over 80 knots), cargo without an equipment identifier (20) or
/// dangerous goods without a location (21), tides far from prediction (40),
/// and messages without segments (50).
pub open spec fn event_findings(e: SpecEvent, digest: u64) -> Seq<SpecFinding> {
    match e {
        SpecEvent::VesselPosition(p) => when(
            !in_wgs84_bounds(p),
            one_finding(10, 9, decimal(p.mmsi as nat), "vessel position is outside valid WGS84 bounds"@, digest),
        ) + match p.speed_raw {
            Some(s) => when(
                s > 800,
                one_finding(11, 6, decimal(p.mmsi as nat), "AIS speed over ground is implausibly high"@, speed_f32_bits(s as nat) as u64),
            ),
            None => Seq::empty(),
        },
        SpecEvent::CargoEvent(c) => when(
            match c.equipment_id {
                Some(id) => utf8_len(id) < 4,
                None => true,
            },
            one_finding(20, 4, "cargo"@, "container or equipment identifier is missing"@, digest),
        ) + when(
            c.dangerous_goods && c.location is None,
            one_finding(21, 7, "dangerous-goods"@, "dangerous goods event has no location qualifier"@, digest),
        ),
        SpecEvent::TideReading(t) => match t.residual_bits {
            Some(b) => when(
                residual_alert(b),
                one_finding(40, 5, t.station, "observed tide differs sharply from prediction"@, b as u64),
            ),
            None => Seq::empty(),
        },
        SpecEvent::EdifactMessage(m) => when(
            m.segment_count == 0,
            one_finding(50, 2, m.reference, "EDIFACT message has no parsed segments"@, digest),
        ),
        _ => Seq::empty(),
    }
}

/// The findings about all events, in event order.
pub open spec fn audit_spec(events: Seq<SpecEvent>, digest: u64) -> Seq<SpecFinding>
    decreases events.len(),
{
    if events.len() == 0 {
        Seq::empty()
    } else {
        audit_spec(events.drop_last(), digest) + event_findings(events.last(), digest)
    }
}

/// Some finding of `fs` is under rule `id`.
pub open spec fn has_rule(fs: Seq<SpecFinding>, id: u16) -> bool {
    exists|k: int| 0 <= k < fs.len() && #[trigger] fs[k].rule_id == id
}

/// Which rules an event breaks. A vessel position breaks rule 10 exactly when
/// its latitude is beyond 90 degrees or its longitude beyond 180 degrees
/// (in units of 1/600000 degree), and rule 11 exactly when its speed is over
/// 80 knots (800 tenths). A cargo event breaks rule 20 exactly when its
/// equipment identifier is missing or shorter than four bytes, and rule 21
/// exactly when it carries dangerous goods without a location. A message
/// summary breaks rule 50 exactly when it has no segments. GPS fixes, static
/// data, port calls and unknown sentences break none. No rule is reported
/// twice for one event.
pub proof fn lemma_event_rules(e: SpecEvent, digest: u64)
    ensures
        ({
            let fs = event_findings(e, digest);
            &&& fs.len() <= 2
            &&& forall|k: int, l: int| 0 <= k < l < fs.len() ==> fs[k].rule_id != fs[l].rule_id
            &&& match e {
                SpecEvent::VesselPosition(p) => {
                    &&& has_rule(fs, 10) <==> (p.latitude_raw < -54_000_000 || p.latitude_raw > 54_000_000
                        || p.longitude_raw < -108_000_000 || p.longitude_raw > 108_000_000)
                    &&& has_rule(fs, 11) <==> (p.speed_raw matches Some(sp) && sp > 800)
                    &&& forall|k: int| 0 <= k < fs.len() ==> fs[k].rule_id == 10 || fs[k].rule_id == 11
                },
                SpecEvent::CargoEvent(c) => {
                    &&& has_rule(fs, 20) <==> (c.equipment_id is None || utf8_len(c.equipment_id->0) < 4)
                    &&& has_rule(fs, 21) <==> (c.dangerous_goods && c.location is None)
                    &&& forall|k: int| 0 <= k < fs.len() ==> fs[k].rule_id == 20 || fs[k].rule_id == 21
                },
                SpecEvent::EdifactMessage(m) => {
                    &&& has_rule(fs, 50) <==> m.segment_count == 0
                    &&& forall|k: int| 0 <= k < fs.len() ==> fs[k].rule_id == 50
                },
                SpecEvent::TideReading(_) => forall|k: int| 0 <= k < fs.len() ==> fs[k].rule_id == 40,
                _ => fs.len() == 0,
            }
        }),
{
    let fs = event_findings(e, digest);
    match e {
        SpecEvent::VesselPosition(p) => {
            let a = when(
                !in_wgs84_bounds(p),
                one_finding(10, 9, decimal(p.mmsi as nat), "vessel position is outside valid WGS84 bounds"@, digest),
            );
            let b = match p.speed_raw {
                Some(sp) => when(
                    sp > 800,
                    one_finding(11, 6, decimal(p.mmsi as nat), "AIS speed over ground is implausibly high"@, speed_f32_bits(sp as nat) as u64),
                ),
                None => Seq::empty(),
            };
            assert(fs == a + b);
            lemma_two_rules(a, b, 10, 11);
        },
        SpecEvent::CargoEvent(c) => {
            let a = when(
                match c.equipment_id {
                    Some(id) => utf8_len(id) < 4,
                    None => true,
                },
                one_finding(20, 4, "cargo"@, "container or equipment identifier is missing"@, digest),
            );
            let b = when(
                c.dangerous_goods && c.location is None,
                one_finding(21, 7, "dangerous-goods"@, "dangerous goods event has no location qualifier"@, digest),
            );
            assert(fs == a + b);
            lemma_two_rules(a, b, 20, 21);
        },
        SpecEvent::EdifactMessage(m) => {
            if fs.len() > 0 {
                assert(fs[0].rule_id == 50);
            }
        },
        SpecEvent::TideReading(_) => {
            if fs.len() > 0 {
                assert(fs[0].rule_id == 40);
            }
        },
        _ => {},
    }
}

proof fn lemma_two_rules(a: Seq<SpecFinding>, b: Seq<SpecFinding>, x: u16, y: u16)
    requires
        a.len() == 0 || (a.len() == 1 && a[0].rule_id == x),
        b.len() == 0 || (b.len() == 1 && b[0].rule_id == y),
        x != y,
    ensures
        (a + b).len() <= 2,
        forall|k: int, l: int| 0 <= k < l < (a + b).len() ==> (a + b)[k].rule_id != (a + b)[l].rule_id,
        has_rule(a + b, x) <==> a.len() == 1,
        has_rule(a + b, y) <==> b.len() == 1,
        forall|k: int| 0 <= k < (a + b).len() ==> (a + b)[k].rule_id == x || (a + b)[k].rule_id == y,
{
    let s = a + b;
    if a.len() == 1 {
        assert(s[0] == a[0]);
    }
    if b.len() == 1 {
        assert(s[s.len() - 1] == b[0]);
    }
    assert forall|k: int| 0 <= k < s.len() implies s[k].rule_id == x || s[k].rule_id == y by {
        if k < a.len() {
            assert(s[k] == a[k]);
        } else {
            assert(s[k] == b[k - a.len()]);
        }
    }
    if has_rule(s, x) {
        let k = choose|k: int| 0 <= k < s.len() && #[trigger] s[k].rule_id == x;
        if k >= a.len() {
            assert(s[k] == b[k - a.len()]);
        }
    }
    if has_rule(s, y) {
        let k = choose|k: int| 0 <= k < s.len() && #[trigger] s[k].rule_id == y;
        if k < a.len() {
            assert(s[k] == a[k]);
        }
    }
}

/// The tide rule looks at the size of the residual only: a reading whose
/// residual has the bits `b` of an `f32` gives one finding, under rule 40
/// with severity 5, the station as subject and `b` as evidence, exactly when
/// the residual's magnitude is over 2.5 metres and it is not `NaN`; it gives
/// none otherwise. A residual and its negation give as many findings.
pub proof fn lemma_tide_rule_magnitude(t: SpecTide, b: u32, digest: u64)
    ensures
        ({
            let e = SpecEvent::TideReading(SpecTide { residual_bits: Some(b), ..t });
            let negated: u32 = if b >= 0x8000_0000 { (b - 0x8000_0000) as u32 } else { (b + 0x8000_0000) as u32 };
            let n = SpecEvent::TideReading(SpecTide { residual_bits: Some(negated), ..t });
            let mag = if b >= 0x8000_0000 { b - 0x8000_0000 } else { b as int };
            let flagged = 0x4020_0000 < mag && mag <= 0x7f80_0000;
            &&& event_findings(e, digest).len() == if flagged { 1int } else { 0int }
            &&& event_findings(n, digest).len() == event_findings(e, digest).len()
            &&& flagged ==> event_findings(e, digest)[0] == (SpecFinding {
                rule_id: 40,
                severity: 5,
                subject: t.station,
                message: "observed tide differs sharply from prediction"@,
                evidence: b as u64,
            })
        }),
{
}

/// The rules that the audit applies.
pub open spec fn audit_rule(id: u16) -> bool {
    id == 10 || id == 11 || id == 20 || id == 21 || id == 40 || id == 50
}

/// Auditing the events of `a` followed by those of `b` gives the findings
/// about `a` followed by the findings about `b`.
pub proof fn lemma_audit_concat(a: Seq<SpecEvent>, b: Seq<SpecEvent>, digest: u64)
    ensures
        audit_spec(a + b, digest) == audit_spec(a, digest) + audit_spec(b, digest),
    decreases b.len(),
{
    if b.len() == 0 {
        assert(a + b =~= a);
        assert(audit_spec(a, digest) + audit_spec(b, digest) =~= audit_spec(a, digest));
    } else {
        lemma_audit_concat(a, b.drop_last(), digest);
        assert((a + b).drop_last() =~= a + b.drop_last());
        assert((a + b).last() == b.last());
        let x = audit_spec(a, digest);
        let y = audit_spec(b.drop_last(), digest);
        let z = event_findings(b.last(), digest);
        assert(x + y + z =~= x + (y + z));
    }
}

/// Each event gives at most two findings, and every finding comes from one
/// of the audit's rules.
pub proof fn lemma_audit_bounded(events: Seq<SpecEvent>, digest: u64)
    ensures
        audit_spec(events, digest).len() <= 2 * events.len(),
        forall|k: int|
            0 <= k < audit_spec(events, digest).len() ==> audit_rule(
                #[trigger] audit_spec(events, digest)[k].rule_id,
            ),
    decreases events.len(),
{
    if events.len() > 0 {
        let prev = events.drop_last();
        lemma_audit_bounded(prev, digest);
        let x = audit_spec(prev, digest);
        let z = event_findings(events.last(), digest);
        assert(z.len() <= 2);
        assert(forall|k: int| 0 <= k < z.len() ==> audit_rule(#[trigger] z[k].rule_id));
        assert forall|k: int| 0 <= k < (x + z).len() implies audit_rule(#[trigger] (x + z)[k].rule_id) by {
            if k < x.len() {
                assert((x + z)[k] == x[k]);
            } else {
                assert((x + z)[k] == z[k - x.len()]);
            }
        }
    }
}

fn finding(rule_id: u16, severity: u8, subject: String, message: &'static str, evidence: u64) -> (f: ValidationFinding)
    ensures
        f@ == (SpecFinding { rule_id, severity, subject: subject@, message: message@, evidence }),
{
    ValidationFinding { rule_id, severity, subject, message, evidence }
}

fn push_finding(findings: &mut Vec<ValidationFinding>, f: ValidationFinding)
    ensures
        seq_view(final(findings)@) == seq_view(old(findings)@).push(f@),
{
    findings.push(f);
    assert(seq_view(findings@) =~= seq_view(old(findings)@).push(f@));
}

/// The number of bytes of an optional text, none counting as empty.
fn text_bytes(o: &Option<String>) -> (n: usize)
    ensures
        n == (match o.deep_view() {
            Some(s) => if utf8_len(s) < 4 { utf8_len(s) } else { 4 },
            None => 0,
        }),
{
    match o {
        Some(s) => {
            let v = chars_of(s.as_str());
            let mut i: usize = 0;
            let mut n: usize = 0;
            assert(v@.take(0) =~= Seq::<char>::empty());
            while i < v.len() && n < 4
                invariant
                    i <= v@.len(),
                    n == utf8_len(v@.take(i as int)),
                    n <= 7,
                decreases v.len() - i,
            {
                proof {
                    lemma_utf8_len_take(v@, i as int);
                }
                n = n + char_width(v[i]);
                i += 1;
            }
            proof {
                crate::text::lemma_utf8_len_mono(v@, i as int, v@.len() as int);
                assert(v@.take(v@.len() as int) =~= v@);
            }
            if n < 4 {
                n
            } else {
                4
            }
        },
        None => 0,
    }
}

/// The findings about one event.
fn check_event(event: &FeedEvent, digest: u64, findings: &mut Vec<ValidationFinding>)
    ensures
        seq_view(final(findings)@) == seq_view(old(findings)@) + event_findings(event@, digest),
{
    let ghost before = seq_view(findings@);
    match event {
        FeedEvent::VesselPosition(p) => {
            if !(-54_000_000 <= p.latitude_raw && p.latitude_raw <= 54_000_000 && -108_000_000
                <= p.longitude_raw && p.longitude_raw <= 108_000_000) {
                let subject = string_of(decimal_chars(p.mmsi as u64).as_slice());
                push_finding(findings, finding(10, 9, subject, "vessel position is outside valid WGS84 bounds", digest));
            }
            let ghost mid = seq_view(findings@);
            if let Some(speed) = p.speed_raw {
                if speed > 800 {
                    let subject = string_of(decimal_chars(p.mmsi as u64).as_slice());
                    let bits = speed_to_f32_bits(speed);
                    push_finding(findings, finding(11, 6, subject, "AIS speed over ground is implausibly high", bits as u64));
                }
            }
            assert(seq_view(findings@) =~= before + event_findings(event@, digest));
        },
        FeedEvent::CargoEvent(c) => {
            if text_bytes(&c.equipment_id) < 4 {
                let subject = string_of(chars_of("cargo").as_slice());
                push_finding(findings, finding(20, 4, subject, "container or equipment identifier is missing", digest));
            }
            if c.dangerous_goods && c.location.is_none() {
                let subject = string_of(chars_of("dangerous-goods").as_slice());
                push_finding(findings, finding(21, 7, subject, "dangerous goods event has no location qualifier", digest));
            }
            assert(seq_view(findings@) =~= before + event_findings(event@, digest));
        },
        FeedEvent::TideReading(t) => {
            if let Some(bits) = t.residual_bits {
                assert(bits & 0x7fff_ffff == bits % 0x8000_0000) by (bit_vector);
                let mag = bits & 0x7fff_ffff;
                if mag > 0x4020_0000 && mag <= 0x7f80_0000 {
                    push_finding(findings, finding(40, 5, t.station.clone(), "observed tide differs sharply from prediction", bits as u64));
                }
            }
            assert(seq_view(findings@) =~= before + event_findings(event@, digest));
        },
        FeedEvent::EdifactMessage(m) => {
            if m.segment_count == 0 {
                push_finding(findings, finding(50, 2, m.reference.clone(), "EDIFACT message has no parsed segments", digest));
            }
            assert(seq_view(findings@) =~= before + event_findings(event@, digest));
        },
        _ => {
            assert(seq_view(findings@) =~= before + event_findings(event@, digest));
        },
    }
}

/// The digest of a feed: the checksum of its digest material, given the
/// bits of its GPS fixes' coordinates as `f64` (see `Feed::digest_material`).
pub open spec fn feed_digest(events: Seq<SpecEvent>, coords: Seq<(Option<u64>, Option<u64>)>) -> u64 {
    checksum64_spec(material_spec(events, coords))
}

/// Audits a feed. `coords[i]` holds the bits, as `f64`, of the latitude and
/// longitude of event `i` where it is a GPS fix that has them; the findings
/// that carry the feed's digest take it over the digest material that these
/// complete.
///
/// The audit applies the rules of `event_findings`; it has no table of port
/// profiles, so it checks no port LOCODE and no draught against a port's
/// depth, and it runs no further rule table and no lifecycle step.
pub fn audit_feed(feed: &Feed, coords: &[(Option<u64>, Option<u64>)]) -> (findings: Vec<ValidationFinding>)
    ensures
        seq_view(findings@) == audit_spec(feed@.events, feed_digest(feed@.events, coords@)),
{
    let material = feed.digest_material(coords);
    let digest = checksum64(material.as_slice());
    audit_with_digest(feed, digest)
}

/// The findings about the events of `feed`, with `digest` as the feed's digest.
fn audit_with_digest(feed: &Feed, digest: u64) -> (findings: Vec<ValidationFinding>)
    ensures
        seq_view(findings@) == audit_spec(feed@.events, digest),
{
    let ghost evs = feed@.events;
    let mut findings: Vec<ValidationFinding> = Vec::new();
    let mut i: usize = 0;
    assert(evs.take(0) =~= Seq::<SpecEvent>::empty());
    assert(seq_view(findings@) =~= Seq::<SpecFinding>::empty());
    while i < feed.events.len()
        invariant
            i <= feed.events@.len(),
            evs == seq_view(feed.events@),
            seq_view(findings@) == audit_spec(evs.take(i as int), digest),
        decreases feed.events.len() - i,
    {
        assert(evs.take(i + 1).drop_last() =~= evs.take(i as int));
        assert(evs.take(i + 1).last() == feed.events@[i as int]@);
        check_event(&feed.events[i], digest, &mut findings);
        i += 1;
    }
    assert(evs.take(feed.events@.len() as int) =~= evs);
    findings
}

} // verus!
