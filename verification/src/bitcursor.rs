//! Six-bit AIS payload armoring, a big-endian bit reader over the unpacked
//! payload, and the checksums that the feed uses.
use vstd::prelude::*;
use vstd::arithmetic::power2::{pow2, lemma2_to64, lemma2_to64_rest, lemma_pow2_unfold, lemma_pow2_strictly_increases};
use vstd::string::StringSliceAdditionalSpecFns;
use vstd::utf8::{encode_utf8, encode_scalar};
use crate::error::{HarborError, Result};
use crate::text::{trim, trim_chars, string_of, chars_of, char_from_ascii};

verus! {

/// The number whose big-endian binary digits are `s`.
pub open spec fn bits_value(s: Seq<u8>) -> nat
    decreases s.len(),
{
    if s.len() == 0 {
        0
    } else {
        2 * bits_value(s.drop_last()) + s.last() as nat
    }
}

/// Every element of `s` is a binary digit.
pub open spec fn is_binary(s: Seq<u8>) -> bool {
    forall|i: int| 0 <= i < s.len() ==> #[trigger] s[i] <= 1
}

/// The unsigned field of `width` bits that starts at bit `start` of `b`.
pub open spec fn field(b: Seq<u8>, start: int, width: int) -> nat {
    bits_value(b.subrange(start, start + width))
}

/// The value of an AIS armoring character, if it is one.
pub open spec fn sixbit_spec(ch: u8) -> Option<u8> {
    if 48 <= ch <= 119 {
        let v = (ch - 48) as u8;
        Some(if v > 40 { (v - 8) as u8 } else { v })
    } else {
        None
    }
}

/// The six binary digits of `v`, most significant first.
pub open spec fn six_bits(v: u8) -> Seq<u8> {
    seq![
        ((v / 32) % 2) as u8,
        ((v / 16) % 2) as u8,
        ((v / 8) % 2) as u8,
        ((v / 4) % 2) as u8,
        ((v / 2) % 2) as u8,
        (v % 2) as u8,
    ]
}

/// Every character of `p` is an AIS armoring character.
pub open spec fn payload_ok(p: Seq<char>) -> bool {
    forall|i: int| 0 <= i < p.len() ==> 48 <= #[trigger] (p[i] as u32) <= 119
}

/// The bits that the armored payload `p` stands for.
pub open spec fn payload_bits(p: Seq<char>) -> Seq<u8>
    decreases p.len(),
{
    if p.len() == 0 {
        Seq::empty()
    } else {
        payload_bits(p.drop_last()) + six_bits(sixbit_spec((p.last() as u32) as u8).unwrap())
    }
}

/// The payload's bits without the last `fill` padding bits.
pub open spec fn unpadded_bits(p: Seq<char>, fill: nat) -> Seq<u8> {
    let b = payload_bits(p);
    b.take(if b.len() >= fill { b.len() - fill } else { 0 })
}

/// The character that the six-bit AIS text code `v` stands for.
pub open spec fn ais_char_spec(v: u8) -> u8 {
    if v == 0 {
        64
    } else if 1 <= v <= 26 {
        (65 + v - 1) as u8
    } else if v == 27 {
        91
    } else if v == 28 {
        92
    } else if v == 29 {
        93
    } else if v == 30 {
        94
    } else if v == 31 {
        95
    } else if v == 32 {
        32
    } else if 33 <= v <= 57 {
        (33 + (v - 33)) as u8
    } else if 58 <= v <= 63 {
        (58 + (v - 58)) as u8
    } else {
        32
    }
}

/// The characters of `n` six-bit text codes starting at bit `start`, without
/// the `@` padding character.
pub open spec fn text_chars(b: Seq<u8>, start: int, n: nat) -> Seq<char>
    decreases n,
{
    if n == 0 {
        Seq::empty()
    } else {
        let prev = text_chars(b, start, (n - 1) as nat);
        let c = ais_char_spec(field(b, start + 6 * (n - 1), 6) as u8);
        if c == 64 {
            prev
        } else {
            prev.push(c as char)
        }
    }
}

/// A `width`-bit two's complement number with unsigned value `raw`.
pub open spec fn signed_value(raw: nat, width: nat) -> int {
    if raw < pow2((width - 1) as nat) {
        raw as int
    } else {
        raw - pow2(width)
    }
}

/// The exclusive-or of all bytes of `s`.
pub open spec fn xor_all(s: Seq<u8>) -> u8
    decreases s.len(),
{
    if s.len() == 0 {
        0
    } else {
        xor_all(s.drop_last()) ^ s.last()
    }
}

/// `u64::rotate_left`.
pub open spec fn rotl(x: u64, r: u32) -> u64 {
    if r == 0 {
        x
    } else {
        (x << r) | (x >> ((64 - r) as u32))
    }
}

pub open spec fn checksum_seed() -> u64 {
    0x9e37_79b9_7f4a_7c15u64
}

/// One step of `checksum64`: the accumulator after byte `b` at index `i`.
pub open spec fn checksum_step(acc: u64, i: int, b: u8) -> u64 {
    let lane = (b as u64).wrapping_add(((i as u64) << 17u64) ^ 0xa076_1d64_78bd_642fu64);
    let acc1 = acc ^ rotl(lane, (i % 32) as u32);
    rotl(acc1.wrapping_mul(0xe703_7ed1_a0b4_28dbu64), 9)
}

/// The accumulator of `checksum64` after the first `n` bytes of `data`.
pub open spec fn checksum_acc(data: Seq<u8>, n: nat) -> u64
    decreases n,
{
    if n == 0 {
        checksum_seed() ^ (data.len() as u64)
    } else {
        checksum_step(checksum_acc(data, (n - 1) as nat), n - 1, data[n - 1])
    }
}

/// `checksum64` of `data`.
pub open spec fn checksum64_spec(data: Seq<u8>) -> u64 {
    let acc = checksum_acc(data, data.len());
    acc ^ (acc >> 33u64)
}

/// `fold_pair` of `a` and `b`.
pub open spec fn fold_pair_spec(a: u64, b: u64) -> u64 {
    let x = (a ^ rotl(b, 17)).wrapping_mul(0x94d0_49bb_1331_11ebu64);
    x ^ (x >> 29u64)
}

pub proof fn lemma_bits_value_bound(s: Seq<u8>)
    requires
        is_binary(s),
    ensures
        bits_value(s) < pow2(s.len()),
    decreases s.len(),
{
    if s.len() > 0 {
        lemma_bits_value_bound(s.drop_last());
        lemma_pow2_unfold(s.len());
    } else {
        lemma2_to64();
    }
}

pub proof fn lemma_payload_bits_binary(p: Seq<char>)
    ensures
        is_binary(payload_bits(p)),
        payload_bits(p).len() == 6 * p.len(),
    decreases p.len(),
{
    if p.len() > 0 {
        lemma_payload_bits_binary(p.drop_last());
    }
}

proof fn lemma_payload_step(p: Seq<char>, i: int)
    requires
        0 <= i < p.len(),
        payload_ok(p.take(i)),
        48 <= p[i] as u32 <= 119,
    ensures
        payload_ok(p.take(i + 1)),
        payload_bits(p.take(i + 1)) == payload_bits(p.take(i)) + six_bits(
            sixbit_spec((p[i] as u32) as u8).unwrap(),
        ),
{
    let q = p.take(i + 1);
    assert(q.drop_last() =~= p.take(i));
    assert forall|j: int| 0 <= j < q.len() implies 48 <= #[trigger] (q[j] as u32) <= 119 by {
        if j < i {
            assert(q[j] == p.take(i)[j]);
        }
    }
}

proof fn lemma_value_step(b: Seq<u8>, start: int, k: int)
    requires
        0 <= start,
        0 <= k,
        start + k < b.len(),
        is_binary(b),
    ensures
        bits_value(b.subrange(start, start + k + 1)) == 2 * bits_value(b.subrange(start, start + k))
            + b[start + k],
        b[start + k] <= 1,
        pow2((k + 1) as nat) == 2 * pow2(k as nat),
{
    assert(b.subrange(start, start + k + 1).drop_last() =~= b.subrange(start, start + k));
    lemma_pow2_unfold((k + 1) as nat);
}

proof fn lemma_six_bits_value(v: u8)
    requires
        v <= 63,
    ensures
        bits_value(six_bits(v)) == v,
{
    let s = six_bits(v);
    reveal_with_fuel(bits_value, 7);
    assert(s.drop_last().drop_last().drop_last().drop_last().drop_last().drop_last() =~= Seq::<u8>::empty());
    assert(s.drop_last().drop_last().drop_last().drop_last().drop_last() =~= seq![((v / 32) % 2) as u8]);
    assert(s.drop_last().drop_last().drop_last().drop_last() =~= seq![((v / 32) % 2) as u8, ((v / 16) % 2) as u8]);
    assert(s.drop_last().drop_last().drop_last() =~= seq![((v / 32) % 2) as u8, ((v / 16) % 2) as u8, ((v / 8) % 2) as u8]);
    assert(s.drop_last().drop_last() =~= seq![((v / 32) % 2) as u8, ((v / 16) % 2) as u8, ((v / 8) % 2) as u8, ((v / 4) % 2) as u8]);
    assert(s.drop_last() =~= seq![((v / 32) % 2) as u8, ((v / 16) % 2) as u8, ((v / 8) % 2) as u8, ((v / 4) % 2) as u8, ((v / 2) % 2) as u8]);
    assert(2 * (2 * (2 * (2 * (2 * ((v / 32) % 2) + (v / 16) % 2) + (v / 8) % 2) + (v / 4) % 2) + (v / 2) % 2) + v % 2 == v) by (bit_vector)
        requires v <= 63;
}

/// The unpacked bits of a valid armored payload hold, six bits per
/// character and in order, the value of each armoring character.
pub proof fn lemma_payload_fields(p: Seq<char>, i: int)
    requires
        payload_ok(p),
        0 <= i < p.len(),
    ensures
        field(payload_bits(p), 6 * i, 6) == sixbit_spec((p[i] as u32) as u8).unwrap(),
    decreases p.len(),
{
    let q = p.drop_last();
    let v = sixbit_spec((p.last() as u32) as u8).unwrap();
    lemma_payload_bits_binary(q);
    assert(payload_ok(q)) by {
        assert forall|j: int| 0 <= j < q.len() implies 48 <= #[trigger] (q[j] as u32) <= 119 by {
            assert(q[j] == p[j]);
        }
    }
    let b = payload_bits(p);
    assert(b == payload_bits(q) + six_bits(v));
    if i < p.len() - 1 {
        lemma_payload_fields(q, i);
        assert(b.subrange(6 * i, 6 * i + 6) =~= payload_bits(q).subrange(6 * i, 6 * i + 6));
        assert(q[i] == p[i]);
    } else {
        assert(48 <= (p[i] as u32) <= 119);
        assert(v <= 63);
        assert(b.subrange(6 * i, 6 * i + 6) =~= six_bits(v));
        lemma_six_bits_value(v);
    }
}

/// Every byte of `b` is an AIS armoring character.
pub open spec fn armored_bytes(b: Seq<u8>) -> bool {
    forall|i: int| 0 <= i < b.len() ==> 48 <= #[trigger] b[i] <= 119
}

proof fn lemma_armored_encoding(p: Seq<char>)
    ensures
        payload_ok(p) <==> armored_bytes(encode_utf8(p)),
        payload_ok(p) ==> encode_utf8(p).len() == p.len() && forall|i: int|
            0 <= i < p.len() ==> #[trigger] encode_utf8(p)[i] == (p[i] as u32) as u8,
    decreases p.len(),
{
    if p.len() > 0 {
        let rest = p.drop_first();
        lemma_armored_encoding(rest);
        let c = p[0] as u32;
        let head = encode_scalar(c);
        let e = encode_utf8(p);
        assert(e == head + encode_utf8(rest));
        assert(payload_ok(p) <==> (48 <= c <= 119 && payload_ok(rest))) by {
            if payload_ok(p) {
                assert(48 <= (p[0] as u32) <= 119);
                assert forall|j: int| 0 <= j < rest.len() implies 48 <= #[trigger] (rest[j] as u32) <= 119 by {
                    assert(rest[j] == p[j + 1]);
                }
            }
            if 48 <= c <= 119 && payload_ok(rest) {
                assert forall|j: int| 0 <= j < p.len() implies 48 <= #[trigger] (p[j] as u32) <= 119 by {
                    if j > 0 {
                        assert(p[j] == rest[j - 1]);
                    }
                }
            }
        }
        if 48 <= c <= 119 {
            assert(head == seq![(c & 0x7f) as u8]);
            assert((c & 0x7f) as u8 == c as u8) by (bit_vector)
                requires 48 <= c <= 119;
            assert(armored_bytes(e) <==> armored_bytes(encode_utf8(rest))) by {
                if armored_bytes(e) {
                    assert forall|j: int| 0 <= j < encode_utf8(rest).len() implies 48 <= #[trigger] encode_utf8(rest)[j] <= 119 by {
                        assert(encode_utf8(rest)[j] == e[j + 1]);
                    }
                }
                if armored_bytes(encode_utf8(rest)) {
                    assert forall|j: int| 0 <= j < e.len() implies 48 <= #[trigger] e[j] <= 119 by {
                        if j > 0 {
                            assert(e[j] == encode_utf8(rest)[j - 1]);
                        }
                    }
                }
            }
            if payload_ok(p) {
                assert forall|i: int| 0 <= i < p.len() implies #[trigger] e[i] == (p[i] as u32) as u8 by {
                    if i > 0 {
                        assert(e[i] == encode_utf8(rest)[i - 1]);
                        assert(rest[i - 1] == p[i]);
                    }
                }
            }
        } else {
            vstd::utf8::char_is_scalar(p[0]);
            let b0 = head[0];
            if c <= 0x7f {
                assert(b0 == (c & 0x7f) as u8);
                assert((c & 0x7f) as u8 == c as u8) by (bit_vector)
                    requires c <= 0x7f;
            } else if c <= 0x7ff {
                assert(b0 >= 0xc0) by (bit_vector)
                    requires b0 == 0xC0u8 | ((c >> 6) & 0x1F) as u8;
            } else if vstd::utf8::has_width_3_encoding(c) {
                assert(b0 >= 0xe0) by (bit_vector)
                    requires b0 == 0xE0u8 | ((c >> 12) & 0x0F) as u8;
            } else {
                assert(b0 >= 0xf0) by (bit_vector)
                    requires b0 == 0xF0u8 | ((c >> 18) & 0x7) as u8;
            }
            assert(e[0] == b0);
            assert(!armored_bytes(e));
        }
    }
}

/// Read over its bytes, a payload is armored exactly when every byte is an
/// armoring character. Then it has one character per byte, its bits are six
/// per byte, bits `6i` to `6i + 6`, most significant first, hold the value of
/// byte `i`, and dropping `fill` padding bits leaves `6 * len - fill` of them.
pub proof fn lemma_payload_bytes(p: Seq<char>, fill: nat)
    ensures
        payload_ok(p) <==> armored_bytes(encode_utf8(p)),
        payload_ok(p) ==> {
            let b = encode_utf8(p);
            &&& b.len() == p.len()
            &&& payload_bits(p).len() == 6 * b.len()
            &&& unpadded_bits(p, fill).len() == if 6 * b.len() >= fill {
                6 * b.len() - fill
            } else {
                0
            }
            &&& forall|i: int|
                0 <= i < b.len() ==> field(payload_bits(p), 6 * i, 6) == sixbit_spec(#[trigger] b[i]).unwrap()
        },
{
    lemma_armored_encoding(p);
    lemma_payload_bits_binary(p);
    if payload_ok(p) {
        let b = encode_utf8(p);
        assert forall|i: int| 0 <= i < b.len() implies field(payload_bits(p), 6 * i, 6) == sixbit_spec(
            #[trigger] b[i],
        ).unwrap() by {
            lemma_payload_fields(p, i);
        }
    }
}

/// Reading two adjacent fields gives the field that spans both: the first
/// shifted left by the width of the second, plus the second.
pub proof fn lemma_field_concat(b: Seq<u8>, start: int, w1: int, w2: int)
    requires
        0 <= start,
        0 <= w1,
        0 <= w2,
        start + w1 + w2 <= b.len(),
    ensures
        field(b, start, w1 + w2) == field(b, start, w1) * pow2(w2 as nat) + field(b, start + w1, w2),
    decreases w2,
{
    if w2 == 0 {
        assert(b.subrange(start + w1, start + w1) =~= Seq::<u8>::empty());
        assert(b.subrange(start, start + w1 + 0) =~= b.subrange(start, start + w1));
        assert(field(b, start + w1, 0) == 0);
        lemma2_to64();
        assert(pow2(0) == 1);
        let a = field(b, start, w1);
        assert(a * 1 == a);
    } else {
        lemma_field_concat(b, start, w1, w2 - 1);
        let whole = b.subrange(start, start + w1 + w2);
        let tail = b.subrange(start + w1, start + w1 + w2);
        assert(whole.drop_last() =~= b.subrange(start, start + w1 + w2 - 1));
        assert(tail.drop_last() =~= b.subrange(start + w1, start + w1 + w2 - 1));
        assert(whole.last() == tail.last());
        assert(bits_value(whole) == 2 * bits_value(whole.drop_last()) + whole.last() as nat);
        assert(bits_value(tail) == 2 * bits_value(tail.drop_last()) + tail.last() as nat);
        lemma_pow2_unfold(w2 as nat);
        let a = field(b, start, w1);
        let c = field(b, start + w1, w2 - 1);
        let p = pow2((w2 - 1) as nat);
        assert(field(b, start, w1 + w2 - 1) == a * p + c);
        assert(2 * (a * p + c) == a * (2 * p) + 2 * c) by (nonlinear_arith);
        assert(field(b, start, w1 + w2) == 2 * field(b, start, w1 + w2 - 1) + whole.last() as nat);
        assert(field(b, start + w1, w2) == 2 * c + tail.last() as nat);
    }
}

/// The NMEA checksum of two pieces of text is the exclusive-or of their checksums.
pub proof fn lemma_xor_all_concat(a: Seq<u8>, b: Seq<u8>)
    ensures
        xor_all(a + b) == xor_all(a) ^ xor_all(b),
    decreases b.len(),
{
    if b.len() == 0 {
        assert(a + b =~= a);
        let x = xor_all(a);
        assert(x ^ 0 == x) by (bit_vector);
    } else {
        lemma_xor_all_concat(a, b.drop_last());
        assert((a + b).drop_last() =~= a + b.drop_last());
        let x = xor_all(a);
        let y = xor_all(b.drop_last());
        let z = b.last();
        assert((x ^ y) ^ z == x ^ (y ^ z)) by (bit_vector);
    }
}

/// The value of an AIS armoring character.
pub fn sixbit_value(ch: u8) -> (r: Result<u8>)
    ensures
        match r {
            Ok(v) => sixbit_spec(ch) == Some(v) && v <= 63,
            Err(e) => sixbit_spec(ch) is None && e == HarborError::InvalidAisPayload,
        },
{
    if !(48 <= ch && ch <= 119) {
        return Err(HarborError::InvalidAisPayload);
    }
    let mut v = ch - 48;
    if v > 40 {
        v -= 8;
    }
    if v > 63 {
        return Err(HarborError::InvalidAisPayload);
    }
    Ok(v)
}

/// The character that a six-bit AIS text code stands for.
pub fn ais_text_char(value: u8) -> (r: u8)
    ensures
        r == ais_char_spec(value),
        r < 128,
{
    match value {
        0 => 64,
        1..=26 => 65 + value - 1,
        27 => 91,
        28 => 92,
        29 => 93,
        30 => 94,
        31 => 95,
        32 => 32,
        33..=57 => 33 + (value - 33),
        58..=63 => 58 + (value - 58),
        _ => 32,
    }
}

/// The NMEA checksum of a sentence body: the exclusive-or of its bytes.
pub fn nmea_checksum(body: &str) -> (r: u8)
    ensures
        r == xor_all(body.spec_bytes()),
{
    let bytes = body.as_bytes();
    let mut acc: u8 = 0;
    let mut i: usize = 0;
    while i < bytes.len()
        invariant
            i <= bytes@.len(),
            acc == xor_all(bytes@.take(i as int)),
        decreases bytes.len() - i,
    {
        assert(bytes@.take(i + 1).drop_last() =~= bytes@.take(i as int));
        acc = acc ^ bytes[i];
        i += 1;
    }
    assert(bytes@.take(bytes.len() as int) =~= bytes@);
    acc
}

/// `u64::rotate_left` by `r < 64`.
pub(crate) fn rotate_left(x: u64, r: u32) -> (y: u64)
    requires
        r < 64,
    ensures
        y == rotl(x, r),
{
    if r == 0 {
        x
    } else {
        (x << r) | (x >> (64 - r))
    }
}

/// A 64-bit digest of `data`.
pub fn checksum64(data: &[u8]) -> (r: u64)
    ensures
        r == checksum64_spec(data@),
{
    let mut acc: u64 = 0x9e37_79b9_7f4a_7c15u64 ^ (data.len() as u64);
    let mut i: usize = 0;
    while i < data.len()
        invariant
            i <= data@.len(),
            acc == checksum_acc(data@, i as nat),
        decreases data.len() - i,
    {
        let b = data[i];
        let lane = (b as u64).wrapping_add(((i as u64) << 17u64) ^ 0xa076_1d64_78bd_642fu64);
        let r = (i % 32) as u32;
        acc = acc ^ rotate_left(lane, r);
        acc = rotate_left(acc.wrapping_mul(0xe703_7ed1_a0b4_28dbu64), 9);
        i += 1;
    }
    acc ^ (acc >> 33u64)
}

/// Folds `b` into the running digest `a`.
pub fn fold_pair(a: u64, b: u64) -> (r: u64)
    ensures
        r == fold_pair_spec(a, b),
{
    let mut x = a ^ rotate_left(b, 17);
    x = x.wrapping_mul(0x94d0_49bb_1331_11ebu64);
    x ^ (x >> 29u64)
}

/// A reader of big-endian bit fields over an unpacked AIS payload.
#[derive(Debug)]
pub struct BitCursor {
    bits: Vec<u8>,
    pos: usize,
}

impl Clone for BitCursor {
    fn clone(&self) -> (c: Self)
        ensures
            c.bit_seq() == self.bit_seq(),
            c.position() == self.position(),
    {
        proof {
            use_type_invariant(self);
        }
        BitCursor { bits: self.bits.clone(), pos: self.pos }
    }
}

impl BitCursor {
    #[verifier::type_invariant]
    spec fn well_formed(self) -> bool {
        &&& self.pos <= self.bits@.len()
        &&& is_binary(self.bits@)
    }

    /// The bits the cursor reads.
    pub closed spec fn bit_seq(self) -> Seq<u8> {
        self.bits@
    }

    /// The index of the next bit to read.
    pub closed spec fn position(self) -> nat {
        self.pos as nat
    }

    /// The number of bits left to read.
    pub open spec fn rem(self) -> nat {
        if self.bit_seq().len() >= self.position() {
            (self.bit_seq().len() - self.position()) as nat
        } else {
            0
        }
    }

    /// Unpacks an armored AIS payload, dropping `fill_bits` padding bits at its end.
    pub fn from_sixbit_payload(payload: &str, fill_bits: u8) -> (r: Result<Self>)
        ensures
            r is Err <==> (fill_bits > 5 || !payload_ok(payload@)),
            r matches Err(e) ==> e == HarborError::InvalidAisPayload,
            r matches Ok(c) ==> c.bit_seq() == unpadded_bits(payload@, fill_bits as nat)
                && c.position() == 0 && is_binary(c.bit_seq()),
    {
        if fill_bits > 5 {
            return Err(HarborError::InvalidAisPayload);
        }
        let p = chars_of(payload);
        let mut bits: Vec<u8> = Vec::new();
        let mut i: usize = 0;
        while i < p.len()
            invariant
                i <= p@.len(),
                p@ == payload@,
                payload_ok(p@.take(i as int)),
                bits@ == payload_bits(p@.take(i as int)),
            decreases p.len() - i,
        {
            let c = p[i];
            let code = c as u32;
            if !(48 <= code && code <= 119) {
                return Err(HarborError::InvalidAisPayload);
            }
            let value = sixbit_value(code as u8)?;
            let ghost before = bits@;
            bits.push(value / 32 % 2);
            bits.push(value / 16 % 2);
            bits.push(value / 8 % 2);
            bits.push(value / 4 % 2);
            bits.push(value / 2 % 2);
            bits.push(value % 2);
            proof {
                assert(bits@ =~= before + six_bits(value));
                lemma_payload_step(p@, i as int);
            }
            i += 1;
        }
        assert(p@.take(p.len() as int) =~= p@);
        proof {
            lemma_payload_bits_binary(p@);
        }
        let ghost full = bits@;
        let mut k: u8 = 0;
        while k < fill_bits
            invariant
                k <= fill_bits <= 5,
                full == payload_bits(payload@),
                is_binary(full),
                bits@ == full.take(if full.len() >= k { full.len() - k } else { 0 }),
            decreases fill_bits - k,
        {
            let _ = bits.pop();
            k += 1;
        }
        Ok(BitCursor { bits, pos: 0 })
    }

    /// The number of bits left to read.
    pub fn remaining(&self) -> (r: usize)
        ensures
            r == self.rem(),
    {
        self.bits.len().saturating_sub(self.pos)
    }

    /// Reads an unsigned field of `width <= 64` bits.
    pub fn read_u64(&mut self, width: usize) -> (r: Result<u64>)
        ensures
            r is Err <==> (width > 64 || old(self).rem() < width),
            final(self).bit_seq() == old(self).bit_seq(),
            r matches Err(e) ==> e == HarborError::InvalidAisPayload && final(self).position()
                == old(self).position(),
            r matches Ok(v) ==> v == field(old(self).bit_seq(), old(self).position() as int, width as int)
                && final(self).position() == old(self).position() + width
                && v < pow2(width as nat),
    {
        proof {
            use_type_invariant(&*self);
        }
        if width > 64 || self.remaining() < width {
            return Err(HarborError::InvalidAisPayload);
        }
        let ghost start = self.pos as int;
        let ghost b = self.bits@;
        let mut value: u64 = 0;
        let mut k: usize = 0;
        let n = self.bits.len();
        proof {
            lemma2_to64();
        }
        while k < width
            invariant
                n == b.len(),
                k <= width <= 64,
                0 <= start,
                start + width <= b.len(),
                self.bits@ == b,
                is_binary(b),
                self.pos == start + k,
                value == bits_value(b.subrange(start, start + k)),
                value < pow2(k as nat),
            decreases width - k,
        {
            let bit = self.bits[self.pos];
            proof {
                lemma_value_step(b, start, k as int);
                lemma2_to64();
                lemma2_to64_rest();
                if k < 63 {
                    lemma_pow2_strictly_increases(k as nat, 63);
                }
            }
            value = value * 2 + bit as u64;
            self.pos = self.pos + 1;
            k += 1;
        }
        Ok(value)
    }

    /// Reads an unsigned field and keeps its low 32 bits.
    pub fn read_u32(&mut self, width: usize) -> (r: Result<u32>)
        ensures
            r is Err <==> (width > 64 || old(self).rem() < width),
            final(self).bit_seq() == old(self).bit_seq(),
            r matches Err(e) ==> e == HarborError::InvalidAisPayload && final(self).position()
                == old(self).position(),
            r matches Ok(v) ==> v == field(old(self).bit_seq(), old(self).position() as int, width as int)
                % 0x1_0000_0000 && final(self).position() == old(self).position() + width,
    {
        let v = self.read_u64(width)?;
        assert(v as u32 == v % 0x1_0000_0000) by (bit_vector);
        Ok(v as u32)
    }

    /// Reads an unsigned field and keeps its low 8 bits.
    pub fn read_u8(&mut self, width: usize) -> (r: Result<u8>)
        ensures
            r is Err <==> (width > 64 || old(self).rem() < width),
            final(self).bit_seq() == old(self).bit_seq(),
            r matches Err(e) ==> e == HarborError::InvalidAisPayload && final(self).position()
                == old(self).position(),
            r matches Ok(v) ==> v == field(old(self).bit_seq(), old(self).position() as int, width as int)
                % 256 && final(self).position() == old(self).position() + width,
    {
        let v = self.read_u64(width)?;
        assert(v as u8 == v % 256) by (bit_vector);
        Ok(v as u8)
    }

    /// Reads one bit as a flag.
    pub fn read_bool(&mut self) -> (r: Result<bool>)
        ensures
            r is Err <==> old(self).rem() < 1,
            final(self).bit_seq() == old(self).bit_seq(),
            r matches Err(e) ==> e == HarborError::InvalidAisPayload && final(self).position()
                == old(self).position(),
            r matches Ok(v) ==> v == (field(old(self).bit_seq(), old(self).position() as int, 1) != 0)
                && final(self).position() == old(self).position() + 1,
    {
        let v = self.read_u64(1)?;
        Ok(v != 0)
    }

    /// Reads a two's complement field of `1 <= width <= 31` bits.
    pub fn read_signed(&mut self, width: usize) -> (r: Result<i32>)
        ensures
            r is Err <==> (width == 0 || width > 31 || old(self).rem() < width),
            final(self).bit_seq() == old(self).bit_seq(),
            r matches Err(e) ==> e == HarborError::InvalidAisPayload && final(self).position()
                == old(self).position(),
            r matches Ok(v) ==> v == signed_value(
                field(old(self).bit_seq(), old(self).position() as int, width as int),
                width as nat,
            ) && final(self).position() == old(self).position() + width,
            r matches Ok(v) ==> -pow2((width - 1) as nat) <= v < pow2((width - 1) as nat),
    {
        if width == 0 || width > 31 {
            return Err(HarborError::InvalidAisPayload);
        }
        let raw = self.read_u64(width)?;
        let half = pow2_u64((width - 1) as u32);
        let full = pow2_u64(width as u32);
        proof {
            lemma_pow2_unfold(width as nat);
            lemma2_to64();
            if width < 31 {
                lemma_pow2_strictly_increases(width as nat, 31);
            }
        }
        if raw < half {
            Ok(raw as i32)
        } else {
            Ok((raw as i64 - full as i64) as i32)
        }
    }

    /// Skips a field of `width <= 64` bits.
    pub fn skip(&mut self, width: usize) -> (r: Result<()>)
        ensures
            r is Err <==> (width > 64 || old(self).rem() < width),
            final(self).bit_seq() == old(self).bit_seq(),
            r matches Err(e) ==> e == HarborError::InvalidAisPayload && final(self).position()
                == old(self).position(),
            r is Ok ==> final(self).position() == old(self).position() + width,
    {
        let _ = self.read_u64(width)?;
        Ok(())
    }

    /// Reads `chars` six-bit text codes, drops the `@` padding and trims the
    /// result. Where fewer bits are left, the whole codes that fit are consumed
    /// and the read fails.
    pub fn read_text(&mut self, chars: usize) -> (r: Result<String>)
        ensures
            r is Err <==> old(self).rem() < 6 * chars,
            final(self).bit_seq() == old(self).bit_seq(),
            r matches Err(e) ==> e == HarborError::InvalidAisPayload && final(self).position()
                == old(self).position() + 6 * (old(self).rem() / 6),
            r matches Ok(s) ==> s@ == trim(text_chars(old(self).bit_seq(), old(self).position() as int, chars as nat))
                && final(self).position() == old(self).position() + 6 * chars,
    {
        proof {
            use_type_invariant(&*self);
        }
        let ghost b = self.bit_seq();
        let ghost start = self.position() as int;
        let ghost rem0 = self.rem();
        let mut out: Vec<char> = Vec::new();
        let mut k: usize = 0;
        while k < chars
            invariant
                k <= chars,
                self.bit_seq() == b,
                self.position() == start + 6 * k,
                6 * k <= rem0,
                0 <= start <= b.len(),
                rem0 == b.len() - start,
                b == old(self).bit_seq(),
                start == old(self).position(),
                rem0 == old(self).rem(),
                out@ == text_chars(b, start, k as nat),
            decreases chars - k,
        {
            let wide = match self.read_u64(6) {
                Ok(v) => v,
                Err(e) => {
                    assert(rem0 / 6 == k) by (nonlinear_arith)
                        requires rem0 - 6 * k < 6, 6 * k <= rem0;
                    return Err(e);
                },
            };
            proof {
                lemma2_to64();
            }
            let value = wide as u8;
            let c = ais_text_char(value);
            if c != 64 {
                out.push(char_from_ascii(c));
            }
            proof {
                assert(value as nat == field(b, start + 6 * k, 6));
                let t = text_chars(b, start, (k + 1) as nat);
                assert(t == (if c == 64 { text_chars(b, start, k as nat) } else { text_chars(b, start, k as nat).push(c as char) }));
            }
            k += 1;
        }
        let t = trim_chars(out.as_slice());
        Ok(string_of(t.as_slice()))
    }
}

/// `2^k` for `k < 64`.
pub(crate) fn pow2_u64(k: u32) -> (r: u64)
    requires
        k < 64,
    ensures
        r == pow2(k as nat),
{
    let mut r: u64 = 1;
    let mut i: u32 = 0;
    proof {
        lemma2_to64();
    }
    while i < k
        invariant
            i <= k < 64,
            r == pow2(i as nat),
        decreases k - i,
    {
        proof {
            lemma2_to64();
            lemma_pow2_unfold((i + 1) as nat);
            lemma_pow2_strictly_increases((i + 1) as nat, 64);
        }
        r = r * 2;
        i += 1;
    }
    r
}

} // verus!
