//! Character-level text helpers: trimming, line splitting, searching and
//! conversions between `str`, `String` and vectors of characters.
use vstd::prelude::*;
use vstd::string::StringSliceAdditionalSpecFns;

verus! {

/// Unicode `White_Space`, the set that `char::is_whitespace` and `str::trim` use.
pub open spec fn is_ws(c: char) -> bool {
    let u = c as u32;
    ||| 0x09 <= u <= 0x0D
    ||| u == 0x20
    ||| u == 0x85
    ||| u == 0xA0
    ||| u == 0x1680
    ||| 0x2000 <= u <= 0x200A
    ||| u == 0x2028
    ||| u == 0x2029
    ||| u == 0x202F
    ||| u == 0x205F
    ||| u == 0x3000
}

pub open spec fn trim_start(s: Seq<char>) -> Seq<char>
    decreases s.len(),
{
    if s.len() > 0 && is_ws(s[0]) {
        trim_start(s.drop_first())
    } else {
        s
    }
}

pub open spec fn trim_end(s: Seq<char>) -> Seq<char>
    decreases s.len(),
{
    if s.len() > 0 && is_ws(s.last()) {
        trim_end(s.drop_last())
    } else {
        s
    }
}

/// What `str::trim` leaves of `s`.
pub open spec fn trim(s: Seq<char>) -> Seq<char> {
    trim_end(trim_start(s))
}

/// `s` begins with `p`.
pub open spec fn starts_with(s: Seq<char>, p: Seq<char>) -> bool {
    p.len() <= s.len() && s.subrange(0, p.len() as int) == p
}

/// `n` occurs in `h` as a contiguous piece.
pub open spec fn contains(h: Seq<char>, n: Seq<char>) -> bool {
    exists|i: int| 0 <= i <= h.len() - n.len() && #[trigger] h.subrange(i, i + n.len()) == n
}

pub open spec fn ascii_lower(c: char) -> char {
    if 'A' <= c <= 'Z' {
        ((c as u32) + 32) as char
    } else {
        c
    }
}

/// What `str::to_ascii_lowercase` makes of `s`.
pub open spec fn lower(s: Seq<char>) -> Seq<char> {
    Seq::new(s.len(), |i: int| ascii_lower(s[i]))
}

/// The pieces of `s` between occurrences of `d`, as `str::split` gives them:
/// always one more piece than there are delimiters.
pub open spec fn split_on(s: Seq<char>, d: char) -> Seq<Seq<char>>
    decreases s.len(),
{
    if s.len() == 0 {
        seq![Seq::<char>::empty()]
    } else {
        let p = split_on(s.drop_last(), d);
        if s.last() == d {
            p.push(Seq::<char>::empty())
        } else {
            p.update(p.len() - 1, p.last().push(s.last()))
        }
    }
}

/// A line without the `\r` of a `\r\n` ending.
pub open spec fn strip_cr(s: Seq<char>) -> Seq<char> {
    if s.len() > 0 && s.last() == '\r' {
        s.drop_last()
    } else {
        s
    }
}

/// The lines of `s`, as `str::lines` gives them: split at `\n`, a `\r` before
/// the `\n` removed, and no final empty line after a trailing `\n`.
pub open spec fn lines(s: Seq<char>) -> Seq<Seq<char>> {
    let p = split_on(s, '\n');
    let head = p.drop_last().map_values(|l: Seq<char>| strip_cr(l));
    if p.last().len() == 0 {
        head
    } else {
        head.push(p.last())
    }
}

/// The characters of each vector of a sequence.
pub open spec fn vec_views(v: Seq<Vec<char>>) -> Seq<Seq<char>> {
    v.map_values(|x: Vec<char>| x@)
}

/// An ASCII letter or digit, as `char::is_ascii_alphanumeric` tells.
pub open spec fn is_alnum(c: char) -> bool {
    ('0' <= c <= '9') || ('a' <= c <= 'z') || ('A' <= c <= 'Z')
}

/// The view of each string of a sequence.
pub open spec fn views(v: Seq<String>) -> Seq<Seq<char>> {
    v.map_values(|x: String| x@)
}

/// Number of UTF-8 bytes that encode `c`.
pub open spec fn utf8_width(c: char) -> nat {
    let u = c as u32;
    if u < 0x80 {
        1
    } else if u < 0x800 {
        2
    } else if u < 0x10000 {
        3
    } else {
        4
    }
}

/// Number of UTF-8 bytes that encode `s`.
pub open spec fn utf8_len(s: Seq<char>) -> nat
    decreases s.len(),
{
    if s.len() == 0 {
        0
    } else {
        utf8_len(s.drop_last()) + utf8_width(s.last())
    }
}

/// Byte offset `b` of the encoding of `s` falls between two characters.
pub open spec fn is_boundary(s: Seq<char>, b: int) -> bool {
    exists|k: int| 0 <= k <= s.len() && #[trigger] utf8_len(s.take(k)) == b
}


/// The decimal digits of `n`, as `Display` writes an unsigned integer.
pub open spec fn decimal(n: nat) -> Seq<char>
    decreases n,
{
    if n < 10 {
        seq![((n + 48) as u32) as char]
    } else {
        decimal(n / 10).push((((n % 10) + 48) as u32) as char)
    }
}

/// The value of `c` as a digit in base `radix`, as `char::to_digit` gives it.
pub open spec fn digit_of(c: char, radix: nat) -> Option<nat> {
    let u = c as u32;
    let d: nat = if 48 <= u <= 57 {
        (u - 48) as nat
    } else if 97 <= u <= 122 {
        (u - 97 + 10) as nat
    } else if 65 <= u <= 90 {
        (u - 65 + 10) as nat
    } else {
        99
    };
    if d < radix {
        Some(d)
    } else {
        None
    }
}

pub open spec fn all_digits(s: Seq<char>, radix: nat) -> bool {
    forall|i: int| 0 <= i < s.len() ==> (#[trigger] digit_of(s[i], radix)) is Some
}

/// The number that the digits `s` write in base `radix`.
pub open spec fn digits_value(s: Seq<char>, radix: nat) -> nat
    decreases s.len(),
{
    if s.len() == 0 {
        0
    } else {
        digits_value(s.drop_last(), radix) * radix + digit_of(s.last(), radix).unwrap()
    }
}

/// What `u8::from_str_radix(s, radix)` gives, `Ok` as `Some`: an optional `+`,
/// then at least one digit, and a value that fits.
pub open spec fn parse_u8_spec(s: Seq<char>, radix: nat) -> Option<u8> {
    let d = if s.len() > 0 && s[0] == '+' { s.drop_first() } else { s };
    if d.len() > 0 && all_digits(d, radix) && digits_value(d, radix) <= 255 {
        Some(digits_value(d, radix) as u8)
    } else {
        None
    }
}

/// The index of the last `c` in `s`, or -1.
pub open spec fn last_index(s: Seq<char>, c: char) -> int
    decreases s.len(),
{
    if s.len() == 0 {
        -1
    } else if s.last() == c {
        s.len() - 1
    } else {
        last_index(s.drop_last(), c)
    }
}

pub proof fn lemma_last_index(s: Seq<char>, c: char)
    ensures
        -1 <= last_index(s, c) < s.len(),
        last_index(s, c) >= 0 ==> s[last_index(s, c)] == c,
        forall|j: int| last_index(s, c) < j < s.len() ==> s[j] != c,
    decreases s.len(),
{
    if s.len() > 0 && s.last() != c {
        let t = s.drop_last();
        lemma_last_index(t, c);
        assert forall|j: int| last_index(s, c) < j < s.len() implies s[j] != c by {
            if j < s.len() - 1 {
                assert(s[j] == t[j]);
            }
        }
    }
}

pub proof fn lemma_digits_value_mono(s: Seq<char>, radix: nat, k: int)
    requires
        0 <= k <= s.len(),
        all_digits(s, radix),
        radix >= 1,
    ensures
        digits_value(s.take(k), radix) <= digits_value(s, radix),
    decreases s.len() - k,
{
    if k < s.len() {
        let t = s.drop_last();
        assert(t.take(k) =~= s.take(k));
        assert(all_digits(t, radix)) by {
            assert forall|i: int| 0 <= i < t.len() implies (#[trigger] digit_of(t[i], radix)) is Some by {
                assert(t[i] == s[i]);
            }
        }
        lemma_digits_value_mono(t, radix, k);
        assert(digits_value(t, radix) * radix >= digits_value(t, radix)) by (nonlinear_arith)
            requires radix >= 1;
    } else {
        assert(s.take(k) =~= s);
    }
}

/// The value of `c` as a digit in base `radix`.
pub fn digit_value(c: char, radix: u32) -> (r: Option<u32>)
    requires
        2 <= radix <= 36,
    ensures
        match digit_of(c, radix as nat) {
            Some(d) => r == Some(d as u32),
            None => r is None,
        },
{
    let u = c as u32;
    let d: u32 = if 48 <= u && u <= 57 {
        u - 48
    } else if 97 <= u && u <= 122 {
        u - 97 + 10
    } else if 65 <= u && u <= 90 {
        u - 65 + 10
    } else {
        99
    };
    if d < radix {
        Some(d)
    } else {
        None
    }
}

/// `u8::from_str_radix` on the characters `v`.
pub fn parse_u8_radix(v: &[char], radix: u32) -> (r: Option<u8>)
    requires
        2 <= radix <= 36,
    ensures
        r == parse_u8_spec(v@, radix as nat),
{
    let start: usize = if v.len() > 0 && v[0] == '+' { 1 } else { 0 };
    let ghost d = if v@.len() > 0 && v@[0] == '+' { v@.drop_first() } else { v@ };
    assert(d =~= v@.skip(start as int));
    if start == v.len() {
        return None;
    }
    let mut acc: u32 = 0;
    let mut i: usize = start;
    while i < v.len()
        invariant
            start <= i <= v.len(),
            start < v.len(),
            d == v@.skip(start as int),
            d == (if v@.len() > 0 && v@[0] == '+' { v@.drop_first() } else { v@ }),
            d.len() > 0,
            2 <= radix <= 36,
            all_digits(d.take(i - start), radix as nat),
            acc == digits_value(d.take(i - start), radix as nat),
            acc <= 255,
        decreases v.len() - i,
    {
        let dv = digit_value(v[i], radix);
        let ghost pre = d.take(i - start);
        let ghost nxt = d.take(i - start + 1);
        assert(nxt.drop_last() =~= pre);
        assert(nxt.last() == v@[i as int]);
        match dv {
            None => {
                assert(!all_digits(d, radix as nat)) by {
                    assert(d[i - start] == v@[i as int]);
                    assert(digit_of(d[i - start], radix as nat) is None);
                }
                return None;
            },
            Some(x) => {
                assert(all_digits(nxt, radix as nat)) by {
                    assert forall|j: int| 0 <= j < nxt.len() implies (#[trigger] digit_of(nxt[j], radix as nat)) is Some by {
                        if j < pre.len() {
                            assert(nxt[j] == pre[j]);
                        }
                    }
                }
                assert(acc * radix <= 255 * 36) by (nonlinear_arith)
                    requires acc <= 255, radix <= 36;
                let next = acc * radix + x;
                if next > 255 {
                    proof {
                        if all_digits(d, radix as nat) {
                            lemma_digits_value_mono(d, radix as nat, i - start + 1);
                        }
                    }
                    return None;
                }
                acc = next;
            },
        }
        i += 1;
    }
    assert(d.take(v.len() - start) =~= d);
    Some(acc as u8)
}

/// The decimal digits of `n`.
pub fn decimal_chars(n: u64) -> (out: Vec<char>)
    ensures
        out@ == decimal(n as nat),
    decreases n,
{
    if n < 10 {
        let mut v: Vec<char> = Vec::new();
        v.push(char_from_ascii((n + 48) as u8));
        v
    } else {
        let mut v = decimal_chars(n / 10);
        v.push(char_from_ascii((n % 10 + 48) as u8));
        v
    }
}

/// Number of UTF-8 bytes that encode `c`.
pub fn char_width(c: char) -> (w: usize)
    ensures
        w == utf8_width(c),
{
    let u = c as u32;
    if u < 0x80 {
        1
    } else if u < 0x800 {
        2
    } else if u < 0x10000 {
        3
    } else {
        4
    }
}

/// The index of the last `c` in `v`, if any.
pub fn find_last(v: &[char], c: char) -> (r: Option<usize>)
    ensures
        match r {
            Some(i) => i == last_index(v@, c),
            None => last_index(v@, c) == -1,
        },
{
    let mut i: usize = v.len();
    assert(v@.take(i as int) =~= v@);
    while i > 0
        invariant
            i <= v.len(),
            last_index(v@, c) == last_index(v@.take(i as int), c),
        decreases i,
    {
        assert(v@.take(i as int).drop_last() =~= v@.take(i - 1));
        if v[i - 1] == c {
            return Some(i - 1);
        }
        i -= 1;
    }
    None
}


/// The number of leading characters of `s` whose encoding takes exactly `b`
/// bytes, if byte `b` falls between two characters.
pub open spec fn prefix_chars(s: Seq<char>, b: nat) -> Option<nat>
    decreases s.len(),
{
    if b == 0 {
        Some(0)
    } else if s.len() == 0 || utf8_width(s[0]) > b {
        None
    } else {
        match prefix_chars(s.drop_first(), (b - utf8_width(s[0])) as nat) {
            Some(k) => Some(k + 1),
            None => None,
        }
    }
}

pub open spec fn shift_opt(o: Option<nat>, k: nat) -> Option<nat> {
    match o {
        Some(x) => Some(x + k),
        None => None,
    }
}

pub proof fn lemma_prefix_chars_bound(s: Seq<char>, b: nat)
    ensures
        prefix_chars(s, b) matches Some(k) ==> k <= s.len() && k <= b,
    decreases s.len(),
{
    if b > 0 && s.len() > 0 && utf8_width(s[0]) <= b {
        lemma_prefix_chars_bound(s.drop_first(), (b - utf8_width(s[0])) as nat);
    }
}

/// The number of leading characters of `v[from..]` whose encoding takes
/// exactly `b` bytes, if byte `b` falls between two characters.
pub fn prefix_chars_at(v: &[char], from: usize, b: usize) -> (r: Option<usize>)
    requires
        from <= v.len(),
    ensures
        match prefix_chars(v@.skip(from as int), b as nat) {
            Some(k) => r == Some(k as usize),
            None => r is None,
        },
{
    let ghost s = v@.skip(from as int);
    let mut i: usize = from;
    let mut left: usize = b;
    proof {
        lemma_prefix_chars_bound(s, b as nat);
    }
    while left > 0
        invariant
            from <= i <= v.len(),
            left <= b,
            s == v@.skip(from as int),
            prefix_chars(s, b as nat) == shift_opt(prefix_chars(v@.skip(i as int), left as nat), (i - from) as nat),
        decreases left,
    {
        if i == v.len() {
            return None;
        }
        let w = char_width(v[i]);
        if w > left {
            return None;
        }
        assert(v@.skip(i as int).drop_first() =~= v@.skip(i + 1));
        left = left - w;
        i += 1;
    }
    proof {
        lemma_prefix_chars_bound(s, b as nat);
    }
    Some(i - from)
}

/// `v[from..]` takes at least `b` bytes to encode.
pub fn has_bytes(v: &[char], from: usize, b: usize) -> (r: bool)
    requires
        from <= v.len(),
        b <= 64,
    ensures
        r == (utf8_len(v@.skip(from as int)) >= b),
{
    let ghost s = v@.skip(from as int);
    let mut i: usize = from;
    let mut acc: usize = 0;
    assert(s.take(0) =~= Seq::<char>::empty());
    while i < v.len() && acc < b
        invariant
            from <= i <= v.len(),
            s == v@.skip(from as int),
            acc == utf8_len(s.take(i - from)),
            acc <= b + 4,
            b <= 64,
        decreases v.len() - i,
    {
        proof {
            lemma_utf8_len_take(s, i - from);
        }
        acc = acc + char_width(v[i]);
        i += 1;
    }
    proof {
        lemma_utf8_len_mono(s, i - from, s.len() as int);
        assert(s.take(s.len() as int) =~= s);
    }
    acc >= b
}

pub proof fn lemma_trim_start_skip(s: Seq<char>, k: int)
    requires
        0 <= k <= s.len(),
        forall|i: int| 0 <= i < k ==> is_ws(#[trigger] s[i]),
    ensures
        trim_start(s) == trim_start(s.skip(k)),
    decreases k,
{
    if k > 0 {
        assert(s.drop_first().skip(k - 1) =~= s.skip(k));
        lemma_trim_start_skip(s.drop_first(), k - 1);
    } else {
        assert(s.skip(0) =~= s);
    }
}

pub proof fn lemma_trim_end_take(s: Seq<char>, k: int)
    requires
        0 <= k <= s.len(),
        forall|i: int| k <= i < s.len() ==> is_ws(#[trigger] s[i]),
    ensures
        trim_end(s) == trim_end(s.take(k)),
    decreases s.len() - k,
{
    if k < s.len() {
        assert(s.drop_last().take(k) =~= s.take(k));
        lemma_trim_end_take(s.drop_last(), k);
    } else {
        assert(s.take(k) =~= s);
    }
}

pub proof fn lemma_utf8_len_take(s: Seq<char>, k: int)
    requires
        0 <= k < s.len(),
    ensures
        utf8_len(s.take(k + 1)) == utf8_len(s.take(k)) + utf8_width(s[k]),
{
    assert(s.take(k + 1).drop_last() =~= s.take(k));
}

pub proof fn lemma_utf8_len_mono(s: Seq<char>, j: int, k: int)
    requires
        0 <= j <= k <= s.len(),
    ensures
        utf8_len(s.take(j)) + (k - j) <= utf8_len(s.take(k)),
    decreases k - j,
{
    if j < k {
        lemma_utf8_len_mono(s, j, k - 1);
        lemma_utf8_len_take(s, k - 1);
    }
}

/// `core::str::Utf8Error`, the error that `core::str::from_utf8` gives; it
/// is carried through unread.
#[verifier::external_type_specification]
#[verifier::external_body]
pub struct ExUtf8Error(core::str::Utf8Error);

/// `core::str::from_utf8`: succeeds exactly on valid UTF-8, and the string
/// it gives is encoded by the same bytes.
#[verifier::external_body]
pub(crate) fn str_from_utf8(data: &[u8]) -> (r: core::result::Result<&str, core::str::Utf8Error>)
    ensures
        r is Ok <==> vstd::utf8::valid_utf8(data@),
        r matches Ok(s) ==> s.spec_bytes() == data@,
{
    core::str::from_utf8(data)
}

/// `String::push`: the string afterwards is the one before with `c` at its end.
#[verifier::external_body]
fn push_char(s: &mut String, c: char)
    ensures
        final(s)@ == old(s)@.push(c),
{
    s.push(c);
}

/// The characters of `s`, in order.
pub fn chars_of(s: &str) -> (out: Vec<char>)
    ensures
        out@ == s@,
{
    let mut out: Vec<char> = Vec::new();
    assert(s@.take(s@.len() as int) =~= s@);
    for c in it: s.chars()
        invariant
            out@ == it.seq().take(it.index() as int),
            it.seq() == s@,
    {
        out.push(c);
    }
    out
}

/// A string holding the characters `v`.
pub fn string_of(v: &[char]) -> (out: String)
    ensures
        out@ == v@,
{
    let mut out = String::new();
    let mut i: usize = 0;
    while i < v.len()
        invariant
            i <= v.len(),
            out@ == v@.take(i as int),
        decreases v.len() - i,
    {
        push_char(&mut out, v[i]);
        assert(v@.take(i + 1) =~= v@.take(i as int).push(v@[i as int]));
        i += 1;
    }
    assert(v@.take(v.len() as int) =~= v@);
    out
}

/// A string holding the characters `v[lo..hi]`.
pub fn string_of_range(v: &[char], lo: usize, hi: usize) -> (out: String)
    requires
        lo <= hi <= v.len(),
    ensures
        out@ == v@.subrange(lo as int, hi as int),
{
    let mut out = String::new();
    let mut i: usize = lo;
    while i < hi
        invariant
            lo <= i <= hi <= v.len(),
            out@ == v@.subrange(lo as int, i as int),
        decreases hi - i,
    {
        push_char(&mut out, v[i]);
        assert(v@.subrange(lo as int, i + 1) =~= v@.subrange(lo as int, i as int).push(v@[i as int]));
        i += 1;
    }
    out
}

/// The characters `v[lo..hi]`.
pub fn copy_range(v: &[char], lo: usize, hi: usize) -> (out: Vec<char>)
    requires
        lo <= hi <= v.len(),
    ensures
        out@ == v@.subrange(lo as int, hi as int),
{
    let mut out: Vec<char> = Vec::new();
    let mut i: usize = lo;
    while i < hi
        invariant
            lo <= i <= hi <= v.len(),
            out@ == v@.subrange(lo as int, i as int),
        decreases hi - i,
    {
        out.push(v[i]);
        assert(v@.subrange(lo as int, i + 1) =~= v@.subrange(lo as int, i as int).push(v@[i as int]));
        i += 1;
    }
    out
}

/// `char::is_whitespace`.
pub fn is_whitespace(c: char) -> (b: bool)
    ensures
        b == is_ws(c),
{
    let u = c as u32;
    (0x09 <= u && u <= 0x0D) || u == 0x20 || u == 0x85 || u == 0xA0 || u == 0x1680 || (0x2000 <= u
        && u <= 0x200A) || u == 0x2028 || u == 0x2029 || u == 0x202F || u == 0x205F || u == 0x3000
}

/// The bounds `lo..hi` of what `str::trim` keeps of `v`.
pub fn trim_bounds(v: &[char]) -> (r: (usize, usize))
    ensures
        r.0 <= r.1 <= v.len(),
        v@.subrange(r.0 as int, r.1 as int) == trim(v@),
{
    let n = v.len();
    let mut lo: usize = 0;
    while lo < n && is_whitespace(v[lo])
        invariant
            lo <= n == v.len(),
            forall|i: int| 0 <= i < lo ==> is_ws(#[trigger] v@[i]),
        decreases n - lo,
    {
        lo += 1;
    }
    proof {
        lemma_trim_start_skip(v@, lo as int);
        let t = v@.skip(lo as int);
        if t.len() > 0 {
            assert(t[0] == v@[lo as int]);
        }
        assert(trim_start(v@) == t);
    }
    let ghost t = v@.skip(lo as int);
    let mut hi: usize = n;
    while hi > lo && is_whitespace(v[hi - 1])
        invariant
            lo <= hi <= n == v.len(),
            t == v@.skip(lo as int),
            forall|i: int| hi - lo <= i < t.len() ==> is_ws(#[trigger] t[i]),
        decreases hi - lo,
    {
        hi -= 1;
    }
    proof {
        lemma_trim_end_take(t, hi - lo);
        let u = t.take(hi - lo);
        if u.len() > 0 {
            assert(u.last() == v@[hi - 1]);
        }
        assert(u =~= v@.subrange(lo as int, hi as int));
    }
    (lo, hi)
}

/// The string `a` followed by `b`.
pub fn concat(a: &str, b: &str) -> (s: String)
    ensures
        s@ == a@ + b@,
{
    let mut v = chars_of(a);
    let w = chars_of(b);
    let mut i: usize = 0;
    let ghost start = v@;
    while i < w.len()
        invariant
            i <= w@.len(),
            start == a@,
            w@ == b@,
            v@ == start + w@.take(i as int),
        decreases w.len() - i,
    {
        v.push(w[i]);
        assert(w@.take(i + 1) =~= w@.take(i as int).push(w@[i as int]));
        i += 1;
    }
    assert(w@.take(w.len() as int) =~= w@);
    string_of(v.as_slice())
}

/// The strings holding the pieces `parts[from..]`.
pub fn strings_from(parts: &Vec<Vec<char>>, from: usize) -> (out: Vec<String>)
    requires
        from <= parts@.len(),
    ensures
        out.deep_view() == parts@.skip(from as int).map_values(|p: Vec<char>| p@),
{
    let mut out: Vec<String> = Vec::new();
    let mut i: usize = from;
    while i < parts.len()
        invariant
            from <= i <= parts@.len(),
            out.deep_view() == parts@.subrange(from as int, i as int).map_values(|p: Vec<char>| p@),
        decreases parts.len() - i,
    {
        let s = string_of(parts[i].as_slice());
        let ghost before = out@;
        out.push(s);
        assert(out@ == before.push(s));
        assert(out.deep_view() =~= before.map_values(|x: String| x.deep_view()).push(s@));
        let ghost sub = parts@.subrange(from as int, i as int);
        assert(parts@.subrange(from as int, i + 1) =~= sub.push(parts@[i as int]));
        assert(sub.push(parts@[i as int]).map_values(|p: Vec<char>| p@) =~= sub.map_values(|p: Vec<char>| p@).push(parts@[i as int]@));
        i += 1;
    }
    assert(parts@.subrange(from as int, parts@.len() as int) =~= parts@.skip(from as int));
    out
}

/// The characters that `str::trim` keeps of `v`.
pub fn trim_chars(v: &[char]) -> (out: Vec<char>)
    ensures
        out@ == trim(v@),
{
    let (lo, hi) = trim_bounds(v);
    copy_range(v, lo, hi)
}

/// `v[at..]` begins with `p`.
pub fn starts_with_at(v: &[char], at: usize, p: &[char]) -> (b: bool)
    requires
        at <= v.len(),
    ensures
        b == starts_with(v@.skip(at as int), p@),
{
    if p.len() > v.len() - at {
        return false;
    }
    let mut i: usize = 0;
    while i < p.len()
        invariant
            i <= p.len() <= v.len() - at,
            at <= v.len(),
            forall|j: int| 0 <= j < i ==> v@[at + j] == p@[j],
        decreases p.len() - i,
    {
        if v[at + i] != p[i] {
            assert(v@.skip(at as int).subrange(0, p.len() as int)[i as int] != p@[i as int]);
            return false;
        }
        i += 1;
    }
    assert(v@.skip(at as int).subrange(0, p.len() as int) =~= p@);
    true
}

/// `v` begins with the text `lit`.
pub fn starts_with_lit(v: &[char], lit: &str) -> (b: bool)
    ensures
        b == starts_with(v@, lit@),
{
    let p = chars_of(lit);
    assert(v@.skip(0) =~= v@);
    starts_with_at(v, 0, p.as_slice())
}

/// `v` equals the text `lit`.
pub fn eq_lit(v: &[char], lit: &str) -> (b: bool)
    ensures
        b == (v@ == lit@),
{
    let p = chars_of(lit);
    if p.len() != v.len() {
        return false;
    }
    let r = starts_with_lit(v, lit);
    assert(v@.subrange(0, v@.len() as int) =~= v@);
    r
}

/// The text `lit` occurs in `v`.
pub fn contains_lit(v: &[char], lit: &str) -> (b: bool)
    ensures
        b == contains(v@, lit@),
{
    let p = chars_of(lit);
    if p.len() > v.len() {
        return false;
    }
    if p.len() == 0 {
        assert(v@.subrange(0int, 0int + lit@.len()) =~= lit@);
        return true;
    }
    let last = v.len() - p.len();
    let mut i: usize = 0;
    while i <= last
        invariant
            last < v.len(),
            last == v.len() - p.len(),
            p@ == lit@,
            forall|j: int| 0 <= j < i ==> #[trigger] v@.subrange(j, j + p@.len()) != p@,
        decreases last + 1 - i,
    {
        if starts_with_at(v, i, p.as_slice()) {
            assert(v@.skip(i as int).subrange(0, p@.len() as int) =~= v@.subrange(
                i as int,
                i + p@.len(),
            ));
            return true;
        }
        assert(v@.skip(i as int).subrange(0, p@.len() as int) =~= v@.subrange(
            i as int,
            i + p@.len(),
        ));
        i += 1;
    }
    false
}

/// `str::to_ascii_lowercase` on the characters `v`.
pub fn lower_chars(v: &[char]) -> (out: Vec<char>)
    ensures
        out@ == lower(v@),
{
    let mut out: Vec<char> = Vec::new();
    let mut i: usize = 0;
    while i < v.len()
        invariant
            i <= v.len(),
            out@ == lower(v@).take(i as int),
        decreases v.len() - i,
    {
        let c = v[i];
        let l = if 'A' <= c && c <= 'Z' {
            char_from_ascii(c as u8 + 32)
        } else {
            c
        };
        out.push(l);
        assert(lower(v@).take(i + 1) =~= lower(v@).take(i as int).push(l));
        i += 1;
    }
    assert(lower(v@).take(v.len() as int) =~= lower(v@));
    out
}

/// The character with ASCII code `b`.
pub fn char_from_ascii(b: u8) -> (c: char)
    requires
        b < 128,
    ensures
        c as u32 == b as u32,
{
    b as char
}

/// The pieces of `v` between occurrences of `d`, as `str::split` gives them.
pub fn split_chars(v: &[char], d: char) -> (out: Vec<Vec<char>>)
    ensures
        out@.len() == split_on(v@, d).len(),
        forall|i: int| 0 <= i < out@.len() ==> #[trigger] out@[i]@ == split_on(v@, d)[i],
{
    let mut out: Vec<Vec<char>> = Vec::new();
    let mut cur: Vec<char> = Vec::new();
    let mut i: usize = 0;
    assert(v@.take(0) =~= Seq::<char>::empty());
    while i < v.len()
        invariant
            i <= v.len(),
            out@.len() + 1 == split_on(v@.take(i as int), d).len(),
            forall|j: int| 0 <= j < out@.len() ==> #[trigger] out@[j]@ == split_on(v@.take(i as int), d)[j],
            cur@ == split_on(v@.take(i as int), d).last(),
        decreases v.len() - i,
    {
        let c = v[i];
        assert(v@.take(i + 1).drop_last() =~= v@.take(i as int));
        if c == d {
            let done = cur;
            out.push(done);
            cur = Vec::new();
        } else {
            cur.push(c);
        }
        i += 1;
    }
    assert(v@.take(v.len() as int) =~= v@);
    out.push(cur);
    out
}

/// The lines of `v`, as `str::lines` gives them.
pub fn lines_of(v: &[char]) -> (out: Vec<Vec<char>>)
    ensures
        out@.len() == lines(v@).len(),
        forall|i: int| 0 <= i < out@.len() ==> #[trigger] out@[i]@ == lines(v@)[i],
{
    let pieces = split_chars(v, '\n');
    let ghost p = split_on(v@, '\n');
    let mut out: Vec<Vec<char>> = Vec::new();
    let n = pieces.len();
    let mut i: usize = 0;
    proof {
        lemma_split_nonempty(v@, '\n');
    }
    while i + 1 < n
        invariant
            n == pieces@.len() == p.len() >= 1,
            i + 1 <= n,
            out@.len() == i,
            forall|j: int| 0 <= j < pieces@.len() ==> #[trigger] pieces@[j]@ == p[j],
            forall|j: int| 0 <= j < i ==> #[trigger] out@[j]@ == strip_cr(p[j]),
        decreases n - i,
    {
        let piece = &pieces[i];
        let k = piece.len();
        let line = if k > 0 && piece[k - 1] == '\r' {
            copy_range(piece.as_slice(), 0, k - 1)
        } else {
            copy_range(piece.as_slice(), 0, k)
        };
        proof {
            assert(piece@ == p[i as int]);
            assert(piece@.subrange(0, k as int) =~= piece@);
            if k > 0 {
                assert(piece@.subrange(0, k - 1) =~= piece@.drop_last());
            }
        }
        out.push(line);
        i += 1;
    }
    let last = &pieces[n - 1];
    if last.len() > 0 {
        let l = copy_range(last.as_slice(), 0, last.len());
        assert(last@.subrange(0, last@.len() as int) =~= last@);
        out.push(l);
    }
    proof {
        let head = p.drop_last().map_values(|l: Seq<char>| strip_cr(l));
        assert(p.last() == pieces@[n - 1]@);
        if p.last().len() == 0 {
            assert(lines(v@) == head);
        } else {
            assert(lines(v@) == head.push(p.last()));
        }
    }
    out
}

pub proof fn lemma_split_nonempty(s: Seq<char>, d: char)
    ensures
        split_on(s, d).len() >= 1,
    decreases s.len(),
{
    if s.len() > 0 {
        lemma_split_nonempty(s.drop_last(), d);
    }
}

} // verus!
