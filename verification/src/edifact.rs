//! UN/EDIFACT interchanges: service string advice, segments, messages, and
//! the cargo movements and port calls that port messages carry.
use vstd::prelude::*;
use crate::error::{HarborError, Result, Fault, outcome};
use crate::model::{
    CargoEvent, EdifactSummary, PortCall, SpecCargo, SpecPortCall, SpecSummary, seq_view,
};
use crate::text::{
    trim, starts_with, utf8_len, prefix_chars, vec_views, is_alnum, chars_of, trim_chars,
    string_of, starts_with_lit, has_bytes, prefix_chars_at, lemma_prefix_chars_bound, eq_lit,
    char_width, lemma_utf8_len_take, lemma_utf8_len_mono, strings_from,
};

verus! {

/// The service characters of an interchange.
#[derive(Debug, Clone, Copy, PartialEq, Eq, Structural)]
pub struct Separators {
    pub component: char,
    pub element: char,
    pub decimal: char,
    pub release: char,
    pub repetition: char,
    pub segment: char,
}

pub open spec fn default_separators() -> Separators {
    Separators {
        component: ':',
        element: '+',
        decimal: '.',
        release: '?',
        repetition: '*',
        segment: '\'',
    }
}

impl Default for Separators {
    fn default() -> (s: Self)
        ensures
            s == default_separators(),
    {
        Separators {
            component: ':',
            element: '+',
            decimal: '.',
            release: '?',
            repetition: '*',
            segment: '\'',
        }
    }
}

/// A segment: its tag, and its elements split into components.
#[derive(Debug, Clone)]
pub struct Segment {
    pub tag: String,
    pub elements: Vec<Vec<String>>,
}

pub struct SpecSegment {
    pub tag: Seq<char>,
    pub elements: Seq<Seq<Seq<char>>>,
}

impl View for Segment {
    type V = SpecSegment;

    open spec fn view(&self) -> SpecSegment {
        SpecSegment { tag: self.tag@, elements: self.elements.deep_view() }
    }
}

/// A message: the segments from its `UNH` header on.
#[derive(Debug, Clone)]
pub struct EdifactMessage {
    pub reference: String,
    pub message_type: String,
    pub segments: Vec<Segment>,
}

pub struct SpecMessage {
    pub reference: Seq<char>,
    pub message_type: Seq<char>,
    pub segments: Seq<SpecSegment>,
}

impl View for EdifactMessage {
    type V = SpecMessage;

    open spec fn view(&self) -> SpecMessage {
        SpecMessage {
            reference: self.reference@,
            message_type: self.message_type@,
            segments: seq_view(self.segments@),
        }
    }
}

/// An interchange: the `UNB` header data and the messages.
#[derive(Debug, Clone)]
pub struct EdifactInterchange {
    pub syntax_identifier: Option<String>,
    pub sender: Option<String>,
    pub recipient: Option<String>,
    pub control_ref: Option<String>,
    pub messages: Vec<EdifactMessage>,
    pub separators: Separators,
}

pub struct SpecInterchange {
    pub syntax_identifier: Option<Seq<char>>,
    pub sender: Option<Seq<char>>,
    pub recipient: Option<Seq<char>>,
    pub control_ref: Option<Seq<char>>,
    pub messages: Seq<SpecMessage>,
    pub separators: Separators,
}

impl View for EdifactInterchange {
    type V = SpecInterchange;

    open spec fn view(&self) -> SpecInterchange {
        SpecInterchange {
            syntax_identifier: self.syntax_identifier.deep_view(),
            sender: self.sender.deep_view(),
            recipient: self.recipient.deep_view(),
            control_ref: self.control_ref.deep_view(),
            messages: seq_view(self.messages@),
            separators: self.separators,
        }
    }
}

pub open spec fn char_or(h: Seq<char>, j: int, d: char) -> char {
    if j < h.len() {
        h[j]
    } else {
        d
    }
}

/// The separators an interchange declares and where its segments start. A
/// `UNA` service string advice names the six characters in its bytes 3 to 9;
/// without one the defaults hold. An advice whose byte 9 splits a
/// character is a syntax error.
pub open spec fn una_spec(t: Seq<char>) -> core::result::Result<(Separators, int), Fault> {
    if starts_with(t, "UNA"@) && utf8_len(t) >= 9 {
        match prefix_chars(t.skip(3), 6) {
            None => Err(Fault::EdifactSyntax("service string advice"@)),
            Some(k) => {
                let h = t.subrange(3, 3 + k as int);
                Ok(
                    (
                        Separators {
                            component: char_or(h, 0, ':'),
                            element: char_or(h, 1, '+'),
                            decimal: char_or(h, 2, '.'),
                            release: char_or(h, 3, '?'),
                            repetition: char_or(h, 4, '*'),
                            segment: char_or(h, 5, '\''),
                        },
                        3 + k as int,
                    ),
                )
            },
        }
    } else {
        Ok((default_separators(), 0))
    }
}

/// The state of the segment scan after the characters `s`: the segments
/// finished, the one being read, and whether the last character released
/// the next one.
pub open spec fn segment_scan(s: Seq<char>, seps: Separators) -> (Seq<Seq<char>>, Seq<char>, bool)
    decreases s.len(),
{
    if s.len() == 0 {
        (Seq::empty(), Seq::empty(), false)
    } else {
        let (out, cur, released) = segment_scan(s.drop_last(), seps);
        let ch = s.last();
        if released {
            (out, cur.push(ch), false)
        } else if ch == seps.release {
            (out, cur, true)
        } else if ch == seps.segment {
            let t = trim(cur);
            (if t.len() > 0 { out.push(t) } else { out }, Seq::empty(), false)
        } else {
            (out, cur.push(ch), false)
        }
    }
}

/// The trimmed, non-empty segment texts of `s`. A release character makes the
/// next character ordinary and is itself dropped.
pub open spec fn split_segments_spec(s: Seq<char>, seps: Separators) -> Seq<Seq<char>> {
    let (out, cur, _) = segment_scan(s, seps);
    let t = trim(cur);
    if t.len() > 0 {
        out.push(t)
    } else {
        out
    }
}

/// The state of splitting at `delim` after the characters `s`.
pub open spec fn unreleased_scan(s: Seq<char>, delim: char, release: char) -> (Seq<Seq<char>>, Seq<char>, bool)
    decreases s.len(),
{
    if s.len() == 0 {
        (Seq::empty(), Seq::empty(), false)
    } else {
        let (parts, cur, released) = unreleased_scan(s.drop_last(), delim, release);
        let ch = s.last();
        if released {
            (parts, cur.push(ch), false)
        } else if ch == release {
            (parts, cur, true)
        } else if ch == delim {
            (parts.push(cur), Seq::empty(), false)
        } else {
            (parts, cur.push(ch), false)
        }
    }
}

/// The pieces of `s` between the occurrences of `delim` that the release
/// character does not escape.
pub open spec fn split_unreleased_spec(s: Seq<char>, delim: char, release: char) -> Seq<Seq<char>> {
    let (parts, cur, _) = unreleased_scan(s, delim, release);
    parts.push(cur)
}

/// A valid segment tag: not empty, and letters and digits where longer than
/// three bytes.
pub open spec fn tag_ok(tag: Seq<char>) -> bool {
    tag.len() > 0 && !(utf8_len(tag) > 3 && !(forall|i: int| 0 <= i < tag.len() ==> is_alnum(#[trigger] tag[i])))
}

/// The segment that the text `s` holds.
pub open spec fn segment_spec(s: Seq<char>, seps: Separators) -> core::result::Result<SpecSegment, Fault> {
    let parts = split_unreleased_spec(s, seps.element, seps.release);
    let tag = parts[0];
    if !tag_ok(tag) {
        Err(Fault::EdifactSyntax("segment tag"@))
    } else {
        Ok(SpecSegment {
            tag,
            elements: parts.drop_first().map_values(|p: Seq<char>| split_unreleased_spec(p, seps.component, seps.release)),
        })
    }
}

/// The segments that parse, in order.
pub open spec fn parsed_segments(raw: Seq<Seq<char>>, seps: Separators) -> Seq<SpecSegment>
    decreases raw.len(),
{
    if raw.len() == 0 {
        Seq::empty()
    } else {
        let prev = parsed_segments(raw.drop_last(), seps);
        match segment_spec(raw.last(), seps) {
            Ok(seg) => prev.push(seg),
            Err(_) => prev,
        }
    }
}

/// Component `j` of element `i`, where the segment has it.
pub open spec fn component(seg: SpecSegment, i: int, j: int) -> Option<Seq<char>> {
    if 0 <= i < seg.elements.len() && 0 <= j < seg.elements[i].len() {
        Some(seg.elements[i][j])
    } else {
        None
    }
}

pub open spec fn unwrap_or(o: Option<Seq<char>>, d: Seq<char>) -> Seq<char> {
    match o {
        Some(x) => x,
        None => d,
    }
}

/// The state of reading an interchange's segments in order.
pub struct ReadState {
    pub syntax_identifier: Option<Seq<char>>,
    pub sender: Option<Seq<char>>,
    pub recipient: Option<Seq<char>>,
    pub control_ref: Option<Seq<char>>,
    pub messages: Seq<SpecMessage>,
    pub current: Option<SpecMessage>,
}

pub open spec fn initial_read_state() -> ReadState {
    ReadState {
        syntax_identifier: None,
        sender: None,
        recipient: None,
        control_ref: None,
        messages: Seq::empty(),
        current: None,
    }
}

pub open spec fn close_current(st: ReadState) -> Seq<SpecMessage> {
    match st.current {
        Some(m) => st.messages.push(m),
        None => st.messages,
    }
}

/// One segment read: `UNB` sets the header data, `UNH` opens a message
/// (closing an open one), `UNT` closes the open message, `UNZ` is ignored,
/// and any other segment joins the open message.
pub open spec fn read_step(st: ReadState, seg: SpecSegment) -> ReadState {
    if seg.tag == "UNB"@ {
        ReadState {
            syntax_identifier: component(seg, 0, 0),
            sender: component(seg, 1, 0),
            recipient: component(seg, 2, 0),
            control_ref: component(seg, 4, 0),
            ..st
        }
    } else if seg.tag == "UNH"@ {
        ReadState {
            messages: close_current(st),
            current: Some(SpecMessage {
                reference: unwrap_or(component(seg, 0, 0), Seq::empty()),
                message_type: unwrap_or(component(seg, 1, 0), "UNKNOWN"@),
                segments: seq![seg],
            }),
            ..st
        }
    } else if seg.tag == "UNT"@ {
        match st.current {
            Some(m) => ReadState {
                messages: st.messages.push(SpecMessage { segments: m.segments.push(seg), ..m }),
                current: None,
                ..st
            },
            None => st,
        }
    } else if seg.tag == "UNZ"@ {
        st
    } else {
        match st.current {
            Some(m) => ReadState { current: Some(SpecMessage { segments: m.segments.push(seg), ..m }), ..st },
            None => st,
        }
    }
}

pub open spec fn read_all(segs: Seq<SpecSegment>) -> ReadState
    decreases segs.len(),
{
    if segs.len() == 0 {
        initial_read_state()
    } else {
        read_step(read_all(segs.drop_last()), segs.last())
    }
}

/// The message is not empty and starts with the `UNH` segment that gives
/// its reference and type.
pub open spec fn opened_by_header(m: SpecMessage) -> bool {
    &&& m.segments.len() >= 1
    &&& m.segments[0].tag == "UNH"@
    &&& m.reference == unwrap_or(component(m.segments[0], 0, 0), Seq::empty())
    &&& m.message_type == unwrap_or(component(m.segments[0], 1, 0), "UNKNOWN"@)
}

proof fn lemma_opened_push(m: SpecMessage, seg: SpecSegment)
    requires
        opened_by_header(m),
    ensures
        opened_by_header(SpecMessage { segments: m.segments.push(seg), ..m }),
{
    assert(m.segments.push(seg)[0] == m.segments[0]);
}

proof fn lemma_read_all_opened(segs: Seq<SpecSegment>)
    ensures
        forall|j: int|
            0 <= j < read_all(segs).messages.len() ==> opened_by_header(
                #[trigger] read_all(segs).messages[j],
            ),
        read_all(segs).current matches Some(m) ==> opened_by_header(m),
    decreases segs.len(),
{
    if segs.len() > 0 {
        let prev = segs.drop_last();
        let seg = segs.last();
        lemma_read_all_opened(prev);
        let st = read_all(prev);
        let next = read_all(segs);
        assert(next == read_step(st, seg));
        if seg.tag == "UNH"@ {
            let m = SpecMessage {
                reference: unwrap_or(component(seg, 0, 0), Seq::empty()),
                message_type: unwrap_or(component(seg, 1, 0), "UNKNOWN"@),
                segments: seq![seg],
            };
            assert(opened_by_header(m));
            assert forall|j: int| 0 <= j < next.messages.len() implies opened_by_header(
                #[trigger] next.messages[j],
            ) by {
                if j < st.messages.len() {
                    assert(next.messages[j] == st.messages[j]);
                }
            }
        } else if seg.tag == "UNT"@ {
            if let Some(m) = st.current {
                lemma_opened_push(m, seg);
                assert forall|j: int| 0 <= j < next.messages.len() implies opened_by_header(
                    #[trigger] next.messages[j],
                ) by {
                    if j < st.messages.len() {
                        assert(next.messages[j] == st.messages[j]);
                    }
                }
            }
        } else if seg.tag != "UNB"@ && seg.tag != "UNZ"@ {
            if let Some(m) = st.current {
                lemma_opened_push(m, seg);
            }
        }
    }
}

/// Every message of an interchange read from text is opened by its `UNH`
/// header segment, which gives its reference and type; so no such message
/// is without segments.
pub proof fn lemma_interchange_messages_opened(text: Seq<char>)
    ensures
        interchange_spec(text) matches Ok(i) ==> forall|j: int|
            0 <= j < i.messages.len() ==> opened_by_header(#[trigger] i.messages[j]),
{
    if let Ok((seps, at)) = una_spec(text) {
        let raw = split_segments_spec(text.skip(at), seps);
        let segs = parsed_segments(raw, seps);
        lemma_read_all_opened(segs);
        let st = read_all(segs);
        let ms = close_current(st);
        assert forall|j: int| 0 <= j < ms.len() implies opened_by_header(#[trigger] ms[j]) by {
            if j < st.messages.len() {
                assert(ms[j] == st.messages[j]);
            }
        }
    }
}

/// The interchange that `text` holds.
pub open spec fn interchange_spec(text: Seq<char>) -> core::result::Result<SpecInterchange, Fault> {
    match una_spec(text) {
        Err(e) => Err(e),
        Ok((seps, at)) => {
            let raw = split_segments_spec(text.skip(at), seps);
            if raw.len() > 4096 {
                Err(Fault::LimitExceeded("edifact segments"@))
            } else {
                let st = read_all(parsed_segments(raw, seps));
                Ok(
                    SpecInterchange {
                        syntax_identifier: st.syntax_identifier,
                        sender: st.sender,
                        recipient: st.recipient,
                        control_ref: st.control_ref,
                        messages: close_current(st),
                        separators: seps,
                    },
                )
            }
        },
    }
}

/// Parses an interchange.
pub fn parse_interchange(text: &str) -> (r: Result<EdifactInterchange>)
    ensures
        outcome(r, interchange_spec(text@)),
{
    let t = chars_of(text);
    let (separators, at) = parse_una(t.as_slice())?;
    let raw = split_segments(t.as_slice(), at, &separators);
    if raw.len() > 4096 {
        return Err(HarborError::LimitExceeded("edifact segments"));
    }
    let ghost raw_v = vec_views(raw@);
    let ghost seps = separators;
    let mut syntax_identifier: Option<String> = None;
    let mut sender: Option<String> = None;
    let mut recipient: Option<String> = None;
    let mut control_ref: Option<String> = None;
    let mut messages: Vec<EdifactMessage> = Vec::new();
    let mut current: Option<EdifactMessage> = None;
    let mut i: usize = 0;
    assert(raw_v.take(0) =~= Seq::<Seq<char>>::empty());
    assert(seq_view(messages@) =~= Seq::<SpecMessage>::empty());
    while i < raw.len()
        invariant
            i <= raw@.len(),
            raw_v == vec_views(raw@),
            seps == separators,
            ({
                let st = read_all(parsed_segments(raw_v.take(i as int), seps));
                &&& syntax_identifier.deep_view() == st.syntax_identifier
                &&& sender.deep_view() == st.sender
                &&& recipient.deep_view() == st.recipient
                &&& control_ref.deep_view() == st.control_ref
                &&& seq_view(messages@) == st.messages
                &&& opt_message_view(current) == st.current
            }),
        decreases raw.len() - i,
    {
        let ghost prev = raw_v.take(i as int);
        assert(raw_v.take(i + 1).drop_last() =~= prev);
        assert(raw_v.take(i + 1).last() == raw@[i as int]@);
        match parse_segment(raw[i].as_slice(), &separators) {
            Ok(segment) => {
                let ghost p = parsed_segments(prev, seps);
                assert(parsed_segments(raw_v.take(i + 1), seps) == p.push(segment@));
                assert(p.push(segment@).drop_last() =~= p);
                read_segment(
                    segment,
                    &mut syntax_identifier,
                    &mut sender,
                    &mut recipient,
                    &mut control_ref,
                    &mut messages,
                    &mut current,
                );
            },
            Err(_) => {},
        }
        i += 1;
    }
    assert(raw_v.take(raw@.len() as int) =~= raw_v);
    let ghost before = seq_view(messages@);
    if let Some(message) = current {
        messages.push(message);
        assert(seq_view(messages@) =~= before.push(message@));
    }
    Ok(
        EdifactInterchange {
            syntax_identifier,
            sender,
            recipient,
            control_ref,
            messages,
            separators,
        },
    )
}

pub open spec fn opt_message_view(m: Option<EdifactMessage>) -> Option<SpecMessage> {
    match m {
        Some(x) => Some(x@),
        None => None,
    }
}

/// The component `j` of element `i`, where the segment has it.
fn component_of(seg: &Segment, i: usize, j: usize) -> (r: Option<String>)
    ensures
        r.deep_view() == component(seg@, i as int, j as int),
{
    if i < seg.elements.len() && j < seg.elements[i].len() {
        assert(seg@.elements[i as int] == seg.elements@[i as int].deep_view());
        Some(seg.elements[i][j].clone())
    } else {
        None
    }
}

/// The segment's tag is the text `lit`.
fn tag_is(seg: &Segment, lit: &str) -> (b: bool)
    ensures
        b == (seg@.tag == lit@),
{
    eq_lit(chars_of(seg.tag.as_str()).as_slice(), lit)
}

/// Applies one parsed segment to the state of reading an interchange.
fn read_segment(
    segment: Segment,
    syntax_identifier: &mut Option<String>,
    sender: &mut Option<String>,
    recipient: &mut Option<String>,
    control_ref: &mut Option<String>,
    messages: &mut Vec<EdifactMessage>,
    current: &mut Option<EdifactMessage>,
)
    ensures
        ({
            let st = ReadState {
                syntax_identifier: old(syntax_identifier).deep_view(),
                sender: old(sender).deep_view(),
                recipient: old(recipient).deep_view(),
                control_ref: old(control_ref).deep_view(),
                messages: seq_view(old(messages)@),
                current: opt_message_view(*old(current)),
            };
            let nx = read_step(st, segment@);
            &&& final(syntax_identifier).deep_view() == nx.syntax_identifier
            &&& final(sender).deep_view() == nx.sender
            &&& final(recipient).deep_view() == nx.recipient
            &&& final(control_ref).deep_view() == nx.control_ref
            &&& seq_view(final(messages)@) == nx.messages
            &&& opt_message_view(*final(current)) == nx.current
        }),
{
    let ghost msgs0 = seq_view(messages@);
    if tag_is(&segment, "UNB") {
        *syntax_identifier = component_of(&segment, 0, 0);
        *sender = component_of(&segment, 1, 0);
        *recipient = component_of(&segment, 2, 0);
        *control_ref = component_of(&segment, 4, 0);
    } else if tag_is(&segment, "UNH") {
        if let Some(message) = current.take() {
            messages.push(message);
            assert(seq_view(messages@) =~= msgs0.push(message@));
        }
        let reference = match component_of(&segment, 0, 0) {
            Some(x) => x,
            None => String::new(),
        };
        let message_type = match component_of(&segment, 1, 0) {
            Some(x) => x,
            None => string_of(chars_of("UNKNOWN").as_slice()),
        };
        let ghost sv = segment@;
        let mut segments: Vec<Segment> = Vec::new();
        segments.push(segment);
        assert(seq_view(segments@) =~= seq![sv]);
        *current = Some(EdifactMessage { reference, message_type, segments });
    } else if tag_is(&segment, "UNT") {
        if let Some(mut message) = current.take() {
            let ghost mv = message@;
            let ghost sv = segment@;
            message.segments.push(segment);
            assert(seq_view(message.segments@) =~= mv.segments.push(sv));
            let ghost m2 = message@;
            messages.push(message);
            assert(seq_view(messages@) =~= msgs0.push(m2));
        }
    } else if tag_is(&segment, "UNZ") {
    } else {
        if let Some(message) = current {
            let ghost mv = message@;
            let ghost sv = segment@;
            message.segments.push(segment);
            assert(seq_view(message.segments@) =~= mv.segments.push(sv));
        }
    }
}

/// Reads the service string advice: the separators, and where the segments start.
fn parse_una(t: &[char]) -> (r: Result<(Separators, usize)>)
    ensures
        match una_spec(t@) {
            Ok((seps, at)) => r matches Ok(x) && x.0 == seps && x.1 == at && x.1 <= t@.len(),
            Err(f) => r matches Err(e) && e@ == f,
        },
{
    assert(t@.skip(0) =~= t@);
    proof {
        reveal_strlit("UNA");
    }
    if starts_with_lit(t, "UNA") && has_bytes(t, 0, 9) {
        let k = match prefix_chars_at(t, 3, 6) {
            Some(k) => k,
            None => {
                return Err(HarborError::EdifactSyntax("service string advice"));
            },
        };
        proof {
            lemma_prefix_chars_bound(t@.skip(3), 6);
        }
        let component = if 0 < k { t[3] } else { ':' };
        let element = if 1 < k { t[4] } else { '+' };
        let decimal = if 2 < k { t[5] } else { '.' };
        let release = if 3 < k { t[6] } else { '?' };
        let repetition = if 4 < k { t[7] } else { '*' };
        let segment = if 5 < k { t[8] } else { '\'' };
        Ok((Separators { component, element, decimal, release, repetition, segment }, 3 + k))
    } else {
        Ok((Separators::default(), 0))
    }
}

/// The trimmed, non-empty segment texts of `t[at..]`.
fn split_segments(t: &[char], at: usize, separators: &Separators) -> (out: Vec<Vec<char>>)
    requires
        at <= t@.len(),
    ensures
        vec_views(out@) == split_segments_spec(t@.skip(at as int), *separators),
{
    let ghost s = t@.skip(at as int);
    let mut out: Vec<Vec<char>> = Vec::new();
    let mut current: Vec<char> = Vec::new();
    let mut released = false;
    let mut i: usize = at;
    assert(s.take(0) =~= Seq::<char>::empty());
    assert(vec_views(out@) =~= Seq::<Seq<char>>::empty());
    while i < t.len()
        invariant
            at <= i <= t@.len(),
            s == t@.skip(at as int),
            segment_scan(s.take(i - at), *separators) == (vec_views(out@), current@, released),
        decreases t.len() - i,
    {
        let ch = t[i];
        assert(s.take(i - at + 1).drop_last() =~= s.take(i - at));
        assert(s.take(i - at + 1).last() == ch);
        if released {
            current.push(ch);
            released = false;
        } else if ch == separators.release {
            released = true;
        } else if ch == separators.segment {
            let trimmed = trim_chars(current.as_slice());
            if trimmed.len() > 0 {
                let ghost before = vec_views(out@);
                let ghost tv = trimmed@;
                out.push(trimmed);
                assert(vec_views(out@) =~= before.push(tv));
            }
            current = Vec::new();
        } else {
            current.push(ch);
        }
        i += 1;
    }
    assert(s.take(t@.len() - at) =~= s);
    let trimmed = trim_chars(current.as_slice());
    if trimmed.len() > 0 {
        let ghost before = vec_views(out@);
        let ghost tv = trimmed@;
        out.push(trimmed);
        assert(vec_views(out@) =~= before.push(tv));
    }
    out
}

/// The pieces of `v` between the occurrences of `delim` that `release` does not escape.
fn split_unreleased(v: &[char], delim: char, release: char) -> (out: Vec<Vec<char>>)
    ensures
        vec_views(out@) == split_unreleased_spec(v@, delim, release),
{
    let mut parts: Vec<Vec<char>> = Vec::new();
    let mut current: Vec<char> = Vec::new();
    let mut released = false;
    let mut i: usize = 0;
    assert(v@.take(0) =~= Seq::<char>::empty());
    assert(vec_views(parts@) =~= Seq::<Seq<char>>::empty());
    while i < v.len()
        invariant
            i <= v@.len(),
            unreleased_scan(v@.take(i as int), delim, release) == (vec_views(parts@), current@, released),
        decreases v.len() - i,
    {
        let ch = v[i];
        assert(v@.take(i + 1).drop_last() =~= v@.take(i as int));
        assert(v@.take(i + 1).last() == ch);
        if released {
            current.push(ch);
            released = false;
        } else if ch == release {
            released = true;
        } else if ch == delim {
            let ghost before = vec_views(parts@);
            let ghost cv = current@;
            let done = current;
            parts.push(done);
            assert(vec_views(parts@) =~= before.push(cv));
            current = Vec::new();
        } else {
            current.push(ch);
        }
        i += 1;
    }
    assert(v@.take(v@.len() as int) =~= v@);
    let ghost before = vec_views(parts@);
    let ghost cv = current@;
    parts.push(current);
    assert(vec_views(parts@) =~= before.push(cv));
    parts
}

/// The tag is valid (see `tag_ok`).
fn check_tag(tag: &[char]) -> (b: bool)
    ensures
        b == tag_ok(tag@),
{
    if tag.len() == 0 {
        return false;
    }
    let mut bytes: usize = 0;
    let mut all = true;
    let mut i: usize = 0;
    assert(tag@.take(0) =~= Seq::<char>::empty());
    while i < tag.len()
        invariant
            i <= tag@.len(),
            bytes == if crate::text::utf8_len(tag@.take(i as int)) > 4 { 4 } else { crate::text::utf8_len(tag@.take(i as int)) },
            all == (forall|j: int| 0 <= j < i ==> is_alnum(#[trigger] tag@[j])),
        decreases tag.len() - i,
    {
        proof {
            lemma_utf8_len_take(tag@, i as int);
        }
        let c = tag[i];
        let w = char_width(c);
        bytes = if bytes + w > 4 { 4 } else { bytes + w };
        let ok = ('0' <= c && c <= '9') || ('a' <= c && c <= 'z') || ('A' <= c && c <= 'Z');
        all = all && ok;
        i += 1;
    }
    assert(tag@.take(tag@.len() as int) =~= tag@);
    !(bytes > 3 && !all)
}

/// Parses one segment text.
fn parse_segment(text: &[char], separators: &Separators) -> (r: Result<Segment>)
    ensures
        outcome(r, segment_spec(text@, *separators)),
{
    let parts = split_unreleased(text, separators.element, separators.release);
    let ghost pv = split_unreleased_spec(text@, separators.element, separators.release);
    assert(parts@.len() >= 1) by {
        assert(vec_views(parts@).len() == pv.len());
    }
    assert(parts@[0]@ == pv[0]);
    if !check_tag(parts[0].as_slice()) {
        return Err(HarborError::EdifactSyntax("segment tag"));
    }
    let tag = string_of(parts[0].as_slice());
    let mut elements: Vec<Vec<String>> = Vec::new();
    let mut k: usize = 1;
    let ghost target = pv.drop_first().map_values(
        |p: Seq<char>| split_unreleased_spec(p, separators.component, separators.release),
    );
    assert(elements.deep_view() =~= target.take(0));
    while k < parts.len()
        invariant
            1 <= k <= parts@.len(),
            vec_views(parts@) == pv,
            pv.len() == parts@.len(),
            target == pv.drop_first().map_values(
                |p: Seq<char>| split_unreleased_spec(p, separators.component, separators.release),
            ),
            elements.deep_view() == target.take(k - 1),
        decreases parts.len() - k,
    {
        let pieces = split_unreleased(parts[k].as_slice(), separators.component, separators.release);
        let composite = strings_from(&pieces, 0);
        assert(pieces@.skip(0) =~= pieces@);
        assert(parts@[k as int]@ == pv[k as int]);
        assert(target[k - 1] == split_unreleased_spec(pv[k as int], separators.component, separators.release));
        let ghost before = elements@;
        let ghost cv = composite.deep_view();
        assert(cv == target[k - 1]);
        elements.push(composite);
        assert(elements.deep_view() =~= before.map_values(|x: Vec<String>| x.deep_view()).push(cv));
        assert(target.take(k as int) =~= target.take(k - 1).push(target[k - 1]));
        k += 1;
    }
    assert(target.take(parts@.len() - 1) =~= target);
    Ok(Segment { tag, elements })
}

/// The number of segments with tag `tag`.
pub open spec fn count_tag(segs: Seq<SpecSegment>, tag: Seq<char>) -> nat
    decreases segs.len(),
{
    if segs.len() == 0 {
        0
    } else {
        count_tag(segs.drop_last(), tag) + if segs.last().tag == tag { 1nat } else { 0nat }
    }
}

proof fn lemma_count_tag_bound(segs: Seq<SpecSegment>, tag: Seq<char>)
    ensures
        count_tag(segs, tag) <= segs.len(),
    decreases segs.len(),
{
    if segs.len() > 0 {
        lemma_count_tag_bound(segs.drop_last(), tag);
    }
}

/// The summary of a message: its type and reference, its number of
/// segments, of containers (`EQD`) and of dangerous goods entries (`DGS`).
pub open spec fn summary_spec(m: SpecMessage) -> SpecSummary {
    SpecSummary {
        message_type: m.message_type,
        reference: m.reference,
        segment_count: m.segments.len(),
        container_count: count_tag(m.segments, "EQD"@),
        dangerous_goods_count: count_tag(m.segments, "DGS"@),
    }
}

/// The number of the message's segments tagged `lit`.
fn count_segments(message: &EdifactMessage, lit: &str) -> (n: usize)
    ensures
        n == count_tag(message@.segments, lit@),
{
    let ghost segs = message@.segments;
    let mut n: usize = 0;
    let mut i: usize = 0;
    while i < message.segments.len()
        invariant
            i <= message.segments@.len(),
            segs == seq_view(message.segments@),
            n == count_tag(segs.take(i as int), lit@),
            n <= i,
        decreases message.segments.len() - i,
    {
        assert(segs.take(i + 1).drop_last() =~= segs.take(i as int));
        assert(segs[i as int] == message.segments@[i as int]@);
        if tag_is(&message.segments[i], lit) {
            n += 1;
        }
        i += 1;
    }
    assert(segs.take(message.segments@.len() as int) =~= segs);
    n
}

/// A summary counts no more containers, and no more dangerous goods
/// entries, than the message has segments.
pub proof fn lemma_summary_counts_bounded(m: SpecMessage)
    ensures
        summary_spec(m).container_count <= summary_spec(m).segment_count,
        summary_spec(m).dangerous_goods_count <= summary_spec(m).segment_count,
{
    lemma_count_tag_bound(m.segments, "EQD"@);
    lemma_count_tag_bound(m.segments, "DGS"@);
}

/// Summarizes a message.
pub fn summarize_message(message: &EdifactMessage) -> (s: EdifactSummary)
    ensures
        s@ == summary_spec(message@),
{
    let container_count = count_segments(message, "EQD");
    let dangerous_goods_count = count_segments(message, "DGS");
    EdifactSummary {
        message_type: message.message_type.clone(),
        reference: message.reference.clone(),
        segment_count: message.segments.len(),
        container_count,
        dangerous_goods_count,
    }
}

/// The state of reading cargo events: the events finished and the one open.
pub open spec fn cargo_step(st: (Seq<SpecCargo>, Option<SpecCargo>), seg: SpecSegment, reference: Seq<char>) -> (Seq<SpecCargo>, Option<SpecCargo>) {
    let (events, current) = st;
    if seg.tag == "EQD"@ {
        (
            match current {
                Some(e) => events.push(e),
                None => events,
            },
            Some(SpecCargo {
                message_ref: Some(reference),
                equipment_id: component(seg, 1, 0),
                equipment_type: component(seg, 0, 0),
                booking_ref: None,
                gross_mass_kg: None,
                location: None,
                event_code: None,
                dangerous_goods: false,
            }),
        )
    } else {
        match current {
            None => st,
            Some(e) => if seg.tag == "RFF"@ {
                (events, Some(SpecCargo { booking_ref: component(seg, 0, 1), ..e }))
            } else if seg.tag == "MEA"@ {
                (events, Some(SpecCargo { gross_mass_kg: component(seg, 2, 1), ..e }))
            } else if seg.tag == "LOC"@ {
                (events, Some(SpecCargo { location: component(seg, 1, 0), event_code: component(seg, 0, 0), ..e }))
            } else if seg.tag == "DGS"@ {
                (events, Some(SpecCargo { dangerous_goods: true, ..e }))
            } else {
                st
            },
        }
    }
}

pub open spec fn cargo_scan(segs: Seq<SpecSegment>, reference: Seq<char>) -> (Seq<SpecCargo>, Option<SpecCargo>)
    decreases segs.len(),
{
    if segs.len() == 0 {
        (Seq::empty(), None)
    } else {
        cargo_step(cargo_scan(segs.drop_last(), reference), segs.last(), reference)
    }
}

/// The cargo events of a message: one per `EQD` segment, completed by the
/// `RFF`, `MEA`, `LOC` and `DGS` segments that follow it.
pub open spec fn cargo_events_spec(m: SpecMessage) -> Seq<SpecCargo> {
    let (events, current) = cargo_scan(m.segments, m.reference);
    match current {
        Some(e) => events.push(e),
        None => events,
    }
}

pub open spec fn opt_cargo_view(c: Option<CargoEvent>) -> Option<SpecCargo> {
    match c {
        Some(x) => Some(x@),
        None => None,
    }
}

proof fn lemma_cargo_scan_count(segs: Seq<SpecSegment>, reference: Seq<char>)
    ensures
        cargo_scan(segs, reference).0.len() + (if cargo_scan(segs, reference).1 is Some {
            1nat
        } else {
            0nat
        }) == count_tag(segs, "EQD"@),
    decreases segs.len(),
{
    if segs.len() > 0 {
        lemma_cargo_scan_count(segs.drop_last(), reference);
    }
}

/// A message yields one cargo event for each of its `EQD` segments: the
/// number of its cargo events is the container count of its summary.
pub proof fn lemma_cargo_events_match_containers(m: SpecMessage)
    ensures
        cargo_events_spec(m).len() == summary_spec(m).container_count,
{
    lemma_cargo_scan_count(m.segments, m.reference);
}

/// The cargo events of a message.
pub fn extract_cargo_events(message: &EdifactMessage) -> (out: Vec<CargoEvent>)
    ensures
        seq_view(out@) == cargo_events_spec(message@),
{
    let ghost segs = message@.segments;
    let ghost reference = message@.reference;
    let mut events: Vec<CargoEvent> = Vec::new();
    let mut current: Option<CargoEvent> = None;
    let mut i: usize = 0;
    assert(segs.take(0) =~= Seq::<SpecSegment>::empty());
    assert(seq_view(events@) =~= Seq::<SpecCargo>::empty());
    while i < message.segments.len()
        invariant
            i <= message.segments@.len(),
            segs == seq_view(message.segments@),
            reference == message.reference@,
            cargo_scan(segs.take(i as int), reference) == (seq_view(events@), opt_cargo_view(current)),
        decreases message.segments.len() - i,
    {
        assert(segs.take(i + 1).drop_last() =~= segs.take(i as int));
        let segment = &message.segments[i];
        assert(segs.take(i + 1).last() == segment@);
        if tag_is(segment, "EQD") {
            if let Some(event) = current.take() {
                let ghost before = seq_view(events@);
                let ghost ev = event@;
                events.push(event);
                assert(seq_view(events@) =~= before.push(ev));
            }
            let equipment_type = component_of(segment, 0, 0);
            let equipment_id = component_of(segment, 1, 0);
            current = Some(
                CargoEvent {
                    message_ref: Some(message.reference.clone()),
                    equipment_id,
                    equipment_type,
                    booking_ref: None,
                    gross_mass_kg: None,
                    location: None,
                    event_code: None,
                    dangerous_goods: false,
                },
            );
        } else if tag_is(segment, "RFF") {
            if let Some(event) = &mut current {
                event.booking_ref = component_of(segment, 0, 1);
            }
        } else if tag_is(segment, "MEA") {
            if let Some(event) = &mut current {
                event.gross_mass_kg = component_of(segment, 2, 1);
            }
        } else if tag_is(segment, "LOC") {
            if let Some(event) = &mut current {
                event.location = component_of(segment, 1, 0);
                event.event_code = component_of(segment, 0, 0);
            }
        } else if tag_is(segment, "DGS") {
            if let Some(event) = &mut current {
                event.dangerous_goods = true;
            }
        }
        i += 1;
    }
    assert(segs.take(message.segments@.len() as int) =~= segs);
    if let Some(event) = current {
        let ghost before = seq_view(events@);
        let ghost ev = event@;
        events.push(event);
        assert(seq_view(events@) =~= before.push(ev));
    }
    events
}

pub open spec fn empty_port_call() -> SpecPortCall {
    SpecPortCall { vessel_id: None, voyage: None, port_locode: None, berth: None, eta: None, etd: None }
}

pub open spec fn is_one_of(q: Option<Seq<char>>, a: Seq<char>, b: Seq<char>, c: Seq<char>) -> bool {
    q == Some(a) || q == Some(b) || q == Some(c)
}

pub open spec fn is_either(q: Option<Seq<char>>, a: Seq<char>, b: Seq<char>) -> bool {
    q == Some(a) || q == Some(b)
}

/// One segment of a port call: `TDT` gives voyage and vessel, `LOC` the
/// port (qualifiers 9, 11, 153) or berth (60, 61), `DTM` the arrival (132,
/// 178) or departure (133, 186) time.
pub open spec fn port_step(call: SpecPortCall, seg: SpecSegment) -> SpecPortCall {
    let q = component(seg, 0, 0);
    if seg.tag == "TDT"@ {
        SpecPortCall { voyage: component(seg, 1, 0), vessel_id: component(seg, 7, 0), ..call }
    } else if seg.tag == "LOC"@ {
        if is_one_of(q, "9"@, "11"@, "153"@) {
            SpecPortCall { port_locode: component(seg, 1, 0), ..call }
        } else if is_either(q, "60"@, "61"@) {
            SpecPortCall { berth: component(seg, 1, 0), ..call }
        } else {
            call
        }
    } else if seg.tag == "DTM"@ {
        if is_either(q, "132"@, "178"@) {
            SpecPortCall { eta: component(seg, 0, 1), ..call }
        } else if is_either(q, "133"@, "186"@) {
            SpecPortCall { etd: component(seg, 0, 1), ..call }
        } else {
            call
        }
    } else {
        call
    }
}

pub open spec fn port_scan(segs: Seq<SpecSegment>) -> SpecPortCall
    decreases segs.len(),
{
    if segs.len() == 0 {
        empty_port_call()
    } else {
        port_step(port_scan(segs.drop_last()), segs.last())
    }
}

/// How each segment of a message changes its port call: a `DTM` segment
/// with qualifier 132 or 178 sets only the arrival time, one with 133 or 186
/// only the departure time (each to its component 1); a `LOC` segment with
/// qualifier 9, 11 or 153 sets only the port, one with 60 or 61 only the
/// berth (each to element 1); a `TDT` segment sets only the voyage (element
/// 1) and the vessel (element 7). No other segment changes anything.
pub proof fn lemma_port_call_step(segs: Seq<SpecSegment>, seg: SpecSegment)
    ensures
        ({
            let before = port_scan(segs);
            let after = port_scan(segs.push(seg));
            let q = component(seg, 0, 0);
            let dtm = seg.tag == "DTM"@;
            let loc = seg.tag == "LOC"@;
            let arrival = dtm && (q == Some("132"@) || q == Some("178"@));
            let departure = dtm && (q == Some("133"@) || q == Some("186"@));
            let port = loc && (q == Some("9"@) || q == Some("11"@) || q == Some("153"@));
            let berth = loc && (q == Some("60"@) || q == Some("61"@));
            let transport = seg.tag == "TDT"@;
            &&& arrival ==> after == SpecPortCall { eta: component(seg, 0, 1), ..before }
            &&& departure ==> after == SpecPortCall { etd: component(seg, 0, 1), ..before }
            &&& port ==> after == SpecPortCall { port_locode: component(seg, 1, 0), ..before }
            &&& berth ==> after == SpecPortCall { berth: component(seg, 1, 0), ..before }
            &&& transport ==> after == SpecPortCall {
                voyage: component(seg, 1, 0),
                vessel_id: component(seg, 7, 0),
                ..before
            }
            &&& !(arrival || departure || port || berth || transport) ==> after == before
        }),
{
    reveal_strlit("DTM");
    reveal_strlit("LOC");
    reveal_strlit("TDT");
    reveal_strlit("132");
    reveal_strlit("178");
    reveal_strlit("133");
    reveal_strlit("186");
    reveal_strlit("9");
    reveal_strlit("11");
    reveal_strlit("153");
    reveal_strlit("60");
    reveal_strlit("61");
    assert(segs.push(seg).drop_last() =~= segs);
    assert("DTM"@ != "LOC"@ && "DTM"@ != "TDT"@ && "LOC"@ != "TDT"@) by {
        assert("DTM"@[0] != "LOC"@[0]);
        assert("DTM"@[0] != "TDT"@[0]);
        assert("LOC"@[0] != "TDT"@[0]);
    }
    assert("132"@ != "133"@ && "132"@ != "186"@ && "178"@ != "133"@ && "178"@ != "186"@) by {
        assert("132"@[2] != "133"@[2]);
        assert("132"@[1] != "186"@[1]);
        assert("178"@[1] != "133"@[1]);
        assert("178"@[1] != "186"@[1]);
    }
    assert("9"@ != "60"@ && "9"@ != "61"@ && "11"@ != "60"@ && "11"@ != "61"@ && "153"@ != "60"@
        && "153"@ != "61"@) by {
        assert("9"@.len() != "60"@.len());
        assert("9"@.len() != "61"@.len());
        assert("11"@[0] != "60"@[0]);
        assert("11"@[0] != "61"@[0]);
        assert("153"@.len() != "60"@.len());
        assert("153"@.len() != "61"@.len());
    }
}

/// The port call of a message, where it names a port, a vessel or a voyage.
pub open spec fn port_call_spec(m: SpecMessage) -> Option<SpecPortCall> {
    let call = port_scan(m.segments);
    if call.port_locode is Some || call.vessel_id is Some || call.voyage is Some {
        Some(call)
    } else {
        None
    }
}

/// The optional text `o` equals the text `lit`.
fn opt_is(o: &Option<String>, lit: &str) -> (b: bool)
    ensures
        b == (o.deep_view() == Some(lit@)),
{
    match o {
        Some(s) => eq_lit(chars_of(s.as_str()).as_slice(), lit),
        None => false,
    }
}

/// The port call of a message.
pub fn extract_port_call(message: &EdifactMessage) -> (r: Option<PortCall>)
    ensures
        match r {
            Some(c) => port_call_spec(message@) == Some(c@),
            None => port_call_spec(message@) is None,
        },
{
    let ghost segs = message@.segments;
    let mut call = PortCall { vessel_id: None, voyage: None, port_locode: None, berth: None, eta: None, etd: None };
    let mut i: usize = 0;
    assert(segs.take(0) =~= Seq::<SpecSegment>::empty());
    while i < message.segments.len()
        invariant
            i <= message.segments@.len(),
            segs == seq_view(message.segments@),
            port_scan(segs.take(i as int)) == call@,
        decreases message.segments.len() - i,
    {
        assert(segs.take(i + 1).drop_last() =~= segs.take(i as int));
        let segment = &message.segments[i];
        assert(segs.take(i + 1).last() == segment@);
        if tag_is(segment, "TDT") {
            call.voyage = component_of(segment, 1, 0);
            call.vessel_id = component_of(segment, 7, 0);
        } else if tag_is(segment, "LOC") {
            let q = component_of(segment, 0, 0);
            if opt_is(&q, "9") || opt_is(&q, "11") || opt_is(&q, "153") {
                call.port_locode = component_of(segment, 1, 0);
            } else if opt_is(&q, "60") || opt_is(&q, "61") {
                call.berth = component_of(segment, 1, 0);
            }
        } else if tag_is(segment, "DTM") {
            let q = component_of(segment, 0, 0);
            if opt_is(&q, "132") || opt_is(&q, "178") {
                call.eta = component_of(segment, 0, 1);
            } else if opt_is(&q, "133") || opt_is(&q, "186") {
                call.etd = component_of(segment, 0, 1);
            }
        }
        i += 1;
    }
    assert(segs.take(message.segments@.len() as int) =~= segs);
    if call.port_locode.is_some() || call.vessel_id.is_some() || call.voyage.is_some() {
        Some(call)
    } else {
        None
    }
}

} // verus!
