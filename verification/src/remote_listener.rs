//! Reading the store's server-sent event stream: lines are grouped into
//! frames, and a `root-changed` frame with an identifier and data becomes
//! an event whose JSON payload the caller decodes. Also the stream's URL,
//! the reconnection back-off, and cutting a byte buffer into lines.
use vstd::prelude::*;

use crate::text::{
    chars_of, join_strings, join_with, lemma_texts_push, push_char, push_str, string_from_range, texts_view,
};
use crate::units::{nat_text, push_decimal};

verus! {

/// A change of a drive's root announced by the store.
#[derive(Debug, Clone, PartialEq, Eq)]
pub struct RemoteListenerEvent {
    pub id: i64,
    pub drive_id: String,
    pub root: String,
    pub at: i64,
}

/// The JSON payload of a `root-changed` frame, once decoded.
#[derive(Debug, Clone)]
pub struct RootChangedPayload {
    pub drive_id: String,
    pub root: String,
    pub at: i64,
}

/// A complete `root-changed` frame: its identifier and its data lines
/// joined by newlines, still to be decoded.
#[derive(Debug, Clone)]
pub struct EventFrame {
    pub id: i64,
    pub payload: String,
}

impl View for EventFrame {
    type V = (i64, Seq<char>);

    open spec fn view(&self) -> (i64, Seq<char>) {
        (self.id, self.payload@)
    }
}

pub open spec fn frames_view(v: Seq<EventFrame>) -> Seq<(i64, Seq<char>)> {
    v.map_values(|f: EventFrame| f@)
}

pub open spec fn frame_opt_view(o: Option<EventFrame>) -> Option<(i64, Seq<char>)> {
    match o {
        Some(f) => Some(f@),
        None => None,
    }
}

pub open spec fn opt_seq(o: Option<(i64, Seq<char>)>) -> Seq<(i64, Seq<char>)> {
    match o {
        Some(x) => seq![x],
        None => Seq::empty(),
    }
}

// ---------------------------------------------------------------------
// Event identifiers

pub open spec fn is_ascii_digit(c: char) -> bool {
    '0' <= c && c <= '9'
}

pub open spec fn all_digits(s: Seq<char>) -> bool {
    forall|i: int| 0 <= i < s.len() ==> is_ascii_digit(#[trigger] s[i])
}

/// The number that a run of decimal digits writes.
pub open spec fn decimal_value(s: Seq<char>) -> int
    decreases s.len(),
{
    if s.len() == 0 {
        0
    } else {
        decimal_value(s.drop_last()) * 10 + ((s.last() as int) - ('0' as int))
    }
}

/// A decimal integer with an optional sign, read as an `i64`, when it is
/// one that is not negative. A value that does not fit is no identifier.
pub open spec fn event_id_value(v: Seq<char>) -> Option<i64> {
    if v.len() > 0 && v[0] == '-' {
        let d = v.drop_first();
        if d.len() > 0 && all_digits(d) && decimal_value(d) == 0 {
            Some(0i64)
        } else {
            None
        }
    } else {
        let d = if v.len() > 0 && v[0] == '+' {
            v.drop_first()
        } else {
            v
        };
        if d.len() > 0 && all_digits(d) && decimal_value(d) <= i64::MAX {
            Some(decimal_value(d) as i64)
        } else {
            None
        }
    }
}

/// The value of the digits `v[from..]` when they are all digits and the
/// value fits an `i64`.
fn digits_value(v: &Vec<char>, from: usize) -> (r: Option<u64>)
    requires
        from <= v.len(),
    ensures
        ({
            let d = v@.subrange(from as int, v@.len() as int);
            match r {
                Some(n) => all_digits(d) && n == decimal_value(d) && n <= i64::MAX,
                None => !(all_digits(d) && decimal_value(d) <= i64::MAX),
            }
        }),
{
    let ghost s = v@;
    let mut acc: u64 = 0;
    let mut over = false;
    let mut i: usize = from;
    while i < v.len()
        invariant
            s == v@,
            from <= i <= v.len(),
            all_digits(s.subrange(from as int, i as int)),
            !over ==> acc == decimal_value(s.subrange(from as int, i as int)) && acc <= i64::MAX,
            over ==> decimal_value(s.subrange(from as int, i as int)) > i64::MAX,
            decimal_value(s.subrange(from as int, i as int)) >= 0,
        decreases v.len() - i,
    {
        let c = v[i];
        let ghost pre = s.subrange(from as int, i as int);
        let ghost next = s.subrange(from as int, i + 1);
        proof {
            assert(next.drop_last() =~= pre);
            assert(next.last() == c);
        }
        if !('0' <= c && c <= '9') {
            proof {
                assert(next.last() == c);
                assert(!all_digits(s.subrange(from as int, s.len() as int))) by {
                    assert(s.subrange(from as int, s.len() as int)[i - from] == c);
                }
            }
            return None;
        }
        let d = (c as u32 - '0' as u32) as u64;
        proof {
            assert(all_digits(next)) by {
                assert forall|j: int| 0 <= j < next.len() implies is_ascii_digit(#[trigger] next[j]) by {
                    if j < pre.len() {
                        assert(next[j] == pre[j]);
                    }
                }
            }
            assert(decimal_value(next) == decimal_value(pre) * 10 + d);
        }
        if !over {
            if acc > 922337203685477580u64 || (acc == 922337203685477580u64 && d > 7) {
                over = true;
            } else {
                acc = acc * 10 + d;
            }
        }
        i = i + 1;
    }
    proof {
        assert(s.subrange(from as int, i as int) == s.subrange(from as int, s.len() as int));
    }
    if over {
        None
    } else {
        Some(acc)
    }
}

/// Reads the value of an `id` field.
pub fn parse_event_id(value: &Vec<char>) -> (r: Option<i64>)
    ensures
        r == event_id_value(value@),
{
    let n = value.len();
    if n > 0 && value[0] == '-' {
        proof {
            assert(value@.drop_first() =~= value@.subrange(1, n as int));
        }
        if n == 1 {
            return None;
        }
        match digits_value(value, 1) {
            Some(v) => if v == 0 {
                Some(0)
            } else {
                None
            },
            None => None,
        }
    } else {
        let from: usize = if n > 0 && value[0] == '+' {
            1
        } else {
            0
        };
        proof {
            if from == 1 {
                assert(value@.drop_first() =~= value@.subrange(1, n as int));
            } else {
                assert(value@ =~= value@.subrange(0, n as int));
            }
        }
        if from == n {
            return None;
        }
        match digits_value(value, from) {
            Some(v) => Some(v as i64),
            None => None,
        }
    }
}

// ---------------------------------------------------------------------
// Lines and frames

/// `p` is the position of the first colon of `s`.
pub open spec fn first_colon_at(s: Seq<char>, p: int) -> bool {
    &&& 0 <= p < s.len()
    &&& s[p] == ':'
    &&& forall|j: int| 0 <= j < p ==> s[j] != ':'
}

pub open spec fn strip_one_space(s: Seq<char>) -> Seq<char> {
    if s.len() > 0 && s[0] == ' ' {
        s.drop_first()
    } else {
        s
    }
}

/// The field name of a line: what precedes its first colon, or the whole
/// line.
pub open spec fn line_field(s: Seq<char>) -> Seq<char> {
    if exists|p: int| first_colon_at(s, p) {
        s.subrange(0, choose|p: int| first_colon_at(s, p))
    } else {
        s
    }
}

/// The value of a line: what follows its first colon, less one leading
/// space; nothing when there is no colon.
pub open spec fn line_value(s: Seq<char>) -> Seq<char> {
    if exists|p: int| first_colon_at(s, p) {
        strip_one_space(s.subrange((choose|p: int| first_colon_at(s, p)) + 1, s.len() as int))
    } else {
        Seq::empty()
    }
}

proof fn lemma_first_colon_unique(s: Seq<char>, p: int, q: int)
    requires
        first_colon_at(s, p),
        first_colon_at(s, q),
    ensures
        p == q,
{
    if p < q {
        assert(s[p] != ':');
    } else if q < p {
        assert(s[q] != ':');
    }
}

/// The fields of the frame being read.
pub struct FrameView {
    pub event_type: Seq<char>,
    pub event_id: Option<i64>,
    pub data: Seq<Seq<char>>,
}

pub open spec fn empty_frame() -> FrameView {
    FrameView { event_type: Seq::empty(), event_id: None, data: Seq::empty() }
}

/// The frame after a field line.
pub open spec fn apply_field(st: FrameView, field: Seq<char>, value: Seq<char>) -> FrameView {
    if field == "event"@ {
        FrameView { event_type: value, ..st }
    } else if field == "id"@ {
        FrameView { event_id: event_id_value(value), ..st }
    } else if field == "data"@ {
        FrameView { data: st.data.push(value), ..st }
    } else {
        st
    }
}

/// What a complete frame yields: a `root-changed` frame with an identifier
/// and at least one data line gives its identifier and joined data.
pub open spec fn frame_event(st: FrameView) -> Option<(i64, Seq<char>)> {
    if st.event_type == "root-changed"@ && st.data.len() > 0 && st.event_id is Some {
        Some((st.event_id->0, join_with(st.data, seq!['\n'])))
    } else {
        None
    }
}

/// One line read: a blank line ends the frame, a line that starts with a
/// colon is a comment, any other line sets a field.
pub open spec fn read_line(st: FrameView, line: Seq<char>) -> (FrameView, Option<(i64, Seq<char>)>) {
    if line.len() == 0 {
        (empty_frame(), frame_event(st))
    } else if line[0] == ':' {
        (st, None)
    } else {
        (apply_field(st, line_field(line), line_value(line)), None)
    }
}

/// The frame being read after `lines`, and the frames they completed.
pub open spec fn read_lines(lines: Seq<Seq<char>>) -> (FrameView, Seq<(i64, Seq<char>)>)
    decreases lines.len(),
{
    if lines.len() == 0 {
        (empty_frame(), Seq::empty())
    } else {
        let (st, out) = read_lines(lines.drop_last());
        let (st2, e) = read_line(st, lines.last());
        (st2, out + opt_seq(e))
    }
}

/// The `root-changed` frames of a whole stream: those its blank lines end,
/// then the one it ends in.
pub open spec fn stream_events(lines: Seq<Seq<char>>) -> Seq<(i64, Seq<char>)> {
    read_lines(lines).1 + opt_seq(frame_event(read_lines(lines).0))
}

/// The position of the first colon of `v`, if any.
fn first_colon(v: &Vec<char>) -> (r: Option<usize>)
    ensures
        match r {
            Some(p) => first_colon_at(v@, p as int),
            None => !exists|p: int| first_colon_at(v@, p),
        },
{
    let mut i: usize = 0;
    while i < v.len()
        invariant
            0 <= i <= v.len(),
            forall|j: int| 0 <= j < i ==> v@[j] != ':',
        decreases v.len() - i,
    {
        if v[i] == ':' {
            return Some(i);
        }
        i = i + 1;
    }
    None
}

/// Reads a stream line by line.
pub struct EventStreamParser {
    event_type: String,
    event_id: Option<i64>,
    data_lines: Vec<String>,
}

impl View for EventStreamParser {
    type V = FrameView;

    closed spec fn view(&self) -> FrameView {
        FrameView {
            event_type: self.event_type@,
            event_id: self.event_id,
            data: texts_view(self.data_lines@),
        }
    }
}

impl EventStreamParser {
    /// A parser at the start of a frame.
    pub fn new() -> (r: Self)
        ensures
            r@ == empty_frame(),
    {
        let r = EventStreamParser { event_type: String::new(), event_id: None, data_lines: Vec::new() };
        proof {
            assert(texts_view(r.data_lines@) =~= Seq::<Seq<char>>::empty());
        }
        r
    }

    /// What the frame read so far yields.
    pub fn current_frame(&self) -> (r: Option<EventFrame>)
        ensures
            frame_opt_view(r) == frame_event(self@),
    {
        let expected = String::from_str("root-changed");
        if self.event_type != expected || self.data_lines.len() == 0 {
            return None;
        }
        proof {
            reveal_strlit("\n");
            assert("\n"@ =~= seq!['\n']);
        }
        match self.event_id {
            Some(id) => Some(EventFrame { id, payload: join_strings(&self.data_lines, "\n") }),
            None => None,
        }
    }

    fn clear(&mut self)
        ensures
            final(self)@ == empty_frame(),
    {
        self.event_type = String::new();
        self.event_id = None;
        self.data_lines = Vec::new();
        proof {
            assert(texts_view(self.data_lines@) =~= Seq::<Seq<char>>::empty());
        }
    }

    /// Reads one line (without its line ending); returns the frame that a
    /// blank line completes.
    pub fn feed_line(&mut self, line: &str) -> (r: Option<EventFrame>)
        ensures
            (final(self)@, frame_opt_view(r)) == read_line(old(self)@, line@),
    {
        let v = chars_of(line);
        if v.len() == 0 {
            let r = self.current_frame();
            self.clear();
            return r;
        }
        if v[0] == ':' {
            return None;
        }
        let (field, value) = match first_colon(&v) {
            Some(p) => {
                proof {
                    assert forall|q: int| first_colon_at(v@, q) implies q == p by {
                        lemma_first_colon_unique(v@, p as int, q);
                    }
                }
                let field = string_from_range(&v, 0, p);
                let start: usize = if p + 1 < v.len() && v[p + 1] == ' ' {
                    p + 2
                } else {
                    p + 1
                };
                proof {
                    let rest = v@.subrange(p + 1, v@.len() as int);
                    if start == p + 2 {
                        assert(rest.drop_first() =~= v@.subrange(p + 2, v@.len() as int));
                    } else {
                        assert(rest =~= v@.subrange(p + 1, v@.len() as int));
                    }
                }
                (field, string_from_range(&v, start, v.len()))
            },
            None => (string_from_range(&v, 0, v.len()), String::new()),
        };
        proof {
            assert(field@ == line_field(line@));
            assert(value@ == line_value(line@));
            reveal_strlit("event");
            reveal_strlit("id");
            reveal_strlit("data");
        }
        if field == String::from_str("event") {
            self.event_type = value;
        } else if field == String::from_str("id") {
            let vv = chars_of(value.as_str());
            self.event_id = parse_event_id(&vv);
        } else if field == String::from_str("data") {
            let ghost pre = self.data_lines@;
            self.data_lines.push(value);
            proof {
                lemma_texts_push(pre, self.data_lines@.last());
            }
        }
        None
    }

    /// Ends the stream: the frame it ends in, if it has a type or data.
    pub fn finish(&self) -> (r: Option<EventFrame>)
        ensures
            frame_opt_view(r) == frame_event(self@),
    {
        if self.event_type.as_str().unicode_len() > 0 || self.data_lines.len() > 0 {
            self.current_frame()
        } else {
            proof {
                reveal_strlit("root-changed");
            }
            None
        }
    }
}

/// The `root-changed` frames of a whole stream of lines, in order.
pub fn parse_event_stream(lines: &Vec<String>) -> (r: Vec<EventFrame>)
    ensures
        frames_view(r@) == stream_events(texts_view(lines@)),
{
    let mut parser = EventStreamParser::new();
    let mut r: Vec<EventFrame> = Vec::new();
    let mut i: usize = 0;
    while i < lines.len()
        invariant
            0 <= i <= lines.len(),
            (parser@, frames_view(r@)) == read_lines(texts_view(lines@).subrange(0, i as int)),
        decreases lines.len() - i,
    {
        let ghost s = texts_view(lines@);
        let ghost pre = r@;
        proof {
            assert(s.subrange(0, i + 1).drop_last() =~= s.subrange(0, i as int));
            assert(s.subrange(0, i + 1).last() == lines@[i as int]@);
        }
        match parser.feed_line(lines[i].as_str()) {
            Some(f) => {
                r.push(f);
                proof {
                    assert(frames_view(r@) =~= frames_view(pre) + opt_seq(Some(r@.last()@)));
                }
            },
            None => {
                proof {
                    assert(frames_view(r@) =~= frames_view(pre) + opt_seq(None));
                }
            },
        }
        i = i + 1;
    }
    proof {
        assert(texts_view(lines@).subrange(0, lines@.len() as int) =~= texts_view(lines@));
    }
    let ghost pre = r@;
    match parser.finish() {
        Some(f) => {
            r.push(f);
            proof {
                assert(frames_view(r@) =~= frames_view(pre) + opt_seq(Some(r@.last()@)));
            }
        },
        None => {
            proof {
                assert(frames_view(r@) =~= frames_view(pre) + opt_seq(None));
            }
        },
    }
    r
}

/// Takes the decoded payload of a frame: a payload that decoded becomes an
/// event and its identifier the last one seen; one that did not is dropped.
pub fn record_event(frame: &EventFrame, payload: Option<RootChangedPayload>, last_event_id: &mut Option<i64>)
    -> (r: Option<RemoteListenerEvent>)
    ensures
        payload is None ==> r is None && *final(last_event_id) == *old(last_event_id),
        payload matches Some(p) ==> *final(last_event_id) == Some(frame.id) && r == Some(
            RemoteListenerEvent { id: frame.id, drive_id: p.drive_id, root: p.root, at: p.at },
        ),
{
    match payload {
        Some(p) => {
            *last_event_id = Some(frame.id);
            Some(RemoteListenerEvent { id: frame.id, drive_id: p.drive_id, root: p.root, at: p.at })
        },
        None => None,
    }
}

// ---------------------------------------------------------------------
// Connection

pub open spec fn trim_trailing_slashes(s: Seq<char>) -> Seq<char>
    decreases s.len(),
{
    if s.len() > 0 && s.last() == '/' {
        trim_trailing_slashes(s.drop_last())
    } else {
        s
    }
}

pub open spec fn events_url_text(base: Seq<char>, drive_id: Seq<char>) -> Seq<char> {
    trim_trailing_slashes(base) + "/api/drives/"@ + drive_id + "/events"@
}

/// The URL of a drive's event stream on a store.
pub fn events_url(base_url: &str, drive_id: &str) -> (r: String)
    ensures
        r@ == events_url_text(base_url@, drive_id@),
{
    let v = chars_of(base_url);
    let mut end = v.len();
    proof {
        assert(v@.subrange(0, v@.len() as int) =~= v@);
    }
    while end > 0 && v[end - 1] == '/'
        invariant
            end <= v.len(),
            trim_trailing_slashes(v@.subrange(0, end as int)) == trim_trailing_slashes(v@),
        decreases end,
    {
        proof {
            assert(v@.subrange(0, end as int).drop_last() =~= v@.subrange(0, end - 1));
        }
        end = end - 1;
    }
    proof {
        assert(v@.subrange(0, v@.len() as int) =~= v@);
    }
    let mut r = string_from_range(&v, 0, end);
    push_str(&mut r, "/api/drives/");
    push_str(&mut r, drive_id);
    push_str(&mut r, "/events");
    r
}

/// How long to wait before the next connection attempt, in milliseconds,
/// after `attempt` failed attempts in a row: 250, 500, 1000, then 2000.
pub fn backoff_delay_ms(attempt: usize) -> (r: u64)
    ensures
        r == (if attempt == 0 {
            250u64
        } else if attempt == 1 {
            500u64
        } else if attempt == 2 {
            1000u64
        } else {
            2000u64
        }),
{
    if attempt == 0 {
        250
    } else if attempt == 1 {
        500
    } else if attempt == 2 {
        1000
    } else {
        2000
    }
}

/// The back-off step after one more failure; it stops at the last step.
pub fn next_backoff_step(attempt: usize) -> (r: usize)
    ensures
        r == (if attempt < 3 {
            attempt + 1
        } else {
            attempt as int
        }),
{
    if attempt < 3 {
        attempt + 1
    } else {
        attempt
    }
}

/// An integer as decimal text, with a minus sign when negative.
pub open spec fn int_text(x: int) -> Seq<char> {
    if x < 0 {
        seq!['-'] + nat_text((-x) as nat)
    } else {
        nat_text(x as nat)
    }
}

/// The headers of a request for a drive's event stream: the bearer token,
/// the stream's media type, and the identifier of the last event seen, when
/// there is one, so that the store resends what came after it.
pub open spec fn event_request_headers_text(token: Seq<char>, last_event_id: Option<i64>) -> Seq<(Seq<char>, Seq<char>)> {
    let base = seq![("Authorization"@, "Bearer "@ + token), ("Accept"@, "text/event-stream"@)];
    match last_event_id {
        Some(id) => base.push(("Last-Event-ID"@, int_text(id as int))),
        None => base,
    }
}

pub open spec fn headers_view(v: Seq<(String, String)>) -> Seq<(Seq<char>, Seq<char>)> {
    v.map_values(|h: (String, String)| (h.0@, h.1@))
}

/// The headers of a request for a drive's event stream.
pub fn event_request_headers(token: &str, last_event_id: Option<i64>) -> (r: Vec<(String, String)>)
    ensures
        headers_view(r@) == event_request_headers_text(token@, last_event_id),
{
    let mut r: Vec<(String, String)> = Vec::new();
    let mut auth = String::from_str("Bearer ");
    push_str(&mut auth, token);
    r.push((String::from_str("Authorization"), auth));
    r.push((String::from_str("Accept"), String::from_str("text/event-stream")));
    match last_event_id {
        Some(id) => {
            let mut text = String::new();
            if id < 0 {
                push_char(&mut text, '-');
                let magnitude: u128 = (0i128 - id as i128) as u128;
                push_decimal(&mut text, magnitude);
            } else {
                push_decimal(&mut text, id as u128);
            }
            r.push((String::from_str("Last-Event-ID"), text));
        },
        None => {},
    }
    proof {
        reveal_strlit("Authorization");
        reveal_strlit("Bearer ");
        reveal_strlit("Accept");
        reveal_strlit("text/event-stream");
        reveal_strlit("Last-Event-ID");
        assert(headers_view(r@) =~= event_request_headers_text(token@, last_event_id));
    }
    r
}

/// Where the listener stands between connection attempts: how many failed
/// attempts in a row it has seen (as a back-off step), and the last event
/// it took.
#[derive(Debug, Clone, Copy, PartialEq, Eq, Structural)]
pub struct ReconnectState {
    pub backoff_step: usize,
    pub last_event_id: Option<i64>,
}

impl ReconnectState {
    /// A listener that has not connected yet.
    pub fn new() -> (r: Self)
        ensures
            r.backoff_step == 0,
            r.last_event_id is None,
    {
        ReconnectState { backoff_step: 0, last_event_id: None }
    }

    /// The stream was opened: the back-off starts over.
    pub fn connected(&mut self)
        ensures
            final(self).backoff_step == 0,
            final(self).last_event_id == old(self).last_event_id,
    {
        self.backoff_step = 0;
    }

    /// The stream ended or could not be opened: how long to wait before
    /// trying again, in milliseconds; the next wait is one step longer, up
    /// to the last step.
    pub fn disconnected(&mut self) -> (r: u64)
        ensures
            r == backoff_delay_ms_spec(old(self).backoff_step),
            final(self).backoff_step == (if old(self).backoff_step < 3 {
                old(self).backoff_step + 1
            } else {
                old(self).backoff_step as int
            }),
            final(self).last_event_id == old(self).last_event_id,
    {
        let delay = backoff_delay_ms(self.backoff_step);
        self.backoff_step = next_backoff_step(self.backoff_step);
        delay
    }
}

/// The wait after `attempt` failed attempts in a row, in milliseconds.
pub open spec fn backoff_delay_ms_spec(attempt: usize) -> u64 {
    if attempt == 0 {
        250
    } else if attempt == 1 {
        500
    } else if attempt == 2 {
        1000
    } else {
        2000
    }
}

/// The position of the first newline byte of `s`, if any.
pub open spec fn first_newline_at(s: Seq<u8>, p: int) -> bool {
    &&& 0 <= p < s.len()
    &&& s[p] == 10u8
    &&& forall|j: int| 0 <= j < p ==> s[j] != 10u8
}

/// Takes the first complete line off a buffer of received bytes: the bytes
/// before the first newline; the buffer keeps what follows it. Without a
/// newline nothing is taken.
pub fn take_line(buf: &mut Vec<u8>) -> (r: Option<Vec<u8>>)
    ensures
        r is None ==> *final(buf) == *old(buf) && forall|j: int|
            0 <= j < old(buf)@.len() ==> old(buf)@[j] != 10u8,
        r matches Some(line) ==> exists|p: int|
            first_newline_at(old(buf)@, p) && line@ == old(buf)@.subrange(0, p) && final(buf)@
                == old(buf)@.subrange(p + 1, old(buf)@.len() as int),
{
    let mut p: usize = 0;
    while p < buf.len() && buf[p] != 10u8
        invariant
            p <= buf.len(),
            forall|j: int| 0 <= j < p ==> buf@[j] != 10u8,
        decreases buf.len() - p,
    {
        p = p + 1;
    }
    if p == buf.len() {
        return None;
    }
    let ghost before = buf@;
    let mut line: Vec<u8> = Vec::new();
    let mut rest: Vec<u8> = Vec::new();
    let mut i: usize = 0;
    while i < buf.len()
        invariant
            buf@ == before,
            p < before.len(),
            0 <= i <= before.len(),
            line@ == before.subrange(0, if i < p { i as int } else { p as int }),
            rest@ == before.subrange(p + 1, if i < p + 1 { p + 1 } else { i as int }),
        decreases before.len() - i,
    {
        if i < p {
            line.push(buf[i]);
            proof {
                assert(before.subrange(0, i + 1) =~= before.subrange(0, i as int).push(before[i as int]));
            }
        } else if i > p {
            rest.push(buf[i]);
            proof {
                assert(before.subrange(p + 1, i + 1) =~= before.subrange(p + 1, i as int).push(
                    before[i as int],
                ));
            }
        } else {
            proof {
                assert(before.subrange(p + 1, p + 1) =~= Seq::<u8>::empty());
            }
        }
        i = i + 1;
    }
    *buf = rest;
    proof {
        assert(first_newline_at(before, p as int));
    }
    Some(line)
}

/// A line with its trailing carriage returns and newlines removed.
pub open spec fn trim_line_end_text(s: Seq<char>) -> Seq<char>
    decreases s.len(),
{
    if s.len() > 0 && (s.last() == '\n' || s.last() == '\r') {
        trim_line_end_text(s.drop_last())
    } else {
        s
    }
}

/// Removes the trailing carriage returns and newlines of a line.
pub fn trim_line_end(line: &str) -> (r: String)
    ensures
        r@ == trim_line_end_text(line@),
{
    let v = chars_of(line);
    let mut end = v.len();
    proof {
        assert(v@.subrange(0, v@.len() as int) =~= v@);
    }
    while end > 0 && (v[end - 1] == '\n' || v[end - 1] == '\r')
        invariant
            end <= v.len(),
            trim_line_end_text(v@.subrange(0, end as int)) == trim_line_end_text(v@),
        decreases end,
    {
        proof {
            assert(v@.subrange(0, end as int).drop_last() =~= v@.subrange(0, end - 1));
        }
        end = end - 1;
    }
    proof {
        assert(v@.subrange(0, v@.len() as int) =~= v@);
    }
    string_from_range(&v, 0, end)
}

} // verus!
