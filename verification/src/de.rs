//! The deserialization engine.
//!
//! Decoding is pull-based: a cursor over a tokenized event list exposes
//! scalars, optional values, sequences, records and tagged unions to the
//! caller, which asks for the next value of a declared shape.  A one-shot
//! "is map value" flag signals that the next scalar read must first
//! consume a wrapping element.  When a string is asked for but a nested
//! element begins instead, the whole subtree is re-serialized verbatim
//! into the string (raw capture).

use vstd::prelude::*;

use crate::error::{Error, ErrorV};
use crate::events::{Attribute, Event, EventV, NameV, QName};
use crate::shims::{emit_fragment, emit_fragment_ok, fragment_text, lower_of, to_lower,
    tokenize, tokenize_ok, tokens_of};
use crate::text::{bool_token, i64_of_text, u64_of_text};

verus! {

/// The decode cursor: the tokenized events, the read position, the
/// lookahead position, and the one-shot wrapping-element flag.
pub struct Deserializer {
    pub events: Vec<Event>,
    pub pos: usize,
    pub peek_pos: usize,
    pub is_map_value: bool,
}

impl Deserializer {
    /// The mathematical event list under the cursor.
    pub open spec fn evs(&self) -> Seq<EventV> {
        self.events.deep_view()
    }

    /// Cursor sanity: positions within bounds, lookahead at or past the
    /// read position.
    pub open spec fn inv(&self) -> bool {
        self.pos <= self.peek_pos <= self.evs().len()
    }

    /// Builds a cursor over an explicit event list, as the
    /// streaming-events entry point.
    pub fn from_events(events: Vec<Event>) -> (r: Deserializer)
        ensures
            r.evs() == events.deep_view(),
            r.pos == 0,
            r.peek_pos == 0,
            !r.is_map_value,
            r.inv(),
    {
        Deserializer { events, pos: 0, peek_pos: 0, is_map_value: false }
    }

    /// Arms the one-shot wrapping-element flag.
    pub fn set_map_value(&mut self)
        ensures
            *final(self) == (Deserializer { is_map_value: true, ..*old(self) }),
    {
        self.is_map_value = true;
    }

    /// Consumes the one-shot flag, reporting whether it was set.
    pub fn unset_map_value(&mut self) -> (r: bool)
        ensures
            r == old(self).is_map_value,
            *final(self) == (Deserializer { is_map_value: false, ..*old(self) }),
    {
        let r = self.is_map_value;
        self.is_map_value = false;
        r
    }

    /// Looks at the next unpeeked event, advancing only the lookahead.
    pub fn peek(&mut self) -> (r: Result<Event, Error>)
        requires
            old(self).inv(),
        ensures
            final(self).inv(),
            final(self).events == old(self).events,
            final(self).pos == old(self).pos,
            final(self).is_map_value == old(self).is_map_value,
            old(self).peek_pos < old(self).evs().len() ==> {
                &&& r matches Ok(e) && e.deep_view() == old(self).evs()[
                    old(self).peek_pos as int
                ]
                &&& final(self).peek_pos == old(self).peek_pos + 1
            },
            old(self).peek_pos >= old(self).evs().len() ==> {
                &&& r matches Err(e) && e.deep_view() == ErrorV::ExpectedElement
                &&& final(self).peek_pos == old(self).peek_pos
            },
    {
        if self.peek_pos < self.events.len() {
            let e = self.events[self.peek_pos].duplicate();
            self.peek_pos = self.peek_pos + 1;
            Ok(e)
        } else {
            Err(Error::ExpectedElement)
        }
    }

    /// Rewinds the lookahead to the read position.
    pub fn reset_peek(&mut self)
        ensures
            *final(self) == (Deserializer { peek_pos: old(self).pos, ..*old(self) }),
            final(self).inv() == (old(self).pos <= old(self).evs().len()),
    {
        self.peek_pos = self.pos;
    }

    /// Consumes and returns the next event; the lookahead is reset either
    /// way.  Past the end it reports a missing element.
    pub fn next(&mut self) -> (r: Result<Event, Error>)
        requires
            old(self).inv(),
        ensures
            final(self).inv(),
            final(self).events == old(self).events,
            final(self).is_map_value == old(self).is_map_value,
            final(self).peek_pos == final(self).pos,
            old(self).pos < old(self).evs().len() ==> {
                &&& r matches Ok(e) && e.deep_view() == old(self).evs()[old(self).pos as int]
                &&& final(self).pos == old(self).pos + 1
            },
            old(self).pos >= old(self).evs().len() ==> {
                &&& r matches Err(e) && e.deep_view() == ErrorV::ExpectedElement
                &&& final(self).pos == old(self).pos
            },
    {
        if self.pos < self.events.len() {
            let e = self.events[self.pos].duplicate();
            self.pos = self.pos + 1;
            self.peek_pos = self.pos;
            Ok(e)
        } else {
            self.peek_pos = self.pos;
            Err(Error::ExpectedElement)
        }
    }

    /// Consumes one event and demands that it closes the element of the
    /// given name.
    pub fn expect_end_element(&mut self, name: &QName) -> (r: Result<(), Error>)
        requires
            old(self).inv(),
        ensures
            final(self).inv(),
            final(self).events == old(self).events,
            final(self).is_map_value == old(self).is_map_value,
            final(self).peek_pos == final(self).pos,
            old(self).pos >= old(self).evs().len() ==> {
                &&& r matches Err(e) && e.deep_view() == ErrorV::ExpectedElement
                &&& final(self).pos == old(self).pos
            },
            old(self).pos < old(self).evs().len() ==> {
                &&& final(self).pos == old(self).pos + 1
                &&& if end_matches(old(self).evs()[old(self).pos as int], name.deep_view()) {
                    r matches Ok(u) && u == ()
                } else {
                    r matches Err(e) && e.deep_view() == ErrorV::ExpectedElement
                }
            },
    {
        match self.next() {
            Err(e) => Err(e),
            Ok(ev) => match ev {
                Event::EndElement { name: n } => {
                    if n.eq_name(name) {
                        Ok(())
                    } else {
                        Err(Error::ExpectedElement)
                    }
                },
                _ => Err(Error::ExpectedElement),
            },
        }
    }
}

/// Whether an event closes an element of the given qualified name.
pub open spec fn end_matches(e: EventV, name: crate::events::NameV) -> bool {
    e matches EventV::EndElement { name: n } && n == name
}

/// The position just past the subtree whose events begin at `i` with
/// `rel` elements already open, or `-1` when the list ends first: an
/// element start opens one more, an element end closes one, and the end
/// that would close the subtree's own element finishes it.
pub open spec fn capture_end(evs: Seq<EventV>, i: int, rel: int) -> int
    decreases evs.len() - i,
{
    if i >= evs.len() {
        -1
    } else {
        match evs[i] {
            EventV::StartElement { .. } => capture_end(evs, i + 1, rel + 1),
            EventV::EndElement { .. } => if rel == 0 {
                i + 1
            } else {
                capture_end(evs, i + 1, rel - 1)
            },
            _ => capture_end(evs, i + 1, rel),
        }
    }
}

/// The events of `evs[i..j)` that the re-serializer writes: everything
/// but a document end.
pub open spec fn writable(evs: Seq<EventV>, i: int, j: int) -> Seq<EventV>
    decreases j - i,
{
    if i >= j {
        Seq::empty()
    } else if evs[i] is EndDocument {
        writable(evs, i + 1, j)
    } else {
        seq![evs[i]] + writable(evs, i + 1, j)
    }
}

/// Extending the window by one event appends it, unless it is a document
/// end.
proof fn lemma_writable_snoc(evs: Seq<EventV>, i: int, j: int)
    requires
        i <= j < evs.len(),
    ensures
        writable(evs, i, j + 1) == writable(evs, i, j) + (if evs[j] is EndDocument {
            Seq::<EventV>::empty()
        } else {
            seq![evs[j]]
        }),
    decreases j - i,
{
    if i < j {
        lemma_writable_snoc(evs, i + 1, j);
        if evs[i] is EndDocument {
        } else {
            assert(writable(evs, i, j + 1) =~= writable(evs, i, j) + (if evs[j] is EndDocument {
                Seq::<EventV>::empty()
            } else {
                seq![evs[j]]
            }));
        }
    } else {
        assert(writable(evs, i, i) =~= Seq::<EventV>::empty());
        assert(writable(evs, i + 1, i + 1) =~= Seq::<EventV>::empty());
        if evs[i] is EndDocument {
            assert(writable(evs, i, i + 1) =~= Seq::<EventV>::empty());
        } else {
            assert(writable(evs, i, i + 1) =~= seq![evs[i]]);
        }
    }
}

/// The event list a raw capture re-serializes: the captured element's
/// start, every writable descendant event, and a closing tag under the
/// captured element's own name.
pub open spec fn captured_events(evs: Seq<EventV>, p: int, end: int) -> Seq<EventV>
    recommends
        0 <= p < evs.len(),
        evs[p] is StartElement,
        p + 1 <= end - 1,
{
    seq![evs[p]] + writable(evs, p + 1, end - 1) + seq![
        EventV::EndElement { name: evs[p]->StartElement_name },
    ]
}

/// What a direct text-or-capture read at position `p` yields.
pub enum RtcOut {
    /// A text event's characters.
    Text(Seq<char>),
    /// A captured subtree, as the event list handed to the re-serializer.
    Capture(Seq<EventV>),
    /// A failure of the given kind.
    Fail(ErrorV),
}

/// The outcome and final position of a direct text-or-capture read at
/// position `p`: text yields its characters; an element start captures
/// its whole subtree; anything else is a failure, and a subtree the list
/// ends inside consumes everything.
pub open spec fn rtc(evs: Seq<EventV>, p: int) -> (RtcOut, int) {
    if p >= evs.len() {
        (RtcOut::Fail(ErrorV::ExpectedElement), p)
    } else if evs[p].is_text() {
        (RtcOut::Text(evs[p].text()), p + 1)
    } else if evs[p] is StartElement {
        let end = capture_end(evs, p + 1, 0);
        if end < 0 {
            (RtcOut::Fail(ErrorV::ExpectedElement), evs.len() as int)
        } else {
            (RtcOut::Capture(captured_events(evs, p, end)), end)
        }
    } else {
        (RtcOut::Fail(ErrorV::ExpectedString), p + 1)
    }
}

impl Deserializer {
    /// Reads a scalar text directly at the cursor: a text event's
    /// characters, or the verbatim re-serialization of a nested element's
    /// whole subtree.
    fn read_text_or_capture(&mut self) -> (r: Result<String, Error>)
        requires
            old(self).inv(),
        ensures
            final(self).inv(),
            final(self).events == old(self).events,
            final(self).is_map_value == old(self).is_map_value,
            final(self).peek_pos == final(self).pos,
            ({
                let (out, p2) = rtc(old(self).evs(), old(self).pos as int);
                &&& final(self).pos == p2
                &&& match out {
                    RtcOut::Text(s) => r matches Ok(x) && x@ == s,
                    RtcOut::Capture(ce) => (r is Ok <==> emit_fragment_ok(ce)) && (
                    r matches Ok(x) ==> x@ == fragment_text(ce)) && (r matches Err(e)
                        ==> e is XMLWError),
                    RtcOut::Fail(e) => r matches Err(x) && x.deep_view() == e,
                }
            }),
    {
        let ghost evs = self.evs();
        let ghost p = self.pos as int;
        match self.next() {
            Err(e) => Err(e),
            Ok(ev) => match ev {
                Event::Characters(s) => Ok(s),
                Event::CData(s) => Ok(s),
                Event::StartElement { name, attributes, namespace } => {
                    let end_name = name.duplicate();
                    let mut captured: Vec<Event> = Vec::new();
                    captured.push(Event::StartElement { name, attributes, namespace });
                    proof {
                        assert(captured.deep_view() =~= seq![evs[p]] + writable(evs, p + 1, p + 1));
                    }
                    let mut ups: usize = 0;
                    let mut downs: usize = 0;
                    loop
                        invariant
                            self.inv(),
                            self.events == old(self).events,
                            self.is_map_value == old(self).is_map_value,
                            self.peek_pos == self.pos,
                            evs == self.evs(),
                            evs == old(self).evs(),
                            p == old(self).pos as int,
                            0 <= p < evs.len(),
                            evs[p] is StartElement,
                            end_name.deep_view() == evs[p]->StartElement_name,
                            p + 1 <= self.pos as int <= evs.len(),
                            downs <= ups <= self.pos,
                            capture_end(evs, p + 1, 0) == capture_end(
                                evs,
                                self.pos as int,
                                ups - downs,
                            ),
                            captured.deep_view() =~= seq![evs[p]] + writable(
                                evs,
                                p + 1,
                                self.pos as int,
                            ),
                        decreases evs.len() - self.pos,
                    {
                        let ghost q = self.pos as int;
                        match self.next() {
                            Err(e) => {
                                proof {
                                    assert(capture_end(evs, q, ups - downs) == -1);
                                }
                                return Err(e);
                            },
                            Ok(e2) => {
                                let is_start = matches!(e2, Event::StartElement { .. });
                                let is_end = matches!(e2, Event::EndElement { .. });
                                let is_doc_end = matches!(e2, Event::EndDocument);
                                if is_end && downs == ups {
                                    proof {
                                        assert(capture_end(evs, q, 0) == q + 1);
                                    }
                                    let ghost ce = captured_events(
                                        evs,
                                        p,
                                        capture_end(evs, p + 1, 0),
                                    );
                                    let ghost prevc = captured.deep_view();
                                    let ghost env = end_name.deep_view();
                                    captured.push(Event::EndElement { name: end_name });
                                    proof {
                                        assert(captured.deep_view() =~= prevc.push(
                                            EventV::EndElement { name: env },
                                        ));
                                        assert(captured.deep_view() =~= ce);
                                    }
                                    return emit_fragment(&captured);
                                }
                                let ghost prevc = captured.deep_view();
                                if !is_doc_end {
                                    captured.push(e2);
                                    proof {
                                        assert(captured.deep_view() =~= prevc.push(evs[q]));
                                    }
                                }
                                proof {
                                    lemma_writable_snoc(evs, p + 1, q);
                                    if is_doc_end {
                                        assert(writable(evs, p + 1, q + 1) =~= writable(
                                            evs,
                                            p + 1,
                                            q,
                                        ));
                                    }
                                    assert(captured.deep_view() =~= seq![evs[p]] + writable(
                                        evs,
                                        p + 1,
                                        q + 1,
                                    ));
                                }
                                if is_start {
                                    ups = ups + 1;
                                } else if is_end {
                                    downs = downs + 1;
                                }
                            },
                        }
                    }
                },
                _ => Err(Error::ExpectedString),
            },
        }
    }
}

/// The wrapped outcome of a scalar text read: the direct outcome, the
/// position before any closing-tag check, and the wrapping element's name
/// when one was consumed and must be closed.
pub open spec fn ps_target(evs: Seq<EventV>, pos: int, mv: bool) -> (RtcOut, int, Option<NameV>) {
    if !mv {
        let (o, p2) = rtc(evs, pos);
        (o, p2, None)
    } else if pos >= evs.len() {
        (RtcOut::Fail(ErrorV::ExpectedElement), pos, None)
    } else if !(evs[pos] is StartElement) {
        (RtcOut::Fail(ErrorV::ExpectedElement), pos + 1, None)
    } else {
        let (o, p2) = rtc(evs, pos + 1);
        match o {
            RtcOut::Fail(e) => (RtcOut::Fail(e), p2, None),
            _ => (o, p2, Some(evs[pos]->StartElement_name)),
        }
    }
}

/// The complete outcome of a scalar text read: the text, a failure of a
/// known kind, or a re-serializer complaint (whose message only the
/// emitter knows).
pub enum PsRes {
    /// The scalar text produced.
    Val(Seq<char>),
    /// A failure of the given kind.
    Fail(ErrorV),
    /// The re-serializer refused the captured subtree.
    EmitFail,
}

/// Closes a wrapped scalar read: without a wrapper the value stands;
/// with one, the event at `q` must end an element of the wrapper's name.
pub open spec fn ps_close(
    evs: Seq<EventV>,
    s: Seq<char>,
    q: int,
    wrap: Option<NameV>,
) -> (PsRes, int) {
    match wrap {
        None => (PsRes::Val(s), q),
        Some(n) => if q >= evs.len() {
            (PsRes::Fail(ErrorV::ExpectedElement), q)
        } else if end_matches(evs[q], n) {
            (PsRes::Val(s), q + 1)
        } else {
            (PsRes::Fail(ErrorV::ExpectedElement), q + 1)
        },
    }
}

/// The complete outcome and final position of a scalar text read: the
/// wrapped read per `ps_target`, a captured subtree re-serialized when
/// the emitter accepts it, and the wrapper's end tag demanded after a
/// successful body.
pub open spec fn ps_result(evs: Seq<EventV>, pos: int, mv: bool) -> (PsRes, int) {
    let (out, q, wrap) = ps_target(evs, pos, mv);
    match out {
        RtcOut::Fail(e) => (PsRes::Fail(e), q),
        RtcOut::Text(s) => ps_close(evs, s, q, wrap),
        RtcOut::Capture(ce) => if emit_fragment_ok(ce) {
            ps_close(evs, fragment_text(ce), q, wrap)
        } else {
            (PsRes::EmitFail, q)
        },
    }
}

impl Deserializer {
    /// Reads a scalar text: if the one-shot flag is set, a wrapping
    /// element is consumed first and its end tag demanded after; the body
    /// is a text event's characters, or the verbatim re-serialization of
    /// a nested element's subtree.
    pub fn parse_string(&mut self) -> (r: Result<String, Error>)
        requires
            old(self).inv(),
        ensures
            final(self).inv(),
            final(self).events == old(self).events,
            !final(self).is_map_value,
            final(self).peek_pos == final(self).pos,
            ({
                let (res, p2) = ps_result(
                    old(self).evs(),
                    old(self).pos as int,
                    old(self).is_map_value,
                );
                &&& final(self).pos == p2
                &&& match res {
                    PsRes::Val(s) => r matches Ok(x) && x@ == s,
                    PsRes::Fail(e) => r matches Err(x) && x.deep_view() == e,
                    PsRes::EmitFail => r matches Err(x) && x is XMLWError,
                }
            }),
    {
        let had = self.unset_map_value();
        if had {
            match self.next() {
                Err(e) => Err(e),
                Ok(ev) => match ev {
                    Event::StartElement { name, .. } => {
                        match self.read_text_or_capture() {
                            Err(e) => Err(e),
                            Ok(s) => match self.expect_end_element(&name) {
                                Err(e) => Err(e),
                                Ok(_) => Ok(s),
                            },
                        }
                    },
                    _ => Err(Error::ExpectedElement),
                },
            }
        } else {
            self.read_text_or_capture()
        }
    }

    /// Reads a boolean: the scalar text, case-folded, must be one of the
    /// accepted tokens.
    pub fn parse_bool(&mut self) -> (r: Result<bool, Error>)
        requires
            old(self).inv(),
        ensures
            final(self).inv(),
            final(self).events == old(self).events,
            !final(self).is_map_value,
            final(self).peek_pos == final(self).pos,
            ({
                let (res, p2) = ps_result(
                    old(self).evs(),
                    old(self).pos as int,
                    old(self).is_map_value,
                );
                &&& final(self).pos == p2
                &&& match res {
                    PsRes::Val(s) => match bool_token(lower_of(s)) {
                        Some(b) => r matches Ok(x) && x == b,
                        None => r matches Err(x) && x.deep_view() == ErrorV::ExpectedBool,
                    },
                    PsRes::Fail(e) => r matches Err(x) && x.deep_view() == e,
                    PsRes::EmitFail => r matches Err(x) && x is XMLWError,
                }
            }),
    {
        match self.parse_string() {
            Err(e) => Err(e),
            Ok(s) => {
                let lowered = to_lower(s.as_str());
                match classify_bool(lowered.as_str()) {
                    Some(b) => Ok(b),
                    None => Err(Error::ExpectedBool),
                }
            },
        }
    }

    /// Reads a signed integer: the scalar text under the standard
    /// decimal grammar.
    pub fn parse_i64(&mut self) -> (r: Result<i64, Error>)
        requires
            old(self).inv(),
        ensures
            final(self).inv(),
            final(self).events == old(self).events,
            !final(self).is_map_value,
            final(self).peek_pos == final(self).pos,
            ({
                let (res, p2) = ps_result(
                    old(self).evs(),
                    old(self).pos as int,
                    old(self).is_map_value,
                );
                &&& final(self).pos == p2
                &&& match res {
                    PsRes::Val(s) => match i64_of_text(s) {
                        Some(v) => r matches Ok(x) && x == v,
                        None => r matches Err(x) && x.deep_view() == ErrorV::ExpectedInt,
                    },
                    PsRes::Fail(e) => r matches Err(x) && x.deep_view() == e,
                    PsRes::EmitFail => r matches Err(x) && x is XMLWError,
                }
            }),
    {
        match self.parse_string() {
            Err(e) => Err(e),
            Ok(s) => {
                let cs = crate::tag::chars_of(s.as_str());
                match crate::text::parse_i64_text(&cs) {
                    Some(v) => Ok(v),
                    None => Err(Error::ExpectedInt),
                }
            },
        }
    }

    /// Reads an unsigned integer: the scalar text under the standard
    /// decimal grammar.
    pub fn parse_u64(&mut self) -> (r: Result<u64, Error>)
        requires
            old(self).inv(),
        ensures
            final(self).inv(),
            final(self).events == old(self).events,
            !final(self).is_map_value,
            final(self).peek_pos == final(self).pos,
            ({
                let (res, p2) = ps_result(
                    old(self).evs(),
                    old(self).pos as int,
                    old(self).is_map_value,
                );
                &&& final(self).pos == p2
                &&& match res {
                    PsRes::Val(s) => match u64_of_text(s) {
                        Some(v) => r matches Ok(x) && x == v,
                        None => r matches Err(x) && x.deep_view() == ErrorV::ExpectedInt,
                    },
                    PsRes::Fail(e) => r matches Err(x) && x.deep_view() == e,
                    PsRes::EmitFail => r matches Err(x) && x is XMLWError,
                }
            }),
    {
        match self.parse_string() {
            Err(e) => Err(e),
            Ok(s) => {
                let cs = crate::tag::chars_of(s.as_str());
                match crate::text::parse_u64_text(&cs) {
                    Some(v) => Ok(v),
                    None => Err(Error::ExpectedInt),
                }
            },
        }
    }

    /// Reads a single character: the scalar text must be exactly one
    /// one-byte character.
    pub fn parse_char(&mut self) -> (r: Result<char, Error>)
        requires
            old(self).inv(),
        ensures
            final(self).inv(),
            final(self).events == old(self).events,
            !final(self).is_map_value,
            final(self).peek_pos == final(self).pos,
            ({
                let (res, p2) = ps_result(
                    old(self).evs(),
                    old(self).pos as int,
                    old(self).is_map_value,
                );
                &&& final(self).pos == p2
                &&& match res {
                    PsRes::Val(s) => if s.len() == 1 && (s[0] as u32) < 128 {
                        r matches Ok(x) && x == s[0]
                    } else {
                        r matches Err(x) && x.deep_view() == ErrorV::ExpectedChar
                    },
                    PsRes::Fail(e) => r matches Err(x) && x.deep_view() == e,
                    PsRes::EmitFail => r matches Err(x) && x is XMLWError,
                }
            }),
    {
        match self.parse_string() {
            Err(e) => Err(e),
            Ok(s) => {
                let n = s.as_str().unicode_len();
                if n == 1 {
                    let c = s.as_str().get_char(0);
                    if (c as u32) < 128 {
                        return Ok(c);
                    }
                }
                Err(Error::ExpectedChar)
            },
        }
    }
}

/// The accepted boolean tokens of an already-folded text.
fn classify_bool(t: &str) -> (r: Option<bool>)
    ensures
        r == bool_token(t@),
{
    let cs = crate::tag::chars_of(t);
    let n = cs.len();
    if n == 4 && cs[0] == 't' && cs[1] == 'r' && cs[2] == 'u' && cs[3] == 'e' {
        proof {
            assert(t@ =~= seq!['t', 'r', 'u', 'e']);
        }
        Some(true)
    } else if n == 1 && cs[0] == '1' {
        proof {
            assert(t@ =~= seq!['1']);
        }
        Some(true)
    } else if n == 1 && cs[0] == 'y' {
        proof {
            assert(t@ =~= seq!['y']);
        }
        Some(true)
    } else if n == 5 && cs[0] == 'f' && cs[1] == 'a' && cs[2] == 'l' && cs[3] == 's' && cs[4]
        == 'e' {
        proof {
            assert(t@ =~= seq!['f', 'a', 'l', 's', 'e']);
        }
        Some(false)
    } else if n == 1 && cs[0] == '0' {
        proof {
            assert(t@ =~= seq!['0']);
        }
        Some(false)
    } else if n == 1 && cs[0] == 'n' {
        proof {
            assert(t@ =~= seq!['n']);
        }
        Some(false)
    } else {
        proof {
            assert(!(t@ =~= seq!['t', 'r', 'u', 'e']));
            assert(!(t@ =~= seq!['1']));
            assert(!(t@ =~= seq!['y']));
            assert(!(t@ =~= seq!['f', 'a', 'l', 's', 'e']));
            assert(!(t@ =~= seq!['0']));
            assert(!(t@ =~= seq!['n']));
        }
        None
    }
}

impl Deserializer {
    /// Decides whether an optional value is present, consuming an empty
    /// wrapper when it is absent: with the one-shot flag set, an element
    /// start carrying attributes alone signals presence; otherwise an
    /// element end at the lookahead means absence (the pending wrapper,
    /// when one was expected, is consumed along with it), and anything
    /// else means presence.
    pub fn option_header(&mut self) -> (r: Result<bool, Error>)
        requires
            old(self).inv(),
        ensures
            final(self).inv(),
            final(self).events == old(self).events,
            ({
                let evs = old(self).evs();
                let pk = old(self).peek_pos as int;
                let p = old(self).pos as int;
                let mv = old(self).is_map_value;
                if pk >= evs.len() {
                    r matches Err(x) && x.deep_view() == ErrorV::ExpectedElement && final(self).pos == p && final(self).is_map_value == mv
                } else if mv && evs[pk] is StartElement && evs[pk]->StartElement_attributes.len()
                    > 0 {
                    r matches Ok(b) && b && final(self).pos == p && final(self).peek_pos == p
                        && final(self).is_map_value == mv
                } else {
                    let pk2 = if mv {
                        pk + 1
                    } else {
                        pk
                    };
                    if pk2 >= evs.len() {
                        r matches Err(x) && x.deep_view() == ErrorV::ExpectedElement && final(self).pos == p && final(self).is_map_value == mv
                    } else if evs[pk2] is EndElement {
                        if mv {
                            if p + 1 < evs.len() {
                                r matches Ok(b) && !b && final(self).pos == p + 2 && final(self).peek_pos == p + 2 && !(final(self).is_map_value)
                            } else {
                                r matches Err(x) && x.deep_view() == ErrorV::ExpectedElement
                                    && final(self).pos == p + 1 && !(final(self).is_map_value)
                            }
                        } else {
                            r matches Ok(b) && !b && final(self).pos == p + 1 && final(self).peek_pos == p + 1 && final(self).is_map_value == mv
                        }
                    } else {
                        r matches Ok(b) && b && final(self).pos == p && final(self).peek_pos == p
                            && final(self).is_map_value == mv
                    }
                }
            }),
    {
        if self.is_map_value {
            match self.peek() {
                Err(e) => {
                    return Err(e);
                },
                Ok(ev) => match ev {
                    Event::StartElement { attributes, .. } => {
                        if attributes.len() > 0 {
                            self.reset_peek();
                            return Ok(true);
                        }
                    },
                    _ => (),
                },
            }
        }
        match self.peek() {
            Err(e) => Err(e),
            Ok(ev) => match ev {
                Event::EndElement { .. } => {
                    if self.unset_map_value() {
                        match self.next() {
                            Err(e) => {
                                return Err(e);
                            },
                            Ok(_) => (),
                        }
                    }
                    match self.next() {
                        Err(e) => Err(e),
                        Ok(_) => Ok(false),
                    }
                },
                _ => {
                    self.reset_peek();
                    Ok(true)
                },
            },
        }
    }

    /// Skips one whole value: events are consumed until as many elements
    /// have closed as have opened.
    pub fn skip_value(&mut self) -> (r: Result<(), Error>)
        requires
            old(self).inv(),
        ensures
            final(self).inv(),
            final(self).events == old(self).events,
            final(self).is_map_value == old(self).is_map_value,
            final(self).peek_pos == final(self).pos,
            ({
                let e = skip_end(old(self).evs(), old(self).pos as int, 0, 0);
                if e < 0 {
                    r matches Err(x) && x.deep_view() == ErrorV::ExpectedElement && final(self).pos == old(self).evs().len()
                } else {
                    r matches Ok(u) && u == () && final(self).pos == e
                }
            }),
    {
        let ghost evs = self.evs();
        let ghost p = self.pos as int;
        let mut ups: usize = 0;
        let mut downs: usize = 0;
        loop
            invariant
                self.inv(),
                self.events == old(self).events,
                self.is_map_value == old(self).is_map_value,
                evs == self.evs(),
                p == old(self).pos as int,
                p <= self.pos as int <= evs.len(),
                ups <= self.pos,
                downs <= self.pos,
                skip_end(evs, p, 0, 0) == skip_end(evs, self.pos as int, ups as int, downs as int),
            decreases evs.len() - self.pos,
        {
            let ghost q = self.pos as int;
            match self.next() {
                Err(e) => {
                    return Err(e);
                },
                Ok(e2) => {
                    if matches!(e2, Event::StartElement { .. }) {
                        ups = ups + 1;
                    } else if matches!(e2, Event::EndElement { .. }) {
                        downs = downs + 1;
                    }
                    if ups == downs {
                        return Ok(());
                    }
                },
            }
        }
    }
}

/// The position just past a skipped value that begins at `i` with `ups`
/// elements opened and `downs` closed so far, or `-1` when the list ends
/// first: consumption stops once as many have closed as opened.
pub open spec fn skip_end(evs: Seq<EventV>, i: int, ups: int, downs: int) -> int
    decreases evs.len() - i,
{
    if i >= evs.len() {
        -1
    } else {
        let u = if evs[i] is StartElement {
            ups + 1
        } else {
            ups
        };
        let d = if evs[i] is EndElement {
            downs + 1
        } else {
            downs
        };
        if u == d {
            i + 1
        } else {
            skip_end(evs, i + 1, u, d)
        }
    }
}

/// Tokenizes a complete document text and positions a cursor after the
/// document-start event.  Decoding starts whenever the tokenizer accepts
/// the text and its first event starts the document; a tokenizer
/// complaint is passed through, and any other first event is a missing
/// element.
pub fn from_str(s: &str) -> (r: Result<Deserializer, Error>)
    ensures
        r is Ok <==> (tokenize_ok(s@) && tokens_of(s@).len() > 0 && tokens_of(
            s@,
        )[0] is StartDocument),
        r matches Ok(d) ==> {
            &&& d.evs() == tokens_of(s@)
            &&& d.pos == 1
            &&& d.peek_pos == 1
            &&& !d.is_map_value
            &&& d.inv()
        },
        !tokenize_ok(s@) ==> (r matches Err(e) && e is XMLRError),
        tokenize_ok(s@) && !(tokens_of(s@).len() > 0 && tokens_of(s@)[0] is StartDocument)
            ==> (r matches Err(e) && e.deep_view() == ErrorV::ExpectedElement),
{
    match tokenize(s) {
        Err(e) => Err(e),
        Ok(events) => {
            let mut de = Deserializer::from_events(events);
            match de.next() {
                Err(e) => Err(e),
                Ok(ev) => {
                    if matches!(ev, Event::StartDocument) {
                        Ok(de)
                    } else {
                        Err(Error::ExpectedElement)
                    }
                },
            }
        },
    }
}

/// Mathematical model of one declared field.
pub struct FieldV {
    pub namespace: Option<Seq<char>>,
    pub local_name: Seq<char>,
    pub name: Seq<char>,
    pub attr: bool,
}

/// The meaning of a declared field name: a leading `$attr:` sentinel
/// routes the field to an attribute and is stripped before the tag
/// grammar applies.
pub open spec fn field_of(s: Seq<char>) -> FieldV {
    let a = s.len() >= 6 && s.take(6) == "$attr:"@;
    let rest = if a {
        s.skip(6)
    } else {
        s
    };
    FieldV {
        namespace: crate::tag::parse_tag(rest).n,
        local_name: crate::tag::parse_tag(rest).e,
        name: rest,
        attr: a,
    }
}

/// A declared name is usable when what is left after any `$attr:`
/// sentinel is nonempty.
pub open spec fn wf_field_name(s: Seq<char>) -> bool {
    if s.len() >= 6 && s.take(6) == "$attr:"@ {
        s.len() > 6
    } else {
        s.len() > 0
    }
}

/// One declared member of a record or union: namespace and local name
/// from the tag grammar, the declared string with any `$attr:` sentinel
/// stripped, and the attribute flag.
pub struct Field {
    pub namespace: Option<String>,
    pub local_name: String,
    pub name: String,
    pub attr: bool,
}

/// The mathematical value of one field.
pub open spec fn fieldv(f: Field) -> FieldV {
    FieldV {
        namespace: match f.namespace {
            Some(x) => Some(x@),
            None => None,
        },
        local_name: f.local_name@,
        name: f.name@,
        attr: f.attr,
    }
}

/// The mathematical value of a field list.
pub open spec fn fields_view(fs: Seq<Field>) -> Seq<FieldV> {
    Seq::new(fs.len(), |i: int| fieldv(fs[i]))
}

impl Field {
    /// Parses one declared field name.
    pub fn from_name(s: &str) -> (r: Field)
        requires
            wf_field_name(s@),
        ensures
            fieldv(r) == field_of(s@),
    {
        proof {
            reveal_strlit("$attr:");
        }
        let (attr, rest) = if crate::text::str_has_prefix(s, "$attr:") {
            let n = s.unicode_len();
            (true, s.substring_char(6, n).to_owned())
        } else {
            (false, s.to_owned())
        };
        proof {
            if s@.len() >= 6 && s@.take(6) == "$attr:"@ {
                assert(rest@ =~= s@.skip(6));
            }
        }
        let t = crate::tag::Tag::new(rest.as_str());
        let namespace = match t.n {
            Some(n) => Some(n),
            None => None,
        };
        Field { namespace, local_name: t.e, name: rest, attr }
    }
}

/// The declared members of one record or union, with the derived
/// inner-value marker (true when some declared name is the `$value`
/// sentinel).
pub struct Fields {
    pub fields: Vec<Field>,
    pub inner_value: bool,
}

/// The declared key of the first non-attribute field matching a
/// qualified name on (local name, namespace), or nothing.
pub open spec fn match_field_at(fs: Seq<FieldV>, n: NameV) -> Option<Seq<char>>
    decreases fs.len(),
{
    if fs.len() == 0 {
        None
    } else if fs[0].local_name == n.local_name && fs[0].namespace == n.namespace && !fs[0].attr {
        Some(fs[0].name)
    } else {
        match_field_at(fs.skip(1), n)
    }
}

/// The declared key of the first attribute field matching a qualified
/// name, or nothing.
pub open spec fn match_attr_at(fs: Seq<FieldV>, n: NameV) -> Option<Seq<char>>
    decreases fs.len(),
{
    if fs.len() == 0 {
        None
    } else if fs[0].local_name == n.local_name && fs[0].namespace == n.namespace && fs[0].attr {
        Some(fs[0].name)
    } else {
        match_attr_at(fs.skip(1), n)
    }
}

/// The synthesized key of an unmapped name: `{namespace}local-name`, or
/// the bare local name without a namespace.
pub open spec fn synth_key(n: NameV) -> Seq<char> {
    match n.namespace {
        Some(ns) => seq!['{'] + ns + seq!['}'] + n.local_name,
        None => n.local_name,
    }
}

/// The key an element name yields: the first matching non-attribute
/// field's declared name; else the inner-value sentinel when the list
/// carries it; else a synthesized key.
pub open spec fn match_field_spec(fs: Seq<FieldV>, inner: bool, n: NameV) -> Seq<char> {
    match match_field_at(fs, n) {
        Some(k) => k,
        None => if inner {
            "$value"@
        } else {
            synth_key(n)
        },
    }
}

/// The key an attribute name yields: `$attr:` before the first matching
/// attribute field's declared name, else before a synthesized key.
pub open spec fn match_attr_spec(fs: Seq<FieldV>, n: NameV) -> Seq<char> {
    match match_attr_at(fs, n) {
        Some(k) => "$attr:"@ + k,
        None => "$attr:"@ + synth_key(n),
    }
}

proof fn lemma_match_field_at_found(fs: Seq<FieldV>, n: NameV, i: int)
    requires
        0 <= i < fs.len(),
        fs[i].local_name == n.local_name && fs[i].namespace == n.namespace && !fs[i].attr,
        forall|j: int|
            0 <= j < i ==> !(fs[j].local_name == n.local_name && fs[j].namespace == n.namespace
                && !fs[j].attr),
    ensures
        match_field_at(fs, n) == Some(fs[i].name),
    decreases i,
{
    if i > 0 {
        lemma_match_field_at_found(fs.skip(1), n, i - 1);
    }
}

proof fn lemma_match_field_at_none(fs: Seq<FieldV>, n: NameV)
    requires
        forall|j: int|
            0 <= j < fs.len() ==> !(fs[j].local_name == n.local_name && fs[j].namespace
                == n.namespace && !fs[j].attr),
    ensures
        match_field_at(fs, n) is None,
    decreases fs.len(),
{
    if fs.len() > 0 {
        lemma_match_field_at_none(fs.skip(1), n);
    }
}

proof fn lemma_match_attr_at_found(fs: Seq<FieldV>, n: NameV, i: int)
    requires
        0 <= i < fs.len(),
        fs[i].local_name == n.local_name && fs[i].namespace == n.namespace && fs[i].attr,
        forall|j: int|
            0 <= j < i ==> !(fs[j].local_name == n.local_name && fs[j].namespace == n.namespace
                && fs[j].attr),
    ensures
        match_attr_at(fs, n) == Some(fs[i].name),
    decreases i,
{
    if i > 0 {
        lemma_match_attr_at_found(fs.skip(1), n, i - 1);
    }
}

proof fn lemma_match_attr_at_none(fs: Seq<FieldV>, n: NameV)
    requires
        forall|j: int|
            0 <= j < fs.len() ==> !(fs[j].local_name == n.local_name && fs[j].namespace
                == n.namespace && fs[j].attr),
    ensures
        match_attr_at(fs, n) is None,
    decreases fs.len(),
{
    if fs.len() > 0 {
        lemma_match_attr_at_none(fs.skip(1), n);
    }
}

/// Whether a field matches a qualified name on (local name, namespace)
/// and the wanted attribute flag.
fn field_matches(f: &Field, name: &QName, want_attr: bool) -> (r: bool)
    ensures
        r == (fieldv(*f).local_name == name.deep_view().local_name && fieldv(*f).namespace
            == name.deep_view().namespace && fieldv(*f).attr == want_attr),
{
    if f.attr != want_attr {
        return false;
    }
    if !crate::text::str_eq_str(f.local_name.as_str(), name.local_name.as_str()) {
        return false;
    }
    match (&f.namespace, &name.namespace) {
        (Some(a), Some(b)) => crate::text::str_eq_str(a.as_str(), b.as_str()),
        (None, None) => true,
        _ => false,
    }
}

/// Builds the synthesized key of an unmapped name.
fn synth_key_exec(name: &QName) -> (r: String)
    ensures
        r@ == synth_key(name.deep_view()),
{
    match &name.namespace {
        Some(ns) => {
            let mut r = String::from_str("{");
            r.append(ns.as_str());
            r.append("}");
            r.append(name.local_name.as_str());
            proof {
                reveal_strlit("{");
                reveal_strlit("}");
                assert(r@ =~= synth_key(name.deep_view()));
            }
            r
        },
        None => name.local_name.clone(),
    }
}

impl Fields {
    /// Builds the matcher from the declared names of one record or
    /// union.
    pub fn from_names(names: &Vec<String>) -> (r: Fields)
        requires
            forall|i: int| 0 <= i < names@.len() ==> wf_field_name(names@[i]@),
        ensures
            fields_view(r.fields@) == names.deep_view().map_values(|s: Seq<char>| field_of(s)),
            r.inner_value == names.deep_view().contains("$value"@),
    {
        let mut fields: Vec<Field> = Vec::new();
        let mut inner = false;
        let mut i: usize = 0;
        while i < names.len()
            invariant
                i <= names.len(),
                forall|j: int| 0 <= j < names@.len() ==> wf_field_name(names@[j]@),
                fields@.len() == i,
                forall|j: int| 0 <= j < i ==> fieldv(fields@[j]) == field_of(names@[j]@),
                inner == names.deep_view().take(i as int).contains("$value"@),
            decreases names.len() - i,
        {
            let f = Field::from_name(names[i].as_str());
            fields.push(f);
            let is_value = crate::text::str_eq_str(names[i].as_str(), "$value");
            proof {
                assert(names.deep_view().take(i + 1) =~= names.deep_view().take(i as int).push(
                    names@[i as int]@,
                ));
                if is_value {
                    assert(names.deep_view().take(i + 1)[i as int] == "$value"@);
                }
                if !inner && !is_value {
                    assert forall|j: int|
                        0 <= j < i + 1 implies #[trigger] names.deep_view().take(i + 1)[j]
                        != "$value"@ by {
                        if j < i {
                            assert(names.deep_view().take(i as int)[j] == names.deep_view().take(
                                i + 1,
                            )[j]);
                        }
                    }
                }
            }
            inner = inner || is_value;
            i = i + 1;
        }
        proof {
            assert(names.deep_view().take(names@.len() as int) =~= names.deep_view());
            assert(fields_view(fields@) =~= names.deep_view().map_values(
                |s: Seq<char>| field_of(s),
            ));
        }
        Fields { fields, inner_value: inner }
    }

    /// Matches an element name against the non-attribute fields, first
    /// declared field first; an unmapped name yields the inner-value
    /// sentinel when the list carries it, else a synthesized key.
    pub fn match_field(&self, name: &QName) -> (r: String)
        ensures
            r@ == match_field_spec(fields_view(self.fields@), self.inner_value, name.deep_view()),
    {
        let ghost fsv = fields_view(self.fields@);
        let ghost nv = name.deep_view();
        let mut i: usize = 0;
        while i < self.fields.len()
            invariant
                i <= self.fields.len(),
                fsv == fields_view(self.fields@),
                nv == name.deep_view(),
                forall|j: int|
                    0 <= j < i ==> !(fsv[j].local_name == nv.local_name && fsv[j].namespace
                        == nv.namespace && !fsv[j].attr),
            decreases self.fields.len() - i,
        {
            if field_matches(&self.fields[i], name, false) {
                proof {
                    lemma_match_field_at_found(fsv, nv, i as int);
                }
                return self.fields[i].name.clone();
            }
            i = i + 1;
        }
        proof {
            lemma_match_field_at_none(fsv, nv);
        }
        if self.inner_value {
            String::from_str("$value")
        } else {
            synth_key_exec(name)
        }
    }

    /// Matches an attribute name against the attribute fields, yielding
    /// an `$attr:`-prefixed key either way.
    pub fn match_attr(&self, name: &QName) -> (r: String)
        ensures
            r@ == match_attr_spec(fields_view(self.fields@), name.deep_view()),
    {
        let ghost fsv = fields_view(self.fields@);
        let ghost nv = name.deep_view();
        let mut i: usize = 0;
        while i < self.fields.len()
            invariant
                i <= self.fields.len(),
                fsv == fields_view(self.fields@),
                nv == name.deep_view(),
                forall|j: int|
                    0 <= j < i ==> !(fsv[j].local_name == nv.local_name && fsv[j].namespace
                        == nv.namespace && fsv[j].attr),
            decreases self.fields.len() - i,
        {
            if field_matches(&self.fields[i], name, true) {
                proof {
                    lemma_match_attr_at_found(fsv, nv, i as int);
                }
                let mut r = String::from_str("$attr:");
                r.append(self.fields[i].name.as_str());
                return r;
            }
            i = i + 1;
        }
        proof {
            lemma_match_attr_at_none(fsv, nv);
        }
        let mut r = String::from_str("$attr:");
        let synth = synth_key_exec(name);
        r.append(synth.as_str());
        r
    }
}

/// Reads the members of a repeated field or of a top-level sequence.
pub struct SeqAccess {
    /// The repeated element's expected name, remembered from the pending
    /// wrapper; absent when the sequence is the direct content.
    pub expected_name: Option<QName>,
}

impl SeqAccess {
    /// Begins a sequence read.  With a wrapper pending, the next event
    /// must start an element, whose name becomes the expected name of
    /// every member; the lookahead is rewound and nothing is consumed.
    pub fn begin(de: &mut Deserializer) -> (r: Result<SeqAccess, Error>)
        requires
            old(de).inv(),
        ensures
            final(de).inv(),
            final(de).events == old(de).events,
            final(de).pos == old(de).pos,
            !final(de).is_map_value,
            ({
                let evs = old(de).evs();
                let pk = old(de).peek_pos as int;
                if old(de).is_map_value {
                    if pk >= evs.len() {
                        r matches Err(x) && x.deep_view() == ErrorV::ExpectedElement
                    } else if evs[pk] is StartElement {
                        r matches Ok(a) && (a.expected_name matches Some(n) && n.deep_view()
                            == evs[pk]->StartElement_name) && final(de).peek_pos == final(de).pos
                    } else {
                        r matches Err(x) && x.deep_view() == ErrorV::ExpectedElement
                    }
                } else {
                    r matches Ok(a) && a.expected_name is None && final(de).peek_pos == old(de).peek_pos
                }
            }),
    {
        if de.unset_map_value() {
            match de.peek() {
                Err(e) => Err(e),
                Ok(ev) => match ev {
                    Event::StartElement { name, .. } => {
                        de.reset_peek();
                        Ok(SeqAccess { expected_name: Some(name) })
                    },
                    _ => Err(Error::ExpectedElement),
                },
            }
        } else {
            Ok(SeqAccess { expected_name: None })
        }
    }

    /// Decides whether another member follows: with an expected name,
    /// only an element start of that very name continues the sequence;
    /// without one, anything but an element end or the document's end
    /// does.  A continuing member with an expected name re-arms the
    /// wrapping-element flag; the lookahead is rewound either way.
    pub fn next_element(&self, de: &mut Deserializer) -> (r: Result<bool, Error>)
        requires
            old(de).inv(),
        ensures
            final(de).inv(),
            final(de).events == old(de).events,
            final(de).pos == old(de).pos,
            final(de).peek_pos == final(de).pos,
            ({
                let evs = old(de).evs();
                let pk = old(de).peek_pos as int;
                if pk >= evs.len() {
                    r matches Err(x) && x.deep_view() == ErrorV::ExpectedElement && final(de).is_map_value == old(de).is_map_value
                } else {
                    let more = match self.expected_name {
                        Some(n) => evs[pk] matches EventV::StartElement { name, .. } && name
                            == n.deep_view(),
                        None => !(evs[pk] is EndElement || evs[pk] is EndDocument),
                    };
                    &&& r matches Ok(b) && b == more
                    &&& final(de).is_map_value == (old(de).is_map_value || (more
                        && self.expected_name is Some))
                }
            }),
    {
        match de.peek() {
            Err(e) => {
                proof {
                    assert(old(de).peek_pos as int >= old(de).evs().len());
                }
                de.reset_peek();
                Err(e)
            },
            Ok(ev) => {
                let more = match (&ev, &self.expected_name) {
                    (Event::StartElement { name, .. }, Some(expected)) => name.eq_name(expected),
                    (Event::EndElement { .. }, None) => false,
                    (Event::EndDocument, _) => false,
                    (_, Some(_)) => false,
                    (_, None) => true,
                };
                de.reset_peek();
                if more {
                    if self.expected_name.is_some() {
                        de.set_map_value();
                    }
                }
                Ok(more)
            },
        }
    }
}

/// Reads the attributes and children of one record or map.
pub struct MapAccess {
    /// The wrapper element's attributes, handed out from the last
    /// backwards.
    pub attrs: Vec<Attribute>,
    /// The declared fields of the record.
    pub fields: Fields,
    /// The pending attribute value, set when the last key came from an
    /// attribute.
    pub next_value: Option<String>,
    /// Set when the last matched key was the inner-value sentinel, so
    /// the value read is not treated as wrapped.
    pub inner_value: bool,
}

/// What the next key of a record read yields.
pub open spec fn map_key_of(fields: Seq<FieldV>, inner: bool, e: EventV) -> Option<Seq<char>> {
    match e {
        EventV::StartElement { name, .. } => Some(match_field_spec(fields, inner, name)),
        EventV::Characters(_) => Some("$value"@),
        EventV::CData(_) => Some("$value"@),
        _ => None,
    }
}

impl MapAccess {
    /// Begins a record read.  With a wrapper pending, the next event
    /// must start an element, whose attributes are taken for attribute
    /// keys and whose name is returned for the caller to close after the
    /// record's children; without one the record has no attributes.
    pub fn begin(de: &mut Deserializer, fields: Fields) -> (r: Result<
        (MapAccess, Option<QName>),
        Error,
    >)
        requires
            old(de).inv(),
        ensures
            final(de).inv(),
            final(de).events == old(de).events,
            !final(de).is_map_value,
            ({
                let evs = old(de).evs();
                let p = old(de).pos as int;
                if old(de).is_map_value {
                    if p >= evs.len() {
                        r matches Err(x) && x.deep_view() == ErrorV::ExpectedElement && final(de).pos == p
                    } else if evs[p] is StartElement {
                        r matches Ok(a) && final(de).pos == p + 1 && (a.1 matches Some(n)
                            && n.deep_view() == evs[p]->StartElement_name) && a.0.attrs.deep_view()
                            == evs[p]->StartElement_attributes && a.0.fields == fields
                            && a.0.next_value is None && a.0.inner_value
                    } else {
                        r matches Err(x) && x.deep_view() == ErrorV::ExpectedElement && final(de).pos == p + 1
                    }
                } else {
                    r matches Ok(a) && final(de).pos == p && a.1 is None
                        && a.0.attrs.deep_view().len() == 0 && a.0.fields == fields
                        && a.0.next_value is None && a.0.inner_value
                }
            }),
    {
        if de.unset_map_value() {
            match de.next() {
                Err(e) => Err(e),
                Ok(ev) => match ev {
                    Event::StartElement { name, attributes, .. } => {
                        Ok(
                            (
                                MapAccess {
                                    attrs: attributes,
                                    fields,
                                    next_value: None,
                                    inner_value: true,
                                },
                                Some(name),
                            ),
                        )
                    },
                    _ => Err(Error::ExpectedElement),
                },
            }
        } else {
            let empty: Vec<Attribute> = Vec::new();
            proof {
                assert(empty.deep_view() =~= Seq::<crate::events::AttrV>::empty());
            }
            Ok((MapAccess { attrs: empty, fields, next_value: None, inner_value: true }, None))
        }
    }

    /// Closes the record: the wrapper's end tag is demanded when one was
    /// opened.
    pub fn finish(de: &mut Deserializer, closer: Option<QName>) -> (r: Result<(), Error>)
        requires
            old(de).inv(),
        ensures
            final(de).inv(),
            final(de).events == old(de).events,
            final(de).is_map_value == old(de).is_map_value,
            ({
                let evs = old(de).evs();
                let p = old(de).pos as int;
                match closer {
                    None => r matches Ok(u) && u == () && final(de).pos == p,
                    Some(n) => if p >= evs.len() {
                        r matches Err(x) && x.deep_view() == ErrorV::ExpectedElement && final(de).pos == p
                    } else if end_matches(evs[p], n.deep_view()) {
                        r matches Ok(u) && u == () && final(de).pos == p + 1
                    } else {
                        r matches Err(x) && x.deep_view() == ErrorV::ExpectedElement && final(de).pos == p + 1
                    },
                }
            }),
    {
        match closer {
            None => Ok(()),
            Some(n) => de.expect_end_element(&n),
        }
    }

    /// Yields the next key: attribute keys first, from the last
    /// attribute backwards, each stashing its value; then element or
    /// text children at the lookahead, matched through the declared
    /// fields; an unmapped event kind ends the record.  The lookahead is
    /// rewound on every outcome but a failed look past the end.
    pub fn next_key(&mut self, de: &mut Deserializer) -> (r: Result<Option<String>, Error>)
        requires
            old(de).inv(),
        ensures
            final(de).inv(),
            final(de).events == old(de).events,
            final(de).pos == old(de).pos,
            final(de).is_map_value == old(de).is_map_value,
            final(self).fields == old(self).fields,
            ({
                let evs = old(de).evs();
                let pk = old(de).peek_pos as int;
                let av = old(self).attrs.deep_view();
                if av.len() > 0 {
                    &&& r matches Ok(k) && (k matches Some(s) && s@ == match_attr_spec(
                        fields_view(old(self).fields.fields@),
                        av.last().name,
                    ))
                    &&& final(self).attrs.deep_view() == av.drop_last()
                    &&& (final(self).next_value matches Some(v) && v@ == av.last().value)
                    &&& final(self).inner_value == old(self).inner_value
                    &&& final(de).peek_pos == old(de).peek_pos
                } else if pk >= evs.len() {
                    &&& r matches Err(x) && x.deep_view() == ErrorV::ExpectedElement
                    &&& final(self).attrs.deep_view() == old(self).attrs.deep_view()
                    &&& final(self).next_value == old(self).next_value
                    &&& final(self).inner_value == old(self).inner_value
                } else {
                    &&& match map_key_of(
                        fields_view(old(self).fields.fields@),
                        old(self).fields.inner_value,
                        evs[pk],
                    ) {
                        Some(k) => (r matches Ok(o) && (o matches Some(s) && s@ == k)) && (
                        evs[pk] is StartElement ==> final(self).inner_value == (k == "$value"@))
                            && (!(evs[pk] is StartElement) ==> final(self).inner_value == old(self).inner_value),
                        None => r matches Ok(o) && o is None && final(self).inner_value == old(self).inner_value,
                    }
                    &&& final(self).attrs.deep_view() == old(self).attrs.deep_view()
                    &&& final(self).next_value == old(self).next_value
                    &&& final(de).peek_pos == final(de).pos
                }
            }),
    {
        proof {
            reveal_strlit("$value");
        }
        match self.attrs.pop() {
            Some(attr) => {
                proof {
                    assert(old(self).attrs.deep_view().last() == attr.deep_view());
                    assert(self.attrs.deep_view() =~= old(self).attrs.deep_view().drop_last());
                }
                let key = self.fields.match_attr(&attr.name);
                self.next_value = Some(attr.value);
                Ok(Some(key))
            },
            None => {
                proof {
                    assert(old(self).attrs.deep_view().len() == 0);
                }
                match de.peek() {
                    Err(e) => Err(e),
                    Ok(ev) => {
                        let val = match ev {
                            Event::StartElement { name, .. } => {
                                let key = self.fields.match_field(&name);
                                self.inner_value = crate::text::str_eq_str(key.as_str(), "$value");
                                Some(key)
                            },
                            Event::Characters(_) => Some(String::from_str("$value")),
                            Event::CData(_) => Some(String::from_str("$value")),
                            _ => None,
                        };
                        de.reset_peek();
                        Ok(val)
                    },
                }
            },
        }
    }

    /// Yields where the next value comes from: the stashed attribute
    /// text, or nothing, meaning the cursor — in which case the
    /// wrapping-element flag is armed unless the last key was the
    /// inner-value sentinel, whose one-shot mark is spent either way.
    pub fn next_value_source(&mut self, de: &mut Deserializer) -> (r: Option<String>)
        ensures
            final(de).events == old(de).events,
            final(de).pos == old(de).pos,
            final(de).peek_pos == old(de).peek_pos,
            final(self).attrs.deep_view() == old(self).attrs.deep_view(),
            final(self).fields == old(self).fields,
            final(self).next_value is None,
            match old(self).next_value {
                Some(v) => r matches Some(x) && x == v && final(de).is_map_value == old(
                    de,
                ).is_map_value && final(self).inner_value == old(self).inner_value,
                None => r is None && final(de).is_map_value == (old(de).is_map_value || !old(
                    self,
                ).inner_value) && !final(self).inner_value,
            },
    {
        let taken = self.next_value.take();
        match taken {
            Some(v) => Some(v),
            None => {
                let iv = self.inner_value;
                self.inner_value = false;
                if !iv {
                    de.set_map_value();
                }
                None
            },
        }
    }
}

/// Reads one tagged-union value.
pub struct Enum {
    /// The declared variants of the union.
    pub fields: Fields,
}

impl Enum {
    /// Builds a union reader over the declared variant names.
    pub fn new(fields: Fields) -> (r: Enum)
        ensures
            r.fields == fields,
    {
        Enum { fields }
    }

    /// Begins a union read.  With a wrapper pending, the next event must
    /// start an element, whose name is returned for the caller to close
    /// after the variant's payload; without one nothing is consumed.
    pub fn begin(de: &mut Deserializer) -> (r: Result<Option<QName>, Error>)
        requires
            old(de).inv(),
        ensures
            final(de).inv(),
            final(de).events == old(de).events,
            !final(de).is_map_value,
            ({
                let evs = old(de).evs();
                let p = old(de).pos as int;
                if old(de).is_map_value {
                    if p >= evs.len() {
                        (r matches Err(x) && x.deep_view() == ErrorV::ExpectedElement) && final(de).pos == p
                    } else if evs[p] is StartElement {
                        (r matches Ok(a) && (a matches Some(n) && n.deep_view()
                            == evs[p]->StartElement_name)) && final(de).pos == p + 1
                    } else {
                        (r matches Err(x) && x.deep_view() == ErrorV::ExpectedElement) && final(de).pos == p + 1
                    }
                } else {
                    (r matches Ok(a) && a is None) && final(de).pos == p
                }
            }),
    {
        if de.unset_map_value() {
            match de.next() {
                Err(e) => Err(e),
                Ok(ev) => match ev {
                    Event::StartElement { name, .. } => Ok(Some(name)),
                    _ => Err(Error::ExpectedElement),
                },
            }
        } else {
            Ok(None)
        }
    }

    /// Closes a union read: the wrapper's end tag is demanded when one
    /// was opened.
    pub fn finish(de: &mut Deserializer, closer: Option<QName>) -> (r: Result<(), Error>)
        requires
            old(de).inv(),
        ensures
            final(de).inv(),
            final(de).events == old(de).events,
            final(de).is_map_value == old(de).is_map_value,
            ({
                let evs = old(de).evs();
                let p = old(de).pos as int;
                match closer {
                    None => r matches Ok(u) && u == () && final(de).pos == p,
                    Some(n) => if p >= evs.len() {
                        (r matches Err(x) && x.deep_view() == ErrorV::ExpectedElement) && final(de).pos == p
                    } else if end_matches(evs[p], n.deep_view()) {
                        (r matches Ok(u) && u == ()) && final(de).pos == p + 1
                    } else {
                        (r matches Err(x) && x.deep_view() == ErrorV::ExpectedElement) && final(de).pos == p + 1
                    },
                }
            }),
    {
        match closer {
            None => Ok(()),
            Some(n) => de.expect_end_element(&n),
        }
    }

    /// Reads the discriminant: an element start at the lookahead yields
    /// its matched name and re-arms the wrapping-element flag; a text
    /// event yields its characters; anything else is a failure.  The
    /// lookahead is rewound on success.
    pub fn variant_name(&self, de: &mut Deserializer) -> (r: Result<String, Error>)
        requires
            old(de).inv(),
        ensures
            final(de).inv(),
            final(de).events == old(de).events,
            final(de).pos == old(de).pos,
            ({
                let evs = old(de).evs();
                let pk = old(de).peek_pos as int;
                if pk >= evs.len() {
                    r matches Err(x) && x.deep_view() == ErrorV::ExpectedElement && final(de).is_map_value == old(de).is_map_value
                } else {
                    match evs[pk] {
                        EventV::StartElement { name, .. } => r matches Ok(s) && s@
                            == match_field_spec(
                            fields_view(self.fields.fields@),
                            self.fields.inner_value,
                            name,
                        ) && final(de).is_map_value && final(de).peek_pos == final(de).pos,
                        EventV::Characters(s) => r matches Ok(x) && x@ == s && final(de).is_map_value == old(de).is_map_value && final(de).peek_pos == final(de).pos,
                        EventV::CData(s) => r matches Ok(x) && x@ == s && final(de).is_map_value
                            == old(de).is_map_value && final(de).peek_pos == final(de).pos,
                        _ => r matches Err(x) && x.deep_view() == ErrorV::ExpectedString && final(de).is_map_value == old(de).is_map_value,
                    }
                }
            }),
    {
        match de.peek() {
            Err(e) => Err(e),
            Ok(ev) => {
                let val = match ev {
                    Event::StartElement { name, .. } => {
                        let s = self.fields.match_field(&name);
                        de.set_map_value();
                        Ok(s)
                    },
                    Event::Characters(s) => Ok(s),
                    Event::CData(s) => Ok(s),
                    _ => Err(Error::ExpectedString),
                };
                match val {
                    Err(e) => Err(e),
                    Ok(s) => {
                        de.reset_peek();
                        Ok(s)
                    },
                }
            },
        }
    }

    /// Reads a unit variant: an attribute-free element immediately
    /// closed under its own name, or a bare text event; anything else is
    /// a failure.
    pub fn unit_variant(&self, de: &mut Deserializer) -> (r: Result<(), Error>)
        requires
            old(de).inv(),
        ensures
            final(de).inv(),
            final(de).events == old(de).events,
            !final(de).is_map_value,
            ({
                let evs = old(de).evs();
                let p = old(de).pos as int;
                if p >= evs.len() {
                    r matches Err(x) && x.deep_view() == ErrorV::ExpectedElement && final(de).pos
                        == p
                } else {
                    match evs[p] {
                        EventV::StartElement { name, attributes, .. } => if attributes.len() != 0 {
                            r matches Err(x) && x.deep_view() == ErrorV::ExpectedElement && final(de).pos == p + 1
                        } else if p + 1 >= evs.len() {
                            r matches Err(x) && x.deep_view() == ErrorV::ExpectedElement && final(de).pos == p + 1
                        } else if end_matches(evs[p + 1], name) {
                            r matches Ok(u) && u == () && final(de).pos == p + 2
                        } else {
                            r matches Err(x) && x.deep_view() == ErrorV::ExpectedElement && final(de).pos == p + 2
                        },
                        EventV::Characters(_) => r matches Ok(u) && u == () && final(de).pos == p
                            + 1,
                        EventV::CData(_) => r matches Ok(u) && u == () && final(de).pos == p + 1,
                        _ => r matches Err(x) && x.deep_view() == ErrorV::ExpectedElement && final(de).pos == p + 1,
                    }
                }
            }),
    {
        let _ = de.unset_map_value();
        match de.next() {
            Err(e) => Err(e),
            Ok(ev) => match ev {
                Event::StartElement { name, attributes, .. } => {
                    if attributes.len() == 0 {
                        de.expect_end_element(&name)
                    } else {
                        Err(Error::ExpectedElement)
                    }
                },
                Event::Characters(_) => Ok(()),
                Event::CData(_) => Ok(()),
                _ => Err(Error::ExpectedElement),
            },
        }
    }
}

/// Decodes one scalar from an attribute's already-read text.
pub struct AttrValue {
    pub text: String,
}

impl AttrValue {
    /// Wraps an attribute's text.
    pub fn new(text: String) -> (r: AttrValue)
        ensures
            r.text == text,
    {
        AttrValue { text }
    }

    /// The text itself, for string-shaped fields.
    pub fn into_string(self) -> (r: String)
        ensures
            r == self.text,
    {
        self.text
    }

    /// The text as a boolean token, case-folded first.
    pub fn parse_bool(&self) -> (r: Result<bool, Error>)
        ensures
            match bool_token(lower_of(self.text@)) {
                Some(b) => r matches Ok(x) && x == b,
                None => r matches Err(x) && x.deep_view() == ErrorV::ExpectedBool,
            },
    {
        let lowered = to_lower(self.text.as_str());
        match classify_bool(lowered.as_str()) {
            Some(b) => Ok(b),
            None => Err(Error::ExpectedBool),
        }
    }

    /// The text as a signed decimal integer.
    pub fn parse_i64(&self) -> (r: Result<i64, Error>)
        ensures
            match i64_of_text(self.text@) {
                Some(v) => r matches Ok(x) && x == v,
                None => r matches Err(x) && x.deep_view() == ErrorV::ExpectedInt,
            },
    {
        let cs = crate::tag::chars_of(self.text.as_str());
        match crate::text::parse_i64_text(&cs) {
            Some(v) => Ok(v),
            None => Err(Error::ExpectedInt),
        }
    }

    /// The text as an unsigned decimal integer.
    pub fn parse_u64(&self) -> (r: Result<u64, Error>)
        ensures
            match u64_of_text(self.text@) {
                Some(v) => r matches Ok(x) && x == v,
                None => r matches Err(x) && x.deep_view() == ErrorV::ExpectedInt,
            },
    {
        let cs = crate::tag::chars_of(self.text.as_str());
        match crate::text::parse_u64_text(&cs) {
            Some(v) => Ok(v),
            None => Err(Error::ExpectedInt),
        }
    }

    /// The text as a 8-bit signed decimal integer.
    pub fn parse_i8(&self) -> (r: Result<i8, Error>)
        ensures
            if (i64_of_text(self.text@) matches Some(v) && i8::MIN <= v <= i8::MAX) {
                r matches Ok(x) && x as int == i64_of_text(self.text@)->0 as int
            } else {
                r matches Err(x) && x.deep_view() == ErrorV::ExpectedInt
            },
    {
        match self.parse_i64() {
            Err(e) => Err(e),
            Ok(v) => {
                if i8::MIN as i64 <= v && v <= i8::MAX as i64 {
                    Ok(v as i8)
                } else {
                    Err(Error::ExpectedInt)
                }
            },
        }
    }

    /// The text as a 16-bit signed decimal integer.
    pub fn parse_i16(&self) -> (r: Result<i16, Error>)
        ensures
            if (i64_of_text(self.text@) matches Some(v) && i16::MIN <= v <= i16::MAX) {
                r matches Ok(x) && x as int == i64_of_text(self.text@)->0 as int
            } else {
                r matches Err(x) && x.deep_view() == ErrorV::ExpectedInt
            },
    {
        match self.parse_i64() {
            Err(e) => Err(e),
            Ok(v) => {
                if i16::MIN as i64 <= v && v <= i16::MAX as i64 {
                    Ok(v as i16)
                } else {
                    Err(Error::ExpectedInt)
                }
            },
        }
    }

    /// The text as a 32-bit signed decimal integer.
    pub fn parse_i32(&self) -> (r: Result<i32, Error>)
        ensures
            if (i64_of_text(self.text@) matches Some(v) && i32::MIN <= v <= i32::MAX) {
                r matches Ok(x) && x as int == i64_of_text(self.text@)->0 as int
            } else {
                r matches Err(x) && x.deep_view() == ErrorV::ExpectedInt
            },
    {
        match self.parse_i64() {
            Err(e) => Err(e),
            Ok(v) => {
                if i32::MIN as i64 <= v && v <= i32::MAX as i64 {
                    Ok(v as i32)
                } else {
                    Err(Error::ExpectedInt)
                }
            },
        }
    }

    /// The text as a 8-bit unsigned decimal integer.
    pub fn parse_u8(&self) -> (r: Result<u8, Error>)
        ensures
            if (u64_of_text(self.text@) matches Some(v) && u8::MIN <= v <= u8::MAX) {
                r matches Ok(x) && x as int == u64_of_text(self.text@)->0 as int
            } else {
                r matches Err(x) && x.deep_view() == ErrorV::ExpectedInt
            },
    {
        match self.parse_u64() {
            Err(e) => Err(e),
            Ok(v) => {
                if u8::MIN as u64 <= v && v <= u8::MAX as u64 {
                    Ok(v as u8)
                } else {
                    Err(Error::ExpectedInt)
                }
            },
        }
    }

    /// The text as a 16-bit unsigned decimal integer.
    pub fn parse_u16(&self) -> (r: Result<u16, Error>)
        ensures
            if (u64_of_text(self.text@) matches Some(v) && u16::MIN <= v <= u16::MAX) {
                r matches Ok(x) && x as int == u64_of_text(self.text@)->0 as int
            } else {
                r matches Err(x) && x.deep_view() == ErrorV::ExpectedInt
            },
    {
        match self.parse_u64() {
            Err(e) => Err(e),
            Ok(v) => {
                if u16::MIN as u64 <= v && v <= u16::MAX as u64 {
                    Ok(v as u16)
                } else {
                    Err(Error::ExpectedInt)
                }
            },
        }
    }

    /// The text as a 32-bit unsigned decimal integer.
    pub fn parse_u32(&self) -> (r: Result<u32, Error>)
        ensures
            if (u64_of_text(self.text@) matches Some(v) && u32::MIN <= v <= u32::MAX) {
                r matches Ok(x) && x as int == u64_of_text(self.text@)->0 as int
            } else {
                r matches Err(x) && x.deep_view() == ErrorV::ExpectedInt
            },
    {
        match self.parse_u64() {
            Err(e) => Err(e),
            Ok(v) => {
                if u32::MIN as u64 <= v && v <= u32::MAX as u64 {
                    Ok(v as u32)
                } else {
                    Err(Error::ExpectedInt)
                }
            },
        }
    }
}

impl Deserializer {
    /// Reads a 8-bit signed integer: the scalar text under the
    /// standard decimal grammar, in range for the width.
    pub fn parse_i8(&mut self) -> (r: Result<i8, Error>)
        requires
            old(self).inv(),
        ensures
            final(self).inv(),
            final(self).events == old(self).events,
            !final(self).is_map_value,
            final(self).peek_pos == final(self).pos,
            ({
                let (res, p2) = ps_result(
                    old(self).evs(),
                    old(self).pos as int,
                    old(self).is_map_value,
                );
                &&& final(self).pos == p2
                &&& match res {
                    PsRes::Val(s) => if (i64_of_text(s) matches Some(v) && i8::MIN <= v <= i8::MAX) {
                        r matches Ok(x) && x as int == i64_of_text(s)->0 as int
                    } else {
                        r matches Err(x) && x.deep_view() == ErrorV::ExpectedInt
                    },
                    PsRes::Fail(e) => r matches Err(x) && x.deep_view() == e,
                    PsRes::EmitFail => r matches Err(x) && x is XMLWError,
                }
            }),
    {
        match self.parse_i64() {
            Err(e) => Err(e),
            Ok(v) => {
                if i8::MIN as i64 <= v && v <= i8::MAX as i64 {
                    Ok(v as i8)
                } else {
                    Err(Error::ExpectedInt)
                }
            },
        }
    }

    /// Reads a 16-bit signed integer: the scalar text under the
    /// standard decimal grammar, in range for the width.
    pub fn parse_i16(&mut self) -> (r: Result<i16, Error>)
        requires
            old(self).inv(),
        ensures
            final(self).inv(),
            final(self).events == old(self).events,
            !final(self).is_map_value,
            final(self).peek_pos == final(self).pos,
            ({
                let (res, p2) = ps_result(
                    old(self).evs(),
                    old(self).pos as int,
                    old(self).is_map_value,
                );
                &&& final(self).pos == p2
                &&& match res {
                    PsRes::Val(s) => if (i64_of_text(s) matches Some(v) && i16::MIN <= v <= i16::MAX) {
                        r matches Ok(x) && x as int == i64_of_text(s)->0 as int
                    } else {
                        r matches Err(x) && x.deep_view() == ErrorV::ExpectedInt
                    },
                    PsRes::Fail(e) => r matches Err(x) && x.deep_view() == e,
                    PsRes::EmitFail => r matches Err(x) && x is XMLWError,
                }
            }),
    {
        match self.parse_i64() {
            Err(e) => Err(e),
            Ok(v) => {
                if i16::MIN as i64 <= v && v <= i16::MAX as i64 {
                    Ok(v as i16)
                } else {
                    Err(Error::ExpectedInt)
                }
            },
        }
    }

    /// Reads a 32-bit signed integer: the scalar text under the
    /// standard decimal grammar, in range for the width.
    pub fn parse_i32(&mut self) -> (r: Result<i32, Error>)
        requires
            old(self).inv(),
        ensures
            final(self).inv(),
            final(self).events == old(self).events,
            !final(self).is_map_value,
            final(self).peek_pos == final(self).pos,
            ({
                let (res, p2) = ps_result(
                    old(self).evs(),
                    old(self).pos as int,
                    old(self).is_map_value,
                );
                &&& final(self).pos == p2
                &&& match res {
                    PsRes::Val(s) => if (i64_of_text(s) matches Some(v) && i32::MIN <= v <= i32::MAX) {
                        r matches Ok(x) && x as int == i64_of_text(s)->0 as int
                    } else {
                        r matches Err(x) && x.deep_view() == ErrorV::ExpectedInt
                    },
                    PsRes::Fail(e) => r matches Err(x) && x.deep_view() == e,
                    PsRes::EmitFail => r matches Err(x) && x is XMLWError,
                }
            }),
    {
        match self.parse_i64() {
            Err(e) => Err(e),
            Ok(v) => {
                if i32::MIN as i64 <= v && v <= i32::MAX as i64 {
                    Ok(v as i32)
                } else {
                    Err(Error::ExpectedInt)
                }
            },
        }
    }

    /// Reads a 8-bit unsigned integer: the scalar text under the
    /// standard decimal grammar, in range for the width.
    pub fn parse_u8(&mut self) -> (r: Result<u8, Error>)
        requires
            old(self).inv(),
        ensures
            final(self).inv(),
            final(self).events == old(self).events,
            !final(self).is_map_value,
            final(self).peek_pos == final(self).pos,
            ({
                let (res, p2) = ps_result(
                    old(self).evs(),
                    old(self).pos as int,
                    old(self).is_map_value,
                );
                &&& final(self).pos == p2
                &&& match res {
                    PsRes::Val(s) => if (u64_of_text(s) matches Some(v) && u8::MIN <= v <= u8::MAX) {
                        r matches Ok(x) && x as int == u64_of_text(s)->0 as int
                    } else {
                        r matches Err(x) && x.deep_view() == ErrorV::ExpectedInt
                    },
                    PsRes::Fail(e) => r matches Err(x) && x.deep_view() == e,
                    PsRes::EmitFail => r matches Err(x) && x is XMLWError,
                }
            }),
    {
        match self.parse_u64() {
            Err(e) => Err(e),
            Ok(v) => {
                if u8::MIN as u64 <= v && v <= u8::MAX as u64 {
                    Ok(v as u8)
                } else {
                    Err(Error::ExpectedInt)
                }
            },
        }
    }

    /// Reads a 16-bit unsigned integer: the scalar text under the
    /// standard decimal grammar, in range for the width.
    pub fn parse_u16(&mut self) -> (r: Result<u16, Error>)
        requires
            old(self).inv(),
        ensures
            final(self).inv(),
            final(self).events == old(self).events,
            !final(self).is_map_value,
            final(self).peek_pos == final(self).pos,
            ({
                let (res, p2) = ps_result(
                    old(self).evs(),
                    old(self).pos as int,
                    old(self).is_map_value,
                );
                &&& final(self).pos == p2
                &&& match res {
                    PsRes::Val(s) => if (u64_of_text(s) matches Some(v) && u16::MIN <= v <= u16::MAX) {
                        r matches Ok(x) && x as int == u64_of_text(s)->0 as int
                    } else {
                        r matches Err(x) && x.deep_view() == ErrorV::ExpectedInt
                    },
                    PsRes::Fail(e) => r matches Err(x) && x.deep_view() == e,
                    PsRes::EmitFail => r matches Err(x) && x is XMLWError,
                }
            }),
    {
        match self.parse_u64() {
            Err(e) => Err(e),
            Ok(v) => {
                if u16::MIN as u64 <= v && v <= u16::MAX as u64 {
                    Ok(v as u16)
                } else {
                    Err(Error::ExpectedInt)
                }
            },
        }
    }

    /// Reads a 32-bit unsigned integer: the scalar text under the
    /// standard decimal grammar, in range for the width.
    pub fn parse_u32(&mut self) -> (r: Result<u32, Error>)
        requires
            old(self).inv(),
        ensures
            final(self).inv(),
            final(self).events == old(self).events,
            !final(self).is_map_value,
            final(self).peek_pos == final(self).pos,
            ({
                let (res, p2) = ps_result(
                    old(self).evs(),
                    old(self).pos as int,
                    old(self).is_map_value,
                );
                &&& final(self).pos == p2
                &&& match res {
                    PsRes::Val(s) => if (u64_of_text(s) matches Some(v) && u32::MIN <= v <= u32::MAX) {
                        r matches Ok(x) && x as int == u64_of_text(s)->0 as int
                    } else {
                        r matches Err(x) && x.deep_view() == ErrorV::ExpectedInt
                    },
                    PsRes::Fail(e) => r matches Err(x) && x.deep_view() == e,
                    PsRes::EmitFail => r matches Err(x) && x is XMLWError,
                }
            }),
    {
        match self.parse_u64() {
            Err(e) => Err(e),
            Ok(v) => {
                if u32::MIN as u64 <= v && v <= u32::MAX as u64 {
                    Ok(v as u32)
                } else {
                    Err(Error::ExpectedInt)
                }
            },
        }
    }
}

} // verus!
