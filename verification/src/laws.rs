//! Laws relating the two engines.
//!
//! The encoder and decoder are inverse at the event level for lossless
//! shapes: what a scalar or a repeated field encodes to, the decode cursor
//! reads back unchanged.  The text emitter and tokenizer stand outside
//! these statements: they are trusted collaborators, and the equality here
//! is over the structural events the two engines exchange with them.

use vstd::prelude::*;

use crate::de::{capture_end, captured_events, end_matches, field_of, map_key_of,
    match_field_at, ps_result, ps_target, rtc, writable, FieldV, PsRes, RtcOut};
use crate::events::EventV;
use crate::ser::{child_ns, element_name, end_event, format_element_list_spec,
    format_element_spec, format_entries_spec, format_entry_spec, format_list_spec, format_spec,
    start_event, to_events_spec, SDataV, SEntryV};
use crate::tag::parse_tag;
use crate::text::{escape_char, escape_pcdata};

verus! {

/// Whether a text holds none of the characters that character-data
/// escaping rewrites.
pub open spec fn escape_free(s: Seq<char>) -> bool {
    forall|i: int| 0 <= i < s.len() ==> s[i] != '<' && s[i] != '>' && s[i] != '&'
}

/// Escaping leaves an escape-free text unchanged.
pub proof fn lemma_escape_clean(s: Seq<char>)
    requires
        escape_free(s),
    ensures
        escape_pcdata(s) == s,
    decreases s.len(),
{
    if s.len() == 0 {
        assert(escape_pcdata(s) =~= s);
    } else {
        assert(escape_free(s.skip(1))) by {
            assert(forall|i: int| 0 <= i < s.skip(1).len() ==> s.skip(1)[i] == s[i + 1]);
        }
        lemma_escape_clean(s.skip(1));
        assert(escape_char(s[0]) == seq![s[0]]);
        assert(escape_pcdata(s) =~= s);
    }
}

/// Round trip of a bare scalar: an escape-free text encoded as direct
/// content is read back, by a direct scalar read at the head of the
/// encoded events, as exactly the same text.
pub proof fn lemma_scalar_round_trip(s: Seq<char>, loc: bool)
    requires
        escape_free(s),
    ensures
        rtc(to_events_spec(SDataV::Chars(s), loc), 0) == (RtcOut::Text(s), 1int),
        ps_result(to_events_spec(SDataV::Chars(s), loc), 0, false) == (PsRes::Val(s), 1int),
{
    lemma_escape_clean(s);
    let evs = to_events_spec(SDataV::Chars(s), loc);
    assert(evs =~= seq![EventV::Characters(s)]);
}

/// Round trip of one scalar field: an escape-free text encoded as a
/// single element under a declared tag is read back, by a wrapped scalar
/// read at the head of the encoded events, as exactly the same text, and
/// the element's end tag closes under the name the read demands.
pub proof fn lemma_field_round_trip(tag: Seq<char>, s: Seq<char>, ns: Seq<Seq<char>>, loc: bool)
    requires
        escape_free(s),
        tag.len() > 0,
    ensures
        ({
            let t = parse_tag(tag);
            let evs = format_element_spec(t, SDataV::Chars(s), false, ns, loc);
            &&& evs.len() == 3
            &&& ps_target(evs, 0, true) == (RtcOut::Text(s), 2int, Some(element_name(t)))
            &&& end_matches(evs[2], element_name(t))
            &&& ps_result(evs, 0, true) == (PsRes::Val(s), 3int)
        }),
{
    lemma_escape_clean(s);
    let t = parse_tag(tag);
    let evs = format_element_spec(t, SDataV::Chars(s), false, ns, loc);
    assert(evs =~= seq![start_event(t, SDataV::Chars(s), ns, loc)] + seq![
        EventV::Characters(s),
    ] + seq![end_event(t)]);
    assert(evs[0] is StartElement);
    assert(evs[0]->StartElement_name == element_name(t));
    assert(evs[1].is_text() && evs[1].text() == s);
    assert(rtc(evs, 1) == (RtcOut::Text(s), 2int));
}

/// Round trip of a repeated field of two members: the two elements
/// stand as siblings under the same tag, and two wrapped scalar reads,
/// one from each element's head, read the two texts back in input
/// order.
pub proof fn lemma_sequence_round_trip(
    tag: Seq<char>,
    s1: Seq<char>,
    s2: Seq<char>,
    ns: Seq<Seq<char>>,
    loc: bool,
)
    requires
        escape_free(s1),
        escape_free(s2),
        tag.len() > 0,
    ensures
        ({
            let t = parse_tag(tag);
            let evs = crate::ser::format_element_list_spec(
                t,
                seq![SDataV::Chars(s1), SDataV::Chars(s2)],
                false,
                ns,
                loc,
            );
            &&& evs.len() == 6
            &&& ps_target(evs, 0, true) == (RtcOut::Text(s1), 2int, Some(element_name(t)))
            &&& end_matches(evs[2], element_name(t))
            &&& ps_result(evs, 0, true) == (PsRes::Val(s1), 3int)
            &&& ps_target(evs, 3, true) == (RtcOut::Text(s2), 5int, Some(element_name(t)))
            &&& end_matches(evs[5], element_name(t))
            &&& ps_result(evs, 3, true) == (PsRes::Val(s2), 6int)
            &&& evs[3] == start_event(t, SDataV::Chars(s2), ns, loc)
        }),
{
    lemma_escape_clean(s1);
    lemma_escape_clean(s2);
    let t = parse_tag(tag);
    let items = seq![SDataV::Chars(s1), SDataV::Chars(s2)];
    assert(items.skip(1) =~= seq![SDataV::Chars(s2)]);
    assert(seq![SDataV::Chars(s2)].skip(1) =~= Seq::<SDataV>::empty());
    assert(crate::ser::format_element_list_spec(t, Seq::<SDataV>::empty(), false, ns, loc)
        =~= Seq::<EventV>::empty());
    let e1 = format_element_spec(t, SDataV::Chars(s1), false, ns, loc);
    let e2 = format_element_spec(t, SDataV::Chars(s2), false, ns, loc);
    let evs = crate::ser::format_element_list_spec(t, items, false, ns, loc);
    assert(e1 =~= seq![start_event(t, SDataV::Chars(s1), ns, loc)] + seq![
        EventV::Characters(s1),
    ] + seq![end_event(t)]);
    assert(e2 =~= seq![start_event(t, SDataV::Chars(s2), ns, loc)] + seq![
        EventV::Characters(s2),
    ] + seq![end_event(t)]);
    assert(crate::ser::format_element_list_spec(t, seq![SDataV::Chars(s2)], false, ns, loc)
        =~= e2 + Seq::<EventV>::empty());
    assert(crate::ser::format_element_list_spec(t, seq![SDataV::Chars(s2)], false, ns, loc)
        =~= e2);
    assert(evs =~= e1 + e2);
    assert(evs.len() == 6);
    assert(evs[0] is StartElement);
    assert(evs[0]->StartElement_name == element_name(t));
    assert(evs[1].is_text() && evs[1].text() == s1);
    assert(rtc(evs, 1) == (RtcOut::Text(s1), 2int));
    assert(evs[3] is StartElement);
    assert(evs[3]->StartElement_name == element_name(t));
    assert(evs[4].is_text() && evs[4].text() == s2);
    assert(rtc(evs, 4) == (RtcOut::Text(s2), 5int));
}

/// The open-element count after scanning the window `[i, j)` from `rel`
/// open elements, or nothing when an element end would close the
/// subtree's own element inside the window.
spec fn scan_through(evs: Seq<EventV>, i: int, j: int, rel: int) -> Option<int>
    decreases j - i,
{
    if i >= j {
        Some(rel)
    } else {
        match evs[i] {
            EventV::StartElement { .. } => scan_through(evs, i + 1, j, rel + 1),
            EventV::EndElement { .. } => if rel == 0 {
                None
            } else {
                scan_through(evs, i + 1, j, rel - 1)
            },
            _ => scan_through(evs, i + 1, j, rel),
        }
    }
}

/// A window the scan passes through leaves the subtree scan where the
/// window ends.
proof fn lemma_scan_to_capture(evs: Seq<EventV>, i: int, j: int, rel: int, rel2: int)
    requires
        0 <= i <= j <= evs.len(),
        scan_through(evs, i, j, rel) == Some(rel2),
    ensures
        capture_end(evs, i, rel) == capture_end(evs, j, rel2),
    decreases j - i,
{
    if i < j {
        match evs[i] {
            EventV::StartElement { .. } => lemma_scan_to_capture(evs, i + 1, j, rel + 1, rel2),
            EventV::EndElement { .. } => lemma_scan_to_capture(evs, i + 1, j, rel - 1, rel2),
            _ => lemma_scan_to_capture(evs, i + 1, j, rel, rel2),
        }
    }
}

/// Scanning splits at any point of the window.
proof fn lemma_scan_split(evs: Seq<EventV>, i: int, m: int, j: int, rel: int)
    requires
        i <= m <= j,
    ensures
        scan_through(evs, i, j, rel) == match scan_through(evs, i, m, rel) {
            Some(r) => scan_through(evs, m, j, r),
            None => None,
        },
    decreases m - i,
{
    if i < m {
        match evs[i] {
            EventV::StartElement { .. } => lemma_scan_split(evs, i + 1, m, j, rel + 1),
            EventV::EndElement { .. } => if rel != 0 {
                lemma_scan_split(evs, i + 1, m, j, rel - 1);
            },
            _ => lemma_scan_split(evs, i + 1, m, j, rel),
        }
    }
}

/// What the re-serializer writes of a window without document ends is
/// the window itself.
proof fn lemma_writable_plain(evs: Seq<EventV>, i: int, j: int)
    requires
        0 <= i <= j <= evs.len(),
        forall|k: int| i <= k < j ==> !(evs[k] is EndDocument),
    ensures
        writable(evs, i, j) == evs.subrange(i, j),
    decreases j - i,
{
    if i < j {
        lemma_writable_plain(evs, i + 1, j);
        assert(writable(evs, i, j) =~= evs.subrange(i, j));
    } else {
        assert(writable(evs, i, j) =~= evs.subrange(i, j));
    }
}

/// A window equal to a concatenation splits into windows equal to the
/// parts.
proof fn lemma_window_split(evs: Seq<EventV>, i: int, a: Seq<EventV>, b: Seq<EventV>)
    requires
        0 <= i,
        i + a.len() + b.len() <= evs.len(),
        evs.subrange(i, i + a.len() + b.len()) == a + b,
    ensures
        evs.subrange(i, i + a.len() as int) == a,
        evs.subrange(i + a.len() as int, i + a.len() + b.len()) == b,
{
    let l1 = a.len() as int;
    let l = l1 + b.len() as int;
    assert forall|m: int| 0 <= m < l implies evs[i + m] == (a + b)[m] by {
        assert(evs.subrange(i, i + l)[m] == evs[i + m]);
    }
    assert forall|m: int| 0 <= m < l1 implies evs.subrange(i, i + l1)[m] == a[m] by {
        assert(evs[i + m] == (a + b)[m]);
        assert((a + b)[m] == a[m]);
    }
    assert(evs.subrange(i, i + l1) =~= a);
    assert forall|m: int| 0 <= m < b.len() implies evs.subrange(i + l1, i + l)[m] == b[m] by {
        assert(evs[i + l1 + m] == (a + b)[l1 + m]);
        assert((a + b)[l1 + m] == b[m]);
    }
    assert(evs.subrange(i + l1, i + l) =~= b);
}

/// A linearized node's events pass any scan through unchanged and hold
/// no document events.
proof fn lemma_format_through(
    d: SDataV,
    raw: bool,
    ns: Seq<Seq<char>>,
    loc: bool,
    evs: Seq<EventV>,
    i: int,
    rel: int,
)
    requires
        0 <= i,
        rel >= 0,
        i + format_spec(d, raw, ns, loc).len() <= evs.len(),
        evs.subrange(i, i + format_spec(d, raw, ns, loc).len() as int) == format_spec(
            d,
            raw,
            ns,
            loc,
        ),
    ensures
        scan_through(evs, i, i + format_spec(d, raw, ns, loc).len() as int, rel) == Some(rel),
        forall|k: int|
            i <= k < i + format_spec(d, raw, ns, loc).len() ==> !(evs[k] is EndDocument),
    decreases d, 0int,
{
    let w = format_spec(d, raw, ns, loc);
    match d {
        SDataV::CData(s) => {
            assert(evs.subrange(i, i + 1)[0] == evs[i]);
            assert(evs[i] == w[0]);
            assert(scan_through(evs, i + 1, i + 1, rel) == Some(rel));
        },
        SDataV::Chars(s) => {
            assert(evs.subrange(i, i + 1)[0] == evs[i]);
            assert(evs[i] == w[0]);
            assert(scan_through(evs, i + 1, i + 1, rel) == Some(rel));
        },
        SDataV::List(items) => {
            lemma_list_through(items, raw, ns, loc, evs, i, rel);
        },
        SDataV::Struct { attrs, contents } => {
            lemma_entries_through(contents, raw, ns, loc, evs, i, rel);
        },
    }
}

/// As `lemma_format_through`, for a list of nodes.
proof fn lemma_list_through(
    items: Seq<SDataV>,
    raw: bool,
    ns: Seq<Seq<char>>,
    loc: bool,
    evs: Seq<EventV>,
    i: int,
    rel: int,
)
    requires
        0 <= i,
        rel >= 0,
        i + format_list_spec(items, raw, ns, loc).len() <= evs.len(),
        evs.subrange(i, i + format_list_spec(items, raw, ns, loc).len() as int)
            == format_list_spec(items, raw, ns, loc),
    ensures
        scan_through(evs, i, i + format_list_spec(items, raw, ns, loc).len() as int, rel) == Some(
            rel,
        ),
        forall|k: int|
            i <= k < i + format_list_spec(items, raw, ns, loc).len() ==> !(evs[k] is EndDocument),
    decreases items, 1int,
{
    if items.len() > 0 {
        let a = format_spec(items[0], raw, ns, loc);
        let b = format_list_spec(items.skip(1), raw, ns, loc);
        let l1 = a.len() as int;
        let l = l1 + b.len() as int;
        lemma_window_split(evs, i, a, b);
        lemma_format_through(items[0], raw, ns, loc, evs, i, rel);
        lemma_list_through(items.skip(1), raw, ns, loc, evs, i + l1, rel);
        lemma_scan_split(evs, i, i + l1, i + l, rel);
    }
}

/// As `lemma_format_through`, for a structured node's entries.
proof fn lemma_entries_through(
    contents: Seq<SEntryV>,
    raw: bool,
    ns: Seq<Seq<char>>,
    loc: bool,
    evs: Seq<EventV>,
    i: int,
    rel: int,
)
    requires
        0 <= i,
        rel >= 0,
        i + format_entries_spec(contents, raw, ns, loc).len() <= evs.len(),
        evs.subrange(i, i + format_entries_spec(contents, raw, ns, loc).len() as int)
            == format_entries_spec(contents, raw, ns, loc),
    ensures
        scan_through(
            evs,
            i,
            i + format_entries_spec(contents, raw, ns, loc).len() as int,
            rel,
        ) == Some(rel),
        forall|k: int|
            i <= k < i + format_entries_spec(contents, raw, ns, loc).len() ==> !(
            evs[k] is EndDocument),
    decreases contents, 2int,
{
    if contents.len() > 0 {
        let a = format_entry_spec(contents[0], raw, ns, loc);
        let b = format_entries_spec(contents.skip(1), raw, ns, loc);
        let l1 = a.len() as int;
        let l = l1 + b.len() as int;
        lemma_window_split(evs, i, a, b);
        lemma_entry_through(contents[0], raw, ns, loc, evs, i, rel);
        lemma_entries_through(contents.skip(1), raw, ns, loc, evs, i + l1, rel);
        lemma_scan_split(evs, i, i + l1, i + l, rel);
    }
}

/// As `lemma_format_through`, for one entry.
proof fn lemma_entry_through(
    e: SEntryV,
    raw: bool,
    ns: Seq<Seq<char>>,
    loc: bool,
    evs: Seq<EventV>,
    i: int,
    rel: int,
)
    requires
        0 <= i,
        rel >= 0,
        i + format_entry_spec(e, raw, ns, loc).len() <= evs.len(),
        evs.subrange(i, i + format_entry_spec(e, raw, ns, loc).len() as int) == format_entry_spec(
            e,
            raw,
            ns,
            loc,
        ),
    ensures
        scan_through(evs, i, i + format_entry_spec(e, raw, ns, loc).len() as int, rel) == Some(
            rel,
        ),
        forall|k: int|
            i <= k < i + format_entry_spec(e, raw, ns, loc).len() ==> !(evs[k] is EndDocument),
    decreases e, 4int,
{
    if e.tag == "$valueRaw"@ {
        lemma_format_through(e.data, true, ns, loc, evs, i, rel);
    } else if e.tag.len() >= 6 && e.tag.take(6) == "$value"@ {
        lemma_format_through(e.data, raw, ns, loc, evs, i, rel);
    } else {
        let t = parse_tag(e.tag);
        if e.data is List {
            lemma_element_list_through(t, e.data->List_0, raw, ns, loc, evs, i, rel);
        } else {
            lemma_element_through(t, e.data, raw, ns, loc, evs, i, rel);
        }
    }
}

/// As `lemma_format_through`, for a repeated field's elements.
proof fn lemma_element_list_through(
    t: crate::tag::TagV,
    items: Seq<SDataV>,
    raw: bool,
    ns: Seq<Seq<char>>,
    loc: bool,
    evs: Seq<EventV>,
    i: int,
    rel: int,
)
    requires
        0 <= i,
        rel >= 0,
        i + format_element_list_spec(t, items, raw, ns, loc).len() <= evs.len(),
        evs.subrange(i, i + format_element_list_spec(t, items, raw, ns, loc).len() as int)
            == format_element_list_spec(t, items, raw, ns, loc),
    ensures
        scan_through(
            evs,
            i,
            i + format_element_list_spec(t, items, raw, ns, loc).len() as int,
            rel,
        ) == Some(rel),
        forall|k: int|
            i <= k < i + format_element_list_spec(t, items, raw, ns, loc).len() ==> !(
            evs[k] is EndDocument),
    decreases items, 1int,
{
    if items.len() > 0 {
        let a = format_element_spec(t, items[0], raw, ns, loc);
        let b = format_element_list_spec(t, items.skip(1), raw, ns, loc);
        let l1 = a.len() as int;
        let l = l1 + b.len() as int;
        lemma_window_split(evs, i, a, b);
        lemma_element_through(t, items[0], raw, ns, loc, evs, i, rel);
        lemma_element_list_through(t, items.skip(1), raw, ns, loc, evs, i + l1, rel);
        lemma_scan_split(evs, i, i + l1, i + l, rel);
    }
}

/// As `lemma_format_through`, for one element: its start opens one more
/// level, its content passes through, its end closes it again.
proof fn lemma_element_through(
    t: crate::tag::TagV,
    d: SDataV,
    raw: bool,
    ns: Seq<Seq<char>>,
    loc: bool,
    evs: Seq<EventV>,
    i: int,
    rel: int,
)
    requires
        0 <= i,
        rel >= 0,
        i + format_element_spec(t, d, raw, ns, loc).len() <= evs.len(),
        evs.subrange(i, i + format_element_spec(t, d, raw, ns, loc).len() as int)
            == format_element_spec(t, d, raw, ns, loc),
    ensures
        scan_through(evs, i, i + format_element_spec(t, d, raw, ns, loc).len() as int, rel)
            == Some(rel),
        forall|k: int|
            i <= k < i + format_element_spec(t, d, raw, ns, loc).len() ==> !(
            evs[k] is EndDocument),
    decreases d, 3int,
{
    let w = format_element_spec(t, d, raw, ns, loc);
    let body = format_spec(d, raw, child_ns(t, ns), loc);
    let lb = body.len() as int;
    let head = seq![start_event(t, d, ns, loc)];
    let tail = seq![end_event(t)];
    assert(w =~= head + (body + tail));
    lemma_window_split(evs, i, head, body + tail);
    lemma_window_split(evs, i + 1, body, tail);
    assert(evs[i] == evs.subrange(i, i + 1)[0]);
    assert(evs[i] == start_event(t, d, ns, loc));
    assert(evs[i + 1 + lb] == evs.subrange(i + 1 + lb, i + 1 + lb + 1)[0]);
    assert(evs[i + 1 + lb] == end_event(t));
    lemma_format_through(d, raw, child_ns(t, ns), loc, evs, i + 1, rel + 1);
    lemma_scan_split(evs, i + 1, i + 1 + lb, i + 1 + lb + 1, rel + 1);
    assert(scan_through(evs, i + 1 + lb, i + 1 + lb + 1, rel + 1) == Some(rel)) by {
        assert(scan_through(evs, i + 2 + lb, i + 2 + lb, rel) == Some(rel));
    }
}

/// Raw capture is exact on the encoder's output: a string read that
/// meets an encoded element captures, for re-serialization, exactly that
/// element's own events, with a closing tag under the element's own
/// name, and leaves the cursor just past the element — whatever follows
/// it.
pub proof fn lemma_capture_exact(
    t: crate::tag::TagV,
    d: SDataV,
    raw: bool,
    ns: Seq<Seq<char>>,
    loc: bool,
    rest: Seq<EventV>,
)
    ensures
        ({
            let elem = format_element_spec(t, d, raw, ns, loc);
            let evs = elem + rest;
            rtc(evs, 0) == (
                RtcOut::Capture(elem.drop_last() + seq![end_event(t)]),
                elem.len() as int,
            )
        }),
{
    let elem = format_element_spec(t, d, raw, ns, loc);
    let body = format_spec(d, raw, child_ns(t, ns), loc);
    let lb = body.len() as int;
    let evs = elem + rest;
    let head = seq![start_event(t, d, ns, loc)];
    let tail = seq![end_event(t)];
    assert(evs.subrange(0, elem.len() as int) =~= elem);
    assert(elem =~= head + (body + tail));
    lemma_window_split(evs, 0, head, body + tail);
    lemma_window_split(evs, 1, body, tail);
    assert(evs[0] == evs.subrange(0, 1)[0]);
    assert(evs[0] == start_event(t, d, ns, loc));
    assert(evs[1 + lb] == evs.subrange(1 + lb, 2 + lb)[0]);
    assert(evs[1 + lb] == end_event(t));
    lemma_format_through(d, raw, child_ns(t, ns), loc, evs, 1, 0);
    lemma_scan_to_capture(evs, 1, 1 + lb, 0, 0);
    assert(capture_end(evs, 1 + lb, 0) == 1 + lb + 1);
    assert(capture_end(evs, 1, 0) == elem.len() as int);
    lemma_writable_plain(evs, 1, 1 + lb);
    assert(writable(evs, 1, 1 + lb) == evs.subrange(1, 1 + lb));
    assert(captured_events(evs, 0, elem.len() as int) =~= elem.drop_last() + seq![end_event(t)]);
}

/// A plain declared name: no brace group, no prefix or attribute
/// sentinel, nothing the tag grammar would split off.
pub open spec fn plain_name(s: Seq<char>) -> bool {
    &&& s.len() > 0
    &&& s[0] != '{'
    &&& s[0] != '$'
    &&& forall|j: int| 0 <= j < s.len() ==> s[j] != ':'
}

/// A plain declared name is all local name under the tag grammar, and
/// its field carries no namespace and no attribute flag.
pub proof fn lemma_plain_tag(s: Seq<char>)
    requires
        plain_name(s),
    ensures
        parse_tag(s) == (crate::tag::TagV { n: None, l: None, p: None, e: s }),
        field_of(s) == (FieldV { namespace: None, local_name: s, name: s, attr: false }),
{
    crate::tag::lemma_find_last_none(s, ':', 1, s.len() - 1);
    proof_plain_not_attr(s);
}

/// A name without `:` cannot carry the attribute sentinel.
proof fn proof_plain_not_attr(s: Seq<char>)
    requires
        plain_name(s),
    ensures
        !(s.len() >= 6 && s.take(6) == "$attr:"@),
{
    reveal_strlit("$attr:");
    if s.len() >= 6 && s.take(6) == "$attr:"@ {
        assert(s.take(6)[5] == s[5]);
        assert(s[5] == ':');
    }
}

/// Round trip of a two-field record with plain tags: encoding yields one
/// element per field in declaration order; decoding matches each element
/// back to its declared field and reads each value back unchanged.
pub proof fn lemma_record_round_trip(
    n1: Seq<char>,
    s1: Seq<char>,
    n2: Seq<char>,
    s2: Seq<char>,
    ns: Seq<Seq<char>>,
    loc: bool,
)
    requires
        plain_name(n1),
        plain_name(n2),
        n1 != n2,
        escape_free(s1),
        escape_free(s2),
    ensures
        ({
            let contents = seq![
                SEntryV { tag: n1, data: SDataV::Chars(s1) },
                SEntryV { tag: n2, data: SDataV::Chars(s2) },
            ];
            let evs = format_spec(
                SDataV::Struct { attrs: Seq::empty(), contents },
                false,
                ns,
                loc,
            );
            let fields = seq![field_of(n1), field_of(n2)];
            &&& evs.len() == 6
            &&& map_key_of(fields, false, evs[0]) == Some(n1)
            &&& ps_target(evs, 0, true) == (RtcOut::Text(s1), 2int, Some(
                element_name(parse_tag(n1)),
            ))
            &&& end_matches(evs[2], element_name(parse_tag(n1)))
            &&& ps_result(evs, 0, true) == (PsRes::Val(s1), 3int)
            &&& map_key_of(fields, false, evs[3]) == Some(n2)
            &&& ps_target(evs, 3, true) == (RtcOut::Text(s2), 5int, Some(
                element_name(parse_tag(n2)),
            ))
            &&& end_matches(evs[5], element_name(parse_tag(n2)))
            &&& ps_result(evs, 3, true) == (PsRes::Val(s2), 6int)
        }),
{
    reveal_strlit("$value");
    reveal_strlit("$valueRaw");
    lemma_escape_clean(s1);
    lemma_escape_clean(s2);
    lemma_plain_tag(n1);
    lemma_plain_tag(n2);
    let e1 = SEntryV { tag: n1, data: SDataV::Chars(s1) };
    let e2 = SEntryV { tag: n2, data: SDataV::Chars(s2) };
    let contents = seq![e1, e2];
    let fields = seq![field_of(n1), field_of(n2)];
    assert(n1 != "$valueRaw"@ && !(n1.len() >= 6 && n1.take(6) == "$value"@)) by {
        lemma_plain_no_sentinel(n1);
    }
    assert(n2 != "$valueRaw"@ && !(n2.len() >= 6 && n2.take(6) == "$value"@)) by {
        lemma_plain_no_sentinel(n2);
    }
    let t1 = parse_tag(n1);
    let t2 = parse_tag(n2);
    let w1 = format_element_spec(t1, SDataV::Chars(s1), false, ns, loc);
    let w2 = format_element_spec(t2, SDataV::Chars(s2), false, ns, loc);
    assert(format_entry_spec(e1, false, ns, loc) == w1);
    assert(format_entry_spec(e2, false, ns, loc) == w2);
    let evs = format_spec(SDataV::Struct { attrs: Seq::empty(), contents }, false, ns, loc);
    assert(contents.skip(1) =~= seq![e2]);
    assert(seq![e2].skip(1) =~= Seq::<SEntryV>::empty());
    assert(format_entries_spec(Seq::<SEntryV>::empty(), false, ns, loc) =~= Seq::<
        EventV,
    >::empty());
    assert(format_entries_spec(seq![e2], false, ns, loc) =~= w2);
    assert(evs =~= w1 + w2);
    assert(w1 =~= seq![start_event(t1, SDataV::Chars(s1), ns, loc)] + seq![
        EventV::Characters(s1),
    ] + seq![end_event(t1)]);
    assert(w2 =~= seq![start_event(t2, SDataV::Chars(s2), ns, loc)] + seq![
        EventV::Characters(s2),
    ] + seq![end_event(t2)]);
    assert(evs.len() == 6);
    assert(evs[0] is StartElement && evs[0]->StartElement_name == element_name(t1));
    assert(evs[1].is_text() && evs[1].text() == s1);
    assert(evs[3] is StartElement && evs[3]->StartElement_name == element_name(t2));
    assert(evs[4].is_text() && evs[4].text() == s2);
    assert(rtc(evs, 1) == (RtcOut::Text(s1), 2int));
    assert(rtc(evs, 4) == (RtcOut::Text(s2), 5int));
    assert(fields[0] == field_of(n1) && fields[1] == field_of(n2));
    assert(match_field_at(fields, element_name(t1)) == Some(n1));
    assert(fields.skip(1) =~= seq![field_of(n2)]);
    assert(match_field_at(seq![field_of(n2)], element_name(t2)) == Some(n2)) by {
        assert(seq![field_of(n2)][0] == field_of(n2));
    }
    assert(match_field_at(fields, element_name(t2)) == Some(n2));
}

/// A plain name is neither inner-value sentinel.
proof fn lemma_plain_no_sentinel(s: Seq<char>)
    requires
        plain_name(s),
    ensures
        s != "$valueRaw"@,
        !(s.len() >= 6 && s.take(6) == "$value"@),
{
    reveal_strlit("$value");
    reveal_strlit("$valueRaw");
    assert("$valueRaw"@[0] == '$');
    if s == "$valueRaw"@ {
        assert(s[0] == '$');
    }
    if s.len() >= 6 && s.take(6) == "$value"@ {
        assert(s.take(6)[0] == s[0]);
        assert(s[0] == '$');
    }
}

} // verus!
