//! The serialization engine.
//!
//! Encoding is two-phase.  The push phase accumulates an intermediate,
//! namespace-agnostic value tree (`_SerializerData`) through the builder
//! types below.  The linearization phase (`format_data`) walks the finished
//! tree once and emits namespace-aware XML events, resolving declared names
//! through the tag grammar, grouping repeated fields into sibling elements,
//! and deduplicating namespace declarations and schema-location attributes
//! down the open-element stack.

use vstd::prelude::*;

use crate::error::Error;
use crate::events::{clone_opt_string, Attribute, AttrV, Event, EventV, NameV, NsBinding,
    NsBindingV, QName};
use crate::shims::{document_text, emit_document, emit_document_ok, escape_text};
use crate::tag::{find_last, parse_tag, Tag, TagV};
use crate::text::{dec_of, dec_of_int, escape_pcdata, hex_of, i64_to_dec, string_from_chars,
    u64_to_dec};

verus! {

/// Mathematical model of one accumulated attribute.
pub struct SAttrV {
    pub name: Seq<char>,
    pub value: Seq<char>,
}

/// Mathematical model of one (declared tag, child node) entry.
pub struct SEntryV {
    pub tag: Seq<char>,
    pub data: SDataV,
}

/// Mathematical model of the intermediate value tree.
pub enum SDataV {
    CData(Seq<char>),
    Chars(Seq<char>),
    List(Seq<SDataV>),
    Struct { attrs: Seq<SAttrV>, contents: Seq<SEntryV> },
}

/// One accumulated attribute: declared name and rendered value.
pub struct SAttr {
    pub name: String,
    pub value: String,
}

/// One accumulated (declared tag, child node) entry.
pub struct SEntry {
    pub tag: String,
    pub data: _SerializerData,
}

/// The intermediate value tree built during the push phase: text kept as
/// CDATA, plain text, an ordered list, or a structured node of attributes
/// and tagged children.
pub enum _SerializerData {
    CData(String),
    Chars(String),
    List(Vec<_SerializerData>),
    Struct { attrs: Vec<SAttr>, contents: Vec<SEntry> },
}

/// The mathematical value of a tree node.
pub open spec fn sdata_view(d: _SerializerData) -> SDataV
    decreases d, 0int,
    via sdata_view_dec
{
    match d {
        _SerializerData::CData(s) => SDataV::CData(s@),
        _SerializerData::Chars(s) => SDataV::Chars(s@),
        _SerializerData::List(items) => SDataV::List(slist_view(items@)),
        _SerializerData::Struct { attrs, contents } => SDataV::Struct {
            attrs: sattrs_view(attrs@),
            contents: sentries_view(contents@),
        },
    }
}

#[via_fn]
proof fn sdata_view_dec(d: _SerializerData) {
    match d {
        _SerializerData::List(items) => {
            assert(decreases_to!(d => d->List_0));
            assert(decreases_to!(items => items@));
        },
        _SerializerData::Struct { attrs, contents } => {
            assert(decreases_to!(d => d->Struct_contents));
            assert(decreases_to!(contents => contents@));
        },
        _ => (),
    }
}

/// The mathematical value of a list of tree nodes.
pub open spec fn slist_view(items: Seq<_SerializerData>) -> Seq<SDataV>
    decreases items, 1int,
{
    if items.len() == 0 {
        Seq::empty()
    } else {
        seq![sdata_view(items[0])] + slist_view(items.skip(1))
    }
}

/// The mathematical value of an accumulated attribute list.
pub open spec fn sattrs_view(attrs: Seq<SAttr>) -> Seq<SAttrV> {
    Seq::new(attrs.len(), |i: int| SAttrV { name: attrs[i].name@, value: attrs[i].value@ })
}

/// The mathematical value of one entry.
pub open spec fn sentry_view(e: SEntry) -> SEntryV
    decreases e, 0int,
{
    SEntryV { tag: e.tag@, data: sdata_view(e.data) }
}

/// The mathematical value of an entry list.
pub open spec fn sentries_view(contents: Seq<SEntry>) -> Seq<SEntryV>
    decreases contents, 1int,
{
    if contents.len() == 0 {
        Seq::empty()
    } else {
        seq![sentry_view(contents[0])] + sentries_view(contents.skip(1))
    }
}

/// Pointwise reading of a list view.
pub proof fn lemma_slist_view(items: Seq<_SerializerData>)
    ensures
        slist_view(items).len() == items.len(),
        forall|i: int|
            0 <= i < items.len() ==> slist_view(items)[i] == sdata_view(items[i]),
    decreases items.len(),
{
    if items.len() > 0 {
        lemma_slist_view(items.skip(1));
        assert forall|i: int|
            0 <= i < items.len() implies slist_view(items)[i] == sdata_view(items[i]) by {
            if i > 0 {
                assert(items.skip(1)[i - 1] == items[i]);
            }
        }
    }
}

/// Pointwise reading of an entry-list view.
pub proof fn lemma_sentries_view(contents: Seq<SEntry>)
    ensures
        sentries_view(contents).len() == contents.len(),
        forall|i: int|
            0 <= i < contents.len() ==> sentries_view(contents)[i] == sentry_view(contents[i]),
    decreases contents.len(),
{
    if contents.len() > 0 {
        lemma_sentries_view(contents.skip(1));
        assert forall|i: int|
            0 <= i < contents.len() implies sentries_view(contents)[i] == sentry_view(
            contents[i],
        ) by {
            if i > 0 {
                assert(contents.skip(1)[i - 1] == contents[i]);
            }
        }
    }
}

impl DeepView for _SerializerData {
    type V = SDataV;

    open spec fn deep_view(&self) -> SDataV {
        sdata_view(*self)
    }
}

/// Well-formedness of a tree for linearization: every declared tag and
/// every attribute name in the tree is nonempty, as the tag grammar
/// requires of what it is asked to parse.
pub open spec fn wf_sdata(d: SDataV) -> bool
    decreases d, 0int,
{
    match d {
        SDataV::CData(_) => true,
        SDataV::Chars(_) => true,
        SDataV::List(items) => wf_list(items),
        SDataV::Struct { attrs, contents } => wf_attrs(attrs) && wf_entries(contents),
    }
}

/// Well-formedness of every node of a list.
pub open spec fn wf_list(items: Seq<SDataV>) -> bool
    decreases items, 1int,
{
    if items.len() == 0 {
        true
    } else {
        wf_sdata(items[0]) && wf_list(items.skip(1))
    }
}

/// Nonemptiness of every attribute name.
pub open spec fn wf_attrs(attrs: Seq<SAttrV>) -> bool {
    forall|i: int| 0 <= i < attrs.len() ==> attrs[i].name.len() > 0
}

/// Well-formedness of one entry: nonempty tag, well-formed child.
pub open spec fn wf_entry(e: SEntryV) -> bool
    decreases e, 1int,
{
    e.tag.len() > 0 && wf_sdata(e.data)
}

/// Well-formedness of every entry of a structured node.
pub open spec fn wf_entries(contents: Seq<SEntryV>) -> bool
    decreases contents, 2int,
{
    if contents.len() == 0 {
        true
    } else {
        wf_entry(contents[0]) && wf_entries(contents.skip(1))
    }
}

pub proof fn lemma_wf_list_index(items: Seq<SDataV>, i: int)
    requires
        wf_list(items),
        0 <= i < items.len(),
    ensures
        wf_sdata(items[i]),
    decreases i,
{
    if i > 0 {
        lemma_wf_list_index(items.skip(1), i - 1);
    }
}

pub proof fn lemma_wf_entries_index(contents: Seq<SEntryV>, i: int)
    requires
        wf_entries(contents),
        0 <= i < contents.len(),
    ensures
        wf_entry(contents[i]),
    decreases i,
{
    if i > 0 {
        lemma_wf_entries_index(contents.skip(1), i - 1);
    }
}

/// The comma-joined flat text of a node, used where a plain string is
/// needed (attribute values and map keys).
pub open spec fn as_str_spec(d: SDataV) -> Seq<char>
    decreases d, 0int,
{
    match d {
        SDataV::CData(s) => s,
        SDataV::Chars(s) => s,
        SDataV::List(items) => join_list(items),
        SDataV::Struct { attrs, contents } => join_entries(contents),
    }
}

/// The flat text of one entry's child.
pub open spec fn entry_str(e: SEntryV) -> Seq<char>
    decreases e, 1int,
{
    as_str_spec(e.data)
}

/// Comma-joined texts of a list's nodes.
pub open spec fn join_list(items: Seq<SDataV>) -> Seq<char>
    decreases items, 1int,
{
    if items.len() == 0 {
        Seq::empty()
    } else if items.len() == 1 {
        as_str_spec(items[0])
    } else {
        as_str_spec(items[0]) + seq![','] + join_list(items.skip(1))
    }
}

/// Comma-joined texts of a structured node's children.
pub open spec fn join_entries(contents: Seq<SEntryV>) -> Seq<char>
    decreases contents, 2int,
{
    if contents.len() == 0 {
        Seq::empty()
    } else if contents.len() == 1 {
        entry_str(contents[0])
    } else {
        entry_str(contents[0]) + seq![','] + join_entries(contents.skip(1))
    }
}

/// The joined text of the first `i` nodes of a list.
pub open spec fn join_prefix_list(items: Seq<SDataV>, i: int) -> Seq<char>
    decreases i,
{
    if i <= 0 {
        Seq::empty()
    } else if i == 1 {
        as_str_spec(items[0])
    } else {
        join_prefix_list(items, i - 1) + seq![','] + as_str_spec(items[i - 1])
    }
}

/// The joined text of the first `i` entries of a structured node.
pub open spec fn join_prefix_entries(contents: Seq<SEntryV>, i: int) -> Seq<char>
    decreases i,
{
    if i <= 0 {
        Seq::empty()
    } else if i == 1 {
        as_str_spec(contents[0].data)
    } else {
        join_prefix_entries(contents, i - 1) + seq![','] + as_str_spec(contents[i - 1].data)
    }
}

/// Prefix joins agree with the recursive join once the whole list is in.
proof fn lemma_join_prefix_list_all(items: Seq<SDataV>)
    ensures
        join_prefix_list(items, items.len() as int) == join_list(items),
    decreases items.len(),
{
    if items.len() > 1 {
        lemma_join_prefix_list_all(items.skip(1));
        lemma_join_list_shift(items, items.len() as int);
        assert(join_list(items) == as_str_spec(items[0]) + seq![','] + join_list(items.skip(1)));
    }
}

/// Prefix joins commute with dropping the head node.
proof fn lemma_join_list_shift(items: Seq<SDataV>, i: int)
    requires
        items.len() >= 2,
        2 <= i <= items.len(),
    ensures
        join_prefix_list(items, i) == as_str_spec(items[0]) + seq![','] + join_prefix_list(
            items.skip(1),
            i - 1,
        ),
    decreases i,
{
    if i == 2 {
        assert(items.skip(1)[0] == items[1]);
        assert(join_prefix_list(items, 1) == as_str_spec(items[0]));
        assert(join_prefix_list(items.skip(1), 1) == as_str_spec(items.skip(1)[0]));
        assert(join_prefix_list(items, 2) =~= as_str_spec(items[0]) + seq![',']
            + join_prefix_list(items.skip(1), 1));
    } else {
        lemma_join_list_shift(items, i - 1);
        assert(items.skip(1)[i - 2] == items[i - 1]);
        assert(join_prefix_list(items.skip(1), i - 1) == join_prefix_list(items.skip(1), i - 2)
            + seq![','] + as_str_spec(items.skip(1)[i - 2]));
        assert(join_prefix_list(items, i) =~= as_str_spec(items[0]) + seq![',']
            + join_prefix_list(items.skip(1), i - 1));
    }
}

proof fn lemma_join_prefix_entries_all(contents: Seq<SEntryV>)
    ensures
        join_prefix_entries(contents, contents.len() as int) == join_entries(contents),
    decreases contents.len(),
{
    if contents.len() > 1 {
        lemma_join_prefix_entries_all(contents.skip(1));
        lemma_join_entries_shift(contents, contents.len() as int);
        assert(contents.skip(1).len() as int == contents.len() - 1);
        assert(entry_str(contents[0]) == as_str_spec(contents[0].data));
        assert(join_entries(contents) == entry_str(contents[0]) + seq![','] + join_entries(
            contents.skip(1),
        ));
    } else if contents.len() == 1 {
        assert(join_entries(contents) == entry_str(contents[0]));
        assert(entry_str(contents[0]) == as_str_spec(contents[0].data));
    }
}

proof fn lemma_join_entries_shift(contents: Seq<SEntryV>, i: int)
    requires
        contents.len() >= 2,
        2 <= i <= contents.len(),
    ensures
        join_prefix_entries(contents, i) == as_str_spec(contents[0].data) + seq![',']
            + join_prefix_entries(contents.skip(1), i - 1),
    decreases i,
{
    if i == 2 {
        assert(contents.skip(1)[0] == contents[1]);
        assert(join_prefix_entries(contents, 1) == as_str_spec(contents[0].data));
        assert(join_prefix_entries(contents.skip(1), 1) == as_str_spec(contents.skip(1)[0].data));
        assert(join_prefix_entries(contents, 2) =~= as_str_spec(contents[0].data) + seq![',']
            + join_prefix_entries(contents.skip(1), 1));
    } else {
        lemma_join_entries_shift(contents, i - 1);
        assert(contents.skip(1)[i - 2] == contents[i - 1]);
        assert(join_prefix_entries(contents.skip(1), i - 1) == join_prefix_entries(
            contents.skip(1),
            i - 2,
        ) + seq![','] + as_str_spec(contents.skip(1)[i - 2].data));
        assert(join_prefix_entries(contents, i) =~= as_str_spec(contents[0].data) + seq![',']
            + join_prefix_entries(contents.skip(1), i - 1));
    }
}

impl _SerializerData {
    /// The comma-joined flat text of this node.
    pub fn as_str(&self) -> (r: String)
        ensures
            r@ == as_str_spec(self.deep_view()),
        decreases *self, 3int,
    {
        match self {
            _SerializerData::CData(s) => s.clone(),
            _SerializerData::Chars(s) => s.clone(),
            _SerializerData::List(items) => {
                proof {
                    assert(decreases_to!(*self => self->List_0));
                }
                join_list_exec(items)
            },
            _SerializerData::Struct { attrs: _, contents } => {
                proof {
                    assert(decreases_to!(*self => self->Struct_contents));
                }
                join_entries_exec(contents)
            },
        }
    }
}

fn join_list_exec(items: &Vec<_SerializerData>) -> (r: String)
    ensures
        r@ == join_list(slist_view(items@)),
    decreases *items, 4int,
{
    let ghost sv = slist_view(items@);
    proof {
        lemma_slist_view(items@);
    }
    let mut r = String::new();
    let mut i: usize = 0;
    while i < items.len()
        invariant
            i <= items.len(),
            sv == slist_view(items@),
            sv.len() == items@.len(),
            forall|j: int| 0 <= j < items@.len() ==> sv[j] == sdata_view(items@[j]),
            r@ == join_prefix_list(sv, i as int),
        decreases items.len() - i,
    {
        if i > 0 {
            r.append(",");
        }
        proof {
            assert(decreases_to!(*items => items@));
            assert(decreases_to!(items@ => items@[i as int]));
        }
        let piece = items[i].as_str();
        r.append(piece.as_str());
        proof {
            reveal_strlit(",");
            assert(sv[i as int] == sdata_view(items@[i as int]));
            if i == 0 {
                assert(r@ =~= join_prefix_list(sv, 1));
            } else {
                assert(","@ =~= seq![',']);
                assert(join_prefix_list(sv, i + 1) == join_prefix_list(sv, i as int) + seq![',']
                    + as_str_spec(sv[i as int]));
                assert(r@ =~= join_prefix_list(sv, i + 1));
            }
        }
        i = i + 1;
    }
    proof {
        lemma_join_prefix_list_all(sv);
    }
    r
}

fn join_entries_exec(contents: &Vec<SEntry>) -> (r: String)
    ensures
        r@ == join_entries(sentries_view(contents@)),
    decreases *contents, 4int,
{
    let ghost sv = sentries_view(contents@);
    proof {
        lemma_sentries_view(contents@);
    }
    let mut r = String::new();
    let mut i: usize = 0;
    while i < contents.len()
        invariant
            i <= contents.len(),
            sv == sentries_view(contents@),
            sv.len() == contents@.len(),
            forall|j: int| 0 <= j < contents@.len() ==> sv[j] == sentry_view(contents@[j]),
            r@ == join_prefix_entries(sv, i as int),
        decreases contents.len() - i,
    {
        if i > 0 {
            r.append(",");
        }
        proof {
            assert(decreases_to!(*contents => contents@));
            assert(decreases_to!(contents@ => contents@[i as int]));
            assert(decreases_to!(contents@[i as int] => contents@[i as int].data));
        }
        let piece = contents[i].data.as_str();
        r.append(piece.as_str());
        proof {
            reveal_strlit(",");
            assert(sv[i as int].data == sdata_view(contents@[i as int].data));
            if i == 0 {
                assert(r@ =~= join_prefix_entries(sv, 1));
            } else {
                assert(","@ =~= seq![',']);
                assert(join_prefix_entries(sv, i + 1) == join_prefix_entries(sv, i as int)
                    + seq![','] + as_str_spec(sv[i as int].data));
                assert(r@ =~= join_prefix_entries(sv, i + 1));
            }
        }
        i = i + 1;
    }
    proof {
        lemma_join_prefix_entries_all(sv);
    }
    r
}

/// The single text event a text node linearizes to: CDATA or characters,
/// escaped unless raw mode is on.
pub open spec fn text_event(raw: bool, s: Seq<char>, cdata: bool) -> EventV {
    let body = if raw {
        s
    } else {
        escape_pcdata(s)
    };
    if cdata {
        EventV::CData(body)
    } else {
        EventV::Characters(body)
    }
}

/// The qualified name an element is written with: prefix and local name
/// from the tag; the event itself carries no resolved namespace.
pub open spec fn element_name(t: TagV) -> NameV {
    NameV { local_name: t.e, namespace: None, prefix: t.p }
}

/// The qualified name an attribute is written with: all three parts from
/// its declared name.
pub open spec fn attr_name_of(tv: TagV) -> NameV {
    NameV { local_name: tv.e, namespace: tv.n, prefix: tv.p }
}

/// The `xsi` namespace binding added to every element when schema
/// locations are wanted.
pub open spec fn xsi_binding() -> NsBindingV {
    NsBindingV { prefix: "xsi"@, uri: "http://www.w3.org/2001/XMLSchema-instance"@ }
}

/// The binding an element declares for its own namespace: under its
/// prefix, or as the default namespace without one.
pub open spec fn elem_binding(t: TagV) -> NsBindingV
    recommends
        t.n is Some,
{
    NsBindingV {
        prefix: if t.p is Some {
            t.p->0
        } else {
            ""@
        },
        uri: t.n->0,
    }
}

/// All namespace bindings declared on an element.
pub open spec fn element_bindings(t: TagV, loc: bool) -> Seq<NsBindingV> {
    (if loc {
        seq![xsi_binding()]
    } else {
        Seq::empty()
    }) + (if t.n is Some {
        seq![elem_binding(t)]
    } else {
        Seq::empty()
    })
}

/// The last `:`-separated segment of a namespace URI.
pub open spec fn last_seg(n: Seq<char>) -> Seq<char> {
    let j = find_last(n, ':', 0, n.len() as int);
    if j >= 0 {
        n.subrange(j + 1, n.len() as int)
    } else {
        n
    }
}

/// The schema-location value for a tag: the explicit hint, or a derived
/// default of the URI's last segment with `.xsd`.
pub open spec fn schema_loc_value(t: TagV) -> Seq<char>
    recommends
        t.n is Some,
{
    t.n->0 + " "@ + (if t.l is Some {
        t.l->0
    } else {
        last_seg(t.n->0) + ".xsd"@
    })
}

/// The `xsi:schemaLocation` attribute for a tag.
pub open spec fn schema_attr(t: TagV) -> AttrV {
    AttrV {
        name: NameV { local_name: "schemaLocation"@, namespace: None, prefix: Some("xsi"@) },
        value: schema_loc_value(t),
    }
}

/// The attributes a node contributes to its own element: only a
/// structured node carries any, each name resolved through the grammar.
pub open spec fn user_attrs(d: SDataV) -> Seq<AttrV> {
    if d is Struct {
        Seq::new(
            d->Struct_attrs.len(),
            |i: int|
                AttrV {
                    name: attr_name_of(parse_tag(d->Struct_attrs[i].name)),
                    value: d->Struct_attrs[i].value,
                },
        )
    } else {
        Seq::empty()
    }
}

/// Whether the element introduces a namespace not yet declared on an
/// open ancestor.
pub open spec fn needs_decl(t: TagV, ns: Seq<Seq<char>>) -> bool {
    t.n is Some && !ns.contains(t.n->0)
}

/// The attribute list written on an element: the schema-location
/// attribute when the namespace is newly declared and wanted, then the
/// node's own attributes.
pub open spec fn element_attrs(t: TagV, d: SDataV, ns: Seq<Seq<char>>, loc: bool) -> Seq<AttrV> {
    (if needs_decl(t, ns) && loc {
        seq![schema_attr(t)]
    } else {
        Seq::empty()
    }) + user_attrs(d)
}

/// The namespace stack the element's content is linearized under.
pub open spec fn child_ns(t: TagV, ns: Seq<Seq<char>>) -> Seq<Seq<char>> {
    if needs_decl(t, ns) {
        ns.push(t.n->0)
    } else {
        ns
    }
}

/// The start event of one element.
pub open spec fn start_event(t: TagV, d: SDataV, ns: Seq<Seq<char>>, loc: bool) -> EventV {
    EventV::StartElement {
        name: element_name(t),
        attributes: element_attrs(t, d, ns, loc),
        namespace: element_bindings(t, loc),
    }
}

/// The end event of one element.
pub open spec fn end_event(t: TagV) -> EventV {
    EventV::EndElement { name: element_name(t) }
}

/// The events a tree node linearizes to, under raw mode `raw`, ancestor
/// namespaces `ns`, and the schema-location switch `loc`.
pub open spec fn format_spec(d: SDataV, raw: bool, ns: Seq<Seq<char>>, loc: bool) -> Seq<EventV>
    decreases d, 0int,
{
    match d {
        SDataV::CData(s) => seq![text_event(raw, s, true)],
        SDataV::Chars(s) => seq![text_event(raw, s, false)],
        SDataV::List(items) => format_list_spec(items, raw, ns, loc),
        SDataV::Struct { attrs, contents } => format_entries_spec(contents, raw, ns, loc),
    }
}

/// The events of a list of nodes, in order.
pub open spec fn format_list_spec(
    items: Seq<SDataV>,
    raw: bool,
    ns: Seq<Seq<char>>,
    loc: bool,
) -> Seq<EventV>
    decreases items, 1int,
{
    if items.len() == 0 {
        Seq::empty()
    } else {
        format_spec(items[0], raw, ns, loc) + format_list_spec(items.skip(1), raw, ns, loc)
    }
}

/// The events of a structured node's entries, in order.
pub open spec fn format_entries_spec(
    contents: Seq<SEntryV>,
    raw: bool,
    ns: Seq<Seq<char>>,
    loc: bool,
) -> Seq<EventV>
    decreases contents, 2int,
{
    if contents.len() == 0 {
        Seq::empty()
    } else {
        format_entry_spec(contents[0], raw, ns, loc) + format_entries_spec(
            contents.skip(1),
            raw,
            ns,
            loc,
        )
    }
}

/// The events of one entry.  The raw sentinel inlines its child with
/// escaping off; any other inner-value sentinel inlines it unchanged; any
/// other tag is resolved through the grammar, a list child becoming
/// sibling elements under the tag and any other child a single element.
pub open spec fn format_entry_spec(e: SEntryV, raw: bool, ns: Seq<Seq<char>>, loc: bool) -> Seq<
    EventV,
>
    decreases e, 4int,
{
    if e.tag == "$valueRaw"@ {
        format_spec(e.data, true, ns, loc)
    } else if e.tag.len() >= 6 && e.tag.take(6) == "$value"@ {
        format_spec(e.data, raw, ns, loc)
    } else {
        let t = parse_tag(e.tag);
        if e.data is List {
            format_element_list_spec(t, e.data->List_0, raw, ns, loc)
        } else {
            format_element_spec(t, e.data, raw, ns, loc)
        }
    }
}

/// The events of a repeated field: one element per member, as siblings
/// under the same tag.
pub open spec fn format_element_list_spec(
    t: TagV,
    items: Seq<SDataV>,
    raw: bool,
    ns: Seq<Seq<char>>,
    loc: bool,
) -> Seq<EventV>
    decreases items, 1int,
{
    if items.len() == 0 {
        Seq::empty()
    } else {
        format_element_spec(t, items[0], raw, ns, loc) + format_element_list_spec(
            t,
            items.skip(1),
            raw,
            ns,
            loc,
        )
    }
}

/// The events of one element: start tag (with attributes and namespace
/// bindings), content under the extended namespace stack, end tag.
pub open spec fn format_element_spec(
    t: TagV,
    d: SDataV,
    raw: bool,
    ns: Seq<Seq<char>>,
    loc: bool,
) -> Seq<EventV>
    decreases d, 3int,
{
    seq![start_event(t, d, ns, loc)] + format_spec(d, raw, child_ns(t, ns), loc) + seq![
        end_event(t),
    ]
}

/// Concatenation splits a list linearization.
pub proof fn lemma_format_list_app(
    a: Seq<SDataV>,
    b: Seq<SDataV>,
    raw: bool,
    ns: Seq<Seq<char>>,
    loc: bool,
)
    ensures
        format_list_spec(a + b, raw, ns, loc) == format_list_spec(a, raw, ns, loc)
            + format_list_spec(b, raw, ns, loc),
    decreases a.len(),
{
    if a.len() == 0 {
        assert(a + b =~= b);
        assert(format_list_spec(a, raw, ns, loc) + format_list_spec(b, raw, ns, loc)
            =~= format_list_spec(b, raw, ns, loc));
    } else {
        lemma_format_list_app(a.skip(1), b, raw, ns, loc);
        assert((a + b).skip(1) =~= a.skip(1) + b);
        assert((a + b)[0] == a[0]);
        assert(format_list_spec(a + b, raw, ns, loc) =~= format_list_spec(a, raw, ns, loc)
            + format_list_spec(b, raw, ns, loc));
    }
}

/// Concatenation splits an entry linearization.
pub proof fn lemma_format_entries_app(
    a: Seq<SEntryV>,
    b: Seq<SEntryV>,
    raw: bool,
    ns: Seq<Seq<char>>,
    loc: bool,
)
    ensures
        format_entries_spec(a + b, raw, ns, loc) == format_entries_spec(a, raw, ns, loc)
            + format_entries_spec(b, raw, ns, loc),
    decreases a.len(),
{
    if a.len() == 0 {
        assert(a + b =~= b);
        assert(format_entries_spec(a, raw, ns, loc) + format_entries_spec(b, raw, ns, loc)
            =~= format_entries_spec(b, raw, ns, loc));
    } else {
        lemma_format_entries_app(a.skip(1), b, raw, ns, loc);
        assert((a + b).skip(1) =~= a.skip(1) + b);
        assert((a + b)[0] == a[0]);
        assert(format_entries_spec(a + b, raw, ns, loc) =~= format_entries_spec(a, raw, ns, loc)
            + format_entries_spec(b, raw, ns, loc));
    }
}

/// Concatenation splits a repeated field's linearization.
pub proof fn lemma_format_element_list_app(
    t: TagV,
    a: Seq<SDataV>,
    b: Seq<SDataV>,
    raw: bool,
    ns: Seq<Seq<char>>,
    loc: bool,
)
    ensures
        format_element_list_spec(t, a + b, raw, ns, loc) == format_element_list_spec(
            t,
            a,
            raw,
            ns,
            loc,
        ) + format_element_list_spec(t, b, raw, ns, loc),
    decreases a.len(),
{
    if a.len() == 0 {
        assert(a + b =~= b);
        assert(format_element_list_spec(t, a, raw, ns, loc) + format_element_list_spec(
            t,
            b,
            raw,
            ns,
            loc,
        ) =~= format_element_list_spec(t, b, raw, ns, loc));
    } else {
        lemma_format_element_list_app(t, a.skip(1), b, raw, ns, loc);
        assert((a + b).skip(1) =~= a.skip(1) + b);
        assert((a + b)[0] == a[0]);
        assert(format_element_list_spec(t, a + b, raw, ns, loc) =~= format_element_list_spec(
            t,
            a,
            raw,
            ns,
            loc,
        ) + format_element_list_spec(t, b, raw, ns, loc));
    }
}

/// Whether the stack already declares namespace `n`.
fn ns_contains(ns: &Vec<String>, n: &String) -> (r: bool)
    ensures
        r == ns.deep_view().contains(n@),
{
    let mut i: usize = 0;
    while i < ns.len()
        invariant
            i <= ns.len(),
            forall|j: int| 0 <= j < i ==> ns.deep_view()[j] != n@,
        decreases ns.len() - i,
    {
        if ns[i].eq(n) {
            proof {
                assert(ns.deep_view()[i as int] == n@);
            }
            return true;
        }
        i = i + 1;
    }
    proof {
        assert(!ns.deep_view().contains(n@));
    }
    false
}

/// The last `:`-separated segment of a namespace URI.
fn last_seg_exec(n: &str) -> (r: String)
    ensures
        r@ == last_seg(n@),
{
    let cs = crate::tag::chars_of(n);
    let m = cs.len();
    match crate::tag::scan_last(&cs, ':', 0, m) {
        Some(j) => {
            let r = n.substring_char(j + 1, m).to_owned();
            r
        },
        None => n.to_owned(),
    }
}

/// The schema-location value for a tag.
fn schema_loc_value_exec(t: &Tag) -> (r: String)
    requires
        t@.n is Some,
    ensures
        r@ == schema_loc_value(t@),
{
    let mut r = String::new();
    match &t.n {
        Some(n) => {
            r.append(n.as_str());
            r.append(" ");
            match &t.l {
                Some(l) => {
                    r.append(l.as_str());
                    proof {
                        assert(r@ =~= schema_loc_value(t@));
                    }
                },
                None => {
                    let seg = last_seg_exec(n.as_str());
                    r.append(seg.as_str());
                    r.append(".xsd");
                    proof {
                        assert(r@ =~= schema_loc_value(t@));
                    }
                },
            }
        },
        None => {
            proof {
                assert(false);
            }
        },
    }
    r
}

/// The qualified name an element is written with.
fn qname_of_tag(t: &Tag) -> (r: QName)
    ensures
        r.deep_view() == element_name(t@),
{
    QName { local_name: t.e.clone(), namespace: None, prefix: clone_opt_string(&t.p) }
}

/// The qualified name an attribute is written with.
fn attr_qname(t: &Tag) -> (r: QName)
    ensures
        r.deep_view() == attr_name_of(t@),
{
    QName {
        local_name: t.e.clone(),
        namespace: clone_opt_string(&t.n),
        prefix: clone_opt_string(&t.p),
    }
}

/// The namespace bindings an element declares.
fn build_bindings(t: &Tag, loc: bool) -> (r: Vec<NsBinding>)
    ensures
        r.deep_view() == element_bindings(t@, loc),
{
    let mut r: Vec<NsBinding> = Vec::new();
    if loc {
        r.push(
            NsBinding {
                prefix: String::from_str("xsi"),
                uri: String::from_str("http://www.w3.org/2001/XMLSchema-instance"),
            },
        );
    }
    match &t.n {
        Some(n) => {
            let prefix = match &t.p {
                Some(p) => p.clone(),
                None => String::new(),
            };
            r.push(NsBinding { prefix, uri: n.clone() });
        },
        None => (),
    }
    proof {
        reveal_strlit("");
        assert(""@ =~= Seq::<char>::empty());
        assert(r.deep_view() =~= element_bindings(t@, loc));
    }
    r
}

/// The attribute list written on an element, and whether the element
/// newly declares its namespace.
fn build_element_attrs(t: &Tag, d: &_SerializerData, ns_stack: &Vec<String>, loc: bool) -> (r: (
    Vec<Attribute>,
    bool,
))
    requires
        wf_sdata(sdata_view(*d)),
    ensures
        r.0.deep_view() == element_attrs(t@, sdata_view(*d), ns_stack.deep_view(), loc),
        r.1 == needs_decl(t@, ns_stack.deep_view()),
{
    let needs = match &t.n {
        Some(n) => !ns_contains(ns_stack, n),
        None => false,
    };
    let mut r: Vec<Attribute> = Vec::new();
    if needs && loc {
        r.push(
            Attribute {
                name: QName {
                    local_name: String::from_str("schemaLocation"),
                    namespace: None,
                    prefix: Some(String::from_str("xsi")),
                },
                value: schema_loc_value_exec(t),
            },
        );
    }
    let ghost head = r.deep_view();
    proof {
        assert(head =~= if needs_decl(t@, ns_stack.deep_view()) && loc {
            seq![schema_attr(t@)]
        } else {
            Seq::empty()
        });
    }
    match d {
        _SerializerData::Struct { attrs, contents: _ } => {
            let mut i: usize = 0;
            while i < attrs.len()
                invariant
                    i <= attrs.len(),
                    wf_attrs(sattrs_view(attrs@)),
                    r.deep_view().len() == head.len() + i,
                    r.deep_view() =~= head + user_attrs(sdata_view(*d)).take(i as int),
                    d is Struct,
                    d->Struct_attrs == *attrs,
                    head == (if needs_decl(t@, ns_stack.deep_view()) && loc {
                        seq![schema_attr(t@)]
                    } else {
                        Seq::<AttrV>::empty()
                    }),
                decreases attrs.len() - i,
            {
                proof {
                    assert(sattrs_view(attrs@)[i as int].name == attrs@[i as int].name@);
                }
                let tv = Tag::new(attrs[i].name.as_str());
                let ghost prev = r.deep_view();
                let a2 = Attribute { name: attr_qname(&tv), value: attrs[i].value.clone() };
                let ghost a2v = a2.deep_view();
                r.push(a2);
                proof {
                    assert(r.deep_view() =~= prev.push(a2v));
                    assert(user_attrs(sdata_view(*d))[i as int] == AttrV {
                        name: attr_name_of(parse_tag(attrs@[i as int].name@)),
                        value: attrs@[i as int].value@,
                    });
                    assert(r.deep_view() =~= head + user_attrs(sdata_view(*d)).take(i + 1));
                }
                i = i + 1;
            }
            proof {
                assert(user_attrs(sdata_view(*d)).take(attrs@.len() as int) =~= user_attrs(
                    sdata_view(*d),
                ));
                assert(r.deep_view() =~= element_attrs(t@, sdata_view(*d), ns_stack.deep_view(),
                    loc));
            }
        },
        _ => {
            proof {
                assert(user_attrs(sdata_view(*d)) =~= Seq::<AttrV>::empty());
                assert(r.deep_view() =~= element_attrs(t@, sdata_view(*d), ns_stack.deep_view(),
                    loc));
            }
        },
    }
    (r, needs)
}

/// Linearizes one tree node, appending its events to `out`, under the
/// namespace stack of the open ancestors.
pub fn format_data(
    out: &mut Vec<Event>,
    val: &_SerializerData,
    raw: bool,
    ns_stack: &Vec<String>,
    include_loc: bool,
)
    requires
        wf_sdata(sdata_view(*val)),
    ensures
        final(out).deep_view() == old(out).deep_view() + format_spec(
            sdata_view(*val),
            raw,
            ns_stack.deep_view(),
            include_loc,
        ),
    decreases *val, 0int,
{
    let ghost old_out = out.deep_view();
    match val {
        _SerializerData::CData(s) => {
            let body = if raw {
                s.clone()
            } else {
                escape_text(s.as_str())
            };
            let ghost bv = body@;
            out.push(Event::CData(body));
            proof {
                assert(out.deep_view() =~= old_out.push(EventV::CData(bv)));
                assert(out.deep_view() =~= old_out + format_spec(
                    sdata_view(*val),
                    raw,
                    ns_stack.deep_view(),
                    include_loc,
                ));
            }
        },
        _SerializerData::Chars(s) => {
            let body = if raw {
                s.clone()
            } else {
                escape_text(s.as_str())
            };
            let ghost bv = body@;
            out.push(Event::Characters(body));
            proof {
                assert(out.deep_view() =~= old_out.push(EventV::Characters(bv)));
                assert(out.deep_view() =~= old_out + format_spec(
                    sdata_view(*val),
                    raw,
                    ns_stack.deep_view(),
                    include_loc,
                ));
            }
        },
        _SerializerData::List(items) => {
            proof {
                assert(decreases_to!(*val => val->List_0));
            }
            format_list_exec_ev(out, items, raw, ns_stack, include_loc);
        },
        _SerializerData::Struct { attrs: _, contents } => {
            proof {
                assert(decreases_to!(*val => val->Struct_contents));
            }
            format_entries_exec_ev(out, contents, raw, ns_stack, include_loc);
        },
    }
}

/// Linearizes a list of nodes in order.
fn format_list_exec_ev(
    out: &mut Vec<Event>,
    items: &Vec<_SerializerData>,
    raw: bool,
    ns_stack: &Vec<String>,
    include_loc: bool,
)
    requires
        wf_list(slist_view(items@)),
    ensures
        final(out).deep_view() == old(out).deep_view() + format_list_spec(
            slist_view(items@),
            raw,
            ns_stack.deep_view(),
            include_loc,
        ),
    decreases *items, 1int,
{
    let ghost old_out = out.deep_view();
    let ghost sv = slist_view(items@);
    let ghost nsv = ns_stack.deep_view();
    proof {
        lemma_slist_view(items@);
    }
    let mut i: usize = 0;
    while i < items.len()
        invariant
            i <= items.len(),
            sv == slist_view(items@),
            nsv == ns_stack.deep_view(),
            sv.len() == items@.len(),
            forall|j: int| 0 <= j < items@.len() ==> sv[j] == sdata_view(items@[j]),
            wf_list(sv),
            out.deep_view() == old_out + format_list_spec(
                sv.take(i as int),
                raw,
                nsv,
                include_loc,
            ),
        decreases items.len() - i,
    {
        proof {
            lemma_wf_list_index(sv, i as int);
            assert(decreases_to!(*items => items@));
            assert(decreases_to!(items@ => items@[i as int]));
        }
        format_data(out, &items[i], raw, ns_stack, include_loc);
        proof {
            assert(sv.take(i + 1) =~= sv.take(i as int) + seq![sv[i as int]]);
            lemma_format_list_app(sv.take(i as int), seq![sv[i as int]], raw, nsv, include_loc);
            assert(seq![sv[i as int]].skip(1) =~= Seq::<SDataV>::empty());
            assert(format_list_spec(Seq::<SDataV>::empty(), raw, nsv, include_loc)
                =~= Seq::<EventV>::empty());
            assert(format_list_spec(seq![sv[i as int]], raw, nsv, include_loc) =~= format_spec(
                sv[i as int],
                raw,
                nsv,
                include_loc,
            ));
            assert(out.deep_view() =~= old_out + format_list_spec(
                sv.take(i + 1),
                raw,
                nsv,
                include_loc,
            ));
        }
        i = i + 1;
    }
    proof {
        assert(sv.take(items@.len() as int) =~= sv);
    }
}

/// Linearizes a structured node's entries in order.
fn format_entries_exec_ev(
    out: &mut Vec<Event>,
    contents: &Vec<SEntry>,
    raw: bool,
    ns_stack: &Vec<String>,
    include_loc: bool,
)
    requires
        wf_entries(sentries_view(contents@)),
    ensures
        final(out).deep_view() == old(out).deep_view() + format_entries_spec(
            sentries_view(contents@),
            raw,
            ns_stack.deep_view(),
            include_loc,
        ),
    decreases *contents, 2int,
{
    let ghost old_out = out.deep_view();
    let ghost sv = sentries_view(contents@);
    let ghost nsv = ns_stack.deep_view();
    proof {
        lemma_sentries_view(contents@);
    }
    let mut i: usize = 0;
    while i < contents.len()
        invariant
            i <= contents.len(),
            sv == sentries_view(contents@),
            nsv == ns_stack.deep_view(),
            sv.len() == contents@.len(),
            forall|j: int| 0 <= j < contents@.len() ==> sv[j] == sentry_view(contents@[j]),
            wf_entries(sv),
            out.deep_view() == old_out + format_entries_spec(
                sv.take(i as int),
                raw,
                nsv,
                include_loc,
            ),
        decreases contents.len() - i,
    {
        proof {
            lemma_wf_entries_index(sv, i as int);
            assert(decreases_to!(*contents => contents@));
            assert(decreases_to!(contents@ => contents@[i as int]));
        }
        format_entry_exec(out, &contents[i], raw, ns_stack, include_loc);
        proof {
            assert(sv.take(i + 1) =~= sv.take(i as int) + seq![sv[i as int]]);
            lemma_format_entries_app(sv.take(i as int), seq![sv[i as int]], raw, nsv, include_loc);
            assert(seq![sv[i as int]].skip(1) =~= Seq::<SEntryV>::empty());
            assert(format_entries_spec(Seq::<SEntryV>::empty(), raw, nsv, include_loc)
                =~= Seq::<EventV>::empty());
            assert(format_entries_spec(seq![sv[i as int]], raw, nsv, include_loc)
                =~= format_entry_spec(sv[i as int], raw, nsv, include_loc));
            assert(out.deep_view() =~= old_out + format_entries_spec(
                sv.take(i + 1),
                raw,
                nsv,
                include_loc,
            ));
        }
        i = i + 1;
    }
    proof {
        assert(sv.take(contents@.len() as int) =~= sv);
    }
}

/// Linearizes one entry: sentinels inline the child, any other tag is
/// resolved and emitted as one element or as repeated sibling elements.
fn format_entry_exec(
    out: &mut Vec<Event>,
    e: &SEntry,
    raw: bool,
    ns_stack: &Vec<String>,
    include_loc: bool,
)
    requires
        wf_entry(sentry_view(*e)),
    ensures
        final(out).deep_view() == old(out).deep_view() + format_entry_spec(
            sentry_view(*e),
            raw,
            ns_stack.deep_view(),
            include_loc,
        ),
    decreases *e, 3int,
{
    proof {
        reveal_strlit("$value");
        reveal_strlit("$valueRaw");
        assert(decreases_to!(*e => e.data));
    }
    if crate::text::str_eq_str(e.tag.as_str(), "$valueRaw") {
        format_data(out, &e.data, true, ns_stack, include_loc);
    } else if crate::text::str_has_prefix(e.tag.as_str(), "$value") {
        format_data(out, &e.data, raw, ns_stack, include_loc);
    } else {
        let t = Tag::new(e.tag.as_str());
        match &e.data {
            _SerializerData::List(items) => {
                proof {
                    assert(decreases_to!(e.data => e.data->List_0));
                }
                format_element_items(out, &t, items, raw, ns_stack, include_loc);
            },
            _ => {
                format_element_exec(out, &t, &e.data, raw, ns_stack, include_loc);
            },
        }
    }
}

/// Linearizes a repeated field: one element per member under the tag.
fn format_element_items(
    out: &mut Vec<Event>,
    t: &Tag,
    items: &Vec<_SerializerData>,
    raw: bool,
    ns_stack: &Vec<String>,
    include_loc: bool,
)
    requires
        wf_list(slist_view(items@)),
    ensures
        final(out).deep_view() == old(out).deep_view() + format_element_list_spec(
            t@,
            slist_view(items@),
            raw,
            ns_stack.deep_view(),
            include_loc,
        ),
    decreases *items, 1int,
{
    let ghost old_out = out.deep_view();
    let ghost sv = slist_view(items@);
    let ghost nsv = ns_stack.deep_view();
    proof {
        lemma_slist_view(items@);
    }
    let mut i: usize = 0;
    while i < items.len()
        invariant
            i <= items.len(),
            sv == slist_view(items@),
            nsv == ns_stack.deep_view(),
            sv.len() == items@.len(),
            forall|j: int| 0 <= j < items@.len() ==> sv[j] == sdata_view(items@[j]),
            wf_list(sv),
            out.deep_view() == old_out + format_element_list_spec(
                t@,
                sv.take(i as int),
                raw,
                nsv,
                include_loc,
            ),
        decreases items.len() - i,
    {
        proof {
            lemma_wf_list_index(sv, i as int);
            assert(decreases_to!(*items => items@));
            assert(decreases_to!(items@ => items@[i as int]));
        }
        format_element_exec(out, t, &items[i], raw, ns_stack, include_loc);
        proof {
            assert(sv.take(i + 1) =~= sv.take(i as int) + seq![sv[i as int]]);
            lemma_format_element_list_app(t@, sv.take(i as int), seq![sv[i as int]], raw, nsv,
                include_loc);
            assert(seq![sv[i as int]].skip(1) =~= Seq::<SDataV>::empty());
            assert(format_element_list_spec(t@, Seq::<SDataV>::empty(), raw, nsv, include_loc)
                =~= Seq::<EventV>::empty());
            assert(format_element_list_spec(t@, seq![sv[i as int]], raw, nsv, include_loc)
                =~= format_element_spec(t@, sv[i as int], raw, nsv, include_loc));
            assert(out.deep_view() =~= old_out + format_element_list_spec(
                t@,
                sv.take(i + 1),
                raw,
                nsv,
                include_loc,
            ));
        }
        i = i + 1;
    }
    proof {
        assert(sv.take(items@.len() as int) =~= sv);
    }
}

/// Emits one element: start tag, content, end tag, with the namespace
/// stack extended for the content when the element newly declares its
/// namespace.
fn format_element_exec(
    out: &mut Vec<Event>,
    t: &Tag,
    d: &_SerializerData,
    raw: bool,
    ns_stack: &Vec<String>,
    include_loc: bool,
)
    requires
        wf_sdata(sdata_view(*d)),
    ensures
        final(out).deep_view() == old(out).deep_view() + format_element_spec(
            t@,
            sdata_view(*d),
            raw,
            ns_stack.deep_view(),
            include_loc,
        ),
    decreases *d, 2int,
{
    let ghost old_out = out.deep_view();
    let ghost nsv = ns_stack.deep_view();
    let (attrs, needs) = build_element_attrs(t, d, ns_stack, include_loc);
    let bindings = build_bindings(t, include_loc);
    let ghost startv = start_event(t@, sdata_view(*d), nsv, include_loc);
    out.push(Event::StartElement { name: qname_of_tag(t), attributes: attrs, namespace: bindings });
    proof {
        assert(out.deep_view() =~= old_out.push(startv));
    }
    let mut child = clone_strings(ns_stack);
    if needs {
        match &t.n {
            Some(n) => {
                child.push(n.clone());
                proof {
                    assert(child.deep_view() =~= child_ns(t@, nsv));
                }
            },
            None => {
                proof {
                    assert(false);
                }
            },
        }
    } else {
        proof {
            assert(child.deep_view() =~= child_ns(t@, nsv));
        }
    }
    format_data(out, d, raw, &child, include_loc);
    let ghost endv = end_event(t@);
    let ghost mid_out = out.deep_view();
    out.push(Event::EndElement { name: qname_of_tag(t) });
    proof {
        assert(out.deep_view() =~= mid_out.push(endv));
        assert(out.deep_view() =~= old_out + format_element_spec(
            t@,
            sdata_view(*d),
            raw,
            nsv,
            include_loc,
        ));
    }
}

/// Copies a stack of namespace URIs.
fn clone_strings(xs: &Vec<String>) -> (r: Vec<String>)
    ensures
        r.deep_view() == xs.deep_view(),
{
    let mut r: Vec<String> = Vec::new();
    let mut i: usize = 0;
    while i < xs.len()
        invariant
            i <= xs.len(),
            r.deep_view() =~= xs.deep_view().subrange(0, i as int),
        decreases xs.len() - i,
    {
        let ghost prev = r.deep_view();
        r.push(xs[i].clone());
        proof {
            assert(r.deep_view() =~= prev.push(xs@[i as int]@));
        }
        i = i + 1;
    }
    proof {
        assert(r.deep_view() =~= xs.deep_view());
    }
    r
}

/// Options recognized by the encoder.
#[derive(Clone, Copy)]
pub struct Options {
    /// Whether to bind the `xsi` namespace and write schema-location
    /// attributes for newly declared namespaces.
    pub include_schema_location: bool,
}

impl Default for Options {
    /// The default options: schema locations are written.
    fn default() -> (r: Options)
        ensures
            r.include_schema_location,
    {
        Options { include_schema_location: true }
    }
}

/// The events a finished tree encodes to: linearization with escaping on
/// and no ancestor namespaces.
pub open spec fn to_events_spec(d: SDataV, loc: bool) -> Seq<EventV> {
    format_spec(d, false, Seq::empty(), loc)
}

/// Encodes a finished tree as an event list, under the given options.
pub fn to_events_custom(value: &_SerializerData, options: Options) -> (r: Result<
    Vec<Event>,
    Error,
>)
    requires
        wf_sdata(sdata_view(*value)),
    ensures
        r matches Ok(v) && v.deep_view() == to_events_spec(
            sdata_view(*value),
            options.include_schema_location,
        ),
{
    let mut out: Vec<Event> = Vec::new();
    let ns: Vec<String> = Vec::new();
    proof {
        assert(ns.deep_view() =~= Seq::<Seq<char>>::empty());
        assert(out.deep_view() =~= Seq::<EventV>::empty());
    }
    format_data(&mut out, value, false, &ns, options.include_schema_location);
    proof {
        assert(out.deep_view() =~= to_events_spec(
            sdata_view(*value),
            options.include_schema_location,
        ));
    }
    Ok(out)
}

/// Encodes a finished tree as an event list with default options.
pub fn to_events(value: &_SerializerData) -> (r: Result<Vec<Event>, Error>)
    requires
        wf_sdata(sdata_view(*value)),
    ensures
        r matches Ok(v) && v.deep_view() == to_events_spec(sdata_view(*value), true),
{
    to_events_custom(value, Options::default())
}

/// Encodes a finished tree as a complete document text, under the given
/// options.  The text is the emitter's rendering of the encoded events,
/// produced whenever the emitter accepts them; an emitter complaint is
/// passed through as a writer error.
pub fn to_string_custom(value: &_SerializerData, options: Options) -> (r: Result<String, Error>)
    requires
        wf_sdata(sdata_view(*value)),
    ensures
        r is Ok <==> emit_document_ok(
            to_events_spec(sdata_view(*value), options.include_schema_location),
        ),
        r matches Ok(s) ==> s@ == document_text(
            to_events_spec(sdata_view(*value), options.include_schema_location),
        ),
        r matches Err(e) ==> e is XMLWError,
{
    match to_events_custom(value, options) {
        Ok(evs) => emit_document(&evs),
        Err(e) => Err(e),
    }
}

/// Encodes a finished tree as a complete document text with default
/// options.
pub fn to_string(value: &_SerializerData) -> (r: Result<String, Error>)
    requires
        wf_sdata(sdata_view(*value)),
    ensures
        r is Ok <==> emit_document_ok(to_events_spec(sdata_view(*value), true)),
        r matches Ok(s) ==> s@ == document_text(to_events_spec(sdata_view(*value), true)),
        r matches Err(e) ==> e is XMLWError,
{
    to_string_custom(value, Options::default())
}

/// The push-phase entry point: each scalar becomes a text node, strings
/// become CDATA-flagged text, and the builder types below accumulate
/// sequences, maps, records and union variants.
pub struct Serializer;

impl Serializer {
    /// A boolean renders as the word `true` or `false`.
    pub fn serialize_bool(&mut self, v: bool) -> (r: Result<_SerializerData, Error>)
        ensures
            r matches Ok(d) && sdata_view(d) == SDataV::Chars(
                if v {
                    "true"@
                } else {
                    "false"@
                },
            ),
    {
        if v {
            Ok(_SerializerData::Chars(String::from_str("true")))
        } else {
            Ok(_SerializerData::Chars(String::from_str("false")))
        }
    }

    /// A signed integer renders in decimal.
    pub fn serialize_i64(&mut self, v: i64) -> (r: Result<_SerializerData, Error>)
        ensures
            r matches Ok(d) && sdata_view(d) == SDataV::Chars(dec_of_int(v as int)),
    {
        let cs = i64_to_dec(v);
        Ok(_SerializerData::Chars(string_from_chars(&cs)))
    }

    /// A signed integer renders in decimal.
    pub fn serialize_i8(&mut self, v: i8) -> (r: Result<_SerializerData, Error>)
        ensures
            r matches Ok(d) && sdata_view(d) == SDataV::Chars(dec_of_int(v as int)),
    {
        self.serialize_i64(v as i64)
    }

    /// A signed integer renders in decimal.
    pub fn serialize_i16(&mut self, v: i16) -> (r: Result<_SerializerData, Error>)
        ensures
            r matches Ok(d) && sdata_view(d) == SDataV::Chars(dec_of_int(v as int)),
    {
        self.serialize_i64(v as i64)
    }

    /// A signed integer renders in decimal.
    pub fn serialize_i32(&mut self, v: i32) -> (r: Result<_SerializerData, Error>)
        ensures
            r matches Ok(d) && sdata_view(d) == SDataV::Chars(dec_of_int(v as int)),
    {
        self.serialize_i64(v as i64)
    }

    /// An unsigned integer renders in decimal.
    pub fn serialize_u64(&mut self, v: u64) -> (r: Result<_SerializerData, Error>)
        ensures
            r matches Ok(d) && sdata_view(d) == SDataV::Chars(dec_of(v as nat)),
    {
        let cs = u64_to_dec(v);
        Ok(_SerializerData::Chars(string_from_chars(&cs)))
    }

    /// An unsigned integer renders in decimal.
    pub fn serialize_u8(&mut self, v: u8) -> (r: Result<_SerializerData, Error>)
        ensures
            r matches Ok(d) && sdata_view(d) == SDataV::Chars(dec_of(v as nat)),
    {
        self.serialize_u64(v as u64)
    }

    /// An unsigned integer renders in decimal.
    pub fn serialize_u16(&mut self, v: u16) -> (r: Result<_SerializerData, Error>)
        ensures
            r matches Ok(d) && sdata_view(d) == SDataV::Chars(dec_of(v as nat)),
    {
        self.serialize_u64(v as u64)
    }

    /// An unsigned integer renders in decimal.
    pub fn serialize_u32(&mut self, v: u32) -> (r: Result<_SerializerData, Error>)
        ensures
            r matches Ok(d) && sdata_view(d) == SDataV::Chars(dec_of(v as nat)),
    {
        self.serialize_u64(v as u64)
    }

    /// A character renders as a one-character string, kept as CDATA.
    pub fn serialize_char(&mut self, v: char) -> (r: Result<_SerializerData, Error>)
        ensures
            r matches Ok(d) && sdata_view(d) == SDataV::CData(seq![v]),
    {
        let mut s = String::new();
        crate::shims::push_char(&mut s, v);
        proof {
            assert(s@ =~= seq![v]);
        }
        Ok(_SerializerData::CData(s))
    }

    /// A string is kept as CDATA-flagged text to survive escaping
    /// decisions during linearization.
    pub fn serialize_str(&mut self, v: &str) -> (r: Result<_SerializerData, Error>)
        ensures
            r matches Ok(d) && sdata_view(d) == SDataV::CData(v@),
    {
        Ok(_SerializerData::CData(v.to_owned()))
    }

    /// A byte sequence renders as lower-case hexadecimal text.
    pub fn serialize_bytes(&mut self, v: &[u8]) -> (r: Result<_SerializerData, Error>)
        ensures
            r matches Ok(d) && sdata_view(d) == SDataV::Chars(hex_of(v@)),
    {
        Ok(_SerializerData::Chars(crate::shims::hex_encode(v)))
    }

    /// An absent optional renders as empty text.
    pub fn serialize_none(&mut self) -> (r: Result<_SerializerData, Error>)
        ensures
            r matches Ok(d) && sdata_view(d) == SDataV::Chars(Seq::<char>::empty()),
    {
        Ok(_SerializerData::Chars(String::new()))
    }

    /// A present optional is its inner value.
    pub fn serialize_some(&mut self, value: _SerializerData) -> (r: Result<_SerializerData, Error>)
        ensures
            r matches Ok(d) && sdata_view(d) == sdata_view(value),
    {
        Ok(value)
    }

    /// A unit renders as empty text.
    pub fn serialize_unit(&mut self) -> (r: Result<_SerializerData, Error>)
        ensures
            r matches Ok(d) && sdata_view(d) == SDataV::Chars(Seq::<char>::empty()),
    {
        self.serialize_none()
    }

    /// A unit struct renders as empty text.
    pub fn serialize_unit_struct(&mut self, _name: &str) -> (r: Result<_SerializerData, Error>)
        ensures
            r matches Ok(d) && sdata_view(d) == SDataV::Chars(Seq::<char>::empty()),
    {
        self.serialize_unit()
    }

    /// A unit variant renders as its declared tag's text.
    pub fn serialize_unit_variant(&mut self, _name: &str, _variant_index: u32, variant: &str) -> (r:
        Result<_SerializerData, Error>)
        ensures
            r matches Ok(d) && sdata_view(d) == SDataV::CData(variant@),
    {
        self.serialize_str(variant)
    }

    /// A newtype struct is its inner value.
    pub fn serialize_newtype_struct(&mut self, _name: &str, value: _SerializerData) -> (r: Result<
        _SerializerData,
        Error,
    >)
        ensures
            r matches Ok(d) && sdata_view(d) == sdata_view(value),
    {
        Ok(value)
    }

    /// A newtype variant wraps its payload under the variant's tag.
    pub fn serialize_newtype_variant(
        &mut self,
        _name: &str,
        _variant_index: u32,
        variant: &str,
        value: _SerializerData,
    ) -> (r: Result<_SerializerData, Error>)
        ensures
            r matches Ok(d) && sdata_view(d) == (SDataV::Struct {
                attrs: Seq::empty(),
                contents: seq![SEntryV { tag: variant@, data: sdata_view(value) }],
            }),
    {
        let ghost dv = sdata_view(value);
        let mut contents: Vec<SEntry> = Vec::new();
        contents.push(SEntry { tag: variant.to_owned(), data: value });
        proof {
            assert(contents@.skip(1) =~= Seq::<SEntry>::empty());
            assert(sentries_view(Seq::<SEntry>::empty()) =~= Seq::<SEntryV>::empty());
            assert(sentry_view(contents@[0]) == SEntryV { tag: variant@, data: dv });
            assert(sentries_view(contents@) =~= seq![SEntryV { tag: variant@, data: dv }]);
            assert(sattrs_view(Seq::<SAttr>::empty()) =~= Seq::<SAttrV>::empty());
        }
        Ok(_SerializerData::Struct { attrs: Vec::new(), contents })
    }

    /// Begins a sequence.
    pub fn serialize_seq(&mut self, _len: Option<usize>) -> (r: SeqSerializer)
        ensures
            slist_view(r.output@) == Seq::<SDataV>::empty(),
    {
        let r = SeqSerializer { output: Vec::new() };
        proof {
            assert(slist_view(r.output@) =~= Seq::<SDataV>::empty());
        }
        r
    }

    /// Begins a tuple, which accumulates as a sequence.
    pub fn serialize_tuple(&mut self, len: usize) -> (r: SeqSerializer)
        ensures
            slist_view(r.output@) == Seq::<SDataV>::empty(),
    {
        self.serialize_seq(Some(len))
    }

    /// Begins a tuple struct, which accumulates as a sequence.
    pub fn serialize_tuple_struct(&mut self, _name: &str, len: usize) -> (r: SeqSerializer)
        ensures
            slist_view(r.output@) == Seq::<SDataV>::empty(),
    {
        self.serialize_seq(Some(len))
    }

    /// Begins a tuple variant, which accumulates as a sequence.
    pub fn serialize_tuple_variant(
        &mut self,
        _name: &str,
        _variant_index: u32,
        _variant: &str,
        len: usize,
    ) -> (r: SeqSerializer)
        ensures
            slist_view(r.output@) == Seq::<SDataV>::empty(),
    {
        self.serialize_seq(Some(len))
    }

    /// Begins a map.
    pub fn serialize_map(&mut self, _len: Option<usize>) -> (r: MapSerializer)
        ensures
            sentries_view(r.keys@) == Seq::<SEntryV>::empty(),
            r.cur_key@ == Seq::<char>::empty(),
    {
        let r = MapSerializer { keys: Vec::new(), cur_key: String::new() };
        proof {
            assert(sentries_view(r.keys@) =~= Seq::<SEntryV>::empty());
        }
        r
    }

    /// Begins a record.
    pub fn serialize_struct(&mut self, _name: &str, _len: usize) -> (r: StructSerializer)
        ensures
            sattrs_view(r.attrs@) == Seq::<SAttrV>::empty(),
            sentries_view(r.keys@) == Seq::<SEntryV>::empty(),
    {
        let r = StructSerializer { attrs: Vec::new(), keys: Vec::new() };
        proof {
            assert(sattrs_view(r.attrs@) =~= Seq::<SAttrV>::empty());
            assert(sentries_view(r.keys@) =~= Seq::<SEntryV>::empty());
        }
        r
    }

    /// Begins a record-shaped union variant.
    pub fn serialize_struct_variant(
        &mut self,
        _name: &str,
        _variant_index: u32,
        variant: &str,
        _len: usize,
    ) -> (r: StructVariantSerializer)
        ensures
            sattrs_view(r.attrs@) == Seq::<SAttrV>::empty(),
            sentries_view(r.keys@) == Seq::<SEntryV>::empty(),
            r.tag@ == variant@,
    {
        let r = StructVariantSerializer {
            attrs: Vec::new(),
            keys: Vec::new(),
            tag: variant.to_owned(),
        };
        proof {
            assert(sattrs_view(r.attrs@) =~= Seq::<SAttrV>::empty());
            assert(sentries_view(r.keys@) =~= Seq::<SEntryV>::empty());
        }
        r
    }
}

/// Accumulates the members of a sequence, tuple or tuple variant.
pub struct SeqSerializer {
    pub output: Vec<_SerializerData>,
}

impl SeqSerializer {
    /// Appends one member.
    pub fn serialize_element(&mut self, value: _SerializerData)
        ensures
            slist_view(final(self).output@) == slist_view(old(self).output@).push(
                sdata_view(value),
            ),
    {
        let ghost dv = sdata_view(value);
        let ghost prev = self.output@;
        self.output.push(value);
        proof {
            lemma_slist_view(prev);
            lemma_slist_view(self.output@);
            assert(slist_view(self.output@) =~= slist_view(prev).push(dv));
        }
    }

    /// Appends one member of a tuple-shaped value.
    pub fn serialize_field(&mut self, value: _SerializerData)
        ensures
            slist_view(final(self).output@) == slist_view(old(self).output@).push(
                sdata_view(value),
            ),
    {
        self.serialize_element(value)
    }

    /// Finishes the sequence.
    pub fn end(self) -> (r: Result<_SerializerData, Error>)
        ensures
            r matches Ok(d) && sdata_view(d) == SDataV::List(slist_view(self.output@)),
    {
        Ok(_SerializerData::List(self.output))
    }
}

/// Accumulates the entries of a map.
pub struct MapSerializer {
    pub keys: Vec<SEntry>,
    pub cur_key: String,
}

impl MapSerializer {
    /// Remembers the flat text of the next entry's key.
    pub fn serialize_key(&mut self, key: &_SerializerData)
        ensures
            final(self).cur_key@ == as_str_spec(sdata_view(*key)),
            final(self).keys == old(self).keys,
    {
        self.cur_key = key.as_str();
    }

    /// Appends one entry under the remembered key.
    pub fn serialize_value(&mut self, value: _SerializerData)
        ensures
            sentries_view(final(self).keys@) == sentries_view(old(self).keys@).push(
                SEntryV { tag: old(self).cur_key@, data: sdata_view(value) },
            ),
            final(self).cur_key == old(self).cur_key,
    {
        let ghost ev = SEntryV { tag: self.cur_key@, data: sdata_view(value) };
        let ghost prev = self.keys@;
        let k = self.cur_key.clone();
        self.keys.push(SEntry { tag: k, data: value });
        proof {
            lemma_sentries_view(prev);
            lemma_sentries_view(self.keys@);
            assert(sentries_view(self.keys@) =~= sentries_view(prev).push(ev));
        }
    }

    /// Finishes the map as a structured node without attributes.
    pub fn end(self) -> (r: Result<_SerializerData, Error>)
        ensures
            r matches Ok(d) && sdata_view(d) == (SDataV::Struct {
                attrs: Seq::empty(),
                contents: sentries_view(self.keys@),
            }),
    {
        proof {
            assert(sattrs_view(Seq::<SAttr>::empty()) =~= Seq::<SAttrV>::empty());
        }
        Ok(_SerializerData::Struct { attrs: Vec::new(), contents: self.keys })
    }
}

/// Routes one pushed field: an `$attr:`-tagged field becomes an
/// accumulated attribute under the name after the sentinel, holding the
/// value's flat text; any other field becomes a tagged child entry.
fn route_field(
    attrs: &mut Vec<SAttr>,
    keys: &mut Vec<SEntry>,
    key: &str,
    value: _SerializerData,
)
    ensures
        (key@.len() >= 6 && key@.take(6) == "$attr:"@) ==> {
            &&& sattrs_view(final(attrs)@) == sattrs_view(old(attrs)@).push(
                SAttrV { name: key@.skip(6), value: as_str_spec(sdata_view(value)) },
            )
            &&& *final(keys) == *old(keys)
        },
        !(key@.len() >= 6 && key@.take(6) == "$attr:"@) ==> {
            &&& sentries_view(final(keys)@) == sentries_view(old(keys)@).push(
                SEntryV { tag: key@, data: sdata_view(value) },
            )
            &&& *final(attrs) == *old(attrs)
        },
{
    proof {
        reveal_strlit("$attr:");
    }
    if crate::text::str_has_prefix(key, "$attr:") {
        let n = key.unicode_len();
        let name = key.substring_char(6, n).to_owned();
        let ghost av = SAttrV { name: key@.skip(6), value: as_str_spec(sdata_view(value)) };
        let ghost prev = attrs@;
        let flat = value.as_str();
        attrs.push(SAttr { name, value: flat });
        proof {
            assert(key@.subrange(6, key@.len() as int) =~= key@.skip(6));
            assert(sattrs_view(attrs@) =~= sattrs_view(prev).push(av));
        }
    } else {
        let ghost ev = SEntryV { tag: key@, data: sdata_view(value) };
        let ghost prev = keys@;
        keys.push(SEntry { tag: key.to_owned(), data: value });
        proof {
            lemma_sentries_view(prev);
            lemma_sentries_view(keys@);
            assert(sentries_view(keys@) =~= sentries_view(prev).push(ev));
        }
    }
}

/// Accumulates the fields of a record.
pub struct StructSerializer {
    pub attrs: Vec<SAttr>,
    pub keys: Vec<SEntry>,
}

impl StructSerializer {
    /// Routes one field: `$attr:`-tagged fields become attributes of the
    /// enclosing element and never child elements; any other field
    /// becomes a tagged child entry and never an attribute.
    pub fn serialize_field(&mut self, key: &str, value: _SerializerData)
        ensures
            (key@.len() >= 6 && key@.take(6) == "$attr:"@) ==> {
                &&& sattrs_view(final(self).attrs@) == sattrs_view(old(self).attrs@).push(
                    SAttrV { name: key@.skip(6), value: as_str_spec(sdata_view(value)) },
                )
                &&& final(self).keys == old(self).keys
            },
            !(key@.len() >= 6 && key@.take(6) == "$attr:"@) ==> {
                &&& sentries_view(final(self).keys@) == sentries_view(old(self).keys@).push(
                    SEntryV { tag: key@, data: sdata_view(value) },
                )
                &&& final(self).attrs == old(self).attrs
            },
    {
        route_field(&mut self.attrs, &mut self.keys, key, value)
    }

    /// Finishes the record.
    pub fn end(self) -> (r: Result<_SerializerData, Error>)
        ensures
            r matches Ok(d) && sdata_view(d) == (SDataV::Struct {
                attrs: sattrs_view(self.attrs@),
                contents: sentries_view(self.keys@),
            }),
    {
        Ok(_SerializerData::Struct { attrs: self.attrs, contents: self.keys })
    }
}

/// Accumulates the fields of a record-shaped union variant.
pub struct StructVariantSerializer {
    pub attrs: Vec<SAttr>,
    pub keys: Vec<SEntry>,
    pub tag: String,
}

impl StructVariantSerializer {
    /// Routes one field exactly as a record does.
    pub fn serialize_field(&mut self, key: &str, value: _SerializerData)
        ensures
            (key@.len() >= 6 && key@.take(6) == "$attr:"@) ==> {
                &&& sattrs_view(final(self).attrs@) == sattrs_view(old(self).attrs@).push(
                    SAttrV { name: key@.skip(6), value: as_str_spec(sdata_view(value)) },
                )
                &&& final(self).keys == old(self).keys
            },
            !(key@.len() >= 6 && key@.take(6) == "$attr:"@) ==> {
                &&& sentries_view(final(self).keys@) == sentries_view(old(self).keys@).push(
                    SEntryV { tag: key@, data: sdata_view(value) },
                )
                &&& final(self).attrs == old(self).attrs
            },
            final(self).tag == old(self).tag,
    {
        route_field(&mut self.attrs, &mut self.keys, key, value)
    }

    /// Finishes the variant: its fields become an inner structured node
    /// wrapped under the variant's declared tag.
    pub fn end(self) -> (r: Result<_SerializerData, Error>)
        ensures
            r matches Ok(d) && sdata_view(d) == (SDataV::Struct {
                attrs: Seq::empty(),
                contents: seq![
                    SEntryV {
                        tag: self.tag@,
                        data: SDataV::Struct {
                            attrs: sattrs_view(self.attrs@),
                            contents: sentries_view(self.keys@),
                        },
                    },
                ],
            }),
    {
        let ghost innerv = SDataV::Struct {
            attrs: sattrs_view(self.attrs@),
            contents: sentries_view(self.keys@),
        };
        let ghost tagv = self.tag@;
        let inner = _SerializerData::Struct { attrs: self.attrs, contents: self.keys };
        let mut contents: Vec<SEntry> = Vec::new();
        contents.push(SEntry { tag: self.tag, data: inner });
        proof {
            assert(contents@.skip(1) =~= Seq::<SEntry>::empty());
            assert(sentries_view(Seq::<SEntry>::empty()) =~= Seq::<SEntryV>::empty());
            assert(sentry_view(contents@[0]) == SEntryV { tag: tagv, data: innerv });
            assert(sentries_view(contents@) =~= seq![SEntryV { tag: tagv, data: innerv }]);
            assert(sattrs_view(Seq::<SAttr>::empty()) =~= Seq::<SAttrV>::empty());
        }
        Ok(_SerializerData::Struct { attrs: Vec::new(), contents })
    }
}

/// An entry whose child is a list and whose tag is no sentinel becomes
/// repeated sibling elements under the resolved tag, one per member, in
/// member order.
pub proof fn lemma_repeated_field_routing(e: SEntryV, raw: bool, ns: Seq<Seq<char>>, loc: bool)
    requires
        e.data is List,
        e.tag != "$valueRaw"@,
        !(e.tag.len() >= 6 && e.tag.take(6) == "$value"@),
    ensures
        format_entry_spec(e, raw, ns, loc) == format_element_list_spec(
            parse_tag(e.tag),
            e.data->List_0,
            raw,
            ns,
            loc,
        ),
{
}

/// Appending a member to a repeated field appends exactly one more
/// sibling element under the same tag, after all earlier members.
pub proof fn lemma_sequence_grouping(
    t: TagV,
    items: Seq<SDataV>,
    x: SDataV,
    raw: bool,
    ns: Seq<Seq<char>>,
    loc: bool,
)
    ensures
        format_element_list_spec(t, items.push(x), raw, ns, loc) == format_element_list_spec(
            t,
            items,
            raw,
            ns,
            loc,
        ) + seq![start_event(t, x, ns, loc)] + format_spec(x, raw, child_ns(t, ns), loc) + seq![
            end_event(t),
        ],
{
    assert(items.push(x) =~= items + seq![x]);
    lemma_format_element_list_app(t, items, seq![x], raw, ns, loc);
    assert(seq![x].skip(1) =~= Seq::<SDataV>::empty());
    assert(format_element_list_spec(t, Seq::<SDataV>::empty(), raw, ns, loc) =~= Seq::<
        EventV,
    >::empty());
    assert(format_element_list_spec(t, seq![x], raw, ns, loc) =~= format_element_spec(
        t,
        x,
        raw,
        ns,
        loc,
    ));
    assert(format_element_list_spec(t, items.push(x), raw, ns, loc) =~= format_element_list_spec(
        t,
        items,
        raw,
        ns,
        loc,
    ) + seq![start_event(t, x, ns, loc)] + format_spec(x, raw, child_ns(t, ns), loc) + seq![
        end_event(t),
    ]);
}

/// Accumulated attributes surface only on the enclosing element's start
/// tag, resolved through the grammar and in push order; the element's
/// child events come from the tagged entries alone.
pub proof fn lemma_attribute_routing(
    attrs: Seq<SAttrV>,
    contents: Seq<SEntryV>,
    raw: bool,
    ns: Seq<Seq<char>>,
    loc: bool,
)
    ensures
        user_attrs(SDataV::Struct { attrs, contents }).len() == attrs.len(),
        forall|i: int|
            0 <= i < attrs.len() ==> user_attrs(SDataV::Struct { attrs, contents })[i] == (AttrV {
                name: attr_name_of(parse_tag(attrs[i].name)),
                value: attrs[i].value,
            }),
        format_spec(SDataV::Struct { attrs, contents }, raw, ns, loc) == format_entries_spec(
            contents,
            raw,
            ns,
            loc,
        ),
{
}

/// Namespace deduplication: an element whose namespace an open ancestor
/// already declares carries no schema-location attribute and passes the
/// stack down unchanged; one that newly declares its namespace carries
/// the schema-location attribute (when schema locations are wanted) and
/// its whole content is linearized with that namespace on the stack, so
/// nothing nested in the same namespace repeats the attribute.
pub proof fn lemma_namespace_dedup(
    t: TagV,
    d: SDataV,
    raw: bool,
    ns: Seq<Seq<char>>,
    loc: bool,
)
    requires
        t.n is Some,
    ensures
        ns.contains(t.n->0) ==> element_attrs(t, d, ns, loc) == user_attrs(d),
        ns.contains(t.n->0) ==> child_ns(t, ns) == ns,
        !ns.contains(t.n->0) && loc ==> element_attrs(t, d, ns, loc) == seq![schema_attr(t)]
            + user_attrs(d),
        !ns.contains(t.n->0) ==> child_ns(t, ns) == ns.push(t.n->0),
        !ns.contains(t.n->0) ==> child_ns(t, ns).contains(t.n->0),
{
    if ns.contains(t.n->0) {
        assert(element_attrs(t, d, ns, loc) =~= user_attrs(d));
    } else {
        if loc {
            assert(element_attrs(t, d, ns, loc) =~= seq![schema_attr(t)] + user_attrs(d));
        }
        assert(child_ns(t, ns)[ns.len() as int] == t.n->0);
    }
}

} // verus!
