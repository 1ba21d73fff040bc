//! The trusted boundary: every call into an outside crate, and the few
//! standard-library calls vstd gives no specification for, stands here
//! behind a contract.  Everything else in the library is verified against
//! these contracts.

use vstd::prelude::*;

use crate::error::Error;
use crate::events::{Event, EventV, NsBinding};
use crate::text::{escape_pcdata, hex_of};
use xml::reader::XmlEvent as RE;

verus! {

/// The event list the XML tokenizer produces for a document text, under
/// this library's fixed parser configuration (whitespace trimmed and read
/// as characters, unknown entities replaced).  The tokenizer's output
/// depends on the input text alone.
pub uninterp spec fn tokens_of(text: Seq<char>) -> Seq<EventV>;

/// Whether the XML tokenizer accepts a document text, under the same
/// configuration.  Acceptance depends on the text alone.
pub uninterp spec fn tokenize_ok(text: Seq<char>) -> bool;

/// The document text the XML emitter produces for an event list, under
/// this library's document configuration (indented, with an XML
/// declaration, empty elements normalized, CDATA written as characters,
/// entity escaping left to the caller).  The output depends on the events
/// alone.
pub uninterp spec fn document_text(events: Seq<EventV>) -> Seq<char>;

/// Whether the XML emitter accepts an event list as a complete document,
/// under the same configuration.  Acceptance depends on the events alone.
pub uninterp spec fn emit_document_ok(events: Seq<EventV>) -> bool;

/// The fragment text the XML emitter produces for an event list, under
/// this library's fragment configuration (no indentation, no declaration,
/// empty elements normalized, CDATA kept, entity escaping performed).
/// The output depends on the events alone.
pub uninterp spec fn fragment_text(events: Seq<EventV>) -> Seq<char>;

/// Whether the XML emitter accepts an event list as a fragment, under the
/// same configuration.  Acceptance depends on the events alone.
pub uninterp spec fn emit_fragment_ok(events: Seq<EventV>) -> bool;

/// The Unicode lower-casing of a string; it depends on the characters
/// alone.
pub uninterp spec fn lower_of(s: Seq<char>) -> Seq<char>;

#[verifier::external_type_specification]
#[verifier::external_body]
pub struct ExXmlEvent(xml::reader::XmlEvent);

#[verifier::external_type_specification]
#[verifier::external_body]
pub struct ExOwnedName(xml::name::OwnedName);

#[verifier::external_type_specification]
#[verifier::external_body]
pub struct ExOwnedAttribute(xml::attribute::OwnedAttribute);

#[verifier::external_type_specification]
#[verifier::external_body]
pub struct ExNamespace(xml::namespace::Namespace);

/// Converts a qualified name into the tokenizer's form, field for field.
#[verifier::external_body]
fn xml_name_of(n: &crate::events::QName) -> xml::name::OwnedName {
    xml::name::OwnedName {
        local_name: n.local_name.clone(),
        namespace: n.namespace.clone(),
        prefix: n.prefix.clone(),
    }
}

/// Converts an attribute list into the tokenizer's form, field for field.
#[verifier::external_body]
fn xml_attrs_of(xs: &Vec<crate::events::Attribute>) -> Vec<xml::attribute::OwnedAttribute> {
    xs.iter().map(
        |a|
            xml::attribute::OwnedAttribute { name: xml_name_of(&a.name), value: a.value.clone() },
    ).collect()
}

/// Converts namespace bindings into the tokenizer's form, entry for entry.
#[verifier::external_body]
fn xml_ns_of(xs: &Vec<NsBinding>) -> xml::namespace::Namespace {
    xml::namespace::Namespace(xs.iter().map(|b| (b.prefix.clone(), b.uri.clone())).collect())
}

/// Builds the tokenizer's document-start event with its defaults.
#[verifier::external_body]
fn xml_doc_start() -> xml::reader::XmlEvent {
    RE::StartDocument {
        version: xml::common::XmlVersion::Version10,
        encoding: "UTF-8".to_string(),
        standalone: None,
    }
}

/// Builds the tokenizer's element-start event, field for field.
#[verifier::external_body]
fn xml_start_of(
    name: &crate::events::QName,
    attributes: &Vec<crate::events::Attribute>,
    namespace: &Vec<NsBinding>,
) -> xml::reader::XmlEvent {
    RE::StartElement {
        name: xml_name_of(name),
        attributes: xml_attrs_of(attributes),
        namespace: xml_ns_of(namespace),
    }
}

/// Converts one event into the tokenizer's form, one arm a variant.
#[verifier::external_body]
fn xml_event_of(e: &Event) -> xml::reader::XmlEvent {
    match e {
        Event::StartDocument => xml_doc_start(),
        Event::EndDocument => RE::EndDocument,
        Event::StartElement { name, attributes, namespace } => xml_start_of(
            name, attributes, namespace),
        Event::EndElement { name } => RE::EndElement { name: xml_name_of(name) },
        Event::Characters(s) => RE::Characters(s.clone()),
        Event::CData(s) => RE::CData(s.clone()),
        Event::Comment(s) => RE::Comment(s.clone()),
        Event::Doctype(s) => RE::Doctype { syntax: s.clone() },
        Event::ProcessingInstruction { target, data } => RE::ProcessingInstruction {
            name: target.clone(), data: data.clone() },
    }
}

/// Converts the tokenizer's element start into the library's form,
/// field for field and entry for entry.
#[verifier::external_body]
fn start_of_xml(
    name: xml::name::OwnedName,
    attributes: Vec<xml::attribute::OwnedAttribute>,
    namespace: xml::namespace::Namespace,
) -> Event {
    Event::StartElement {
        name: name_of_xml(name),
        attributes: attributes.into_iter().map(
            |a| crate::events::Attribute { name: name_of_xml(a.name), value: a.value },
        ).collect(),
        namespace: namespace.0.into_iter().map(|(p, u)| NsBinding { prefix: p, uri: u }).collect(),
    }
}

/// Converts one of the tokenizer's events into the library's form, one arm
/// a variant; whitespace reads as characters.
#[verifier::external_body]
fn event_of_xml(e: xml::reader::XmlEvent) -> Event {
    match e {
        RE::StartDocument { .. } => Event::StartDocument,
        RE::EndDocument => Event::EndDocument,
        RE::StartElement { name, attributes, namespace } => start_of_xml(
            name, attributes, namespace),
        RE::EndElement { name } => Event::EndElement { name: name_of_xml(name) },
        RE::Characters(s) | RE::Whitespace(s) => Event::Characters(s),
        RE::CData(s) => Event::CData(s),
        RE::Comment(s) => Event::Comment(s),
        RE::Doctype { syntax } => Event::Doctype(syntax),
        RE::ProcessingInstruction { name, data } => Event::ProcessingInstruction {
            target: name, data },
    }
}

/// Converts one of the tokenizer's qualified names into the library's
/// form, field for field.
#[verifier::external_body]
fn name_of_xml(n: xml::name::OwnedName) -> crate::events::QName {
    crate::events::QName { local_name: n.local_name, namespace: n.namespace, prefix: n.prefix }
}

/// Relies on `xml::reader::EventReader`: tokenizes a complete document
/// text into its structural events, whitespace trimmed and read as
/// characters, unknown entities replaced.  Both acceptance and result are
/// functions of the text alone; a malformed document is reported, with
/// its message, as a tokenizer error.
#[verifier::external_body]
pub fn tokenize(s: &str) -> (r: Result<Vec<Event>, Error>)
    ensures
        r is Ok <==> tokenize_ok(s@),
        r matches Ok(v) ==> v.deep_view() == tokens_of(s@),
        r matches Err(e) ==> e is XMLRError,
{
    let conf = xml::ParserConfig::new().trim_whitespace(true).whitespace_to_characters(true)
        .replace_unknown_entity_references(true);
    let mut reader = xml::reader::EventReader::new_with_config(s.as_bytes(), conf);
    let mut out: Vec<Event> = Vec::new();
    loop {
        match reader.next() {
            Ok(e) => {
                let done = matches!(e, RE::EndDocument);
                out.push(event_of_xml(e));
                if done { return Ok(out); }
            },
            Err(e) => return Err(Error::XMLRError(e.to_string())),
        }
    }
}

/// Relies on `xml::writer::EventWriter`: emits an event list as a complete
/// document text, indented, with an XML declaration, empty elements
/// normalized, CDATA written as characters and entity escaping left to the
/// caller.  Both acceptance and result are functions of the events alone;
/// an emitter complaint is reported, with its message, as a writer error.
#[verifier::external_body]
pub fn emit_document(events: &Vec<Event>) -> (r: Result<String, Error>)
    ensures
        r is Ok <==> emit_document_ok(events.deep_view()),
        r matches Ok(s) ==> s@ == document_text(events.deep_view()),
        r matches Err(e) ==> e is XMLWError,
{
    let mut conf = xml::writer::EmitterConfig::new().perform_indent(true)
        .write_document_declaration(true).normalize_empty_elements(true)
        .cdata_to_characters(true).keep_element_names_stack(true).pad_self_closing(false);
    conf.perform_escaping = false;
    let mut w = conf.create_writer(Vec::new());
    for e in events.iter() {
        let xe = xml_event_of(e);
        match xe.as_writer_event().map(|we| w.write(we)) {
            Some(Err(err)) => return Err(Error::XMLWError(err.to_string())),
            _ => (),
        }
    }
    Ok(String::from_utf8(w.into_inner()).unwrap_or_default())
}

/// Relies on `xml::writer::EventWriter`: emits an event list as a compact
/// fragment text, with no declaration, empty elements normalized, CDATA
/// kept and entity escaping performed.  Both acceptance and result are
/// functions of the events alone; an emitter complaint is reported, with
/// its message, as a writer error.
#[verifier::external_body]
pub fn emit_fragment(events: &Vec<Event>) -> (r: Result<String, Error>)
    ensures
        r is Ok <==> emit_fragment_ok(events.deep_view()),
        r matches Ok(s) ==> s@ == fragment_text(events.deep_view()),
        r matches Err(e) ==> e is XMLWError,
{
    let conf = xml::writer::EmitterConfig::new().perform_indent(false)
        .write_document_declaration(false).normalize_empty_elements(true)
        .cdata_to_characters(false).keep_element_names_stack(false).pad_self_closing(false);
    let mut w = conf.create_writer(Vec::new());
    for e in events.iter() {
        let xe = xml_event_of(e);
        match xe.as_writer_event().map(|we| w.write(we)) {
            Some(Err(err)) => return Err(Error::XMLWError(err.to_string())),
            _ => (),
        }
    }
    Ok(String::from_utf8(w.into_inner()).unwrap_or_default())
}

/// Relies on `xml::escape::escape_str_pcdata`: replaces `<`, `>` and `&`
/// with their entities and leaves every other character standing.
#[verifier::external_body]
pub fn escape_text(s: &str) -> (r: String)
    ensures
        r@ == escape_pcdata(s@),
{
    xml::escape::escape_str_pcdata(s).into_owned()
}

/// Relies on `hex::encode`: two lower-case hexadecimal digits for each
/// byte, in order.
#[verifier::external_body]
pub fn hex_encode(b: &[u8]) -> (r: String)
    ensures
        r@ == hex_of(b@),
{
    hex::encode(b)
}

/// Relies on `str::to_lowercase`: the result depends on the characters
/// alone.
#[verifier::external_body]
pub fn to_lower(s: &str) -> (r: String)
    ensures
        r@ == lower_of(s@),
{
    s.to_lowercase()
}

/// Relies on `String::push`: appends one character.
#[verifier::external_body]
pub fn push_char(s: &mut String, c: char)
    ensures
        final(s)@ == old(s)@.push(c),
{
    s.push(c);
}

} // verus!
