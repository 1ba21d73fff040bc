use xml_serde::events::Event;
use xml_serde::ser::{
    to_events, to_events_custom, to_string, Options, SEntry, Serializer, _SerializerData,
};

fn entry(tag: &str, data: _SerializerData) -> _SerializerData {
    _SerializerData::Struct {
        attrs: Vec::new(),
        contents: vec![SEntry { tag: tag.to_string(), data }],
    }
}

#[test]
fn scalar_document_text() {
    let tree = entry("{urn:ns}a", _SerializerData::CData("x".to_string()));
    let doc = to_string(&tree).unwrap();
    assert_eq!(
        doc,
        "<?xml version=\"1.0\" encoding=\"UTF-8\"?>\n<a xmlns=\"urn:ns\" xmlns:xsi=\"http://www.w3.org/2001/XMLSchema-instance\" xsi:schemaLocation=\"urn:ns ns.xsd\">x</a>"
    );
}

#[test]
fn schema_location_uses_hint() {
    let tree = entry(
        "{urn:ns;here.xsd}a",
        _SerializerData::CData("x".to_string()),
    );
    let evs = to_events(&tree).unwrap();
    match &evs[0] {
        Event::StartElement { attributes, .. } => {
            assert_eq!(attributes.len(), 1);
            assert_eq!(attributes[0].name.local_name, "schemaLocation");
            assert_eq!(attributes[0].name.prefix.as_deref(), Some("xsi"));
            assert_eq!(attributes[0].value, "urn:ns here.xsd");
        }
        other => panic!("expected an element start, got {:?}", event_kind(other)),
    }
}

#[test]
fn terse_options_suppress_schema_location() {
    let tree = entry("{urn:ns}a", _SerializerData::CData("x".to_string()));
    let evs = to_events_custom(
        &tree,
        Options {
            include_schema_location: false,
        },
    )
    .unwrap();
    match &evs[0] {
        Event::StartElement {
            attributes,
            namespace,
            ..
        } => {
            assert_eq!(attributes.len(), 0);
            assert_eq!(namespace.len(), 1);
            assert_eq!(namespace[0].prefix, "");
            assert_eq!(namespace[0].uri, "urn:ns");
        }
        other => panic!("expected an element start, got {:?}", event_kind(other)),
    }
}

fn event_kind(e: &Event) -> &'static str {
    match e {
        Event::StartDocument => "start-document",
        Event::EndDocument => "end-document",
        Event::StartElement { .. } => "start-element",
        Event::EndElement { .. } => "end-element",
        Event::Characters(_) => "characters",
        Event::CData(_) => "cdata",
        Event::Comment(_) => "comment",
        Event::Doctype(_) => "doctype",
        Event::ProcessingInstruction { .. } => "processing-instruction",
    }
}

#[test]
fn attribute_field_never_becomes_an_element() {
    let mut ser = Serializer;
    let mut st = ser.serialize_struct("Item", 2);
    let count = ser.serialize_u64(3).unwrap();
    st.serialize_field("$attr:count", count);
    let name = ser.serialize_str("box").unwrap();
    st.serialize_field("name", name);
    let inner = st.end().unwrap();
    let tree = entry("{urn:ns}item", inner);
    let evs = to_events_custom(
        &tree,
        Options {
            include_schema_location: false,
        },
    )
    .unwrap();
    // one item element wrapping one name element; count appears only as
    // an attribute on the item start tag
    assert_eq!(evs.len(), 5);
    match &evs[0] {
        Event::StartElement {
            name, attributes, ..
        } => {
            assert_eq!(name.local_name, "item");
            assert_eq!(attributes.len(), 1);
            assert_eq!(attributes[0].name.local_name, "count");
            assert_eq!(attributes[0].value, "3");
        }
        other => panic!("expected an element start, got {:?}", event_kind(other)),
    }
    match &evs[1] {
        Event::StartElement {
            name, attributes, ..
        } => {
            assert_eq!(name.local_name, "name");
            assert_eq!(attributes.len(), 0);
        }
        other => panic!("expected an element start, got {:?}", event_kind(other)),
    }
}

#[test]
fn repeated_field_becomes_sibling_elements() {
    let items = _SerializerData::List(vec![
        _SerializerData::CData("a".to_string()),
        _SerializerData::CData("b".to_string()),
        _SerializerData::CData("c".to_string()),
    ]);
    let tree = entry("{urn:ns}objURI", items);
    let evs = to_events_custom(
        &tree,
        Options {
            include_schema_location: false,
        },
    )
    .unwrap();
    assert_eq!(evs.len(), 9);
    let texts: Vec<String> = evs
        .iter()
        .filter_map(|e| match e {
            Event::CData(s) => Some(s.clone()),
            _ => None,
        })
        .collect();
    assert_eq!(texts, vec!["a", "b", "c"]);
    for i in [0usize, 3, 6] {
        match &evs[i] {
            Event::StartElement { name, .. } => assert_eq!(name.local_name, "objURI"),
            other => panic!("expected an element start, got {:?}", event_kind(other)),
        }
    }
}

#[test]
fn nested_same_namespace_declares_once() {
    let inner = entry("{urn:ns}b", _SerializerData::CData("y".to_string()));
    let tree = entry("{urn:ns}a", inner);
    let evs = to_events(&tree).unwrap();
    match &evs[0] {
        Event::StartElement { attributes, .. } => {
            assert_eq!(attributes.len(), 1);
            assert_eq!(attributes[0].name.local_name, "schemaLocation");
        }
        other => panic!("expected an element start, got {:?}", event_kind(other)),
    }
    match &evs[1] {
        Event::StartElement { attributes, .. } => {
            assert_eq!(attributes.len(), 0);
        }
        other => panic!("expected an element start, got {:?}", event_kind(other)),
    }
}

#[test]
fn raw_sentinel_skips_escaping() {
    let raw = entry("$valueRaw", _SerializerData::CData("<x>&</x>".to_string()));
    let tree = entry("w", raw);
    let evs = to_events_custom(
        &tree,
        Options {
            include_schema_location: false,
        },
    )
    .unwrap();
    match &evs[1] {
        Event::CData(s) => assert_eq!(s, "<x>&</x>"),
        other => panic!("expected cdata, got {:?}", event_kind(other)),
    }
    let plain = entry("w", _SerializerData::CData("<x>&</x>".to_string()));
    let evs2 = to_events_custom(
        &plain,
        Options {
            include_schema_location: false,
        },
    )
    .unwrap();
    match &evs2[1] {
        Event::CData(s) => assert_eq!(s, "&lt;x&gt;&amp;&lt;/x&gt;"),
        other => panic!("expected cdata, got {:?}", event_kind(other)),
    }
}

#[test]
fn scalars_render_as_text() {
    let mut ser = Serializer;
    assert_eq!(ser.serialize_bool(true).unwrap().as_str(), "true");
    assert_eq!(ser.serialize_bool(false).unwrap().as_str(), "false");
    assert_eq!(ser.serialize_i64(-42).unwrap().as_str(), "-42");
    assert_eq!(
        ser.serialize_i64(i64::MIN).unwrap().as_str(),
        "-9223372036854775808"
    );
    assert_eq!(
        ser.serialize_u64(u64::MAX).unwrap().as_str(),
        "18446744073709551615"
    );
    assert_eq!(ser.serialize_i8(-7).unwrap().as_str(), "-7");
    assert_eq!(ser.serialize_u16(65535).unwrap().as_str(), "65535");
    assert_eq!(ser.serialize_char('q').unwrap().as_str(), "q");
    assert_eq!(ser.serialize_str("hi").unwrap().as_str(), "hi");
    assert_eq!(
        ser.serialize_bytes(&[0x0f, 0xa0, 0xff]).unwrap().as_str(),
        "0fa0ff"
    );
    assert_eq!(ser.serialize_none().unwrap().as_str(), "");
}

#[test]
fn joined_text_of_lists_and_maps() {
    let mut ser = Serializer;
    let mut sq = ser.serialize_seq(None);
    sq.serialize_element(_SerializerData::Chars("1".to_string()));
    sq.serialize_element(_SerializerData::Chars("2".to_string()));
    let list = sq.end().unwrap();
    assert_eq!(list.as_str(), "1,2");

    let mut mp = ser.serialize_map(None);
    mp.serialize_key(&_SerializerData::Chars("k".to_string()));
    mp.serialize_value(_SerializerData::Chars("v".to_string()));
    let m = mp.end().unwrap();
    assert_eq!(m.as_str(), "v");
}

#[test]
fn struct_variant_wraps_fields_under_its_tag() {
    let mut ser = Serializer;
    let mut sv = ser.serialize_struct_variant("E", 0, "{urn:ns}lit", 1);
    let v = ser.serialize_str("t").unwrap();
    sv.serialize_field("val", v);
    let tree = sv.end().unwrap();
    let evs = to_events_custom(
        &tree,
        Options {
            include_schema_location: false,
        },
    )
    .unwrap();
    match &evs[0] {
        Event::StartElement { name, .. } => assert_eq!(name.local_name, "lit"),
        other => panic!("expected an element start, got {:?}", event_kind(other)),
    }
    match &evs[1] {
        Event::StartElement { name, .. } => assert_eq!(name.local_name, "val"),
        other => panic!("expected an element start, got {:?}", event_kind(other)),
    }
}
