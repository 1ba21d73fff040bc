use xml_serde::de::{from_str, AttrValue, MapAccess, SeqAccess};
use xml_serde::ser::{to_string, SAttr, SEntry, _SerializerData};

// A record with an attribute, a scalar field, an optional absent field
// and a repeated field, encoded to a complete document and decoded back.
#[test]
fn record_round_trip() {
    let login = _SerializerData::Struct {
        attrs: vec![SAttr {
            name: "lang".to_string(),
            value: "en".to_string(),
        }],
        contents: vec![
            SEntry {
                tag: "{urn:e}clID".to_string(),
                data: _SerializerData::CData("me".to_string()),
            },
            SEntry {
                tag: "{urn:e}objURI".to_string(),
                data: _SerializerData::List(vec![
                    _SerializerData::CData("urn:a".to_string()),
                    _SerializerData::CData("urn:b".to_string()),
                ]),
            },
        ],
    };
    let tree = _SerializerData::Struct {
        attrs: Vec::new(),
        contents: vec![SEntry {
            tag: "{urn:e}login".to_string(),
            data: login,
        }],
    };
    let doc = to_string(&tree).unwrap();

    let mut de = from_str(&doc).unwrap();
    de.set_map_value();
    let names: Vec<String> = ["$attr:lang", "{urn:e}clID", "{urn:e}objURI"]
        .iter()
        .map(|s| s.to_string())
        .collect();
    let fs = xml_serde::de::Fields::from_names(&names);
    let (mut ma, closer) = MapAccess::begin(&mut de, fs).unwrap();

    // attributes come first: xsi:schemaLocation (synthesized key) and lang
    let mut lang = None;
    loop {
        let key = ma.next_key(&mut de).unwrap().unwrap();
        if key == "$attr:lang" {
            lang = Some(AttrValue::new(ma.next_value_source(&mut de).unwrap()).into_string());
        } else if key.starts_with("$attr:") {
            let _ = ma.next_value_source(&mut de).unwrap();
        } else {
            // first child element reached
            assert_eq!(key, "{urn:e}clID");
            break;
        }
    }
    assert_eq!(lang.as_deref(), Some("en"));

    assert!(ma.next_value_source(&mut de).is_none());
    assert_eq!(de.parse_string().unwrap(), "me");

    let k = ma.next_key(&mut de).unwrap().unwrap();
    assert_eq!(k, "{urn:e}objURI");
    assert!(ma.next_value_source(&mut de).is_none());
    let sa = SeqAccess::begin(&mut de).unwrap();
    let mut objs: Vec<String> = Vec::new();
    while sa.next_element(&mut de).unwrap() {
        objs.push(de.parse_string().unwrap());
    }
    assert_eq!(objs, vec!["urn:a", "urn:b"]);

    assert!(ma.next_key(&mut de).unwrap().is_none());
    MapAccess::finish(&mut de, closer).unwrap();
}

// Raw capture composed with the raw sentinel: a captured subtree written
// back under `$valueRaw` reproduces an equivalent subtree.
#[test]
fn raw_capture_round_trip() {
    let mut de = from_str("<root><w><login xmlns=\"urn:x\"><pw>s</pw></login></w></root>").unwrap();
    let _ = de.next().unwrap(); // <root>
    de.set_map_value();
    let captured = de.parse_string().unwrap();

    let tree = _SerializerData::Struct {
        attrs: Vec::new(),
        contents: vec![SEntry {
            tag: "w".to_string(),
            data: _SerializerData::Struct {
                attrs: Vec::new(),
                contents: vec![SEntry {
                    tag: "$valueRaw".to_string(),
                    data: _SerializerData::CData(captured.clone()),
                }],
            },
        }],
    };
    let doc = to_string(&tree).unwrap();
    assert!(doc.contains("<login xmlns=\"urn:x\"><pw>s</pw></login>"));

    let mut de2 = from_str(&doc).unwrap();
    de2.set_map_value();
    let captured2 = de2.parse_string().unwrap();
    // the recaptured subtree also carries the xsi binding inherited from
    // the document root, so compare its structural content
    assert!(captured2.starts_with("<login"));
    assert!(captured2.contains("xmlns=\"urn:x\""));
    assert!(captured2.contains("<pw>s</pw>"));
    assert!(captured2.ends_with("</login>"));
}

// An absent optional encodes as empty content and decodes back as
// absent.
#[test]
fn absent_optional_round_trip() {
    let tree = _SerializerData::Struct {
        attrs: Vec::new(),
        contents: vec![SEntry {
            tag: "r".to_string(),
            data: _SerializerData::Struct {
                attrs: Vec::new(),
                contents: vec![SEntry {
                    tag: "o".to_string(),
                    data: _SerializerData::Chars(String::new()),
                }],
            },
        }],
    };
    let doc = to_string(&tree).unwrap();
    assert!(doc.contains("<o></o>") || doc.contains("<o/>"));
    let mut de = from_str(&doc).unwrap();
    let _ = de.next().unwrap(); // <r>
    de.set_map_value();
    assert!(!de.option_header().unwrap());
}

// Scalar round trips through the full document pipeline.
#[test]
fn scalar_round_trips() {
    for text in ["plain", "with space", "a&b<c>d", "\u{e9}t\u{e9}"] {
        let tree = _SerializerData::Struct {
            attrs: Vec::new(),
            contents: vec![SEntry {
                tag: "v".to_string(),
                data: _SerializerData::CData(text.to_string()),
            }],
        };
        let doc = to_string(&tree).unwrap();
        let mut de = from_str(&doc).unwrap();
        de.set_map_value();
        assert_eq!(de.parse_string().unwrap(), text, "{}", text);
    }
}
