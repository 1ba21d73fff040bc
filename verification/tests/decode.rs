use xml_serde::de::{from_str, AttrValue, Enum, Fields, MapAccess, SeqAccess};
use xml_serde::error::Error;
use xml_serde::events::{Event, QName};

fn fields(names: &[&str]) -> Fields {
    let owned: Vec<String> = names.iter().map(|s| s.to_string()).collect();
    Fields::from_names(&owned)
}

#[test]
fn scalar_text_reads_back() {
    let mut de = from_str("<a>hello</a>").unwrap();
    let _ = de.next().unwrap(); // <a>
    assert_eq!(de.parse_string().unwrap(), "hello");
}

#[test]
fn wrapped_scalar_consumes_its_element() {
    let mut de = from_str("<a><b>inner</b></a>").unwrap();
    let _ = de.next().unwrap(); // <a>
    de.set_map_value();
    assert_eq!(de.parse_string().unwrap(), "inner");
    // the wrapper pair <b>..</b> is gone; </a> is next
    assert!(matches!(
        de.next().unwrap(),
        xml_serde::events::Event::EndElement { .. }
    ));
}

#[test]
fn booleans_fold_case() {
    for (doc, want) in [
        ("<a>true</a>", true),
        ("<a>TRUE</a>", true),
        ("<a>1</a>", true),
        ("<a>Y</a>", true),
        ("<a>false</a>", false),
        ("<a>0</a>", false),
        ("<a>n</a>", false),
    ] {
        let mut de = from_str(doc).unwrap();
        let _ = de.next().unwrap();
        assert_eq!(de.parse_bool().unwrap(), want, "{}", doc);
    }
    let mut de = from_str("<a>maybe</a>").unwrap();
    let _ = de.next().unwrap();
    assert!(matches!(de.parse_bool(), Err(Error::ExpectedBool)));
}

#[test]
fn integers_parse_exactly() {
    let mut de = from_str("<a>42</a>").unwrap();
    let _ = de.next().unwrap();
    assert_eq!(de.parse_u64().unwrap(), 42);

    let mut de = from_str("<a>+7</a>").unwrap();
    let _ = de.next().unwrap();
    assert_eq!(de.parse_i64().unwrap(), 7);

    let mut de = from_str("<a>-9223372036854775808</a>").unwrap();
    let _ = de.next().unwrap();
    assert_eq!(de.parse_i64().unwrap(), i64::MIN);

    let mut de = from_str("<a>18446744073709551616</a>").unwrap();
    let _ = de.next().unwrap();
    assert!(matches!(de.parse_u64(), Err(Error::ExpectedInt)));

    let mut de = from_str("<a>300</a>").unwrap();
    let _ = de.next().unwrap();
    assert!(matches!(de.parse_u8(), Err(Error::ExpectedInt)));

    let mut de = from_str("<a>-129</a>").unwrap();
    let _ = de.next().unwrap();
    assert!(matches!(de.parse_i8(), Err(Error::ExpectedInt)));

    let mut de = from_str("<a>12 </a>").unwrap();
    let _ = de.next().unwrap();
    // whitespace is trimmed by the tokenizer before parsing
    assert_eq!(de.parse_u32().unwrap(), 12);
}

#[test]
fn char_needs_one_byte() {
    let mut de = from_str("<a>q</a>").unwrap();
    let _ = de.next().unwrap();
    assert_eq!(de.parse_char().unwrap(), 'q');

    let mut de = from_str("<a>ab</a>").unwrap();
    let _ = de.next().unwrap();
    assert!(matches!(de.parse_char(), Err(Error::ExpectedChar)));
}

#[test]
fn optional_absent_consumes_empty_wrapper() {
    let mut de = from_str("<r><o/></r>").unwrap();
    let _ = de.next().unwrap(); // <r>
    de.set_map_value();
    assert!(!de.option_header().unwrap());
    // both wrapper events were consumed; </r> is next
    assert!(matches!(
        de.next().unwrap(),
        xml_serde::events::Event::EndElement { .. }
    ));
}

#[test]
fn optional_present_with_attributes_only() {
    let mut de = from_str("<r><o c=\"1\"/></r>").unwrap();
    let _ = de.next().unwrap(); // <r>
    de.set_map_value();
    assert!(de.option_header().unwrap());
}

#[test]
fn optional_present_with_content() {
    let mut de = from_str("<r><o>t</o></r>").unwrap();
    let _ = de.next().unwrap(); // <r>
    de.set_map_value();
    assert!(de.option_header().unwrap());
    assert_eq!(de.parse_string().unwrap(), "t");
}

#[test]
fn sequence_stops_at_foreign_element() {
    let mut de = from_str("<r><i>1</i><i>2</i><x>9</x></r>").unwrap();
    let _ = de.next().unwrap(); // <r>
    de.set_map_value();
    let sa = SeqAccess::begin(&mut de).unwrap();
    let mut got: Vec<String> = Vec::new();
    while sa.next_element(&mut de).unwrap() {
        got.push(de.parse_string().unwrap());
    }
    assert_eq!(got, vec!["1", "2"]);
}

#[test]
fn record_reads_attributes_then_children() {
    let mut de = from_str("<login pw=\"s\"><clID>me</clID></login>").unwrap();
    de.set_map_value();
    let fs = fields(&["$attr:pw", "clID"]);
    let (mut ma, closer) = MapAccess::begin(&mut de, fs).unwrap();
    assert!(closer.is_some());

    let k1 = ma.next_key(&mut de).unwrap().unwrap();
    assert_eq!(k1, "$attr:pw");
    let v1 = ma.next_value_source(&mut de).unwrap();
    assert_eq!(AttrValue::new(v1).into_string(), "s");

    let k2 = ma.next_key(&mut de).unwrap().unwrap();
    assert_eq!(k2, "clID");
    assert!(ma.next_value_source(&mut de).is_none());
    assert_eq!(de.parse_string().unwrap(), "me");

    assert!(ma.next_key(&mut de).unwrap().is_none());
    MapAccess::finish(&mut de, closer).unwrap();
}

#[test]
fn unmapped_element_synthesizes_a_key() {
    let mut de = from_str("<r xmlns=\"urn:q\"><zz>1</zz></r>").unwrap();
    let _ = de.next().unwrap(); // <r>
    let fs = fields(&["{urn:q}aa"]);
    let (mut ma, _) = MapAccess::begin(&mut de, fs).unwrap();
    let k = ma.next_key(&mut de).unwrap().unwrap();
    assert_eq!(k, "{urn:q}zz");
}

#[test]
fn inner_value_marker_captures_text() {
    let mut de = from_str("<r>plain</r>").unwrap();
    let _ = de.next().unwrap(); // <r>
    let fs = fields(&["$value"]);
    let (mut ma, _) = MapAccess::begin(&mut de, fs).unwrap();
    let k = ma.next_key(&mut de).unwrap().unwrap();
    assert_eq!(k, "$value");
    assert!(ma.next_value_source(&mut de).is_none());
    assert_eq!(de.parse_string().unwrap(), "plain");
}

#[test]
fn enum_variant_selection() {
    let mut de = from_str("<w xmlns=\"urn:ns\"><a>t</a></w>").unwrap();
    let _ = de.next().unwrap(); // <w>
    let en = Enum::new(fields(&["{urn:ns}a", "{urn:ns}b"]));
    let v = en.variant_name(&mut de).unwrap();
    assert_eq!(v, "{urn:ns}a");

    let mut de2 = from_str("<w xmlns=\"urn:ns\"><c>t</c></w>").unwrap();
    let _ = de2.next().unwrap();
    let en2 = Enum::new(fields(&["{urn:ns}a", "{urn:ns}b"]));
    let v2 = en2.variant_name(&mut de2).unwrap();
    // an element matching neither declared variant yields a synthesized
    // key, which the caller's variant lookup then rejects
    assert_eq!(v2, "{urn:ns}c");
    assert_ne!(v2, "{urn:ns}a");
    assert_ne!(v2, "{urn:ns}b");
}

#[test]
fn unit_variant_needs_empty_element_or_text() {
    let mut de = from_str("<w><a></a></w>").unwrap();
    let _ = de.next().unwrap();
    let en = Enum::new(fields(&["a"]));
    let v = en.variant_name(&mut de).unwrap();
    assert_eq!(v, "a");
    en.unit_variant(&mut de).unwrap();

    let mut de2 = from_str("<w><a c=\"1\"></a></w>").unwrap();
    let _ = de2.next().unwrap();
    let en2 = Enum::new(fields(&["a"]));
    let _ = en2.variant_name(&mut de2).unwrap();
    assert!(matches!(
        en2.unit_variant(&mut de2),
        Err(Error::ExpectedElement)
    ));
}

#[test]
fn raw_capture_reproduces_the_subtree() {
    let mut de =
        from_str("<root><cmd><login xmlns=\"urn:x\"><clID>me</clID></login></cmd></root>")
            .unwrap();
    let _ = de.next().unwrap(); // <root>
    de.set_map_value();
    let captured = de.parse_string().unwrap();
    assert_eq!(captured, "<login xmlns=\"urn:x\"><clID>me</clID></login>");
}

#[test]
fn skip_value_consumes_whole_subtree() {
    let mut de = from_str("<r><a><b>x</b><c/></a><d/></r>").unwrap();
    let _ = de.next().unwrap(); // <r>
    de.skip_value().unwrap();
    // the whole <a> subtree is gone; <d/> is next
    match de.next().unwrap() {
        xml_serde::events::Event::StartElement { name, .. } => {
            assert_eq!(name.local_name, "d")
        }
        _ => panic!("expected the next element start"),
    }
}

#[test]
fn attribute_values_decode_scalars() {
    let a = AttrValue::new("Y".to_string());
    assert!(a.parse_bool().unwrap());
    let b = AttrValue::new("-5".to_string());
    assert_eq!(b.parse_i64().unwrap(), -5);
    let c = AttrValue::new("7".to_string());
    assert_eq!(c.parse_u64().unwrap(), 7);
    let d = AttrValue::new("x".to_string());
    assert!(matches!(d.parse_u64(), Err(Error::ExpectedInt)));
}

#[test]
fn attribute_values_decode_narrow_widths() {
    let a = AttrValue::new("200".to_string());
    assert_eq!(a.parse_u8().unwrap(), 200);
    assert_eq!(a.parse_i16().unwrap(), 200);
    assert!(matches!(a.parse_i8(), Err(Error::ExpectedInt)));
    let b = AttrValue::new("-40000".to_string());
    assert_eq!(b.parse_i32().unwrap(), -40000);
    assert!(matches!(b.parse_i16(), Err(Error::ExpectedInt)));
    assert!(matches!(b.parse_u32(), Err(Error::ExpectedInt)));
    let c = AttrValue::new("65535".to_string());
    assert_eq!(c.parse_u16().unwrap(), 65535);
}

#[test]
fn numeric_attribute_decodes_through_a_record() {
    let mut de = from_str("<item count=\"3\"></item>").unwrap();
    de.set_map_value();
    let fs = fields(&["$attr:count"]);
    let (mut ma, closer) = MapAccess::begin(&mut de, fs).unwrap();
    let k = ma.next_key(&mut de).unwrap().unwrap();
    assert_eq!(k, "$attr:count");
    let v = ma.next_value_source(&mut de).unwrap();
    assert_eq!(AttrValue::new(v).parse_u8().unwrap(), 3);
    assert!(ma.next_key(&mut de).unwrap().is_none());
    MapAccess::finish(&mut de, closer).unwrap();
}

#[test]
fn enum_wrapper_opens_and_closes() {
    let mut de = from_str("<w><q><a>t</a></q></w>").unwrap();
    let _ = de.next().unwrap(); // <w>
    de.set_map_value();
    let closer = Enum::begin(&mut de).unwrap();
    assert!(closer.is_some()); // <q> consumed
    let en = Enum::new(fields(&["a"]));
    assert_eq!(en.variant_name(&mut de).unwrap(), "a");
    // read the newtype payload, then close the wrapper
    assert_eq!(de.parse_string().unwrap(), "t");
    Enum::finish(&mut de, closer).unwrap();
    // </w> is next
    assert!(matches!(de.next().unwrap(), Event::EndElement { .. }));
}

#[test]
fn malformed_documents_report_the_tokenizer() {
    assert!(matches!(from_str("not xml"), Err(Error::XMLRError(_))));
    assert!(matches!(from_str("<a><b></a></b>"), Err(Error::XMLRError(_))));
}

#[test]
fn mismatched_close_is_an_element_error() {
    let mut de = from_str("<a><b>t</b></a>").unwrap();
    let _ = de.next().unwrap(); // <a>
    de.set_map_value();
    // the wrapped read expects </b> after the text, which is there, so it
    // succeeds; a second wrapped read then finds </a> instead of a start
    assert_eq!(de.parse_string().unwrap(), "t");
    de.set_map_value();
    assert!(matches!(de.parse_string(), Err(Error::ExpectedElement)));
}

#[test]
fn processing_instruction_is_not_text() {
    let mut de = from_str("<r><?pi data?>x</r>").unwrap();
    let _ = de.next().unwrap();
    assert!(matches!(de.parse_string(), Err(Error::ExpectedString)));
}

#[test]
fn streaming_events_decode() {
    let name = || QName {
        local_name: "a".to_string(),
        namespace: None,
        prefix: None,
    };
    let evs = vec![
        Event::StartElement {
            name: name(),
            attributes: Vec::new(),
            namespace: Vec::new(),
        },
        Event::Characters("7".to_string()),
        Event::EndElement { name: name() },
    ];
    let mut de = xml_serde::de::Deserializer::from_events(evs);
    de.set_map_value();
    assert_eq!(de.parse_u64().unwrap(), 7);
}

#[test]
fn error_descriptions() {
    assert_eq!(Error::ExpectedBool.describe(), "expected a bool");
    assert_eq!(Error::Unsupported.describe(), "unsupported operation");
    assert_eq!(Error::Message("m".to_string()).describe(), "m");
}
