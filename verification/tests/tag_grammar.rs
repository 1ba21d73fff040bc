use xml_serde::tag::Tag;

fn parts(t: &Tag) -> (Option<&str>, Option<&str>, Option<&str>, &str) {
    (
        t.n.as_deref(),
        t.l.as_deref(),
        t.p.as_deref(),
        t.e.as_str(),
    )
}

#[test]
fn full_tag_parses() {
    let t = Tag::new("{urn:ns;urn:ns loc.xsd}p:local");
    assert_eq!(
        parts(&t),
        (Some("urn:ns"), Some("urn:ns loc.xsd"), Some("p"), "local")
    );
}

#[test]
fn bare_local_name() {
    let t = Tag::new("local");
    assert_eq!(parts(&t), (None, None, None, "local"));
}

#[test]
fn namespace_without_hint() {
    let t = Tag::new("{urn:ietf:params:xml:ns:epp-1.0}clID");
    assert_eq!(
        parts(&t),
        (Some("urn:ietf:params:xml:ns:epp-1.0"), None, None, "clID")
    );
}

#[test]
fn prefix_without_namespace() {
    let t = Tag::new("e:objURI");
    assert_eq!(parts(&t), (None, None, Some("e"), "objURI"));
}

#[test]
fn prefix_split_is_at_last_colon() {
    let t = Tag::new("a:b:c");
    assert_eq!(parts(&t), (None, None, Some("a:b"), "c"));
}

#[test]
fn trailing_colon_stays_in_local_name() {
    let t = Tag::new("x:");
    assert_eq!(parts(&t), (None, None, None, "x:"));
}

#[test]
fn namespace_may_hold_braces() {
    let t = Tag::new("{a}b}c");
    assert_eq!(parts(&t), (Some("a}b"), None, None, "c"));
}

#[test]
fn hint_runs_to_last_usable_brace() {
    let t = Tag::new("{a;b}c}");
    assert_eq!(parts(&t), (Some("a"), Some("b"), None, "c}"));
}

#[test]
fn unclosed_brace_is_local_name() {
    let t = Tag::new("{a;b");
    assert_eq!(parts(&t), (None, None, None, "{a;b"));
}

#[test]
fn hint_may_hold_braces_when_a_prefix_follows() {
    let t = Tag::new("{a;b}c}d:e");
    assert_eq!(parts(&t), (Some("a"), Some("b}c"), Some("d"), "e"));
}

#[test]
fn hint_may_be_empty() {
    let t = Tag::new("{n;}x");
    assert_eq!(parts(&t), (Some("n"), Some(""), None, "x"));
}

#[test]
fn from_cow_and_from_static_agree() {
    let owned = String::from("{urn:ns}p:x");
    let a = Tag::from_cow(&owned);
    let b = Tag::from_static("{urn:ns}p:x");
    assert_eq!(parts(&a), parts(&b));
}
