use eparser::prefix::{Prefix, PrefixMap, Prefixes, PrefixesStack, DCTERMS_URI, DC_URI, OPF_URI};
use eparser::property::{NamespaceError, Properties, Property, WithNamespace};
use eparser::text::split_white;

fn reserved_stack() -> PrefixesStack {
    let mut stack = PrefixesStack::empty();
    stack.push(Prefixes::reserved());
    stack
}

#[test]
fn dcterms_modified_resolves_through_reserved_prefixes() {
    let stack = reserved_stack();
    let p = Property::from_str("dcterms:modified", &stack).unwrap();
    assert_eq!(p.0.ns, "http://purl.org/dc/terms/");
    assert_eq!(p.0.ns, DCTERMS_URI);
    assert_eq!(p.0.reference, "modified");
}

#[test]
fn undeclared_prefix_fails_naming_it() {
    let stack = reserved_stack();
    let e = Property::from_str("foo:bar", &stack).unwrap_err();
    assert_eq!(e, NamespaceError(Some("foo".to_string())));
}

#[test]
fn with_namespace_from_reserved_scope() {
    let prefixes = Prefixes::reserved();
    let w = WithNamespace::from_str("dc:title", &prefixes).unwrap();
    assert_eq!(w.ns, DC_URI);
    assert_eq!(w.reference, "title");
}

#[test]
fn bare_token_uses_default_namespace() {
    let w = WithNamespace::from_str("nav", &Prefixes::reserved()).unwrap();
    assert_eq!(w.ns, OPF_URI);
    assert_eq!(w.reference, "nav");
    let empty = PrefixesStack::empty();
    assert_eq!(WithNamespace::from_str("nav", &empty).unwrap_err(), NamespaceError(None));
}

#[test]
fn split_on_first_colon_only() {
    let w = WithNamespace::from_str("dc:a:b", &Prefixes::reserved()).unwrap();
    assert_eq!(w.reference, "a:b");
}

#[test]
fn inner_scope_shadows_outer() {
    let mut stack = reserved_stack();
    stack.push(Prefixes::new(vec![Prefix { name: Some("dc".to_string()), uri: "urn:other".to_string() }]));
    assert_eq!(stack.get(&Some("dc".to_string())), Some("urn:other".to_string()));
    stack.pop();
    assert_eq!(stack.get(&Some("dc".to_string())), Some(DC_URI.to_string()));
    assert_eq!(stack.get(&Some("nope".to_string())), None);
}

#[test]
fn properties_split_on_white_space() {
    let stack = reserved_stack();
    let ps = Properties::from_str("  nav\tdcterms:modified\n scripted ", &stack).unwrap();
    assert_eq!(ps.len(), 3);
    assert!(ps.contains(&Property::new(OPF_URI.to_string(), "nav".to_string())));
    assert!(ps.contains(&Property::new(DCTERMS_URI.to_string(), "modified".to_string())));
    assert!(!ps.contains(&Property::new(DC_URI.to_string(), "nav".to_string())));
    assert_eq!(split_white(" a  b\u{3000}c "), vec!["a".to_string(), "b".to_string(), "c".to_string()]);
    assert!(split_white("   ").is_empty());
}

#[test]
fn properties_fail_on_first_unknown_prefix() {
    let stack = reserved_stack();
    let e = Properties::from_str("nav x:y z:w", &stack).unwrap_err();
    assert_eq!(e, NamespaceError(Some("x".to_string())));
}

#[test]
fn aliases_compare_equal_after_resolution() {
    let mut stack = reserved_stack();
    stack.push(Prefixes::new(vec![Prefix { name: Some("terms".to_string()), uri: DCTERMS_URI.to_string() }]));
    let a = Property::from_str("terms:modified", &stack).unwrap();
    let b = Property::from_str("dcterms:modified", &stack).unwrap();
    assert!(a.same(&b));
}

#[test]
fn paths_use_forward_slashes() {
    assert_eq!(eparser::text::to_forward_slashes("OEBPS\\Text\\a.xhtml"), "OEBPS/Text/a.xhtml");
    assert_eq!(eparser::text::to_forward_slashes("a/b"), "a/b");
    assert_eq!(eparser::text::to_forward_slashes(""), "");
}
