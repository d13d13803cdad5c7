use eparser::metadata::{Meta, Metadata, MetadataCheckError, MetadataElement, Refines, Timestamp};
use eparser::prefix::{DCTERMS_URI, DC_URI};
use eparser::property::{Property, WithNamespace};
use eparser::url::Url;

fn elem(name: &str) -> MetadataElement {
    MetadataElement { id: None, lang: None, dir: None, tag_name: WithNamespace::new(DC_URI.to_string(), name.to_string()) }
}

fn meta(ns: &str, name: &str, value: &str) -> Meta {
    Meta {
        id: None,
        lang: None,
        dir: None,
        property: Property::new(ns.to_string(), name.to_string()),
        refines: None,
        scheme: None,
        value: value.to_string(),
    }
}

fn required() -> Vec<MetadataElement> {
    vec![elem("title"), elem("language"), elem("identifier")]
}

#[test]
fn missing_last_modified_fails() {
    let e = Metadata::new(required(), vec![meta(DC_URI, "modified", "2024-01-01T00:00:00Z")], vec![]).unwrap_err();
    assert_eq!(e, MetadataCheckError::MissingLastModifiedError("dcterms:modified".to_string()));
}

#[test]
fn two_last_modified_fail() {
    let metas = vec![meta(DCTERMS_URI, "modified", "2024-01-01T00:00:00Z"), meta(DCTERMS_URI, "modified", "2024-01-02T00:00:00Z")];
    let e = Metadata::new(required(), metas, vec![]).unwrap_err();
    assert!(matches!(e, MetadataCheckError::MissingLastModifiedError(_)));
}

#[test]
fn non_rfc3339_last_modified_fails() {
    let e = Metadata::new(required(), vec![meta(DCTERMS_URI, "modified", "2024-01-01 00:00")], vec![]).unwrap_err();
    assert_eq!(e, MetadataCheckError::DateParseError("2024-01-01 00:00".to_string()));
    let e = Metadata::new(required(), vec![meta(DCTERMS_URI, "modified", "2024-01-01T00:00:00")], vec![]).unwrap_err();
    assert!(matches!(e, MetadataCheckError::DateParseError(_)));
}

#[test]
fn missing_required_elements_fail_in_order() {
    let e = Metadata::new(vec![elem("language")], vec![], vec![]).unwrap_err();
    assert_eq!(e, MetadataCheckError::MissingElementError("title".to_string()));
    let e = Metadata::new(vec![elem("title"), elem("identifier")], vec![], vec![]).unwrap_err();
    assert_eq!(e, MetadataCheckError::MissingElementError("language".to_string()));
    let e = Metadata::new(vec![elem("title"), elem("language")], vec![], vec![]).unwrap_err();
    assert_eq!(e, MetadataCheckError::MissingElementError("identifier".to_string()));
}

#[test]
fn valid_metadata_keeps_instant_in_utc() {
    let m = Metadata::new(required(), vec![meta(DCTERMS_URI, "modified", "2024-01-01T02:00:00+02:00")], vec![]).unwrap();
    assert_eq!(m.last_modified(), Timestamp { secs: 1704067200, nanos: 0 });
    assert_eq!(m.titles().len(), 1);
    assert_eq!(m.metas().len(), 1);
}

#[test]
fn refines_resolve_against_base() {
    let base = Url::parse("epub:/OEBPS/content.opf").unwrap();
    let r = Refines::from_relative_url("#id-1", &base).unwrap();
    assert_eq!(r.0.as_str(), "epub:/OEBPS/content.opf#id-1");
    assert_eq!(r.0.without_fragment().as_str(), "epub:/OEBPS/content.opf");
    assert!(Refines::from_string("no scheme").is_err());
    assert_eq!(Refines::from_string("epub:/x").unwrap(), Refines::new(Url::parse("epub:/x").unwrap()));
}
