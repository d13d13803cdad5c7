use eparser::manifest::{Manifest, ManifestCheckError, Resource};
use eparser::media_type::MediaType;
use eparser::prefix::OPF_URI;
use eparser::property::{Properties, Property};
use eparser::url::Url;

fn res(id: &str, href: &str, nav: bool) -> Resource {
    Resource {
        id: id.to_string(),
        href: Url::parse(href).unwrap(),
        media_type: MediaType::new("application/xhtml+xml"),
        fallback: None,
        media_overlay: None,
        properties: if nav {
            Some(Properties::new(vec![Property::new(OPF_URI.to_string(), "nav".to_string())]))
        } else {
            None
        },
    }
}

#[test]
fn lookup_by_id_then_href_gives_same_resource() {
    let m = Manifest::new(Some("m"), vec![res("a", "epub:/a.xhtml", true), res("b", "epub:/b.xhtml", false)]).unwrap();
    let by_id = m.get_resource_by_id("b").unwrap();
    let by_href = m.get_resource_by_href(&by_id.href).unwrap();
    assert_eq!(by_id, by_href);
    assert_eq!(by_href.id, "b");
    assert!(m.get_resource_by_id("c").is_none());
    assert_eq!(m.nav_resource().unwrap().id, "a");
    assert_eq!(m.len(), 2);
    assert_eq!(m.id(), &Some("m".to_string()));
}

#[test]
fn duplicate_id_fails() {
    let e = Manifest::new(None, vec![res("a", "epub:/a.xhtml", true), res("a", "epub:/b.xhtml", false)]).unwrap_err();
    assert_eq!(e, ManifestCheckError::DeduplicatedId("a".to_string()));
}

#[test]
fn duplicate_href_fails() {
    let e = Manifest::new(None, vec![res("a", "epub:/a.xhtml", true), res("b", "epub:/a.xhtml", false)]).unwrap_err();
    assert_eq!(e, ManifestCheckError::DeduplicatedHref(Url::parse("epub:/a.xhtml").unwrap()));
}

#[test]
fn zero_nav_resources_fail() {
    let e = Manifest::new(None, vec![res("a", "epub:/a.xhtml", false)]).unwrap_err();
    assert_eq!(e, ManifestCheckError::NavResourceNotFound);
    let e = Manifest::new(None, vec![]).unwrap_err();
    assert_eq!(e, ManifestCheckError::NavResourceNotFound);
}

#[test]
fn two_nav_resources_fail() {
    let e = Manifest::new(None, vec![res("a", "epub:/a.xhtml", true), res("b", "epub:/b.xhtml", true)]).unwrap_err();
    assert_eq!(e, ManifestCheckError::MultipleNavResources);
}

#[test]
fn unknown_fallback_fails() {
    let mut b = res("b", "epub:/b.xhtml", false);
    b.fallback = Some("zzz".to_string());
    let e = Manifest::new(None, vec![res("a", "epub:/a.xhtml", true), b]).unwrap_err();
    assert_eq!(e, ManifestCheckError::IdNotFound("zzz".to_string()));
    let mut c = res("c", "epub:/c.xhtml", false);
    c.fallback = Some("a".to_string());
    assert!(Manifest::new(None, vec![res("a", "epub:/a.xhtml", true), c]).is_ok());
}
