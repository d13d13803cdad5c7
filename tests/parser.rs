use eparser::book::parse_book;
use eparser::files::LocalFiles;
use eparser::metadata::MetadataCheckError;
use eparser::parser::{PackageError, PackageParser, ParseOptions};
use eparser::prefix::{Prefixes, DCTERMS_URI};
use eparser::property::Property;
use eparser::url::Url;

fn parser() -> PackageParser {
    PackageParser::new(ParseOptions {
        base_url: Url::parse("epub:/OEBPS/content.opf").unwrap(),
        reserved_prefixes: Prefixes::reserved(),
    })
}

fn document(metadata: &str, manifest: &str, spine: &str) -> String {
    format!(
        r#"<?xml version="1.0" encoding="UTF-8"?>
<package xmlns="http://www.idpf.org/2007/opf" version="3.0" unique-identifier="uid" xml:lang="en" dir="ltr">
  <metadata xmlns:dc="http://purl.org/dc/elements/1.1/">
    <dc:title id="t">A Title</dc:title>
    <dc:language>en</dc:language>
    <dc:identifier id="uid">urn:uuid:1234</dc:identifier>
    <meta property="dcterms:modified">2024-01-01T00:00:00Z</meta>
    {}
  </metadata>
  <manifest>
    <item id="nav" href="nav.xhtml" media-type="application/xhtml+xml" properties="nav"/>
    {}
  </manifest>
  <spine page-progression-direction="rtl">
    {}
  </spine>
</package>"#,
        metadata, manifest, spine
    )
}

#[test]
fn full_package_is_read() {
    let doc = document(
        r##"<meta refines="#t" property="title-type" scheme="dcterms:W3CDTF">main</meta>
        <link rel="dcterms:conformsTo" href="record.xml" media-type="application/xml"/>"##,
        r#"<item id="c1" href="text/c1.xhtml" media-type="application/xhtml+xml" fallback="nav"/>
        <item id="c2" href="text/c2.xhtml#x" media-type="application/xhtml+xml"/>"#,
        r#"<itemref idref="c2"/><itemref idref="nav" linear="false"/><itemref idref="c1" linear="true"/>"#,
    );
    let mut p = parser();
    let package = p.parse(&doc).unwrap();
    assert_eq!(package.lang, Some("en".to_string()));
    assert_eq!(package.dir, Some("ltr".to_string()));
    assert_eq!(package.spine.dir, Some("rtl".to_string()));
    let ids: Vec<&str> = package.spine.refs.iter().map(|r| r.id.as_str()).collect();
    assert_eq!(ids, vec!["c2", "nav", "c1"]);
    assert_eq!(package.spine.refs[1].linear, Some(false));
    assert_eq!(package.spine.refs[2].linear, Some(true));
    assert_eq!(package.spine.refs[0].linear, None);
    let c1 = package.get_res_by_id("c1").unwrap();
    assert_eq!(c1.href.as_str(), "epub:/OEBPS/text/c1.xhtml");
    assert_eq!(c1.fallback, Some("nav".to_string()));
    let meta = &package.metadata.metas()[1];
    assert_eq!(meta.value, "main");
    assert_eq!(meta.refines.as_ref().unwrap().0.as_str(), "epub:/OEBPS/content.opf#t");
    assert_eq!(meta.scheme, Some(Property::new(DCTERMS_URI.to_string(), "W3CDTF".to_string())));
    let link = &package.metadata.links()[0];
    assert_eq!(link.href.as_str(), "epub:/OEBPS/record.xml");
    assert_eq!(link.rel.len(), 1);
}

#[test]
fn local_prefix_declaration_is_scoped_to_its_element() {
    let doc = document(
        r#"<meta xmlns:my="urn:my" property="my:thing">x</meta>"#,
        "",
        r#"<itemref idref="nav"/>"#,
    );
    assert!(parser().parse(&doc).is_ok());
    let doc = document(
        r#"<meta xmlns:my="urn:my" property="my:thing">x</meta><meta property="my:other">y</meta>"#,
        "",
        r#"<itemref idref="nav"/>"#,
    );
    assert_eq!(
        parser().parse(&doc).unwrap_err(),
        PackageError::InvalidElementAttrError("property is invalid: my:other".to_string())
    );
}

#[test]
fn element_errors_are_named() {
    let doc = document("", r#"<other id="x"/>"#, r#"<itemref idref="nav"/>"#);
    assert_eq!(parser().parse(&doc).unwrap_err(), PackageError::InvalidElementError("Invalid manifest item".to_string()));
    let doc = document("", "", r#"<item idref="nav"/>"#);
    assert_eq!(parser().parse(&doc).unwrap_err(), PackageError::InvalidElementError("Invalid spine itemref".to_string()));
    let doc = document("", "", r#"<itemref/>"#);
    assert_eq!(parser().parse(&doc).unwrap_err(), PackageError::InvalidElementAttrError("idref is missing".to_string()));
    let doc = document("", "", r#"<itemref idref="nav" linear="maybe"/>"#);
    assert_eq!(
        parser().parse(&doc).unwrap_err(),
        PackageError::InvalidElementAttrError("linear is invalid: maybe".to_string())
    );
    let doc = document(r#"<x:foo xmlns:x="urn:x"/>"#, "", r#"<itemref idref="nav"/>"#);
    assert_eq!(
        parser().parse(&doc).unwrap_err(),
        PackageError::InvalidElementError("Invalid metadata element: foo".to_string())
    );
    let doc = document("", "", "").replace("<spine page-progression-direction=\"rtl\">", "<spina>").replace("</spine>", "</spina>");
    assert_eq!(parser().parse(&doc).unwrap_err(), PackageError::InvalidElementError("spine is missing".to_string()));
    assert!(matches!(parser().parse("<package").unwrap_err(), PackageError::ParseError(_)));
    assert_eq!(
        parser().parse(r#"<book xmlns="http://www.idpf.org/2007/opf"/>"#).unwrap_err(),
        PackageError::InvalidElementError("root element is not package".to_string())
    );
}

#[test]
fn metadata_errors_surface() {
    let doc = document("", "", r#"<itemref idref="nav"/>"#).replace("2024-01-01T00:00:00Z", "yesterday");
    assert_eq!(
        parser().parse(&doc).unwrap_err(),
        PackageError::MetadataCheckError(MetadataCheckError::DateParseError("yesterday".to_string()))
    );
}

#[test]
fn every_package_resolves_against_the_first_root_file() {
    let container = r#"<container xmlns="urn:oasis:names:tc:opendocument:xmlns:container"><rootfiles>
        <rootfile full-path="a/one.opf" media-type="application/oebps-package+xml"/>
        <rootfile full-path="b/two.opf" media-type="application/oebps-package+xml"/>
    </rootfiles></container>"#;
    let mut files = LocalFiles::empty();
    files.insert(Url::parse("epub:/META-INF/container.xml").unwrap(), container.as_bytes().to_vec());
    let doc = document("", "", r#"<itemref idref="nav"/>"#);
    files.insert(Url::parse("epub:/a/one.opf").unwrap(), doc.clone().into_bytes());
    files.insert(Url::parse("epub:/b/two.opf").unwrap(), doc.into_bytes());
    let book = parse_book(&mut files).unwrap();
    assert_eq!(book.packages().len(), 2);
    assert_eq!(book.packages()[1].nav_resource().unwrap().href.as_str(), "epub:/a/nav.xhtml");
}

#[test]
fn prefix_attribute_declares_package_prefixes() {
    let doc = document(
        "",
        r#"<item id="tp" href="titlepage.xhtml" media-type="application/xhtml+xml" properties="svg calibre:title-page"/>"#,
        r#"<itemref idref="tp"/>"#,
    )
    .replace("unique-identifier=\"uid\"", "unique-identifier=\"uid\" prefix=\"calibre: https://calibre-ebook.com\"");
    let package = parser().parse(&doc).unwrap();
    assert_eq!(package.prefix, Some("calibre: https://calibre-ebook.com".to_string()));
    let tp = package.get_res_by_id("tp").unwrap();
    let props = tp.properties.as_ref().unwrap();
    assert!(props.contains(&Property::new("https://calibre-ebook.com".to_string(), "title-page".to_string())));
    assert!(props.contains(&Property::new("http://www.idpf.org/2007/opf".to_string(), "svg".to_string())));
    let undeclared = doc.replace(" prefix=\"calibre: https://calibre-ebook.com\"", "");
    assert_eq!(
        parser().parse(&undeclared).unwrap_err(),
        PackageError::InvalidElementAttrError("properties is invalid: svg calibre:title-page".to_string())
    );
}

#[test]
fn prefix_attribute_pairs() {
    let ps = eparser::prefix::parse_prefix_attr("foaf: http://xmlns.com/foaf/spec/\n dbp: http://dbpedia.org/ontology/ stray");
    assert_eq!(ps.len(), 2);
    assert_eq!(ps[0].name, Some("foaf".to_string()));
    assert_eq!(ps[0].uri, "http://xmlns.com/foaf/spec/");
    assert_eq!(ps[1].name, Some("dbp".to_string()));
    assert!(eparser::prefix::parse_prefix_attr("").is_empty());
}
