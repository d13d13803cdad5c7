use std::io::Write;

use eparser::book::{parse_book, ParseBookError};
use eparser::container::{parse_container, ContainerError};
use eparser::files::{read_from_zip_bytes, LocalFiles, LocalFilesError};
use eparser::manifest::ManifestCheckError;
use eparser::metadata::Timestamp;
use eparser::parser::PackageError;
use eparser::url::Url;

const CONTAINER: &str = r#"<?xml version="1.0" encoding="UTF-8"?>
<container version="1.0" xmlns="urn:oasis:names:tc:opendocument:xmlns:container">
    <rootfiles>
        <rootfile full-path="OEBPS/content.opf" media-type="application/oebps-package+xml"/>
    </rootfiles>
</container>"#;

fn package(nav: bool) -> String {
    let props = if nav { r#" properties="nav""# } else { "" };
    format!(
        r#"<?xml version="1.0" encoding="UTF-8"?>
<package xmlns="http://www.idpf.org/2007/opf" version="3.0" unique-identifier="uid">
  <metadata xmlns:dc="http://purl.org/dc/elements/1.1/">
    <dc:title>A Title</dc:title>
    <dc:language>en</dc:language>
    <dc:identifier id="uid">urn:uuid:1234</dc:identifier>
    <meta property="dcterms:modified">2024-01-01T00:00:00Z</meta>
  </metadata>
  <manifest>
    <item id="nav" href="nav.xhtml" media-type="application/xhtml+xml"{}/>
  </manifest>
  <spine>
    <itemref idref="nav"/>
  </spine>
</package>"#,
        props
    )
}

fn archive(files: &[(&str, &str)]) -> Vec<u8> {
    let mut w = zip::ZipWriter::new(std::io::Cursor::new(Vec::new()));
    let options = zip::write::SimpleFileOptions::default().compression_method(zip::CompressionMethod::Stored);
    for (name, text) in files {
        w.start_file(name.to_string(), options).unwrap();
        w.write_all(text.as_bytes()).unwrap();
    }
    w.finish().unwrap().into_inner()
}

#[test]
fn test_parse_container() {
    let data = CONTAINER;
    let container = parse_container(data, &Url::epub_root()).unwrap();
    assert_eq!(container.rootfiles.len(), 1);
    assert_eq!(container.rootfiles[0].full_path.as_str(), "epub:/OEBPS/content.opf");
}

#[test]
fn container_keeps_rootfile_order() {
    let data = r#"<container xmlns="urn:oasis:names:tc:opendocument:xmlns:container"><rootfiles>
        <rootfile full-path="a.opf" media-type="application/oebps-package+xml"/>
        <other/>
        <rootfile full-path="b/c.opf" media-type="application/oebps-package+xml"/>
    </rootfiles></container>"#;
    let c = parse_container(data, &Url::epub_root()).unwrap();
    assert_eq!(c.rootfiles.len(), 2);
    assert_eq!(c.rootfiles[0].full_path.as_str(), "epub:/a.opf");
    assert_eq!(c.rootfiles[1].full_path.as_str(), "epub:/b/c.opf");
}

#[test]
fn container_rejects_other_media_type() {
    let data = r#"<container xmlns="urn:oasis:names:tc:opendocument:xmlns:container"><rootfiles>
        <rootfile full-path="a.opf" media-type="text/plain"/>
    </rootfiles></container>"#;
    match parse_container(data, &Url::epub_root()).unwrap_err() {
        ContainerError::InvalidMediaType(m) => assert_eq!(m.as_str(), "text/plain"),
        e => panic!("unexpected {:?}", e),
    }
}

#[test]
fn container_errors() {
    let root = Url::epub_root();
    assert_eq!(parse_container(r#"<container xmlns="urn:c"/>"#, &root).unwrap_err(), ContainerError::MissingRootfiles);
    assert_eq!(
        parse_container(r#"<container xmlns="urn:c"><rootfiles/></container>"#, &root).unwrap_err(),
        ContainerError::MissingRootfiles
    );
    assert_eq!(
        parse_container(r#"<container xmlns="urn:c"><rootfiles><rootfile media-type="x"/></rootfiles></container>"#, &root).unwrap_err(),
        ContainerError::MissingFullPath
    );
    assert_eq!(
        parse_container(r#"<container xmlns="urn:c"><rootfiles><rootfile full-path="a"/></rootfiles></container>"#, &root).unwrap_err(),
        ContainerError::MissingMediaType
    );
    assert!(matches!(parse_container("<container>", &root).unwrap_err(), ContainerError::ParseError(_)));
}

#[test]
fn archive_book_parses() {
    let pkg = package(true);
    let bytes = archive(&[("META-INF/container.xml", CONTAINER), ("OEBPS/content.opf", &pkg), ("OEBPS/nav.xhtml", "<html/>")]);
    let mut files = read_from_zip_bytes(&bytes).unwrap();
    assert_eq!(files.get(&Url::parse("epub:/OEBPS/nav.xhtml#toc").unwrap()).unwrap(), &b"<html/>".to_vec());
    let book = parse_book(&mut files).unwrap();
    assert_eq!(book.packages().len(), 1);
    let p = &book.packages()[0];
    assert_eq!(p.version, "3.0");
    assert_eq!(p.unique_identifier_ref, "uid");
    assert_eq!(p.spine.len(), 1);
    let referenced = p.get_res_by_ref(p.spine.get(0).unwrap()).unwrap();
    let nav = p.nav_resource().unwrap();
    assert_eq!(nav, referenced);
    assert_eq!(nav.href.as_str(), "epub:/OEBPS/nav.xhtml");
    assert_eq!(p.metadata.titles().len(), 1);
    assert_eq!(p.metadata.languages().len(), 1);
    assert_eq!(p.metadata.identifiers().len(), 1);
    assert_eq!(p.metadata.last_modified(), Timestamp { secs: 1704067200, nanos: 0 });
}

#[test]
fn archive_book_without_nav_fails() {
    let pkg = package(false);
    let bytes = archive(&[("META-INF/container.xml", CONTAINER), ("OEBPS/content.opf", &pkg)]);
    let mut files = read_from_zip_bytes(&bytes).unwrap();
    let e = parse_book(&mut files).unwrap_err();
    assert_eq!(e, ParseBookError::ParsePackageError(PackageError::ManifestCheckError(ManifestCheckError::NavResourceNotFound)));
}

#[test]
fn missing_files_are_reported() {
    let mut files = LocalFiles::empty();
    assert_eq!(parse_book(&mut files).unwrap_err(), ParseBookError::MissingContainer);
    files.insert(Url::parse("epub:/META-INF/container.xml").unwrap(), CONTAINER.as_bytes().to_vec());
    assert_eq!(
        parse_book(&mut files).unwrap_err(),
        ParseBookError::MissingPackage("epub:/OEBPS/content.opf".to_string())
    );
    files.insert(Url::parse("epub:/OEBPS/content.opf").unwrap(), vec![0xff, 0xfe]);
    assert_eq!(parse_book(&mut files).unwrap_err(), ParseBookError::Utf8Error);
}

#[test]
fn bad_archive_fails() {
    assert_eq!(read_from_zip_bytes(&vec![1, 2, 3]).unwrap_err(), LocalFilesError::Zip);
}

#[test]
fn unsupported_version_fails() {
    let pkg = package(true).replace("version=\"3.0\"", "version=\"2.0\"");
    let mut files = LocalFiles::empty();
    files.insert(Url::parse("epub:/META-INF/container.xml").unwrap(), CONTAINER.as_bytes().to_vec());
    files.insert(Url::parse("epub:/OEBPS/content.opf").unwrap(), pkg.into_bytes());
    assert_eq!(
        parse_book(&mut files).unwrap_err(),
        ParseBookError::ParsePackageError(PackageError::UnsupportedVersion("2.0".to_string()))
    );
}
