use std::cell::Cell;
use std::io::Write;

use eparser::files::LazyLocalFiles;
use eparser::remote::{read_from_epub_url_str, RemoteEpubStep, RemoteFiles};
use eparser::url::Url;

#[test]
fn lazy_store_reads_each_file_once() {
    let reads = Cell::new(0);
    let mut files: LazyLocalFiles<Vec<u8>> = LazyLocalFiles::new();
    let url = Url::parse("epub:/OEBPS/a.xhtml").unwrap();
    files.insert(url.copy(), b"content".to_vec());
    let read = |f: Vec<u8>| {
        reads.set(reads.get() + 1);
        Ok::<Vec<u8>, ()>(f)
    };
    let first = files.get(&url, read).unwrap().unwrap();
    let again = Url::parse("epub:/OEBPS/a.xhtml#part").unwrap();
    let second = files.get(&again, read).unwrap().unwrap();
    assert_eq!(first, b"content".to_vec());
    assert_eq!(first, second);
    assert_eq!(reads.get(), 1);
    assert_eq!(files.get(&Url::parse("epub:/none").unwrap(), read).unwrap(), None);
    assert_eq!(reads.get(), 1);
}

#[test]
fn lazy_store_reports_failed_read() {
    let mut files: LazyLocalFiles<u8> = LazyLocalFiles::new();
    let url = Url::parse("epub:/a").unwrap();
    files.insert(url.copy(), 7);
    assert_eq!(files.get(&url, |_| Err::<Vec<u8>, &str>("io")), Err("io"));
}

fn archive() -> Vec<u8> {
    let mut w = zip::ZipWriter::new(std::io::Cursor::new(Vec::new()));
    let options = zip::write::SimpleFileOptions::default().compression_method(zip::CompressionMethod::Stored);
    w.start_file("a.txt", options).unwrap();
    w.write_all(b"A").unwrap();
    w.finish().unwrap().into_inner()
}

#[test]
fn failed_archive_fetch_is_final() {
    let mut store = read_from_epub_url_str("http://example.com/book.epub").unwrap();
    assert_eq!(store.next_step(), RemoteEpubStep::FetchArchive);
    let mut requests = 0;
    for _ in 0..3 {
        if store.next_step() == RemoteEpubStep::FetchArchive {
            requests += 1;
            store.record_archive(None);
        }
        assert_eq!(store.next_step(), RemoteEpubStep::NotFound);
        assert!(store.lookup(&Url::parse("http://example.com/a.txt").unwrap()).is_none());
    }
    store.record_archive(Some(archive()));
    assert_eq!(store.next_step(), RemoteEpubStep::NotFound);
    assert_eq!(requests, 1);
}

#[test]
fn archive_fetched_once_then_looked_up() {
    let mut store = read_from_epub_url_str("http://example.com/dir/book.epub").unwrap();
    store.record_archive(Some(archive()));
    assert_eq!(store.next_step(), RemoteEpubStep::Lookup);
    assert_eq!(store.lookup(&Url::parse("http://example.com/dir/a.txt").unwrap()), Some(&b"A".to_vec()));
    assert!(read_from_epub_url_str("not a url").is_err());
}

#[test]
fn remote_cache_is_not_poisoned_by_failures() {
    let mut store = RemoteFiles::new(Url::parse("http://example.com/").unwrap());
    let url = Url::parse("http://example.com/a").unwrap();
    assert!(store.needs_fetch(&url));
    store.record(url.copy(), None);
    assert!(store.needs_fetch(&url));
    store.record(url.copy(), Some(b"x".to_vec()));
    assert!(!store.needs_fetch(&url));
    assert_eq!(store.cached(&url), Some(&b"x".to_vec()));
}
