//! The decisions of the remote stores; the HTTP requests themselves are made by their callers.
use vstd::prelude::*;
use crate::files::{LocalFiles, entries_view, unzip, zip_entries};
use crate::url::{Url, joined_url};

verus! {

/// Why a remote store could not be made.
#[derive(Debug, PartialEq, Clone)]
pub enum RemoteError {
    /// The text is no absolute URL.
    UrlParseError,
}

/// A remote store rooted at the URL that `url` holds.
pub fn read_from_url_str(url: &str) -> (r: Result<RemoteFiles, RemoteError>)
    ensures
        match r {
            Ok(f) => crate::url::parsed_url(url@) == Some(f.root()),
            Err(_) => crate::url::parsed_url(url@) is None,
        },
{
    match Url::parse(url) {
        Some(u) => Ok(RemoteFiles::new(u)),
        None => Err(RemoteError::UrlParseError),
    }
}

/// A remote archive store for the URL that `url` holds.
pub fn read_from_epub_url_str(url: &str) -> (r: Result<RemoteEpub, RemoteError>)
    ensures
        match r {
            Ok(f) => crate::url::parsed_url(url@) == Some(f.source()) && f.root() == f.source() && !f.fetched() && !f.failed(),
            Err(_) => crate::url::parsed_url(url@) is None,
        },
{
    match Url::parse(url) {
        Some(u) => Ok(RemoteEpub::new(u)),
        None => Err(RemoteError::UrlParseError),
    }
}

/// The cache of a store that fetches each file over HTTP.
#[derive(Debug, PartialEq, Clone)]
pub struct RemoteFiles {
    url: Url,
    cache: LocalFiles,
}

impl RemoteFiles {
    pub closed spec fn root(&self) -> Seq<char> {
        self.url@
    }

    /// What the cache holds at `url`, fragment ignored.
    pub closed spec fn cached_at(&self, url: Seq<char>) -> Option<Seq<u8>> {
        self.cache.content(url)
    }

    /// A store rooted at `url`, with nothing cached.
    pub fn new(url: Url) -> (r: RemoteFiles)
        ensures
            r.root() == url@,
            forall|u: Seq<char>| r.cached_at(u) is None,
    {
        let root = url.copy();
        RemoteFiles { url, cache: LocalFiles::with_root(root) }
    }

    /// The root URL.
    pub fn root_url(&self) -> (r: &Url)
        ensures
            r@ == self.root(),
    {
        &self.url
    }

    /// Whether `url` must be fetched: nothing is cached for it.
    pub fn needs_fetch(&self, url: &Url) -> (r: bool)
        ensures
            r == (self.cached_at(url@) is None),
    {
        self.cache.get(url).is_none()
    }

    /// Records the outcome of a fetch of `url`: a body is cached, a failure leaves the cache as
    /// it was, so a later request fetches again.
    pub fn record(&mut self, url: Url, fetched: Option<Vec<u8>>)
        ensures
            final(self).root() == old(self).root(),
            fetched is None ==> *final(self) == *old(self),
            fetched matches Some(b) ==> forall|u: Seq<char>| final(self).cached_at(u) == if crate::url::strip_fragment(u) == crate::url::strip_fragment(url@) {
                Some(b@)
            } else {
                old(self).cached_at(u)
            },
    {
        if let Some(b) = fetched {
            let key = url.without_fragment();
            self.cache.insert(key, b);
        }
    }

    /// The cached bytes at `url`.
    pub fn cached(&self, url: &Url) -> (r: Option<&Vec<u8>>)
        ensures
            match r {
                Some(b) => self.cached_at(url@) == Some(b@),
                None => self.cached_at(url@) is None,
            },
    {
        self.cache.get(url)
    }
}

/// What a remote archive store does for a request.
#[derive(Debug, PartialEq, Eq, Clone, Copy, Structural)]
pub enum RemoteEpubStep {
    /// Fetch the whole archive, then hand it to `record_archive`.
    FetchArchive,
    /// Answer from the extracted entries.
    Lookup,
    /// Answer "not found" without any request.
    NotFound,
}

/// Whether `archive` is a readable ZIP archive whose every entry name resolves against `root`.
pub open spec fn archive_usable(archive: Seq<u8>, root: Seq<char>) -> bool {
    zip_entries(archive) is Some && forall|k: int| 0 <= k < zip_entries(archive)->0.len()
        ==> joined_url(root, #[trigger] zip_entries(archive)->0[k].0) is Some
}

/// A store over a ZIP archive fetched once over HTTP.
#[derive(Debug, PartialEq, Clone)]
pub struct RemoteEpub {
    archive_url: Url,
    has_fetched_zip: bool,
    fetch_zip_error: bool,
    files: LocalFiles,
}

impl RemoteEpub {
    pub closed spec fn fetched(&self) -> bool {
        self.has_fetched_zip
    }

    pub closed spec fn failed(&self) -> bool {
        self.fetch_zip_error
    }

    pub closed spec fn root(&self) -> Seq<char> {
        self.files.root()
    }

    pub closed spec fn source(&self) -> Seq<char> {
        self.archive_url@
    }

    /// The store of the extracted entries.
    pub closed spec fn extracted(&self) -> LocalFiles {
        self.files
    }

    /// What the extracted archive holds at `url`.
    pub open spec fn entry(&self, url: Seq<char>) -> Option<Seq<u8>> {
        self.extracted().content(url)
    }

    /// What a request does in this state.
    pub open spec fn step(&self) -> RemoteEpubStep {
        if self.fetched() {
            RemoteEpubStep::Lookup
        } else if self.failed() {
            RemoteEpubStep::NotFound
        } else {
            RemoteEpubStep::FetchArchive
        }
    }

    /// A store for the archive at `url`, whose entries are also addressed under `url`.
    pub fn new(url: Url) -> (r: RemoteEpub)
        ensures
            r.source() == url@,
            r.root() == url@,
            !r.fetched() && !r.failed(),
    {
        let root = url.copy();
        RemoteEpub { archive_url: url, has_fetched_zip: false, fetch_zip_error: false, files: LocalFiles::with_root(root) }
    }

    /// A store for the archive at `url`, whose entries are addressed under `logical_root`.
    pub fn with_logical_root(url: Url, logical_root: Url) -> (r: RemoteEpub)
        ensures
            r.source() == url@,
            r.root() == logical_root@,
            !r.fetched() && !r.failed(),
    {
        RemoteEpub { archive_url: url, has_fetched_zip: false, fetch_zip_error: false, files: LocalFiles::with_root(logical_root) }
    }

    /// The URL the archive is fetched from.
    pub fn archive_url(&self) -> (r: &Url)
        ensures
            r@ == self.source(),
    {
        &self.archive_url
    }

    /// The logical root of the entries.
    pub fn root_url(&self) -> (r: &Url)
        ensures
            r@ == self.root(),
    {
        self.files.root_url()
    }

    /// What the next request does.
    pub fn next_step(&self) -> (r: RemoteEpubStep)
        ensures
            r == self.step(),
    {
        if self.has_fetched_zip {
            RemoteEpubStep::Lookup
        } else if self.fetch_zip_error {
            RemoteEpubStep::NotFound
        } else {
            RemoteEpubStep::FetchArchive
        }
    }

    /// Records the outcome of fetching the archive, `None` for a failed request. The bytes are
    /// extracted once, each entry under the logical root; a failed fetch, an unreadable archive
    /// or an entry name that does not resolve marks the store failed for good. Outside the
    /// `FetchArchive` step nothing changes.
    pub fn record_archive(&mut self, archive: Option<Vec<u8>>)
        ensures
            old(self).step() != RemoteEpubStep::FetchArchive ==> *final(self) == *old(self),
            final(self).root() == old(self).root(),
            final(self).source() == old(self).source(),
            old(self).step() == RemoteEpubStep::FetchArchive ==> match archive {
                None => final(self).step() == RemoteEpubStep::NotFound,
                Some(b) => (final(self).step() == RemoteEpubStep::Lookup <==> archive_usable(b@, old(self).root()))
                    && (archive_usable(b@, old(self).root()) ==> final(self).extracted().entries().len() == zip_entries(b@)->0.len()
                        && forall|k: int| 0 <= k < zip_entries(b@)->0.len() ==> joined_url(old(self).root(), #[trigger] zip_entries(b@)->0[k].0)
                            == Some(final(self).extracted().entries()[k].0@) && final(self).extracted().entries()[k].1@ == zip_entries(b@)->0[k].1)
                    && (final(self).step() != RemoteEpubStep::Lookup ==> final(self).step() == RemoteEpubStep::NotFound),
            },
    {
        if self.has_fetched_zip || self.fetch_zip_error {
            return;
        }
        let bytes = match archive {
            Some(b) => b,
            None => {
                self.fetch_zip_error = true;
                return;
            },
        };
        let entries = match unzip(&bytes) {
            Some(e) => e,
            None => {
                self.fetch_zip_error = true;
                return;
            },
        };
        let root = self.files.root_url().copy();
        let ghost es = entries@;
        proof {
            assert forall|k: int| 0 <= k < es.len() implies #[trigger] entries_view(es)[k].0 == es[k].0@ by {}
        }
        let ghost zs = zip_entries(bytes@)->0;
        assert(zs == entries_view(es));
        match LocalFiles::from_entries(root, entries) {
            Ok(f) => {
                proof {
                    assert forall|k: int| 0 <= k < zs.len() implies joined_url(old(self).root(), #[trigger] zs[k].0) is Some by {
                        assert(zs[k].0 == es[k].0@);
                        assert(joined_url(old(self).root(), es[k].0@) == Some(f.entries()[k].0@));
                    }
                    assert(archive_usable(bytes@, old(self).root()));
                    assert forall|k: int| 0 <= k < zs.len() implies zs[k].1 == es[k].1@ by {}
                }
                self.files = f;
                self.has_fetched_zip = true;
            },
            Err(e) => {
                proof {
                    let k = choose|k: int| 0 <= k < es.len() && joined_url(old(self).root(), #[trigger] es[k].0@) is None;
                    assert(zs[k].0 == es[k].0@);
                    assert(!archive_usable(bytes@, old(self).root()));
                }
                self.fetch_zip_error = true;
            },
        }
    }

    /// The entry at `url`, once the archive is extracted; nothing before that or after a
    /// failure.
    pub fn lookup(&self, url: &Url) -> (r: Option<&Vec<u8>>)
        ensures
            self.step() != RemoteEpubStep::Lookup ==> r is None,
            self.step() == RemoteEpubStep::Lookup ==> match r {
                Some(b) => self.entry(url@) == Some(b@),
                None => self.entry(url@) is None,
            },
    {
        if self.has_fetched_zip {
            self.files.get(url)
        } else {
            None
        }
    }

    /// Once the fetch of the archive has failed, every request is answered "not found" with
    /// no further request, and recording another outcome changes nothing.
    pub proof fn lemma_failure_is_final(&self)
        requires
            self.step() == RemoteEpubStep::NotFound,
        ensures
            self.step() != RemoteEpubStep::FetchArchive,
            self.failed() && !self.fetched(),
    {
    }
}

} // verus!
