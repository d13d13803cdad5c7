//! Stores that map URLs to the bytes of a publication's files.
use vstd::prelude::*;
use crate::url::{Url, joined_url, strip_fragment, epub_root_view};


verus! {

/// The entries of a ZIP archive, names and contents in archive order; `None` where the bytes
/// are no readable archive.
pub uninterp spec fn zip_entries(archive: Seq<u8>) -> Option<Seq<(Seq<char>, Seq<u8>)>>;

/// The plain view of archive entries.
pub open spec fn entries_view(v: Seq<(String, Vec<u8>)>) -> Seq<(Seq<char>, Seq<u8>)> {
    v.map_values(|e: (String, Vec<u8>)| (e.0@, e.1@))
}

/// Relies on `zip::ZipArchive` (`new`, `len`, `by_index`) and on `ZipFile::name` and its
/// `Read` impl: the name and the decompressed content of each entry, in archive order.
#[verifier::external_body]
pub(crate) fn unzip(archive: &Vec<u8>) -> (r: Option<Vec<(String, Vec<u8>)>>)
    ensures
        match r {
            Some(v) => zip_entries(archive@) == Some(entries_view(v@)),
            None => zip_entries(archive@) is None,
        },
{
    let mut zip = zip::ZipArchive::new(std::io::Cursor::new(archive.as_slice())).ok()?;
    let mut out = Vec::new();
    for i in 0..zip.len() {
        let mut file = zip.by_index(i).ok()?;
        let name = file.name().ok()?.to_string();
        let mut content = Vec::new();
        std::io::Read::read_to_end(&mut file, &mut content).ok()?;
        out.push((name, content));
    }
    Some(out)
}

/// What an association list says about `key`: the value of its last entry with that key.
pub open spec fn assoc<V>(s: Seq<(Url, V)>, key: Seq<char>) -> Option<V>
    decreases s.len(),
{
    if s.len() == 0 {
        None
    } else if s.last().0@ == key {
        Some(s.last().1)
    } else {
        assoc(s.drop_last(), key)
    }
}

/// Position of the last entry with `key`, or -1.
pub open spec fn assoc_index<V>(s: Seq<(Url, V)>, key: Seq<char>) -> int
    decreases s.len(),
{
    if s.len() == 0 {
        -1
    } else if s.last().0@ == key {
        s.len() - 1
    } else {
        assoc_index(s.drop_last(), key)
    }
}

proof fn lemma_assoc_index<V>(s: Seq<(Url, V)>, key: Seq<char>)
    ensures
        -1 <= assoc_index(s, key) < s.len(),
        assoc_index(s, key) >= 0 ==> s[assoc_index(s, key)].0@ == key && assoc(s, key) == Some(s[assoc_index(s, key)].1),
        assoc_index(s, key) == -1 ==> assoc(s, key) is None,
    decreases s.len(),
{
    if s.len() > 0 && s.last().0@ != key {
        lemma_assoc_index(s.drop_last(), key);
        let i = assoc_index(s.drop_last(), key);
        if i >= 0 {
            assert(s.drop_last()[i] == s[i]);
        }
    }
}

/// Finds the last entry with the URL `key`.
fn find_last<V>(s: &Vec<(Url, V)>, key: &Url) -> (r: Option<usize>)
    ensures
        match r {
            Some(i) => i as int == assoc_index(s@, key@),
            None => assoc_index(s@, key@) == -1,
        },
{
    let mut i: usize = s.len();
    assert(s@.take(i as int) =~= s@);
    while i > 0
        invariant
            i <= s@.len(),
            assoc_index(s@, key@) == assoc_index(s@.take(i as int), key@),
        decreases i,
    {
        assert(s@.take(i as int).drop_last() =~= s@.take(i as int - 1));
        if s[i - 1].0.same(key) {
            return Some(i - 1);
        }
        i = i - 1;
    }
    None
}

/// Why a store could not be built.
#[derive(Debug, PartialEq, Clone)]
pub enum LocalFilesError {
    /// The bytes are no readable ZIP archive.
    Zip,
    /// An entry name that does not resolve against the root URL.
    InvalidPath(String),
}

/// A store that holds every file in memory.
#[derive(Debug, PartialEq, Clone)]
pub struct LocalFiles {
    files: Vec<(Url, Vec<u8>)>,
    root_url: Url,
}

impl LocalFiles {
    /// The URLs and contents held, later entries overriding earlier ones.
    pub closed spec fn entries(&self) -> Seq<(Url, Vec<u8>)> {
        self.files@
    }

    pub closed spec fn root(&self) -> Seq<char> {
        self.root_url@
    }

    /// What the store holds at `url`, fragment ignored.
    pub open spec fn content(&self, url: Seq<char>) -> Option<Seq<u8>> {
        match assoc(self.entries(), strip_fragment(url)) {
            Some(b) => Some(b@),
            None => None,
        }
    }

    /// An empty store rooted at `epub:/`.
    pub fn empty() -> (r: LocalFiles)
        ensures
            r.root() == epub_root_view(),
            r.entries().len() == 0,
    {
        LocalFiles { files: Vec::new(), root_url: Url::epub_root() }
    }

    /// An empty store rooted at `root`.
    pub fn with_root(root: Url) -> (r: LocalFiles)
        ensures
            r.root() == root@,
            r.entries().len() == 0,
    {
        LocalFiles { files: Vec::new(), root_url: root }
    }

    /// The root URL.
    pub fn root_url(&self) -> (r: &Url)
        ensures
            r@ == self.root(),
    {
        &self.root_url
    }

    /// Stores `content` at `url`, replacing what was there.
    pub fn insert(&mut self, url: Url, content: Vec<u8>)
        ensures
            final(self).root() == old(self).root(),
            final(self).entries() == old(self).entries().push((url, content)),
            assoc(final(self).entries(), url@) == Some(content),
            forall|k: Seq<char>| k != url@ ==> assoc(final(self).entries(), k) == assoc(old(self).entries(), k),
    {
        let ghost u = url@;
        self.files.push((url, content));
        assert(self.files@.drop_last() =~= old(self).files@);
    }

    /// The content at `url`, whose fragment is ignored.
    pub fn get(&self, url: &Url) -> (r: Option<&Vec<u8>>)
        ensures
            match r {
                Some(b) => self.content(url@) == Some(b@),
                None => self.content(url@) is None,
            },
    {
        let key = url.without_fragment();
        proof { lemma_assoc_index(self.files@, key@); }
        match find_last(&self.files, &key) {
            Some(i) => Some(&self.files[i].1),
            None => None,
        }
    }

    /// A store holding each `(name, content)` at the URL `name` resolves to against `root`,
    /// later entries overriding earlier ones.
    pub fn from_entries(root: Url, entries: Vec<(String, Vec<u8>)>) -> (r: Result<LocalFiles, LocalFilesError>)
        ensures
            match r {
                Ok(f) => f.root() == root@ && f.entries().len() == entries@.len()
                    && forall|k: int| 0 <= k < entries@.len() ==> joined_url(root@, #[trigger] entries@[k].0@) == Some(f.entries()[k].0@)
                        && f.entries()[k].1@ == entries@[k].1@,
                Err(LocalFilesError::InvalidPath(n)) => exists|k: int| 0 <= k < entries@.len()
                    && joined_url(root@, #[trigger] entries@[k].0@) is None && n@ == entries@[k].0@,
                Err(LocalFilesError::Zip) => false,
            },
    {
        let mut files = LocalFiles::with_root(root);
        let mut rest = entries;
        let ghost all = rest@;
        let mut i: usize = 0;
        let n = rest.len();
        assert(rest@ =~= all.skip(0));
        while i < n
            invariant
                n == all.len(),
                all == entries@,
                i <= n,
                files.root() == root@,
                files.entries().len() == i,
                rest@ == all.skip(i as int),
                forall|k: int| 0 <= k < i ==> joined_url(root@, #[trigger] all[k].0@) == Some(files.entries()[k].0@)
                    && files.entries()[k].1@ == all[k].1@,
            decreases n - i,
        {
            let (name, content) = rest.remove(0);
            assert(all.skip(i as int).subrange(1, (n - i) as int) =~= all.skip(i as int + 1));
            assert(name@ == all[i as int].0@);
            match files.root_url.join(name.as_str()) {
                Some(u) => {
                    files.insert(u, content);
                },
                None => {
                    assert(joined_url(root@, all[i as int].0@) is None);
                    return Err(LocalFilesError::InvalidPath(name));
                },
            }
            i = i + 1;
        }
        Ok(files)
    }
}

/// A store read from the bytes of a ZIP archive: each entry at `epub:/<name>`.
pub fn read_from_zip_bytes(archive: &Vec<u8>) -> (r: Result<LocalFiles, LocalFilesError>)
    ensures
        zip_entries(archive@) is None <==> r == Err::<LocalFiles, LocalFilesError>(LocalFilesError::Zip),
        r matches Err(LocalFilesError::InvalidPath(n)) ==> zip_entries(archive@) is Some && exists|k: int|
            0 <= k < zip_entries(archive@)->0.len() && joined_url(epub_root_view(), #[trigger] zip_entries(archive@)->0[k].0) is None
            && n@ == zip_entries(archive@)->0[k].0,
        (zip_entries(archive@) is Some && forall|k: int| 0 <= k < zip_entries(archive@)->0.len()
            ==> joined_url(epub_root_view(), #[trigger] zip_entries(archive@)->0[k].0) is Some) ==> r is Ok,
        r matches Ok(f) ==> f.root() == epub_root_view() && zip_entries(archive@) is Some
            && f.entries().len() == zip_entries(archive@)->0.len()
            && forall|k: int| 0 <= k < zip_entries(archive@)->0.len() ==> joined_url(epub_root_view(), #[trigger] zip_entries(archive@)->0[k].0) == Some(f.entries()[k].0@)
                && f.entries()[k].1@ == zip_entries(archive@)->0[k].1,
{
    match unzip(archive) {
        Some(entries) => {
            let ghost es = entries@;
            let r = LocalFiles::from_entries(Url::epub_root(), entries);
            proof {
                assert forall|k: int| 0 <= k < es.len() implies #[trigger] entries_view(es)[k].0 == es[k].0@ by {}
                if r is Err {
                    let n = r->Err_0->InvalidPath_0;
                    let k = choose|k: int| 0 <= k < es.len() && joined_url(epub_root_view(), #[trigger] es[k].0@) is None
                        && n@ == es[k].0@;
                    assert(entries_view(es)[k].0 == es[k].0@);
                    assert(zip_entries(archive@)->0[k].0 == es[k].0@);
                    assert(joined_url(epub_root_view(), zip_entries(archive@)->0[k].0) is None);
                }
                if r is Ok {
                    let f = r->Ok_0;
                    assert forall|k: int| 0 <= k < es.len() implies joined_url(epub_root_view(), #[trigger] entries_view(es)[k].0) == Some(f.entries()[k].0@)
                        && f.entries()[k].1@ == entries_view(es)[k].1 by {
                        assert(joined_url(epub_root_view(), es[k].0@) == Some(f.entries()[k].0@));
                    }
                }
            }
            r
        },
        None => Err(LocalFilesError::Zip),
    }
}

} // verus!

verus! {

/// A copy of a byte vector.
pub fn copy_bytes(v: &Vec<u8>) -> (r: Vec<u8>)
    ensures
        r@ == v@,
{
    let mut out: Vec<u8> = Vec::new();
    let mut i: usize = 0;
    while i < v.len()
        invariant
            i <= v@.len(),
            out@ == v@.take(i as int),
        decreases v@.len() - i,
    {
        out.push(v[i]);
        i = i + 1;
        assert(out@ =~= v@.take(i as int));
    }
    assert(v@.take(v@.len() as int) =~= v@);
    out
}

/// A file of a lazily read directory: a handle until it is read, its bytes afterwards.
#[derive(Debug)]
pub enum LazyFile<R> {
    NotLoaded(R),
    Loaded(Vec<u8>),
}

impl<R> LazyFile<R> {
    /// The handle, while the file is not read.
    pub fn file(&self) -> (r: Option<&R>)
        ensures
            match self {
                LazyFile::NotLoaded(f) => r == Some(f),
                LazyFile::Loaded(_) => r is None,
            },
    {
        match self {
            LazyFile::NotLoaded(file) => Some(file),
            LazyFile::Loaded(_) => None,
        }
    }

    /// The handle, while the file is not read, to read from.
    pub fn file_mut(&mut self) -> (r: Option<&mut R>)
        ensures
            *old(self) is Loaded ==> r is None,
            *old(self) is NotLoaded ==> r is Some,
    {
        match self {
            LazyFile::NotLoaded(file) => Some(file),
            LazyFile::Loaded(_) => None,
        }
    }

    /// The bytes, once the file is read, to change in place.
    pub fn bytes_mut(&mut self) -> (r: Option<&mut Vec<u8>>)
        ensures
            *old(self) is Loaded ==> r is Some,
            *old(self) is NotLoaded ==> r is None,
    {
        match self {
            LazyFile::NotLoaded(_) => None,
            LazyFile::Loaded(bytes) => Some(bytes),
        }
    }

    /// The bytes, once the file is read.
    pub fn bytes(&self) -> (r: Option<&Vec<u8>>)
        ensures
            match self {
                LazyFile::NotLoaded(_) => r is None,
                LazyFile::Loaded(b) => r == Some(b),
            },
    {
        match self {
            LazyFile::NotLoaded(_) => None,
            LazyFile::Loaded(bytes) => Some(bytes),
        }
    }
}

/// What a lazy store holds at a URL: nothing, a file not read yet, or the bytes read.
pub open spec fn lazy_state<R>(f: Option<LazyFile<R>>) -> Option<Option<Seq<u8>>> {
    match f {
        None => None,
        Some(LazyFile::NotLoaded(_)) => Some(None),
        Some(LazyFile::Loaded(b)) => Some(Some(b@)),
    }
}

/// Whether `read`, given the handle `h`, can give the bytes `x`.
pub open spec fn read_gave<R, E, F: FnOnce(R) -> Result<Vec<u8>, E>>(read: F, h: R, x: Seq<u8>) -> bool {
    exists|y: Vec<u8>| read.ensures((h,), Ok::<Vec<u8>, E>(y)) && y@ == x
}

/// A store over a directory that reads each file the first time it is asked for.
#[derive(Debug)]
pub struct LazyLocalFiles<R> {
    root_url: Url,
    files: Vec<(Url, LazyFile<R>)>,
}

impl<R> LazyLocalFiles<R> {
    pub closed spec fn entries(&self) -> Seq<(Url, LazyFile<R>)> {
        self.files@
    }

    pub closed spec fn root(&self) -> Seq<char> {
        self.root_url@
    }

    /// What the store holds at `url`, fragment ignored.
    pub open spec fn state(&self, url: Seq<char>) -> Option<Option<Seq<u8>>> {
        lazy_state(assoc(self.entries(), strip_fragment(url)))
    }

    /// An empty store rooted at `epub:/`.
    pub fn new() -> (r: LazyLocalFiles<R>)
        ensures
            r.root() == epub_root_view(),
            r.entries().len() == 0,
    {
        LazyLocalFiles { root_url: Url::epub_root(), files: Vec::new() }
    }

    /// The root URL.
    pub fn root_url(&self) -> (r: &Url)
        ensures
            r@ == self.root(),
    {
        &self.root_url
    }

    /// Records `file`, not read yet, at `url`.
    pub fn insert(&mut self, url: Url, file: R)
        ensures
            final(self).root() == old(self).root(),
            lazy_state(assoc(final(self).entries(), url@)) == Some(None::<Seq<u8>>),
            forall|k: Seq<char>| k != url@ ==> assoc(final(self).entries(), k) == assoc(old(self).entries(), k),
    {
        self.files.push((url, LazyFile::NotLoaded(file)));
        assert(self.files@.drop_last() =~= old(self).files@);
    }

    /// The bytes at `url` (fragment ignored). The first request reads the file with `read`
    /// and keeps the bytes; later requests return the kept bytes and do not read again. A
    /// failed read is returned, and the file is dropped from the store.
    pub fn get<E, F: FnOnce(R) -> Result<Vec<u8>, E>>(&mut self, url: &Url, read: F) -> (r: Result<Option<Vec<u8>>, E>)
        requires
            forall|f: R| read.requires((f,)),
        ensures
            final(self).root() == old(self).root(),
            old(self).state(url@) is None ==> r == Ok::<Option<Vec<u8>>, E>(None) && final(self).entries() == old(self).entries(),
            old(self).state(url@) matches Some(Some(b)) ==> r matches Ok(Some(x)) && x@ == b
                && final(self).entries() == old(self).entries(),
            assoc(old(self).entries(), strip_fragment(url@)) matches Some(LazyFile::NotLoaded(h)) ==> match r {
                Ok(Some(x)) => final(self).state(url@) == Some(Some(x@)) && read_gave(read, h, x@),
                Ok(None) => false,
                Err(e) => read.ensures((h,), Err::<Vec<u8>, E>(e)),
            },
            forall|k: Seq<char>| k != strip_fragment(url@) ==> lazy_state(assoc(final(self).entries(), k))
                == lazy_state(assoc(old(self).entries(), k)),
    {
        let key = url.without_fragment();
        proof { lemma_assoc_index(self.files@, key@); }
        let i = match find_last(&self.files, &key) {
            Some(i) => i,
            None => return Ok(None),
        };
        if let LazyFile::Loaded(b) = &self.files[i].1 {
            return Ok(Some(copy_bytes(b)));
        }
        let ghost before = self.files@;
        let (u, entry) = self.files.remove(i);
        let file = match entry {
            LazyFile::NotLoaded(f) => f,
            LazyFile::Loaded(_) => {
                assert(false);
                return Ok(None);
            },
        };
        let ghost gf = file;
        let res = read(file);
        assert(read.ensures((gf,), res));
        match res {
            Ok(content) => {
                let copy = copy_bytes(&content);
                let ghost removed = self.files@;
                self.files.push((u, LazyFile::Loaded(content)));
                assert(self.files@.drop_last() =~= removed);
                proof {
                    assert(before[i as int].0 == u);
                    assert(before[i as int].0@ == key@);
                    assert(self.files@.last().0 == u);
                    lemma_assoc_move(before, i as int, self.files@);
                    assert(assoc(self.files@, key@) == Some(self.files@.last().1));
                    assert(self.files@.last().1 == LazyFile::<R>::Loaded(content));
                    assert(read.ensures((gf,), Ok::<Vec<u8>, E>(content)) && content@ == copy@);
                    assert(self.state(url@) == Some(Some(copy@)));
                    assert(read_gave(read, gf, copy@));
                }
                Ok(Some(copy))
            },
            Err(e) => {
                proof {
                    lemma_assoc_drop(before, i as int, self.files@);
                    assert(read.ensures((gf,), Err::<Vec<u8>, E>(e)));
                }
                Err(e)
            },
        }
    }
}

/// Taking out the last entry of a key leaves the other keys as they were.
proof fn lemma_assoc_drop<V>(s: Seq<(Url, V)>, i: int, t: Seq<(Url, V)>)
    requires
        0 <= i < s.len(),
        i == assoc_index(s, s[i].0@),
        t == s.remove(i),
    ensures
        forall|k: Seq<char>| k != s[i].0@ ==> assoc(t, k) == assoc(s, k),
    decreases s.len(),
{
    if i == s.len() - 1 {
        assert(t =~= s.drop_last());
        assert forall|k: Seq<char>| k != s[i].0@ implies assoc(t, k) == assoc(s, k) by {}
    } else {
        let s2 = s.drop_last();
        let t2 = t.drop_last();
        assert(t2 =~= s2.remove(i));
        assert(s2[i] == s[i]);
        assert(t.last() == s.last());
        assert(s.last().0@ != s[i].0@);
        assert(assoc_index(s2, s2[i].0@) == i);
        lemma_assoc_drop(s2, i, t2);
        assert forall|k: Seq<char>| k != s[i].0@ implies assoc(t, k) == assoc(s, k) by {
            if s.last().0@ != k {
                assert(assoc(t, k) == assoc(t2, k));
                assert(assoc(s, k) == assoc(s2, k));
            }
        }
    }
}

/// Moving the last entry of a key to the end, with a new value, sets that key alone.
proof fn lemma_assoc_move<V>(s: Seq<(Url, V)>, i: int, t: Seq<(Url, V)>)
    requires
        0 <= i < s.len(),
        i == assoc_index(s, s[i].0@),
        t.len() == s.len(),
        t.drop_last() == s.remove(i),
        t.last().0@ == s[i].0@,
    ensures
        forall|k: Seq<char>| k != s[i].0@ ==> assoc(t, k) == assoc(s, k),
        assoc(t, s[i].0@) == Some(t.last().1),
{
    lemma_assoc_drop(s, i, t.drop_last());
    assert forall|k: Seq<char>| k != s[i].0@ implies assoc(t, k) == assoc(s, k) by {
        assert(assoc(t, k) == assoc(t.drop_last(), k));
    }
}

} // verus!
