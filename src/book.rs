//! Book assembly: the container document, then each package document it lists.
use vstd::prelude::*;
use vstd::utf8::{decode_utf8, valid_utf8};
use crate::container::{Container, ContainerError, Rootfile, container_result, parse_container};
use crate::files::LocalFiles;
use crate::package::Package;
use crate::parser::{PackageError, PackageParser, ParseOptions, package_read};
use crate::xml::xml_tree;
use crate::prefix::{Prefixes, entries_view, reserved_view};
use crate::url::{Url, joined_url};

verus! {

/// Relies on `std::str::from_utf8`: it succeeds exactly on valid UTF-8 and decodes it.
#[verifier::external_body]
fn utf8_text(b: &[u8]) -> (r: Option<&str>)
    ensures
        match r {
            Some(s) => valid_utf8(b@) && s@ == decode_utf8(b@),
            None => !valid_utf8(b@),
        },
{
    std::str::from_utf8(b).ok()
}

/// A source of the files of a publication.
pub trait Files {
    /// The logical root of the files.
    spec fn root(&self) -> Seq<char>;

    /// What the source gives for `url`.
    spec fn stored(&self, url: Seq<char>) -> Option<Seq<u8>>;

    /// The root URL of the files.
    fn root_url(&self) -> (r: &Url)
        ensures
            r@ == self.root(),
    ;

    /// The content of the file at `url`.
    fn get(&mut self, url: &Url) -> (r: Option<Vec<u8>>)
        ensures
            final(self).root() == old(self).root(),
            forall|u: Seq<char>| final(self).stored(u) == old(self).stored(u),
            match r {
                Some(b) => old(self).stored(url@) == Some(b@),
                None => old(self).stored(url@) is None,
            },
    ;
}

impl Files for LocalFiles {
    open spec fn root(&self) -> Seq<char> {
        LocalFiles::root(self)
    }

    open spec fn stored(&self, url: Seq<char>) -> Option<Seq<u8>> {
        self.content(url)
    }

    fn root_url(&self) -> (r: &Url) {
        LocalFiles::root_url(self)
    }

    fn get(&mut self, url: &Url) -> (r: Option<Vec<u8>>) {
        match LocalFiles::get(self, url) {
            Some(b) => Some(crate::files::copy_bytes(b)),
            None => None,
        }
    }
}

/// A book: the packages of all its root files, in container order.
#[derive(Debug)]
pub struct EpubBook(pub Vec<Package>);

impl EpubBook {
    /// The packages.
    pub fn packages(&self) -> (r: &Vec<Package>)
        ensures
            r@ == self.0@,
    {
        &self.0
    }
}

/// Why a book could not be read.
#[derive(Debug, PartialEq, Clone)]
pub enum ParseBookError {
    MissingContainer,
    /// A root file that the store does not have; its URL.
    MissingPackage(String),
    UrlParseError,
    ParseContainerError(ContainerError),
    ParsePackageError(PackageError),
    Utf8Error,
}

/// Where the container document of a publication rooted at `root` lives.
pub open spec fn container_location(root: Seq<char>) -> Option<Seq<char>> {
    joined_url(root, "META-INF/container.xml"@)
}

/// The URL of the container document under `root`.
pub fn container_url(root: &Url) -> (r: Result<Url, ParseBookError>)
    ensures
        match r {
            Ok(u) => container_location(root@) == Some(u@),
            Err(e) => container_location(root@) is None && e == ParseBookError::UrlParseError,
        },
{
    proof { reveal_strlit("META-INF/container.xml"); }
    match root.join("META-INF/container.xml") {
        Some(u) => Ok(u),
        None => Err(ParseBookError::UrlParseError),
    }
}

/// What reading the container text `b` under `root` gives, once it is known to be UTF-8.
pub open spec fn container_text_result(b: Seq<u8>, root: Seq<char>, r: Result<Container, ParseBookError>) -> bool {
    match xml_tree(decode_utf8(b), Seq::empty()) {
        None => r matches Err(ParseBookError::ParseContainerError(ContainerError::ParseError(_))),
        Some(doc) => match r {
            Ok(c) => container_result(doc, root, Ok(c)),
            Err(ParseBookError::ParseContainerError(e)) => container_result(doc, root, Err(e)),
            Err(_) => false,
        },
    }
}

/// Reads the container document from its bytes, if the store had it.
pub fn read_container(data: Option<&Vec<u8>>, root: &Url) -> (r: Result<Container, ParseBookError>)
    ensures
        match data {
            None => r == Err::<Container, ParseBookError>(ParseBookError::MissingContainer),
            Some(b) => if valid_utf8(b@) {
                container_text_result(b@, root@, r)
            } else {
                r == Err::<Container, ParseBookError>(ParseBookError::Utf8Error)
            },
        },
        r matches Ok(c) ==> c.rootfiles@.len() > 0,
{
    let bytes = match data {
        Some(b) => b,
        None => return Err(ParseBookError::MissingContainer),
    };
    let text = match utf8_text(bytes.as_slice()) {
        Some(t) => t,
        None => return Err(ParseBookError::Utf8Error),
    };
    match parse_container(text, root) {
        Ok(c) => Ok(c),
        Err(e) => Err(ParseBookError::ParseContainerError(e)),
    }
}

/// A parser for the packages of `container`: every package is resolved against the first
/// root file's URL.
pub fn package_parser_for(container: &Container) -> (r: PackageParser)
    requires
        container.rootfiles@.len() > 0,
    ensures
        r.options.base_url@ == container.rootfiles@[0].full_path@,
        entries_view(r.options.reserved_prefixes.entries()) == reserved_view(),
{
    let options = ParseOptions { base_url: container.rootfiles[0].full_path.copy(), reserved_prefixes: Prefixes::reserved() };
    PackageParser::new(options)
}

/// What reading the package bytes `b` gives, once they are known to be UTF-8.
pub open spec fn package_text_result(b: Seq<u8>, base: Seq<char>, r: Result<Package, ParseBookError>) -> bool {
    match r {
        Ok(p) => package_read(decode_utf8(b), base, reserved_view(), Ok(p)),
        Err(ParseBookError::ParsePackageError(e)) => package_read(decode_utf8(b), base, reserved_view(), Err(e)),
        Err(_) => false,
    }
}

/// Reads the package of `rootfile` from its bytes, if the store had them.
pub fn read_package(parser: &mut PackageParser, rootfile: &Rootfile, data: Option<&Vec<u8>>) -> (r: Result<Package, ParseBookError>)
    requires
        entries_view(old(parser).options.reserved_prefixes.entries()) == reserved_view(),
    ensures
        final(parser).options == old(parser).options,
        match data {
            None => r matches Err(ParseBookError::MissingPackage(u)) && u@ == rootfile.full_path@,
            Some(b) => if valid_utf8(b@) {
                package_text_result(b@, old(parser).options.base_url@, r)
            } else {
                r == Err::<Package, ParseBookError>(ParseBookError::Utf8Error)
            },
        },
{
    let bytes = match data {
        Some(b) => b,
        None => return Err(ParseBookError::MissingPackage(rootfile.full_path.as_str().to_owned())),
    };
    let text = match utf8_text(bytes.as_slice()) {
        Some(t) => t,
        None => return Err(ParseBookError::Utf8Error),
    };
    match parser.parse(text) {
        Ok(p) => Ok(p),
        Err(e) => Err(ParseBookError::ParsePackageError(e)),
    }
}

/// The bytes of the container document in the store `files`, if it has them.
pub open spec fn container_bytes<F: Files>(files: F) -> Option<Seq<u8>> {
    match container_location(files.root()) {
        Some(u) => files.stored(u),
        None => None,
    }
}

/// Whether `c` is the container that the store `files` gives: its container document is there,
/// UTF-8, and reads as `c`.
pub open spec fn container_from_store<F: Files>(files: F, c: Container) -> bool {
    &&& container_location(files.root()) is Some
    &&& files.stored(container_location(files.root())->0) is Some
    &&& valid_utf8(files.stored(container_location(files.root())->0)->0)
    &&& container_text_result(files.stored(container_location(files.root())->0)->0, files.root(), Ok(c))
}

/// The bytes the store gives for the root file `k` of `c`.
pub open spec fn rootfile_bytes<F: Files>(files: F, c: Container, k: int) -> Option<Seq<u8>> {
    files.stored(c.rootfiles@[k].full_path@)
}

/// Whether the root file `k` of `c` reads, against the first root file's URL, as `r`.
pub open spec fn rootfile_reads<F: Files>(files: F, c: Container, k: int, r: Result<Package, ParseBookError>) -> bool {
    match rootfile_bytes(files, c, k) {
        None => r matches Err(ParseBookError::MissingPackage(u)) && u@ == c.rootfiles@[k].full_path@,
        Some(b) => if valid_utf8(b) {
            package_text_result(b, c.rootfiles@[0].full_path@, r)
        } else {
            r == Err::<Package, ParseBookError>(ParseBookError::Utf8Error)
        },
    }
}

/// Whether the root file `k` of `c` reads as a package.
pub open spec fn rootfile_ok<F: Files>(files: F, c: Container, k: int) -> bool {
    exists|p: Package| #[trigger] rootfile_reads(files, c, k, Ok(p))
}

/// Reads a book from `files`: the container document under the root URL, then each package
/// document it lists, in order, all resolved against the first root file's URL. The first
/// failure ends the read.
pub fn parse_book<F: Files>(files: &mut F) -> (r: Result<EpubBook, ParseBookError>)
    ensures
        (r == Err::<EpubBook, ParseBookError>(ParseBookError::UrlParseError)) <==> container_location(old(files).root()) is None,
        (r == Err::<EpubBook, ParseBookError>(ParseBookError::MissingContainer)) <==> (container_location(old(files).root()) is Some
            && old(files).stored(container_location(old(files).root())->0) is None),
        container_bytes(*old(files)) matches Some(b) ==> (!valid_utf8(b) ==> r == Err::<EpubBook, ParseBookError>(ParseBookError::Utf8Error)),
        container_bytes(*old(files)) matches Some(b) ==> (valid_utf8(b) ==> match r {
            Ok(book) => exists|c: Container| #[trigger] container_from_store(*old(files), c)
                && book.0@.len() == c.rootfiles@.len()
                && forall|k: int| 0 <= k < c.rootfiles@.len() ==> rootfile_reads(*old(files), c, k, Ok(#[trigger] book.0@[k])),
            Err(e) => container_text_result(b, old(files).root(), Err::<Container, ParseBookError>(e))
                || exists|c: Container, k: int| #[trigger] container_from_store(*old(files), c) && 0 <= k < c.rootfiles@.len()
                    && (forall|j: int| 0 <= j < k ==> #[trigger] rootfile_ok(*old(files), c, j))
                    && #[trigger] rootfile_reads(*old(files), c, k, Err(e)),
        }),
{
    let root = files.root_url().copy();
    let url = container_url(&root)?;
    let data = files.get(&url);
    let container = read_container(data.as_ref(), &root)?;
    let mut parser = package_parser_for(&container);
    let ghost base = parser.options.base_url@;
    let ghost f0 = *old(files);
    assert(container_from_store(f0, container));
    let mut packages: Vec<Package> = Vec::new();
    let mut i: usize = 0;
    while i < container.rootfiles.len()
        invariant
            f0 == *old(files),
            forall|u: Seq<char>| files.stored(u) == f0.stored(u),
            container_from_store(f0, container),
            container.rootfiles@.len() > 0,
            parser.options.base_url@ == base,
            base == container.rootfiles@[0].full_path@,
            entries_view(parser.options.reserved_prefixes.entries()) == reserved_view(),
            i <= container.rootfiles@.len(),
            packages@.len() == i,
            forall|k: int| 0 <= k < i ==> rootfile_reads(f0, container, k, Ok(#[trigger] packages@[k])),
        decreases container.rootfiles@.len() - i,
    {
        let rootfile = &container.rootfiles[i];
        let data = files.get(&rootfile.full_path);
        let rp = read_package(&mut parser, rootfile, data.as_ref());
        assert(rootfile_reads(f0, container, i as int, rp));
        match rp {
            Ok(p) => {
                let ghost before = packages@;
                packages.push(p);
                assert(forall|k: int| 0 <= k < i ==> packages@[k] == before[k]);
            },
            Err(e) => {
                proof {
                    assert forall|j: int| 0 <= j < i implies #[trigger] rootfile_ok(f0, container, j) by {
                        assert(rootfile_reads(f0, container, j, Ok(packages@[j])));
                    }
                }
                return Err(e);
            },
        }
        i = i + 1;
    }
    Ok(EpubBook(packages))
}

} // verus!
