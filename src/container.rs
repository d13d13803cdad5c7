//! `META-INF/container.xml`: the list of package documents.
use vstd::prelude::*;
use crate::media_type::{MediaType, OEBPS};
use crate::url::{Url, joined_url};
use crate::xml::{XmlElement, attr, attr_of, child, child_index, lemma_child_index, parse_xml, xml_tree};
use crate::text::str_eq;

verus! {

/// A `rootfile`: the URL of a package document and its media type.
#[derive(Debug, PartialEq, Clone)]
pub struct Rootfile {
    pub full_path: Url,
    pub media_type: MediaType,
}

/// The container document: its root files, in document order.
#[derive(Debug, PartialEq, Clone)]
pub struct Container {
    pub rootfiles: Vec<Rootfile>,
}

/// Why a container document was refused.
#[derive(Debug, PartialEq, Clone)]
pub enum ContainerError {
    /// No `rootfiles` element, or one without `rootfile` entries.
    MissingRootfiles,
    MissingFullPath,
    MissingMediaType,
    /// A media type other than the package document's.
    InvalidMediaType(MediaType),
    /// A `full-path` that does not resolve to a URL.
    InvalidFullPath,
    /// The text is not well-formed XML; the parser's message.
    ParseError(String),
}

/// What one `rootfile` element gives.
pub enum RootfileOutcome {
    Valid(Seq<char>),
    NoFullPath,
    NoMediaType,
    BadPath,
    BadMediaType(Seq<char>),
}

/// The outcome of one `rootfile` element, resolved against `root`.
pub open spec fn rootfile_outcome(rf: XmlElement, root: Seq<char>) -> RootfileOutcome {
    match attr_of(rf, "full-path"@) {
        None => RootfileOutcome::NoFullPath,
        Some(p) => match attr_of(rf, "media-type"@) {
            None => RootfileOutcome::NoMediaType,
            Some(m) => match joined_url(root, p) {
                None => RootfileOutcome::BadPath,
                Some(u) => if m == OEBPS@ {
                    RootfileOutcome::Valid(u)
                } else {
                    RootfileOutcome::BadMediaType(m)
                },
            },
        },
    }
}

/// The children named `rootfile`, in order.
pub open spec fn rootfile_elems(cs: Seq<XmlElement>) -> Seq<XmlElement>
    decreases cs.len(),
{
    if cs.len() == 0 {
        seq![]
    } else if cs.last().name@ == "rootfile"@ {
        rootfile_elems(cs.drop_last()).push(cs.last())
    } else {
        rootfile_elems(cs.drop_last())
    }
}

/// Whether an error is the one an outcome calls for.
pub open spec fn error_for(e: ContainerError, o: RootfileOutcome) -> bool {
    match o {
        RootfileOutcome::NoFullPath => e is MissingFullPath,
        RootfileOutcome::NoMediaType => e is MissingMediaType,
        RootfileOutcome::BadPath => e is InvalidFullPath,
        RootfileOutcome::BadMediaType(m) => e matches ContainerError::InvalidMediaType(x) && x@ == m,
        RootfileOutcome::Valid(_) => false,
    }
}

/// What reading the tree of a container document gives: the root files of the first
/// `rootfiles` element, or the error of the first `rootfile` that fails.
pub open spec fn container_result(doc: XmlElement, root: Seq<char>, r: Result<Container, ContainerError>) -> bool {
    let i = child_index(doc.children@, "rootfiles"@);
    if i < 0 {
        r == Err::<Container, ContainerError>(ContainerError::MissingRootfiles)
    } else {
        let rfs = rootfile_elems(doc.children@[i].children@);
        if rfs.len() == 0 {
            r == Err::<Container, ContainerError>(ContainerError::MissingRootfiles)
        } else {
            match r {
                Ok(c) => c.rootfiles@.len() == rfs.len() && forall|k: int| 0 <= k < rfs.len() ==>
                    rootfile_outcome(#[trigger] rfs[k], root) == RootfileOutcome::Valid(c.rootfiles@[k].full_path@)
                    && c.rootfiles@[k].media_type@ == OEBPS@,
                Err(e) => exists|k: int| 0 <= k < rfs.len() && (forall|j: int| 0 <= j < k ==> rootfile_outcome(rfs[j], root) is Valid)
                    && error_for(e, #[trigger] rootfile_outcome(rfs[k], root)),
            }
        }
    }
}

proof fn lemma_rootfile_elems_step(cs: Seq<XmlElement>, i: int)
    requires
        0 <= i < cs.len(),
    ensures
        rootfile_elems(cs.take(i + 1)) == if cs[i].name@ == "rootfile"@ {
            rootfile_elems(cs.take(i)).push(cs[i])
        } else {
            rootfile_elems(cs.take(i))
        },
{
    assert(cs.take(i + 1).drop_last() =~= cs.take(i));
}

/// Checks one `rootfile` element.
fn read_rootfile(rf: &XmlElement, root: &Url) -> (r: Result<Rootfile, ContainerError>)
    ensures
        match r {
            Ok(x) => rootfile_outcome(*rf, root@) == RootfileOutcome::Valid(x.full_path@) && x.media_type@ == OEBPS@,
            Err(e) => error_for(e, rootfile_outcome(*rf, root@)),
        },
{
    proof {
        reveal_strlit("full-path");
        reveal_strlit("media-type");
    }
    let full_path = match attr(rf, "full-path") {
        Some(p) => p,
        None => return Err(ContainerError::MissingFullPath),
    };
    let media_type = match attr(rf, "media-type") {
        Some(m) => m,
        None => return Err(ContainerError::MissingMediaType),
    };
    let url = match root.join(full_path.as_str()) {
        Some(u) => u,
        None => return Err(ContainerError::InvalidFullPath),
    };
    let media_type = MediaType::new(media_type.as_str());
    if !media_type.is_oebps() {
        return Err(ContainerError::InvalidMediaType(media_type));
    }
    Ok(Rootfile { full_path: url, media_type })
}

/// Reads the root files out of the tree of a container document, resolving each `full-path`
/// against `root`.
pub fn container_from_tree(doc: &XmlElement, root: &Url) -> (r: Result<Container, ContainerError>)
    ensures
        container_result(*doc, root@, r),
{
    proof {
        reveal_strlit("rootfiles");
        reveal_strlit("rootfile");
        lemma_child_index(doc.children@, "rootfiles"@);
    }
    let rootfiles = match child(doc, "rootfiles") {
        Some(c) => c,
        None => return Err(ContainerError::MissingRootfiles),
    };
    let ghost cs = rootfiles.children@;
    let mut out: Vec<Rootfile> = Vec::new();
    let mut i: usize = 0;
    while i < rootfiles.children.len()
        invariant
            cs == rootfiles.children@,
            child_index(doc.children@, "rootfiles"@) >= 0,
            *rootfiles == doc.children@[child_index(doc.children@, "rootfiles"@)],
            i <= cs.len(),
            out@.len() == rootfile_elems(cs.take(i as int)).len(),
            forall|k: int| 0 <= k < out@.len() ==> rootfile_outcome(#[trigger] rootfile_elems(cs.take(i as int))[k], root@)
                == RootfileOutcome::Valid(out@[k].full_path@) && out@[k].media_type@ == OEBPS@,
        decreases cs.len() - i,
    {
        proof { lemma_rootfile_elems_step(cs, i as int); }
        let c = &rootfiles.children[i];
        if str_eq(c.name.as_str(), "rootfile") {
            match read_rootfile(c, root) {
                Ok(x) => {
                    out.push(x);
                },
                Err(e) => {
                    proof {
                        let rfs = rootfile_elems(cs);
                        lemma_rootfile_elems_prefix(cs, i as int + 1);
                        let k = out@.len() as int;
                        let pre = rootfile_elems(cs.take(i as int + 1));
                        assert(pre == rootfile_elems(cs.take(i as int)).push(*c));
                        assert(pre[k] == *c);
                        assert(k < rfs.len());
                        assert(rfs[k] == *c);
                        assert(error_for(e, rootfile_outcome(rfs[k], root@)));
                        assert forall|j: int| 0 <= j < k implies rootfile_outcome(rfs[j], root@) is Valid by {
                            assert(rfs[j] == pre[j]);
                            assert(pre[j] == rootfile_elems(cs.take(i as int))[j]);
                        }
                        assert(rfs.len() > 0);
                        assert(child_index(doc.children@, "rootfiles"@) >= 0);
                    }
                    return Err(e);
                },
            }
        }
        i = i + 1;
    }
    assert(cs.take(cs.len() as int) =~= cs);
    if out.len() == 0 {
        return Err(ContainerError::MissingRootfiles);
    }
    Ok(Container { rootfiles: out })
}

proof fn lemma_rootfile_elems_prefix(cs: Seq<XmlElement>, k: int)
    requires
        0 <= k <= cs.len(),
    ensures
        rootfile_elems(cs.take(k)).len() <= rootfile_elems(cs).len(),
        forall|j: int| 0 <= j < rootfile_elems(cs.take(k)).len() ==> rootfile_elems(cs)[j] == rootfile_elems(cs.take(k))[j],
    decreases cs.len() - k,
{
    if k < cs.len() {
        lemma_rootfile_elems_step(cs, k);
        lemma_rootfile_elems_prefix(cs, k + 1);
    } else {
        assert(cs.take(k) =~= cs);
    }
}

/// Parses the text of a container document; `root` is the logical root of the publication.
pub fn parse_container(s: &str, root: &Url) -> (r: Result<Container, ContainerError>)
    ensures
        match xml_tree(s@, Seq::empty()) {
            Some(doc) => container_result(doc, root@, r),
            None => r matches Err(ContainerError::ParseError(_)),
        },
{
    let known: Vec<crate::prefix::Prefix> = Vec::new();
    assert(crate::prefix::entries_view(known@) =~= Seq::empty());
    match parse_xml(s, &known) {
        Ok(doc) => container_from_tree(&doc, root),
        Err(m) => Err(ContainerError::ParseError(m)),
    }
}

} // verus!
