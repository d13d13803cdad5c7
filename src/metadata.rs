//! The metadata section of a package document.
use vstd::prelude::*;
use crate::media_type::MediaType;
use crate::prefix::{DC_URI, DCTERMS_URI, Prefix};
use crate::property::{Properties, Property, WithNamespace};
use crate::url::{Url, joined_url, parsed_url};

verus! {

/// The instant an RFC 3339 text names, as seconds and nanoseconds since the Unix epoch in UTC;
/// `None` where the text is not RFC 3339 with an explicit offset.
pub uninterp spec fn rfc3339_instant(s: Seq<char>) -> Option<(int, int)>;

/// Relies on `chrono::DateTime::parse_from_rfc3339`, and on `timestamp` and
/// `timestamp_subsec_nanos` of its result to read the instant.
#[verifier::external_body]
fn parse_rfc3339(s: &str) -> (r: Option<(i64, u32)>)
    ensures
        match r {
            Some(t) => rfc3339_instant(s@) == Some((t.0 as int, t.1 as int)),
            None => rfc3339_instant(s@) is None,
        },
{
    chrono::DateTime::parse_from_rfc3339(s).ok().map(|d| (d.timestamp(), d.timestamp_subsec_nanos()))
}

/// An instant in UTC: seconds since the Unix epoch and the nanoseconds past that second.
#[derive(Debug, PartialEq, Eq, Clone, Copy, Structural)]
pub struct Timestamp {
    pub secs: i64,
    pub nanos: u32,
}

/// A Dublin Core element of the metadata.
#[derive(Debug, PartialEq, Clone)]
pub struct MetadataElement {
    pub id: Option<String>,
    pub lang: Option<String>,
    pub dir: Option<String>,
    pub tag_name: WithNamespace,
}

/// The URL that a `refines` attribute points at.
#[derive(Debug, PartialEq, Clone)]
pub struct Refines(pub Url);

/// A `refines` value that is no URL.
#[derive(Debug, PartialEq, Clone)]
pub struct RefinesError;

impl Refines {
    pub fn new(url: Url) -> (r: Refines)
        ensures
            r.0 == url,
    {
        Refines(url)
    }

    /// Parses an absolute URL.
    pub fn from_string(url: &str) -> (r: Result<Refines, RefinesError>)
        ensures
            match r {
                Ok(x) => parsed_url(url@) == Some(x.0@),
                Err(_) => parsed_url(url@) is None,
            },
    {
        match Url::parse(url) {
            Some(u) => Ok(Refines(u)),
            None => Err(RefinesError),
        }
    }

    /// Resolves `relative` (often `#id`) against `base_url`.
    pub fn from_relative_url(relative: &str, base_url: &Url) -> (r: Result<Refines, RefinesError>)
        ensures
            match r {
                Ok(x) => joined_url(base_url@, relative@) == Some(x.0@),
                Err(_) => joined_url(base_url@, relative@) is None,
            },
    {
        match base_url.join(relative) {
            Some(u) => Ok(Refines(u)),
            None => Err(RefinesError),
        }
    }
}

/// A `meta` element: a property of the publication or of what it refines.
#[derive(Debug, PartialEq, Clone)]
pub struct Meta {
    pub id: Option<String>,
    pub lang: Option<String>,
    pub dir: Option<String>,
    pub property: Property,
    pub refines: Option<Refines>,
    pub scheme: Option<Property>,
    pub value: String,
}

/// A `link` element: a resource linked to the publication.
#[derive(Debug, PartialEq, Clone)]
pub struct Link {
    pub id: Option<String>,
    pub href: Url,
    pub rel: Properties,
    pub hreflang: Option<String>,
    pub media_type: Option<MediaType>,
    pub property: Option<Property>,
    pub refines: Option<Refines>,
    pub value: String,
}

/// Why the metadata section is not valid.
#[derive(Debug, PartialEq, Clone)]
pub enum MetadataCheckError {
    /// No element of this Dublin Core type (`title`, `language` or `identifier`).
    MissingElementError(String),
    /// Not exactly one `dcterms:modified` meta.
    MissingLastModifiedError(String),
    /// The `dcterms:modified` value is not an RFC 3339 date-time.
    DateParseError(String),
}

/// The Dublin Core element `dc:<name>`.
pub open spec fn dc_tag(name: Seq<char>) -> (Seq<char>, Seq<char>) {
    (DC_URI@, name)
}

/// The `dcterms:modified` property.
pub open spec fn modified_property() -> (Seq<char>, Seq<char>) {
    (DCTERMS_URI@, "modified"@)
}

/// The elements with the tag `tag`, in order.
pub open spec fn tagged(elems: Seq<MetadataElement>, tag: (Seq<char>, Seq<char>)) -> Seq<MetadataElement>
    decreases elems.len(),
{
    if elems.len() == 0 {
        seq![]
    } else if elems.last().tag_name@ == tag {
        tagged(elems.drop_last(), tag).push(elems.last())
    } else {
        tagged(elems.drop_last(), tag)
    }
}

/// Whether some element has the tag `tag`.
pub open spec fn has_tag(elems: Seq<MetadataElement>, tag: (Seq<char>, Seq<char>)) -> bool {
    exists|i: int| 0 <= i < elems.len() && elems[i].tag_name@ == tag
}

/// How many metas have the `dcterms:modified` property.
pub open spec fn modified_count(metas: Seq<Meta>) -> nat
    decreases metas.len(),
{
    if metas.len() == 0 {
        0
    } else {
        modified_count(metas.drop_last()) + if metas.last().property@ == modified_property() { 1nat } else { 0nat }
    }
}

/// The value of the one `dcterms:modified` meta.
pub open spec fn modified_value(metas: Seq<Meta>) -> Seq<char> {
    metas[choose|i: int| 0 <= i < metas.len() && metas[i].property@ == modified_property()].value@
}

/// Whether the three required element types are present.
pub open spec fn has_required_elements(elems: Seq<MetadataElement>) -> bool {
    has_tag(elems, dc_tag("title"@)) && has_tag(elems, dc_tag("language"@)) && has_tag(elems, dc_tag("identifier"@))
}

/// What checking the metadata gives: success exactly when the three required element types,
/// one `dcterms:modified` meta and an RFC 3339 value are there; otherwise the first failing check.
pub open spec fn metadata_outcome(elems: Seq<MetadataElement>, metas: Seq<Meta>, links: Seq<Link>, r: Result<Metadata, MetadataCheckError>) -> bool {
    &&& (r is Ok <==> has_required_elements(elems) && modified_count(metas) == 1
                && rfc3339_instant(modified_value(metas)) is Some)
    &&& (r matches Ok(m) ==> m.elem_seq() == elems && m.meta_seq() == metas && m.link_seq() == links
                && rfc3339_instant(modified_value(metas)) == Some(
                    (m.last_modified_spec().secs as int, m.last_modified_spec().nanos as int),
                ))
    &&& (r matches Err(MetadataCheckError::MissingElementError(x)) ==> !has_required_elements(elems) && x@ == (
                if !has_tag(elems, dc_tag("title"@)) { "title"@ }
                else if !has_tag(elems, dc_tag("language"@)) { "language"@ }
                else { "identifier"@ }))
    &&& (!has_required_elements(elems) ==> r matches Err(MetadataCheckError::MissingElementError(_)))
    &&& ((r matches Err(MetadataCheckError::MissingLastModifiedError(_))) <==> has_required_elements(elems)
                && modified_count(metas) != 1)
    &&& ((r matches Err(MetadataCheckError::DateParseError(_))) <==> has_required_elements(elems)
                && modified_count(metas) == 1 && rfc3339_instant(modified_value(metas)) is None)
    &&& (r matches Err(MetadataCheckError::MissingLastModifiedError(x)) ==> x@ == "dcterms:modified"@)
}

/// The metadata section: Dublin Core elements, metas, links and the last-modified instant.
#[derive(Debug, Clone)]
pub struct Metadata {
    elems: Vec<MetadataElement>,
    metas: Vec<Meta>,
    links: Vec<Link>,
    last_modified: Timestamp,
}

proof fn lemma_modified_count_prefix(metas: Seq<Meta>, i: int)
    requires
        0 <= i < metas.len(),
    ensures
        modified_count(metas.take(i + 1)) == modified_count(metas.take(i)) + if metas[i].property@ == modified_property() { 1nat } else { 0nat },
{
    assert(metas.take(i + 1).drop_last() =~= metas.take(i));
}

proof fn lemma_modified_unique(metas: Seq<Meta>, k: int)
    requires
        modified_count(metas) == 1,
        0 <= k < metas.len(),
        metas[k].property@ == modified_property(),
    ensures
        forall|j: int| 0 <= j < metas.len() && metas[j].property@ == modified_property() ==> j == k,
    decreases metas.len(),
{
    let t = metas.drop_last();
    let n = metas.len() - 1;
    assert forall|j: int| 0 <= j < t.len() implies t[j] == metas[j] by {}
    if k == n {
        lemma_modified_none(t);
    } else {
        if metas[n].property@ == modified_property() {
            lemma_modified_some(t, k);
        } else {
            lemma_modified_unique(t, k);
        }
    }
}

proof fn lemma_modified_some(metas: Seq<Meta>, k: int)
    requires
        0 <= k < metas.len(),
        metas[k].property@ == modified_property(),
    ensures
        modified_count(metas) >= 1,
    decreases metas.len(),
{
    if k < metas.len() - 1 {
        assert(metas.drop_last()[k] == metas[k]);
        lemma_modified_some(metas.drop_last(), k);
    }
}

proof fn lemma_modified_none(metas: Seq<Meta>)
    requires
        modified_count(metas) == 0,
    ensures
        forall|j: int| 0 <= j < metas.len() ==> metas[j].property@ != modified_property(),
{
    assert forall|j: int| 0 <= j < metas.len() implies metas[j].property@ != modified_property() by {
        if metas[j].property@ == modified_property() {
            lemma_modified_some(metas, j);
        }
    }
}

/// Looks for an element with the tag `tag`.
fn find_tag(elems: &Vec<MetadataElement>, tag: &WithNamespace) -> (r: bool)
    ensures
        r == has_tag(elems@, tag@),
{
    let mut i: usize = 0;
    while i < elems.len()
        invariant
            i <= elems@.len(),
            forall|k: int| 0 <= k < i ==> elems@[k].tag_name@ != tag@,
        decreases elems@.len() - i,
    {
        if elems[i].tag_name.same(tag) {
            return true;
        }
        i = i + 1;
    }
    false
}

impl Metadata {
    pub closed spec fn elem_seq(&self) -> Seq<MetadataElement> {
        self.elems@
    }

    pub closed spec fn meta_seq(&self) -> Seq<Meta> {
        self.metas@
    }

    pub closed spec fn link_seq(&self) -> Seq<Link> {
        self.links@
    }

    pub closed spec fn last_modified_spec(&self) -> Timestamp {
        self.last_modified
    }

    /// Checks and builds the metadata. The checks run in this order: a `dc:title`, a
    /// `dc:language` and a `dc:identifier` element, exactly one `dcterms:modified` meta,
    /// and an RFC 3339 value of that meta.
    pub fn new(elems: Vec<MetadataElement>, metas: Vec<Meta>, links: Vec<Link>) -> (r: Result<Metadata, MetadataCheckError>)
        ensures
            metadata_outcome(elems@, metas@, links@, r),
    {
        let dc = Prefix::dc();
        let title = WithNamespace::from_prefix(&dc, "title".to_string());
        let language = WithNamespace::from_prefix(&dc, "language".to_string());
        let identifier = WithNamespace::from_prefix(&dc, "identifier".to_string());
        proof {
            reveal_strlit("title");
            reveal_strlit("language");
            reveal_strlit("identifier");
            reveal_strlit("modified");
        }
        if !find_tag(&elems, &title) {
            return Err(MetadataCheckError::MissingElementError("title".to_string()));
        }
        if !find_tag(&elems, &language) {
            return Err(MetadataCheckError::MissingElementError("language".to_string()));
        }
        if !find_tag(&elems, &identifier) {
            return Err(MetadataCheckError::MissingElementError("identifier".to_string()));
        }
        let modified = Property::from_prefix(&Prefix::dcterms(), "modified".to_string());
        let ghost ms = metas@;
        let mut found: Option<usize> = None;
        let mut i: usize = 0;
        while i < metas.len()
            invariant
                ms == metas@,
                has_required_elements(elems@),
                modified@ == modified_property(),
                i <= ms.len(),
                match found {
                    Some(k) => k < i && ms[k as int].property@ == modified_property() && modified_count(ms.take(i as int)) == 1,
                    None => modified_count(ms.take(i as int)) == 0,
                },
            decreases ms.len() - i,
        {
            proof { lemma_modified_count_prefix(ms, i as int); }
            if metas[i].property.same(&modified) {
                if found.is_some() {
                    proof { lemma_modified_more(ms, i as int + 1); }
                    return Err(MetadataCheckError::MissingLastModifiedError("dcterms:modified".to_string()));
                }
                found = Some(i);
            }
            i = i + 1;
        }
        assert(ms.take(ms.len() as int) =~= ms);
        match found {
            None => Err(MetadataCheckError::MissingLastModifiedError("dcterms:modified".to_string())),
            Some(k) => {
                proof {
                    lemma_modified_unique(ms, k as int);
                    let c = choose|c: int| 0 <= c < ms.len() && ms[c].property@ == modified_property();
                    assert(c == k);
                }
                match parse_rfc3339(metas[k].value.as_str()) {
                    Some(t) => Ok(Metadata { elems, metas, links, last_modified: Timestamp { secs: t.0, nanos: t.1 } }),
                    None => Err(MetadataCheckError::DateParseError(metas[k].value.clone())),
                }
            },
        }
    }

    /// The elements with the tag `tag`, each once, in document order.
    pub fn elements_with(&self, tag: &WithNamespace) -> (r: Vec<&MetadataElement>)
        ensures
            r@.len() == tagged(self.elem_seq(), tag@).len(),
            forall|k: int| 0 <= k < r@.len() ==> *(#[trigger] r@[k]) == tagged(self.elem_seq(), tag@)[k],
    {
        let mut out: Vec<&MetadataElement> = Vec::new();
        let mut i: usize = 0;
        while i < self.elems.len()
            invariant
                i <= self.elems@.len(),
                out@.len() == tagged(self.elems@.take(i as int), tag@).len(),
                forall|k: int| 0 <= k < out@.len() ==> *(#[trigger] out@[k]) == tagged(self.elems@.take(i as int), tag@)[k],
            decreases self.elems@.len() - i,
        {
            assert(self.elems@.take(i as int + 1).drop_last() =~= self.elems@.take(i as int));
            assert(self.elems@.take(i as int + 1).last() == self.elems@[i as int]);
            let e = &self.elems[i];
            let ghost before = out@;
            if e.tag_name.same(tag) {
                out.push(e);
                assert(forall|k: int| 0 <= k < before.len() ==> out@[k] == before[k]);
            }
            i = i + 1;
        }
        assert(self.elems@.take(self.elems@.len() as int) =~= self.elems@);
        out
    }

    /// The `dc:title` elements.
    pub fn titles(&self) -> (r: Vec<&MetadataElement>)
        ensures
            r@.len() == tagged(self.elem_seq(), dc_tag("title"@)).len(),
            forall|k: int| 0 <= k < r@.len() ==> *(#[trigger] r@[k]) == tagged(self.elem_seq(), dc_tag("title"@))[k],
    {
        proof { reveal_strlit("title"); }
        self.elements_with(&WithNamespace::from_prefix(&Prefix::dc(), "title".to_string()))
    }

    /// The `dc:language` elements.
    pub fn languages(&self) -> (r: Vec<&MetadataElement>)
        ensures
            r@.len() == tagged(self.elem_seq(), dc_tag("language"@)).len(),
            forall|k: int| 0 <= k < r@.len() ==> *(#[trigger] r@[k]) == tagged(self.elem_seq(), dc_tag("language"@))[k],
    {
        proof { reveal_strlit("language"); }
        self.elements_with(&WithNamespace::from_prefix(&Prefix::dc(), "language".to_string()))
    }

    /// The `dc:identifier` elements.
    pub fn identifiers(&self) -> (r: Vec<&MetadataElement>)
        ensures
            r@.len() == tagged(self.elem_seq(), dc_tag("identifier"@)).len(),
            forall|k: int| 0 <= k < r@.len() ==> *(#[trigger] r@[k]) == tagged(self.elem_seq(), dc_tag("identifier"@))[k],
    {
        proof { reveal_strlit("identifier"); }
        self.elements_with(&WithNamespace::from_prefix(&Prefix::dc(), "identifier".to_string()))
    }

    /// All metas, in document order.
    pub fn metas(&self) -> (r: &Vec<Meta>)
        ensures
            r@ == self.meta_seq(),
    {
        &self.metas
    }

    /// All links, in document order.
    pub fn links(&self) -> (r: &Vec<Link>)
        ensures
            r@ == self.link_seq(),
    {
        &self.links
    }

    /// The instant of the last modification.
    pub fn last_modified(&self) -> (r: Timestamp)
        ensures
            r == self.last_modified_spec(),
    {
        self.last_modified
    }
}

proof fn lemma_modified_more(metas: Seq<Meta>, k: int)
    requires
        0 <= k <= metas.len(),
    ensures
        modified_count(metas) >= modified_count(metas.take(k)),
    decreases metas.len() - k,
{
    if k < metas.len() {
        lemma_modified_count_prefix(metas, k);
        lemma_modified_more(metas, k + 1);
    } else {
        assert(metas.take(k) =~= metas);
    }
}

} // verus!
