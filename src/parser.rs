//! The package-document parser: a visitor over the element tree that keeps the stack of
//! prefix scopes in force at each element.
use vstd::prelude::*;
use vstd::string::*;
use crate::manifest::{Manifest, ManifestCheckError, Resource, manifest_outcome};
use crate::media_type::MediaType;
use crate::metadata::{Link, Meta, Metadata, MetadataCheckError, MetadataElement, Refines,
    has_required_elements, metadata_outcome, modified_count};
use crate::package::Package;
use crate::prefix::{DC_URI, Prefix, Prefixes, PrefixesStack, copy_prefixes, entries_view, lemma_push_scope, lemma_single_scope,
    no_resolution, parse_prefix_attr, prefix_bindings, stack_resolution, within};
use crate::property::{Properties, Property, WithNamespace, qname_local, qname_prefix};
use crate::text::tokens;
use crate::spine::{Spine, SpineReference};
use crate::text::{owned, str_eq};
use crate::url::{Url, joined_url};
use crate::xml::{XmlElement, attr, attr_of, child, child_index, lemma_child_index, parse_xml, xml_attr, xml_tree};

verus! {

/// Why a package document was refused.
#[derive(Debug, PartialEq, Clone)]
pub enum PackageError {
    /// The text is not well-formed XML; the parser's message.
    ParseError(String),
    InvalidElementError(String),
    InvalidElementAttrError(String),
    ManifestCheckError(ManifestCheckError),
    MetadataCheckError(MetadataCheckError),
    UnsupportedVersion(String),
}

/// What stays fixed while parsing: the base URL of relative references and the reserved
/// prefixes.
#[derive(Debug, PartialEq, Clone)]
pub struct ParseOptions {
    pub base_url: Url,
    pub reserved_prefixes: Prefixes,
}

/// What changes while parsing: the prefix scopes in force.
#[derive(Debug)]
pub struct ParseState {
    pub prefixes_stack: PrefixesStack,
}

/// Parses package documents; one parser may serve several documents in turn.
#[derive(Debug)]
pub struct PackageParser {
    pub options: ParseOptions,
    pub parse_state: ParseState,
}

fn concat(a: &str, b: &str) -> (r: String)
    ensures
        r@ == a@ + b@,
{
    owned(a).concat(b)
}

fn missing(name: &str) -> (r: PackageError)
    ensures
        r matches PackageError::InvalidElementAttrError(m) && m@ == name@ + " is missing"@,
{
    PackageError::InvalidElementAttrError(concat(name, " is missing"))
}

fn invalid(name: &str, value: &str) -> (r: PackageError)
    ensures
        r matches PackageError::InvalidElementAttrError(m) && m@ == name@ + " is invalid: "@ + value@,
{
    let m = concat(name, " is invalid: ");
    PackageError::InvalidElementAttrError(m.concat(value))
}

/// A copy of the attribute `name`, if present.
fn opt_attr(e: &XmlElement, name: &str) -> (r: Option<String>)
    ensures
        crate::text::opt_view(r) == attr_of(*e, name@),
{
    match attr(e, name) {
        Some(v) => Some(v.clone()),
        None => None,
    }
}

/// A copy of the attribute `name`, which must be present.
fn req_attr(e: &XmlElement, name: &str) -> (r: Result<String, PackageError>)
    ensures
        match r {
            Ok(v) => attr_of(*e, name@) == Some(v@),
            Err(x) => attr_of(*e, name@) is None && fault_is(x, Fault::Attr(missing_msg(name@))),
        },
{
    match attr(e, name) {
        Some(v) => Ok(v.clone()),
        None => Err(missing(name)),
    }
}

/// Reads the `linear` attribute: `true`, `false`, or absent.
pub open spec fn linear_value(v: Option<Seq<char>>) -> Option<Option<bool>> {
    match v {
        None => Some(None),
        Some(s) => if s == "true"@ {
            Some(Some(true))
        } else if s == "false"@ {
            Some(Some(false))
        } else {
            None
        },
    }
}

/// Whether `m` is what the `meta` element `e` gives, its names resolved through `stack` and its
/// `refines` against `base`.
pub open spec fn meta_matches(e: XmlElement, base: Seq<char>, res: spec_fn(Option<Seq<char>>) -> Option<Seq<char>>, m: Meta) -> bool {
    &&& e.name@ == "meta"@
    &&& crate::text::opt_view(m.id) == attr_of(e, "id"@)
    &&& crate::text::opt_view(m.dir) == attr_of(e, "dir"@)
    &&& crate::text::opt_view(m.lang) == crate::xml::xml_attr_of(e, "lang"@)
    &&& attr_of(e, "property"@) is Some
    &&& res(qname_prefix(attr_of(e, "property"@)->0)) == Some(m.property@.0)
    &&& m.property@.1 == qname_local(attr_of(e, "property"@)->0)
    &&& match m.refines {
        Some(x) => attr_of(e, "refines"@) is Some && joined_url(base, attr_of(e, "refines"@)->0) == Some(x.0@),
        None => attr_of(e, "refines"@) is None,
    }
    &&& match m.scheme {
        Some(x) => attr_of(e, "scheme"@) is Some && res(qname_prefix(attr_of(e, "scheme"@)->0)) == Some(x@.0)
            && x@.1 == qname_local(attr_of(e, "scheme"@)->0),
        None => attr_of(e, "scheme"@) is None,
    }
    &&& m.value@ == e.text@
}

/// Whether `l` is what the `link` element `e` gives, its `href` resolved against `base` and its
/// `rel` and `properties` through `res`.
pub open spec fn link_matches(e: XmlElement, base: Seq<char>, res: spec_fn(Option<Seq<char>>) -> Option<Seq<char>>, l: Link) -> bool {
    &&& e.name@ == "link"@
    &&& crate::text::opt_view(l.id) == attr_of(e, "id"@)
    &&& attr_of(e, "href"@) is Some
    &&& joined_url(base, attr_of(e, "href"@)->0) == Some(l.href@)
    &&& attr_of(e, "rel"@) is Some
    &&& l.rel@ == resolved_tokens(attr_of(e, "rel"@)->0, res)
    &&& match l.property {
        Some(x) => attr_of(e, "properties"@) is Some && res(qname_prefix(attr_of(e, "properties"@)->0)) == Some(x@.0)
            && x@.1 == qname_local(attr_of(e, "properties"@)->0),
        None => attr_of(e, "properties"@) is None,
    }
    &&& crate::text::opt_view(l.hreflang) == attr_of(e, "hreflang"@)
    &&& match l.media_type {
        Some(x) => attr_of(e, "media-type"@) == Some(x@),
        None => attr_of(e, "media-type"@) is None,
    }
    &&& match l.refines {
        Some(x) => attr_of(e, "refines"@) is Some && joined_url(base, attr_of(e, "refines"@)->0) == Some(x.0@),
        None => attr_of(e, "refines"@) is None,
    }
    &&& l.value@ == e.text@
}

/// Whether `x` is what the Dublin Core element `e` gives.
pub open spec fn element_matches(e: XmlElement, x: MetadataElement) -> bool {
    &&& e.name@ != "meta"@
    &&& e.name@ != "link"@
    &&& e.ns@ == DC_URI@
    &&& x.tag_name@ == (e.ns@, e.name@)
    &&& crate::text::opt_view(x.id) == attr_of(e, "id"@)
    &&& crate::text::opt_view(x.dir) == attr_of(e, "dir"@)
    &&& crate::text::opt_view(x.lang) == crate::xml::xml_attr_of(e, "lang"@)
}

/// The children named `name`, in order.
pub open spec fn named_children(cs: Seq<XmlElement>, name: Seq<char>) -> Seq<XmlElement>
    decreases cs.len(),
{
    if cs.len() == 0 {
        seq![]
    } else if cs.last().name@ == name {
        named_children(cs.drop_last(), name).push(cs.last())
    } else {
        named_children(cs.drop_last(), name)
    }
}

/// The children named neither `meta` nor `link`, in order.
pub open spec fn other_children(cs: Seq<XmlElement>) -> Seq<XmlElement>
    decreases cs.len(),
{
    if cs.len() == 0 {
        seq![]
    } else if cs.last().name@ != "meta"@ && cs.last().name@ != "link"@ {
        other_children(cs.drop_last()).push(cs.last())
    } else {
        other_children(cs.drop_last())
    }
}

/// How names resolve for the child `c` of `parent`, inside the resolution `outer`: the
/// child's own declarations first, then the parent's.
pub open spec fn child_resolution(outer: spec_fn(Option<Seq<char>>) -> Option<Seq<char>>, parent: XmlElement, c: XmlElement)
    -> spec_fn(Option<Seq<char>>) -> Option<Seq<char>> {
    within(entries_view(c.prefixes@), within(entries_view(parent.prefixes@), outer))
}

/// Whether `elems`, `metas` and `links` are what the children of the metadata element `md`
/// give: its Dublin Core elements, metas and links, each in document order, with names
/// resolved for each child inside `outer`.
pub open spec fn lists_match(md: XmlElement, base: Seq<char>, outer: spec_fn(Option<Seq<char>>) -> Option<Seq<char>>,
    elems: Seq<MetadataElement>, metas: Seq<Meta>, links: Seq<Link>) -> bool {
    let cs = md.children@;
    let ms = named_children(cs, "meta"@);
    let ls = named_children(cs, "link"@);
    let others = other_children(cs);
    &&& metas.len() == ms.len()
    &&& forall|k: int| 0 <= k < ms.len() ==> meta_matches(#[trigger] ms[k], base, child_resolution(outer, md, ms[k]), metas[k])
    &&& links.len() == ls.len()
    &&& forall|k: int| 0 <= k < ls.len() ==> link_matches(#[trigger] ls[k], base, child_resolution(outer, md, ls[k]), links[k])
    &&& elems.len() == others.len()
    &&& forall|k: int| 0 <= k < others.len() ==> element_matches(#[trigger] others[k], elems[k])
}

proof fn lemma_children_step(cs: Seq<XmlElement>, i: int)
    requires
        0 <= i < cs.len(),
    ensures
        named_children(cs.take(i + 1), "meta"@) == if cs[i].name@ == "meta"@ {
            named_children(cs.take(i), "meta"@).push(cs[i])
        } else {
            named_children(cs.take(i), "meta"@)
        },
        named_children(cs.take(i + 1), "link"@) == if cs[i].name@ == "link"@ {
            named_children(cs.take(i), "link"@).push(cs[i])
        } else {
            named_children(cs.take(i), "link"@)
        },
        other_children(cs.take(i + 1)) == if cs[i].name@ != "meta"@ && cs[i].name@ != "link"@ {
            other_children(cs.take(i)).push(cs[i])
        } else {
            other_children(cs.take(i))
        },
{
    assert(cs.take(i + 1).drop_last() =~= cs.take(i));
}

/// One child of the metadata element.
enum MetadataItem {
    Element(MetadataElement),
    Meta(Meta),
    Link(Link),
}

/// The resolved form of each white-space separated token of `s` through `res`.
pub open spec fn resolved_tokens(s: Seq<char>, res: spec_fn(Option<Seq<char>>) -> Option<Seq<char>>) -> Seq<(Seq<char>, Seq<char>)> {
    tokens(s).map_values(|t: Seq<char>| (res(qname_prefix(t))->0, qname_local(t)))
}

/// Whether the resource `x` is what the `item` element `e` gives: an `id`, an `href` resolved
/// against `base`, a `media-type`, and `properties` resolved through `res`.
pub open spec fn item_matches(e: XmlElement, base: Seq<char>, res: spec_fn(Option<Seq<char>>) -> Option<Seq<char>>, x: Resource) -> bool {
    &&& e.name@ == "item"@
    &&& attr_of(e, "id"@) == Some(x.id@)
    &&& attr_of(e, "href"@) is Some
    &&& joined_url(base, attr_of(e, "href"@)->0) == Some(x.href@)
    &&& attr_of(e, "media-type"@) == Some(x.media_type@)
    &&& crate::text::opt_view(x.fallback) == attr_of(e, "fallback"@)
    &&& crate::text::opt_view(x.media_overlay) == attr_of(e, "media-overlay"@)
    &&& match x.properties {
        Some(ps) => attr_of(e, "properties"@) is Some && ps@ == resolved_tokens(attr_of(e, "properties"@)->0, res),
        None => attr_of(e, "properties"@) is None,
    }
}

/// Whether every child of the manifest element is an `item` and `rs` holds what they give, in
/// order; each item's names resolve through its own declarations inside `inner`.
pub open spec fn items_match(items: Seq<XmlElement>, base: Seq<char>, inner: spec_fn(Option<Seq<char>>) -> Option<Seq<char>>, rs: Seq<Resource>) -> bool {
    &&& rs.len() == items.len()
    &&& forall|k: int| 0 <= k < items.len() ==> item_matches(#[trigger] items[k], base, within(entries_view(items[k].prefixes@), inner), rs[k])
}

/// Whether every child of the spine element is an `itemref` and `refs` holds their `idref`
/// and `linear` values, in document order.
pub open spec fn itemrefs_match(itemrefs: Seq<XmlElement>, refs: Seq<SpineReference>) -> bool {
    &&& refs.len() == itemrefs.len()
    &&& forall|k: int| 0 <= k < itemrefs.len() ==> {
        &&& (#[trigger] itemrefs[k]).name@ == "itemref"@
        &&& attr_of(itemrefs[k], "idref"@) == Some(refs[k].id@)
        &&& linear_value(attr_of(itemrefs[k], "linear"@)) == Some(refs[k].linear)
    }
}

/// The first child of `doc` named `name`.
pub open spec fn child_named(doc: XmlElement, name: Seq<char>) -> XmlElement {
    doc.children@[child_index(doc.children@, name)]
}

/// The prefixes the package element declares: the bindings of its `prefix` attribute, then its
/// XML namespace declarations.
pub open spec fn package_declarations(doc: XmlElement) -> Seq<(Option<Seq<char>>, Seq<char>)> {
    let attr = match attr_of(doc, "prefix"@) {
        Some(v) => v,
        None => Seq::empty(),
    };
    prefix_bindings(tokens(attr)) + entries_view(doc.prefixes@)
}

/// How one element fails, as its error reports it.
pub enum Fault {
    Element(Seq<char>),
    Attr(Seq<char>),
}

/// Whether `e` is the error that reports `f`.
pub open spec fn fault_is(e: PackageError, f: Fault) -> bool {
    match f {
        Fault::Element(m) => e matches PackageError::InvalidElementError(x) && x@ == m,
        Fault::Attr(m) => e matches PackageError::InvalidElementAttrError(x) && x@ == m,
    }
}

/// The message of a missing attribute.
pub open spec fn missing_msg(name: Seq<char>) -> Seq<char> {
    name + " is missing"@
}

/// The message of an attribute whose value does not convert.
pub open spec fn invalid_msg(name: Seq<char>, value: Seq<char>) -> Seq<char> {
    name + " is invalid: "@ + value
}

/// Whether every white-space separated token of `s` resolves through `res`.
pub open spec fn all_resolve(s: Seq<char>, res: spec_fn(Option<Seq<char>>) -> Option<Seq<char>>) -> bool {
    forall|k: int| 0 <= k < tokens(s).len() ==> res(qname_prefix(#[trigger] tokens(s)[k])) is Some
}

/// How an `itemref` fails, checked in the order: name, `idref`, `linear`.
pub open spec fn itemref_fault(e: XmlElement) -> Option<Fault> {
    if e.name@ != "itemref"@ {
        Some(Fault::Element("Invalid spine itemref"@))
    } else if attr_of(e, "idref"@) is None {
        Some(Fault::Attr(missing_msg("idref"@)))
    } else if linear_value(attr_of(e, "linear"@)) is None {
        Some(Fault::Attr(invalid_msg("linear"@, attr_of(e, "linear"@)->0)))
    } else {
        None
    }
}

/// How an `item` fails, checked in the order: name, `id`, `href`, `media-type`, `properties`.
pub open spec fn item_fault(e: XmlElement, base: Seq<char>, res: spec_fn(Option<Seq<char>>) -> Option<Seq<char>>) -> Option<Fault> {
    if e.name@ != "item"@ {
        Some(Fault::Element("Invalid manifest item"@))
    } else if attr_of(e, "id"@) is None {
        Some(Fault::Attr(missing_msg("id"@)))
    } else if attr_of(e, "href"@) is None {
        Some(Fault::Attr(missing_msg("href"@)))
    } else if joined_url(base, attr_of(e, "href"@)->0) is None {
        Some(Fault::Attr(invalid_msg("href"@, attr_of(e, "href"@)->0)))
    } else if attr_of(e, "media-type"@) is None {
        Some(Fault::Attr(missing_msg("media-type"@)))
    } else if attr_of(e, "properties"@) is Some && !all_resolve(attr_of(e, "properties"@)->0, res) {
        Some(Fault::Attr(invalid_msg("properties"@, attr_of(e, "properties"@)->0)))
    } else {
        None
    }
}

/// How a `meta` fails, checked in the order: `property`, `refines`, `scheme`.
pub open spec fn meta_fault(e: XmlElement, base: Seq<char>, res: spec_fn(Option<Seq<char>>) -> Option<Seq<char>>) -> Option<Fault> {
    if attr_of(e, "property"@) is None {
        Some(Fault::Attr(missing_msg("property"@)))
    } else if res(qname_prefix(attr_of(e, "property"@)->0)) is None {
        Some(Fault::Attr(invalid_msg("property"@, attr_of(e, "property"@)->0)))
    } else if attr_of(e, "refines"@) is Some && joined_url(base, attr_of(e, "refines"@)->0) is None {
        Some(Fault::Attr(invalid_msg("refines"@, attr_of(e, "refines"@)->0)))
    } else if attr_of(e, "scheme"@) is Some && res(qname_prefix(attr_of(e, "scheme"@)->0)) is None {
        Some(Fault::Attr(invalid_msg("scheme"@, attr_of(e, "scheme"@)->0)))
    } else {
        None
    }
}

/// How a `link` fails, checked in the order: `href`, `rel`, `properties`, `refines`.
pub open spec fn link_fault(e: XmlElement, base: Seq<char>, res: spec_fn(Option<Seq<char>>) -> Option<Seq<char>>) -> Option<Fault> {
    if attr_of(e, "href"@) is None {
        Some(Fault::Attr(missing_msg("href"@)))
    } else if joined_url(base, attr_of(e, "href"@)->0) is None {
        Some(Fault::Attr(invalid_msg("href"@, attr_of(e, "href"@)->0)))
    } else if attr_of(e, "rel"@) is None {
        Some(Fault::Attr(missing_msg("rel"@)))
    } else if !all_resolve(attr_of(e, "rel"@)->0, res) {
        Some(Fault::Attr(invalid_msg("rel"@, attr_of(e, "rel"@)->0)))
    } else if attr_of(e, "properties"@) is Some && res(qname_prefix(attr_of(e, "properties"@)->0)) is None {
        Some(Fault::Attr(invalid_msg("properties"@, attr_of(e, "properties"@)->0)))
    } else if attr_of(e, "refines"@) is Some && joined_url(base, attr_of(e, "refines"@)->0) is None {
        Some(Fault::Attr(invalid_msg("refines"@, attr_of(e, "refines"@)->0)))
    } else {
        None
    }
}

/// How a child of the metadata element fails: a `meta` or `link` by its attributes, any other
/// element unless it is in the Dublin Core namespace.
pub open spec fn metadata_child_fault(e: XmlElement, base: Seq<char>, res: spec_fn(Option<Seq<char>>) -> Option<Seq<char>>) -> Option<Fault> {
    if e.name@ == "meta"@ {
        meta_fault(e, base, res)
    } else if e.name@ == "link"@ {
        link_fault(e, base, res)
    } else if e.ns@ != DC_URI@ {
        Some(Fault::Element("Invalid metadata element: "@ + e.name@))
    } else {
        None
    }
}

/// The failure of the first element of `cs` that fails `f`, if any.
pub open spec fn first_fault(cs: Seq<XmlElement>, f: spec_fn(XmlElement) -> Option<Fault>) -> Option<Fault>
    decreases cs.len(),
{
    if cs.len() == 0 {
        None
    } else {
        match first_fault(cs.drop_last(), f) {
            Some(x) => Some(x),
            None => f(cs.last()),
        }
    }
}

proof fn lemma_first_fault_step(cs: Seq<XmlElement>, f: spec_fn(XmlElement) -> Option<Fault>, i: int)
    requires
        0 <= i < cs.len(),
    ensures
        first_fault(cs.take(i + 1), f) == match first_fault(cs.take(i), f) {
            Some(x) => Some(x),
            None => f(cs[i]),
        },
{
    assert(cs.take(i + 1).drop_last() =~= cs.take(i));
}

proof fn lemma_first_fault_prefix(cs: Seq<XmlElement>, f: spec_fn(XmlElement) -> Option<Fault>, k: int)
    requires
        0 <= k <= cs.len(),
        first_fault(cs.take(k), f) is Some,
    ensures
        first_fault(cs, f) == first_fault(cs.take(k), f),
    decreases cs.len() - k,
{
    if k < cs.len() {
        lemma_first_fault_step(cs, f, k);
        lemma_first_fault_prefix(cs, f, k + 1);
    } else {
        assert(cs.take(k) =~= cs);
    }
}

/// The failure check of each child of the metadata element `md`.
pub open spec fn metadata_fault_fn(md: XmlElement, base: Seq<char>, outer: spec_fn(Option<Seq<char>>) -> Option<Seq<char>>)
    -> spec_fn(XmlElement) -> Option<Fault> {
    |c: XmlElement| metadata_child_fault(c, base, child_resolution(outer, md, c))
}

/// The failure check of each child of the manifest element.
pub open spec fn item_fault_fn(base: Seq<char>, inner: spec_fn(Option<Seq<char>>) -> Option<Seq<char>>) -> spec_fn(XmlElement) -> Option<Fault> {
    |c: XmlElement| item_fault(c, base, within(entries_view(c.prefixes@), inner))
}

/// The failure check of each child of the spine element.
pub open spec fn itemref_fault_fn() -> spec_fn(XmlElement) -> Option<Fault> {
    |c: XmlElement| itemref_fault(c)
}

/// What reading the metadata element `md` gives: the failure of its first failing child, else
/// the outcome of checking the elements, metas and links it gives.
pub open spec fn metadata_stage(md: XmlElement, base: Seq<char>, outer: spec_fn(Option<Seq<char>>) -> Option<Seq<char>>,
    r: Result<Metadata, PackageError>) -> bool {
    match first_fault(md.children@, metadata_fault_fn(md, base, outer)) {
        Some(f) => r is Err && fault_is(r->Err_0, f),
        None => exists|elems: Seq<MetadataElement>, metas: Seq<Meta>, links: Seq<Link>|
            #[trigger] lists_match(md, base, outer, elems, metas, links) && match r {
                Ok(m) => metadata_outcome(elems, metas, links, Ok(m)),
                Err(PackageError::MetadataCheckError(e)) => metadata_outcome(elems, metas, links, Err(e)),
                Err(_) => false,
            },
    }
}

/// What reading the manifest element `me` gives: the failure of its first failing child, else
/// the outcome of checking the resources its items give.
pub open spec fn manifest_stage(me: XmlElement, base: Seq<char>, inner: spec_fn(Option<Seq<char>>) -> Option<Seq<char>>,
    r: Result<Manifest, PackageError>) -> bool {
    match first_fault(me.children@, item_fault_fn(base, inner)) {
        Some(f) => r is Err && fault_is(r->Err_0, f),
        None => exists|rs: Seq<Resource>| #[trigger] items_match(me.children@, base, inner, rs) && match r {
            Ok(m) => manifest_outcome(attr_of(me, "id"@), rs, Ok(m)),
            Err(PackageError::ManifestCheckError(e)) => manifest_outcome(attr_of(me, "id"@), rs, Err(e)),
            Err(_) => false,
        },
    }
}

/// What reading the spine element `se` gives: the failure of its first failing child, else its
/// references in document order.
pub open spec fn spine_stage(se: XmlElement, r: Result<Spine, PackageError>) -> bool {
    match first_fault(se.children@, itemref_fault_fn()) {
        Some(f) => r is Err && fault_is(r->Err_0, f),
        None => r matches Ok(s) && itemrefs_match(se.children@, s.refs@)
            && crate::text::opt_view(s.id) == attr_of(se, "id"@)
            && crate::text::opt_view(s.dir) == attr_of(se, "page-progression-direction"@),
    }
}

/// The attributes of a package that come from the package element itself.
pub open spec fn package_fields(doc: XmlElement, p: Package) -> bool {
    &&& p.version@ == "3.0"@
    &&& attr_of(doc, "unique-identifier"@) == Some(p.unique_identifier_ref@)
    &&& crate::text::opt_view(p.id) == attr_of(doc, "id"@)
    &&& crate::text::opt_view(p.dir) == attr_of(doc, "dir"@)
    &&& crate::text::opt_view(p.prefix) == attr_of(doc, "prefix"@)
    &&& crate::text::opt_view(p.lang) == crate::xml::xml_attr_of(doc, "lang"@)
}

/// What reading a `package` element gives, with `inner` the resolution in force inside it:
/// the checks of `unique-identifier` and `version`, then metadata, manifest and spine in turn,
/// each missing section or failing stage ending the read with its error.
pub open spec fn package_stage(doc: XmlElement, base: Seq<char>, inner: spec_fn(Option<Seq<char>>) -> Option<Seq<char>>,
    r: Result<Package, PackageError>) -> bool {
    if attr_of(doc, "unique-identifier"@) is None {
        r is Err && fault_is(r->Err_0, Fault::Attr(missing_msg("unique-identifier"@)))
    } else if attr_of(doc, "version"@) is None {
        r is Err && fault_is(r->Err_0, Fault::Attr(missing_msg("version"@)))
    } else if attr_of(doc, "version"@)->0 != "3.0"@ {
        r matches Err(PackageError::UnsupportedVersion(x)) && x@ == attr_of(doc, "version"@)->0
    } else if child_index(doc.children@, "metadata"@) < 0 {
        r is Err && fault_is(r->Err_0, Fault::Element("metadata is missing"@))
    } else {
        exists|rm: Result<Metadata, PackageError>| #[trigger] metadata_stage(child_named(doc, "metadata"@), base, inner, rm)
            && match rm {
            Err(e) => r == Err::<Package, PackageError>(e),
            Ok(m) => if child_index(doc.children@, "manifest"@) < 0 {
                r is Err && fault_is(r->Err_0, Fault::Element("manifest is missing"@))
            } else {
                exists|rf: Result<Manifest, PackageError>| #[trigger] manifest_stage(child_named(doc, "manifest"@), base, inner, rf)
                    && match rf {
                    Err(e) => r == Err::<Package, PackageError>(e),
                    Ok(mf) => if child_index(doc.children@, "spine"@) < 0 {
                        r is Err && fault_is(r->Err_0, Fault::Element("spine is missing"@))
                    } else {
                        exists|rs: Result<Spine, PackageError>| #[trigger] spine_stage(child_named(doc, "spine"@), rs)
                            && match rs {
                            Err(e) => r == Err::<Package, PackageError>(e),
                            Ok(sp) => r matches Ok(p) && p.metadata == m && p.manifest == mf && p.spine == sp
                                && package_fields(doc, p),
                        }
                    },
                }
            },
        }
    }
}

/// What reading the tree `doc` as a package document gives, names resolving through `outer`
/// outside the package element.
pub open spec fn package_outcome(doc: XmlElement, base: Seq<char>, outer: spec_fn(Option<Seq<char>>) -> Option<Seq<char>>,
    r: Result<Package, PackageError>) -> bool {
    if doc.name@ != "package"@ {
        r is Err && fault_is(r->Err_0, Fault::Element("root element is not package"@))
    } else {
        package_stage(doc, base, within(package_declarations(doc), outer), r)
    }
}

/// What parsing the text `s` as a package document gives, resolved against `base`, with the
/// prefixes `reserved` known around the document.
pub open spec fn package_read(s: Seq<char>, base: Seq<char>, reserved: Seq<(Option<Seq<char>>, Seq<char>)>,
    r: Result<Package, PackageError>) -> bool {
    match xml_tree(s, reserved) {
        None => r matches Err(PackageError::ParseError(_)),
        Some(doc) => package_outcome(doc, base, within(reserved, no_resolution()), r),
    }
}

impl PackageParser {
    pub fn new(options: ParseOptions) -> (r: PackageParser)
        ensures
            r.options == options,
            r.parse_state.prefixes_stack.scopes().len() == 0,
    {
        PackageParser { options, parse_state: ParseState { prefixes_stack: PrefixesStack::empty() } }
    }

    /// Forgets every prefix scope.
    pub fn clear(&mut self)
        ensures
            final(self).options == old(self).options,
            final(self).parse_state.prefixes_stack.scopes().len() == 0,
    {
        self.parse_state.prefixes_stack.clear();
    }

    /// Parses a package document. The reserved prefixes stay in force as the outermost scope
    /// and the package element's declarations as the next one; each element's own declarations
    /// hold for that element alone. The result depends on the options and the text alone.
    pub fn parse(&mut self, s: &str) -> (r: Result<Package, PackageError>)
        ensures
            final(self).options == old(self).options,
            final(self).parse_state.prefixes_stack.scopes().len() == 1,
            package_read(s@, old(self).options.base_url@, entries_view(old(self).options.reserved_prefixes.entries()), r),
    {
        self.clear();
        let reserved = Prefixes::new(copy_prefixes(self.options.reserved_prefixes.inner()));
        self.parse_state.prefixes_stack.push(reserved);
        proof {
            assert(self.parse_state.prefixes_stack.scopes() =~= seq![reserved]);
            lemma_single_scope(reserved);
        }
        let doc = match parse_xml(s, self.options.reserved_prefixes.inner()) {
            Ok(d) => d,
            Err(m) => return Err(PackageError::ParseError(m)),
        };
        self.package_from_tree(&doc)
    }

    /// Reads a package out of the tree of a package document.
    pub fn package_from_tree(&mut self, doc: &XmlElement) -> (r: Result<Package, PackageError>)
        ensures
            final(self).options == old(self).options,
            final(self).parse_state.prefixes_stack.scopes() == old(self).parse_state.prefixes_stack.scopes(),
            package_outcome(*doc, old(self).options.base_url@, stack_resolution(old(self).parse_state.prefixes_stack.scopes()), r),
    {
        proof { reveal_strlit("package"); }
        if !str_eq(doc.name.as_str(), "package") {
            return Err(PackageError::InvalidElementError(owned("root element is not package")));
        }
        proof { reveal_strlit("prefix"); reveal_strlit(""); }
        let mut declared = match attr(doc, "prefix") {
            Some(v) => parse_prefix_attr(v.as_str()),
            None => parse_prefix_attr(""),
        };
        let mut xmlns = copy_prefixes(&doc.prefixes);
        declared.append(&mut xmlns);
        assert(entries_view(declared@) =~= package_declarations(*doc));
        let scope = Prefixes::new(declared);
        let ghost scopes0 = self.parse_state.prefixes_stack.scopes();
        proof { lemma_push_scope(scopes0, scope); }
        self.parse_state.prefixes_stack.push(scope);
        let res = self.parse_package(doc);
        self.parse_state.prefixes_stack.pop();
        assert(scopes0.push(scope).drop_last() =~= scopes0);
        res
    }

    fn parse_package(&mut self, doc: &XmlElement) -> (r: Result<Package, PackageError>)
        requires
            doc.name@ == "package"@,
        ensures
            final(self).options == old(self).options,
            final(self).parse_state.prefixes_stack.scopes() == old(self).parse_state.prefixes_stack.scopes(),
            package_stage(*doc, old(self).options.base_url@, stack_resolution(old(self).parse_state.prefixes_stack.scopes()), r),
    {
        proof {
            reveal_strlit("3.0");
            reveal_strlit("metadata");
            reveal_strlit("manifest");
            reveal_strlit("spine");
            reveal_strlit("unique-identifier");
            reveal_strlit("version");
        }
        let ghost base = self.options.base_url@;
        let ghost inner = stack_resolution(self.parse_state.prefixes_stack.scopes());
        let unique_identifier_ref = req_attr(doc, "unique-identifier")?;
        let version = req_attr(doc, "version")?;
        if !str_eq(version.as_str(), "3.0") {
            return Err(PackageError::UnsupportedVersion(version));
        }
        let prefix = opt_attr(doc, "prefix");
        let dir = opt_attr(doc, "dir");
        let id = opt_attr(doc, "id");
        let lang = match xml_attr(doc, "lang") {
            Some(v) => Some(v.clone()),
            None => None,
        };
        proof {
            lemma_child_index(doc.children@, "metadata"@);
            lemma_child_index(doc.children@, "manifest"@);
            lemma_child_index(doc.children@, "spine"@);
        }
        let metadata_elem = match child(doc, "metadata") {
            Some(e) => e,
            None => return Err(PackageError::InvalidElementError(owned("metadata is missing"))),
        };
        let rm = self.parse_metadata(metadata_elem);
        assert(metadata_stage(child_named(*doc, "metadata"@), base, inner, rm));
        let metadata = match rm {
            Ok(m) => m,
            Err(e) => return Err(e),
        };
        let manifest_elem = match child(doc, "manifest") {
            Some(e) => e,
            None => return Err(PackageError::InvalidElementError(owned("manifest is missing"))),
        };
        let rf = self.parse_manifest(manifest_elem);
        assert(manifest_stage(child_named(*doc, "manifest"@), base, inner, rf));
        let manifest = match rf {
            Ok(m) => m,
            Err(e) => return Err(e),
        };
        let spine_elem = match child(doc, "spine") {
            Some(e) => e,
            None => return Err(PackageError::InvalidElementError(owned("spine is missing"))),
        };
        let rs = self.parse_spine(spine_elem);
        assert(spine_stage(child_named(*doc, "spine"@), rs));
        let spine = match rs {
            Ok(s) => s,
            Err(e) => return Err(e),
        };
        Ok(Package { id, unique_identifier_ref, version, metadata, manifest, spine, prefix, dir, lang })
    }

    fn parse_metadata(&mut self, metadata_elem: &XmlElement) -> (r: Result<Metadata, PackageError>)
        ensures
            final(self).options == old(self).options,
            final(self).parse_state.prefixes_stack.scopes() == old(self).parse_state.prefixes_stack.scopes(),
            metadata_stage(*metadata_elem, old(self).options.base_url@,
                stack_resolution(old(self).parse_state.prefixes_stack.scopes()), r),
    {
        proof {
            reveal_strlit("meta");
            reveal_strlit("link");
            assert("meta"@[0] != "link"@[0]);
        }
        let mut elems: Vec<MetadataElement> = Vec::new();
        let mut metas: Vec<Meta> = Vec::new();
        let mut links: Vec<Link> = Vec::new();
        let ghost scopes0 = self.parse_state.prefixes_stack.scopes();
        let ghost options0 = self.options;
        let ghost base = options0.base_url@;
        let ghost outer_res = stack_resolution(scopes0);
        let ghost cs = metadata_elem.children@;
        let outer = Prefixes::new(copy_prefixes(&metadata_elem.prefixes));
        self.parse_state.prefixes_stack.push(outer);
        let ghost scopes1 = self.parse_state.prefixes_stack.scopes();
        assert(scopes1.last() == outer);
        let mut i: usize = 0;
        while i < metadata_elem.children.len()
            invariant
                self.options == options0,
                options0 == old(self).options,
                base == options0.base_url@,
                scopes0 == old(self).parse_state.prefixes_stack.scopes(),
                outer_res == stack_resolution(scopes0),
                self.parse_state.prefixes_stack.scopes() == scopes1,
                scopes1 == scopes0.push(outer),
                outer.entries() == metadata_elem.prefixes@,
                cs == metadata_elem.children@,
                "meta"@ != "link"@,
                i <= cs.len(),
                first_fault(cs.take(i as int), metadata_fault_fn(*metadata_elem, base, outer_res)) is None,
                metas@.len() == named_children(cs.take(i as int), "meta"@).len(),
                forall|k: int| 0 <= k < metas@.len() ==> meta_matches(#[trigger] named_children(cs.take(i as int), "meta"@)[k], base,
                    child_resolution(outer_res, *metadata_elem, named_children(cs.take(i as int), "meta"@)[k]), metas@[k]),
                links@.len() == named_children(cs.take(i as int), "link"@).len(),
                forall|k: int| 0 <= k < links@.len() ==> link_matches(#[trigger] named_children(cs.take(i as int), "link"@)[k], base,
                    child_resolution(outer_res, *metadata_elem, named_children(cs.take(i as int), "link"@)[k]), links@[k]),
                elems@.len() == other_children(cs.take(i as int)).len(),
                forall|k: int| 0 <= k < elems@.len() ==> element_matches(#[trigger] other_children(cs.take(i as int))[k], elems@[k]),
            decreases cs.len() - i,
        {
            proof {
                lemma_children_step(cs, i as int);
                lemma_first_fault_step(cs, metadata_fault_fn(*metadata_elem, base, outer_res), i as int);
            }
            let c = &metadata_elem.children[i];
            let scope = Prefixes::new(copy_prefixes(&c.prefixes));
            assert(scopes1.push(scope).drop_last() =~= scopes1);
            proof {
                lemma_push_scope(scopes0, outer);
                lemma_push_scope(scopes1, scope);
                assert(stack_resolution(scopes1.push(scope)) == child_resolution(outer_res, *metadata_elem, *c));
            }
            self.parse_state.prefixes_stack.push(scope);
            let res = self.parse_metadata_elem(c);
            self.parse_state.prefixes_stack.pop();
            let ghost metas0 = metas@;
            let ghost links0 = links@;
            let ghost elems0 = elems@;
            match res {
                Ok(MetadataItem::Element(e)) => {
                    elems.push(e);
                    assert(forall|k: int| 0 <= k < elems0.len() ==> elems@[k] == elems0[k]);
                },
                Ok(MetadataItem::Meta(m)) => {
                    metas.push(m);
                    assert(forall|k: int| 0 <= k < metas0.len() ==> metas@[k] == metas0[k]);
                },
                Ok(MetadataItem::Link(l)) => {
                    links.push(l);
                    assert(forall|k: int| 0 <= k < links0.len() ==> links@[k] == links0[k]);
                },
                Err(e) => {
                    self.parse_state.prefixes_stack.pop();
                    assert(scopes1.drop_last() =~= scopes0);
                    proof {
                        lemma_first_fault_prefix(cs, metadata_fault_fn(*metadata_elem, base, outer_res), i as int + 1);
                    }
                    return Err(e);
                },
            }
            i = i + 1;
        }
        self.parse_state.prefixes_stack.pop();
        assert(scopes1.drop_last() =~= scopes0);
        assert(cs.take(cs.len() as int) =~= cs);
        assert(lists_match(*metadata_elem, base, outer_res, elems@, metas@, links@));
        let ghost (ge, gm, gl) = (elems@, metas@, links@);
        match Metadata::new(elems, metas, links) {
            Ok(m) => Ok(m),
            Err(e) => {
                assert(metadata_outcome(ge, gm, gl, Err(e)));
                Err(PackageError::MetadataCheckError(e))
            },
        }
    }

    fn parse_metadata_elem(&self, elem: &XmlElement) -> (r: Result<MetadataItem, PackageError>)
        ensures
            match metadata_child_fault(*elem, self.options.base_url@, stack_resolution(self.parse_state.prefixes_stack.scopes())) {
                Some(f) => r is Err && fault_is(r->Err_0, f),
                None => match r {
                    Ok(MetadataItem::Meta(m)) => meta_matches(*elem, self.options.base_url@,
                        stack_resolution(self.parse_state.prefixes_stack.scopes()), m),
                    Ok(MetadataItem::Link(l)) => link_matches(*elem, self.options.base_url@,
                        stack_resolution(self.parse_state.prefixes_stack.scopes()), l),
                    Ok(MetadataItem::Element(e)) => element_matches(*elem, e),
                    Err(_) => false,
                },
            },
    {
        proof {
            reveal_strlit("meta");
            reveal_strlit("link");
            reveal_strlit("id");
            reveal_strlit("dir");
            reveal_strlit("lang");
            reveal_strlit("property");
            reveal_strlit("refines");
            reveal_strlit("scheme");
            reveal_strlit("href");
            reveal_strlit("rel");
            reveal_strlit("hreflang");
            reveal_strlit("media-type");
            reveal_strlit("properties");
            assert("meta"@[0] != "link"@[0]);
        }
        let base = &self.options.base_url;
        let stack = &self.parse_state.prefixes_stack;
        if str_eq(elem.name.as_str(), "meta") {
            let id = opt_attr(elem, "id");
            let lang = match xml_attr(elem, "lang") {
                Some(v) => Some(v.clone()),
                None => None,
            };
            let dir = opt_attr(elem, "dir");
            let property = match attr(elem, "property") {
                Some(v) => match Property::from_str(v.as_str(), stack) {
                    Ok(p) => p,
                    Err(_) => return Err(invalid("property", v.as_str())),
                },
                None => return Err(missing("property")),
            };
            let refines = match attr(elem, "refines") {
                Some(v) => match Refines::from_relative_url(v.as_str(), base) {
                    Ok(x) => Some(x),
                    Err(_) => return Err(invalid("refines", v.as_str())),
                },
                None => None,
            };
            let scheme = match attr(elem, "scheme") {
                Some(v) => match Property::from_str(v.as_str(), stack) {
                    Ok(p) => Some(p),
                    Err(_) => return Err(invalid("scheme", v.as_str())),
                },
                None => None,
            };
            let value = elem.text.clone();
            Ok(MetadataItem::Meta(Meta { id, lang, dir, property, refines, scheme, value }))
        } else if str_eq(elem.name.as_str(), "link") {
            let id = opt_attr(elem, "id");
            let href = match attr(elem, "href") {
                Some(v) => match base.join(v.as_str()) {
                    Some(u) => u,
                    None => return Err(invalid("href", v.as_str())),
                },
                None => return Err(missing("href")),
            };
            let hreflang = opt_attr(elem, "hreflang");
            let rel = match attr(elem, "rel") {
                Some(v) => match Properties::from_str(v.as_str(), stack) {
                    Ok(p) => p,
                    Err(_) => return Err(invalid("rel", v.as_str())),
                },
                None => return Err(missing("rel")),
            };
            let media_type = match attr(elem, "media-type") {
                Some(v) => Some(MediaType::new(v.as_str())),
                None => None,
            };
            let property = match attr(elem, "properties") {
                Some(v) => match Property::from_str(v.as_str(), stack) {
                    Ok(p) => Some(p),
                    Err(_) => return Err(invalid("properties", v.as_str())),
                },
                None => None,
            };
            let refines = match attr(elem, "refines") {
                Some(v) => match Refines::from_relative_url(v.as_str(), base) {
                    Ok(x) => Some(x),
                    Err(_) => return Err(invalid("refines", v.as_str())),
                },
                None => None,
            };
            let value = elem.text.clone();
            proof {
                let v = attr_of(*elem, "rel"@)->0;
                assert(rel@ =~= resolved_tokens(v, stack_resolution(stack.scopes())));
            }
            Ok(MetadataItem::Link(Link { id, href, rel, hreflang, media_type, property, refines, value }))
        } else if str_eq(elem.ns.as_str(), DC_URI) {
            let id = opt_attr(elem, "id");
            let lang = match xml_attr(elem, "lang") {
                Some(v) => Some(v.clone()),
                None => None,
            };
            let dir = opt_attr(elem, "dir");
            let tag_name = WithNamespace { ns: elem.ns.clone(), reference: elem.name.clone() };
            Ok(MetadataItem::Element(MetadataElement { id, lang, dir, tag_name }))
        } else {
            Err(PackageError::InvalidElementError(concat("Invalid metadata element: ", elem.name.as_str())))
        }
    }

    fn parse_manifest(&mut self, manifest_elem: &XmlElement) -> (r: Result<Manifest, PackageError>)
        ensures
            final(self).options == old(self).options,
            final(self).parse_state.prefixes_stack.scopes() == old(self).parse_state.prefixes_stack.scopes(),
            manifest_stage(*manifest_elem, old(self).options.base_url@,
                stack_resolution(old(self).parse_state.prefixes_stack.scopes()), r),
    {
        let ghost scopes0 = self.parse_state.prefixes_stack.scopes();
        let ghost options0 = self.options;
        let ghost items = manifest_elem.children@;
        let mut resources: Vec<Resource> = Vec::new();
        let mut i: usize = 0;
        while i < manifest_elem.children.len()
            invariant
                self.options == options0,
                options0 == old(self).options,
                scopes0 == old(self).parse_state.prefixes_stack.scopes(),
                self.parse_state.prefixes_stack.scopes() == scopes0,
                items == manifest_elem.children@,
                i <= items.len(),
                items_match(items.take(i as int), options0.base_url@, stack_resolution(scopes0), resources@),
                first_fault(items.take(i as int), item_fault_fn(options0.base_url@, stack_resolution(scopes0))) is None,
            decreases items.len() - i,
        {
            proof { lemma_first_fault_step(items, item_fault_fn(options0.base_url@, stack_resolution(scopes0)), i as int); }
            let c = &manifest_elem.children[i];
            let scope = Prefixes::new(copy_prefixes(&c.prefixes));
            assert(scopes0.push(scope).drop_last() =~= scopes0);
            proof { lemma_push_scope(scopes0, scope); }
            self.parse_state.prefixes_stack.push(scope);
            let res = self.parse_manifest_elem(c);
            self.parse_state.prefixes_stack.pop();
            match res {
                Ok(x) => {
                    let ghost before = resources@;
                    resources.push(x);
                    proof {
                        let t = items.take(i as int + 1);
                        assert(t[i as int] == *c);
                        assert forall|k: int| 0 <= k < i implies t[k] == items.take(i as int)[k] && resources@[k] == before[k] by {}
                        assert(items_match(t, options0.base_url@, stack_resolution(scopes0), resources@));
                    }
                },
                Err(e) => {
                    proof { lemma_first_fault_prefix(items, item_fault_fn(options0.base_url@, stack_resolution(scopes0)), i as int + 1); }
                    return Err(e);
                },
            }
            i = i + 1;
        }
        assert(items.take(items.len() as int) =~= items);
        let id = match attr(manifest_elem, "id") {
            Some(v) => Some(v.as_str()),
            None => None,
        };
        let ghost rs = resources@;
        assert(items_match(items, options0.base_url@, stack_resolution(scopes0), rs));
        match Manifest::new(id, resources) {
            Ok(m) => Ok(m),
            Err(e) => Err(PackageError::ManifestCheckError(e)),
        }
    }

    fn parse_manifest_elem(&self, elem: &XmlElement) -> (r: Result<Resource, PackageError>)
        ensures
            match item_fault(*elem, self.options.base_url@, stack_resolution(self.parse_state.prefixes_stack.scopes())) {
                Some(f) => r is Err && fault_is(r->Err_0, f),
                None => r matches Ok(x) && item_matches(*elem, self.options.base_url@,
                    stack_resolution(self.parse_state.prefixes_stack.scopes()), x),
            },
    {
        proof {
            reveal_strlit("item");
            reveal_strlit("id");
            reveal_strlit("href");
            reveal_strlit("media-type");
            reveal_strlit("fallback");
            reveal_strlit("media-overlay");
        }
        if !str_eq(elem.name.as_str(), "item") {
            return Err(PackageError::InvalidElementError(owned("Invalid manifest item")));
        }
        let id = req_attr(elem, "id")?;
        let href = match attr(elem, "href") {
            Some(v) => match self.options.base_url.join(v.as_str()) {
                Some(u) => u,
                None => return Err(invalid("href", v.as_str())),
            },
            None => return Err(missing("href")),
        };
        let media_type = MediaType::new(req_attr(elem, "media-type")?.as_str());
        let properties = match attr(elem, "properties") {
            Some(v) => match Properties::from_str(v.as_str(), &self.parse_state.prefixes_stack) {
                Ok(p) => Some(p),
                Err(_) => return Err(invalid("properties", v.as_str())),
            },
            None => None,
        };
        let fallback = opt_attr(elem, "fallback");
        let media_overlay = opt_attr(elem, "media-overlay");
        let x = Resource { id, href, media_type, fallback, media_overlay, properties };
        proof {
            if x.properties is Some {
                let v = attr_of(*elem, "properties"@)->0;
                let stack = self.parse_state.prefixes_stack;
                assert(x.properties->0@ =~= resolved_tokens(v, stack_resolution(stack.scopes())));
            }
        }
        Ok(x)
    }

    fn parse_spine(&mut self, spine_elem: &XmlElement) -> (r: Result<Spine, PackageError>)
        ensures
            final(self).options == old(self).options,
            final(self).parse_state.prefixes_stack.scopes() == old(self).parse_state.prefixes_stack.scopes(),
            spine_stage(*spine_elem, r),
    {
        let id = opt_attr(spine_elem, "id");
        let dir = opt_attr(spine_elem, "page-progression-direction");
        let ghost scopes0 = self.parse_state.prefixes_stack.scopes();
        let ghost options0 = self.options;
        let ghost items = spine_elem.children@;
        let mut refs: Vec<SpineReference> = Vec::new();
        let mut i: usize = 0;
        while i < spine_elem.children.len()
            invariant
                self.options == options0,
                options0 == old(self).options,
                scopes0 == old(self).parse_state.prefixes_stack.scopes(),
                self.parse_state.prefixes_stack.scopes() == scopes0,
                items == spine_elem.children@,
                i <= items.len(),
                itemrefs_match(items.take(i as int), refs@),
                first_fault(items.take(i as int), itemref_fault_fn()) is None,
            decreases items.len() - i,
        {
            proof { lemma_first_fault_step(items, itemref_fault_fn(), i as int); }
            let c = &spine_elem.children[i];
            let scope = Prefixes::new(copy_prefixes(&c.prefixes));
            assert(scopes0.push(scope).drop_last() =~= scopes0);
            self.parse_state.prefixes_stack.push(scope);
            let res = parse_spine_elem(c);
            self.parse_state.prefixes_stack.pop();
            match res {
                Ok(x) => {
                    let ghost before = refs@;
                    refs.push(x);
                    proof {
                        let t = items.take(i as int + 1);
                        assert(seq![*c][0] == *c);
                        assert(seq![x][0] == x);
                        assert(t[i as int] == *c);
                        assert forall|k: int| 0 <= k < i implies t[k] == items.take(i as int)[k] && refs@[k] == before[k] by {}
                        assert(itemrefs_match(t, refs@));
                    }
                },
                Err(e) => {
                    proof { lemma_first_fault_prefix(items, itemref_fault_fn(), i as int + 1); }
                    return Err(e);
                },
            }
            i = i + 1;
        }
        assert(items.take(items.len() as int) =~= items);
        Ok(Spine { id, dir, refs })
    }
}

fn parse_spine_elem(elem: &XmlElement) -> (r: Result<SpineReference, PackageError>)
    ensures
        match itemref_fault(*elem) {
            Some(f) => r is Err && fault_is(r->Err_0, f),
            None => r matches Ok(x) && itemrefs_match(seq![*elem], seq![x]),
        },
{
    proof {
        reveal_strlit("itemref");
        reveal_strlit("idref");
        reveal_strlit("linear");
        reveal_strlit("true");
        reveal_strlit("false");
    }
    if !str_eq(elem.name.as_str(), "itemref") {
        return Err(PackageError::InvalidElementError(owned("Invalid spine itemref")));
    }
    let id = req_attr(elem, "idref")?;
    let linear = match attr(elem, "linear") {
        Some(v) => if str_eq(v.as_str(), "true") {
            Some(true)
        } else if str_eq(v.as_str(), "false") {
            Some(false)
        } else {
            return Err(invalid("linear", v.as_str()));
        },
        None => None,
    };
    let x = SpineReference { id, linear };
    assert(seq![*elem][0] == *elem);
    Ok(x)
}

} // verus!
