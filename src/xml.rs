//! An element tree of plain values, read from `minidom`'s parser.
use vstd::prelude::*;
use crate::prefix::{Prefix, entries_view};
use crate::text::str_eq;

verus! {

/// The element type of `minidom`, carried only inside the XML reading below.
#[verifier::external_type_specification]
#[verifier::external_body]
pub struct ExElement(minidom::Element);

/// The namespace of `xml:` attributes such as `xml:lang`.
pub const XML_NS: &'static str = "http://www.w3.org/XML/1998/namespace";

/// An attribute: its namespace (empty for none), local name and value.
#[derive(Debug, PartialEq, Clone)]
pub struct XmlAttr {
    pub ns: String,
    pub name: String,
    pub value: String,
}

/// An element: name, namespace, the prefixes it declares, attributes, its own text and its
/// child elements, in document order.
#[derive(Debug)]
pub struct XmlElement {
    pub name: String,
    pub ns: String,
    pub prefixes: Vec<Prefix>,
    pub attrs: Vec<XmlAttr>,
    pub text: String,
    pub children: Vec<XmlElement>,
}

/// The element tree of a document read with `known` declared around it: the root element,
/// its children and theirs (no deeper); `None` where the text is not well-formed XML.
pub uninterp spec fn xml_tree(s: Seq<char>, known: Seq<(Option<Seq<char>>, Seq<char>)>) -> Option<XmlElement>;

/// Relies on `minidom::Element`'s `name`, `ns`, `prefixes.declared_prefixes`, `attrs` and
/// `text`: one element as plain values, with the children given.
#[verifier::external_body]
fn element_values(e: &minidom::Element, children: Vec<XmlElement>) -> XmlElement {
    XmlElement {
        name: e.name().to_string(), ns: e.ns(), text: e.text(), children,
        prefixes: e.prefixes.declared_prefixes().iter().map(|(n, u)| Prefix { name: n.clone(), uri: u.clone() }).collect(),
        attrs: e.attrs().iter().map(|((ns, n), v)| XmlAttr { ns: ns.to_string(), name: n.to_string(), value: v.clone() }).collect(),
    }
}

/// Relies on `minidom::Element::from_reader_with_prefixes` and on `children`: the root element,
/// its children and theirs, each read by `element_values`. The error is `minidom::Error`'s
/// message.
#[verifier::external_body]
pub fn parse_xml(s: &str, known: &Vec<Prefix>) -> (r: Result<XmlElement, String>)
    ensures
        match xml_tree(s@, entries_view(known@)) {
            Some(t) => r == Ok::<XmlElement, String>(t),
            None => r is Err,
        },
{
    let k: std::collections::BTreeMap<_, _> = known.iter().map(|p| (p.name.clone(), p.uri.clone())).collect();
    let root = minidom::Element::from_reader_with_prefixes(s.as_bytes(), k).map_err(|e| e.to_string())?;
    let kids = root.children().map(|c| element_values(c, c.children().map(|g| element_values(g, vec![])).collect())).collect();
    Ok(element_values(&root, kids))
}

/// The value of the first attribute in the namespace `ns` (empty for none) named `name`.
pub open spec fn attr_in(attrs: Seq<XmlAttr>, ns: Seq<char>, name: Seq<char>) -> Option<Seq<char>>
    decreases attrs.len(),
{
    if attrs.len() == 0 {
        None
    } else {
        match attr_in(attrs.drop_last(), ns, name) {
            Some(v) => Some(v),
            None => if attrs.last().ns@ == ns && attrs.last().name@ == name {
                Some(attrs.last().value@)
            } else {
                None
            },
        }
    }
}

/// The value of the attribute `name` (without namespace) of `e`.
pub open spec fn attr_of(e: XmlElement, name: Seq<char>) -> Option<Seq<char>> {
    attr_in(e.attrs@, Seq::empty(), name)
}

/// The value of the attribute `xml:<name>` of `e`.
pub open spec fn xml_attr_of(e: XmlElement, name: Seq<char>) -> Option<Seq<char>> {
    attr_in(e.attrs@, XML_NS@, name)
}

proof fn lemma_attr_prefix(s: Seq<XmlAttr>, ns: Seq<char>, name: Seq<char>, k: int)
    requires
        0 <= k <= s.len(),
        attr_in(s.take(k), ns, name) is Some,
    ensures
        attr_in(s, ns, name) == attr_in(s.take(k), ns, name),
    decreases s.len() - k,
{
    if k < s.len() {
        assert(s.take(k + 1).drop_last() =~= s.take(k));
        lemma_attr_prefix(s, ns, name, k + 1);
    } else {
        assert(s.take(k) =~= s);
    }
}

/// Looks up the attribute `name` in the namespace `ns` (empty for none).
pub fn attr_ns<'a>(e: &'a XmlElement, ns: &str, name: &str) -> (r: Option<&'a String>)
    ensures
        match r {
            Some(v) => attr_in(e.attrs@, ns@, name@) == Some(v@),
            None => attr_in(e.attrs@, ns@, name@) is None,
        },
{
    let n = e.attrs.len();
    let mut i: usize = 0;
    while i < n
        invariant
            n == e.attrs@.len(),
            i <= n,
            attr_in(e.attrs@.take(i as int), ns@, name@) is None,
        decreases n - i,
    {
        assert(e.attrs@.take(i as int + 1).drop_last() =~= e.attrs@.take(i as int));
        let a = &e.attrs[i];
        if str_eq(a.ns.as_str(), ns) && str_eq(a.name.as_str(), name) {
            proof { lemma_attr_prefix(e.attrs@, ns@, name@, i as int + 1); }
            return Some(&a.value);
        }
        i = i + 1;
    }
    assert(e.attrs@.take(n as int) =~= e.attrs@);
    None
}

/// Looks up the attribute `name` without namespace.
pub fn attr<'a>(e: &'a XmlElement, name: &str) -> (r: Option<&'a String>)
    ensures
        match r {
            Some(v) => attr_of(*e, name@) == Some(v@),
            None => attr_of(*e, name@) is None,
        },
{
    proof { reveal_strlit(""); }
    assert(""@ =~= Seq::<char>::empty());
    attr_ns(e, "", name)
}

/// Looks up the attribute `xml:<name>`.
pub fn xml_attr<'a>(e: &'a XmlElement, name: &str) -> (r: Option<&'a String>)
    ensures
        match r {
            Some(v) => xml_attr_of(*e, name@) == Some(v@),
            None => xml_attr_of(*e, name@) is None,
        },
{
    attr_ns(e, XML_NS, name)
}

/// Position of the first child of `e` named `name`, or -1.
pub open spec fn child_index(cs: Seq<XmlElement>, name: Seq<char>) -> int
    decreases cs.len(),
{
    if cs.len() == 0 {
        -1
    } else {
        let r = child_index(cs.drop_last(), name);
        if r >= 0 {
            r
        } else if cs.last().name@ == name {
            cs.len() - 1
        } else {
            -1
        }
    }
}

pub proof fn lemma_child_index(cs: Seq<XmlElement>, name: Seq<char>)
    ensures
        -1 <= child_index(cs, name) < cs.len(),
        child_index(cs, name) >= 0 ==> cs[child_index(cs, name)].name@ == name,
        child_index(cs, name) == -1 ==> forall|j: int| 0 <= j < cs.len() ==> cs[j].name@ != name,
    decreases cs.len(),
{
    if cs.len() > 0 {
        let t = cs.drop_last();
        lemma_child_index(t, name);
        assert forall|j: int| 0 <= j < t.len() implies t[j] == cs[j] by {}
    }
}

proof fn lemma_child_prefix(s: Seq<XmlElement>, name: Seq<char>, k: int)
    requires
        0 <= k <= s.len(),
        child_index(s.take(k), name) >= 0,
    ensures
        child_index(s, name) == child_index(s.take(k), name),
    decreases s.len() - k,
{
    if k < s.len() {
        assert(s.take(k + 1).drop_last() =~= s.take(k));
        lemma_child_prefix(s, name, k + 1);
    } else {
        assert(s.take(k) =~= s);
    }
}

/// The first child of `e` named `name`.
pub fn child<'a>(e: &'a XmlElement, name: &str) -> (r: Option<&'a XmlElement>)
    ensures
        match r {
            Some(c) => child_index(e.children@, name@) >= 0 && *c == e.children@[child_index(e.children@, name@)],
            None => child_index(e.children@, name@) == -1,
        },
{
    let n = e.children.len();
    let mut i: usize = 0;
    while i < n
        invariant
            n == e.children@.len(),
            i <= n,
            child_index(e.children@.take(i as int), name@) == -1,
        decreases n - i,
    {
        assert(e.children@.take(i as int + 1).drop_last() =~= e.children@.take(i as int));
        if str_eq(e.children[i].name.as_str(), name) {
            proof { lemma_child_prefix(e.children@, name@, i as int + 1); }
            return Some(&e.children[i]);
        }
        i = i + 1;
    }
    assert(e.children@.take(n as int) =~= e.children@);
    None
}

} // verus!
