//! Qualified names (`prefix:local`) resolved to namespace URIs.
use vstd::prelude::*;
use crate::prefix::{Prefix, PrefixMap};
use crate::text::{first_index, find_char, lemma_first_index_bounds, opt_view, owned, split_white, tokens};
use vstd::string::*;

verus! {

/// A prefix that no scope declares; `None` stands for the default namespace.
#[derive(Debug, PartialEq, Clone)]
pub struct NamespaceError(pub Option<String>);

/// The prefix of a qualified name: what stands before its first colon.
pub open spec fn qname_prefix(s: Seq<char>) -> Option<Seq<char>> {
    let i = first_index(s, ':');
    if i >= 0 {
        Some(s.take(i))
    } else {
        None
    }
}

/// The local part of a qualified name: what follows its first colon, or all of it.
pub open spec fn qname_local(s: Seq<char>) -> Seq<char> {
    let i = first_index(s, ':');
    if i >= 0 {
        s.skip(i + 1)
    } else {
        s
    }
}

/// A name together with the namespace it lives in.
#[derive(Debug, PartialEq, Clone, Hash, Eq, Ord, PartialOrd)]
pub struct WithNamespace {
    pub ns: String,
    pub reference: String,
}

impl View for WithNamespace {
    type V = (Seq<char>, Seq<char>);

    open spec fn view(&self) -> (Seq<char>, Seq<char>) {
        (self.ns@, self.reference@)
    }
}

/// Splits a qualified name at its first colon.
pub fn split_qname(s: &str) -> (r: (Option<String>, String))
    ensures
        opt_view(r.0) == qname_prefix(s@),
        r.1@ == qname_local(s@),
{
    proof { lemma_first_index_bounds(s@, ':'); }
    match find_char(s, ':') {
        Some(i) => {
            let n = s.unicode_len();
            let p = s.substring_char(0, i);
            let l = s.substring_char(i + 1, n);
            assert(s@.subrange(0, i as int) =~= s@.take(i as int));
            assert(s@.subrange(i + 1, n as int) =~= s@.skip(i + 1));
            (Some(p.to_owned()), l.to_owned())
        },
        None => (None, owned(s)),
    }
}

impl WithNamespace {
    pub fn new(ns: String, reference: String) -> (r: WithNamespace)
        ensures
            r.ns == ns,
            r.reference == reference,
    {
        WithNamespace { ns, reference }
    }

    /// The name `reference` in the namespace of `prefix`.
    pub fn from_prefix(prefix: &Prefix, reference: String) -> (r: WithNamespace)
        ensures
            r.ns@ == prefix.uri@,
            r.reference == reference,
    {
        WithNamespace { ns: prefix.uri.clone(), reference }
    }

    /// Resolves `prefix:local` (or a bare `local`, in the default namespace) through `prefixes`.
    pub fn from_str<M: PrefixMap>(s: &str, prefixes: &M) -> (r: Result<WithNamespace, NamespaceError>)
        ensures
            match r {
                Ok(w) => prefixes.resolves(qname_prefix(s@)) == Some(w.ns@) && w.reference@ == qname_local(s@),
                Err(e) => prefixes.resolves(qname_prefix(s@)) is None && opt_view(e.0) == qname_prefix(s@),
            },
    {
        let (prefix, local) = split_qname(s);
        match prefixes.get(&prefix) {
            Some(ns) => Ok(WithNamespace { ns, reference: local }),
            None => Err(NamespaceError(prefix)),
        }
    }

    /// Whether both name the same thing in the same namespace.
    pub fn same(&self, other: &WithNamespace) -> (r: bool)
        ensures
            r == (self@ == other@),
    {
        self.ns.eq(&other.ns) && self.reference.eq(&other.reference)
    }
}

/// A property: a qualified name resolved to its namespace.
#[derive(Debug, PartialEq, Clone, Hash, Eq)]
pub struct Property(pub WithNamespace);

impl View for Property {
    type V = (Seq<char>, Seq<char>);

    open spec fn view(&self) -> (Seq<char>, Seq<char>) {
        self.0@
    }
}

impl Property {
    pub fn new(ns: String, reference: String) -> (r: Property)
        ensures
            r@ == (ns@, reference@),
    {
        Property(WithNamespace::new(ns, reference))
    }

    /// The property `reference` in the namespace of `prefix`.
    pub fn from_prefix(prefix: &Prefix, reference: String) -> (r: Property)
        ensures
            r@ == (prefix.uri@, reference@),
    {
        Property(WithNamespace::from_prefix(prefix, reference))
    }

    /// Resolves a qualified name through `prefixes`, as [`WithNamespace::from_str`] does.
    pub fn from_str<M: PrefixMap>(s: &str, prefixes: &M) -> (r: Result<Property, NamespaceError>)
        ensures
            match r {
                Ok(p) => prefixes.resolves(qname_prefix(s@)) == Some(p@.0) && p@.1 == qname_local(s@),
                Err(e) => prefixes.resolves(qname_prefix(s@)) is None && opt_view(e.0) == qname_prefix(s@),
            },
    {
        match WithNamespace::from_str(s, prefixes) {
            Ok(w) => Ok(Property(w)),
            Err(e) => Err(e),
        }
    }

    /// Whether both are the same resolved property.
    pub fn same(&self, other: &Property) -> (r: bool)
        ensures
            r == (self@ == other@),
    {
        self.0.same(&other.0)
    }
}

/// Whether the token resolves through `m`.
pub open spec fn token_resolves<M: PrefixMap>(m: &M, t: Seq<char>) -> bool {
    m.resolves(qname_prefix(t)) is Some
}

/// The resolved form of a token that resolves.
pub open spec fn token_value<M: PrefixMap>(m: &M, t: Seq<char>) -> (Seq<char>, Seq<char>) {
    (m.resolves(qname_prefix(t))->0, qname_local(t))
}

/// A white-space separated list of properties, in order.
#[derive(Debug, PartialEq, Clone)]
pub struct Properties(pub Vec<Property>);

impl View for Properties {
    type V = Seq<(Seq<char>, Seq<char>)>;

    open spec fn view(&self) -> Seq<(Seq<char>, Seq<char>)> {
        self.0@.map_values(|p: Property| p@)
    }
}

impl Properties {
    pub fn new(properties: Vec<Property>) -> (r: Properties)
        ensures
            r.0@ == properties@,
    {
        Properties(properties)
    }

    /// Resolves each white-space separated token of `s`; fails on the first that does not resolve.
    pub fn from_str<M: PrefixMap>(s: &str, prefixes: &M) -> (r: Result<Properties, NamespaceError>)
        ensures
            r is Ok <==> forall|k: int| 0 <= k < tokens(s@).len() ==> token_resolves(prefixes, #[trigger] tokens(s@)[k]),
            r matches Ok(ps) ==> ps@ == tokens(s@).map_values(|t: Seq<char>| token_value(prefixes, t)),
            r matches Err(e) ==> exists|j: int| 0 <= j < tokens(s@).len() && !token_resolves(prefixes, #[trigger] tokens(s@)[j])
                && opt_view(e.0) == qname_prefix(tokens(s@)[j])
                && forall|i: int| 0 <= i < j ==> token_resolves(prefixes, #[trigger] tokens(s@)[i]),
    {
        let toks = split_white(s);
        let ghost ts = tokens(s@);
        let mut out: Vec<Property> = Vec::new();
        let mut i: usize = 0;
        while i < toks.len()
            invariant
                toks@.len() == ts.len(),
                forall|k: int| 0 <= k < toks@.len() ==> #[trigger] toks@[k]@ == ts[k],
                ts == tokens(s@),
                i <= toks@.len(),
                out@.len() == i,
                forall|k: int| 0 <= k < i ==> token_resolves(prefixes, #[trigger] ts[k]),
                forall|k: int| 0 <= k < i ==> #[trigger] out@[k]@ == token_value(prefixes, ts[k]),
            decreases toks@.len() - i,
        {
            match Property::from_str(toks[i].as_str(), prefixes) {
                Ok(p) => {
                    out.push(p);
                },
                Err(e) => {
                    assert(!token_resolves(prefixes, ts[i as int]));
                    return Err(e);
                },
            }
            i = i + 1;
        }
        let r = Properties(out);
        assert(r@ =~= ts.map_values(|t: Seq<char>| token_value(prefixes, t)));
        Ok(r)
    }

    /// Whether `property` is in the list, compared by namespace and name.
    pub fn contains(&self, property: &Property) -> (r: bool)
        ensures
            r == self@.contains(property@),
    {
        let mut i: usize = 0;
        while i < self.0.len()
            invariant
                i <= self.0@.len(),
                forall|k: int| 0 <= k < i ==> self.0@[k]@ != property@,
            decreases self.0@.len() - i,
        {
            if self.0[i].same(property) {
                assert(self@[i as int] == property@);
                return true;
            }
            i = i + 1;
        }
        proof {
            if self@.contains(property@) {
                let k = choose|k: int| 0 <= k < self@.len() && self@[k] == property@;
                assert(self.0@[k]@ == property@);
            }
        }
        false
    }

    /// The number of properties.
    pub fn len(&self) -> (r: usize)
        ensures
            r == self@.len(),
    {
        self.0.len()
    }
}

} // verus!
