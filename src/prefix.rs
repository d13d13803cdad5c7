//! Namespace prefixes and the stack of prefix scopes.
use vstd::prelude::*;
use crate::text::{opt_view, opt_eq, owned, split_white, tokens};
use vstd::string::*;

verus! {

/// A prefix bound to a namespace URI; a `None` name is the default namespace.
#[derive(Debug, PartialEq, Clone, Hash, Eq)]
pub struct Prefix {
    pub name: Option<String>,
    pub uri: String,
}

/// What the entries of a scope say about `key`: the URI of the first entry named so.
pub open spec fn lookup(entries: Seq<Prefix>, key: Option<Seq<char>>) -> Option<Seq<char>>
    decreases entries.len(),
{
    if entries.len() == 0 {
        None
    } else {
        match lookup(entries.drop_last(), key) {
            Some(u) => Some(u),
            None => if opt_view(entries.last().name) == key {
                Some(entries.last().uri@)
            } else {
                None
            },
        }
    }
}

/// Something that maps prefixes to namespace URIs.
pub trait PrefixMap {
    /// The URI that `prefix` stands for, if any.
    spec fn resolves(&self, prefix: Option<Seq<char>>) -> Option<Seq<char>>;

    /// Looks up the namespace URI of `prefix`; `None` asks for the default namespace.
    fn get(&self, prefix: &Option<String>) -> (r: Option<String>)
        ensures
            opt_view(r) == self.resolves(opt_view(*prefix)),
    ;
}

pub const DC_URI: &'static str = "http://purl.org/dc/elements/1.1/";
pub const DCTERMS_URI: &'static str = "http://purl.org/dc/terms/";
pub const A11Y_URI: &'static str = "http://www.idpf.org/epub/vocab/package/a11y/#";
pub const MARC_URI: &'static str = "http://id.loc.gov/vocabulary/";
pub const MEDIA_URI: &'static str = "http://www.idpf.org/epub/vocab/overlays/#";
pub const ONIX_URI: &'static str = "http://www.editeur.org/ONIX/book/codelists/current.html#";
pub const RENDITION_URI: &'static str = "http://www.idpf.org/vocab/rendition/#";
pub const SCHEMA_URI: &'static str = "http://schema.org/";
pub const XSD_URI: &'static str = "http://www.w3.org/2001/XMLSchema#";
pub const MSV_URI: &'static str = "http://www.idpf.org/epub/vocab/structure/magazine/#";
pub const PRISM_URI: &'static str = "http://www.prismstandard.org/specifications/3.0/PRISM_CV_Spec_3.0.htm#";
pub const OPF_URI: &'static str = "http://www.idpf.org/2007/opf";

/// Whether a token of a `prefix` attribute declares a prefix (`name:`).
pub open spec fn is_prefix_decl(t: Seq<char>) -> bool {
    t.len() >= 2 && t.last() == ':'
}

/// The bindings that the tokens of a `prefix` attribute make: each `name:` token binds `name`
/// to the token after it; other tokens are skipped.
pub open spec fn prefix_bindings(ts: Seq<Seq<char>>) -> Seq<(Option<Seq<char>>, Seq<char>)>
    decreases ts.len(),
{
    if ts.len() < 2 {
        seq![]
    } else if is_prefix_decl(ts[0]) {
        seq![(Some(ts[0].drop_last()), ts[1])] + prefix_bindings(ts.skip(2))
    } else {
        prefix_bindings(ts.skip(1))
    }
}

/// Reads the bindings of a `prefix` attribute, such as `foaf: http://xmlns.com/foaf/spec/`.
pub fn parse_prefix_attr(s: &str) -> (r: Vec<Prefix>)
    ensures
        entries_view(r@) == prefix_bindings(tokens(s@)),
{
    let toks = split_white(s);
    let ghost ts = tokens(s@);
    let n = toks.len();
    let mut out: Vec<Prefix> = Vec::new();
    let mut i: usize = 0;
    assert(ts.skip(0) =~= ts);
    while i < n && i + 1 < n
        invariant
            n == ts.len(),
            toks@.len() == n,
            forall|k: int| 0 <= k < n ==> #[trigger] toks@[k]@ == ts[k],
            i <= n,
            entries_view(out@) + prefix_bindings(ts.skip(i as int)) == prefix_bindings(ts),
        decreases n - i,
    {
        let t = toks[i].as_str();
        let len = t.unicode_len();
        let ghost rest = ts.skip(i as int);
        assert(rest[0] == ts[i as int]);
        if len >= 2 && t.get_char(len - 1) == ':' {
            let name = t.substring_char(0, len - 1);
            let p = Prefix { name: Some(name.to_owned()), uri: toks[i + 1].clone() };
            let ghost before = out@;
            out.push(p);
            proof {
                assert(rest[1] == ts[i + 1]);
                assert(rest.skip(2) =~= ts.skip(i + 2));
                assert(name@ =~= ts[i as int].drop_last());
                assert(entries_view(out@) =~= entries_view(before) + seq![(Some(ts[i as int].drop_last()), ts[i + 1])]);
                assert(entries_view(out@) + prefix_bindings(ts.skip(i + 2)) =~= entries_view(before) + prefix_bindings(rest));
            }
            i = i + 2;
        } else {
            proof {
                assert(rest.skip(1) =~= ts.skip(i + 1));
            }
            i = i + 1;
        }
    }
    assert(prefix_bindings(ts.skip(i as int)) =~= seq![]);
    assert(entries_view(out@) =~= entries_view(out@) + seq![]);
    out
}

/// A copy of a list of prefix bindings.
pub fn copy_prefixes(v: &Vec<Prefix>) -> (r: Vec<Prefix>)
    ensures
        r@ == v@,
{
    let mut out: Vec<Prefix> = Vec::new();
    let mut i: usize = 0;
    while i < v.len()
        invariant
            i <= v@.len(),
            out@ == v@.take(i as int),
        decreases v@.len() - i,
    {
        let p = Prefix { name: copy_opt(&v[i].name), uri: v[i].uri.clone() };
        out.push(p);
        i = i + 1;
        assert(out@ =~= v@.take(i as int));
    }
    assert(v@.take(v@.len() as int) =~= v@);
    out
}

fn copy_opt(o: &Option<String>) -> (r: Option<String>)
    ensures
        r == *o,
{
    match o {
        Some(s) => Some(s.clone()),
        None => None,
    }
}

/// The resolution of a scope declaring `own` inside the resolution `outer`.
pub open spec fn within(own: Seq<(Option<Seq<char>>, Seq<char>)>, outer: spec_fn(Option<Seq<char>>) -> Option<Seq<char>>) -> spec_fn(Option<Seq<char>>) -> Option<Seq<char>> {
    |key: Option<Seq<char>>| match lookup_view(own, key) {
        Some(u) => Some(u),
        None => outer(key),
    }
}

/// What plain bindings say about `key`: the URI of the first one named so.
pub open spec fn lookup_view(entries: Seq<(Option<Seq<char>>, Seq<char>)>, key: Option<Seq<char>>) -> Option<Seq<char>>
    decreases entries.len(),
{
    if entries.len() == 0 {
        None
    } else {
        match lookup_view(entries.drop_last(), key) {
            Some(u) => Some(u),
            None => if entries.last().0 == key {
                Some(entries.last().1)
            } else {
                None
            },
        }
    }
}

/// Looking up in bindings and in their plain view agree.
pub proof fn lemma_lookup_view(e: Seq<Prefix>, key: Option<Seq<char>>)
    ensures
        lookup(e, key) == lookup_view(entries_view(e), key),
    decreases e.len(),
{
    if e.len() > 0 {
        lemma_lookup_view(e.drop_last(), key);
        assert(entries_view(e).drop_last() =~= entries_view(e.drop_last()));
    }
}

/// The resolution in which no prefix is bound.
pub open spec fn no_resolution() -> spec_fn(Option<Seq<char>>) -> Option<Seq<char>> {
    |key: Option<Seq<char>>| None
}

/// The resolution of a stack of scopes, as a function.
pub open spec fn stack_resolution(scopes: Seq<Prefixes>) -> spec_fn(Option<Seq<char>>) -> Option<Seq<char>> {
    |key: Option<Seq<char>>| stack_lookup(scopes, key)
}

/// A stack of one scope resolves as that scope alone.
pub proof fn lemma_single_scope(scope: Prefixes)
    ensures
        stack_resolution(seq![scope]) =~= within(entries_view(scope.entries()), no_resolution()),
{
    let one = seq![scope];
    assert(one.drop_last() =~= Seq::<Prefixes>::empty());
    assert(one.last() == scope);
    assert forall|k: Option<Seq<char>>| #[trigger] stack_resolution(one)(k) == within(entries_view(scope.entries()), no_resolution())(k) by {
        assert(stack_lookup(one.drop_last(), k) is None);
        lemma_lookup_view(scope.entries(), k);
    }
}

/// Pushing a scope nests its declarations inside those of the stack.
pub proof fn lemma_push_scope(scopes: Seq<Prefixes>, scope: Prefixes)
    ensures
        stack_resolution(scopes.push(scope)) =~= within(entries_view(scope.entries()), stack_resolution(scopes)),
{
    assert(scopes.push(scope).drop_last() =~= scopes);
    assert forall|k: Option<Seq<char>>| #[trigger] stack_resolution(scopes.push(scope))(k)
        == within(entries_view(scope.entries()), stack_resolution(scopes))(k) by {
        lemma_lookup_view(scope.entries(), k);
    }
}

fn named(name: &str, uri: &str) -> (r: Prefix)
    ensures
        r.name == Some(r.name->0),
        r.name->0@ == name@,
        r.uri@ == uri@,
{
    Prefix { name: Some(owned(name)), uri: owned(uri) }
}

impl Prefix {
    /// The `dc` prefix of Dublin Core elements.
    pub fn dc() -> (r: Prefix)
        ensures
            opt_view(r.name) == Some("dc"@),
            r.uri@ == DC_URI@,
    {
        named("dc", DC_URI)
    }

    /// The `dcterms` prefix of Dublin Core terms.
    pub fn dcterms() -> (r: Prefix)
        ensures
            opt_view(r.name) == Some("dcterms"@),
            r.uri@ == DCTERMS_URI@,
    {
        named("dcterms", DCTERMS_URI)
    }

    /// The default (unprefixed) namespace of package documents.
    pub fn opf() -> (r: Prefix)
        ensures
            r.name is None,
            r.uri@ == OPF_URI@,
    {
        Prefix { name: None, uri: owned(OPF_URI) }
    }
}

/// One scope of prefix declarations.
#[derive(Debug, PartialEq, Clone)]
pub struct Prefixes {
    entries: Vec<Prefix>,
}

/// The reserved prefixes, and the default namespace bound to the package namespace.
pub open spec fn reserved_view() -> Seq<(Option<Seq<char>>, Seq<char>)> {
    seq![
        (Some("dc"@), DC_URI@),
        (Some("dcterms"@), DCTERMS_URI@),
        (Some("a11y"@), A11Y_URI@),
        (Some("marc"@), MARC_URI@),
        (Some("media"@), MEDIA_URI@),
        (Some("onix"@), ONIX_URI@),
        (Some("rendition"@), RENDITION_URI@),
        (Some("schema"@), SCHEMA_URI@),
        (Some("xsd"@), XSD_URI@),
        (Some("msv"@), MSV_URI@),
        (Some("prism"@), PRISM_URI@),
        (None, OPF_URI@),
    ]
}

/// The entries of a scope as plain values.
pub open spec fn entries_view(e: Seq<Prefix>) -> Seq<(Option<Seq<char>>, Seq<char>)> {
    e.map_values(|p: Prefix| (opt_view(p.name), p.uri@))
}

impl Prefixes {
    pub closed spec fn entries(&self) -> Seq<Prefix> {
        self.entries@
    }

    /// A scope holding `prefixes`; where a name occurs twice the first one counts.
    pub fn new(prefixes: Vec<Prefix>) -> (r: Prefixes)
        ensures
            r.entries() == prefixes@,
    {
        Prefixes { entries: prefixes }
    }

    /// The scope of the reserved prefixes, which documents use without declaring them.
    pub fn reserved() -> (r: Prefixes)
        ensures
            entries_view(r.entries()) == reserved_view(),
    {
        let mut v: Vec<Prefix> = Vec::new();
        v.push(named("dc", DC_URI));
        v.push(named("dcterms", DCTERMS_URI));
        v.push(named("a11y", A11Y_URI));
        v.push(named("marc", MARC_URI));
        v.push(named("media", MEDIA_URI));
        v.push(named("onix", ONIX_URI));
        v.push(named("rendition", RENDITION_URI));
        v.push(named("schema", SCHEMA_URI));
        v.push(named("xsd", XSD_URI));
        v.push(named("msv", MSV_URI));
        v.push(named("prism", PRISM_URI));
        v.push(Prefix::opf());
        let r = Prefixes { entries: v };
        assert(entries_view(r.entries()) =~= reserved_view());
        r
    }

    /// The declarations of this scope.
    pub fn inner(&self) -> (r: &Vec<Prefix>)
        ensures
            r@ == self.entries(),
    {
        &self.entries
    }
}

impl PrefixMap for Prefixes {
    open spec fn resolves(&self, prefix: Option<Seq<char>>) -> Option<Seq<char>> {
        lookup(self.entries(), prefix)
    }

    fn get(&self, prefix: &Option<String>) -> (r: Option<String>) {
        let n = self.entries.len();
        let mut i: usize = 0;
        while i < n
            invariant
                n == self.entries@.len(),
                i <= n,
                lookup(self.entries@.take(i as int), opt_view(*prefix)) is None,
            decreases n - i,
        {
            assert(self.entries@.take(i as int + 1).drop_last() =~= self.entries@.take(i as int));
            let e = &self.entries[i];
            if opt_eq(&e.name, prefix) {
                proof { lemma_lookup_prefix(self.entries@, opt_view(*prefix), i as int + 1); }
                return Some(e.uri.clone());
            }
            i = i + 1;
        }
        assert(self.entries@.take(n as int) =~= self.entries@);
        None
    }
}

/// A hit in a prefix of the entries is the hit of the whole.
pub proof fn lemma_lookup_prefix(s: Seq<Prefix>, key: Option<Seq<char>>, k: int)
    requires
        0 <= k <= s.len(),
        lookup(s.take(k), key) is Some,
    ensures
        lookup(s, key) == lookup(s.take(k), key),
    decreases s.len() - k,
{
    if k < s.len() {
        assert(s.take(k + 1).drop_last() =~= s.take(k));
        lemma_lookup_prefix(s, key, k + 1);
    } else {
        assert(s.take(k) =~= s);
    }
}

/// What a stack of scopes says about `key`: the innermost scope that names it wins.
pub open spec fn stack_lookup(scopes: Seq<Prefixes>, key: Option<Seq<char>>) -> Option<Seq<char>>
    decreases scopes.len(),
{
    if scopes.len() == 0 {
        None
    } else {
        match lookup(scopes.last().entries(), key) {
            Some(u) => Some(u),
            None => stack_lookup(scopes.drop_last(), key),
        }
    }
}

/// A stack of prefix scopes, innermost last.
#[derive(Debug, PartialEq, Clone)]
pub struct PrefixesStack {
    scopes: Vec<Prefixes>,
}

impl PrefixesStack {
    pub closed spec fn scopes(&self) -> Seq<Prefixes> {
        self.scopes@
    }

    /// A stack holding `prefixes`, the last one innermost.
    pub fn new(prefixes: Vec<Prefixes>) -> (r: PrefixesStack)
        ensures
            r.scopes() == prefixes@,
    {
        PrefixesStack { scopes: prefixes }
    }

    /// An empty stack.
    pub fn empty() -> (r: PrefixesStack)
        ensures
            r.scopes() == Seq::<Prefixes>::empty(),
    {
        PrefixesStack { scopes: Vec::new() }
    }

    /// Opens a new innermost scope.
    pub fn push(&mut self, scope: Prefixes)
        ensures
            final(self).scopes() == old(self).scopes().push(scope),
    {
        self.scopes.push(scope);
    }

    /// Closes the innermost scope, if there is one.
    pub fn pop(&mut self)
        ensures
            old(self).scopes().len() > 0 ==> final(self).scopes() == old(self).scopes().drop_last(),
            old(self).scopes().len() == 0 ==> final(self).scopes() == old(self).scopes(),
    {
        let _ = self.scopes.pop();
    }

    /// Removes every scope.
    pub fn clear(&mut self)
        ensures
            final(self).scopes() == Seq::<Prefixes>::empty(),
    {
        self.scopes.clear();
    }

    /// The number of open scopes.
    pub fn len(&self) -> (r: usize)
        ensures
            r == self.scopes().len(),
    {
        self.scopes.len()
    }
}

impl PrefixMap for PrefixesStack {
    open spec fn resolves(&self, prefix: Option<Seq<char>>) -> Option<Seq<char>> {
        stack_lookup(self.scopes(), prefix)
    }

    fn get(&self, prefix: &Option<String>) -> (r: Option<String>) {
        let mut i: usize = self.scopes.len();
        assert(self.scopes@.take(i as int) =~= self.scopes@);
        while i > 0
            invariant
                i <= self.scopes@.len(),
                stack_lookup(self.scopes@, opt_view(*prefix)) == stack_lookup(
                    self.scopes@.take(i as int),
                    opt_view(*prefix),
                ),
            decreases i,
        {
            assert(self.scopes@.take(i as int).drop_last() =~= self.scopes@.take(i as int - 1));
            let r = self.scopes[i - 1].get(prefix);
            if r.is_some() {
                return r;
            }
            i = i - 1;
        }
        None
    }
}

} // verus!
