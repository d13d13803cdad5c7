//! The manifest: every resource of a package, with unique ids and hrefs.
use vstd::prelude::*;
use crate::media_type::MediaType;
use crate::prefix::{OPF_URI, Prefix};
use crate::property::{Properties, Property};
use crate::text::opt_view;
use crate::url::Url;

verus! {

/// A publication resource.
#[derive(Debug, PartialEq, Clone)]
pub struct Resource {
    pub id: String,
    pub href: Url,
    pub media_type: MediaType,
    pub fallback: Option<String>,
    pub media_overlay: Option<String>,
    pub properties: Option<Properties>,
}

/// Why a list of resources is not a manifest.
#[derive(Debug, PartialEq, Clone)]
pub enum ManifestCheckError {
    DeduplicatedId(String),
    DeduplicatedHref(Url),
    NavResourceNotFound,
    MultipleNavResources,
    IdNotFound(String),
}

/// The `nav` property of the package vocabulary.
pub open spec fn nav_property() -> (Seq<char>, Seq<char>) {
    (OPF_URI@, "nav"@)
}

/// Whether the resource carries the `nav` property.
pub open spec fn is_nav(r: Resource) -> bool {
    match r.properties {
        Some(p) => p@.contains(nav_property()),
        None => false,
    }
}

/// How many of the resources carry the `nav` property.
pub open spec fn nav_count(rs: Seq<Resource>) -> nat
    decreases rs.len(),
{
    if rs.len() == 0 {
        0
    } else {
        nav_count(rs.drop_last()) + if is_nav(rs.last()) { 1nat } else { 0nat }
    }
}

/// Whether the resource at `i` repeats the id of an earlier one.
pub open spec fn id_repeats(rs: Seq<Resource>, i: int) -> bool {
    exists|j: int| 0 <= j < i && rs[j].id@ == rs[i].id@
}

/// Whether the resource at `i` repeats the href of an earlier one.
pub open spec fn href_repeats(rs: Seq<Resource>, i: int) -> bool {
    exists|j: int| 0 <= j < i && rs[j].href@ == rs[i].href@
}

/// No resource before `i` repeats an id or an href.
pub open spec fn distinct_before(rs: Seq<Resource>, i: int) -> bool {
    forall|k: int| 0 <= k < i ==> !id_repeats(rs, k) && !href_repeats(rs, k)
}

/// Whether some resource has the id `id`.
pub open spec fn has_id(rs: Seq<Resource>, id: Seq<char>) -> bool {
    exists|k: int| 0 <= k < rs.len() && rs[k].id@ == id
}

/// Whether the fallback of the resource at `i`, if any, names a resource.
pub open spec fn fallback_ok(rs: Seq<Resource>, i: int) -> bool {
    match rs[i].fallback {
        Some(f) => has_id(rs, f@),
        None => true,
    }
}

/// Ids and hrefs are unique, fallbacks resolve, and exactly one resource is the nav resource.
pub open spec fn valid_resources(rs: Seq<Resource>) -> bool {
    &&& distinct_before(rs, rs.len() as int)
    &&& forall|i: int| 0 <= i < rs.len() ==> fallback_ok(rs, i)
    &&& nav_count(rs) == 1
}

/// Position of the first resource with the id `id`, or -1.
pub open spec fn index_by_id(rs: Seq<Resource>, id: Seq<char>) -> int
    decreases rs.len(),
{
    if rs.len() == 0 {
        -1
    } else {
        let r = index_by_id(rs.drop_last(), id);
        if r >= 0 {
            r
        } else if rs.last().id@ == id {
            rs.len() - 1
        } else {
            -1
        }
    }
}

/// Position of the first resource with the href `href`, or -1.
pub open spec fn index_by_href(rs: Seq<Resource>, href: Seq<char>) -> int
    decreases rs.len(),
{
    if rs.len() == 0 {
        -1
    } else {
        let r = index_by_href(rs.drop_last(), href);
        if r >= 0 {
            r
        } else if rs.last().href@ == href {
            rs.len() - 1
        } else {
            -1
        }
    }
}

/// The resource with the id `id`, if any.
pub open spec fn by_id(rs: Seq<Resource>, id: Seq<char>) -> Option<Resource> {
    let i = index_by_id(rs, id);
    if i >= 0 {
        Some(rs[i])
    } else {
        None
    }
}

/// The resource with the href `href`, if any.
pub open spec fn by_href(rs: Seq<Resource>, href: Seq<char>) -> Option<Resource> {
    let i = index_by_href(rs, href);
    if i >= 0 {
        Some(rs[i])
    } else {
        None
    }
}

proof fn lemma_index_by_id(rs: Seq<Resource>, id: Seq<char>)
    ensures
        -1 <= index_by_id(rs, id) < rs.len(),
        index_by_id(rs, id) >= 0 ==> rs[index_by_id(rs, id)].id@ == id,
        index_by_id(rs, id) == -1 ==> !has_id(rs, id),
    decreases rs.len(),
{
    if rs.len() > 0 {
        let t = rs.drop_last();
        lemma_index_by_id(t, id);
        assert forall|j: int| 0 <= j < t.len() implies t[j] == rs[j] by {}
        if index_by_id(rs, id) == -1 {
            assert forall|j: int| 0 <= j < rs.len() implies rs[j].id@ != id by {
                if j < t.len() { assert(t[j] == rs[j]); }
            }
        }
    }
}

proof fn lemma_index_by_href(rs: Seq<Resource>, href: Seq<char>)
    ensures
        -1 <= index_by_href(rs, href) < rs.len(),
        index_by_href(rs, href) >= 0 ==> rs[index_by_href(rs, href)].href@ == href,
        index_by_href(rs, href) == -1 ==> forall|j: int| 0 <= j < rs.len() ==> rs[j].href@ != href,
    decreases rs.len(),
{
    if rs.len() > 0 {
        let t = rs.drop_last();
        lemma_index_by_href(t, href);
        assert forall|j: int| 0 <= j < t.len() implies t[j] == rs[j] by {}
        if index_by_href(rs, href) == -1 {
            assert forall|j: int| 0 <= j < rs.len() implies rs[j].href@ != href by {
                if j < t.len() { assert(t[j] == rs[j]); }
            }
        }
    }
}

proof fn lemma_by_id(rs: Seq<Resource>, k: int, id: Seq<char>)
    requires
        distinct_before(rs, rs.len() as int),
        0 <= k < rs.len(),
        rs[k].id@ == id,
    ensures
        by_id(rs, id) == Some(rs[k]),
{
    lemma_index_by_id(rs, id);
    let c = index_by_id(rs, id);
    if c == -1 { assert(has_id(rs, id)); }
    if c < k { assert(rs[c].id@ == rs[k].id@); assert(id_repeats(rs, k)); }
    if c > k { assert(rs[k].id@ == rs[c].id@); assert(id_repeats(rs, c)); }
}

proof fn lemma_by_href(rs: Seq<Resource>, k: int, href: Seq<char>)
    requires
        distinct_before(rs, rs.len() as int),
        0 <= k < rs.len(),
        rs[k].href@ == href,
    ensures
        by_href(rs, href) == Some(rs[k]),
{
    lemma_index_by_href(rs, href);
    let c = index_by_href(rs, href);
    if c < k { assert(rs[c].href@ == rs[k].href@); assert(href_repeats(rs, k)); }
    if c > k { assert(rs[k].href@ == rs[c].href@); assert(href_repeats(rs, c)); }
}

/// The exhaustive list of publication resources; it cannot be changed once built.
#[derive(Debug)]
pub struct Manifest {
    id: Option<String>,
    resources: Vec<Resource>,
    nav_resource: usize,
}

/// What checking a list of resources gives: a manifest exactly when they are valid; otherwise
/// the first failing check, in the order ids and hrefs, fallbacks, nav resources.
pub open spec fn manifest_outcome(id: Option<Seq<char>>, resources: Seq<Resource>, r: Result<Manifest, ManifestCheckError>) -> bool {
    &&& (r is Ok <==> valid_resources(resources))
    &&& (r matches Ok(m) ==> m.wf() && m.resources() == resources && m.id_view() == id)
    &&& (r matches Err(ManifestCheckError::DeduplicatedId(x)) ==> exists|i: int| 0 <= i < resources.len()
                && distinct_before(resources, i) && id_repeats(resources, i) && x@ == resources[i].id@)
    &&& ((exists|i: int| 0 <= i < resources.len() && distinct_before(resources, i) && id_repeats(resources, i))
                ==> r matches Err(ManifestCheckError::DeduplicatedId(_)))
    &&& (r matches Err(ManifestCheckError::DeduplicatedHref(x)) ==> exists|i: int| 0 <= i < resources.len()
                && distinct_before(resources, i) && !id_repeats(resources, i) && href_repeats(resources, i)
                && x@ == resources[i].href@)
    &&& ((exists|i: int| 0 <= i < resources.len() && distinct_before(resources, i) && !id_repeats(resources, i)
                && href_repeats(resources, i)) ==> r matches Err(ManifestCheckError::DeduplicatedHref(_)))
    &&& (r matches Err(ManifestCheckError::IdNotFound(f)) ==> distinct_before(resources, resources.len() as int)
                && exists|i: int| 0 <= i < resources.len() && (forall|k: int| 0 <= k < i ==> fallback_ok(resources, k))
                && !fallback_ok(resources, i) && Some(f@) == opt_view(resources[i].fallback))
    &&& ((distinct_before(resources, resources.len() as int) && exists|i: int| 0 <= i < resources.len()
                && !fallback_ok(resources, i)) ==> r matches Err(ManifestCheckError::IdNotFound(_)))
    &&& ((r matches Err(ManifestCheckError::NavResourceNotFound)) <==> distinct_before(resources, resources.len() as int)
                && (forall|i: int| 0 <= i < resources.len() ==> fallback_ok(resources, i)) && nav_count(resources) == 0)
    &&& ((r matches Err(ManifestCheckError::MultipleNavResources)) <==> distinct_before(resources, resources.len() as int)
                && (forall|i: int| 0 <= i < resources.len() ==> fallback_ok(resources, i)) && nav_count(resources) >= 2)
}

proof fn lemma_nav_count_prefix(rs: Seq<Resource>, i: int)
    requires
        0 <= i < rs.len(),
    ensures
        nav_count(rs.take(i + 1)) == nav_count(rs.take(i)) + if is_nav(rs[i]) { 1nat } else { 0nat },
{
    assert(rs.take(i + 1).drop_last() =~= rs.take(i));
}

proof fn lemma_nav_count_unique(rs: Seq<Resource>, i: int, j: int)
    requires
        0 <= i < rs.len(),
        0 <= j < rs.len(),
        i != j,
        is_nav(rs[i]),
        is_nav(rs[j]),
    ensures
        nav_count(rs) >= 2,
    decreases rs.len(),
{
    let t = rs.drop_last();
    let n = rs.len() - 1;
    if i == n {
        assert(t[j] == rs[j]);
        lemma_nav_count_some(t, j);
    } else if j == n {
        assert(t[i] == rs[i]);
        lemma_nav_count_some(t, i);
    } else {
        assert(t[i] == rs[i]);
        assert(t[j] == rs[j]);
        lemma_nav_count_unique(t, i, j);
    }
}

proof fn lemma_nav_count_some(rs: Seq<Resource>, i: int)
    requires
        0 <= i < rs.len(),
        is_nav(rs[i]),
    ensures
        nav_count(rs) >= 1,
    decreases rs.len(),
{
    if i < rs.len() - 1 {
        assert(rs.drop_last()[i] == rs[i]);
        lemma_nav_count_some(rs.drop_last(), i);
    }
}

/// Looks for a resource with the id `id`.
fn find_id(rs: &Vec<Resource>, id: &str) -> (r: Option<usize>)
    ensures
        match r {
            Some(k) => k < rs@.len() && rs@[k as int].id@ == id@,
            None => !has_id(rs@, id@),
        },
{
    let mut k: usize = 0;
    while k < rs.len()
        invariant
            k <= rs@.len(),
            forall|j: int| 0 <= j < k ==> rs@[j].id@ != id@,
        decreases rs@.len() - k,
    {
        if crate::text::str_eq(rs[k].id.as_str(), id) {
            return Some(k);
        }
        k = k + 1;
    }
    None
}

/// Looks for a resource with the href `href`.
fn find_href(rs: &Vec<Resource>, href: &Url) -> (r: Option<usize>)
    ensures
        match r {
            Some(k) => k < rs@.len() && rs@[k as int].href@ == href@,
            None => forall|j: int| 0 <= j < rs@.len() ==> rs@[j].href@ != href@,
        },
{
    let mut k: usize = 0;
    while k < rs.len()
        invariant
            k <= rs@.len(),
            forall|j: int| 0 <= j < k ==> rs@[j].href@ != href@,
        decreases rs@.len() - k,
    {
        if rs[k].href.same(href) {
            return Some(k);
        }
        k = k + 1;
    }
    None
}

/// Whether the resource carries the `nav` property.
fn resource_is_nav(r: &Resource, nav: &Property) -> (b: bool)
    requires
        nav@ == nav_property(),
    ensures
        b == is_nav(*r),
{
    match &r.properties {
        Some(p) => p.contains(nav),
        None => false,
    }
}

impl Manifest {
    /// The resources, in document order.
    pub closed spec fn resources(&self) -> Seq<Resource> {
        self.resources@
    }

    /// The id of the manifest element.
    pub closed spec fn id_view(&self) -> Option<Seq<char>> {
        opt_view(self.id)
    }

    /// The id of the manifest element.
    pub fn id(&self) -> (r: &Option<String>)
        ensures
            opt_view(*r) == self.id_view(),
    {
        &self.id
    }

    /// A manifest is always well formed.
    #[verifier::type_invariant]
    pub open spec fn inv(&self) -> bool {
        self.wf()
    }

    /// The well-formedness of a manifest: valid resources and the index of the nav resource.
    pub closed spec fn wf(&self) -> bool {
        &&& valid_resources(self.resources@)
        &&& self.nav_resource < self.resources@.len()
        &&& is_nav(self.resources@[self.nav_resource as int])
    }

    /// The resource with the id `id`, if any.
    pub open spec fn resource_by_id(&self, id: Seq<char>) -> Option<Resource> {
        by_id(self.resources(), id)
    }

    /// The resource with the href `href`, if any.
    pub open spec fn resource_by_href(&self, href: Seq<char>) -> Option<Resource> {
        by_href(self.resources(), href)
    }

    /// Checks the resources and builds the manifest. The checks run in this order: a repeated
    /// id or href (at the first resource that repeats one, its id first), a fallback that names
    /// no resource (at the first such resource), and the count of nav resources.
    pub fn new(id: Option<&str>, resources: Vec<Resource>) -> (r: Result<Manifest, ManifestCheckError>)
        ensures
            manifest_outcome(match id {
                Some(s) => Some(s@),
                None => None::<Seq<char>>,
            }, resources@, r),
    {
        let ghost rs = resources@;
        let n = resources.len();
        let mut i: usize = 0;
        while i < n
            invariant
                n == rs.len(),
                rs == resources@,
                i <= n,
                distinct_before(rs, i as int),
            decreases n - i,
        {
            let mut j: usize = 0;
            while j < i
                invariant
                    n == rs.len(),
                    rs == resources@,
                    i < n,
                    j <= i,
                    distinct_before(rs, i as int),
                    forall|k: int| 0 <= k < j ==> rs[k].id@ != rs[i as int].id@,
                decreases i - j,
            {
                if resources[j].id.eq(&resources[i].id) {
                    proof {
                        assert(id_repeats(rs, i as int));
                        assert forall|i2: int| 0 <= i2 < rs.len() && distinct_before(rs, i2) && id_repeats(rs, i2) implies i2 == i by {
                            if i2 < i { assert(!id_repeats(rs, i2)); }
                            if i2 > i { assert(!id_repeats(rs, i as int)); }
                        }
                    }
                    return Err(ManifestCheckError::DeduplicatedId(resources[i].id.clone()));
                }
                j = j + 1;
            }
            assert(!id_repeats(rs, i as int));
            let mut j: usize = 0;
            while j < i
                invariant
                    n == rs.len(),
                    rs == resources@,
                    i < n,
                    j <= i,
                    distinct_before(rs, i as int),
                    !id_repeats(rs, i as int),
                    forall|k: int| 0 <= k < j ==> rs[k].href@ != rs[i as int].href@,
                decreases i - j,
            {
                if resources[j].href.same(&resources[i].href) {
                    proof {
                        assert(href_repeats(rs, i as int));
                        assert forall|i2: int| 0 <= i2 < rs.len() && distinct_before(rs, i2) && !id_repeats(rs, i2) && href_repeats(rs, i2) implies i2 == i by {
                            if i2 < i { assert(!href_repeats(rs, i2)); }
                            if i2 > i { assert(!href_repeats(rs, i as int)); }
                        }
                        assert forall|i2: int| !(0 <= i2 < rs.len() && distinct_before(rs, i2) && id_repeats(rs, i2)) by {
                            if 0 <= i2 < rs.len() && distinct_before(rs, i2) && id_repeats(rs, i2) {
                                if i2 <= i { assert(!id_repeats(rs, i2)); }
                                if i2 > i { assert(!href_repeats(rs, i as int)); }
                            }
                        }
                    }
                    return Err(ManifestCheckError::DeduplicatedHref(resources[i].href.copy()));
                }
                j = j + 1;
            }
            assert(!href_repeats(rs, i as int));
            i = i + 1;
        }
        proof {
            assert forall|i2: int| !(0 <= i2 < rs.len() && distinct_before(rs, i2) && (id_repeats(rs, i2) || href_repeats(rs, i2))) by {
                if 0 <= i2 < rs.len() && (id_repeats(rs, i2) || href_repeats(rs, i2)) {
                    assert(!id_repeats(rs, i2) && !href_repeats(rs, i2));
                }
            }
        }
        // every fallback names a resource
        let mut i: usize = 0;
        while i < n
            invariant
                n == rs.len(),
                rs == resources@,
                i <= n,
                distinct_before(rs, n as int),
                forall|k: int| 0 <= k < i ==> fallback_ok(rs, k),
            decreases n - i,
        {
            match &resources[i].fallback {
                Some(f) => {
                    if find_id(&resources, f.as_str()).is_none() {
                        proof {
                            assert(!fallback_ok(rs, i as int));
                            assert forall|i2: int| 0 <= i2 < rs.len() && (forall|k: int| 0 <= k < i2 ==> fallback_ok(rs, k))
                                && !fallback_ok(rs, i2) implies i2 == i by {
                                if i2 > i { assert(fallback_ok(rs, i as int) == false); }
                            }
                        }
                        return Err(ManifestCheckError::IdNotFound(f.clone()));
                    }
                },
                None => {},
            }
            i = i + 1;
        }
        // exactly one nav resource
        let nav = Property::from_prefix(&Prefix::opf(), "nav".to_string());
        assert(nav@ == nav_property()) by {
            reveal_strlit("nav");
        }
        let mut found: Option<usize> = None;
        let mut i: usize = 0;
        while i < n
            invariant
                n == rs.len(),
                rs == resources@,
                i <= n,
                nav@ == nav_property(),
                distinct_before(rs, n as int),
                forall|k: int| 0 <= k < n ==> fallback_ok(rs, k),
                nav_count(rs.take(i as int)) <= 1,
                match found {
                    Some(k) => k < i && is_nav(rs[k as int]) && nav_count(rs.take(i as int)) == 1,
                    None => nav_count(rs.take(i as int)) == 0,
                },
            decreases n - i,
        {
            proof { lemma_nav_count_prefix(rs, i as int); }
            if resource_is_nav(&resources[i], &nav) {
                if let Some(k) = found {
                    proof {
                        assert(rs.take(i as int + 1)[k as int] == rs[k as int]);
                        assert(rs.take(i as int + 1)[i as int] == rs[i as int]);
                        lemma_nav_count_unique(rs.take(i as int + 1), k as int, i as int);
                        lemma_nav_count_more(rs, i as int + 1);
                    }
                    return Err(ManifestCheckError::MultipleNavResources);
                }
                found = Some(i);
            }
            i = i + 1;
        }
        assert(rs.take(n as int) =~= rs);
        match found {
            Some(k) => {
                assert(nav_count(rs) == 1);
                assert(valid_resources(rs));
                let m = Manifest { id: match id { Some(s) => Some(s.to_string()), None => None }, resources, nav_resource: k };
                Ok(m)
            },
            None => Err(ManifestCheckError::NavResourceNotFound),
        }
    }

    /// The resource with the id `id`.
    pub fn get_resource_by_id(&self, id: &str) -> (r: Option<&Resource>)
        ensures
            match r {
                Some(x) => self.resource_by_id(id@) == Some(*x),
                None => self.resource_by_id(id@) is None,
            },
    {
        proof { use_type_invariant(self); }
        match find_id(&self.resources, id) {
            Some(k) => {
                proof { self.lemma_id_unique(k as int, id@); }
                Some(&self.resources[k])
            },
            None => {
                proof { lemma_index_by_id(self.resources(), id@); }
                None
            },
        }
    }

    /// The resource with the href `href`.
    pub fn get_resource_by_href(&self, href: &Url) -> (r: Option<&Resource>)
        ensures
            match r {
                Some(x) => self.resource_by_href(href@) == Some(*x),
                None => self.resource_by_href(href@) is None,
            },
    {
        proof { use_type_invariant(self); }
        match find_href(&self.resources, href) {
            Some(k) => {
                proof { self.lemma_href_unique(k as int, href@); }
                Some(&self.resources[k])
            },
            None => {
                proof { lemma_index_by_href(self.resources(), href@); }
                None
            },
        }
    }

    /// The nav resource.
    pub fn nav_resource(&self) -> (r: Option<&Resource>)
        ensures
            r matches Some(x) && is_nav(*x) && self.resources().contains(*x),
    {
        proof { use_type_invariant(self); }
        Some(&self.resources[self.nav_resource])
    }

    /// The number of resources.
    pub fn len(&self) -> (r: usize)
        ensures
            r == self.resources().len(),
    {
        self.resources.len()
    }

    /// The resource at `i`, in document order.
    pub fn get(&self, i: usize) -> (r: Option<&Resource>)
        ensures
            i < self.resources().len() ==> r == Some(&self.resources()[i as int]),
            i >= self.resources().len() ==> r is None,
    {
        if i < self.resources.len() {
            Some(&self.resources[i])
        } else {
            None
        }
    }

    proof fn lemma_id_unique(&self, k: int, id: Seq<char>)
        requires
            self.wf(),
            0 <= k < self.resources().len(),
            self.resources()[k].id@ == id,
        ensures
            self.resource_by_id(id) == Some(self.resources()[k]),
    {
        lemma_by_id(self.resources(), k, id);
    }

    proof fn lemma_href_unique(&self, k: int, href: Seq<char>)
        requires
            self.wf(),
            0 <= k < self.resources().len(),
            self.resources()[k].href@ == href,
        ensures
            self.resource_by_href(href) == Some(self.resources()[k]),
    {
        lemma_by_href(self.resources(), k, href);
    }

    /// Looking a resource up by its id and then by its href finds that same resource.
    pub proof fn lemma_id_then_href(&self, id: Seq<char>)
        requires
            self.wf(),
            self.resource_by_id(id) is Some,
        ensures
            self.resource_by_href(self.resource_by_id(id)->0.href@) == self.resource_by_id(id),
    {
        let rs = self.resources();
        lemma_index_by_id(rs, id);
        let k = index_by_id(rs, id);
        self.lemma_href_unique(k, rs[k].href@);
    }

    /// A manifest has exactly one nav resource.
    pub proof fn lemma_one_nav(&self)
        requires
            self.wf(),
        ensures
            nav_count(self.resources()) == 1,
            exists|k: int| 0 <= k < self.resources().len() && is_nav(self.resources()[k]),
            forall|i: int, j: int| 0 <= i < self.resources().len() && 0 <= j < self.resources().len()
                && is_nav(self.resources()[i]) && is_nav(self.resources()[j]) ==> i == j,
    {
        let rs = self.resources();
        assert(is_nav(rs[self.nav_resource as int]));
        assert forall|i: int, j: int| 0 <= i < rs.len() && 0 <= j < rs.len()
            && is_nav(rs[i]) && is_nav(rs[j]) implies i == j by {
            if i != j { lemma_nav_count_unique(rs, i, j); }
        }
    }
}

proof fn lemma_nav_count_more(rs: Seq<Resource>, k: int)
    requires
        0 <= k <= rs.len(),
    ensures
        nav_count(rs) >= nav_count(rs.take(k)),
    decreases rs.len() - k,
{
    if k < rs.len() {
        lemma_nav_count_prefix(rs, k);
        lemma_nav_count_more(rs, k + 1);
    } else {
        assert(rs.take(k) =~= rs);
    }
}

} // verus!
