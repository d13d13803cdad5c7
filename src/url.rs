//! URLs of the logical file system of a publication (`epub:/...`).
use vstd::prelude::*;
use crate::text::{find_char, first_index, lemma_first_index_bounds, opt_view};
use vstd::string::*;

verus! {

/// What `url::Url::parse` makes of a text, serialized; `None` where it fails.
pub uninterp spec fn parsed_url(s: Seq<char>) -> Option<Seq<char>>;

/// What joining `rel` onto the URL `base` gives, serialized; `None` where it fails.
pub uninterp spec fn joined_url(base: Seq<char>, rel: Seq<char>) -> Option<Seq<char>>;

/// Relies on `url::Url::parse`, and on `Url`'s serialization for the text of the result.
#[verifier::external_body]
fn parse_text(s: &str) -> (r: Option<String>)
    ensures
        opt_view(r) == parsed_url(s@),
{
    url::Url::parse(s).ok().map(String::from)
}

/// Relies on `url::Url::join` (WHATWG reference resolution), after reading `base` back with
/// `url::Url::parse`.
#[verifier::external_body]
fn join_text(base: &str, rel: &str) -> (r: Option<String>)
    ensures
        opt_view(r) == joined_url(base@, rel@),
{
    url::Url::parse(base).ok()?.join(rel).ok().map(String::from)
}

/// An absolute URL, held in its serialized form.
#[derive(Debug, PartialEq, Eq, Clone, Hash, PartialOrd, Ord)]
pub struct Url {
    text: String,
}

impl View for Url {
    type V = Seq<char>;

    closed spec fn view(&self) -> Seq<char> {
        self.text@
    }
}

/// A serialized URL without its fragment.
pub open spec fn strip_fragment(s: Seq<char>) -> Seq<char> {
    let i = first_index(s, '#');
    if i >= 0 {
        s.take(i)
    } else {
        s
    }
}

/// The view of an optional URL.
pub open spec fn opt_url_view(u: Option<Url>) -> Option<Seq<char>> {
    match u {
        Some(x) => Some(x@),
        None => None,
    }
}

/// The logical root of every publication, `epub:/`.
pub open spec fn epub_root_view() -> Seq<char> {
    "epub:/"@
}

impl Url {
    /// The logical root `epub:/`, which is already in serialized form.
    pub fn epub_root() -> (r: Url)
        ensures
            r@ == epub_root_view(),
    {
        Url { text: "epub:/".to_string() }
    }

    /// Parses an absolute URL.
    pub fn parse(s: &str) -> (r: Option<Url>)
        ensures
            opt_url_view(r) == parsed_url(s@),
    {
        match parse_text(s) {
            Some(text) => Some(Url { text }),
            None => None,
        }
    }

    /// Resolves `rel` against this URL.
    pub fn join(&self, rel: &str) -> (r: Option<Url>)
        ensures
            opt_url_view(r) == joined_url(self@, rel@),
    {
        match join_text(self.text.as_str(), rel) {
            Some(text) => Some(Url { text }),
            None => None,
        }
    }

    /// The serialized URL.
    pub fn as_str(&self) -> (r: &str)
        ensures
            r@ == self@,
    {
        self.text.as_str()
    }

    /// The same URL without its fragment (`a.xhtml#x` gives `a.xhtml`).
    pub fn without_fragment(&self) -> (r: Url)
        ensures
            r@ == strip_fragment(self@),
    {
        proof { lemma_first_index_bounds(self@, '#'); }
        match find_char(self.text.as_str(), '#') {
            Some(i) => {
                let t = self.text.as_str().substring_char(0, i);
                assert(self@.subrange(0, i as int) =~= self@.take(i as int));
                Url { text: t.to_owned() }
            },
            None => Url { text: self.text.clone() },
        }
    }

    /// Whether both are the same URL.
    pub fn same(&self, other: &Url) -> (r: bool)
        ensures
            r == (self@ == other@),
    {
        self.text.eq(&other.text)
    }

    /// A copy of this URL.
    pub fn copy(&self) -> (r: Url)
        ensures
            r@ == self@,
    {
        Url { text: self.text.clone() }
    }
}

} // verus!
