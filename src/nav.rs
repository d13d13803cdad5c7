//! The data of a navigation document's `nav` elements.
use vstd::prelude::*;
use crate::url::Url;

verus! {

/// The kind of a `nav` element, from its `epub:type`.
#[derive(Debug, PartialEq, Clone)]
pub enum NavType {
    TOC,
    Landmarks,
    PageList,
    Custom(String),
}

/// A `nav` element: its type, heading and entries.
#[derive(Debug)]
pub struct Nav {
    pub ty: String,
    pub title: Option<NavTitle>,
    pub children: Vec<NavPoint>,
}

/// The heading of a `nav` element and its level, 1 to 6 for `h1` to `h6`.
#[derive(Debug, PartialEq, Clone)]
pub struct NavTitle {
    pub text: String,
    pub level: usize,
}

/// The text of an entry and the URL it links to.
#[derive(Debug, PartialEq, Clone)]
pub struct NavLabel {
    pub text: String,
    pub href: Option<Url>,
}

/// An entry of a `nav` element, with its position and nested entries.
#[derive(Debug)]
pub struct NavPoint {
    pub label: NavLabel,
    pub order: usize,
    pub children: Vec<NavPoint>,
}

impl NavType {
    /// The type that an `epub:type` value names.
    pub fn from_epub_type(s: &str) -> (r: NavType)
        ensures
            s@ == "toc"@ ==> r == NavType::TOC,
            s@ == "landmarks"@ ==> r == NavType::Landmarks,
            s@ == "page-list"@ ==> r == NavType::PageList,
            s@ != "toc"@ && s@ != "landmarks"@ && s@ != "page-list"@ ==> (r matches NavType::Custom(c) && c@ == s@),
    {
        proof {
            reveal_strlit("toc");
            reveal_strlit("landmarks");
            reveal_strlit("page-list");
            assert("toc"@.len() != "landmarks"@.len());
            assert("toc"@.len() != "page-list"@.len());
            assert("landmarks"@[0] != "page-list"@[0]);
        }
        if crate::text::str_eq(s, "toc") {
            NavType::TOC
        } else if crate::text::str_eq(s, "landmarks") {
            NavType::Landmarks
        } else if crate::text::str_eq(s, "page-list") {
            NavType::PageList
        } else {
            NavType::Custom(crate::text::owned(s))
        }
    }
}

} // verus!
