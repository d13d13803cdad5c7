//! The spine: the default reading order.
use vstd::prelude::*;

verus! {

/// An `itemref`: a manifest id, and whether it is part of the linear reading order.
#[derive(Debug, PartialEq, Clone)]
pub struct SpineReference {
    pub id: String,
    pub linear: Option<bool>,
}

/// The spine: its references in document order, and its page-progression direction.
#[derive(Debug, PartialEq, Clone)]
pub struct Spine {
    pub id: Option<String>,
    pub dir: Option<String>,
    pub refs: Vec<SpineReference>,
}

impl Spine {
    /// The number of references.
    pub fn len(&self) -> (r: usize)
        ensures
            r == self.refs@.len(),
    {
        self.refs.len()
    }

    /// The reference at `i`, in reading order.
    pub fn get(&self, i: usize) -> (r: Option<&SpineReference>)
        ensures
            i < self.refs@.len() ==> r == Some(&self.refs@[i as int]),
            i >= self.refs@.len() ==> r is None,
    {
        if i < self.refs.len() {
            Some(&self.refs[i])
        } else {
            None
        }
    }
}

} // verus!
