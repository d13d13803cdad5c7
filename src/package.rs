//! A package document: metadata, manifest and spine.
use vstd::prelude::*;
use crate::manifest::{Manifest, Resource};
use crate::metadata::Metadata;
use crate::spine::{Spine, SpineReference};

verus! {

/// One rendition of the publication, as its package document describes it.
#[derive(Debug)]
pub struct Package {
    pub id: Option<String>,
    pub unique_identifier_ref: String,
    /// Always `3.0`.
    pub version: String,
    pub metadata: Metadata,
    pub manifest: Manifest,
    pub spine: Spine,
    pub prefix: Option<String>,
    pub dir: Option<String>,
    pub lang: Option<String>,
}

impl Package {
    /// The manifest resource with the id `id`.
    pub fn get_res_by_id(&self, id: &str) -> (r: Option<&Resource>)
        ensures
            match r {
                Some(x) => self.manifest.resource_by_id(id@) == Some(*x),
                None => self.manifest.resource_by_id(id@) is None,
            },
    {
        self.manifest.get_resource_by_id(id)
    }

    /// The manifest resource that a spine reference points at.
    pub fn get_res_by_ref(&self, reference: &SpineReference) -> (r: Option<&Resource>)
        ensures
            match r {
                Some(x) => self.manifest.resource_by_id(reference.id@) == Some(*x),
                None => self.manifest.resource_by_id(reference.id@) is None,
            },
    {
        self.manifest.get_resource_by_id(reference.id.as_str())
    }

    /// The nav resource of the manifest.
    pub fn nav_resource(&self) -> (r: Option<&Resource>)
        ensures
            r matches Some(x) && crate::manifest::is_nav(*x) && self.manifest.resources().contains(*x),
    {
        self.manifest.nav_resource()
    }
}

} // verus!
