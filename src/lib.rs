//! Reading EPUB publications: container and package documents, the
//! namespace rules of their properties, and the stores that hold their bytes.

pub mod text;
pub mod prefix;
pub mod property;
pub mod media_type;
pub mod url;
pub mod spine;
pub mod manifest;
pub mod metadata;
pub mod xml;
pub mod container;
pub mod package;
pub mod parser;
pub mod files;
pub mod remote;
pub mod book;
pub mod nav;
