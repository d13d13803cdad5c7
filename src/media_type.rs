//! Media types of publication resources.
use vstd::prelude::*;
use crate::text::{owned, str_eq};

verus! {

/// A MIME media type such as `application/xhtml+xml`.
#[derive(Debug, PartialEq, Clone)]
pub struct MediaType(pub String);

/// The media type of package documents.
pub const OEBPS: &'static str = "application/oebps-package+xml";

/// The media type of whole EPUB archives.
pub const EPUB: &'static str = "application/epub+zip";

/// The core media types, which reading systems support without a fallback.
pub open spec fn core_media_types() -> Seq<Seq<char>> {
    seq![
        "image/gif"@, "image/jpeg"@, "image/png"@, "image/svg+xml"@, "image/webp"@,
        "audio/mpeg"@, "video/mp4"@, "audio/ogg; codecs=opus"@,
        "text/css"@,
        "font/ttf"@, "font/otf"@, "font/woff"@, "font/woff2"@, "application/font-sfnt"@,
        "application/vnd.ms-opentype"@, "application/font-woff"@,
        "application/xhtml+xml"@, "text/javascript"@, "application/javascript"@,
        "application/ecmascript"@, "application/x-dtbncx+xml"@, "application/smil+xml"@,
    ]
}

fn core_media_type_names() -> (r: Vec<&'static str>)
    ensures
        r@.map_values(|s: &'static str| s@) == core_media_types(),
{
    let v = vec![
        "image/gif", "image/jpeg", "image/png", "image/svg+xml", "image/webp",
        "audio/mpeg", "video/mp4", "audio/ogg; codecs=opus",
        "text/css",
        "font/ttf", "font/otf", "font/woff", "font/woff2", "application/font-sfnt",
        "application/vnd.ms-opentype", "application/font-woff",
        "application/xhtml+xml", "text/javascript", "application/javascript",
        "application/ecmascript", "application/x-dtbncx+xml", "application/smil+xml",
    ];
    assert(v@.map_values(|s: &'static str| s@) =~= core_media_types());
    v
}

impl View for MediaType {
    type V = Seq<char>;

    open spec fn view(&self) -> Seq<char> {
        self.0@
    }
}

impl MediaType {
    pub fn new(media_type: &str) -> (r: MediaType)
        ensures
            r@ == media_type@,
    {
        MediaType(owned(media_type))
    }

    /// The media type as text.
    pub fn as_str(&self) -> (r: &str)
        ensures
            r@ == self@,
    {
        self.0.as_str()
    }

    /// Whether this is one of the core media types.
    pub fn is_core_media_type(&self) -> (r: bool)
        ensures
            r == core_media_types().contains(self@),
    {
        let names = core_media_type_names();
        let ghost c = core_media_types();
        let mut i: usize = 0;
        while i < names.len()
            invariant
                names@.map_values(|s: &'static str| s@) == c,
                c == core_media_types(),
                i <= names@.len(),
                forall|k: int| 0 <= k < i ==> c[k] != self@,
            decreases names@.len() - i,
        {
            assert(c[i as int] == names@[i as int]@);
            if str_eq(names[i], self.0.as_str()) {
                assert(c[i as int] == self@);
                return true;
            }
            i = i + 1;
        }
        false
    }

    /// Whether this is the media type of package documents.
    pub fn is_oebps(&self) -> (r: bool)
        ensures
            r == (self@ == OEBPS@),
    {
        str_eq(self.0.as_str(), OEBPS)
    }
}

/// Every core media type, in a fixed order.
pub fn all_core_media_types() -> (r: Vec<MediaType>)
    ensures
        r@.map_values(|m: MediaType| m@) == core_media_types(),
{
    let names = core_media_type_names();
    let mut out: Vec<MediaType> = Vec::new();
    let mut i: usize = 0;
    while i < names.len()
        invariant
            names@.map_values(|s: &'static str| s@) == core_media_types(),
            i <= names@.len(),
            out@.len() == i,
            forall|k: int| 0 <= k < i ==> #[trigger] out@[k]@ == names@[k]@,
        decreases names@.len() - i,
    {
        out.push(MediaType::new(names[i]));
        i = i + 1;
    }
    assert(out@.map_values(|m: MediaType| m@) =~= names@.map_values(|s: &'static str| s@));
    out
}

} // verus!
