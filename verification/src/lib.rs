//! Photo-catalog XMP metadata: a metadata model, its mapping to and from an
//! RDF/XML tree, set-based merging of multi-valued properties, an ISO-8601 /
//! RFC-3339 temporal codec, and the EXIF orientation algebra.

pub mod errors;
pub mod jpg;
pub mod merge;
pub mod png;
pub mod orientation;
pub mod rdf;
pub mod strutil;
pub mod time;
pub mod xmlio;
pub mod xmltree;

pub use orientation::Orientation;

use vstd::prelude::*;

verus! {

use crate::strutil::{spec_eq_ignore_ascii_case, str_eq, str_eq_ignore_ascii_case};

/// One addressable RDF property: its local name, its namespace URI,
/// and the short prefix its attribute form is written under.
#[derive(Debug, Clone, Copy)]
pub struct XmpItem<'xmp> {
    pub name: &'xmp str,
    pub namespace: &'xmp str,
    pub namespace_short: &'xmp str,
}

impl XmpItem<'_> {
    /// The qualified attribute name, `prefix:name`.
    pub fn attr_name(&self) -> (r: String)
        ensures
            r@ == self.namespace_short@ + ":"@ + self.name@,
    {
        let mut s = self.namespace_short.to_owned();
        s.append(":");
        s.append(self.name);
        s
    }

    /// The local name used by the child-element form.
    pub fn child_name(&self) -> (r: &str)
        ensures
            r@ == self.name@,
    {
        self.name
    }
}

/// The container family a file belongs to, judged by its extension.
#[non_exhaustive]
#[derive(Debug, Clone, Copy, PartialEq, Eq, Structural)]
pub enum ImageType {
    Raw,
    Xmp,
    Jpg,
    Png,
    Tiff,
    Heif,
    Others,
}

/// Whether the lower-cased extension belongs to the JPEG family.
pub open spec fn spec_is_jpg_ext(e: Seq<char>) -> bool {
    e == "jpg"@ || e == "jpeg"@ || e == "avif"@ || e == "hif"@
}

/// Whether the lower-cased extension names a vendor RAW container.
pub open spec fn spec_is_raw_ext(e: Seq<char>) -> bool {
    e == "nef"@ || e == "3fr"@ || e == "ari"@ || e == "arw"@ || e == "bay"@ || e == "crw"@ || e
        == "cr2"@ || e == "cr3"@ || e == "cap"@ || e == "dcs"@ || e == "dcr"@ || e == "dng"@ || e
        == "drf"@ || e == "eip"@ || e == "erf"@ || e == "fff"@ || e == "gpr"@ || e == "mdc"@ || e
        == "mef"@ || e == "mos"@ || e == "mrw"@ || e == "nrw"@ || e == "obm"@ || e == "orf"@ || e
        == "pef"@ || e == "ptx"@ || e == "pxn"@ || e == "r3d"@ || e == "raw"@ || e == "rwl"@ || e
        == "rw2"@ || e == "rwz"@ || e == "sr2"@ || e == "srf"@ || e == "srw"@ || e == "x3f"@ || e
        == "raf"@
}

/// The container family of a lower-cased extension.
pub open spec fn spec_image_type(e: Seq<char>) -> ImageType {
    if spec_is_jpg_ext(e) {
        ImageType::Jpg
    } else if spec_is_raw_ext(e) {
        ImageType::Raw
    } else if e == "xmp"@ {
        ImageType::Xmp
    } else if e == "png"@ {
        ImageType::Png
    } else if e == "tiff"@ || e == "tif"@ {
        ImageType::Tiff
    } else if e == "heic"@ || e == "heif"@ {
        ImageType::Heif
    } else {
        ImageType::Others
    }
}

impl ImageType {
    /// Classifies a file extension, compared without regard to ASCII
    /// case, exactly as the per-extension tables define it. A file
    /// with no extension at all classifies as `Others`.
    pub fn from_ext(ext: &str) -> (r: ImageType)
        ensures
            r == spec_image_type(ext@.map_values(|c: char| crate::strutil::spec_lower(c))),
    {
        let low = lower_ascii(ext);
        let e = low.as_str();
        if str_eq(e, "jpg") || str_eq(e, "jpeg") || str_eq(e, "avif") || str_eq(e, "hif") {
            ImageType::Jpg
        } else if is_raw_ext(e) {
            ImageType::Raw
        } else if str_eq(e, "xmp") {
            ImageType::Xmp
        } else if str_eq(e, "png") {
            ImageType::Png
        } else if str_eq(e, "tiff") || str_eq(e, "tif") {
            ImageType::Tiff
        } else if str_eq(e, "heic") || str_eq(e, "heif") {
            ImageType::Heif
        } else {
            ImageType::Others
        }
    }
}

/// Folds a string to ASCII lower case.
pub fn lower_ascii(s: &str) -> (r: String)
    ensures
        r@ == s@.map_values(|c: char| crate::strutil::spec_lower(c)),
{
    let n = s.unicode_len();
    let mut out: Vec<char> = Vec::new();
    let mut i: usize = 0;
    while i < n
        invariant
            n == s@.len(),
            i <= n,
            out@ == s@.take(i as int).map_values(|c: char| crate::strutil::spec_lower(c)),
        decreases n - i,
    {
        out.push(crate::strutil::lower_char(s.get_char(i)));
        proof {
            assert(s@.take(i as int + 1).drop_last() =~= s@.take(i as int));
            assert(out@ =~= s@.take(i as int + 1).map_values(
                |c: char| crate::strutil::spec_lower(c),
            ));
        }
        i = i + 1;
    }
    proof {
        assert(s@.take(n as int) =~= s@);
    }
    crate::strutil::string_from_chars(&out)
}

/// Whether a lower-cased extension names a RAW container.
fn is_raw_ext(e: &str) -> (r: bool)
    ensures
        r == spec_is_raw_ext(e@),
{
    str_eq(e, "nef") || str_eq(e, "3fr") || str_eq(e, "ari") || str_eq(e, "arw") || str_eq(
        e,
        "bay",
    ) || str_eq(e, "crw") || str_eq(e, "cr2") || str_eq(e, "cr3") || str_eq(e, "cap") || str_eq(
        e,
        "dcs",
    ) || str_eq(e, "dcr") || str_eq(e, "dng") || str_eq(e, "drf") || str_eq(e, "eip") || str_eq(
        e,
        "erf",
    ) || str_eq(e, "fff") || str_eq(e, "gpr") || str_eq(e, "mdc") || str_eq(e, "mef") || str_eq(
        e,
        "mos",
    ) || str_eq(e, "mrw") || str_eq(e, "nrw") || str_eq(e, "obm") || str_eq(e, "orf") || str_eq(
        e,
        "pef",
    ) || str_eq(e, "ptx") || str_eq(e, "pxn") || str_eq(e, "r3d") || str_eq(e, "raw") || str_eq(
        e,
        "rwl",
    ) || str_eq(e, "rw2") || str_eq(e, "rwz") || str_eq(e, "sr2") || str_eq(e, "srf") || str_eq(
        e,
        "srw",
    ) || str_eq(e, "x3f") || str_eq(e, "raf")
}

/// How an update is written out: optional pretty-printing and the
/// merge policy for multi-valued properties.
#[derive(Debug, Clone)]
pub struct UpdateOptions {
    /// Pretty-print with this character repeated this many times per
    /// nesting level; `None` writes compactly.
    pub indent: Option<(u8, usize)>,
    /// Replace multi-valued properties instead of joining with them.
    pub overwrite: bool,
}

impl Default for UpdateOptions {
    /// Compact output, union merge.
    fn default() -> (r: Self)
        ensures
            r.indent is None,
            !r.overwrite,
    {
        UpdateOptions { indent: None, overwrite: false }
    }
}

/// A partial metadata record: both the values to write in a patch and
/// the values observed by a loose read, each field absent where the
/// source had nothing usable.
#[derive(Debug, Default, PartialEq, Eq)]
pub struct UpdateResults {
    pub stars: Option<u8>,
    pub colors: Option<String>,
    /// Always normalized UTC seconds.
    pub datetime: Option<i64>,
    pub subjects: Option<Vec<String>>,
    pub hierarchies: Option<Vec<String>>,
    pub orientation: Option<usize>,
    /// Signed seconds east of UTC, kept only when an offset was
    /// explicit and non-zero.
    pub offset: Option<i64>,
    pub sidecar_for_extension: Option<String>,
}

/// A partial record doubles as the result of a loose read.
pub type OptionalResults = UpdateResults;

/// A complete metadata record: every required property present.
#[derive(Debug, PartialEq, Eq)]
pub struct Results {
    pub stars: u8,
    pub colors: String,
    pub datetime: i64,
    pub subjects: Vec<String>,
    pub hierarchies: Vec<String>,
}

impl Results {
    /// Builds the complete record from a loose read, failing when any
    /// required field is absent.
    pub fn from_optional(r: UpdateResults) -> (out: Result<Results, crate::errors::XmpError>)
        ensures
            match out {
                Ok(c) => r.stars == Some(c.stars) && r.datetime == Some(c.datetime) && (
                r.colors matches Some(cl) && cl@ == c.colors@) && (r.subjects matches Some(sv)
                    && sv@ == c.subjects@) && (r.hierarchies matches Some(hv) && hv@
                    == c.hierarchies@),
                Err(e) => e.spec_kind() == crate::errors::XmpErrorKind::IncompleteRecord && (
                r.stars is None || r.colors is None || r.datetime is None || r.subjects is None
                    || r.hierarchies is None),
            },
    {
        match (r.stars, r.colors, r.datetime, r.subjects, r.hierarchies) {
            (Some(stars), Some(colors), Some(datetime), Some(subjects), Some(hierarchies)) => Ok(
                Results { stars, colors, datetime, subjects, hierarchies },
            ),
            _ => Err(
                crate::errors::XmpError::at_site(
                    crate::errors::XmpErrorKind::IncompleteRecord,
                    "Results::from_optional",
                ),
            ),
        }
    }
}

/// Whether a sidecar that names the extension it stands for may be
/// trusted for a file with extension `raw_ext`: only when the two
/// agree without regard to ASCII case.
pub fn sidecar_matches(sidecar_for_extension: &str, raw_ext: &str) -> (r: bool)
    ensures
        r == spec_eq_ignore_ascii_case(sidecar_for_extension@, raw_ext@),
{
    str_eq_ignore_ascii_case(sidecar_for_extension, raw_ext)
}

} // verus!
