//! The error taxonomy: structural read failures, unsupported containers,
//! and failures reported by the XML, JPEG, PNG and EXIF layers.

use vstd::prelude::*;

verus! {

/// What went wrong. Field-level problems (an unparseable number or date)
/// never appear here: they are reported as an absent field instead.
#[derive(Debug, Clone, Copy, PartialEq, Eq, Structural)]
pub enum XmpErrorKind {
    /// The document lacks the `rdf:RDF` / `rdf:Description` skeleton.
    ChildNotFound,
    /// The container carries no XMP packet at all.
    XMPMissing,
    /// The XML layer could not parse or serialize the document.
    MinidomError,
    /// An element used a namespace prefix that no scope declares.
    MissingNamespace,
    /// An I/O failure reported by the surrounding application layer.
    IoError,
    /// The file extension names no supported container.
    InvalidFileType,
    /// An orientation code outside 1..=8 was about to be written.
    ValueOutOfRange,
    /// A byte sequence that had to be text was not valid UTF-8.
    Utf8Error,
    /// A complete record was requested but a required field was absent.
    IncompleteRecord,
    /// The JPEG scan found no XMP segment in the JFIF stream.
    JFIFHeaderMissing,
    /// The JFIF segment reader failed.
    JfifError,
    /// The JPEG/PNG container editor failed.
    ImgParts,
    /// The EXIF binary codec failed.
    ExifError,
}

/// An error together with the site that raised it and the name of
/// the file it concerns, when one is known.
#[derive(Debug, Clone)]
pub struct XmpError {
    kind: XmpErrorKind,
    site: &'static str,
    name: Option<String>,
}

impl XmpError {
    /// Which kind of error this is, for specifications.
    pub closed spec fn spec_kind(&self) -> XmpErrorKind {
        self.kind
    }

    /// The recorded site, for specifications.
    pub closed spec fn spec_site(&self) -> &'static str {
        self.site
    }

    /// The recorded file name, for specifications.
    pub closed spec fn spec_file_name(&self) -> Option<String> {
        self.name
    }

    /// Wraps a bare error kind, with no site recorded.
    pub fn new(kind: XmpErrorKind) -> (r: XmpError)
        ensures
            r.spec_kind() == kind,
            r.spec_file_name() is None,
    {
        XmpError { kind, site: "", name: None }
    }

    /// Wraps an error kind together with the site that raised it.
    pub fn at_site(kind: XmpErrorKind, site: &'static str) -> (r: XmpError)
        ensures
            r.spec_kind() == kind,
            r.spec_site()@ == site@,
            r.spec_file_name() is None,
    {
        XmpError { kind, site, name: None }
    }

    /// The site this error was raised at, empty when none was
    /// recorded.
    pub fn site(&self) -> (s: &'static str)
        ensures
            s == self.spec_site(),
    {
        self.site
    }

    /// The same error, now carrying the name of the file it concerns.
    pub fn with_name(self, name: String) -> (r: XmpError)
        ensures
            r.spec_kind() == self.spec_kind(),
            r.spec_site() == self.spec_site(),
            r.spec_file_name() matches Some(n) && n@ == name@,
    {
        XmpError { kind: self.kind, site: self.site, name: Some(name) }
    }

    /// Which kind of error this is.
    pub fn kind(&self) -> (k: XmpErrorKind)
        ensures
            k == self.spec_kind(),
    {
        self.kind
    }

    /// The file this error concerns, if one was recorded.
    pub fn file_name(&self) -> (n: &Option<String>)
        ensures
            n == self.spec_file_name(),
    {
        &self.name
    }
}

} // verus!
