//! The PNG side of the dispatcher: pulling the XMP packet out of a
//! PNG byte stream. An EXIF-embedded XMP tag takes precedence over
//! the international-text chunk; chunk framing and the EXIF binary
//! codec stay behind trusted wrappers.

use vstd::prelude::*;

use crate::errors::{XmpError, XmpErrorKind};
use crate::jpg::exif_xmp_of;

verus! {

/// The EXIF payload of a PNG byte stream: the outer failure is a
/// container that does not parse, the inner absence a PNG without an
/// EXIF chunk. A function of the bytes alone.
pub uninterp spec fn png_exif_of(bytes: Seq<u8>) -> Option<Option<Seq<u8>>>;

/// The contents of the first international-text chunk of a PNG byte
/// stream; the outer failure is a container that does not parse. A
/// function of the bytes alone.
pub uninterp spec fn png_itxt_of(bytes: Seq<u8>) -> Option<Option<Seq<u8>>>;

/// Relies on `img_parts::png::Png::from_bytes` and `Png::exif`:
/// parses the container and hands out its raw EXIF payload, when one
/// is there.
#[verifier::external_body]
fn png_exif_segment(bytes: &[u8]) -> (r: Result<Option<Vec<u8>>, XmpError>)
    ensures
        match r {
            Ok(Some(v)) => png_exif_of(bytes@) == Some(Some(v@)),
            Ok(None) => png_exif_of(bytes@) == Some(None::<Seq<u8>>),
            Err(e) => png_exif_of(bytes@) is None && e.spec_kind() == XmpErrorKind::ImgParts,
        },
{
    match img_parts::png::Png::from_bytes(bytes.to_vec().into()) {
        Ok(png) => Ok(img_parts::ImageEXIF::exif(&png).map(|b| b.to_vec())),
        Err(_) => Err(XmpError::at_site(XmpErrorKind::ImgParts, "png::png_exif_segment")),
    }
}

/// Relies on `img_parts::png::Png::from_bytes` and
/// `Png::chunk_by_type`: parses the container and hands out the
/// contents of its first international-text chunk.
#[verifier::external_body]
fn png_itxt_chunk(bytes: &[u8]) -> (r: Result<Option<Vec<u8>>, XmpError>)
    ensures
        match r {
            Ok(Some(v)) => png_itxt_of(bytes@) == Some(Some(v@)),
            Ok(None) => png_itxt_of(bytes@) == Some(None::<Seq<u8>>),
            Err(e) => png_itxt_of(bytes@) is None && e.spec_kind() == XmpErrorKind::ImgParts,
        },
{
    match img_parts::png::Png::from_bytes(bytes.to_vec().into()) {
        Ok(png) => Ok(png.chunk_by_type(*b"iTXt").map(|c| c.contents().to_vec())),
        Err(_) => Err(XmpError::at_site(XmpErrorKind::ImgParts, "png::png_itxt_chunk")),
    }
}

/// What reading the XMP packet of a PNG byte stream yields: the
/// EXIF-embedded XMP tag when the stream carries one, else the first
/// international-text chunk, else nothing.
pub open spec fn spec_png_xmp(bytes: Seq<u8>) -> Result<Seq<u8>, XmpErrorKind> {
    match png_exif_of(bytes) {
        None => Err(XmpErrorKind::ImgParts),
        Some(exif_raw) => {
            let from_exif = match exif_raw {
                Some(raw) => match exif_xmp_of(raw) {
                    None => Err(XmpErrorKind::ExifError),
                    Some(x) => Ok(x),
                },
                None => Ok(None),
            };
            match from_exif {
                Err(k) => Err(k),
                Ok(Some(x)) => Ok(x),
                Ok(None) => match png_itxt_of(bytes) {
                    None => Err(XmpErrorKind::ImgParts),
                    Some(Some(x)) => Ok(x),
                    Some(None) => Err(XmpErrorKind::XMPMissing),
                },
            }
        },
    }
}

/// Pulls the XMP packet out of a PNG byte stream: the EXIF-embedded
/// XMP tag takes precedence over the international-text chunk.
pub fn png_xmp(bytes: &[u8]) -> (r: Result<Vec<u8>, XmpError>)
    ensures
        match r {
            Ok(v) => spec_png_xmp(bytes@) == Ok::<Seq<u8>, XmpErrorKind>(v@),
            Err(e) => spec_png_xmp(bytes@) == Err::<Seq<u8>, XmpErrorKind>(e.spec_kind()),
        },
{
    let exif_raw = match png_exif_segment(bytes) {
        Ok(o) => o,
        Err(e) => {
            return Err(e);
        },
    };
    match exif_raw {
        Some(raw) => {
            match crate::jpg::exif_xmp_field(raw.as_slice()) {
                Ok(Some(x)) => {
                    return Ok(x);
                },
                Ok(None) => {},
                Err(e) => {
                    return Err(e);
                },
            }
        },
        None => {},
    }
    match png_itxt_chunk(bytes) {
        Ok(Some(v)) => Ok(v),
        Ok(None) => Err(XmpError::at_site(XmpErrorKind::XMPMissing, "png::png_xmp")),
        Err(e) => Err(e),
    }
}

} // verus!
