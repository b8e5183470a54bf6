//! The JPEG side of the dispatcher: pulling the XMP packet out of a
//! JPEG byte stream. An EXIF-embedded XMP tag takes precedence over a
//! JFIF APP1 XMP segment when both exist; container parsing and the
//! EXIF binary codec stay behind trusted wrappers, the precedence and
//! the segment scan are verified.

use vstd::prelude::*;

use crate::errors::{XmpError, XmpErrorKind};

verus! {

/// The EXIF payload of a JPEG byte stream: the outer failure is a
/// container that does not parse, the inner absence a JPEG without an
/// EXIF segment. A function of the bytes alone.
pub uninterp spec fn jpeg_exif_of(bytes: Seq<u8>) -> Option<Option<Seq<u8>>>;

/// The APP1 segment payloads of a JPEG byte stream, in order; the
/// outer failure is a container that does not parse. A function of
/// the bytes alone.
pub uninterp spec fn jpeg_app1_of(bytes: Seq<u8>) -> Option<Seq<Seq<u8>>>;

/// The XMP payload inside a raw EXIF blob: the outer failure is a
/// blob the EXIF codec rejects, the inner absence a blob without the
/// XMP tag. A function of the blob alone.
pub uninterp spec fn exif_xmp_of(raw: Seq<u8>) -> Option<Option<Seq<u8>>>;

/// Relies on `img_parts::jpeg::Jpeg::from_bytes` and `Jpeg::exif`:
/// parses the container and hands out its raw EXIF payload, when one
/// is there.
#[verifier::external_body]
fn jpeg_exif_segment(bytes: &[u8]) -> (r: Result<Option<Vec<u8>>, XmpError>)
    ensures
        match r {
            Ok(Some(v)) => jpeg_exif_of(bytes@) == Some(Some(v@)),
            Ok(None) => jpeg_exif_of(bytes@) == Some(None::<Seq<u8>>),
            Err(e) => jpeg_exif_of(bytes@) is None && e.spec_kind() == XmpErrorKind::ImgParts,
        },
{
    match img_parts::jpeg::Jpeg::from_bytes(bytes.to_vec().into()) {
        Ok(jpeg) => Ok(img_parts::ImageEXIF::exif(&jpeg).map(|b| b.to_vec())),
        Err(_) => Err(XmpError::at_site(XmpErrorKind::ImgParts, "jpg::jpeg_exif_segment")),
    }
}

/// Relies on `img_parts::jpeg::Jpeg::from_bytes` and
/// `Jpeg::segments_by_marker`: parses the container and hands out the
/// payloads of its APP1 segments, in order.
#[verifier::external_body]
fn jpeg_app1_segments(bytes: &[u8]) -> (r: Result<Vec<Vec<u8>>, XmpError>)
    ensures
        match r {
            Ok(v) => jpeg_app1_of(bytes@) == Some(v@.map_values(|x: Vec<u8>| x@)),
            Err(e) => jpeg_app1_of(bytes@) is None && e.spec_kind() == XmpErrorKind::ImgParts,
        },
{
    match img_parts::jpeg::Jpeg::from_bytes(bytes.to_vec().into()) {
        Ok(jpeg) => Ok(
            jpeg.segments_by_marker(0xE1).map(|s| s.contents().to_vec()).collect(),
        ),
        Err(_) => Err(XmpError::at_site(XmpErrorKind::ImgParts, "jpg::jpeg_app1_segments")),
    }
}

/// Relies on the EXIF codec's `Reader::read_raw` and `Exif::get_field`
/// with the XMP tag in the primary directory: decodes a raw EXIF blob
/// and hands out the XMP tag's undefined-typed payload, when there is
/// one.
#[verifier::external_body]
pub(crate) fn exif_xmp_field(raw: &[u8]) -> (r: Result<Option<Vec<u8>>, XmpError>)
    ensures
        match r {
            Ok(Some(v)) => exif_xmp_of(raw@) == Some(Some(v@)),
            Ok(None) => exif_xmp_of(raw@) == Some(None::<Seq<u8>>),
            Err(e) => exif_xmp_of(raw@) is None && e.spec_kind() == XmpErrorKind::ExifError,
        },
{
    match exif::Reader::new().read_raw(raw.to_vec()) {
        Ok(parsed) => match parsed.get_field(exif::Tag(exif::Context::Exif, 700), exif::In::PRIMARY) {
            Some(f) => match &f.value {
                exif::Value::Undefined(data, _) => Ok(Some(data.to_vec())),
                _ => Ok(None),
            },
            None => Ok(None),
        },
        Err(_) => Err(XmpError::at_site(XmpErrorKind::ExifError, "jpg::exif_xmp_field")),
    }
}

/// The bytes of `http://ns.adobe.com`, which an XMP APP1 segment
/// starts with.
pub open spec fn spec_adobe_prefix() -> Seq<u8> {
    seq![104u8, 116u8, 116u8, 112u8, 58u8, 47u8, 47u8, 110u8, 115u8, 46u8, 97u8, 100u8, 111u8,
        98u8, 101u8, 46u8, 99u8, 111u8, 109u8]
}

/// Whether a segment payload opens like an XMP packet.
pub open spec fn spec_is_xmp_app1(s: Seq<u8>) -> bool {
    s.len() >= 19 && s.subrange(0, 19) == spec_adobe_prefix()
}

/// The first XMP-opening payload of a segment list, if any.
pub open spec fn spec_first_xmp_app1(segs: Seq<Seq<u8>>) -> Option<Seq<u8>>
    decreases segs.len(),
{
    if segs.len() == 0 {
        None
    } else if spec_is_xmp_app1(segs[0]) {
        Some(segs[0])
    } else {
        spec_first_xmp_app1(segs.drop_first())
    }
}

/// Whether this payload opens like an XMP packet.
fn is_xmp_app1(s: &Vec<u8>) -> (r: bool)
    ensures
        r == spec_is_xmp_app1(s@),
{
    let prefix: [u8; 19] = [104, 116, 116, 112, 58, 47, 47, 110, 115, 46, 97, 100, 111, 98, 101,
        46, 99, 111, 109];
    if s.len() < 19 {
        return false;
    }
    let mut k: usize = 0;
    while k < 19
        invariant
            s@.len() >= 19,
            k <= 19,
            prefix@ == spec_adobe_prefix(),
            forall|j: int| 0 <= j < k ==> s@[j] == #[trigger] spec_adobe_prefix()[j],
        decreases 19 - k,
    {
        if s[k] != prefix[k] {
            proof {
                assert(s@.subrange(0, 19)[k as int] == s@[k as int]);
            }
            return false;
        }
        k = k + 1;
    }
    proof {
        assert(s@.subrange(0, 19) =~= spec_adobe_prefix());
    }
    true
}

/// Finds the first XMP-opening APP1 payload.
fn first_xmp_app1(segs: &Vec<Vec<u8>>) -> (r: Option<&Vec<u8>>)
    ensures
        match r {
            Some(v) => spec_first_xmp_app1(segs@.map_values(|x: Vec<u8>| x@)) == Some(v@),
            None => spec_first_xmp_app1(segs@.map_values(|x: Vec<u8>| x@)) is None,
        },
{
    let ghost m = segs@.map_values(|x: Vec<u8>| x@);
    let n = segs.len();
    let mut i: usize = 0;
    proof {
        assert(m.skip(0) =~= m);
    }
    while i < n
        invariant
            n == segs@.len(),
            i <= n,
            m == segs@.map_values(|x: Vec<u8>| x@),
            spec_first_xmp_app1(m) == spec_first_xmp_app1(m.skip(i as int)),
        decreases n - i,
    {
        proof {
            assert(m.skip(i as int)[0] == m[i as int]);
            assert(m.skip(i as int).drop_first() =~= m.skip(i as int + 1));
        }
        if is_xmp_app1(&segs[i]) {
            return Some(&segs[i]);
        }
        i = i + 1;
    }
    proof {
        assert(m.skip(n as int) =~= Seq::<Seq<u8>>::empty());
    }
    None
}

/// What reading the XMP packet of a JPEG byte stream yields: the
/// EXIF-embedded XMP tag when the stream carries one, else the first
/// JFIF APP1 segment that opens like an XMP packet, else nothing.
pub open spec fn spec_jpeg_xmp(bytes: Seq<u8>) -> Result<Seq<u8>, XmpErrorKind> {
    match jpeg_exif_of(bytes) {
        None => Err(XmpErrorKind::ImgParts),
        Some(exif_raw) => {
            let from_exif = match exif_raw {
                Some(raw) => match exif_xmp_of(raw) {
                    None => Err(XmpErrorKind::ExifError),
                    Some(x) => Ok(x),
                },
                None => Ok(None),
            };
            match from_exif {
                Err(k) => Err(k),
                Ok(Some(x)) => Ok(x),
                Ok(None) => match jpeg_app1_of(bytes) {
                    None => Err(XmpErrorKind::ImgParts),
                    Some(segs) => match spec_first_xmp_app1(segs) {
                        Some(x) => Ok(x),
                        None => Err(XmpErrorKind::XMPMissing),
                    },
                },
            }
        },
    }
}

/// Pulls the XMP packet out of a JPEG byte stream: the EXIF-embedded
/// XMP tag takes precedence over any JFIF APP1 XMP segment; a stream
/// carrying neither has no packet at all.
pub fn jpeg_xmp(bytes: &[u8]) -> (r: Result<Vec<u8>, XmpError>)
    ensures
        match r {
            Ok(v) => spec_jpeg_xmp(bytes@) == Ok::<Seq<u8>, XmpErrorKind>(v@),
            Err(e) => spec_jpeg_xmp(bytes@) == Err::<Seq<u8>, XmpErrorKind>(e.spec_kind()),
        },
{
    let exif_raw = match jpeg_exif_segment(bytes) {
        Ok(o) => o,
        Err(e) => {
            return Err(e);
        },
    };
    match exif_raw {
        Some(raw) => {
            match exif_xmp_field(raw.as_slice()) {
                Ok(Some(x)) => {
                    return Ok(x);
                },
                Ok(None) => {},
                Err(e) => {
                    return Err(e);
                },
            }
        },
        None => {},
    }
    let segs = match jpeg_app1_segments(bytes) {
        Ok(s) => s,
        Err(e) => {
            return Err(e);
        },
    };
    match first_xmp_app1(&segs) {
        Some(v) => Ok(v.clone()),
        None => Err(XmpError::at_site(XmpErrorKind::XMPMissing, "jpg::jpeg_xmp")),
    }
}


/// The identifying tags of the fields a raw EXIF blob decodes to, in
/// decoding order: a small code for the directory context and the
/// tag number. The outer failure is a blob the codec rejects. A
/// function of the blob alone.
pub uninterp spec fn exif_tag_list_of(raw: Seq<u8>) -> Option<Seq<(u8, u16)>>;

/// The blob the EXIF codec writes when handed the fields of `raw` at
/// the positions in `keep`, in that order, followed by one XMP tag
/// holding `payload`. A function of the arguments alone.
pub uninterp spec fn exif_rebuilt_of(raw: Seq<u8>, keep: Seq<usize>, payload: Seq<u8>) -> Seq<u8>;

/// Whether that rebuild succeeds; like the blob it is a function of
/// the arguments alone.
pub uninterp spec fn exif_rebuild_ok_of(raw: Seq<u8>, keep: Seq<usize>, payload: Seq<u8>) -> bool;

/// The blob the EXIF codec writes for a single XMP tag holding
/// `payload`, and whether that write succeeds; functions of the
/// payload alone.
pub uninterp spec fn exif_single_xmp_of(payload: Seq<u8>) -> Seq<u8>;

/// The success side of the single-tag write.
pub uninterp spec fn exif_single_ok_of(payload: Seq<u8>) -> bool;

/// Relies on the EXIF codec's `Reader::read_raw` and `Exif::fields`:
/// decodes a raw blob and hands out each field's directory context
/// (coded 0 to 3 in declaration order) and tag number, in decoding
/// order.
#[verifier::external_body]
fn exif_field_tags(raw: &[u8]) -> (r: Result<Vec<(u8, u16)>, XmpError>)
    ensures
        match r {
            Ok(v) => exif_tag_list_of(raw@) == Some(v@),
            Err(e) => exif_tag_list_of(raw@) is None && e.spec_kind() == XmpErrorKind::ExifError,
        },
{
    match exif::Reader::new().read_raw(raw.to_vec()) {
        Ok(parsed) => Ok(parsed.fields().map(|f| (match f.tag.0 {
            exif::Context::Tiff => 0u8,
            exif::Context::Exif => 1u8,
            exif::Context::Gps => 2u8,
            exif::Context::Interop => 3u8,
            _ => 4u8,
        }, f.tag.1)).collect()),
        Err(_) => Err(XmpError::at_site(XmpErrorKind::ExifError, "jpg::exif_field_tags")),
    }
}

#[verifier::external_type_specification]
#[verifier::external_body]
pub struct ExExifField(exif::Field);

/// Relies on the EXIF codec's `Field` constructor: builds the XMP
/// tag carrying this payload in the primary directory. Called only
/// inside this boundary.
#[verifier::external_body]
fn xmp_field_of(payload: Vec<u8>) -> exif::Field {
    exif::Field {
        tag: exif::Tag(exif::Context::Exif, 700),
        ifd_num: exif::In::PRIMARY,
        value: exif::Value::Undefined(payload, 0),
    }
}

/// Relies on the EXIF codec's `Reader::read_raw`, the experimental
/// `Writer::push_field` and `Writer::write`: re-emits the decoded
/// fields at the given positions, in the given order, then one XMP
/// tag holding the payload. The selection itself is the caller's;
/// this body only follows the given positions.
#[verifier::external_body]
fn exif_reassemble(raw: &[u8], keep: &Vec<usize>, payload: Vec<u8>) -> (r: Result<
    Vec<u8>,
    XmpError,
>)
    requires
        exif_tag_list_of(raw@) matches Some(ts) && forall|k: int|
            0 <= k < keep@.len() ==> (#[trigger] keep@[k]) < ts.len(),
    ensures
        r is Ok <==> exif_rebuild_ok_of(raw@, keep@, payload@),
        r matches Ok(v) ==> v@ == exif_rebuilt_of(raw@, keep@, payload@),
        r matches Err(e) ==> e.spec_kind() == XmpErrorKind::ExifError,
{
    let parsed = match exif::Reader::new().read_raw(raw.to_vec()) {
        Ok(p) => p,
        Err(_) => return Err(XmpError::at_site(XmpErrorKind::ExifError, "jpg::exif_reassemble")),
    };
    let flds: Vec<&exif::Field> = parsed.fields().collect();
    let xf = xmp_field_of(payload);
    let mut w = exif::experimental::Writer::new();
    for &i in keep.iter() { w.push_field(flds[i]); }
    w.push_field(&xf);
    let mut out = std::io::Cursor::new(Vec::new());
    match w.write(&mut out, false) {
        Ok(()) => Ok(out.into_inner()),
        Err(_) => Err(XmpError::at_site(XmpErrorKind::ExifError, "jpg::exif_reassemble")),
    }
}

/// Relies on the EXIF codec's experimental `Writer`: writes a blob
/// holding one XMP tag with the payload.
#[verifier::external_body]
fn exif_single_xmp(payload: Vec<u8>) -> (r: Result<Vec<u8>, XmpError>)
    ensures
        r is Ok <==> exif_single_ok_of(payload@),
        r matches Ok(v) ==> v@ == exif_single_xmp_of(payload@),
        r matches Err(e) ==> e.spec_kind() == XmpErrorKind::ExifError,
{
    let xf = xmp_field_of(payload);
    let mut w = exif::experimental::Writer::new();
    w.push_field(&xf);
    let mut out = std::io::Cursor::new(Vec::new());
    match w.write(&mut out, false) {
        Ok(()) => Ok(out.into_inner()),
        Err(_) => Err(XmpError::at_site(XmpErrorKind::ExifError, "jpg::exif_single_xmp")),
    }
}

/// The coded identity of the XMP tag in the Exif directory.
pub open spec fn spec_xmp_tag() -> (u8, u16) {
    (1u8, 700u16)
}

/// Position `i` holds a field an update keeps: its tag is not the
/// XMP tag, and no earlier position holds the same tag.
pub open spec fn spec_kept(tags: Seq<(u8, u16)>, i: int) -> bool {
    &&& 0 <= i < tags.len()
    &&& tags[i] != spec_xmp_tag()
    &&& forall|j: int| 0 <= j < i ==> (#[trigger] tags[j]) != tags[i]
}

/// The list of positions an update keeps: exactly the kept
/// positions, in increasing order.
pub open spec fn spec_keep_list_ok(tags: Seq<(u8, u16)>, r: Seq<usize>) -> bool {
    &&& forall|k: int| 0 <= k < r.len() ==> spec_kept(tags, (#[trigger] r[k]) as int)
    &&& forall|k1: int, k2: int|
        0 <= k1 < k2 < r.len() ==> (#[trigger] r[k1]) < (#[trigger] r[k2])
    &&& forall|i: int| spec_kept(tags, i) ==> r.contains(i as usize)
}

/// Selects the positions to re-emit: the first occurrence of every
/// tag other than the XMP tag, in order.
fn keep_first_indices(tags: &Vec<(u8, u16)>) -> (r: Vec<usize>)
    ensures
        spec_keep_list_ok(tags@, r@),
{
    let n = tags.len();
    let mut out: Vec<usize> = Vec::new();
    let mut i: usize = 0;
    while i < n
        invariant
            n == tags@.len(),
            i <= n,
            forall|k: int| 0 <= k < out@.len() ==> spec_kept(tags@, (#[trigger] out@[k]) as int),
            forall|k1: int, k2: int|
                0 <= k1 < k2 < out@.len() ==> (#[trigger] out@[k1]) < (#[trigger] out@[k2]),
            forall|k: int| 0 <= k < out@.len() ==> (#[trigger] out@[k]) < i,
            forall|q: int| 0 <= q < i && spec_kept(tags@, q) ==> out@.contains(q as usize),
        decreases n - i,
    {
        let (c, t) = tags[i];
        let is_xmp = c == 1 && t == 700;
        let mut dup = false;
        let mut j: usize = 0;
        while j < i
            invariant
                n == tags@.len(),
                i < n,
                j <= i,
                !dup ==> forall|q: int| 0 <= q < j ==> (#[trigger] tags@[q]) != tags@[i as int],
                dup ==> exists|q: int| 0 <= q < i && (#[trigger] tags@[q]) == tags@[i as int],
                (c, t) == tags@[i as int],
            decreases i - j,
        {
            let (cj, tj) = tags[j];
            if cj == c && tj == t {
                dup = true;
            }
            j = j + 1;
        }
        if !is_xmp && !dup {
            proof {
                assert(tags@[i as int] != spec_xmp_tag());
                assert(spec_kept(tags@, i as int));
            }
            let ghost prior = out@;
            out.push(i);
            proof {
                assert forall|q: int| 0 <= q < i + 1 && spec_kept(tags@, q) implies out@.contains(
                    q as usize,
                ) by {
                    if q < i {
                        assert(prior.contains(q as usize));
                        let w = choose|w: int| 0 <= w < prior.len() && prior[w] == q as usize;
                        assert(out@[w] == q as usize);
                    } else {
                        assert(out@[out@.len() - 1] == i);
                    }
                }
            }
        } else {
            proof {
                if is_xmp {
                    assert(tags@[i as int] == spec_xmp_tag());
                }
                assert forall|q: int| 0 <= q < i + 1 && spec_kept(tags@, q) implies out@.contains(
                    q as usize,
                ) by {
                    assert(q != i);
                }
            }
        }
        i = i + 1;
    }
    proof {
        assert forall|q: int| spec_kept(tags@, q) implies out@.contains(q as usize) by {
            assert(0 <= q < n);
        }
    }
    out
}

/// Rebuilds an EXIF blob around a fresh XMP packet: with an existing
/// blob, every field other than the XMP tag is re-emitted once — the
/// first occurrence of each tag, in decoding order — followed by the
/// new XMP tag; without one, the blob holds the XMP tag alone.
pub fn rebuild_exif_with_xmp(existing: Option<&Vec<u8>>, packet: Vec<u8>) -> (r: Result<
    Vec<u8>,
    XmpError,
>)
    ensures
        match existing {
            Some(raw) => match exif_tag_list_of(raw@) {
                Some(ts) => exists|keep: Seq<usize>|
                    #![trigger spec_keep_list_ok(ts, keep)]
                    {
                        &&& spec_keep_list_ok(ts, keep)
                        &&& (r is Ok <==> exif_rebuild_ok_of(raw@, keep, packet@))
                        &&& (r matches Ok(v) ==> v@ == exif_rebuilt_of(raw@, keep, packet@))
                    },
                None => r matches Err(e) && e.spec_kind() == XmpErrorKind::ExifError,
            },
            None => {
                &&& (r is Ok <==> exif_single_ok_of(packet@))
                &&& (r matches Ok(v) ==> v@ == exif_single_xmp_of(packet@))
            },
        },
        r matches Err(e) ==> e.spec_kind() == XmpErrorKind::ExifError,
{
    match existing {
        Some(raw) => {
            let tags = match exif_field_tags(raw.as_slice()) {
                Ok(t) => t,
                Err(e) => {
                    return Err(e);
                },
            };
            let keep = keep_first_indices(&tags);
            let res = exif_reassemble(raw.as_slice(), &keep, packet);
            proof {
                match exif_tag_list_of(raw@) {
                    Some(ts) => {
                        assert(ts == tags@);
                        assert(spec_keep_list_ok(ts, keep@));
                    },
                    None => {},
                }
            }
            res
        },
        None => exif_single_xmp(packet),
    }
}

} // verus!
