//! The container read paths, on JPEG and PNG byte streams built with
//! the real container and EXIF crates.

use img_parts::ImageEXIF;
use xmp::errors::XmpErrorKind;
use xmp::jpg::jpeg_xmp;
use xmp::png::png_xmp;

/// A minimal JPEG byte stream: start marker, start-of-scan, end marker.
fn minimal_jpeg() -> Vec<u8> {
    vec![0xFF, 0xD8, 0xFF, 0xDA, 0x00, 0x02, 0x00, 0x00, 0xFF, 0xD9]
}

/// A JPEG byte stream holding the given APP1 segment payloads, by the
/// container's framing: marker, two-byte length, payload.
fn jpeg_with_app1(payloads: &[Vec<u8>]) -> Vec<u8> {
    let mut out = vec![0xFF, 0xD8];
    for p in payloads {
        out.push(0xFF);
        out.push(0xE1);
        out.extend_from_slice(&((p.len() as u16 + 2).to_be_bytes()));
        out.extend_from_slice(p);
    }
    out.extend_from_slice(&[0xFF, 0xD9]);
    out
}

fn exif_app1_segment(exif_blob: &[u8]) -> Vec<u8> {
    let mut seg = b"Exif\x00\x00".to_vec();
    seg.extend_from_slice(exif_blob);
    seg
}

/// An EXIF blob whose XMP tag holds `payload`, built with the EXIF
/// codec itself.
fn exif_with_xmp(payload: &[u8]) -> Vec<u8> {
    let mut writer = exif::experimental::Writer::new();
    let field = exif::Field {
        tag: exif::Tag(exif::Context::Exif, 700),
        ifd_num: exif::In::PRIMARY,
        value: exif::Value::Undefined(payload.to_vec(), 0),
    };
    writer.push_field(&field);
    let mut out = std::io::Cursor::new(Vec::new());
    writer.write(&mut out, false).unwrap();
    out.into_inner()
}

fn jfif_xmp_segment(payload: &[u8]) -> Vec<u8> {
    let mut seg = b"http://ns.adobe.com/xap/1.0/\x00".to_vec();
    seg.extend_from_slice(payload);
    seg
}

#[test]
fn jpeg_reads_jfif_segment_when_no_exif() {
    let bytes = jpeg_with_app1(&[jfif_xmp_segment(b"<packet one/>")]);
    // the container crate agrees the stream is well formed
    assert!(img_parts::jpeg::Jpeg::from_bytes(bytes.clone().into()).is_ok());
    let xmp_bytes = jpeg_xmp(&bytes).unwrap();
    assert!(xmp_bytes.ends_with(b"<packet one/>"));
}

#[test]
fn jpeg_prefers_exif_embedded_xmp() {
    // a JPEG carrying both a JFIF XMP segment and a differing
    // EXIF-embedded XMP tag reads back the EXIF-embedded payload
    let bytes = jpeg_with_app1(&[
        jfif_xmp_segment(b"<from jfif/>"),
        exif_app1_segment(&exif_with_xmp(b"<from exif/>")),
    ]);
    let parsed = img_parts::jpeg::Jpeg::from_bytes(bytes.clone().into()).unwrap();
    assert!(parsed.exif().is_some());
    let xmp_bytes = jpeg_xmp(&bytes).unwrap();
    assert_eq!(xmp_bytes, b"<from exif/>".to_vec());
}

#[test]
fn jpeg_without_xmp_reports_missing() {
    let e = jpeg_xmp(&minimal_jpeg()).unwrap_err();
    assert_eq!(e.kind(), XmpErrorKind::XMPMissing);
    let e2 = jpeg_xmp(b"junk").unwrap_err();
    assert_eq!(e2.kind(), XmpErrorKind::ImgParts);
}

fn crc32(data: &[u8]) -> u32 {
    let mut crc: u32 = 0xFFFF_FFFF;
    for b in data {
        crc ^= *b as u32;
        let mut k = 0;
        while k < 8 {
            crc = if crc & 1 != 0 {
                (crc >> 1) ^ 0xEDB8_8320
            } else {
                crc >> 1
            };
            k += 1;
        }
    }
    !crc
}

fn png_chunk(kind: &[u8; 4], data: &[u8]) -> Vec<u8> {
    let mut out = Vec::new();
    out.extend_from_slice(&(data.len() as u32).to_be_bytes());
    out.extend_from_slice(kind);
    out.extend_from_slice(data);
    let mut crc_input = kind.to_vec();
    crc_input.extend_from_slice(data);
    out.extend_from_slice(&crc32(&crc_input).to_be_bytes());
    out
}

fn minimal_png_with_itxt(payload: &[u8]) -> Vec<u8> {
    let mut out = b"\x89PNG\r\n\x1a\n".to_vec();
    let ihdr = [
        0, 0, 0, 1, // width 1
        0, 0, 0, 1, // height 1
        8, 0, 0, 0, 0, // bit depth 8, greyscale
    ];
    out.extend_from_slice(&png_chunk(b"IHDR", &ihdr));
    out.extend_from_slice(&png_chunk(b"iTXt", payload));
    out.extend_from_slice(&png_chunk(b"IEND", &[]));
    out
}

#[test]
fn png_reads_itxt_chunk() {
    let bytes = minimal_png_with_itxt(b"XML:com.adobe.xmp\x00\x00\x00\x00\x00<pkt/>");
    let xmp_bytes = png_xmp(&bytes).unwrap();
    assert!(xmp_bytes.ends_with(b"<pkt/>"));
}

#[test]
fn png_without_xmp_reports_missing() {
    let mut out = b"\x89PNG\r\n\x1a\n".to_vec();
    let ihdr = [0, 0, 0, 1, 0, 0, 0, 1, 8, 0, 0, 0, 0];
    out.extend_from_slice(&png_chunk(b"IHDR", &ihdr));
    out.extend_from_slice(&png_chunk(b"IEND", &[]));
    let e = png_xmp(&out).unwrap_err();
    assert_eq!(e.kind(), XmpErrorKind::XMPMissing);
}

#[test]
fn exif_rebuild_keeps_first_of_each_tag() {
    // an existing blob with an orientation field and an old XMP tag
    let mut writer = exif::experimental::Writer::new();
    let orientation = exif::Field {
        tag: exif::Tag::Orientation,
        ifd_num: exif::In::PRIMARY,
        value: exif::Value::Short(vec![6]),
    };
    let old_xmp = exif::Field {
        tag: exif::Tag(exif::Context::Exif, 700),
        ifd_num: exif::In::PRIMARY,
        value: exif::Value::Undefined(b"<old/>".to_vec(), 0),
    };
    writer.push_field(&orientation);
    writer.push_field(&old_xmp);
    let mut buf = std::io::Cursor::new(Vec::new());
    writer.write(&mut buf, false).unwrap();
    let existing = buf.into_inner();

    let rebuilt =
        xmp::jpg::rebuild_exif_with_xmp(Some(&existing), b"<new/>".to_vec()).unwrap();
    let decoded = exif::Reader::new().read_raw(rebuilt).unwrap();
    // the unrelated field survives unchanged
    let o = decoded
        .get_field(exif::Tag::Orientation, exif::In::PRIMARY)
        .unwrap();
    assert_eq!(o.value.get_uint(0), Some(6));
    // the XMP tag holds the new payload, once
    let x = decoded
        .get_field(exif::Tag(exif::Context::Exif, 700), exif::In::PRIMARY)
        .unwrap();
    match &x.value {
        exif::Value::Undefined(data, _) => assert_eq!(data, &b"<new/>".to_vec()),
        other => panic!("unexpected value shape {other:?}"),
    }

    // without an existing blob, the result holds the XMP tag alone
    let fresh = xmp::jpg::rebuild_exif_with_xmp(None, b"<solo/>".to_vec()).unwrap();
    let decoded2 = exif::Reader::new().read_raw(fresh).unwrap();
    assert_eq!(decoded2.fields().len(), 1);
}
