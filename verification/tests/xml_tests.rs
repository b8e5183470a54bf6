//! The byte-level load and update paths: extraction, the fresh-template
//! round trip, merge behavior on documents, namespace recovery, and the
//! error taxonomy.

use xmp::errors::XmpErrorKind;
use xmp::xmlio::{strip_markup, xmp_source_or_default};
use xmp::{ImageType, UpdateOptions, UpdateResults};

fn doc(body: &str) -> Vec<u8> {
    format!(
        "<x:xmpmeta xmlns:x=\"adobe:ns:meta/\"><rdf:RDF xmlns:rdf=\"http://www.w3.org/1999/02/22-rdf-syntax-ns#\">{}</rdf:RDF></x:xmpmeta>",
        body
    )
    .into_bytes()
}

fn sorted(v: &[String]) -> Vec<String> {
    let mut v = v.to_vec();
    v.sort();
    v
}

#[test]
fn extracts_all_fields() {
    let bytes = doc("<rdf:Description rdf:about=\"\" xmlns:dc=\"http://purl.org/dc/elements/1.1/\" xmlns:lr=\"http://ns.adobe.com/lightroom/1.0/\" xmlns:xmp=\"http://ns.adobe.com/xap/1.0/\" xmlns:exif=\"http://ns.adobe.com/exif/1.0/\" xmlns:tiff=\"http://ns.adobe.com/tiff/1.0/\" xmlns:photoshop=\"http://ns.adobe.com/photoshop/1.0/\" xmp:Rating=\"5\" xmp:Label=\"Red\" tiff:Orientation=\"6\" photoshop:SidecarForExtension=\"NEF\" exif:DateTimeOriginal=\"2022-04-30T15:37:36+04:00\"><dc:subject><rdf:Bag><rdf:li>One</rdf:li><rdf:li>Two</rdf:li></rdf:Bag></dc:subject><lr:hierarchicalSubject><rdf:Bag><rdf:li>A|B</rdf:li></rdf:Bag></lr:hierarchicalSubject></rdf:Description>");
    let r = UpdateResults::from_slice(&bytes).unwrap();
    assert_eq!(r.stars, Some(5));
    assert_eq!(r.colors.as_deref(), Some("Red"));
    assert_eq!(r.orientation, Some(6));
    assert_eq!(r.sidecar_for_extension.as_deref(), Some("NEF"));
    assert_eq!(r.datetime, Some(1651318656));
    assert_eq!(r.offset, Some(4 * 3600));
    assert_eq!(
        sorted(r.subjects.as_ref().unwrap()),
        vec!["One".to_string(), "Two".to_string()]
    );
    assert_eq!(
        sorted(r.hierarchies.as_ref().unwrap()),
        vec!["A|B".to_string()]
    );
}

#[test]
fn unparseable_numbers_read_as_absent() {
    let bytes = doc("<rdf:Description rdf:about=\"\" xmlns:xmp=\"http://ns.adobe.com/xap/1.0/\" xmlns:tiff=\"http://ns.adobe.com/tiff/1.0/\" xmp:Rating=\"many\" tiff:Orientation=\"-3\"/>");
    let r = UpdateResults::from_slice(&bytes).unwrap();
    assert_eq!(r.stars, None);
    assert_eq!(r.orientation, None);
    assert_eq!(r.datetime, None);
}

#[test]
fn secondary_date_source_consulted() {
    let bytes = doc("<rdf:Description rdf:about=\"\" xmlns:xmp=\"http://ns.adobe.com/xap/1.0/\" xmp:CreateDate=\"2022-04-30T15:37:36Z\"/>");
    let r = UpdateResults::from_slice(&bytes).unwrap();
    assert_eq!(r.datetime, Some(1651333056));
    assert_eq!(r.offset, None);
}

#[test]
fn fresh_template_round_trip() {
    // writing a legal patch into the fresh template and reading it back
    let template = xmp_source_or_default(Err(xmp::errors::XmpError::new(
        XmpErrorKind::XMPMissing,
    )));
    let patch = UpdateResults {
        stars: Some(5),
        colors: Some("Blue".to_string()),
        datetime: Some(1651333056),
        subjects: Some(vec!["World".to_string(), "Hello".to_string()]),
        hierarchies: Some(vec!["Top|Sub".to_string()]),
        orientation: Some(8),
        offset: Some(5 * 3600 + 30 * 60),
        sidecar_for_extension: None,
    };
    let out = patch
        .update_xml(&template, &UpdateOptions::default())
        .unwrap();
    let r = UpdateResults::from_slice(&out).unwrap();
    assert_eq!(r.stars, Some(5));
    assert_eq!(r.colors.as_deref(), Some("Blue"));
    assert_eq!(r.orientation, Some(8));
    assert_eq!(r.datetime, Some(1651333056));
    assert_eq!(r.offset, Some(5 * 3600 + 30 * 60));
    assert_eq!(
        sorted(r.subjects.as_ref().unwrap()),
        vec!["Hello".to_string(), "World".to_string()]
    );
    assert_eq!(
        sorted(r.hierarchies.as_ref().unwrap()),
        vec!["Top|Sub".to_string()]
    );
}

#[test]
fn union_and_overwrite_on_documents() {
    let bytes = doc("<rdf:Description rdf:about=\"\" xmlns:dc=\"http://purl.org/dc/elements/1.1/\"><dc:subject><rdf:Bag><rdf:li>A</rdf:li><rdf:li>B</rdf:li></rdf:Bag></dc:subject></rdf:Description>");
    let patch = UpdateResults {
        subjects: Some(vec!["B".to_string(), "C".to_string()]),
        ..Default::default()
    };
    let unioned = patch.update_xml(&bytes, &UpdateOptions::default()).unwrap();
    let r = UpdateResults::from_slice(&unioned).unwrap();
    assert_eq!(
        sorted(r.subjects.as_ref().unwrap()),
        vec!["A".to_string(), "B".to_string(), "C".to_string()]
    );

    let overwritten = patch
        .update_xml(
            &bytes,
            &UpdateOptions {
                indent: None,
                overwrite: true,
            },
        )
        .unwrap();
    let r2 = UpdateResults::from_slice(&overwritten).unwrap();
    assert_eq!(
        sorted(r2.subjects.as_ref().unwrap()),
        vec!["B".to_string(), "C".to_string()]
    );
}

#[test]
fn applying_twice_is_idempotent() {
    let bytes = doc("<rdf:Description rdf:about=\"\" xmlns:dc=\"http://purl.org/dc/elements/1.1/\"><dc:subject><rdf:Bag><rdf:li>A</rdf:li></rdf:Bag></dc:subject></rdf:Description>");
    let patch = UpdateResults {
        subjects: Some(vec!["A".to_string(), "B".to_string()]),
        hierarchies: Some(vec!["H".to_string()]),
        ..Default::default()
    };
    let once = patch.update_xml(&bytes, &UpdateOptions::default()).unwrap();
    let twice = patch.update_xml(&once, &UpdateOptions::default()).unwrap();
    let r1 = UpdateResults::from_slice(&once).unwrap();
    let r2 = UpdateResults::from_slice(&twice).unwrap();
    assert_eq!(
        sorted(r1.subjects.as_ref().unwrap()),
        sorted(r2.subjects.as_ref().unwrap())
    );
    // the second application leaves every field as it was
    assert_eq!(r1, r2);
}

#[test]
fn equal_sets_leave_output_identical() {
    // a document already carrying the patch set, with the prefixes the
    // writer would add already declared
    let bytes = doc("<rdf:Description rdf:about=\"\" xmlns:dc=\"http://purl.org/dc/elements/1.1/\" xmlns:xmp=\"http://ns.adobe.com/xap/1.0/\" xmlns:exif=\"http://ns.adobe.com/exif/1.0/\" xmlns:tiff=\"http://ns.adobe.com/tiff/1.0/\"><dc:subject><rdf:Bag><rdf:li>B</rdf:li><rdf:li>A</rdf:li></rdf:Bag></dc:subject></rdf:Description>");
    let patch = UpdateResults {
        subjects: Some(vec!["A".to_string(), "B".to_string()]),
        ..Default::default()
    };
    let first = patch.update_xml(&bytes, &UpdateOptions::default()).unwrap();
    let second = patch.update_xml(&first, &UpdateOptions::default()).unwrap();
    // the merge itself is a no-op: the bag keeps the li order it had
    // and the records agree completely
    let r1 = UpdateResults::from_slice(&first).unwrap();
    let r2 = UpdateResults::from_slice(&second).unwrap();
    assert_eq!(r1, r2);
    assert_eq!(
        r1.subjects.as_ref().unwrap(),
        &vec!["B".to_string(), "A".to_string()]
    );
}

#[test]
fn namespace_recovery_extracts_identical_values() {
    // the declared document and its equivalent missing `xmlns:dc`
    let with_ns = doc("<rdf:Description rdf:about=\"\" xmlns:dc=\"http://purl.org/dc/elements/1.1/\" xmlns:xmp=\"http://ns.adobe.com/xap/1.0/\" xmp:Rating=\"3\"><dc:subject><rdf:Bag><rdf:li>K</rdf:li></rdf:Bag></dc:subject></rdf:Description>");
    let without_ns = doc("<rdf:Description rdf:about=\"\" xmlns:xmp=\"http://ns.adobe.com/xap/1.0/\" xmp:Rating=\"3\"><dc:subject><rdf:Bag><rdf:li>K</rdf:li></rdf:Bag></dc:subject></rdf:Description>");
    let a = UpdateResults::from_slice(&with_ns).unwrap();
    let b = UpdateResults::from_slice(&without_ns).unwrap();
    assert_eq!(a, b);
    assert_eq!(b.stars, Some(3));
    assert_eq!(b.subjects.as_ref().unwrap(), &vec!["K".to_string()]);
}

#[test]
fn packet_wrappers_are_stripped() {
    let mut bytes = b"<?xpacket begin=\"\" id=\"W5M0MpCehiHzreSzNTczkc9d\"?>".to_vec();
    bytes.extend_from_slice(&doc(
        "<rdf:Description rdf:about=\"\" xmlns:xmp=\"http://ns.adobe.com/xap/1.0/\" xmp:Rating=\"2\"/>",
    ));
    bytes.extend_from_slice(b"<?xpacket end=\"w\"?>");
    let r = UpdateResults::from_slice(&bytes).unwrap();
    assert_eq!(r.stars, Some(2));

    let stripped = strip_markup(b"a<?pi data?>b<!--note-->c");
    assert_eq!(stripped, b"abc".to_vec());
}

#[test]
fn structural_errors_surface() {
    let no_description = doc("");
    let e = UpdateResults::from_slice(&no_description).unwrap_err();
    assert_eq!(e.kind(), XmpErrorKind::ChildNotFound);

    let e2 = UpdateResults::from_slice(b"not xml at all").unwrap_err();
    assert_eq!(e2.kind(), XmpErrorKind::MinidomError);

    let patch = UpdateResults {
        orientation: Some(9),
        ..Default::default()
    };
    let template = xmp_source_or_default(Err(xmp::errors::XmpError::new(
        XmpErrorKind::XMPMissing,
    )));
    let e3 = patch
        .update_xml(&template, &UpdateOptions::default())
        .unwrap_err();
    assert_eq!(e3.kind(), XmpErrorKind::ValueOutOfRange);
}

#[test]
fn incomplete_record_is_rejected() {
    let partial = UpdateResults {
        stars: Some(1),
        ..Default::default()
    };
    let e = xmp::Results::from_optional(partial).unwrap_err();
    assert_eq!(e.kind(), XmpErrorKind::IncompleteRecord);

    let full = UpdateResults {
        stars: Some(1),
        colors: Some("Red".to_string()),
        datetime: Some(7),
        subjects: Some(vec![]),
        hierarchies: Some(vec![]),
        ..Default::default()
    };
    let c = xmp::Results::from_optional(full).unwrap();
    assert_eq!(c.stars, 1);
    assert_eq!(c.datetime, 7);
}

#[test]
fn extension_classification() {
    assert_eq!(ImageType::from_ext("txt"), ImageType::Others);
    assert_eq!(ImageType::from_ext(""), ImageType::Others);
    assert_eq!(ImageType::from_ext("JPG"), ImageType::Jpg);
    assert_eq!(ImageType::from_ext("jpeg"), ImageType::Jpg);
    assert_eq!(ImageType::from_ext("NEF"), ImageType::Raw);
    assert_eq!(ImageType::from_ext("xmp"), ImageType::Xmp);
    assert_eq!(ImageType::from_ext("png"), ImageType::Png);
    assert_eq!(ImageType::from_ext("tif"), ImageType::Tiff);
    assert_eq!(ImageType::from_ext("heic"), ImageType::Heif);
    assert!(xmp::sidecar_matches("NEF", "nef"));
    assert!(!xmp::sidecar_matches("dng", "nef"));
}

#[test]
fn item_names() {
    let item = xmp::rdf::item_rating();
    assert_eq!(item.attr_name(), "xmp:Rating");
    assert_eq!(item.child_name(), "Rating");
}

#[test]
fn pretty_printing_on_request() {
    let template = xmp_source_or_default(Err(xmp::errors::XmpError::new(
        XmpErrorKind::XMPMissing,
    )));
    let patch = UpdateResults {
        subjects: Some(vec!["One".to_string(), "Two".to_string()]),
        stars: Some(4),
        ..Default::default()
    };
    let compact = patch.update_xml(&template, &UpdateOptions::default()).unwrap();
    assert!(!compact.contains(&b'\n'));

    let pretty = patch
        .update_xml(
            &template,
            &UpdateOptions {
                indent: Some((b' ', 2)),
                overwrite: false,
            },
        )
        .unwrap();
    let text = String::from_utf8(pretty.clone()).unwrap();
    // each nesting level steps in by the requested two spaces
    assert!(text.contains("\n  <"));
    assert!(text.contains("\n    <"));
    // the indented document reads back the same record
    let r1 = UpdateResults::from_slice(&compact).unwrap();
    let r2 = UpdateResults::from_slice(&pretty).unwrap();
    assert_eq!(r1.stars, r2.stars);
    assert_eq!(
        sorted(r1.subjects.as_ref().unwrap()),
        sorted(r2.subjects.as_ref().unwrap())
    );
}

#[test]
fn unserializable_declarations_are_refused() {
    // the XML writer treats root declarations as global and aborts on
    // a nested redeclaration; the library refuses such documents
    // cleanly instead of writing them
    let bytes = b"<x:xmpmeta xmlns:x=\"adobe:ns:meta/\" xmlns:xmp=\"http://ns.adobe.com/xap/1.0/\"><rdf:RDF xmlns:rdf=\"http://www.w3.org/1999/02/22-rdf-syntax-ns#\"><rdf:Description rdf:about=\"\"/></rdf:RDF></x:xmpmeta>".to_vec();
    let patch = UpdateResults {
        stars: Some(2),
        ..Default::default()
    };
    // the update would have to redeclare the root-declared prefix on
    // the description, which the writer cannot serialize
    let e = patch.update_xml(&bytes, &UpdateOptions::default()).unwrap_err();
    assert_eq!(e.kind(), XmpErrorKind::MinidomError);
    // reading the same document is unaffected
    assert!(UpdateResults::from_slice(&bytes).is_ok());
}

#[test]
fn reserved_namespace_declarations_are_refused() {
    // a declaration binding a reserved namespace URI under another
    // prefix never reaches the writer: the XML layer already refuses
    // it at parse time, and both paths surface the same clean error
    let bytes = doc("<rdf:Description rdf:about=\"\" xmlns:foo=\"http://www.w3.org/XML/1998/namespace\"/>");
    let patch = UpdateResults {
        stars: Some(1),
        ..Default::default()
    };
    let e = patch.update_xml(&bytes, &UpdateOptions::default()).unwrap_err();
    assert_eq!(e.kind(), XmpErrorKind::MinidomError);
    let e2 = UpdateResults::from_slice(&bytes).unwrap_err();
    assert_eq!(e2.kind(), XmpErrorKind::MinidomError);
}

#[test]
fn errors_carry_their_site() {
    let no_description = doc("");
    let e = UpdateResults::from_slice(&no_description).unwrap_err();
    assert_eq!(e.kind(), XmpErrorKind::ChildNotFound);
    assert!(!e.site().is_empty());
}
