//! The orientation algebra on concrete codes.

use xmp::Orientation;

#[test]
fn composition_cases() {
    // composing a transform with itself or its inverse
    assert_eq!(Orientation(2).compose(Orientation(2)), Orientation(1));
    assert_eq!(Orientation(6).compose(Orientation(8)), Orientation(1));
    assert_eq!(Orientation(8).compose(Orientation(6)), Orientation(1));
    assert_eq!(Orientation(3).compose(Orientation(3)), Orientation(1));
    assert_eq!(Orientation(5).compose(Orientation(6)), Orientation(4));
}

#[test]
fn identity_laws() {
    for o in 1u8..=8 {
        assert_eq!(Orientation(1).compose(Orientation(o)), Orientation(o));
        assert_eq!(Orientation(o).compose(Orientation(1)), Orientation(o));
    }
}

#[test]
fn inverse_law() {
    for o in 1u8..=8 {
        let inv = Orientation(o).neg();
        assert_eq!(Orientation(o).compose(inv), Orientation(1));
        assert_eq!(inv.compose(Orientation(o)), Orientation(1));
    }
}

#[test]
fn neg_swaps_quarter_turns() {
    assert_eq!(Orientation(6).neg(), Orientation(8));
    assert_eq!(Orientation(8).neg(), Orientation(6));
    assert_eq!(Orientation(3).neg(), Orientation(3));
}

#[test]
fn new_rejects_out_of_range() {
    assert_eq!(Orientation::new(8), Some(Orientation(8)));
    assert_eq!(Orientation::new(0), Some(Orientation(0)));
    assert_eq!(Orientation::new(9), None);
    assert_eq!(Orientation::new(255), None);
}

#[test]
fn vendor_flip_codes() {
    assert_eq!(Orientation::libraw_flip_to_orientation(0), 1);
    assert_eq!(Orientation::libraw_flip_to_orientation(3), 3);
    assert_eq!(Orientation::libraw_flip_to_orientation(5), 8);
    assert_eq!(Orientation::libraw_flip_to_orientation(6), 6);
    assert_eq!(Orientation::libraw_flip_to_orientation(7), 1);
    assert_eq!(Orientation::libraw_flip_to_orientation(-1), 1);
}

#[test]
fn exif_blob_shape() {
    let blob = Orientation::exif_data_with_orientation(6);
    assert_eq!(blob.len(), 26);
    assert_eq!(&blob[0..4], &[0x4d, 0x4d, 0x00, 0x2a]);
    assert_eq!(blob[19], 6);
    // the blob is real EXIF: the codec reads the orientation back
    let exif = exif::Reader::new().read_raw(blob).unwrap();
    let field = exif
        .get_field(exif::Tag::Orientation, exif::In::PRIMARY)
        .unwrap();
    assert_eq!(field.value.get_uint(0), Some(6));
}
