//! EXIF orientation codes 1–8 modelled as the dihedral-8 group (the
//! symmetries of a square): composition by a fixed 8×8 table, inversion,
//! the vendor flip-code mapping, and the fixed TIFF IFD blob that encodes
//! an orientation as raw EXIF container data.

use vstd::prelude::*;

verus! {

/// One EXIF orientation code. Codes 1 through 8 are meaningful; the
/// composition table maps every pair outside the table to 1 (no rotation).
#[derive(Debug, Clone, Copy, PartialEq, Eq, Structural)]
pub struct Orientation(pub u8);

/// The composition table: the orientation that results from applying
/// `b` after `a`. 1 is the identity; any pair not in the table gives 1.
pub open spec fn spec_compose(a: u8, b: u8) -> u8 {
    match (a, b) {
        (1, o) => o,
        (o, 1) => o,
        (2, 2) => 1,
        (2, 3) => 4,
        (2, 4) => 3,
        (2, 5) => 6,
        (2, 6) => 5,
        (2, 7) => 8,
        (2, 8) => 7,
        (3, 2) => 4,
        (3, 3) => 1,
        (3, 4) => 2,
        (3, 5) => 7,
        (3, 6) => 8,
        (3, 7) => 5,
        (3, 8) => 6,
        (4, 2) => 3,
        (4, 3) => 2,
        (4, 4) => 1,
        (4, 5) => 8,
        (4, 6) => 7,
        (4, 7) => 6,
        (4, 8) => 5,
        (5, 2) => 8,
        (5, 3) => 7,
        (5, 4) => 6,
        (5, 5) => 1,
        (5, 6) => 4,
        (5, 7) => 3,
        (5, 8) => 2,
        (6, 2) => 7,
        (6, 3) => 8,
        (6, 4) => 5,
        (6, 5) => 2,
        (6, 6) => 3,
        (6, 7) => 4,
        (6, 8) => 1,
        (7, 2) => 6,
        (7, 3) => 5,
        (7, 4) => 8,
        (7, 5) => 3,
        (7, 6) => 2,
        (7, 7) => 1,
        (7, 8) => 4,
        (8, 2) => 5,
        (8, 3) => 6,
        (8, 4) => 7,
        (8, 5) => 4,
        (8, 6) => 1,
        (8, 7) => 2,
        (8, 8) => 3,
        (_, _) => 1,
    }
}

/// Inversion: rotations reverse (6 and 8 swap); every reflection and the
/// half-turn are their own inverse.
pub open spec fn spec_neg(o: u8) -> u8 {
    match o {
        6 => 8,
        8 => 6,
        o => o,
    }
}

/// The vendor flip codes that map onto orientation codes: {0, 3, 5, 6}
/// map to {1, 3, 8, 6}; every other flip code defaults to 1.
pub open spec fn spec_flip_to_orientation(flip: i32) -> u8 {
    match flip {
        0 => 1,
        3 => 3,
        5 => 8,
        6 => 6,
        _ => 1,
    }
}

/// The fixed 26-byte big-endian TIFF IFD blob holding a single
/// Orientation entry with value `o`.
pub open spec fn spec_exif_blob(o: u8) -> Seq<u8> {
    seq![
        0x4du8, 0x4du8, 0x00u8, 0x2au8, 0x00u8, 0x00u8, 0x00u8, 0x08u8,
        0x00u8, 0x01u8, 0x01u8, 0x12u8, 0x00u8, 0x03u8, 0x00u8, 0x00u8,
        0x00u8, 0x01u8, 0x00u8, o, 0x00u8, 0x00u8, 0x00u8, 0x00u8,
        0x00u8, 0x00u8,
    ]
}

impl Orientation {
    /// True of the eight meaningful orientation codes.
    pub open spec fn is_valid(self) -> bool {
        1 <= self.0 <= 8
    }

    /// Accepts any code up to 8 (0 included, as a "not yet known" code);
    /// rejects everything above 8.
    pub fn new(o: u8) -> (r: Option<Self>)
        ensures
            r == if o > 8 { None::<Orientation> } else { Some(Orientation(o)) },
    {
        if o > 8 {
            None
        } else {
            Some(Orientation(o))
        }
    }

    /// Applies orientation `rhs` after `self`, by the fixed table.
    pub fn compose(self, rhs: Orientation) -> (r: Orientation)
        ensures
            r.0 == spec_compose(self.0, rhs.0),
    {
        Orientation(
            match (self.0, rhs.0) {
                (1, o) => o,
                (o, 1) => o,
                (2, 2) => 1,
                (2, 3) => 4,
                (2, 4) => 3,
                (2, 5) => 6,
                (2, 6) => 5,
                (2, 7) => 8,
                (2, 8) => 7,
                (3, 2) => 4,
                (3, 3) => 1,
                (3, 4) => 2,
                (3, 5) => 7,
                (3, 6) => 8,
                (3, 7) => 5,
                (3, 8) => 6,
                (4, 2) => 3,
                (4, 3) => 2,
                (4, 4) => 1,
                (4, 5) => 8,
                (4, 6) => 7,
                (4, 7) => 6,
                (4, 8) => 5,
                (5, 2) => 8,
                (5, 3) => 7,
                (5, 4) => 6,
                (5, 5) => 1,
                (5, 6) => 4,
                (5, 7) => 3,
                (5, 8) => 2,
                (6, 2) => 7,
                (6, 3) => 8,
                (6, 4) => 5,
                (6, 5) => 2,
                (6, 6) => 3,
                (6, 7) => 4,
                (6, 8) => 1,
                (7, 2) => 6,
                (7, 3) => 5,
                (7, 4) => 8,
                (7, 5) => 3,
                (7, 6) => 2,
                (7, 7) => 1,
                (7, 8) => 4,
                (8, 2) => 5,
                (8, 3) => 6,
                (8, 4) => 7,
                (8, 5) => 4,
                (8, 6) => 1,
                (8, 7) => 2,
                (8, 8) => 3,
                (_, _) => 1,
            },
        )
    }

    /// The inverse orientation.
    pub fn neg(self) -> (r: Orientation)
        ensures
            r.0 == spec_neg(self.0),
    {
        Orientation(
            match self.0 {
                6 => 8,
                8 => 6,
                o => o,
            },
        )
    }

    /// Converts a vendor flip code to an orientation code.
    pub fn libraw_flip_to_orientation(flip: i32) -> (r: u8)
        ensures
            r == spec_flip_to_orientation(flip),
    {
        match flip {
            0 => 1,
            3 => 3,
            5 => 8,
            6 => 6,
            _ => 1,
        }
    }

    /// Encodes orientation code `o` as a raw EXIF container blob: a
    /// big-endian TIFF header and a one-entry IFD whose single SHORT
    /// field is the Orientation tag.
    pub fn exif_data_with_orientation(o: u8) -> (r: Vec<u8>)
        ensures
            r@ == spec_exif_blob(o),
    {
        let r: Vec<u8> = vec![
            0x4d, 0x4d, 0x00, 0x2a, 0x00, 0x00, 0x00, 0x08,
            0x00, 0x01, 0x01, 0x12, 0x00, 0x03, 0x00, 0x00,
            0x00, 0x01, 0x00, o, 0x00, 0x00, 0x00, 0x00,
            0x00, 0x00,
        ];
        proof {
            assert(r@ =~= spec_exif_blob(o));
        }
        r
    }
}

impl Default for Orientation {
    /// The identity orientation: no rotation.
    fn default() -> (r: Self)
        ensures
            r == Orientation(1u8),
    {
        Orientation(1)
    }
}

/// Composing with the identity on either side changes nothing.
pub proof fn lemma_compose_identity(o: u8)
    ensures
        spec_compose(1, o) == o,
        spec_compose(o, 1) == o,
{
}

/// The table never leaves the eight meaningful codes.
pub proof fn lemma_compose_closed(a: u8, b: u8)
    requires
        1 <= a <= 8,
        1 <= b <= 8,
    ensures
        1 <= spec_compose(a, b) <= 8,
{
}

/// Every orientation composed with its inverse gives the identity,
/// on both sides.
pub proof fn lemma_neg_is_inverse(o: u8)
    requires
        1 <= o <= 8,
    ensures
        spec_compose(o, spec_neg(o)) == 1,
        spec_compose(spec_neg(o), o) == 1,
{
}

} // verus!
