//! The RDF mapper: the property registry, lookup of one property on
//! the `rdf:Description` node (attribute form first, then the child
//! element form), and extraction of the partial record from a parsed
//! document tree.

use vstd::prelude::*;

use crate::errors::{XmpError, XmpErrorKind};
use crate::merge::{spec_set_of, spec_strset};
use vstd::arithmetic::div_mod::{
    lemma_fundamental_div_mod, lemma_fundamental_div_mod_converse, lemma_mod_bound,
};
use crate::xmltree::{
    spec_attr, spec_child, spec_child_pos, spec_child_texts, spec_named_child_texts,
    spec_node_is, spec_texts, XmlElem, XmlNode,
};
use crate::XmpItem;

verus! {

/// The RDF syntax namespace.
pub open spec fn spec_ns_rdf() -> Seq<char> {
    "http://www.w3.org/1999/02/22-rdf-syntax-ns#"@
}

/// The Dublin Core namespace.
pub open spec fn spec_ns_dc() -> Seq<char> {
    "http://purl.org/dc/elements/1.1/"@
}

/// The TIFF namespace.
pub open spec fn spec_ns_tiff() -> Seq<char> {
    "http://ns.adobe.com/tiff/1.0/"@
}

/// The Lightroom namespace.
pub open spec fn spec_ns_lr() -> Seq<char> {
    "http://ns.adobe.com/lightroom/1.0/"@
}

/// The XMP basic namespace.
pub open spec fn spec_ns_xmp() -> Seq<char> {
    "http://ns.adobe.com/xap/1.0/"@
}

/// The EXIF namespace.
pub open spec fn spec_ns_exif() -> Seq<char> {
    "http://ns.adobe.com/exif/1.0/"@
}

/// The Photoshop namespace.
pub open spec fn spec_ns_photoshop() -> Seq<char> {
    "http://ns.adobe.com/photoshop/1.0/"@
}

/// The RDF syntax namespace.
pub fn ns_rdf() -> (r: &'static str)
    ensures
        r@ == spec_ns_rdf(),
{
    "http://www.w3.org/1999/02/22-rdf-syntax-ns#"
}

/// The Dublin Core namespace.
pub fn ns_dc() -> (r: &'static str)
    ensures
        r@ == spec_ns_dc(),
{
    "http://purl.org/dc/elements/1.1/"
}

/// The TIFF namespace.
pub fn ns_tiff() -> (r: &'static str)
    ensures
        r@ == spec_ns_tiff(),
{
    "http://ns.adobe.com/tiff/1.0/"
}

/// The Lightroom namespace.
pub fn ns_lr() -> (r: &'static str)
    ensures
        r@ == spec_ns_lr(),
{
    "http://ns.adobe.com/lightroom/1.0/"
}

/// The XMP basic namespace.
pub fn ns_xmp() -> (r: &'static str)
    ensures
        r@ == spec_ns_xmp(),
{
    "http://ns.adobe.com/xap/1.0/"
}

/// The EXIF namespace.
pub fn ns_exif() -> (r: &'static str)
    ensures
        r@ == spec_ns_exif(),
{
    "http://ns.adobe.com/exif/1.0/"
}

/// The Photoshop namespace.
pub fn ns_photoshop() -> (r: &'static str)
    ensures
        r@ == spec_ns_photoshop(),
{
    "http://ns.adobe.com/photoshop/1.0/"
}

/// The primary capture-time property, `exif:DateTimeOriginal`.
pub fn item_date_time_original() -> (r: XmpItem<'static>)
    ensures
        r.name@ == "DateTimeOriginal"@,
        r.namespace@ == spec_ns_exif(),
        r.namespace_short@ == "exif"@,
{
    XmpItem { name: "DateTimeOriginal", namespace: ns_exif(), namespace_short: "exif" }
}

/// The sensor orientation property, `tiff:Orientation`.
pub fn item_orientation() -> (r: XmpItem<'static>)
    ensures
        r.name@ == "Orientation"@,
        r.namespace@ == spec_ns_tiff(),
        r.namespace_short@ == "tiff"@,
{
    XmpItem { name: "Orientation", namespace: ns_tiff(), namespace_short: "tiff" }
}

/// The secondary capture-time property, `xmp:CreateDate`.
pub fn item_create_date() -> (r: XmpItem<'static>)
    ensures
        r.name@ == "CreateDate"@,
        r.namespace@ == spec_ns_xmp(),
        r.namespace_short@ == "xmp"@,
{
    XmpItem { name: "CreateDate", namespace: ns_xmp(), namespace_short: "xmp" }
}

/// The star-rating property, `xmp:Rating`.
pub fn item_rating() -> (r: XmpItem<'static>)
    ensures
        r.name@ == "Rating"@,
        r.namespace@ == spec_ns_xmp(),
        r.namespace_short@ == "xmp"@,
{
    XmpItem { name: "Rating", namespace: ns_xmp(), namespace_short: "xmp" }
}

/// The color-label property, `xmp:Label`.
pub fn item_label() -> (r: XmpItem<'static>)
    ensures
        r.name@ == "Label"@,
        r.namespace@ == spec_ns_xmp(),
        r.namespace_short@ == "xmp"@,
{
    XmpItem { name: "Label", namespace: ns_xmp(), namespace_short: "xmp" }
}

/// The sidecar-association property, `photoshop:SidecarForExtension`.
pub fn item_sidecar_for_extension() -> (r: XmpItem<'static>)
    ensures
        r.name@ == "SidecarForExtension"@,
        r.namespace@ == spec_ns_photoshop(),
        r.namespace_short@ == "photoshop"@,
{
    XmpItem { name: "SidecarForExtension", namespace: ns_photoshop(), namespace_short: "photoshop" }
}

/// The value of one property on an element: the attribute form under
/// the qualified name wins; else the text of the child-element form.
pub open spec fn spec_item_of(e: XmlElem, attr_name: Seq<char>, name: Seq<char>, ns: Seq<char>) -> Option<Seq<char>> {
    match spec_attr(e.attrs@, attr_name) {
        Some(v) => Some(v),
        None => match spec_child(e.children@, name, ns) {
            Some(c) => Some(c.spec_text()),
            None => None,
        },
    }
}

/// Looks one property up on an element: the attribute form first,
/// then the child-element form; absence is an error carrying the I/O
/// error kind, as a missing source value reads as "not found".
pub fn try_get_item(element: &XmlElem, item: XmpItem) -> (r: Result<String, XmpError>)
    ensures
        match r {
            Ok(v) => spec_item_of(*element, item.namespace_short@ + ":"@ + item.name@, item.name@, item.namespace@) == Some(v@),
            Err(e) => spec_item_of(*element, item.namespace_short@ + ":"@ + item.name@, item.name@, item.namespace@) is None
                && e.spec_kind() == XmpErrorKind::IoError,
        },
{
    let qn = item.attr_name();
    match element.get_attr(qn.as_str()) {
        Some(v) => Ok(v.clone()),
        None => match element.get_child(item.name, item.namespace) {
            Some(c) => Ok(c.text()),
            None => Err(XmpError::at_site(XmpErrorKind::IoError, "rdf::try_get_item")),
        },
    }
}

/// The single `rdf:Description` inside the single `rdf:RDF`, if the
/// document has that skeleton.
pub open spec fn spec_description(root: XmlElem) -> Option<XmlElem> {
    match spec_child(root.children@, "RDF"@, spec_ns_rdf()) {
        Some(rdf) => spec_child(rdf.children@, "Description"@, spec_ns_rdf()),
        None => None,
    }
}

/// Finds the `rdf:Description` node, the hard structural requirement
/// of every read.
pub fn try_get_description(element: &XmlElem) -> (r: Result<&XmlElem, XmpError>)
    ensures
        match r {
            Ok(d) => spec_description(*element) == Some(*d),
            Err(e) => spec_description(*element) is None && e.spec_kind()
                == XmpErrorKind::ChildNotFound,
        },
{
    match element.get_child("RDF", ns_rdf()) {
        Some(rdf) => match rdf.get_child("Description", ns_rdf()) {
            Some(d) => Ok(d),
            None => Err(XmpError::at_site(XmpErrorKind::ChildNotFound, "rdf::try_get_description")),
        },
        None => Err(XmpError::at_site(XmpErrorKind::ChildNotFound, "rdf::try_get_description")),
    }
}


/// The star rating a description carries: the `xmp:Rating` property
/// read as Rust reads a `u8`, unparseable values reading as absent.
pub open spec fn spec_field_stars(d: XmlElem) -> Option<u8> {
    match spec_item_of(d, "xmp"@ + ":"@ + "Rating"@, "Rating"@, spec_ns_xmp()) {
        Some(v) => match crate::strutil::spec_parse_uint(v) {
            Some(n) => if 0 <= n <= 255 {
                Some(n as u8)
            } else {
                None
            },
            None => None,
        },
        None => None,
    }
}

/// The color label a description carries, as plain text.
pub open spec fn spec_field_colors(d: XmlElem) -> Option<Seq<char>> {
    spec_item_of(d, "xmp"@ + ":"@ + "Label"@, "Label"@, spec_ns_xmp())
}

/// The sidecar association a description carries, as plain text.
pub open spec fn spec_field_sidecar(d: XmlElem) -> Option<Seq<char>> {
    spec_item_of(
        d,
        "photoshop"@ + ":"@ + "SidecarForExtension"@,
        "SidecarForExtension"@,
        spec_ns_photoshop(),
    )
}

/// The capture instant and offset a description carries: the primary
/// property `exif:DateTimeOriginal`, or `xmp:CreateDate` when the
/// primary is absent or unparseable.
pub open spec fn spec_field_datetime(d: XmlElem) -> Option<(int, Option<int>)> {
    let primary = match spec_item_of(
        d,
        "exif"@ + ":"@ + "DateTimeOriginal"@,
        "DateTimeOriginal"@,
        spec_ns_exif(),
    ) {
        Some(v) => crate::time::spec_timestamp_offset(v),
        None => None,
    };
    match primary {
        Some(p) => Some(p),
        None => match spec_item_of(d, "xmp"@ + ":"@ + "CreateDate"@, "CreateDate"@, spec_ns_xmp()) {
            Some(v) => crate::time::spec_timestamp_offset(v),
            None => None,
        },
    }
}

/// The orientation a description carries: the property read as Rust
/// reads a `usize`; a parseable child-element form overrides the
/// attribute form.
pub open spec fn spec_field_orientation(d: XmlElem) -> Option<usize> {
    let first = match spec_item_of(
        d,
        "tiff"@ + ":"@ + "Orientation"@,
        "Orientation"@,
        spec_ns_tiff(),
    ) {
        Some(v) => match crate::strutil::spec_parse_uint(v) {
            Some(n) => if 0 <= n <= usize::MAX {
                Some(n as usize)
            } else {
                None
            },
            None => None,
        },
        None => None,
    };
    match spec_child(d.children@, "Orientation"@, spec_ns_tiff()) {
        Some(c) => match crate::strutil::spec_parse_uint(c.spec_text()) {
            Some(n) => if 0 <= n <= usize::MAX {
                Some(n as usize)
            } else {
                first
            },
            None => first,
        },
        None => first,
    }
}

/// The multi-valued property under this name: the texts of all
/// children of its `rdf:Bag`, in document order.
pub open spec fn spec_field_bag(d: XmlElem, name: Seq<char>, ns: Seq<char>) -> Option<
    Seq<Seq<char>>,
> {
    match spec_child(d.children@, name, ns) {
        Some(p) => match spec_child(p.children@, "Bag"@, spec_ns_rdf()) {
            Some(bag) => Some(spec_child_texts(bag.children@)),
            None => None,
        },
        None => None,
    }
}


/// The loose read of a description: exactly what each field of the
/// partial record holds, per property.
pub open spec fn spec_extracted(u: crate::UpdateResults, d: XmlElem) -> bool {
    &&& u.stars == spec_field_stars(d)
    &&& match spec_field_colors(d) {
        Some(v) => u.colors matches Some(c) && c@ == v,
        None => u.colors is None,
    }
    &&& match spec_field_sidecar(d) {
        Some(v) => u.sidecar_for_extension matches Some(c) && c@ == v,
        None => u.sidecar_for_extension is None,
    }
    &&& match spec_field_datetime(d) {
        Some((t, Some(o))) => (u.datetime matches Some(x) && x as int == t) && (
        u.offset matches Some(y) && y as int == o),
        Some((t, None)) => (u.datetime matches Some(x) && x as int == t) && (u.offset is None),
        None => u.datetime is None && u.offset is None,
    }
    &&& u.orientation == spec_field_orientation(d)
    &&& match spec_field_bag(d, "subject"@, spec_ns_dc()) {
        Some(v) => u.subjects matches Some(sv) && sv@.map_values(|s: String| s@) == v,
        None => u.subjects is None,
    }
    &&& match spec_field_bag(d, "hierarchicalSubject"@, spec_ns_lr()) {
        Some(v) => u.hierarchies matches Some(sv) && sv@.map_values(|s: String| s@) == v,
        None => u.hierarchies is None,
    }
}

/// Bundles the extraction clauses into the one predicate.
pub proof fn lemma_extracted_intro(u: crate::UpdateResults, d: XmlElem)
    requires
        u.stars == spec_field_stars(d),
        match spec_field_colors(d) {
            Some(v) => u.colors matches Some(c) && c@ == v,
            None => u.colors is None,
        },
        match spec_field_sidecar(d) {
            Some(v) => u.sidecar_for_extension matches Some(c) && c@ == v,
            None => u.sidecar_for_extension is None,
        },
        match spec_field_datetime(d) {
            Some((t, Some(o))) => (u.datetime matches Some(x) && x as int == t) && (
            u.offset matches Some(y) && y as int == o),
            Some((t, None)) => (u.datetime matches Some(x) && x as int == t) && (
            u.offset is None),
            None => u.datetime is None && u.offset is None,
        },
        u.orientation == spec_field_orientation(d),
        match spec_field_bag(d, "subject"@, spec_ns_dc()) {
            Some(v) => u.subjects matches Some(sv) && sv@.map_values(|s: String| s@) == v,
            None => u.subjects is None,
        },
        match spec_field_bag(d, "hierarchicalSubject"@, spec_ns_lr()) {
            Some(v) => u.hierarchies matches Some(sv) && sv@.map_values(|s: String| s@) == v,
            None => u.hierarchies is None,
        },
    ensures
        spec_extracted(u, d),
{
}

impl crate::UpdateResults {
    /// Reads the partial record out of a parsed document: each of the
    /// recognized properties via its lookup rule, unparseable numbers
    /// and dates reading as absent; a document without the
    /// `rdf:RDF` / `rdf:Description` skeleton is a hard error.
    pub fn from_tree(root: &XmlElem) -> (r: Result<crate::UpdateResults, XmpError>)
        ensures
            match r {
                Ok(u) => spec_description(*root) matches Some(d) && {
                    &&& u.stars == spec_field_stars(d)
                    &&& match spec_field_colors(d) {
                        Some(v) => u.colors matches Some(c) && c@ == v,
                        None => u.colors is None,
                    }
                    &&& match spec_field_sidecar(d) {
                        Some(v) => u.sidecar_for_extension matches Some(c) && c@ == v,
                        None => u.sidecar_for_extension is None,
                    }
                    &&& match spec_field_datetime(d) {
                        Some((t, Some(o))) => (u.datetime matches Some(x) && x as int == t) && (
                        u.offset matches Some(y) && y as int == o),
                        Some((t, None)) => (u.datetime matches Some(x) && x as int == t) && (
                        u.offset is None),
                        None => u.datetime is None && u.offset is None,
                    }
                    &&& u.orientation == spec_field_orientation(d)
                    &&& match spec_field_bag(d, "subject"@, spec_ns_dc()) {
                        Some(v) => u.subjects matches Some(sv) && sv@.map_values(|s: String| s@)
                            == v,
                        None => u.subjects is None,
                    }
                    &&& match spec_field_bag(d, "hierarchicalSubject"@, spec_ns_lr()) {
                        Some(v) => u.hierarchies matches Some(sv) && sv@.map_values(
                            |s: String| s@,
                        ) == v,
                        None => u.hierarchies is None,
                    }
                },
                Err(e) => spec_description(*root) is None && e.spec_kind()
                    == XmpErrorKind::ChildNotFound,
            },
    {
        let description = match try_get_description(root) {
            Ok(d) => d,
            Err(e) => {
                return Err(e);
            },
        };
        let mut out = crate::UpdateResults {
            stars: None,
            colors: None,
            datetime: None,
            subjects: None,
            hierarchies: None,
            orientation: None,
            offset: None,
            sidecar_for_extension: None,
        };
        match try_get_item(description, item_date_time_original()) {
            Ok(v) => {
                match crate::time::timestamp_offset(v.as_str()) {
                    Some((t, o)) => {
                        out.datetime = Some(t);
                        out.offset = o;
                    },
                    None => {},
                }
            },
            Err(_) => {},
        }
        if out.datetime.is_none() {
            match try_get_item(description, item_create_date()) {
                Ok(v) => {
                    match crate::time::timestamp_offset(v.as_str()) {
                        Some((t, o)) => {
                            out.datetime = Some(t);
                            out.offset = o;
                        },
                        None => {},
                    }
                },
                Err(_) => {},
            }
        }
        match try_get_item(description, item_sidecar_for_extension()) {
            Ok(v) => {
                out.sidecar_for_extension = Some(v);
            },
            Err(_) => {},
        }
        match try_get_item(description, item_rating()) {
            Ok(v) => {
                proof {
                    crate::strutil::lemma_parse_uint_nonneg(v@);
                }
                out.stars = crate::strutil::parse_u8(v.as_str());
            },
            Err(_) => {},
        }
        match try_get_item(description, item_label()) {
            Ok(v) => {
                out.colors = Some(v);
            },
            Err(_) => {},
        }
        match try_get_item(description, item_orientation()) {
            Ok(v) => {
                proof {
                    crate::strutil::lemma_parse_uint_nonneg(v@);
                }
                out.orientation = crate::strutil::parse_usize(v.as_str());
            },
            Err(_) => {},
        }
        match description.get_child("Orientation", ns_tiff()) {
            Some(c) => {
                let t = c.text();
                proof {
                    crate::strutil::lemma_parse_uint_nonneg(t@);
                }
                match crate::strutil::parse_usize(t.as_str()) {
                    Some(o) => {
                        out.orientation = Some(o);
                    },
                    None => {},
                }
            },
            None => {},
        }
        match description.get_child("subject", ns_dc()) {
            Some(subj) => match subj.get_child("Bag", ns_rdf()) {
                Some(bag) => {
                    out.subjects = Some(bag.child_texts());
                },
                None => {},
            },
            None => {},
        }
        match description.get_child("hierarchicalSubject", ns_lr()) {
            Some(h) => match h.get_child("Bag", ns_rdf()) {
                Some(bag) => {
                    out.hierarchies = Some(bag.child_texts());
                },
                None => {},
            },
            None => {},
        }
        Ok(out)
    }
}


/// The texts of the `rdf:li` children of the `rdf:Bag` under the
/// multi-valued property of this name, when property and bag exist.
pub open spec fn spec_bag_li(d: XmlElem, name: Seq<char>, ns: Seq<char>) -> Option<Seq<Seq<char>>> {
    match spec_child(d.children@, name, ns) {
        Some(p) => match spec_child(p.children@, "Bag"@, spec_ns_rdf()) {
            Some(bag) => Some(
                spec_named_child_texts(bag.children@, "li"@, spec_ns_rdf()),
            ),
            None => None,
        },
        None => None,
    }
}

/// The set a multi-valued property holds before a merge: the li texts
/// where property and bag exist, nothing otherwise.
pub open spec fn spec_bag_li_set(d: XmlElem, name: Seq<char>, ns: Seq<char>) -> Set<Seq<char>> {
    match spec_bag_li(d, name, ns) {
        Some(texts) => spec_set_of(texts),
        None => Set::empty(),
    }
}

/// A rebuilt multi-valued property carrying exactly `target`: its bag
/// holds one li per value — the li texts are pairwise distinct and
/// their set is the target — and nothing else.
pub open spec fn spec_bag_updated(
    d: XmlElem,
    name: Seq<char>,
    ns: Seq<char>,
    target: Set<Seq<char>>,
) -> bool {
    &&& (spec_field_bag(d, name, ns) matches Some(ts) && spec_set_of(ts) == target
        && crate::merge::spec_distinct_texts(ts))
    &&& (spec_bag_li(d, name, ns) matches Some(ts) && spec_set_of(ts) == target
        && crate::merge::spec_distinct_texts(ts))
}

/// One `rdf:li` element holding this text.
fn make_li(text: String) -> (r: XmlElem)
    ensures
        r.name@ == "li"@,
        r.ns@ == spec_ns_rdf(),
        r.attrs@.len() == 0,
        r.prefixes@.len() == 0,
        r.spec_text() == text@,
{
    let mut e = XmlElem::bare("li".to_owned(), ns_rdf().to_owned());
    let ghost t = text@;
    let ghost node = XmlNode::Text(text);
    e.append_text(text);
    proof {
        assert(e.children@ =~= seq![node]);
        assert(e.children@[0] == node);
        assert(e.children@.drop_first() =~= Seq::<XmlNode>::empty());
        assert(crate::xmltree::spec_texts(e.children@.drop_first()) == Seq::<char>::empty());
        assert(e.spec_text() == t + Seq::<char>::empty());
        assert(t + Seq::<char>::empty() =~= t);
    }
    e
}

/// One `rdf:Bag` holding one li per value, in order.
fn make_bag(items: &Vec<String>) -> (r: XmlElem)
    ensures
        r.name@ == "Bag"@,
        r.ns@ == spec_ns_rdf(),
        r.attrs@.len() == 0,
        r.prefixes@.len() == 0,
        spec_child_texts(r.children@) == items@.map_values(|s: String| s@),
        spec_named_child_texts(r.children@, "li"@, spec_ns_rdf()) == items@.map_values(
            |s: String| s@,
        ),
{
    let mut bag = XmlElem::bare("Bag".to_owned(), ns_rdf().to_owned());
    let n = items.len();
    let mut i: usize = 0;
    proof {
        assert(spec_child_texts(bag.children@) =~= items@.take(0).map_values(|s: String| s@));
        assert(spec_named_child_texts(bag.children@, "li"@, spec_ns_rdf()) =~= items@.take(
            0,
        ).map_values(|s: String| s@));
    }
    while i < n
        invariant
            n == items@.len(),
            i <= n,
            bag.name@ == "Bag"@,
            bag.ns@ == spec_ns_rdf(),
            bag.attrs@.len() == 0,
            bag.prefixes@.len() == 0,
            spec_child_texts(bag.children@) == items@.take(i as int).map_values(|s: String| s@),
            spec_named_child_texts(bag.children@, "li"@, spec_ns_rdf()) == items@.take(
                i as int,
            ).map_values(|s: String| s@),
        decreases n - i,
    {
        let li = make_li(items[i].clone());
        proof {
            crate::xmltree::lemma_child_texts_push(bag.children@, li);
            crate::xmltree::lemma_named_child_texts_push(bag.children@, li, "li"@, spec_ns_rdf());
            assert(items@.take(i as int + 1).drop_last() =~= items@.take(i as int));
            assert(items@.take(i as int + 1).map_values(|s: String| s@) =~= items@.take(
                i as int,
            ).map_values(|s: String| s@).push((items@[i as int])@));
        }
        bag.append_child(li);
        i = i + 1;
    }
    proof {
        assert(items@.take(n as int) =~= items@);
    }
    bag
}

/// A full multi-valued property: the named wrapper holding one bag.
fn make_property_bag(name: &str, ns: &str, items: &Vec<String>) -> (r: XmlElem)
    ensures
        r.name@ == name@,
        r.ns@ == ns@,
        r.attrs@.len() == 0,
        r.prefixes@.len() == 0,
        spec_child(r.children@, "Bag"@, spec_ns_rdf()) matches Some(bag) && spec_child_texts(
            bag.children@,
        ) == items@.map_values(|s: String| s@) && spec_named_child_texts(
            bag.children@,
            "li"@,
            spec_ns_rdf(),
        ) == items@.map_values(|s: String| s@),
{
    let mut wrapper = XmlElem::bare(name.to_owned(), ns.to_owned());
    let bag = make_bag(items);
    let ghost bg = bag;
    wrapper.append_child(bag);
    proof {
        assert(wrapper.children@ =~= seq![XmlNode::Elem(bg)]);
        assert(spec_node_is(wrapper.children@[0], "Bag"@, spec_ns_rdf()));
        crate::xmltree::lemma_child_pos_witness(wrapper.children@, "Bag"@, spec_ns_rdf(), 0);
    }
    wrapper
}

/// Merges one multi-valued property of the description in place: when
/// the existing li set already equals the patch set the description
/// is left untouched; otherwise the bag is rebuilt from the merge
/// target, or the whole property is built where it was missing.
pub fn apply_bag(desc: &mut XmlElem, name: &str, ns: &str, patch: &Vec<String>, overwrite: bool)
    ensures
        final(desc).name == old(desc).name,
        final(desc).ns == old(desc).ns,
        final(desc).attrs == old(desc).attrs,
        final(desc).prefixes == old(desc).prefixes,
        forall|n2: Seq<char>, ns2: Seq<char>|
            !(n2 == name@ && ns2 == ns@) ==> #[trigger] spec_child(final(desc).children@, n2, ns2)
                == spec_child(old(desc).children@, n2, ns2),
        ({
            let oldset = spec_bag_li_set(*old(desc), name@, ns@);
            let target = if overwrite {
                spec_strset(patch@)
            } else {
                oldset + spec_strset(patch@)
            };
            if spec_bag_li(*old(desc), name@, ns@) matches Some(t) && spec_set_of(t)
                == spec_strset(patch@) {
                *final(desc) == *old(desc)
            } else {
                spec_bag_updated(*final(desc), name@, ns@, target)
            }
        }),
{
    proof {
        crate::merge::lemma_strset_is_set_of_views(patch@);
    }
    let found = desc.find_child(name, ns);
    match found {
        Some(si) => {
            proof {
                crate::xmltree::lemma_child_pos(desc.children@, name@, ns@);
            }
            // decide, without touching anything
            let plan: Option<(Option<usize>, Vec<String>)> = {
                let subj = desc.child_at(si);
                match subj.find_child("Bag", ns_rdf()) {
                    Some(bi) => {
                        proof {
                            crate::xmltree::lemma_child_pos(subj.children@, "Bag"@, spec_ns_rdf());
                        }
                        let bag = subj.child_at(bi);
                        let existing = bag.named_child_texts("li", ns_rdf());
                        proof {
                            crate::merge::lemma_strset_is_set_of_views(existing@);
                        }
                        if crate::merge::same_strset(&existing, patch) {
                            None
                        } else {
                            Some(
                                (
                                    Some(bi),
                                    crate::merge::merge_values(&existing, patch, overwrite),
                                ),
                            )
                        }
                    },
                    None => {
                        let empty: Vec<String> = Vec::new();
                        proof {
                            assert(spec_strset(empty@) =~= Set::<Seq<char>>::empty());
                            assert(Set::<Seq<char>>::empty() + spec_strset(patch@)
                                =~= spec_strset(patch@));
                        }
                        Some((None, crate::merge::merge_values(&empty, patch, overwrite)))
                    },
                }
            };
            match plan {
                None => {
                },
                Some((Some(bi), target)) => {
                    proof {
                        crate::merge::lemma_strset_is_set_of_views(target@);
                    }
                    let mut subj = desc.take_child_at(si);
                    proof {
                        crate::xmltree::lemma_child_pos(subj.children@, "Bag"@, spec_ns_rdf());
                    }
                    let ghost old_subj_children = subj.children@;
                    let discarded = subj.take_child_at(bi);
                    let newbag = make_bag(&target);
                    let ghost nb = newbag;
                    subj.insert_child_at(bi, newbag);
                    proof {
                        assert(subj.children@ =~= old_subj_children.update(
                            bi as int,
                            XmlNode::Elem(nb),
                        ));
                        assert(spec_node_is(subj.children@[bi as int], "Bag"@, spec_ns_rdf()));
                        assert forall|j: int| 0 <= j < bi implies !spec_node_is(
                            #[trigger] subj.children@[j],
                            "Bag"@,
                            spec_ns_rdf(),
                        ) by {
                            assert(subj.children@[j] == old_subj_children[j]);
                        }
                        crate::xmltree::lemma_child_pos_witness(
                            subj.children@,
                            "Bag"@,
                            spec_ns_rdf(),
                            bi as int,
                        );
                    }
                    let ghost sj = subj;
                    let ghost old_children = desc.children@;
                    desc.insert_child_at(si, subj);
                    proof {
                        assert(desc.children@ =~= old(desc).children@.update(
                            si as int,
                            XmlNode::Elem(sj),
                        ));
                        assert(spec_node_is(desc.children@[si as int], name@, ns@));
                        assert forall|j: int| 0 <= j < si implies !spec_node_is(
                            #[trigger] desc.children@[j],
                            name@,
                            ns@,
                        ) by {
                            assert(desc.children@[j] == old(desc).children@[j]);
                        }
                        crate::xmltree::lemma_child_pos_witness(
                            desc.children@,
                            name@,
                            ns@,
                            si as int,
                        );
                        assert forall|n2: Seq<char>, ns2: Seq<char>|
                            !(n2 == name@ && ns2 == ns@) implies #[trigger] spec_child(
                            desc.children@,
                            n2,
                            ns2,
                        ) == spec_child(old(desc).children@, n2, ns2) by {
                            crate::xmltree::lemma_child_congruence(
                                old(desc).children@,
                                desc.children@,
                                n2,
                                ns2,
                            );
                        }
                    }
                },
                Some((None, target)) => {
                    proof {
                        crate::merge::lemma_strset_is_set_of_views(target@);
                    }
                    let fresh = make_property_bag(name, ns, &target);
                    let ghost fr = fresh;
                    let discarded = desc.take_child_at(si);
                    desc.insert_child_at(si, fresh);
                    proof {
                        assert(desc.children@ =~= old(desc).children@.update(
                            si as int,
                            XmlNode::Elem(fr),
                        ));
                        assert(spec_node_is(desc.children@[si as int], name@, ns@));
                        assert forall|j: int| 0 <= j < si implies !spec_node_is(
                            #[trigger] desc.children@[j],
                            name@,
                            ns@,
                        ) by {
                            assert(desc.children@[j] == old(desc).children@[j]);
                        }
                        crate::xmltree::lemma_child_pos_witness(
                            desc.children@,
                            name@,
                            ns@,
                            si as int,
                        );
                        assert forall|n2: Seq<char>, ns2: Seq<char>|
                            !(n2 == name@ && ns2 == ns@) implies #[trigger] spec_child(
                            desc.children@,
                            n2,
                            ns2,
                        ) == spec_child(old(desc).children@, n2, ns2) by {
                            crate::xmltree::lemma_child_congruence(
                                old(desc).children@,
                                desc.children@,
                                n2,
                                ns2,
                            );
                        }
                    }
                },
            }
        },
        None => {
            let empty: Vec<String> = Vec::new();
            proof {
                assert(spec_strset(empty@) =~= Set::<Seq<char>>::empty());
                assert(Set::<Seq<char>>::empty() + spec_strset(patch@) =~= spec_strset(patch@));
            }
            let target = crate::merge::merge_values(&empty, patch, overwrite);
            proof {
                crate::merge::lemma_strset_is_set_of_views(target@);
            }
            let fresh = make_property_bag(name, ns, &target);
            let ghost fr = fresh;
            proof {
                crate::xmltree::lemma_child_pos(desc.children@, name@, ns@);
            }
            desc.append_child(fresh);
            proof {
                crate::xmltree::lemma_child_push(old(desc).children@, fr, name@, ns@);
                assert forall|n2: Seq<char>, ns2: Seq<char>|
                    !(n2 == name@ && ns2 == ns@) implies #[trigger] spec_child(
                    desc.children@,
                    n2,
                    ns2,
                ) == spec_child(old(desc).children@, n2, ns2) by {
                    crate::xmltree::lemma_child_push(old(desc).children@, fr, n2, ns2);
                }
            }
        },
    }
}


/// The qualified attribute name of the rating property.
pub open spec fn spec_qn_rating() -> Seq<char> {
    "xmp"@ + ":"@ + "Rating"@
}

/// The qualified attribute name of the label property.
pub open spec fn spec_qn_label() -> Seq<char> {
    "xmp"@ + ":"@ + "Label"@
}

/// The qualified attribute name of the orientation property.
pub open spec fn spec_qn_orientation() -> Seq<char> {
    "tiff"@ + ":"@ + "Orientation"@
}

/// The qualified attribute name of the capture-time property.
pub open spec fn spec_qn_datetime() -> Seq<char> {
    "exif"@ + ":"@ + "DateTimeOriginal"@
}

/// The four qualified names have four different lengths, so no two
/// are the same.
pub proof fn lemma_qn_distinct()
    ensures
        spec_qn_rating() != spec_qn_label(),
        spec_qn_rating() != spec_qn_orientation(),
        spec_qn_rating() != spec_qn_datetime(),
        spec_qn_label() != spec_qn_orientation(),
        spec_qn_label() != spec_qn_datetime(),
        spec_qn_orientation() != spec_qn_datetime(),
{
    reveal_strlit("xmp");
    reveal_strlit("tiff");
    reveal_strlit("exif");
    reveal_strlit(":");
    reveal_strlit("Rating");
    reveal_strlit("Label");
    reveal_strlit("Orientation");
    reveal_strlit("DateTimeOriginal");
    assert(spec_qn_rating().len() == 10);
    assert(spec_qn_label().len() == 9);
    assert(spec_qn_orientation().len() == 16);
    assert(spec_qn_datetime().len() == 21);
}

/// The three child-element names the writer touches are pairwise
/// different, as are their namespaces.
pub proof fn lemma_prop_names_distinct()
    ensures
        "DateTimeOriginal"@ != "subject"@,
        "DateTimeOriginal"@ != "hierarchicalSubject"@,
        "subject"@ != "hierarchicalSubject"@,
        "Description"@ != "DateTimeOriginal"@,
        "RDF"@ != "DateTimeOriginal"@,
{
    reveal_strlit("DateTimeOriginal");
    reveal_strlit("subject");
    reveal_strlit("hierarchicalSubject");
    reveal_strlit("Description");
    reveal_strlit("RDF");
    assert("DateTimeOriginal"@.len() == 16);
    assert("subject"@.len() == 7);
    assert("hierarchicalSubject"@.len() == 19);
    assert("Description"@.len() == 11);
    assert("RDF"@.len() == 3);
}

/// The three prefixes the writer declares are pairwise different.
pub proof fn lemma_prefix_names_distinct()
    ensures
        "xmp"@ != "exif"@,
        "xmp"@ != "tiff"@,
        "exif"@ != "tiff"@,
        "rdf"@ != "xmp"@,
        "rdf"@ != "exif"@,
        "rdf"@ != "tiff"@,
{
    reveal_strlit("xmp");
    reveal_strlit("exif");
    reveal_strlit("tiff");
    reveal_strlit("rdf");
    assert("xmp"@.len() == 3);
    assert("exif"@.len() == 4);
    assert("tiff"@.len() == 4);
    assert("rdf"@.len() == 3);
    assert("exif"@[0] == 'e');
    assert("tiff"@[0] == 't');
    assert("rdf"@[0] == 'r');
    assert("xmp"@[0] == 'x');
    assert('e' as int == 101 && 't' as int == 116 && 'r' as int == 114 && 'x' as int == 120);
}

/// The offset an update writes with: the requested offset when it is
/// shorter than a day, otherwise zero.
pub open spec fn spec_effective_offset(off: Option<i64>) -> int {
    match off {
        Some(o) => if -86400 < o < 86400 {
            o as int
        } else {
            0
        },
        None => 0,
    }
}


/// The document outside the description is left in place: the root
/// keeps its name, namespace, attributes, declarations and every
/// child at its position except the `rdf:RDF` element holding the
/// description, and that element likewise keeps everything except
/// the description itself.
pub open spec fn spec_shell_preserved(a: XmlElem, b: XmlElem) -> bool {
    &&& b.name == a.name
    &&& b.ns == a.ns
    &&& b.attrs == a.attrs
    &&& b.prefixes == a.prefixes
    &&& match spec_child_pos(a.children@, "RDF"@, spec_ns_rdf()) {
        Some(rp) => {
            &&& b.children@ == a.children@.update(rp, b.children@[rp])
            &&& b.children@[rp] matches XmlNode::Elem(rb) && (
            a.children@[rp] matches XmlNode::Elem(ra) && {
                &&& rb.name == ra.name
                &&& rb.ns == ra.ns
                &&& rb.attrs == ra.attrs
                &&& rb.prefixes == ra.prefixes
                &&& match spec_child_pos(ra.children@, "Description"@, spec_ns_rdf()) {
                    Some(dp) => rb.children@ == ra.children@.update(dp, rb.children@[dp]),
                    None => true,
                }
            })
        },
        None => true,
    }
}

/// What one tree-level update guarantees between the description it
/// found and the description it leaves behind, clause for clause.
pub open spec fn spec_applied(
    p: crate::UpdateResults,
    overwrite: bool,
    d: XmlElem,
    d2: XmlElem,
) -> bool {
        &&& d2.name == d.name
        &&& d2.ns == d.ns
        &&& match p.stars {
            Some(st) => spec_attr(d2.attrs@, spec_qn_rating()) == Some(
                crate::strutil::spec_fmt_uint(st as int),
            ),
            None => spec_attr(d2.attrs@, spec_qn_rating()) == spec_attr(
                d.attrs@,
                spec_qn_rating(),
            ),
        }
        &&& match p.colors {
            Some(c) => spec_attr(d2.attrs@, spec_qn_label()) == Some(c@),
            None => spec_attr(d2.attrs@, spec_qn_label()) == spec_attr(
                d.attrs@,
                spec_qn_label(),
            ),
        }
        &&& match p.orientation {
            Some(o) => spec_attr(d2.attrs@, spec_qn_orientation()) == Some(
                crate::strutil::spec_fmt_uint(o as int),
            ),
            None => spec_attr(d2.attrs@, spec_qn_orientation()) == spec_attr(
                d.attrs@,
                spec_qn_orientation(),
            ),
        }
        &&& match p.datetime {
            Some(t) => {
                let off = spec_effective_offset(p.offset);
                let loc = t + off;
                &&& spec_child(
                    d2.children@,
                    "DateTimeOriginal"@,
                    spec_ns_exif(),
                ) == (match spec_child_pos(
                    d.children@,
                    "DateTimeOriginal"@,
                    spec_ns_exif(),
                ) {
                    Some(i) => spec_child(
                        d.children@.remove(i),
                        "DateTimeOriginal"@,
                        spec_ns_exif(),
                    ),
                    None => spec_child(
                        d.children@,
                        "DateTimeOriginal"@,
                        spec_ns_exif(),
                    ),
                })
                &&& exists|y: int, m: int, dd: int|
                    {
                        &&& crate::time::spec_valid_ymd(y, m, dd)
                        &&& #[trigger] crate::time::spec_days_from_civil(
                            y,
                            m,
                            dd,
                        ) == loc / 86400
                        &&& spec_attr(d2.attrs@, spec_qn_datetime()) == Some(
                            crate::time::spec_render_rfc3339(
                                y,
                                m,
                                dd,
                                (loc % 86400) / 3600,
                                ((loc % 86400) % 3600) / 60,
                                (loc % 86400) % 60,
                                off,
                            ),
                        )
                    }
            },
            None => {
                &&& spec_attr(d2.attrs@, spec_qn_datetime()) == spec_attr(
                    d.attrs@,
                    spec_qn_datetime(),
                )
                &&& spec_child(d2.children@, "DateTimeOriginal"@, spec_ns_exif())
                    == spec_child(
                    d.children@,
                    "DateTimeOriginal"@,
                    spec_ns_exif(),
                )
            },
        }
        &&& forall|m: Seq<char>|
            !(m == spec_qn_rating() || m == spec_qn_label() || m
                == spec_qn_orientation() || m == spec_qn_datetime())
                ==> #[trigger] spec_attr(d2.attrs@, m) == spec_attr(d.attrs@, m)
        &&& crate::xmltree::spec_prefix(d2.prefixes@, Some("xmp"@)) == Some(
            spec_ns_xmp(),
        )
        &&& crate::xmltree::spec_prefix(d2.prefixes@, Some("exif"@)) == Some(
            spec_ns_exif(),
        )
        &&& crate::xmltree::spec_prefix(d2.prefixes@, Some("tiff"@)) == Some(
            spec_ns_tiff(),
        )
        &&& crate::xmltree::spec_prefix(d2.prefixes@, Some("rdf"@)) == Some(spec_ns_rdf())
        &&& match p.subjects {
            Some(_) => {
                let oldset = spec_bag_li_set(d, "subject"@, spec_ns_dc());
                let pset = spec_strset(p.subjects->0@);
                let target = if overwrite {
                    pset
                } else {
                    oldset + pset
                };
                if spec_bag_li(d, "subject"@, spec_ns_dc()) matches Some(tx)
                    && spec_set_of(tx) == pset {
                    spec_child(d2.children@, "subject"@, spec_ns_dc())
                        == spec_child(d.children@, "subject"@, spec_ns_dc())
                } else {
                    spec_bag_updated(d2, "subject"@, spec_ns_dc(), target)
                }
            },
            None => spec_child(d2.children@, "subject"@, spec_ns_dc())
                == spec_child(d.children@, "subject"@, spec_ns_dc()),
        }
        &&& match p.hierarchies {
            Some(_) => {
                let oldset = spec_bag_li_set(
                    d,
                    "hierarchicalSubject"@,
                    spec_ns_lr(),
                );
                let pset = spec_strset(p.hierarchies->0@);
                let target = if overwrite {
                    pset
                } else {
                    oldset + pset
                };
                if spec_bag_li(d, "hierarchicalSubject"@, spec_ns_lr()) matches
                    Some(tx) && spec_set_of(tx) == pset {
                    spec_child(d2.children@, "hierarchicalSubject"@, spec_ns_lr())
                        == spec_child(
                        d.children@,
                        "hierarchicalSubject"@,
                        spec_ns_lr(),
                    )
                } else {
                    spec_bag_updated(
                        d2,
                        "hierarchicalSubject"@,
                        spec_ns_lr(),
                        target,
                    )
                }
            },
            None => spec_child(d2.children@, "hierarchicalSubject"@, spec_ns_lr())
                == spec_child(d.children@, "hierarchicalSubject"@, spec_ns_lr()),
        }
    &&& forall|n2: Seq<char>, ns2: Seq<char>|
        !((n2 == "subject"@ && ns2 == spec_ns_dc()) || (n2 == "hierarchicalSubject"@ && ns2
            == spec_ns_lr()) || (n2 == "DateTimeOriginal"@ && ns2 == spec_ns_exif()))
            ==> #[trigger] spec_child(d2.children@, n2, ns2) == spec_child(d.children@, n2, ns2)
}

impl crate::UpdateResults {
    /// Applies this patch to a parsed document: scalars become
    /// attributes of the description, the capture time is written as
    /// RFC-3339 text at its effective offset with any duplicate
    /// child-element form removed first, and multi-valued properties
    /// go through the merge engine. Fields the patch leaves out stay
    /// exactly as they were; an out-of-range orientation is rejected
    /// before anything is written.
    #[verifier::rlimit(100)]
    pub fn apply_to_tree(
        &self,
        root: XmlElem,
        options: &crate::UpdateOptions,
    ) -> (r: Result<XmlElem, XmpError>)
        requires
            self.datetime matches Some(t) ==> -8_000_000_000_000_000 <= t
                <= 8_000_000_000_000_000,
        ensures
            match spec_description(root) {
                None => r matches Err(e) && e.spec_kind() == XmpErrorKind::ChildNotFound,
                Some(d) => if self.orientation matches Some(o) && !(1 <= o <= 8) {
                    r matches Err(e) && e.spec_kind() == XmpErrorKind::ValueOutOfRange
                } else {
                    r matches Ok(root2) && spec_description(root2) matches Some(d2)
                        && spec_shell_preserved(root, root2) && {
                        &&& d2.name == d.name
                        &&& d2.ns == d.ns
                        &&& match self.stars {
                            Some(st) => spec_attr(d2.attrs@, spec_qn_rating()) == Some(
                                crate::strutil::spec_fmt_uint(st as int),
                            ),
                            None => spec_attr(d2.attrs@, spec_qn_rating()) == spec_attr(
                                d.attrs@,
                                spec_qn_rating(),
                            ),
                        }
                        &&& match self.colors {
                            Some(c) => spec_attr(d2.attrs@, spec_qn_label()) == Some(c@),
                            None => spec_attr(d2.attrs@, spec_qn_label()) == spec_attr(
                                d.attrs@,
                                spec_qn_label(),
                            ),
                        }
                        &&& match self.orientation {
                            Some(o) => spec_attr(d2.attrs@, spec_qn_orientation()) == Some(
                                crate::strutil::spec_fmt_uint(o as int),
                            ),
                            None => spec_attr(d2.attrs@, spec_qn_orientation()) == spec_attr(
                                d.attrs@,
                                spec_qn_orientation(),
                            ),
                        }
                        &&& match self.datetime {
                            Some(t) => {
                                let off = spec_effective_offset(self.offset);
                                let loc = t + off;
                                &&& spec_child(
                                    d2.children@,
                                    "DateTimeOriginal"@,
                                    spec_ns_exif(),
                                ) == (match spec_child_pos(
                                    d.children@,
                                    "DateTimeOriginal"@,
                                    spec_ns_exif(),
                                ) {
                                    Some(i) => spec_child(
                                        d.children@.remove(i),
                                        "DateTimeOriginal"@,
                                        spec_ns_exif(),
                                    ),
                                    None => spec_child(
                                        d.children@,
                                        "DateTimeOriginal"@,
                                        spec_ns_exif(),
                                    ),
                                })
                                &&& exists|y: int, m: int, dd: int|
                                    {
                                        &&& crate::time::spec_valid_ymd(y, m, dd)
                                        &&& #[trigger] crate::time::spec_days_from_civil(
                                            y,
                                            m,
                                            dd,
                                        ) == loc / 86400
                                        &&& spec_attr(d2.attrs@, spec_qn_datetime()) == Some(
                                            crate::time::spec_render_rfc3339(
                                                y,
                                                m,
                                                dd,
                                                (loc % 86400) / 3600,
                                                ((loc % 86400) % 3600) / 60,
                                                (loc % 86400) % 60,
                                                off,
                                            ),
                                        )
                                    }
                            },
                            None => {
                                &&& spec_attr(d2.attrs@, spec_qn_datetime()) == spec_attr(
                                    d.attrs@,
                                    spec_qn_datetime(),
                                )
                                &&& spec_child(d2.children@, "DateTimeOriginal"@, spec_ns_exif())
                                    == spec_child(
                                    d.children@,
                                    "DateTimeOriginal"@,
                                    spec_ns_exif(),
                                )
                            },
                        }
                        &&& forall|m: Seq<char>|
                            !(m == spec_qn_rating() || m == spec_qn_label() || m
                                == spec_qn_orientation() || m == spec_qn_datetime())
                                ==> #[trigger] spec_attr(d2.attrs@, m) == spec_attr(d.attrs@, m)
                        &&& crate::xmltree::spec_prefix(d2.prefixes@, Some("xmp"@)) == Some(
                            spec_ns_xmp(),
                        )
                        &&& crate::xmltree::spec_prefix(d2.prefixes@, Some("exif"@)) == Some(
                            spec_ns_exif(),
                        )
                        &&& crate::xmltree::spec_prefix(d2.prefixes@, Some("tiff"@)) == Some(
                            spec_ns_tiff(),
                        )
                        &&& crate::xmltree::spec_prefix(d2.prefixes@, Some("rdf"@)) == Some(
                            spec_ns_rdf(),
                        )
                        &&& match self.subjects {
                            Some(_) => {
                                let oldset = spec_bag_li_set(d, "subject"@, spec_ns_dc());
                                let pset = spec_strset(self.subjects->0@);
                                let target = if options.overwrite {
                                    pset
                                } else {
                                    oldset + pset
                                };
                                if spec_bag_li(d, "subject"@, spec_ns_dc()) matches Some(tx)
                                    && spec_set_of(tx) == pset {
                                    spec_child(d2.children@, "subject"@, spec_ns_dc())
                                        == spec_child(d.children@, "subject"@, spec_ns_dc())
                                } else {
                                    spec_bag_updated(d2, "subject"@, spec_ns_dc(), target)
                                }
                            },
                            None => spec_child(d2.children@, "subject"@, spec_ns_dc())
                                == spec_child(d.children@, "subject"@, spec_ns_dc()),
                        }
                        &&& match self.hierarchies {
                            Some(_) => {
                                let oldset = spec_bag_li_set(
                                    d,
                                    "hierarchicalSubject"@,
                                    spec_ns_lr(),
                                );
                                let pset = spec_strset(self.hierarchies->0@);
                                let target = if options.overwrite {
                                    pset
                                } else {
                                    oldset + pset
                                };
                                if spec_bag_li(d, "hierarchicalSubject"@, spec_ns_lr()) matches
                                    Some(tx) && spec_set_of(tx) == pset {
                                    spec_child(d2.children@, "hierarchicalSubject"@, spec_ns_lr())
                                        == spec_child(
                                        d.children@,
                                        "hierarchicalSubject"@,
                                        spec_ns_lr(),
                                    )
                                } else {
                                    spec_bag_updated(
                                        d2,
                                        "hierarchicalSubject"@,
                                        spec_ns_lr(),
                                        target,
                                    )
                                }
                            },
                            None => spec_child(d2.children@, "hierarchicalSubject"@, spec_ns_lr())
                                == spec_child(d.children@, "hierarchicalSubject"@, spec_ns_lr()),
                        }
                        &&& forall|n2: Seq<char>, ns2: Seq<char>|
                            !((n2 == "subject"@ && ns2 == spec_ns_dc()) || (n2
                                == "hierarchicalSubject"@ && ns2 == spec_ns_lr()) || (n2
                                == "DateTimeOriginal"@ && ns2 == spec_ns_exif()))
                                ==> #[trigger] spec_child(d2.children@, n2, ns2) == spec_child(
                                d.children@,
                                n2,
                                ns2,
                            )
                    }
                },
            },
    {
        let mut root = root;
        let ghost root0 = root;
        let rp = match root.find_child("RDF", ns_rdf()) {
            Some(rp) => rp,
            None => {
                return Err(
                    XmpError::at_site(XmpErrorKind::ChildNotFound, "rdf::apply_to_tree"),
                );
            },
        };
        proof {
            crate::xmltree::lemma_child_pos(root.children@, "RDF"@, spec_ns_rdf());
        }
        let mut rdf = root.take_child_at(rp);
        let ghost rdf0 = rdf;
        proof {
            crate::xmltree::lemma_child_pos(root0.children@, "RDF"@, spec_ns_rdf());
            assert(spec_child(root0.children@, "RDF"@, spec_ns_rdf()) == Some(rdf0));
        }
        let dp = match rdf.find_child("Description", ns_rdf()) {
            Some(dp) => dp,
            None => {
                return Err(
                    XmpError::at_site(XmpErrorKind::ChildNotFound, "rdf::apply_to_tree"),
                );
            },
        };
        proof {
            crate::xmltree::lemma_child_pos(rdf.children@, "Description"@, spec_ns_rdf());
        }
        match self.orientation {
            Some(o) => {
                if o < 1 || o > 8 {
                    return Err(
                        XmpError::at_site(XmpErrorKind::ValueOutOfRange, "rdf::apply_to_tree"),
                    );
                }
            },
            None => {},
        }
        let mut desc = rdf.take_child_at(dp);
        let ghost d = desc;
        proof {
            assert(spec_child(rdf0.children@, "Description"@, spec_ns_rdf()) == Some(d));
            assert(spec_description(root0) == Some(d));
        }

        desc.set_prefix("xmp", ns_xmp());
        desc.set_prefix("exif", ns_exif());
        desc.set_prefix("tiff", ns_tiff());
        desc.set_prefix("rdf", ns_rdf());

        proof {
            lemma_qn_distinct();
            lemma_prop_names_distinct();
            lemma_prefix_names_distinct();
        }
        match self.stars {
            Some(st) => {
                let qn = item_rating().attr_name();
                desc.set_attr(qn.as_str(), crate::strutil::fmt_u64_string(st as u64));
            },
            None => {},
        }
        match &self.colors {
            Some(c) => {
                let qn = item_label().attr_name();
                desc.set_attr(qn.as_str(), c.clone());
            },
            None => {},
        }
        match self.orientation {
            Some(o) => {
                let qn = item_orientation().attr_name();
                desc.set_attr(qn.as_str(), crate::strutil::fmt_u64_string(o as u64));
            },
            None => {},
        }
        let ghost d_mid = desc;
        let ghost mut rview: Seq<char> = Seq::empty();
        match self.datetime {
            Some(t) => {
                let off: i64 = match self.offset {
                    Some(o) => {
                        if -86400 < o && o < 86400 {
                            o
                        } else {
                            0
                        }
                    },
                    None => 0,
                };
                let removed = desc.remove_child("DateTimeOriginal", ns_exif());
                let rendered = crate::time::format_timestamp(t, off);
                proof {
                    rview = rendered@;
                    assert(off as int == spec_effective_offset(self.offset));
                    assert(exists|y: int, m: int, dd: int|
                        {
                            &&& crate::time::spec_valid_ymd(y, m, dd)
                            &&& #[trigger] crate::time::spec_days_from_civil(y, m, dd) == (
                            t + spec_effective_offset(self.offset)) / 86400
                            &&& rview == crate::time::spec_render_rfc3339(
                                y,
                                m,
                                dd,
                                ((t + spec_effective_offset(self.offset)) % 86400) / 3600,
                                (((t + spec_effective_offset(self.offset)) % 86400) % 3600) / 60,
                                ((t + spec_effective_offset(self.offset)) % 86400) % 60,
                                spec_effective_offset(self.offset),
                            )
                        });
                }
                let qn = item_date_time_original().attr_name();
                desc.set_attr(qn.as_str(), rendered);
            },
            None => {},
        }
        let ghost d_dt = desc;
        proof {
            if self.datetime is Some {
                assert(d_mid.children == d.children);
                assert(spec_attr(d_dt.attrs@, spec_qn_datetime()) == Some(rview));
                crate::xmltree::lemma_child_pos(d.children@, "DateTimeOriginal"@, spec_ns_exif());
                match spec_child_pos(d.children@, "DateTimeOriginal"@, spec_ns_exif()) {
                    Some(i) => {
                        assert(!spec_node_is(d.children@[i], "subject"@, spec_ns_dc()));
                        assert(!spec_node_is(
                            d.children@[i],
                            "hierarchicalSubject"@,
                            spec_ns_lr(),
                        ));
                        crate::xmltree::lemma_child_remove_other(
                            d.children@,
                            i,
                            "subject"@,
                            spec_ns_dc(),
                        );
                        crate::xmltree::lemma_child_remove_other(
                            d.children@,
                            i,
                            "hierarchicalSubject"@,
                            spec_ns_lr(),
                        );
                    },
                    None => {},
                }
                assert(spec_child(d_dt.children@, "DateTimeOriginal"@, spec_ns_exif()) == (
                match spec_child_pos(d.children@, "DateTimeOriginal"@, spec_ns_exif()) {
                    Some(i) => spec_child(
                        d.children@.remove(i),
                        "DateTimeOriginal"@,
                        spec_ns_exif(),
                    ),
                    None => spec_child(d.children@, "DateTimeOriginal"@, spec_ns_exif()),
                }));
            }
            assert(spec_child(d_dt.children@, "subject"@, spec_ns_dc()) == spec_child(
                d.children@,
                "subject"@,
                spec_ns_dc(),
            ));
            assert(spec_child(d_dt.children@, "hierarchicalSubject"@, spec_ns_lr()) == spec_child(
                d.children@,
                "hierarchicalSubject"@,
                spec_ns_lr(),
            ));
            assert forall|n2: Seq<char>, ns2: Seq<char>|
                !(n2 == "DateTimeOriginal"@ && ns2 == spec_ns_exif()) implies #[trigger] spec_child(
                d_dt.children@,
                n2,
                ns2,
            ) == spec_child(d.children@, n2, ns2) by {
                if self.datetime is Some {
                    match spec_child_pos(d.children@, "DateTimeOriginal"@, spec_ns_exif()) {
                        Some(i) => {
                            crate::xmltree::lemma_child_pos(
                                d.children@,
                                "DateTimeOriginal"@,
                                spec_ns_exif(),
                            );
                            assert(!spec_node_is(d.children@[i], n2, ns2));
                            crate::xmltree::lemma_child_remove_other(d.children@, i, n2, ns2);
                        },
                        None => {},
                    }
                }
            }
        }
        match &self.subjects {
            Some(sv) => {
                apply_bag(&mut desc, "subject", ns_dc(), sv, options.overwrite);
            },
            None => {},
        }
        let ghost d_sub = desc;
        match &self.hierarchies {
            Some(hv) => {
                apply_bag(&mut desc, "hierarchicalSubject", ns_lr(), hv, options.overwrite);
            },
            None => {},
        }
        let ghost d2 = desc;
        proof {
            // the capture-time child through the two bag merges
            assert(spec_child(d_sub.children@, "DateTimeOriginal"@, spec_ns_exif())
                == spec_child(d_dt.children@, "DateTimeOriginal"@, spec_ns_exif()));
            assert(spec_child(d2.children@, "DateTimeOriginal"@, spec_ns_exif()) == spec_child(
                d_sub.children@,
                "DateTimeOriginal"@,
                spec_ns_exif(),
            ));
            // the subject node through the hierarchy merge
            assert(spec_child(d2.children@, "subject"@, spec_ns_dc()) == spec_child(
                d_sub.children@,
                "subject"@,
                spec_ns_dc(),
            ));
            // untouched keys through both merges
            assert(spec_child(d_sub.children@, "hierarchicalSubject"@, spec_ns_lr())
                == spec_child(d_dt.children@, "hierarchicalSubject"@, spec_ns_lr()));
            if self.datetime is None {
                assert(spec_child(d_dt.children@, "DateTimeOriginal"@, spec_ns_exif())
                    == spec_child(d.children@, "DateTimeOriginal"@, spec_ns_exif()));
            }
        }

        let ghost rdf_children_mid = rdf.children@;
        rdf.insert_child_at(dp, desc);
        proof {
            assert(rdf.children@ =~= old_rdf_children_update(rdf_children_mid, dp as int, d2));
            assert(spec_node_is(rdf.children@[dp as int], "Description"@, spec_ns_rdf()));
            assert forall|j: int| 0 <= j < dp implies !spec_node_is(
                #[trigger] rdf.children@[j],
                "Description"@,
                spec_ns_rdf(),
            ) by {
                assert(rdf.children@[j] == rdf_children_mid.insert(
                    dp as int,
                    XmlNode::Elem(d2),
                )[j]);
            }
            crate::xmltree::lemma_child_pos_witness(
                rdf.children@,
                "Description"@,
                spec_ns_rdf(),
                dp as int,
            );
        }
        let ghost rdf2 = rdf;
        let ghost root_children_mid = root.children@;
        root.insert_child_at(rp, rdf);
        proof {
            assert(spec_node_is(root.children@[rp as int], "RDF"@, spec_ns_rdf()));
            assert forall|j: int| 0 <= j < rp implies !spec_node_is(
                #[trigger] root.children@[j],
                "RDF"@,
                spec_ns_rdf(),
            ) by {
                assert(root.children@[j] == root_children_mid.insert(
                    rp as int,
                    XmlNode::Elem(rdf2),
                )[j]);
            }
            crate::xmltree::lemma_child_pos_witness(root.children@, "RDF"@, spec_ns_rdf(), rp as int);
            assert(spec_child(root.children@, "RDF"@, spec_ns_rdf()) == Some(rdf2));
            assert(spec_child(rdf2.children@, "Description"@, spec_ns_rdf()) == Some(d2));
            assert(spec_description(root) == Some(d2));
            assert(root.children@ =~= root0.children@.update(rp as int, XmlNode::Elem(rdf2)));
            assert(rdf2.children@ =~= rdf0.children@.update(dp as int, XmlNode::Elem(d2)));
            assert(root.children@[rp as int] == XmlNode::Elem(rdf2));
            assert(spec_shell_preserved(root0, root));
            assert(d2.attrs == d_dt.attrs);
            if self.datetime is Some {
                assert(spec_attr(d2.attrs@, spec_qn_datetime()) == Some(rview));
            }
        }
        Ok(root)
    }
}

/// The child list after putting the description back.
pub open spec fn old_rdf_children_update(mid: Seq<XmlNode>, dp: int, d2: XmlElem) -> Seq<XmlNode> {
    mid.insert(dp, XmlNode::Elem(d2))
}


/// A description none of the recognized properties is set on yet: the
/// shape of the bundled default template's description node.
pub open spec fn spec_fresh_description(d: XmlElem) -> bool {
    &&& spec_attr(d.attrs@, spec_qn_rating()) is None
    &&& spec_attr(d.attrs@, spec_qn_label()) is None
    &&& spec_attr(d.attrs@, spec_qn_orientation()) is None
    &&& spec_attr(d.attrs@, spec_qn_datetime()) is None
    &&& spec_attr(d.attrs@, "xmp"@ + ":"@ + "CreateDate"@) is None
    &&& spec_child(d.children@, "DateTimeOriginal"@, spec_ns_exif()) is None
    &&& spec_child(d.children@, "CreateDate"@, spec_ns_xmp()) is None
    &&& spec_child(d.children@, "Rating"@, spec_ns_xmp()) is None
    &&& spec_child(d.children@, "Label"@, spec_ns_xmp()) is None
    &&& spec_child(d.children@, "Orientation"@, spec_ns_tiff()) is None
    &&& spec_child(d.children@, "subject"@, spec_ns_dc()) is None
    &&& spec_child(d.children@, "hierarchicalSubject"@, spec_ns_lr()) is None
}

/// The local names and namespaces that the round trip tells apart.
proof fn lemma_fresh_names_distinct()
    ensures
        "Orientation"@ != "subject"@,
        "Orientation"@ != "hierarchicalSubject"@,
        "Orientation"@ != "DateTimeOriginal"@,
        "CreateDate"@ != "subject"@,
        "CreateDate"@ != "hierarchicalSubject"@,
        "CreateDate"@ != "DateTimeOriginal"@,
        "Rating"@ != "subject"@,
        "Rating"@ != "hierarchicalSubject"@,
        "Rating"@ != "DateTimeOriginal"@,
        "Label"@ != "subject"@,
        "Label"@ != "hierarchicalSubject"@,
        "Label"@ != "DateTimeOriginal"@,
        ("xmp"@ + ":"@ + "CreateDate"@) != spec_qn_rating(),
        ("xmp"@ + ":"@ + "CreateDate"@) != spec_qn_label(),
        ("xmp"@ + ":"@ + "CreateDate"@) != spec_qn_orientation(),
        ("xmp"@ + ":"@ + "CreateDate"@) != spec_qn_datetime(),
{
    reveal_strlit("Orientation");
    reveal_strlit("CreateDate");
    reveal_strlit("Rating");
    reveal_strlit("Label");
    reveal_strlit("subject");
    reveal_strlit("hierarchicalSubject");
    reveal_strlit("DateTimeOriginal");
    reveal_strlit("xmp");
    reveal_strlit(":");
    assert("Orientation"@.len() == 11);
    assert("CreateDate"@.len() == 10);
    assert("Rating"@.len() == 6);
    assert("Label"@.len() == 5);
    assert("subject"@.len() == 7);
    assert("hierarchicalSubject"@.len() == 19);
    assert("DateTimeOriginal"@.len() == 16);
    lemma_qn_distinct();
    assert(("xmp"@ + ":"@ + "CreateDate"@).len() == 14);
    assert(spec_qn_rating().len() == 10) by {
        reveal_strlit("Rating");
    }
    assert(spec_qn_label().len() == 9) by {
        reveal_strlit("Label");
    }
    assert(spec_qn_orientation().len() == 16) by {
        reveal_strlit("tiff");
        reveal_strlit("Orientation");
    }
    assert(spec_qn_datetime().len() == 21) by {
        reveal_strlit("exif");
        reveal_strlit("DateTimeOriginal");
    }
}

/// Round trip on a fresh template: writing a legal patch into a
/// description carrying none of the recognized properties and reading
/// the result back reproduces every patched field exactly — the star
/// rating and orientation through the numeric codec, the capture time
/// through the RFC-3339 codec at its effective offset, and the two
/// keyword sets as sets.
#[verifier::rlimit(100)]
pub proof fn lemma_fresh_patch_round_trip(
    p: crate::UpdateResults,
    overwrite: bool,
    d: XmlElem,
    d2: XmlElem,
    u: crate::UpdateResults,
)
    requires
        spec_fresh_description(d),
        spec_applied(p, overwrite, d, d2),
        spec_extracted(u, d2),
        p.stars is Some,
        p.colors is Some,
        p.orientation matches Some(o) && 1 <= o <= 8,
        p.subjects is Some,
        p.hierarchies is Some,
        p.datetime matches Some(t) ==> -62167219200 <= t + spec_effective_offset(p.offset)
            <= 253402300799 && spec_effective_offset(p.offset) % 60 == 0,
    ensures
        u.stars == p.stars,
        u.colors matches Some(c) && c@ == p.colors->0@,
        u.orientation == p.orientation,
        match p.datetime {
            Some(t) => (u.datetime matches Some(x) && x as int == t) && ({
                let eff = spec_effective_offset(p.offset);
                if eff != 0 {
                    u.offset matches Some(w) && w as int == eff
                } else {
                    u.offset is None
                }
            }),
            None => u.datetime is None && u.offset is None,
        },
        u.subjects matches Some(sv) && spec_strset(sv@) == spec_strset(p.subjects->0@),
        u.hierarchies matches Some(hv) && spec_strset(hv@) == spec_strset(p.hierarchies->0@),
{
    lemma_fresh_names_distinct();
    lemma_qn_distinct();

    // stars: the decimal codec round trip
    let st = p.stars->0;
    crate::strutil::lemma_fmt_parse_roundtrip(st as int);
    assert(spec_item_of(d2, spec_qn_rating(), "Rating"@, spec_ns_xmp()) == Some(
        crate::strutil::spec_fmt_uint(st as int),
    ));
    assert(u.stars == Some(st));

    // color label: carried as plain text
    assert(spec_item_of(d2, spec_qn_label(), "Label"@, spec_ns_xmp()) == Some(p.colors->0@));

    // orientation: the decimal codec round trip; the child-element
    // form stays absent on a fresh template
    let o = p.orientation->0;
    crate::strutil::lemma_fmt_parse_roundtrip(o as int);
    assert(spec_child(d2.children@, "Orientation"@, spec_ns_tiff()) == spec_child(
        d.children@,
        "Orientation"@,
        spec_ns_tiff(),
    ));
    assert(spec_item_of(d2, spec_qn_orientation(), "Orientation"@, spec_ns_tiff()) == Some(
        crate::strutil::spec_fmt_uint(o as int),
    ));
    assert(u.orientation == Some(o));

    // keyword sets: rebuilt bags hold exactly the merge target
    crate::merge::lemma_strset_is_set_of_views(p.subjects->0@);
    crate::merge::lemma_strset_is_set_of_views(p.hierarchies->0@);
    assert(spec_bag_li(d, "subject"@, spec_ns_dc()) is None);
    assert(spec_bag_li(d, "hierarchicalSubject"@, spec_ns_lr()) is None);
    assert(spec_bag_li_set(d, "subject"@, spec_ns_dc()) =~= Set::<Seq<char>>::empty());
    assert(spec_bag_li_set(d, "hierarchicalSubject"@, spec_ns_lr()) =~= Set::<
        Seq<char>,
    >::empty());
    assert(Set::<Seq<char>>::empty() + spec_strset(p.subjects->0@) =~= spec_strset(
        p.subjects->0@,
    ));
    assert(Set::<Seq<char>>::empty() + spec_strset(p.hierarchies->0@) =~= spec_strset(
        p.hierarchies->0@,
    ));
    assert(spec_bag_updated(d2, "subject"@, spec_ns_dc(), spec_strset(p.subjects->0@)));
    match spec_field_bag(d2, "subject"@, spec_ns_dc()) {
        Some(ts) => {
            match u.subjects {
                Some(sv) => {
                    crate::merge::lemma_strset_is_set_of_views(sv@);
                },
                None => {
                    assert(false);
                },
            }
        },
        None => {
            assert(false);
        },
    }
    match spec_field_bag(d2, "hierarchicalSubject"@, spec_ns_lr()) {
        Some(ts) => {
            match u.hierarchies {
                Some(hv) => {
                    crate::merge::lemma_strset_is_set_of_views(hv@);
                },
                None => {
                    assert(false);
                },
            }
        },
        None => {
            assert(false);
        },
    }

    // a patch without a capture time leaves both date sources as the
    // fresh template had them: absent
    if p.datetime is None {
        assert(spec_attr(d2.attrs@, spec_qn_datetime()) is None);
        assert(spec_attr(d2.attrs@, "xmp"@ + ":"@ + "CreateDate"@) is None);
        assert(spec_child(d2.children@, "DateTimeOriginal"@, spec_ns_exif()) is None);
        assert(spec_child(d2.children@, "CreateDate"@, spec_ns_xmp()) is None);
        assert(spec_field_datetime(d2) is None);
    } else {
        lemma_fresh_round_trip_datetime(p, overwrite, d, d2, u);
    }
}

/// The capture-time half of the fresh-template round trip: the
/// RFC-3339 codec reproduces the instant and the effective offset.
#[verifier::rlimit(100)]
proof fn lemma_fresh_round_trip_datetime(
    p: crate::UpdateResults,
    overwrite: bool,
    d: XmlElem,
    d2: XmlElem,
    u: crate::UpdateResults,
)
    requires
        spec_fresh_description(d),
        spec_applied(p, overwrite, d, d2),
        spec_extracted(u, d2),
        p.datetime matches Some(t) && -62167219200 <= t + spec_effective_offset(p.offset)
            <= 253402300799 && spec_effective_offset(p.offset) % 60 == 0,
    ensures
        u.datetime matches Some(x) && x as int == p.datetime->0,
        ({
            let eff = spec_effective_offset(p.offset);
            if eff != 0 {
                u.offset matches Some(w) && w as int == eff
            } else {
                u.offset is None
            }
        }),
{
    lemma_fresh_names_distinct();
    lemma_qn_distinct();

    // the capture time: the RFC-3339 codec round trip at the
    // effective offset
    let t = p.datetime->0;
    let eff = spec_effective_offset(p.offset);
    let loc = t + eff;
    let days = loc / 86400;
    let sod = loc % 86400;
    lemma_mod_bound(loc, 86400);
    lemma_fundamental_div_mod(loc, 86400);
    let (y, m, dd) = choose|y: int, m: int, dd: int|
        {
            &&& crate::time::spec_valid_ymd(y, m, dd)
            &&& #[trigger] crate::time::spec_days_from_civil(y, m, dd) == loc / 86400
            &&& spec_attr(d2.attrs@, spec_qn_datetime()) == Some(
                crate::time::spec_render_rfc3339(
                    y,
                    m,
                    dd,
                    (loc % 86400) / 3600,
                    ((loc % 86400) % 3600) / 60,
                    (loc % 86400) % 60,
                    eff,
                ),
            )
        };
    assert(-719528 <= days <= 2932896) by {
        lemma_fundamental_div_mod_converse(
            -62167219200,
            86400,
            -719528,
            0,
        );
        lemma_fundamental_div_mod_converse(253402300799, 86400, 2932896, 86399);
        if days < -719528 {
            vstd::arithmetic::div_mod::lemma_div_is_ordered(-62167219200, loc, 86400);
        }
        if days > 2932896 {
            vstd::arithmetic::div_mod::lemma_div_is_ordered(loc, 253402300799, 86400);
        }
    }
    crate::time::lemma_year_of_day_range(y, m, dd);
    let h = sod / 3600;
    let rem = sod % 3600;
    let mi = rem / 60;
    let sec = sod % 60;
    lemma_mod_bound(sod, 3600);
    lemma_fundamental_div_mod(sod, 3600);
    lemma_mod_bound(rem, 60);
    lemma_fundamental_div_mod(rem, 60);
    lemma_mod_bound(sod, 60);
    assert(0 <= h <= 23) by {
        if h >= 24 {
            assert(3600 * h >= 3600 * 24) by (nonlinear_arith)
                requires
                    h >= 24,
            ;
        }
        if h < 0 {
            assert(3600 * h <= 3600 * -1) by (nonlinear_arith)
                requires
                    h <= -1,
            ;
        }
    }
    assert(0 <= mi <= 59) by {
        if mi >= 60 {
            assert(60 * mi >= 60 * 60) by (nonlinear_arith)
                requires
                    mi >= 60,
            ;
        }
        if mi < 0 {
            assert(60 * mi <= 60 * -1) by (nonlinear_arith)
                requires
                    mi <= -1,
            ;
        }
    }
    assert((sod % 3600) % 60 == sod % 60) by {
        assert(3600 == 60 * 60);
        vstd::arithmetic::div_mod::lemma_mod_mod(sod, 60, 60);
    }
    crate::time::lemma_rfc3339_round_trip(y, m, dd, h, mi, sec, eff);
    assert(crate::time::spec_days_from_civil(y, m, dd) * 86400 + h * 3600 + mi * 60 + sec - eff
        == t as int) by {
        assert(days * 86400 + sod == loc);
        assert(sod == 3600 * h + rem);
        assert(rem == 60 * mi + rem % 60);
        assert(rem % 60 == sec);
        assert(days * 86400 == crate::time::spec_days_from_civil(y, m, dd) * 86400);
    }
    assert(spec_item_of(d2, spec_qn_datetime(), "DateTimeOriginal"@, spec_ns_exif()) == Some(
        crate::time::spec_render_rfc3339(y, m, dd, h, mi, sec, eff),
    ));
    assert(spec_field_datetime(d2) == Some(
        (
            t as int,
            if eff != 0 {
                Some(eff)
            } else {
                None::<int>
            },
        ),
    ));
}

} // verus!
