//! The boundary to the XML layer: parsing bytes into the element tree
//! and serializing the tree back. Tokenization is the collaborator's
//! work and stays behind trusted wrappers; everything around it — the
//! pre-parse cleanup of processing instructions and comments, the
//! namespace-recovery retry, and the byte-level load and update entry
//! points — is verified.

use vstd::prelude::*;
use vstd::string::{StrSliceExecFns, StringSliceAdditionalSpecFns};

use crate::errors::{XmpError, XmpErrorKind};
use crate::xmltree::{XmlElem, XmlNode};

verus! {

/// How a parse can fail: an element used an undeclared namespace
/// prefix (the recoverable case), or anything else.
#[derive(Debug, Clone, Copy, PartialEq, Eq, Structural)]
pub enum XmlParseErr {
    MissingNamespace,
    Syntax,
}

#[verifier::external_type_specification]
#[verifier::external_body]
pub struct ExMinidomElement(minidom::Element);

/// What the XML layer's parser makes of these bytes: the document
/// tree, or how it fails. The parse is a function of the bytes alone.
pub uninterp spec fn xml_parse_of(bytes: Seq<u8>) -> Result<XmlElem, XmlParseErr>;

/// Whether `out` is a rendering of this tree. The writer emits an
/// element's namespace declarations in an order that can differ from
/// call to call, so the output is related to the tree, not a function
/// of it.
pub uninterp spec fn xml_rendering_ok(t: XmlElem, out: Seq<u8>) -> bool;

/// Whether the writer serializes this tree successfully. Unlike the
/// emitted bytes, success is a function of the tree alone: the
/// writer's failure paths are name and character-data conversions
/// and attribute-prefix lookups, none of which depend on its
/// per-call state.
pub uninterp spec fn render_ok_of(t: XmlElem) -> bool;

/// Relies on minidom's element accessors (`name`, `ns`, `prefixes`,
/// `attrs`, `nodes`): carries a parsed element over into the plain
/// tree, child for child. Called only inside this boundary.
#[verifier::external_body]
fn tree_of_element(e: &minidom::Element) -> XmlElem {
    let prefixes = e.prefixes.declared_prefixes().iter().map(|(p, ns)| (p.clone(), ns.clone())).collect();
    let attrs = e.attrs().map(|(k, v)| (k.to_string(), v.to_string())).collect();
    let children = e.nodes().map(|n| match n {
        minidom::Node::Element(c) => XmlNode::Elem(tree_of_element(c)),
        minidom::Node::Text(s) => XmlNode::Text(s.clone()),
    }).collect();
    XmlElem { name: e.name().to_string(), ns: e.ns(), prefixes, attrs, children }
}

/// Relies on minidom's element builders (`bare`, `set_attr`,
/// `append_child`, `append_text_node`, the `prefixes` field): rebuilds
/// a minidom element from the plain tree, child for child. Called
/// only inside this boundary.
#[verifier::external_body]
fn element_of_tree(t: &XmlElem) -> minidom::Element {
    let mut e = minidom::Element::bare(t.name.clone(), t.ns.clone());
    e.prefixes = t.prefixes.iter().cloned().collect::<std::collections::BTreeMap<_, _>>().into();
    for (k, v) in t.attrs.iter() {
        e.set_attr(k.clone(), v.clone());
    }
    for c in t.children.iter() {
        match c {
            XmlNode::Elem(el) => { e.append_child(element_of_tree(el)); },
            XmlNode::Text(s) => e.append_text_node(s.clone()),
        }
    }
    e
}

/// Relies on `minidom::Element::from_reader`: parses one XML document
/// from bytes; an element whose prefix no scope declares fails with
/// the crate's missing-namespace error, which drives the recovery
/// retry; every other failure is a plain syntax failure.
#[verifier::external_body]
fn parse_root(bytes: &[u8]) -> (r: Result<XmlElem, XmlParseErr>)
    ensures
        match r {
            Ok(t) => xml_parse_of(bytes@) == Ok::<XmlElem, XmlParseErr>(t),
            Err(e) => xml_parse_of(bytes@) == Err::<XmlElem, XmlParseErr>(e),
        },
{
    match minidom::Element::from_reader(bytes) {
        Ok(e) => Ok(tree_of_element(&e)),
        Err(minidom::Error::MissingNamespace) => Err(XmlParseErr::MissingNamespace),
        Err(_) => Err(XmlParseErr::Syntax),
    }
}

/// Relies on `minidom::Element::write_to`: serializes the tree
/// compactly; the writer escapes text and attribute values and emits
/// the tree's namespace declarations. The writer aborts the process
/// on a reserved or writer-generated prefix name, on a declaration
/// binding one of the two reserved namespace URIs, on a nested
/// redeclaration of a prefix the root declares, and on an attribute
/// name it cannot split; `spec_tree_writable` keeps all of those out,
/// so on admitted trees the call returns. Whether it returns `Ok` is
/// a function of the tree alone — the remaining failure paths are
/// name and character-data conversions and attribute-prefix lookups,
/// all deterministic — so that outcome carries the name below; only
/// the emitted bytes vary between calls.
#[verifier::external_body]
fn write_root(t: &XmlElem) -> (r: Result<Vec<u8>, XmlParseErr>)
    requires
        spec_tree_writable(*t),
    ensures
        r is Ok <==> render_ok_of(*t),
        r matches Ok(v) ==> xml_rendering_ok(*t, v@),
{
    let e = element_of_tree(t);
    let mut out: Vec<u8> = Vec::new();
    match e.write_to(&mut out) {
        Ok(()) => Ok(out),
        Err(_) => Err(XmlParseErr::Syntax),
    }
}

/// One scan position state of the cleanup: reading markup, inside a
/// processing instruction, or inside a comment.
pub open spec fn spec_strip_from(s: Seq<u8>, i: int, mode: int) -> Seq<u8>
    decreases s.len() - i,
{
    if i < 0 || i >= s.len() {
        Seq::empty()
    } else if mode == 1 {
        if i + 1 < s.len() && s[i] == 63 && s[i + 1] == 62 {
            spec_strip_from(s, i + 2, 0)
        } else {
            spec_strip_from(s, i + 1, 1)
        }
    } else if mode == 2 {
        if i + 2 < s.len() && s[i] == 45 && s[i + 1] == 45 && s[i + 2] == 62 {
            spec_strip_from(s, i + 3, 0)
        } else {
            spec_strip_from(s, i + 1, 2)
        }
    } else {
        if i + 1 < s.len() && s[i] == 60 && s[i + 1] == 63 {
            spec_strip_from(s, i + 2, 1)
        } else if i + 3 < s.len() && s[i] == 60 && s[i + 1] == 33 && s[i + 2] == 45 && s[i + 3]
            == 45 {
            spec_strip_from(s, i + 4, 2)
        } else {
            seq![s[i]] + spec_strip_from(s, i + 1, 0)
        }
    }
}

/// The document with every processing instruction and comment taken
/// out. In well-formed XML a literal `<` never appears inside text or
/// an attribute value, so `<?` and `<!--` always open real markup.
pub open spec fn spec_strip_markup(s: Seq<u8>) -> Seq<u8> {
    spec_strip_from(s, 0, 0)
}

/// Removes processing instructions and comments before a parse, since
/// the XML layer's restricted parser refuses them while packets in
/// the wild carry them.
pub fn strip_markup(bytes: &[u8]) -> (r: Vec<u8>)
    ensures
        r@ == spec_strip_markup(bytes@),
{
    let n = bytes.len();
    let mut out: Vec<u8> = Vec::new();
    let mut i: usize = 0;
    let mut mode: u8 = 0;
    proof {
        assert(out@ + spec_strip_from(bytes@, 0, 0) =~= spec_strip_from(bytes@, 0, 0));
    }
    while i < n
        invariant
            n == bytes@.len(),
            i <= n,
            mode == 0 || mode == 1 || mode == 2,
            spec_strip_markup(bytes@) == out@ + spec_strip_from(bytes@, i as int, mode as int),
        decreases n - i,
    {
        if mode == 1 {
            if i + 1 < n && bytes[i] == 63 && bytes[i + 1] == 62 {
                i = i + 2;
                mode = 0;
            } else {
                i = i + 1;
            }
        } else if mode == 2 {
            if n - i > 2 && bytes[i] == 45 && bytes[i + 1] == 45 && bytes[i + 2] == 62 {
                i = i + 3;
                mode = 0;
            } else {
                i = i + 1;
            }
        } else {
            if i + 1 < n && bytes[i] == 60 && bytes[i + 1] == 63 {
                i = i + 2;
                mode = 1;
            } else if n - i > 3 && bytes[i] == 60 && bytes[i + 1] == 33 && bytes[i + 2] == 45
                && bytes[i + 3] == 45 {
                i = i + 4;
                mode = 2;
            } else {
                let ghost prior = out@;
                out.push(bytes[i]);
                proof {
                    assert(prior + (seq![bytes@[i as int]] + spec_strip_from(
                        bytes@,
                        i as int + 1,
                        0,
                    )) =~= out@ + spec_strip_from(bytes@, i as int + 1, 0));
                }
                i = i + 1;
            }
        }
    }
    proof {
        assert(spec_strip_from(bytes@, n as int, mode as int) =~= Seq::<u8>::empty());
        assert(out@ + Seq::<u8>::empty() =~= out@);
    }
    out
}

/// The position right after the first `<rdf:Description` tag name, if
/// the name appears followed by a name boundary.
pub open spec fn spec_desc_tag_end(s: Seq<u8>, i: int) -> Option<int>
    decreases s.len() - i,
{
    if i < 0 || i + 16 > s.len() {
        None
    } else if s.subrange(i, i + 16) == spec_desc_tag() && (i + 16 == s.len() || s[i + 16] == 32
        || s[i + 16] == 9 || s[i + 16] == 10 || s[i + 16] == 13 || s[i + 16] == 62 || s[i + 16]
        == 47) {
        Some(i + 16)
    } else {
        spec_desc_tag_end(s, i + 1)
    }
}

/// The bytes of `<rdf:Description`.
pub open spec fn spec_desc_tag() -> Seq<u8> {
    seq![60u8, 114u8, 100u8, 102u8, 58u8, 68u8, 101u8, 115u8, 99u8, 114u8, 105u8, 112u8, 116u8, 105u8, 111u8, 110u8]
}

/// The bytes of ` xmlns:dc="http://purl.org/dc/elements/1.1/"`.
pub open spec fn spec_dc_decl() -> Seq<u8> {
    seq![32u8, 120u8, 109u8, 108u8, 110u8, 115u8, 58u8, 100u8, 99u8, 61u8, 34u8, 104u8, 116u8,
        116u8, 112u8, 58u8, 47u8, 47u8, 112u8, 117u8, 114u8, 108u8, 46u8, 111u8, 114u8, 103u8,
        47u8, 100u8, 99u8, 47u8, 101u8, 108u8, 101u8, 109u8, 101u8, 110u8, 116u8, 115u8, 47u8,
        49u8, 46u8, 49u8, 47u8, 34u8]
}

/// The document with a Dublin Core declaration injected into the
/// first `rdf:Description` start tag; unchanged when no such tag is
/// found.
pub open spec fn spec_inject_dc(s: Seq<u8>) -> Seq<u8> {
    match spec_desc_tag_end(s, 0) {
        Some(p) => s.take(p) + spec_dc_decl() + s.skip(p),
        None => s,
    }
}

/// Whether the sixteen bytes at `i` read `<rdf:Description` and end at
/// a name boundary.
fn desc_tag_at(bytes: &[u8], i: usize) -> (r: bool)
    requires
        i + 16 <= bytes@.len(),
        bytes@.len() <= usize::MAX,
    ensures
        r == (bytes@.subrange(i as int, i as int + 16) == spec_desc_tag() && (i + 16
            == bytes@.len() || bytes@[i as int + 16] == 32 || bytes@[i as int + 16] == 9
            || bytes@[i as int + 16] == 10 || bytes@[i as int + 16] == 13 || bytes@[i as int + 16]
            == 62 || bytes@[i as int + 16] == 47)),
{
    let n = bytes.len();
    let tag: [u8; 16] = [60, 114, 100, 102, 58, 68, 101, 115, 99, 114, 105, 112, 116, 105, 111,
        110];
    let mut k: usize = 0;
    while k < 16
        invariant
            n == bytes@.len(),
            i + 16 <= n,
            k <= 16,
            tag@ == spec_desc_tag(),
            forall|j: int| 0 <= j < k ==> bytes@[i + j] == #[trigger] spec_desc_tag()[j],
        decreases 16 - k,
    {
        proof {
            assert(i + k < n);
        }
        if bytes[i + k] != tag[k] {
            proof {
                assert(bytes@.subrange(i as int, i as int + 16)[k as int] == bytes@[i + k]);
            }
            return false;
        }
        k = k + 1;
    }
    proof {
        assert(bytes@.subrange(i as int, i as int + 16) =~= spec_desc_tag());
    }
    if n - i == 16 {
        true
    } else {
        let b = bytes[i + 16];
        b == 32 || b == 9 || b == 10 || b == 13 || b == 62 || b == 47
    }
}

/// Injects the Dublin Core declaration into the first
/// `rdf:Description` start tag, so a document whose writer left the
/// declaration out parses on the retry. The tag is found by a byte
/// scan: well-formed XML never holds a literal `<` in text or
/// attribute values.
pub fn inject_dc(bytes: &[u8]) -> (r: Vec<u8>)
    ensures
        r@ == spec_inject_dc(bytes@),
{
    let n = bytes.len();
    let mut i: usize = 0;
    while i < n && n - i >= 16
        invariant
            n == bytes@.len(),
            i <= n,
            spec_desc_tag_end(bytes@, 0) == spec_desc_tag_end(bytes@, i as int),
        decreases n - i,
    {
        if desc_tag_at(bytes, i) {
            let p = i + 16;
            let mut out: Vec<u8> = Vec::new();
            let mut k: usize = 0;
            while k < p
                invariant
                    p <= n == bytes@.len(),
                    k <= p,
                    out@ == bytes@.take(k as int),
                decreases p - k,
            {
                out.push(bytes[k]);
                proof {
                    assert(out@ =~= bytes@.take(k as int + 1));
                }
                k = k + 1;
            }
            let decl: [u8; 44] = [32, 120, 109, 108, 110, 115, 58, 100, 99, 61, 34, 104, 116, 116,
                112, 58, 47, 47, 112, 117, 114, 108, 46, 111, 114, 103, 47, 100, 99, 47, 101, 108,
                101, 109, 101, 110, 116, 115, 47, 49, 46, 49, 47, 34];
            proof {
                assert(decl@ =~= spec_dc_decl());
            }
            let mut q: usize = 0;
            while q < 44
                invariant
                    p <= n == bytes@.len(),
                    q <= 44,
                    decl@ == spec_dc_decl(),
                    out@ == bytes@.take(p as int) + spec_dc_decl().take(q as int),
                decreases 44 - q,
            {
                out.push(decl[q]);
                proof {
                    assert(out@ =~= bytes@.take(p as int) + spec_dc_decl().take(q as int + 1));
                }
                q = q + 1;
            }
            proof {
                assert(spec_dc_decl().take(44) =~= spec_dc_decl());
            }
            let mut m: usize = p;
            while m < n
                invariant
                    p <= n == bytes@.len(),
                    p <= m <= n,
                    out@ == bytes@.take(p as int) + spec_dc_decl() + bytes@.subrange(
                        p as int,
                        m as int,
                    ),
                decreases n - m,
            {
                out.push(bytes[m]);
                proof {
                    assert(out@ =~= bytes@.take(p as int) + spec_dc_decl() + bytes@.subrange(
                        p as int,
                        m as int + 1,
                    ));
                }
                m = m + 1;
            }
            proof {
                assert(bytes@.subrange(p as int, n as int) =~= bytes@.skip(p as int));
                assert(spec_desc_tag_end(bytes@, i as int) == Some(p as int));
            }
            return out;
        }
        i = i + 1;
    }
    proof {
        assert(spec_desc_tag_end(bytes@, i as int) is None);
    }
    let mut out: Vec<u8> = Vec::new();
    let mut k: usize = 0;
    while k < n
        invariant
            n == bytes@.len(),
            k <= n,
            out@ == bytes@.take(k as int),
        decreases n - k,
    {
        out.push(bytes[k]);
        proof {
            assert(out@ =~= bytes@.take(k as int + 1));
        }
        k = k + 1;
    }
    proof {
        assert(bytes@.take(n as int) =~= bytes@);
    }
    out
}

/// Parses a document, after the markup cleanup: when the first parse
/// fails only for a missing namespace declaration, one retry runs
/// with the Dublin Core declaration injected into the description's
/// start tag.
pub fn parse_with_recovery(bytes: &[u8]) -> (r: Result<XmlElem, XmlParseErr>)
    ensures
        ({
            let stripped = spec_strip_markup(bytes@);
            match xml_parse_of(stripped) {
                Ok(t) => r == Ok::<XmlElem, XmlParseErr>(t),
                Err(XmlParseErr::MissingNamespace) => match xml_parse_of(
                    spec_inject_dc(stripped),
                ) {
                    Ok(t) => r == Ok::<XmlElem, XmlParseErr>(t),
                    Err(e) => r == Err::<XmlElem, XmlParseErr>(e),
                },
                Err(e) => r == Err::<XmlElem, XmlParseErr>(e),
            }
        }),
{
    let stripped = strip_markup(bytes);
    match parse_root(stripped.as_slice()) {
        Ok(t) => Ok(t),
        Err(XmlParseErr::MissingNamespace) => {
            let injected = inject_dc(stripped.as_slice());
            parse_root(injected.as_slice())
        },
        Err(e) => Err(e),
    }
}


/// One candidate outcome of the update pipeline on the parsed tree
/// `t` with description `d`: `root2` is the tree after the patch was
/// applied, `root3` the tree handed to the serializer — indented on
/// request, `root2` itself otherwise.
pub open spec fn spec_update_pipeline(
    p: crate::UpdateResults,
    options: crate::UpdateOptions,
    t: XmlElem,
    d: XmlElem,
    root2: XmlElem,
    root3: XmlElem,
) -> bool {
    &&& crate::rdf::spec_description(root2) matches Some(d2) && crate::rdf::spec_applied(
        p,
        options.overwrite,
        d,
        d2,
    )
    &&& crate::rdf::spec_shell_preserved(t, root2)
    &&& match options.indent {
        Some((ic, iw)) => spec_indent_related(root2, root3, seq!['\n'], spec_indent_unit(ic, iw)),
        None => root3 == root2,
    }
}

/// The tree a load sees for these bytes: the cleaned-up document,
/// parsed, with one namespace-recovery retry.
pub open spec fn spec_loaded_tree(bytes: Seq<u8>) -> Result<XmlElem, XmlParseErr> {
    let stripped = spec_strip_markup(bytes);
    match xml_parse_of(stripped) {
        Ok(t) => Ok(t),
        Err(XmlParseErr::MissingNamespace) => xml_parse_of(spec_inject_dc(stripped)),
        Err(e) => Err(e),
    }
}

impl crate::UpdateResults {
    /// Reads the partial record out of a serialized document: cleanup,
    /// parse with the one recovery retry, then the per-property
    /// extraction; a document without the required skeleton fails.
    pub fn from_slice(xml: &[u8]) -> (r: Result<crate::UpdateResults, XmpError>)
        ensures
            match spec_loaded_tree(xml@) {
                Ok(t) => match r {
                    Ok(u) => crate::rdf::spec_description(t) matches Some(d)
                        && crate::rdf::spec_extracted(u, d),
                    Err(e) => crate::rdf::spec_description(t) is None && e.spec_kind()
                        == XmpErrorKind::ChildNotFound,
                },
                Err(_) => r matches Err(e) && e.spec_kind() == XmpErrorKind::MinidomError,
            },
    {
        match parse_with_recovery(xml) {
            Ok(t) => {
                let out = crate::UpdateResults::from_tree(&t);
                proof {
                    match &out {
                        Ok(u) => {
                            match crate::rdf::spec_description(t) {
                                Some(d) => {
                                    crate::rdf::lemma_extracted_intro(*u, d);
                                },
                                None => {},
                            }
                        },
                        Err(_) => {},
                    }
                }
                out
            },
            Err(_) => Err(XmpError::at_site(XmpErrorKind::MinidomError, "xmlio::from_slice")),
        }
    }

    /// Applies this patch to a serialized document and hands back the
    /// rewritten document: cleanup and parse with the recovery retry,
    /// the tree-level update, then serialization — pretty-printed
    /// with the requested indent character and width when one is
    /// asked for, compact otherwise. On a document with the required
    /// skeleton and an in-range orientation, the result is `Ok`
    /// exactly when the updated (and, on request, indented) tree
    /// passes the writability check and the writer succeeds on it —
    /// both functions of that tree — and the output then renders
    /// exactly that tree; the update itself is pinned down by the
    /// tree-level contract.
    #[verifier::rlimit(100)]
    pub fn update_xml(&self, xml: &[u8], options: &crate::UpdateOptions) -> (r: Result<
        Vec<u8>,
        XmpError,
    >)
        requires
            self.datetime matches Some(t) ==> -8_000_000_000_000_000 <= t
                <= 8_000_000_000_000_000,
        ensures
            match spec_loaded_tree(xml@) {
                Ok(t) => match crate::rdf::spec_description(t) {
                    None => r matches Err(e) && e.spec_kind() == XmpErrorKind::ChildNotFound,
                    Some(d) => if self.orientation matches Some(o) && !(1 <= o <= 8) {
                        r matches Err(e) && e.spec_kind() == XmpErrorKind::ValueOutOfRange
                    } else {
                        match r {
                            Ok(v) => exists|root2: XmlElem, root3: XmlElem|
                                #![trigger crate::rdf::spec_description(root2), crate::rdf::spec_description(root3)]
                                {
                                    &&& spec_update_pipeline(*self, *options, t, d, root2, root3)
                                    &&& spec_tree_writable(root3)
                                    &&& render_ok_of(root3)
                                    &&& xml_rendering_ok(root3, v@)
                                },
                            Err(e) => e.spec_kind() == XmpErrorKind::MinidomError && exists|
                                root2: XmlElem,
                                root3: XmlElem,
                            |
                                #![trigger crate::rdf::spec_description(root2), crate::rdf::spec_description(root3)]
                                {
                                    &&& spec_update_pipeline(*self, *options, t, d, root2, root3)
                                    &&& !(spec_tree_writable(root3) && render_ok_of(root3))
                                },
                        }
                    },
                },
                Err(_) => r matches Err(e) && e.spec_kind() == XmpErrorKind::MinidomError,
            },
    {
        let tree = match parse_with_recovery(xml) {
            Ok(t) => t,
            Err(_) => {
                return Err(XmpError::at_site(XmpErrorKind::MinidomError, "xmlio::update_xml"));
            },
        };
        let ghost tree0 = tree;
        let updated = match self.apply_to_tree(tree, options) {
            Ok(t2) => t2,
            Err(e) => {
                return Err(e);
            },
        };
        let ghost upd = updated;
        let rendered = match options.indent {
            Some((ic, iw)) => indent_tree(updated, ic, iw),
            None => updated,
        };
        let ghost rt = rendered;
        proof {
            match crate::rdf::spec_description(tree0) {
                Some(d) => {
                    assert(crate::rdf::spec_description(rt) == crate::rdf::spec_description(rt));
                    assert(spec_update_pipeline(*self, *options, tree0, d, upd, rt));
                },
                None => {},
            }
        }
        if !tree_writable(&rendered) {
            proof {
                match crate::rdf::spec_description(tree0) {
                    Some(d) => {
                        assert(exists|root2: XmlElem, root3: XmlElem|
                            #![trigger crate::rdf::spec_description(root2), crate::rdf::spec_description(root3)]
                            {
                                &&& spec_update_pipeline(*self, *options, tree0, d, root2, root3)
                                &&& !(spec_tree_writable(root3) && render_ok_of(root3))
                            }) by {
                            assert(spec_update_pipeline(*self, *options, tree0, d, upd, rt) && !(
                            spec_tree_writable(rt) && render_ok_of(rt)));
                        }
                    },
                    None => {},
                }
            }
            return Err(
                XmpError::at_site(XmpErrorKind::MinidomError, "xmlio::update_xml"),
            );
        }
        match write_root(&rendered) {
            Ok(v) => {
                proof {
                    match crate::rdf::spec_description(tree0) {
                        Some(d) => {
                            assert(exists|root2: XmlElem, root3: XmlElem|
                                #![trigger crate::rdf::spec_description(root2), crate::rdf::spec_description(root3)]
                                {
                                    &&& spec_update_pipeline(
                                        *self,
                                        *options,
                                        tree0,
                                        d,
                                        root2,
                                        root3,
                                    )
                                    &&& spec_tree_writable(root3)
                                    &&& render_ok_of(root3)
                                    &&& xml_rendering_ok(root3, v@)
                                }) by {
                                assert(spec_update_pipeline(*self, *options, tree0, d, upd, rt)
                                    && spec_tree_writable(rt) && render_ok_of(rt)
                                    && xml_rendering_ok(rt, v@));
                            }
                        },
                        None => {},
                    }
                }
                Ok(v)
            },
            Err(_) => {
                proof {
                    match crate::rdf::spec_description(tree0) {
                        Some(d) => {
                            assert(exists|root2: XmlElem, root3: XmlElem|
                                #![trigger crate::rdf::spec_description(root2), crate::rdf::spec_description(root3)]
                                {
                                    &&& spec_update_pipeline(
                                        *self,
                                        *options,
                                        tree0,
                                        d,
                                        root2,
                                        root3,
                                    )
                                    &&& !(spec_tree_writable(root3) && render_ok_of(root3))
                                }) by {
                                assert(spec_update_pipeline(*self, *options, tree0, d, upd, rt)
                                    && !render_ok_of(rt));
                            }
                        },
                        None => {},
                    }
                }
                Err(XmpError::at_site(XmpErrorKind::MinidomError, "xmlio::update_xml"))
            },
        }
    }
}


/// The bundled minimal template: the write-time base when a container
/// carries no packet yet, so first-time tagging always succeeds.
pub fn default_xml() -> (r: &'static str)
    ensures
        r@
            == "<x:xmpmeta xmlns:x=\"adobe:ns:meta/\"><rdf:RDF xmlns:rdf=\"http://www.w3.org/1999/02/22-rdf-syntax-ns#\"><rdf:Description rdf:about=\"\" xmlns:dc=\"http://purl.org/dc/elements/1.1/\"/></rdf:RDF></x:xmpmeta>"@,
{
    "<x:xmpmeta xmlns:x=\"adobe:ns:meta/\"><rdf:RDF xmlns:rdf=\"http://www.w3.org/1999/02/22-rdf-syntax-ns#\"><rdf:Description rdf:about=\"\" xmlns:dc=\"http://purl.org/dc/elements/1.1/\"/></rdf:RDF></x:xmpmeta>"
}

/// The packet an update starts from: what the container carried, or
/// the bundled template when extraction failed, so a write never
/// aborts for want of an existing packet.
pub fn xmp_source_or_default(loaded: Result<Vec<u8>, XmpError>) -> (r: Vec<u8>)
    ensures
        match loaded {
            Ok(x) => r == x,
            Err(_) => r@ == default_xml_view(),
        },
{
    match loaded {
        Ok(x) => x,
        Err(_) => {
            let s = default_xml();
            s.as_bytes_vec()
        },
    }
}

/// The template's bytes, for specifications.
pub open spec fn default_xml_view() -> Seq<u8> {
    "<x:xmpmeta xmlns:x=\"adobe:ns:meta/\"><rdf:RDF xmlns:rdf=\"http://www.w3.org/1999/02/22-rdf-syntax-ns#\"><rdf:Description rdf:about=\"\" xmlns:dc=\"http://purl.org/dc/elements/1.1/\"/></rdf:RDF></x:xmpmeta>".spec_bytes()
}


/// An ASCII letter.
pub open spec fn spec_letter(c: char) -> bool {
    (65 <= c as int <= 90) || (97 <= c as int <= 122)
}

/// A character that may open a name or a name part.
pub open spec fn spec_name_start_ok(c: char) -> bool {
    spec_letter(c) || c == '_'
}

/// A character the conservative name form accepts.
pub open spec fn spec_name_char_ok(c: char) -> bool {
    spec_letter(c) || (48 <= c as int <= 57) || c == '_' || c == '-' || c == '.' || c == ':'
}

/// A qualified attribute name the writer is known to accept: a
/// non-empty run of conservative name characters, with at most one
/// colon, each part opening with a letter or underscore. The writer
/// splits attribute names at the colon without an error path, so
/// anything wider stays out.
pub open spec fn spec_attr_key_ok(s: Seq<char>) -> bool {
    &&& s.len() > 0
    &&& spec_name_start_ok(s[0])
    &&& forall|i: int| 0 <= i < s.len() ==> spec_name_char_ok(#[trigger] s[i])
    &&& forall|i: int, j: int|
        0 <= i < j < s.len() ==> !(#[trigger] s[i] == ':' && #[trigger] s[j] == ':')
    &&& forall|i: int|
        0 <= i < s.len() && #[trigger] s[i] == ':' ==> i + 1 < s.len() && spec_name_start_ok(
            s[i + 1],
        )
}

/// A prefix name the writer accepts in a declaration: not the two
/// reserved names, and not in the space the writer keeps for its own
/// generated prefixes.
pub open spec fn spec_prefix_name_ok(s: Seq<char>) -> bool {
    &&& !(s.len() == 3 && s[0] == 'x' && s[1] == 'm' && s[2] == 'l')
    &&& !(s.len() == 5 && s[0] == 'x' && s[1] == 'm' && s[2] == 'l' && s[3] == 'n' && s[4] == 's')
    &&& !(s.len() >= 3 && s[0] == 't' && s[1] == 'n' && s[2] == 's')
}

/// The two namespace URIs the writer insists belong to their fixed
/// prefixes: declaring either under any other name aborts it.
pub open spec fn spec_reserved_ns(u: Seq<char>) -> bool {
    u == "http://www.w3.org/XML/1998/namespace"@ || u == "http://www.w3.org/2000/xmlns/"@
}

/// The declarations of one element the writer accepts: acceptable
/// prefix names, no declaration binding a reserved namespace URI,
/// and, on every element below the root, no redeclaration of a
/// prefix the root declares — the writer treats root declarations as
/// global and aborts on a nested redeclaration.
pub open spec fn spec_decls_ok(
    prefixes: Seq<(Option<String>, String)>,
    rp: Set<Seq<char>>,
    nested: bool,
) -> bool {
    forall|i: int|
        0 <= i < prefixes.len() ==> !spec_reserved_ns((#[trigger] prefixes[i]).1@) && match (
        prefixes[i]).0 {
            Some(s) => spec_prefix_name_ok(s@) && (!nested || !rp.contains(s@)),
            None => true,
        }
}

/// Every attribute name of one element is acceptable.
pub open spec fn spec_attrs_ok(attrs: Seq<(String, String)>) -> bool {
    forall|i: int| 0 <= i < attrs.len() ==> spec_attr_key_ok((#[trigger] attrs[i]).0@)
}

/// The prefix names the root element declares.
pub open spec fn spec_root_prefix_set(prefixes: Seq<(Option<String>, String)>) -> Set<Seq<char>> {
    Set::new(
        |x: Seq<char>|
            exists|i: int|
                0 <= i < prefixes.len() && ((#[trigger] prefixes[i]).0 matches Some(s) && s@
                    == x),
    )
}

/// A nested element, with everything below it, the writer accepts.
pub open spec fn spec_elem_writable(e: XmlElem, rp: Set<Seq<char>>) -> bool
    decreases e,
{
    &&& spec_attrs_ok(e.attrs@)
    &&& spec_decls_ok(e.prefixes@, rp, true)
    &&& forall|i: int|
        0 <= i < e.children@.len() ==> spec_node_writable(#[trigger] e.children@[i], rp)
}

/// A nested node the writer accepts; character data always is.
pub open spec fn spec_node_writable(n: XmlNode, rp: Set<Seq<char>>) -> bool
    decreases n,
{
    match n {
        XmlNode::Elem(c) => spec_elem_writable(c, rp),
        XmlNode::Text(_) => true,
    }
}

/// A whole document tree the writer serializes without aborting.
pub open spec fn spec_tree_writable(t: XmlElem) -> bool {
    &&& spec_attrs_ok(t.attrs@)
    &&& spec_decls_ok(t.prefixes@, Set::empty(), false)
    &&& forall|i: int|
        0 <= i < t.children@.len() ==> spec_node_writable(
            #[trigger] t.children@[i],
            spec_root_prefix_set(t.prefixes@),
        )
}


/// Whether one character may open a name part.
fn name_start_ok(c: char) -> (r: bool)
    ensures
        r == spec_name_start_ok(c),
{
    let u = c as u32;
    (65 <= u && u <= 90) || (97 <= u && u <= 122) || c == '_'
}

/// Checks one qualified attribute name against the conservative form.
fn attr_key_ok(s: &str) -> (r: bool)
    ensures
        r == spec_attr_key_ok(s@),
{
    let n = s.unicode_len();
    if n == 0 {
        return false;
    }
    if !name_start_ok(s.get_char(0)) {
        return false;
    }
    let mut i: usize = 0;
    let mut seen_colon: bool = false;
    let ghost mut cidx: int = 0;
    while i < n
        invariant
            n == s@.len(),
            i <= n,
            forall|k: int| 0 <= k < i ==> spec_name_char_ok(#[trigger] s@[k]),
            seen_colon ==> 0 <= cidx < i && s@[cidx] == ':' && cidx + 1 < n
                && spec_name_start_ok(s@[cidx + 1]),
            forall|k: int| 0 <= k < i && k != cidx ==> (#[trigger] s@[k]) != ':',
            !seen_colon ==> forall|k: int| 0 <= k < i ==> (#[trigger] s@[k]) != ':',
        decreases n - i,
    {
        let c = s.get_char(i);
        let u = c as u32;
        let ok = (65 <= u && u <= 90) || (97 <= u && u <= 122) || (48 <= u && u <= 57) || c == '_'
            || c == '-' || c == '.' || c == ':';
        if !ok {
            return false;
        }
        if c == ':' {
            if seen_colon {
                return false;
            }
            if i + 1 >= n || !name_start_ok(s.get_char(i + 1)) {
                return false;
            }
            seen_colon = true;
            proof {
                cidx = i as int;
            }
        }
        i = i + 1;
    }
    true
}

/// Checks one declared prefix name against what the writer accepts.
fn prefix_name_ok(s: &str) -> (r: bool)
    ensures
        r == spec_prefix_name_ok(s@),
{
    let n = s.unicode_len();
    if n == 3 && s.get_char(0) == 'x' && s.get_char(1) == 'm' && s.get_char(2) == 'l' {
        return false;
    }
    if n == 5 && s.get_char(0) == 'x' && s.get_char(1) == 'm' && s.get_char(2) == 'l'
        && s.get_char(3) == 'n' && s.get_char(4) == 's' {
        return false;
    }
    if n >= 3 && s.get_char(0) == 't' && s.get_char(1) == 'n' && s.get_char(2) == 's' {
        return false;
    }
    true
}

/// Checks one element's declarations.
fn decls_ok(prefixes: &Vec<(Option<String>, String)>, rp: &Vec<String>, nested: bool) -> (r: bool)
    ensures
        r == spec_decls_ok(prefixes@, crate::merge::spec_strset(rp@), nested),
{
    let n = prefixes.len();
    let mut i: usize = 0;
    while i < n
        invariant
            n == prefixes@.len(),
            i <= n,
            forall|k: int|
                0 <= k < i ==> !spec_reserved_ns((#[trigger] prefixes@[k]).1@) && match (
                prefixes@[k]).0 {
                    Some(s) => spec_prefix_name_ok(s@) && (!nested
                        || !crate::merge::spec_strset(rp@).contains(s@)),
                    None => true,
                },
        decreases n - i,
    {
        if crate::strutil::str_eq(prefixes[i].1.as_str(), "http://www.w3.org/XML/1998/namespace")
            || crate::strutil::str_eq(prefixes[i].1.as_str(), "http://www.w3.org/2000/xmlns/") {
            return false;
        }
        match &prefixes[i].0 {
            Some(p) => {
                if !prefix_name_ok(p.as_str()) {
                    return false;
                }
                if nested && crate::merge::contains_str(rp, p.as_str()) {
                    return false;
                }
            },
            None => {},
        }
        i = i + 1;
    }
    true
}

/// Checks one element's attribute names.
fn attrs_ok(attrs: &Vec<(String, String)>) -> (r: bool)
    ensures
        r == spec_attrs_ok(attrs@),
{
    let n = attrs.len();
    let mut i: usize = 0;
    while i < n
        invariant
            n == attrs@.len(),
            i <= n,
            forall|k: int| 0 <= k < i ==> spec_attr_key_ok((#[trigger] attrs@[k]).0@),
        decreases n - i,
    {
        if !attr_key_ok(attrs[i].0.as_str()) {
            return false;
        }
        i = i + 1;
    }
    true
}

/// Checks one nested element and everything below it.
fn elem_writable(e: &XmlElem, rp: &Vec<String>) -> (r: bool)
    ensures
        r == spec_elem_writable(*e, crate::merge::spec_strset(rp@)),
    decreases *e,
{
    if !attrs_ok(&e.attrs) {
        return false;
    }
    if !decls_ok(&e.prefixes, rp, true) {
        return false;
    }
    let n = e.children.len();
    let mut i: usize = 0;
    while i < n
        invariant
            n == e.children@.len(),
            i <= n,
            spec_attrs_ok(e.attrs@),
            spec_decls_ok(e.prefixes@, crate::merge::spec_strset(rp@), true),
            forall|k: int|
                0 <= k < i ==> spec_node_writable(
                    #[trigger] e.children@[k],
                    crate::merge::spec_strset(rp@),
                ),
        decreases n - i,
    {
        match &e.children[i] {
            XmlNode::Elem(c) => {
                if !elem_writable(c, rp) {
                    return false;
                }
            },
            XmlNode::Text(_) => {},
        }
        i = i + 1;
    }
    true
}

/// Whether the writer serializes this tree without aborting: the
/// check `write_root` requires, decided in advance.
pub fn tree_writable(t: &XmlElem) -> (r: bool)
    ensures
        r == spec_tree_writable(*t),
{
    if !attrs_ok(&t.attrs) {
        return false;
    }
    let none_set: Vec<String> = Vec::new();
    proof {
        assert(crate::merge::spec_strset(none_set@) =~= Set::<Seq<char>>::empty());
    }
    if !decls_ok(&t.prefixes, &none_set, false) {
        return false;
    }
    let mut rp: Vec<String> = Vec::new();
    let np = t.prefixes.len();
    let mut i: usize = 0;
    while i < np
        invariant
            np == t.prefixes@.len(),
            i <= np,
            forall|x: Seq<char>|
                #[trigger] crate::merge::spec_strset(rp@).contains(x) <==> exists|k: int|
                    0 <= k < i && ((#[trigger] t.prefixes@[k]).0 matches Some(s) && s@ == x),
        decreases np - i,
    {
        let ghost prior = rp@;
        match &t.prefixes[i].0 {
            Some(p) => {
                rp.push(p.clone());
                proof {
                    assert forall|x: Seq<char>| #[trigger] crate::merge::spec_strset(
                        rp@,
                    ).contains(x) implies exists|k: int|
                        0 <= k < i + 1 && ((#[trigger] t.prefixes@[k]).0 matches Some(s) && s@
                            == x) by {
                        let j = choose|j: int| 0 <= j < rp@.len() && (#[trigger] rp@[j])@ == x;
                        if j < prior.len() {
                            assert(prior[j] == rp@[j]);
                            assert(crate::merge::spec_strset(prior).contains(x));
                        } else {
                            assert(t.prefixes@[i as int].0 matches Some(s) && s@ == x);
                        }
                    }
                    assert forall|x: Seq<char>|
                        exists|k: int|
                            0 <= k < i + 1 && ((#[trigger] t.prefixes@[k]).0 matches Some(s) && s@
                                == x) implies #[trigger] crate::merge::spec_strset(rp@).contains(
                        x,
                    ) by {
                        let k = choose|k: int|
                            0 <= k < i + 1 && ((#[trigger] t.prefixes@[k]).0 matches Some(s) && s@
                                == x);
                        if k < i {
                            assert(crate::merge::spec_strset(prior).contains(x));
                            let j = choose|j: int|
                                0 <= j < prior.len() && (#[trigger] prior[j])@ == x;
                            assert(rp@[j] == prior[j]);
                        } else {
                            assert(rp@[rp@.len() - 1]@ == x);
                        }
                    }
                }
            },
            None => {
                proof {
                    assert forall|x: Seq<char>|
                        exists|k: int|
                            0 <= k < i + 1 && ((#[trigger] t.prefixes@[k]).0 matches Some(s) && s@
                                == x) implies #[trigger] crate::merge::spec_strset(rp@).contains(
                        x,
                    ) by {
                        let k = choose|k: int|
                            0 <= k < i + 1 && ((#[trigger] t.prefixes@[k]).0 matches Some(s) && s@
                                == x);
                        assert(k < i);
                    }
                }
            },
        }
        i = i + 1;
    }
    proof {
        assert(crate::merge::spec_strset(rp@) =~= spec_root_prefix_set(t.prefixes@));
    }
    let n = t.children.len();
    let mut j: usize = 0;
    while j < n
        invariant
            n == t.children@.len(),
            j <= n,
            spec_attrs_ok(t.attrs@),
            spec_decls_ok(t.prefixes@, Set::empty(), false),
            crate::merge::spec_strset(rp@) == spec_root_prefix_set(t.prefixes@),
            forall|k: int|
                0 <= k < j ==> spec_node_writable(
                    #[trigger] t.children@[k],
                    spec_root_prefix_set(t.prefixes@),
                ),
        decreases n - j,
    {
        match &t.children[j] {
            XmlNode::Elem(c) => {
                if !elem_writable(c, &rp) {
                    return false;
                }
            },
            XmlNode::Text(_) => {},
        }
        j = j + 1;
    }
    true
}


/// How an indented tree relates to its source: fields unchanged; an
/// element whose children are all elements gains one text node
/// holding a line break and the child indentation before every
/// child, and one holding the parent indentation after the last,
/// with each child indented one level deeper; every other element is
/// left exactly as it was, so character data never changes.
pub open spec fn spec_indent_related(a: XmlElem, b: XmlElem, pad: Seq<char>, unit: Seq<char>) -> bool
    decreases a,
{
    &&& b.name == a.name
    &&& b.ns == a.ns
    &&& b.attrs == a.attrs
    &&& b.prefixes == a.prefixes
    &&& if a.children@.len() == 0 || (exists|i: int|
        0 <= i < a.children@.len() && (#[trigger] a.children@[i]) is Text) {
        b.children@ == a.children@
    } else {
        &&& b.children@.len() == 2 * a.children@.len() + 1
        &&& forall|i: int|
            0 <= i < a.children@.len() ==> (match #[trigger] b.children@[2 * i] {
                XmlNode::Text(s) => s@ == pad + unit,
                XmlNode::Elem(_) => false,
            })
        &&& forall|i: int|
            0 <= i < a.children@.len() ==> (match (
                #[trigger] a.children@[i],
                b.children@[2 * i + 1],
            ) {
                (XmlNode::Elem(ca), XmlNode::Elem(cb)) => spec_indent_related(
                    ca,
                    cb,
                    pad + unit,
                    unit,
                ),
                _ => false,
            })
        &&& match b.children@[b.children@.len() - 1] {
            XmlNode::Text(s) => s@ == pad,
            XmlNode::Elem(_) => false,
        }
    }
}

/// Indents one element per the relation above.
#[verifier::loop_isolation(false)]
fn indent_elem(e: XmlElem, pad: &String, unit: &String) -> (r: XmlElem)
    ensures
        spec_indent_related(e, r, pad@, unit@),
    decreases e,
{
    let ghost e0 = e;
    let n = e.children.len();
    if n == 0 {
        return e;
    }
    let mut all_elems = true;
    let mut i: usize = 0;
    while i < n
        invariant
            e == e0,
            n == e.children@.len(),
            i <= n,
            all_elems ==> forall|k: int| 0 <= k < i ==> !((#[trigger] e.children@[k]) is Text),
            !all_elems ==> exists|k: int| 0 <= k < n && (#[trigger] e.children@[k]) is Text,
        decreases n - i,
    {
        match &e.children[i] {
            XmlNode::Text(_) => {
                all_elems = false;
            },
            XmlNode::Elem(_) => {},
        }
        i = i + 1;
    }
    if !all_elems {
        return e;
    }
    let mut child_pad = pad.clone();
    child_pad.append(unit.as_str());
    let XmlElem { name, ns, prefixes, attrs, mut children } = e;
    let mut out: Vec<XmlNode> = Vec::new();
    let ghost orig = children@;
    let mut j: usize = 0;
    while j < n
        invariant
            orig == e0.children@,
            n == orig.len(),
            j <= n,
            children@ == orig.skip(j as int),
            child_pad@ == pad@ + unit@,
            forall|k: int| 0 <= k < n ==> !((#[trigger] orig[k]) is Text),
            out@.len() == 2 * j,
            forall|k: int|
                0 <= k < j ==> (match #[trigger] out@[2 * k] {
                    XmlNode::Text(s) => s@ == pad@ + unit@,
                    XmlNode::Elem(_) => false,
                }),
            forall|k: int|
                0 <= k < j ==> (match (#[trigger] orig[k], out@[2 * k + 1]) {
                    (XmlNode::Elem(ca), XmlNode::Elem(cb)) => spec_indent_related(
                        ca,
                        cb,
                        pad@ + unit@,
                        unit@,
                    ),
                    _ => false,
                }),
        decreases n - j,
    {
        let node = children.remove(0);
        proof {
            assert(node == orig[j as int]);
            assert(children@ =~= orig.skip(j as int + 1));
        }
        match node {
            XmlNode::Elem(c) => {
                proof {
                    broadcast use vstd::std_specs::vec::group_vec_axioms;

                    assert(e0.children@[j as int] == XmlNode::Elem(c));
                    assert(decreases_to!(e0 => e0.children));
                    assert(decreases_to!(e0.children => e0.children@));
                    assert(decreases_to!(e0.children@ => e0.children@[j as int]));
                    assert(decreases_to!(e0.children@[j as int] => c));
                }
                out.push(XmlNode::Text(child_pad.clone()));
                let c2 = indent_elem(c, &child_pad, unit);
                out.push(XmlNode::Elem(c2));
            },
            XmlNode::Text(_) => {
                proof {
                    assert(orig[j as int] is Text);
                }
                vstd::pervasive::unreached::<()>();
            },
        }
        j = j + 1;
    }
    out.push(XmlNode::Text(pad.clone()));
    proof {
        assert(out@.len() == 2 * n + 1);
        assert(forall|k: int|
            0 <= k < n ==> #[trigger] out@[2 * k] == out@.drop_last()[2 * k]);
        assert(forall|k: int|
            0 <= k < n ==> #[trigger] out@[2 * k + 1] == out@.drop_last()[2 * k + 1]);
    }
    XmlElem { name, ns, prefixes, attrs, children: out }
}

/// The indentation unit: the indent character repeated to the width.
pub open spec fn spec_indent_unit(c: u8, w: usize) -> Seq<char> {
    Seq::new(w as nat, |k: int| c as char)
}

/// Pretty-prints a tree by inserting line breaks and indentation as
/// text nodes: each tag moves to its own line, one unit deeper than
/// its parent; elements holding character data stay on one line.
pub fn indent_tree(t: XmlElem, c: u8, w: usize) -> (r: XmlElem)
    ensures
        spec_indent_related(t, r, seq!['\n'], spec_indent_unit(c, w)),
{
    let mut padv: Vec<char> = Vec::new();
    padv.push('\n');
    let pad = crate::strutil::string_from_chars(&padv);
    proof {
        assert(pad@ =~= seq!['\n']);
    }
    let mut unitv: Vec<char> = Vec::new();
    let mut k: usize = 0;
    while k < w
        invariant
            k <= w,
            unitv@ == spec_indent_unit(c, w).take(k as int),
        decreases w - k,
    {
        unitv.push(c as char);
        proof {
            assert(unitv@ =~= spec_indent_unit(c, w).take(k as int + 1));
        }
        k = k + 1;
    }
    proof {
        assert(spec_indent_unit(c, w).take(w as int) =~= spec_indent_unit(c, w));
    }
    let unit = crate::strutil::string_from_chars(&unitv);
    indent_elem(t, &pad, &unit)
}

} // verus!
