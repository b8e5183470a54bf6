//! The in-memory RDF/XML element tree that the mapper works on: local
//! name, namespace URI, namespace-prefix declarations, attributes under
//! their literal qualified names, and the ordered child nodes.
//!
//! Attribute and child lookups follow first-match order, and every
//! mutation states exactly which part of the element changed; a write
//! that would store what is already there leaves the element untouched,
//! so an unchanged document stays identical value-for-value.

use vstd::prelude::*;

use crate::strutil::str_eq;

verus! {

/// One XML element.
pub struct XmlElem {
    /// The local name, without any prefix.
    pub name: String,
    /// The namespace URI this element lives in.
    pub ns: String,
    /// Namespace declarations made on this element:
    /// `(None, uri)` declares the default namespace.
    pub prefixes: Vec<(Option<String>, String)>,
    /// Attributes, under their literal qualified names, in document order.
    pub attrs: Vec<(String, String)>,
    /// Child nodes, in document order.
    pub children: Vec<XmlNode>,
}

/// One child node: an element or a run of character data.
pub enum XmlNode {
    Elem(XmlElem),
    Text(String),
}

/// The first position whose attribute name reads `name`, if any.
pub open spec fn spec_attr_pos(attrs: Seq<(String, String)>, name: Seq<char>) -> Option<int>
    decreases attrs.len(),
{
    if attrs.len() == 0 {
        None
    } else if attrs[0].0@ == name {
        Some(0)
    } else {
        match spec_attr_pos(attrs.drop_first(), name) {
            Some(i) => Some(i + 1),
            None => None,
        }
    }
}

/// The value of the first attribute called `name`, if any.
pub open spec fn spec_attr(attrs: Seq<(String, String)>, name: Seq<char>) -> Option<Seq<char>> {
    match spec_attr_pos(attrs, name) {
        Some(i) => Some(attrs[i].1@),
        None => None,
    }
}

/// What `spec_attr_pos` finds: a position in range naming `name`, with
/// no earlier position naming it; or nothing, when no position does.
pub proof fn lemma_attr_pos(attrs: Seq<(String, String)>, name: Seq<char>)
    ensures
        match spec_attr_pos(attrs, name) {
            Some(i) => 0 <= i < attrs.len() && attrs[i].0@ == name && forall|j: int|
                0 <= j < i ==> (#[trigger] attrs[j].0@) != name,
            None => forall|j: int| 0 <= j < attrs.len() ==> (#[trigger] attrs[j].0@) != name,
        },
    decreases attrs.len(),
{
    if attrs.len() > 0 {
        lemma_attr_pos(attrs.drop_first(), name);
        assert(forall|j: int|
            1 <= j < attrs.len() ==> #[trigger] attrs[j] == attrs.drop_first()[j - 1]);
    }
}

/// A position that names `name` with no earlier one naming it is the
/// position that `spec_attr_pos` finds.
pub proof fn lemma_attr_pos_witness(attrs: Seq<(String, String)>, name: Seq<char>, i: int)
    requires
        0 <= i < attrs.len(),
        attrs[i].0@ == name,
        forall|j: int| 0 <= j < i ==> (#[trigger] attrs[j].0@) != name,
    ensures
        spec_attr_pos(attrs, name) == Some(i),
    decreases attrs.len(),
{
    if i > 0 {
        lemma_attr_pos_witness(attrs.drop_first(), name, i - 1);
        assert(forall|j: int|
            1 <= j < attrs.len() ==> #[trigger] attrs[j] == attrs.drop_first()[j - 1]);
    }
}

impl XmlElem {
    /// A fresh element with the given local name and namespace and
    /// nothing else.
    pub fn bare(name: String, ns: String) -> (r: XmlElem)
        ensures
            r.name == name,
            r.ns == ns,
            r.prefixes@ == Seq::<(Option<String>, String)>::empty(),
            r.attrs@ == Seq::<(String, String)>::empty(),
            r.children@ == Seq::<XmlNode>::empty(),
    {
        XmlElem {
            name,
            ns,
            prefixes: Vec::new(),
            attrs: Vec::new(),
            children: Vec::new(),
        }
    }

    /// The value of the attribute with this literal qualified name.
    pub fn get_attr(&self, name: &str) -> (r: Option<&String>)
        ensures
            match r {
                Some(v) => spec_attr(self.attrs@, name@) == Some(v@),
                None => spec_attr(self.attrs@, name@) is None,
            },
    {
        let n = self.attrs.len();
        let mut i: usize = 0;
        while i < n
            invariant
                n == self.attrs@.len(),
                i <= n,
                forall|j: int| 0 <= j < i ==> (#[trigger] self.attrs@[j].0@) != name@,
            decreases n - i,
        {
            if str_eq(self.attrs[i].0.as_str(), name) {
                proof {
                    lemma_attr_pos_witness(self.attrs@, name@, i as int);
                }
                return Some(&self.attrs[i].1);
            }
            i = i + 1;
        }
        proof {
            lemma_attr_pos(self.attrs@, name@);
        }
        None
    }

    /// Sets the attribute `name` to `value`: the first attribute of that
    /// name is overwritten, or a new one is appended. Every other
    /// attribute keeps its value, and storing what is already there
    /// leaves the element untouched.
    pub fn set_attr(&mut self, name: &str, value: String)
        ensures
            spec_attr(final(self).attrs@, name@) == Some(value@),
            forall|m: Seq<char>|
                m != name@ ==> #[trigger] spec_attr(final(self).attrs@, m) == spec_attr(
                    old(self).attrs@,
                    m,
                ),
            spec_attr(old(self).attrs@, name@) == Some(value@) ==> *final(self) == *old(self),
            final(self).name == old(self).name,
            final(self).ns == old(self).ns,
            final(self).prefixes == old(self).prefixes,
            final(self).children == old(self).children,
    {
        let n = self.attrs.len();
        let mut i: usize = 0;
        while i < n
            invariant
                *self == *old(self),
                n == self.attrs@.len(),
                i <= n,
                forall|j: int| 0 <= j < i ==> (#[trigger] self.attrs@[j].0@) != name@,
            decreases n - i,
        {
            if str_eq(self.attrs[i].0.as_str(), name) {
                proof {
                    lemma_attr_pos_witness(self.attrs@, name@, i as int);
                }
                if str_eq(self.attrs[i].1.as_str(), value.as_str()) {
                    return ;
                }
                let key = self.attrs[i].0.clone();
                let ghost prior = self.attrs@;
                self.attrs.set(i, (key, value));
                proof {
                    lemma_attr_pos_witness(self.attrs@, name@, i as int);
                    assert forall|m: Seq<char>| m != name@ implies #[trigger] spec_attr(
                        self.attrs@,
                        m,
                    ) == spec_attr(prior, m) by {
                        lemma_attr_pos(prior, m);
                        lemma_attr_pos(self.attrs@, m);
                        match spec_attr_pos(prior, m) {
                            Some(k) => {
                                lemma_attr_pos_witness(self.attrs@, m, k);
                            },
                            None => {
                                lemma_attr_pos(self.attrs@, m);
                            },
                        }
                    }
                }
                return ;
            }
            i = i + 1;
        }
        proof {
            lemma_attr_pos(self.attrs@, name@);
        }
        let key = name.to_owned();
        let ghost prior = self.attrs@;
        self.attrs.push((key, value));
        proof {
            lemma_attr_pos_witness(self.attrs@, name@, prior.len() as int);
            assert forall|m: Seq<char>| m != name@ implies #[trigger] spec_attr(self.attrs@, m)
                == spec_attr(prior, m) by {
                lemma_attr_pos(prior, m);
                match spec_attr_pos(prior, m) {
                    Some(k) => {
                        lemma_attr_pos_witness(self.attrs@, m, k);
                    },
                    None => {
                        lemma_attr_pos(self.attrs@, m);
                    },
                }
            }
        }
    }
}


/// Whether this node is an element with the given name and namespace.
pub open spec fn spec_node_is(n: XmlNode, name: Seq<char>, ns: Seq<char>) -> bool {
    n matches XmlNode::Elem(e) && e.name@ == name && e.ns@ == ns
}

/// The first position holding a child element with this name and
/// namespace, if any.
pub open spec fn spec_child_pos(children: Seq<XmlNode>, name: Seq<char>, ns: Seq<char>) -> Option<
    int,
>
    decreases children.len(),
{
    if children.len() == 0 {
        None
    } else if spec_node_is(children[0], name, ns) {
        Some(0)
    } else {
        match spec_child_pos(children.drop_first(), name, ns) {
            Some(i) => Some(i + 1),
            None => None,
        }
    }
}

/// The first child element with this name and namespace, if any.
pub open spec fn spec_child(children: Seq<XmlNode>, name: Seq<char>, ns: Seq<char>) -> Option<
    XmlElem,
> {
    match spec_child_pos(children, name, ns) {
        Some(i) => match children[i] {
            XmlNode::Elem(e) => Some(e),
            XmlNode::Text(_) => None,
        },
        None => None,
    }
}

/// What `spec_child_pos` finds: a matching position with no earlier
/// match, or nothing when no position matches.
pub proof fn lemma_child_pos(children: Seq<XmlNode>, name: Seq<char>, ns: Seq<char>)
    ensures
        match spec_child_pos(children, name, ns) {
            Some(i) => 0 <= i < children.len() && spec_node_is(children[i], name, ns) && forall|
                j: int,
            | 0 <= j < i ==> !spec_node_is(#[trigger] children[j], name, ns),
            None => forall|j: int|
                0 <= j < children.len() ==> !spec_node_is(#[trigger] children[j], name, ns),
        },
    decreases children.len(),
{
    if children.len() > 0 {
        lemma_child_pos(children.drop_first(), name, ns);
        assert(forall|j: int|
            1 <= j < children.len() ==> #[trigger] children[j] == children.drop_first()[j - 1]);
    }
}

/// A matching position with no earlier match is the position that
/// `spec_child_pos` finds.
pub proof fn lemma_child_pos_witness(
    children: Seq<XmlNode>,
    name: Seq<char>,
    ns: Seq<char>,
    i: int,
)
    requires
        0 <= i < children.len(),
        spec_node_is(children[i], name, ns),
        forall|j: int| 0 <= j < i ==> !spec_node_is(#[trigger] children[j], name, ns),
    ensures
        spec_child_pos(children, name, ns) == Some(i),
    decreases children.len(),
{
    if i > 0 {
        lemma_child_pos_witness(children.drop_first(), name, ns, i - 1);
        assert(forall|j: int|
            1 <= j < children.len() ==> #[trigger] children[j] == children.drop_first()[j - 1]);
    }
}

/// The concatenated character data of a node list, elements skipped.
pub open spec fn spec_texts(children: Seq<XmlNode>) -> Seq<char>
    decreases children.len(),
{
    if children.len() == 0 {
        Seq::empty()
    } else {
        (match children[0] {
            XmlNode::Text(s) => s@,
            XmlNode::Elem(_) => Seq::empty(),
        }) + spec_texts(children.drop_first())
    }
}

/// The texts of all child elements of a node list, in order.
pub open spec fn spec_child_texts(children: Seq<XmlNode>) -> Seq<Seq<char>>
    decreases children.len(),
{
    if children.len() == 0 {
        Seq::empty()
    } else {
        match children[0] {
            XmlNode::Elem(e) => seq![e.spec_text()] + spec_child_texts(children.drop_first()),
            XmlNode::Text(_) => spec_child_texts(children.drop_first()),
        }
    }
}

/// The texts of the child elements with this name and namespace.
pub open spec fn spec_named_child_texts(
    children: Seq<XmlNode>,
    name: Seq<char>,
    ns: Seq<char>,
) -> Seq<Seq<char>>
    decreases children.len(),
{
    if children.len() == 0 {
        Seq::empty()
    } else {
        if spec_node_is(children[0], name, ns) {
            seq![
                (match children[0] {
                    XmlNode::Elem(e) => e.spec_text(),
                    XmlNode::Text(_) => Seq::empty(),
                }),
            ] + spec_named_child_texts(children.drop_first(), name, ns)
        } else {
            spec_named_child_texts(children.drop_first(), name, ns)
        }
    }
}

/// The namespace bound to a prefix by a declaration list; the key
/// `None` stands for the default namespace.
pub open spec fn spec_prefix_pos(
    prefixes: Seq<(Option<String>, String)>,
    key: Option<Seq<char>>,
) -> Option<int>
    decreases prefixes.len(),
{
    if prefixes.len() == 0 {
        None
    } else if spec_prefix_key(prefixes[0].0) == key {
        Some(0)
    } else {
        match spec_prefix_pos(prefixes.drop_first(), key) {
            Some(i) => Some(i + 1),
            None => None,
        }
    }
}

/// The view of a prefix key.
pub open spec fn spec_prefix_key(k: Option<String>) -> Option<Seq<char>> {
    match k {
        Some(s) => Some(s@),
        None => None,
    }
}

/// The namespace a declaration list binds this prefix to, if any.
pub open spec fn spec_prefix(
    prefixes: Seq<(Option<String>, String)>,
    key: Option<Seq<char>>,
) -> Option<Seq<char>> {
    match spec_prefix_pos(prefixes, key) {
        Some(i) => Some(prefixes[i].1@),
        None => None,
    }
}

/// What `spec_prefix_pos` finds, stated as for the attribute lookup.
pub proof fn lemma_prefix_pos(prefixes: Seq<(Option<String>, String)>, key: Option<Seq<char>>)
    ensures
        match spec_prefix_pos(prefixes, key) {
            Some(i) => 0 <= i < prefixes.len() && spec_prefix_key(prefixes[i].0) == key && forall|
                j: int,
            | 0 <= j < i ==> spec_prefix_key(#[trigger] prefixes[j].0) != key,
            None => forall|j: int|
                0 <= j < prefixes.len() ==> spec_prefix_key(#[trigger] prefixes[j].0) != key,
        },
    decreases prefixes.len(),
{
    if prefixes.len() > 0 {
        lemma_prefix_pos(prefixes.drop_first(), key);
        assert(forall|j: int|
            1 <= j < prefixes.len() ==> #[trigger] prefixes[j] == prefixes.drop_first()[j - 1]);
    }
}

/// The witness direction of `lemma_prefix_pos`.
pub proof fn lemma_prefix_pos_witness(
    prefixes: Seq<(Option<String>, String)>,
    key: Option<Seq<char>>,
    i: int,
)
    requires
        0 <= i < prefixes.len(),
        spec_prefix_key(prefixes[i].0) == key,
        forall|j: int| 0 <= j < i ==> spec_prefix_key(#[trigger] prefixes[j].0) != key,
    ensures
        spec_prefix_pos(prefixes, key) == Some(i),
    decreases prefixes.len(),
{
    if i > 0 {
        lemma_prefix_pos_witness(prefixes.drop_first(), key, i - 1);
        assert(forall|j: int|
            1 <= j < prefixes.len() ==> #[trigger] prefixes[j] == prefixes.drop_first()[j - 1]);
    }
}

impl XmlElem {
    /// The concatenated character data directly under this element.
    pub open spec fn spec_text(self) -> Seq<char> {
        spec_texts(self.children@)
    }

    /// The concatenated character data directly under this element.
    pub fn text(&self) -> (r: String)
        ensures
            r@ == self.spec_text(),
    {
        let n = self.children.len();
        let mut out = String::new();
        let mut i: usize = 0;
        proof {
            assert(self.children@.skip(0) =~= self.children@);
            assert(out@ + spec_texts(self.children@) =~= spec_texts(self.children@));
        }
        while i < n
            invariant
                n == self.children@.len(),
                i <= n,
                spec_texts(self.children@) == out@ + spec_texts(self.children@.skip(i as int)),
            decreases n - i,
        {
            proof {
                assert(self.children@.skip(i as int).drop_first() =~= self.children@.skip(
                    i as int + 1,
                ));
                assert(self.children@.skip(i as int)[0] == self.children@[i as int]);
            }
            match &self.children[i] {
                XmlNode::Text(s) => {
                    out.append(s.as_str());
                },
                XmlNode::Elem(_) => {},
            }
            proof {
                assert(out@ + spec_texts(self.children@.skip(i as int + 1)) == spec_texts(
                    self.children@,
                ));
            }
            i = i + 1;
        }
        proof {
            assert(self.children@.skip(n as int) =~= Seq::<XmlNode>::empty());
            assert(out@ + Seq::<char>::empty() =~= out@);
        }
        out
    }

    /// The position of the first child element with this name and
    /// namespace.
    pub fn find_child(&self, name: &str, ns: &str) -> (r: Option<usize>)
        ensures
            match r {
                Some(i) => spec_child_pos(self.children@, name@, ns@) == Some(i as int),
                None => spec_child_pos(self.children@, name@, ns@) is None,
            },
    {
        let n = self.children.len();
        let mut i: usize = 0;
        while i < n
            invariant
                n == self.children@.len(),
                i <= n,
                forall|j: int|
                    0 <= j < i ==> !spec_node_is(#[trigger] self.children@[j], name@, ns@),
            decreases n - i,
        {
            match &self.children[i] {
                XmlNode::Elem(e) => {
                    if str_eq(e.name.as_str(), name) && str_eq(e.ns.as_str(), ns) {
                        proof {
                            lemma_child_pos_witness(self.children@, name@, ns@, i as int);
                        }
                        return Some(i);
                    }
                },
                XmlNode::Text(_) => {},
            }
            i = i + 1;
        }
        proof {
            lemma_child_pos(self.children@, name@, ns@);
        }
        None
    }

    /// The first child element with this name and namespace, if any.
    pub fn get_child(&self, name: &str, ns: &str) -> (r: Option<&XmlElem>)
        ensures
            match r {
                Some(e) => spec_child(self.children@, name@, ns@) == Some(*e),
                None => spec_child(self.children@, name@, ns@) is None,
            },
    {
        proof {
            lemma_child_pos(self.children@, name@, ns@);
        }
        match self.find_child(name, ns) {
            Some(i) => match &self.children[i] {
                XmlNode::Elem(e) => Some(e),
                XmlNode::Text(_) => {
                    proof {
                        lemma_child_pos(self.children@, name@, ns@);
                    }
                    vstd::pervasive::unreached()
                },
            },
            None => None,
        }
    }

    /// True when a child element with this name and namespace exists.
    pub fn has_child(&self, name: &str, ns: &str) -> (r: bool)
        ensures
            r == (spec_child_pos(self.children@, name@, ns@) is Some),
    {
        self.find_child(name, ns).is_some()
    }

    /// The element child at position `i`.
    pub fn child_at(&self, i: usize) -> (r: &XmlElem)
        requires
            i < self.children@.len(),
            self.children@[i as int] is Elem,
        ensures
            self.children@[i as int] == XmlNode::Elem(*r),
    {
        match &self.children[i] {
            XmlNode::Elem(e) => e,
            XmlNode::Text(_) => vstd::pervasive::unreached(),
        }
    }

    /// Removes the child at position `i`, which must be an element,
    /// and hands it out; the other children keep their order.
    pub fn take_child_at(&mut self, i: usize) -> (r: XmlElem)
        requires
            i < old(self).children@.len(),
            old(self).children@[i as int] is Elem,
        ensures
            old(self).children@[i as int] == XmlNode::Elem(r),
            final(self).children@ == old(self).children@.remove(i as int),
            final(self).name == old(self).name,
            final(self).ns == old(self).ns,
            final(self).prefixes == old(self).prefixes,
            final(self).attrs == old(self).attrs,
    {
        let node = self.children.remove(i);
        match node {
            XmlNode::Elem(e) => e,
            XmlNode::Text(_) => vstd::pervasive::unreached(),
        }
    }

    /// Inserts an element child at position `i`; later children shift
    /// one place to the right.
    pub fn insert_child_at(&mut self, i: usize, child: XmlElem)
        requires
            i <= old(self).children@.len(),
        ensures
            final(self).children@ == old(self).children@.insert(i as int, XmlNode::Elem(child)),
            final(self).name == old(self).name,
            final(self).ns == old(self).ns,
            final(self).prefixes == old(self).prefixes,
            final(self).attrs == old(self).attrs,
    {
        self.children.insert(i, XmlNode::Elem(child));
    }

    /// Appends an element child.
    pub fn append_child(&mut self, child: XmlElem)
        ensures
            final(self).children@ == old(self).children@.push(XmlNode::Elem(child)),
            final(self).name == old(self).name,
            final(self).ns == old(self).ns,
            final(self).prefixes == old(self).prefixes,
            final(self).attrs == old(self).attrs,
    {
        self.children.push(XmlNode::Elem(child));
    }

    /// Appends a text node.
    pub fn append_text(&mut self, text: String)
        ensures
            final(self).children@ == old(self).children@.push(XmlNode::Text(text)),
            final(self).name == old(self).name,
            final(self).ns == old(self).ns,
            final(self).prefixes == old(self).prefixes,
            final(self).attrs == old(self).attrs,
    {
        self.children.push(XmlNode::Text(text));
    }

    /// Removes the first child element with this name and namespace,
    /// if one exists, and hands it out.
    pub fn remove_child(&mut self, name: &str, ns: &str) -> (r: Option<XmlElem>)
        ensures
            match spec_child_pos(old(self).children@, name@, ns@) {
                Some(i) => r matches Some(e) && old(self).children@[i] == XmlNode::Elem(e)
                    && final(self).children@ == old(self).children@.remove(i),
                None => r is None && *final(self) == *old(self),
            },
            final(self).name == old(self).name,
            final(self).ns == old(self).ns,
            final(self).prefixes == old(self).prefixes,
            final(self).attrs == old(self).attrs,
    {
        proof {
            lemma_child_pos(self.children@, name@, ns@);
        }
        match self.find_child(name, ns) {
            Some(i) => Some(self.take_child_at(i)),
            None => None,
        }
    }

    /// The texts of all child elements, in order.
    pub fn child_texts(&self) -> (r: Vec<String>)
        ensures
            r@.map_values(|s: String| s@) == spec_child_texts(self.children@),
    {
        let n = self.children.len();
        let mut out: Vec<String> = Vec::new();
        let mut i: usize = 0;
        proof {
            assert(self.children@.skip(0) =~= self.children@);
            assert(out@.map_values(|s: String| s@) =~= Seq::<Seq<char>>::empty());
            assert(out@.map_values(|s: String| s@) + spec_child_texts(self.children@)
                =~= spec_child_texts(self.children@));
        }
        while i < n
            invariant
                n == self.children@.len(),
                i <= n,
                spec_child_texts(self.children@) == out@.map_values(|s: String| s@)
                    + spec_child_texts(self.children@.skip(i as int)),
            decreases n - i,
        {
            proof {
                assert(self.children@.skip(i as int).drop_first() =~= self.children@.skip(
                    i as int + 1,
                ));
                assert(self.children@.skip(i as int)[0] == self.children@[i as int]);
            }
            match &self.children[i] {
                XmlNode::Elem(e) => {
                    let ghost prior = out@;
                    let t = e.text();
                    out.push(t);
                    proof {
                        assert(out@.map_values(|s: String| s@) =~= prior.map_values(
                            |s: String| s@,
                        ).push(t@));
                        assert(prior.map_values(|s: String| s@).push(t@) =~= prior.map_values(
                            |s: String| s@,
                        ) + seq![t@]);
                        assert((prior.map_values(|s: String| s@) + seq![t@]) + spec_child_texts(
                            self.children@.skip(i as int + 1),
                        ) =~= prior.map_values(|s: String| s@) + (seq![t@] + spec_child_texts(
                            self.children@.skip(i as int + 1),
                        )));
                        assert(seq![t@] =~= seq![e.spec_text()]);
                    }
                },
                XmlNode::Text(_) => {},
            }
            i = i + 1;
        }
        proof {
            assert(self.children@.skip(n as int) =~= Seq::<XmlNode>::empty());
            assert(out@.map_values(|s: String| s@) + Seq::<Seq<char>>::empty() =~= out@.map_values(
                |s: String| s@,
            ));
        }
        out
    }

    /// The texts of the child elements with this name and namespace.
    pub fn named_child_texts(&self, name: &str, ns: &str) -> (r: Vec<String>)
        ensures
            r@.map_values(|s: String| s@) == spec_named_child_texts(self.children@, name@, ns@),
    {
        let n = self.children.len();
        let mut out: Vec<String> = Vec::new();
        let mut i: usize = 0;
        proof {
            assert(self.children@.skip(0) =~= self.children@);
            assert(out@.map_values(|s: String| s@) =~= Seq::<Seq<char>>::empty());
            assert(out@.map_values(|s: String| s@) + spec_named_child_texts(
                self.children@,
                name@,
                ns@,
            ) =~= spec_named_child_texts(self.children@, name@, ns@));
        }
        while i < n
            invariant
                n == self.children@.len(),
                i <= n,
                spec_named_child_texts(self.children@, name@, ns@) == out@.map_values(
                    |s: String| s@,
                ) + spec_named_child_texts(self.children@.skip(i as int), name@, ns@),
            decreases n - i,
        {
            proof {
                assert(self.children@.skip(i as int).drop_first() =~= self.children@.skip(
                    i as int + 1,
                ));
                assert(self.children@.skip(i as int)[0] == self.children@[i as int]);
            }
            match &self.children[i] {
                XmlNode::Elem(e) => {
                    if str_eq(e.name.as_str(), name) && str_eq(e.ns.as_str(), ns) {
                        let ghost prior = out@;
                        let t = e.text();
                        out.push(t);
                        proof {
                            assert(out@.map_values(|s: String| s@) =~= prior.map_values(
                                |s: String| s@,
                            ) + seq![t@]);
                            assert((prior.map_values(|s: String| s@) + seq![t@])
                                + spec_named_child_texts(
                                self.children@.skip(i as int + 1),
                                name@,
                                ns@,
                            ) =~= prior.map_values(|s: String| s@) + (seq![t@]
                                + spec_named_child_texts(
                                self.children@.skip(i as int + 1),
                                name@,
                                ns@,
                            )));
                            assert(seq![t@] =~= seq![e.spec_text()]);
                        }
                    }
                },
                XmlNode::Text(_) => {},
            }
            i = i + 1;
        }
        proof {
            assert(self.children@.skip(n as int) =~= Seq::<XmlNode>::empty());
            assert(out@.map_values(|s: String| s@) + Seq::<Seq<char>>::empty() =~= out@.map_values(
                |s: String| s@,
            ));
        }
        out
    }

    /// Declares that `prefix` names `uri` on this element: an existing
    /// declaration of the prefix is overwritten, or a new one appended.
    /// Every other declaration stays, and redeclaring what is already
    /// declared leaves the element untouched.
    pub fn set_prefix(&mut self, prefix: &str, uri: &str)
        ensures
            spec_prefix(final(self).prefixes@, Some(prefix@)) == Some(uri@),
            forall|k: Option<Seq<char>>|
                k != Some(prefix@) ==> #[trigger] spec_prefix(final(self).prefixes@, k)
                    == spec_prefix(old(self).prefixes@, k),
            spec_prefix(old(self).prefixes@, Some(prefix@)) == Some(uri@) ==> *final(self) == *old(
                self,
            ),
            final(self).name == old(self).name,
            final(self).ns == old(self).ns,
            final(self).attrs == old(self).attrs,
            final(self).children == old(self).children,
    {
        let n = self.prefixes.len();
        let mut i: usize = 0;
        while i < n
            invariant
                *self == *old(self),
                n == self.prefixes@.len(),
                i <= n,
                forall|j: int|
                    0 <= j < i ==> spec_prefix_key(#[trigger] self.prefixes@[j].0) != Some(
                        prefix@,
                    ),
            decreases n - i,
        {
            let hit = match &self.prefixes[i].0 {
                Some(p) => str_eq(p.as_str(), prefix),
                None => false,
            };
            if hit {
                proof {
                    lemma_prefix_pos_witness(self.prefixes@, Some(prefix@), i as int);
                }
                if str_eq(self.prefixes[i].1.as_str(), uri) {
                    return ;
                }
                let key = self.prefixes[i].0.clone();
                let ghost prior = self.prefixes@;
                self.prefixes.set(i, (key, uri.to_owned()));
                proof {
                    assert(spec_prefix_key(self.prefixes@[i as int].0) == Some(prefix@));
                    lemma_prefix_pos_witness(self.prefixes@, Some(prefix@), i as int);
                    assert forall|k: Option<Seq<char>>| k != Some(prefix@) implies #[trigger] spec_prefix(
                        self.prefixes@,
                        k,
                    ) == spec_prefix(prior, k) by {
                        lemma_prefix_pos(prior, k);
                        match spec_prefix_pos(prior, k) {
                            Some(m) => {
                                lemma_prefix_pos_witness(self.prefixes@, k, m);
                            },
                            None => {
                                lemma_prefix_pos(self.prefixes@, k);
                            },
                        }
                    }
                }
                return ;
            }
            i = i + 1;
        }
        proof {
            lemma_prefix_pos(self.prefixes@, Some(prefix@));
        }
        let ghost prior = self.prefixes@;
        self.prefixes.push((Some(prefix.to_owned()), uri.to_owned()));
        proof {
            assert(spec_prefix_key(self.prefixes@[prior.len() as int].0) == Some(prefix@));
            lemma_prefix_pos_witness(self.prefixes@, Some(prefix@), prior.len() as int);
            assert forall|k: Option<Seq<char>>| k != Some(prefix@) implies #[trigger] spec_prefix(
                self.prefixes@,
                k,
            ) == spec_prefix(prior, k) by {
                lemma_prefix_pos(prior, k);
                match spec_prefix_pos(prior, k) {
                    Some(m) => {
                        lemma_prefix_pos_witness(self.prefixes@, k, m);
                    },
                    None => {
                        lemma_prefix_pos(self.prefixes@, k);
                    },
                }
            }
        }
    }
}


/// Appending an element child appends its text to the child-text list.
pub proof fn lemma_child_texts_push(children: Seq<XmlNode>, e: XmlElem)
    ensures
        spec_child_texts(children.push(XmlNode::Elem(e))) == spec_child_texts(children).push(
            e.spec_text(),
        ),
    decreases children.len(),
{
    if children.len() == 0 {
        assert(children.push(XmlNode::Elem(e)).drop_first() =~= children);
        assert(children.push(XmlNode::Elem(e))[0] == XmlNode::Elem(e));
        assert(spec_child_texts(children.push(XmlNode::Elem(e))) == seq![e.spec_text()]
            + spec_child_texts(children));
        assert(seq![e.spec_text()] + spec_child_texts(children) =~= spec_child_texts(
            children,
        ).push(e.spec_text()));
    } else {
        lemma_child_texts_push(children.drop_first(), e);
        assert(children.push(XmlNode::Elem(e)).drop_first() =~= children.drop_first().push(
            XmlNode::Elem(e),
        ));
        assert(children.push(XmlNode::Elem(e))[0] == children[0]);
        match children[0] {
            XmlNode::Elem(c) => {
                assert(spec_child_texts(children.push(XmlNode::Elem(e))) =~= seq![c.spec_text()]
                    + spec_child_texts(children.drop_first()).push(e.spec_text()));
                assert(seq![c.spec_text()] + spec_child_texts(children.drop_first()).push(
                    e.spec_text(),
                ) =~= (seq![c.spec_text()] + spec_child_texts(children.drop_first())).push(
                    e.spec_text(),
                ));
            },
            XmlNode::Text(_) => {},
        }
    }
}

/// The same, for the name-filtered text list.
pub proof fn lemma_named_child_texts_push(
    children: Seq<XmlNode>,
    e: XmlElem,
    name: Seq<char>,
    ns: Seq<char>,
)
    ensures
        spec_named_child_texts(children.push(XmlNode::Elem(e)), name, ns) == if e.name@ == name
            && e.ns@ == ns {
            spec_named_child_texts(children, name, ns).push(e.spec_text())
        } else {
            spec_named_child_texts(children, name, ns)
        },
    decreases children.len(),
{
    let x = XmlNode::Elem(e);
    if children.len() == 0 {
        assert(children.push(x).drop_first() =~= children);
        assert(children.push(x)[0] == x);
        if e.name@ == name && e.ns@ == ns {
            assert(spec_named_child_texts(children.push(x), name, ns) == seq![e.spec_text()]
                + spec_named_child_texts(children, name, ns));
            assert(seq![e.spec_text()] + spec_named_child_texts(children, name, ns)
                =~= spec_named_child_texts(children, name, ns).push(e.spec_text()));
        }
    } else {
        lemma_named_child_texts_push(children.drop_first(), e, name, ns);
        assert(children.push(x).drop_first() =~= children.drop_first().push(x));
        assert(children.push(x)[0] == children[0]);
        if spec_node_is(children[0], name, ns) {
            let h = match children[0] {
                XmlNode::Elem(c) => c.spec_text(),
                XmlNode::Text(_) => Seq::empty(),
            };
            if e.name@ == name && e.ns@ == ns {
                assert(seq![h] + spec_named_child_texts(children.drop_first(), name, ns).push(
                    e.spec_text(),
                ) =~= (seq![h] + spec_named_child_texts(children.drop_first(), name, ns)).push(
                    e.spec_text(),
                ));
            }
        }
    }
}

/// Looking up one name is unmoved by removing a child of another name.
pub proof fn lemma_child_remove_other(children: Seq<XmlNode>, i: int, n: Seq<char>, ns: Seq<char>)
    requires
        0 <= i < children.len(),
        !spec_node_is(children[i], n, ns),
    ensures
        spec_child_pos(children.remove(i), n, ns) == match spec_child_pos(children, n, ns) {
            Some(p) => if p < i {
                Some(p)
            } else {
                Some(p - 1)
            },
            None => None::<int>,
        },
        spec_child(children.remove(i), n, ns) == spec_child(children, n, ns),
    decreases children.len(),
{
    lemma_child_pos(children, n, ns);
    lemma_child_pos(children.remove(i), n, ns);
    if i == 0 {
        assert(children.remove(0) =~= children.drop_first());
        match spec_child_pos(children, n, ns) {
            Some(p) => {
                assert(p != 0);
                lemma_child_pos_witness(children.drop_first(), n, ns, p - 1);
            },
            None => {
                match spec_child_pos(children.drop_first(), n, ns) {
                    Some(q) => {
                        assert(spec_node_is(children.drop_first()[q], n, ns));
                        assert(children.drop_first()[q] == children[q + 1]);
                    },
                    None => {},
                }
            },
        }
    } else {
        assert(children.remove(i).drop_first() =~= children.drop_first().remove(i - 1));
        assert(children.remove(i)[0] == children[0]);
        if spec_node_is(children[0], n, ns) {
        } else {
            lemma_child_remove_other(children.drop_first(), i - 1, n, ns);
        }
    }
}

/// Looking up one name is unmoved by appending a child of another
/// name, and finds an appended child of its own name when none was
/// there.
pub proof fn lemma_child_push(children: Seq<XmlNode>, e: XmlElem, n: Seq<char>, ns: Seq<char>)
    ensures
        spec_child_pos(children, n, ns) matches Some(p) ==> spec_child_pos(
            children.push(XmlNode::Elem(e)),
            n,
            ns,
        ) == Some(p) && spec_child(children.push(XmlNode::Elem(e)), n, ns) == spec_child(
            children,
            n,
            ns,
        ),
        spec_child_pos(children, n, ns) is None && (e.name@ == n && e.ns@ == ns)
            ==> spec_child(children.push(XmlNode::Elem(e)), n, ns) == Some(e),
        spec_child_pos(children, n, ns) is None && !(e.name@ == n && e.ns@ == ns)
            ==> spec_child_pos(children.push(XmlNode::Elem(e)), n, ns) is None,
{
    let c2 = children.push(XmlNode::Elem(e));
    lemma_child_pos(children, n, ns);
    match spec_child_pos(children, n, ns) {
        Some(p) => {
            assert(c2[p] == children[p]);
            assert(forall|j: int| 0 <= j < p ==> c2[j] == #[trigger] children[j]);
            lemma_child_pos_witness(c2, n, ns, p);
        },
        None => {
            if e.name@ == n && e.ns@ == ns {
                assert(spec_node_is(c2[children.len() as int], n, ns));
                assert(forall|j: int|
                    0 <= j < children.len() ==> c2[j] == #[trigger] children[j]);
                lemma_child_pos_witness(c2, n, ns, children.len() as int);
            } else {
                lemma_child_pos(c2, n, ns);
                match spec_child_pos(c2, n, ns) {
                    Some(q) => {
                        assert(spec_node_is(c2[q], n, ns));
                        if q < children.len() {
                            assert(c2[q] == children[q]);
                        }
                    },
                    None => {},
                }
            }
        },
    }
}

/// Two child lists that agree on which positions match a name, and on
/// the nodes at matching positions, give the same lookup for it.
pub proof fn lemma_child_congruence(c1: Seq<XmlNode>, c2: Seq<XmlNode>, n: Seq<char>, ns: Seq<char>)
    requires
        c1.len() == c2.len(),
        forall|j: int|
            0 <= j < c1.len() ==> (spec_node_is(#[trigger] c1[j], n, ns) == spec_node_is(
                #[trigger] c2[j],
                n,
                ns,
            ) && (spec_node_is(c1[j], n, ns) ==> c1[j] == c2[j])),
    ensures
        spec_child_pos(c1, n, ns) == spec_child_pos(c2, n, ns),
        spec_child(c1, n, ns) == spec_child(c2, n, ns),
{
    lemma_child_pos(c1, n, ns);
    lemma_child_pos(c2, n, ns);
    match spec_child_pos(c1, n, ns) {
        Some(p) => {
            assert(spec_node_is(c2[p], n, ns));
            assert forall|j: int| 0 <= j < p implies !spec_node_is(#[trigger] c2[j], n, ns) by {
                assert(!spec_node_is(c1[j], n, ns));
            }
            lemma_child_pos_witness(c2, n, ns, p);
            assert(c1[p] == c2[p]);
        },
        None => {
            match spec_child_pos(c2, n, ns) {
                Some(q) => {
                    assert(spec_node_is(c2[q], n, ns));
                    assert(spec_node_is(c1[q], n, ns));
                },
                None => {},
            }
        },
    }
}

} // verus!
