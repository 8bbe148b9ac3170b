//! The element-tree model that the index parser walks.
//!
//! A parsed document is held flat: its element nodes in document order,
//! each with its depth. The subtree of a node is then the
//! contiguous run of strictly deeper nodes that follows it, which is what
//! a document-order descendant traversal yields.

use crate::text::str_eq;
use vstd::prelude::*;

verus! {

/// One element node: its depth (the count of nodes on its ancestor axis,
/// the node itself included), its local tag name, the text of its first
/// text child (empty when none), and its attributes' local names and
/// values, in document order.
#[derive(Debug, Clone)]
pub struct XmlNode {
    pub depth: usize,
    pub tag: String,
    pub text: String,
    pub attrs: Vec<(String, String)>,
}

pub ghost struct XmlNodeView {
    pub depth: nat,
    pub tag: Seq<char>,
    pub text: Seq<char>,
    pub attrs: Seq<(Seq<char>, Seq<char>)>,
}

impl View for XmlNode {
    type V = XmlNodeView;

    open spec fn view(&self) -> XmlNodeView {
        XmlNodeView {
            depth: self.depth as nat,
            tag: self.tag@,
            text: self.text@,
            attrs: self.attrs.deep_view(),
        }
    }
}

impl DeepView for XmlNode {
    type V = XmlNodeView;

    open spec fn deep_view(&self) -> XmlNodeView {
        self.view()
    }
}

/// A well-formed document reduced to its element nodes, in document order.
#[derive(Debug, Clone)]
pub struct XmlDoc {
    pub nodes: Vec<XmlNode>,
}

impl View for XmlDoc {
    type V = Seq<XmlNodeView>;

    open spec fn view(&self) -> Seq<XmlNodeView> {
        self.nodes.deep_view()
    }
}

/// What parsing a given text yields: its element nodes exactly when the
/// text is a well-formed document, the parser's diagnostic otherwise.
/// Either way the outcome is a function of the text alone; what it holds
/// on a given text is fixed by the external parser, not stated here.
pub uninterp spec fn parsed_document(text: Seq<char>) -> Result<Seq<XmlNodeView>, Seq<char>>;

/// Relies on `roxmltree::Document::parse`, which returns `Ok` exactly on a
/// well-formed XML document and reads nothing but its input, and on
/// `Node::{descendants, is_element, ancestors, tag_name, text, attributes}`
/// and `Attribute::{name, value}`: the element nodes of the parsed tree
/// come in document order, each carrying the count of nodes its
/// `ancestors` axis yields, its local tag name, the text of its first text
/// child, and its attributes' local names and values. On failure the
/// parser's diagnostic is returned as text.
#[verifier::external_body]
pub fn parse_document(text: &str) -> (r: Result<XmlDoc, String>)
    ensures
        r matches Ok(d) ==> parsed_document(text@) == (Ok::<Seq<XmlNodeView>, Seq<char>>(d@)),
        r matches Err(m) ==> parsed_document(text@) == (Err::<Seq<XmlNodeView>, Seq<char>>(m@)),
{
    match roxmltree::Document::parse(text) {
        Ok(doc) => Ok(XmlDoc {
            nodes: doc.descendants().filter(|n| n.is_element()).map(|n| XmlNode {
                depth: n.ancestors().count(),
                tag: n.tag_name().name().to_string(),
                text: n.text().unwrap_or("").to_string(),
                attrs: n.attributes().map(|a| (a.name().to_string(), a.value().to_string())).collect(),
            }).collect(),
        }),
        Err(e) => Err(e.to_string()),
    }
}

/// The value of the first attribute with the given name, as an attribute
/// lookup returns it.
pub open spec fn spec_attr(attrs: Seq<(Seq<char>, Seq<char>)>, name: Seq<char>) -> Option<
    Seq<char>,
>
    decreases attrs.len(),
{
    if attrs.len() == 0 {
        None
    } else if attrs[0].0 == name {
        Some(attrs[0].1)
    } else {
        spec_attr(attrs.drop_first(), name)
    }
}

/// The value of the first attribute with the given name, or the empty
/// string when the node has none.
pub open spec fn spec_attr_or_empty(attrs: Seq<(Seq<char>, Seq<char>)>, name: Seq<char>) -> Seq<
    char,
> {
    match spec_attr(attrs, name) {
        Some(v) => v,
        None => Seq::empty(),
    }
}

/// Where the subtree of node `i` ends, scanning from `j`: the first index
/// at or after `j` whose node is not deeper than node `i`. The subtree of
/// `i` is the run `i .. spec_subtree_end(ns, i, i + 1)`.
pub open spec fn spec_subtree_end(ns: Seq<XmlNodeView>, i: int, j: int) -> int
    decreases ns.len() - j,
{
    if j < 0 || j >= ns.len() {
        ns.len() as int
    } else if ns[j].depth <= ns[i].depth {
        j
    } else {
        spec_subtree_end(ns, i, j + 1)
    }
}

/// The first index in `j .. end` whose node bears the given tag.
pub open spec fn spec_find_tag(ns: Seq<XmlNodeView>, j: int, end: int, tag: Seq<char>) -> Option<
    int,
>
    decreases end - j,
{
    if j < 0 || j >= end || end > ns.len() {
        None
    } else if ns[j].tag == tag {
        Some(j)
    } else {
        spec_find_tag(ns, j + 1, end, tag)
    }
}

/// The text of the first node tagged `tag` among node `i` and its
/// descendants, or the empty string when there is none: what a descendant
/// search for the first matching sub-element's text yields.
pub open spec fn spec_text_of(ns: Seq<XmlNodeView>, i: int, tag: Seq<char>) -> Seq<char> {
    match spec_find_tag(ns, i, spec_subtree_end(ns, i, i + 1), tag) {
        Some(j) => ns[j].text,
        None => Seq::empty(),
    }
}

impl XmlNode {
    /// The value of this node's first attribute named `name`, if any.
    pub fn attr<'a>(&'a self, name: &str) -> (r: Option<&'a String>)
        ensures
            match r {
                Some(v) => spec_attr(self@.attrs, name@) == Some(v@),
                None => spec_attr(self@.attrs, name@) is None,
            },
    {
        let ghost all = self@.attrs;
        let mut k: usize = 0;
        proof {
            assert(all.skip(0) =~= all);
        }
        while k < self.attrs.len()
            invariant
                0 <= k <= self.attrs.len(),
                all == self@.attrs,
                spec_attr(all, name@) == spec_attr(all.skip(k as int), name@),
            decreases self.attrs.len() - k,
        {
            if str_eq(self.attrs[k].0.as_str(), name) {
                proof {
                    assert(all.skip(k as int)[0] == all[k as int]);
                }
                return Some(&self.attrs[k].1);
            }
            proof {
                assert(all.skip(k as int)[0] == all[k as int]);
                assert(all.skip(k as int).drop_first() =~= all.skip(k + 1));
            }
            k = k + 1;
        }
        proof {
            assert(all.skip(self.attrs.len() as int).len() == 0);
        }
        None
    }

    /// The value of this node's first attribute named `name`, or the empty
    /// string when there is none.
    pub fn attr_or_empty(&self, name: &str) -> (r: String)
        ensures
            r@ == spec_attr_or_empty(self@.attrs, name@),
    {
        match self.attr(name) {
            Some(v) => v.clone(),
            None => String::new(),
        }
    }
}

impl XmlDoc {
    /// Where the subtree of node `i` ends: the first index after `i` whose
    /// node is not deeper than node `i`.
    pub fn subtree_end(&self, i: usize) -> (r: usize)
        requires
            i < self@.len(),
        ensures
            r == spec_subtree_end(self@, i as int, i + 1),
            i < r <= self@.len(),
            forall|k: int| i < k < r ==> (#[trigger] self@[k]).depth > self@[i as int].depth,
    {
        let ghost ns = self@;
        let n = self.nodes.len();
        let mut j: usize = i + 1;
        while j < n && self.nodes[j].depth > self.nodes[i].depth
            invariant
                i + 1 <= j <= n,
                n == ns.len(),
                ns == self@,
                i < ns.len(),
                spec_subtree_end(ns, i as int, i + 1) == spec_subtree_end(ns, i as int, j as int),
                forall|k: int| i < k < j ==> (#[trigger] ns[k]).depth > ns[i as int].depth,
            decreases n - j,
        {
            j = j + 1;
        }
        j
    }

    /// The first index in `j .. end` whose node bears the given tag.
    pub fn find_tag(&self, j: usize, end: usize, tag: &str) -> (r: Option<usize>)
        requires
            j <= end <= self@.len(),
        ensures
            match r {
                Some(f) => {
                    &&& spec_find_tag(self@, j as int, end as int, tag@) == Some(f as int)
                    &&& j <= f < end
                    &&& self@[f as int].tag == tag@
                },
                None => spec_find_tag(self@, j as int, end as int, tag@) is None,
            },
    {
        let ghost ns = self@;
        let mut k: usize = j;
        while k < end
            invariant
                j <= k <= end <= ns.len(),
                ns == self@,
                spec_find_tag(ns, j as int, end as int, tag@) == spec_find_tag(
                    ns,
                    k as int,
                    end as int,
                    tag@,
                ),
            decreases end - k,
        {
            if str_eq(self.nodes[k].tag.as_str(), tag) {
                return Some(k);
            }
            k = k + 1;
        }
        None
    }

    /// The text of the first node tagged `tag` among node `i` and its
    /// descendants, or the empty string when there is none.
    pub fn text_of(&self, i: usize, tag: &str) -> (r: String)
        requires
            i < self@.len(),
        ensures
            r@ == spec_text_of(self@, i as int, tag@),
    {
        let end = self.subtree_end(i);
        match self.find_tag(i, end, tag) {
            Some(j) => self.nodes[j].text.clone(),
            None => String::new(),
        }
    }
}

} // verus!
