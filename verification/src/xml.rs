//! XML documents as flat lists of nodes.

use crate::text::same;
use vstd::prelude::*;

verus! {

/// A node of a document.
#[derive(Debug)]
pub struct XmlNode {
    /// The position of the parent node.
    pub parent: Option<usize>,
    /// The local name, for an element.
    pub tag: Option<String>,
    /// The attributes: namespace, local name and value.
    pub attributes: Vec<(Option<String>, String, String)>,
    /// The text of the first child, for an element that starts with text.
    pub text: Option<String>,
}

/// An attribute: namespace, local name and value.
pub type AttributeView = (Option<Seq<char>>, Seq<char>, Seq<char>);

/// A node: the parent's position, the local name, the attributes and the text.
pub type NodeView = (Option<usize>, Option<Seq<char>>, Seq<AttributeView>, Option<Seq<char>>);

/// The content of an optional text.
pub open spec fn opt(s: Option<String>) -> Option<Seq<char>> {
    match s {
        Some(s) => Some(s@),
        None => None,
    }
}

impl View for XmlNode {
    type V = NodeView;

    open spec fn view(&self) -> NodeView {
        (
            self.parent,
            opt(self.tag),
            self.attributes@.map_values(
                |a: (Option<String>, String, String)| (opt(a.0), a.1@, a.2@),
            ),
            opt(self.text),
        )
    }
}

/// The content of a list of nodes.
pub open spec fn nodes_of(v: Seq<XmlNode>) -> Seq<NodeView> {
    v.map_values(|n: XmlNode| n@)
}

/// What `roxmltree::Document::parse` makes of a text: the nodes in document
/// order, or the message of its error.
pub uninterp spec fn xml_document(text: Seq<char>) -> Result<Seq<NodeView>, Seq<char>>;

/// Calls `roxmltree::Document::parse` and lists the nodes that
/// `Document::descendants` yields: of each the position of its parent, the local
/// name of an element, the attributes and what `Node::text` gives. Which
/// documents parse, and into what, is left to the crate: the result is named.
#[verifier::external_body]
pub(crate) fn parse_document(text: &str) -> (r: Result<Vec<XmlNode>, String>)
    ensures
        match xml_document(text@) {
            Ok(nodes) => r matches Ok(v) && nodes_of(v@) == nodes,
            Err(message) => r matches Err(e) && e@ == message,
        },
{
    let doc = roxmltree::Document::parse(text).map_err(|e| e.to_string())?;
    Ok(doc.descendants().map(|n| XmlNode {
        parent: n.parent().map(|p| p.id().get_usize()),
        tag: if n.is_element() { Some(n.tag_name().name().to_string()) } else { None },
        attributes: n.attributes().map(|a| (
            a.namespace().map(|s| s.to_string()), a.name().to_string(), a.value().to_string(),
        )).collect(),
        text: n.text().map(|s| s.to_string()),
    }).collect())
}

/// The value of the first attribute with a name and no namespace.
pub open spec fn attribute_of(attributes: Seq<AttributeView>, name: Seq<char>) -> Option<Seq<char>>
    decreases attributes.len(),
{
    if attributes.len() == 0 {
        None
    } else if attributes[0].0 is None && attributes[0].1 == name {
        Some(attributes[0].2)
    } else {
        attribute_of(attributes.drop_first(), name)
    }
}

/// The value of the first attribute with a name and no namespace.
pub fn attribute<'a>(node: &'a XmlNode, name: &str) -> (r: Option<&'a str>)
    ensures
        crate::project::str_of(r) == attribute_of(node@.2, name@),
{
    let mut i: usize = 0;
    let ghost all = node@.2;
    assert(all.skip(0) =~= all);
    while i < node.attributes.len()
        invariant
            i <= all.len() == node.attributes.len(),
            all == node@.2,
            attribute_of(all, name@) == attribute_of(all.skip(i as int), name@),
        decreases all.len() - i,
    {
        let a = &node.attributes[i];
        assert(all.skip(i as int)[0] == all[i as int]);
        assert(all.skip(i as int).drop_first() =~= all.skip(i + 1));
        assert(all[i as int] == (opt(a.0), a.1@, a.2@));
        if a.0.is_none() && same(a.1.as_str(), name) {
            return Some(a.2.as_str());
        }
        i = i + 1;
    }
    None
}

/// Whether a node is an element with a local name.
pub open spec fn is_element(node: NodeView, tag: Seq<char>) -> bool {
    node.1 == Some(tag)
}

/// Whether a node is an element with a local name.
pub fn has_tag_name(node: &XmlNode, tag: &str) -> (r: bool)
    ensures
        r == is_element(node@, tag@),
{
    match &node.tag {
        Some(t) => same(t.as_str(), tag),
        None => false,
    }
}

/// The position of the first child element with a local name, from a position on.
pub open spec fn child_from(nodes: Seq<NodeView>, parent: usize, tag: Seq<char>, from: int) -> Option<
    usize,
>
    decreases nodes.len() - from,
{
    if from < 0 || from >= nodes.len() {
        None
    } else if nodes[from].0 == Some(parent) && is_element(nodes[from], tag) {
        Some(from as usize)
    } else {
        child_from(nodes, parent, tag, from + 1)
    }
}

/// The position of the first child element with a local name, from a position on.
pub fn child_after(nodes: &Vec<XmlNode>, parent: usize, tag: &str, from: usize) -> (r: Option<usize>)
    ensures
        r == child_from(nodes_of(nodes@), parent, tag@, from as int),
        r matches Some(i) ==> from <= i < nodes.len(),
{
    let mut i: usize = from;
    let ghost all = nodes_of(nodes@);
    while i < nodes.len()
        invariant
            from <= i,
            all == nodes_of(nodes@),
            child_from(all, parent, tag@, from as int) == child_from(
                all,
                parent,
                tag@,
                i as int,
            ),
        decreases nodes.len() - i,
    {
        let n = &nodes[i];
        assert(all[i as int] == n@);
        if n.parent == Some(parent) && has_tag_name(n, tag) {
            return Some(i);
        }
        i = i + 1;
    }
    None
}

} // verus!
