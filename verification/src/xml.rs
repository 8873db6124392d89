//! Structured-tree model of a sub-document.
//!
//! A located sub-document slice is handed to an outside XML parser and comes
//! back as an [`XmlNode`] tree of plain values, which all loaders then walk
//! in verified code. Only the parsing call itself is trusted.

use vstd::prelude::*;
use crate::errors::DataError;

verus! {

/// One node of a parsed sub-document: an element with its tag, attributes in
/// document order and children in document order; a comment; a text run; or
/// any other node kind, kept only to preserve sibling positions.
#[derive(Debug)]
pub enum XmlNode {
    Element { tag: String, attrs: Vec<(String, String)>, children: Vec<XmlNode> },
    Comment { text: String },
    Text { text: String },
    Other,
}

impl XmlNode {
    pub open spec fn tag_of(self) -> Seq<char> {
        match self {
            XmlNode::Element { tag, .. } => tag@,
            _ => Seq::empty(),
        }
    }

    pub open spec fn attrs_of(self) -> Seq<(String, String)> {
        match self {
            XmlNode::Element { attrs, .. } => attrs@,
            _ => Seq::empty(),
        }
    }

    pub open spec fn children_of(self) -> Seq<XmlNode> {
        match self {
            XmlNode::Element { children, .. } => children@,
            _ => Seq::empty(),
        }
    }

    pub open spec fn is_element_named(self, name: Seq<char>) -> bool {
        self is Element && self.tag_of() == name
    }
}

/// The first value bound to `key` in an attribute list, by name.
pub open spec fn spec_attr(pairs: Seq<(String, String)>, key: Seq<char>) -> Option<String>
    decreases pairs.len(),
{
    if pairs.len() == 0 {
        None
    } else if pairs[0].0@ == key {
        Some(pairs[0].1)
    } else {
        spec_attr(pairs.drop_first(), key)
    }
}

/// Looks an attribute up by name; clones the stored value.
pub fn get_attr(n: &XmlNode, key: &String) -> (r: Option<String>)
    ensures
        r == spec_attr(n.attrs_of(), key@),
{
    match n {
        XmlNode::Element { attrs, .. } => {
            proof {
                assert(attrs@.skip(0) =~= attrs@);
            }
            let mut i: usize = 0;
            while i < attrs.len()
                invariant
                    n.attrs_of() == attrs@,
                    0 <= i <= attrs@.len(),
                    spec_attr(attrs@, key@) == spec_attr(attrs@.skip(i as int), key@),
                decreases attrs@.len() - i,
            {
                proof {
                    assert(attrs@.skip(i as int)[0] == attrs@[i as int]);
                    assert(attrs@.skip(i as int).drop_first() =~= attrs@.skip(i + 1));
                }
                if attrs[i].0 == *key {
                    return Some(attrs[i].1.clone());
                }
                i = i + 1;
            }
            None
        },
        _ => None,
    }
}

/// The first child element carrying the given tag.
pub open spec fn spec_find_child_tag(children: Seq<XmlNode>, tag: Seq<char>) -> Option<XmlNode>
    decreases children.len(),
{
    if children.len() == 0 {
        None
    } else if children[0].is_element_named(tag) {
        Some(children[0])
    } else {
        spec_find_child_tag(children.drop_first(), tag)
    }
}

/// Finds the first child element with the given tag.
pub fn find_child_tag<'a>(n: &'a XmlNode, tag: &String) -> (r: Option<&'a XmlNode>)
    ensures
        match r {
            Some(c) => spec_find_child_tag(n.children_of(), tag@) == Some(*c),
            None => spec_find_child_tag(n.children_of(), tag@) is None,
        },
{
    match n {
        XmlNode::Element { children, .. } => {
            proof {
                assert(children@.skip(0) =~= children@);
            }
            let mut i: usize = 0;
            while i < children.len()
                invariant
                    n.children_of() == children@,
                    0 <= i <= children@.len(),
                    spec_find_child_tag(children@, tag@) == spec_find_child_tag(
                        children@.skip(i as int),
                        tag@,
                    ),
                decreases children@.len() - i,
            {
                proof {
                    assert(children@.skip(i as int)[0] == children@[i as int]);
                    assert(children@.skip(i as int).drop_first() =~= children@.skip(i + 1));
                }
                let is_named = match &children[i] {
                    XmlNode::Element { tag: t, .. } => *t == *tag,
                    _ => false,
                };
                if is_named {
                    return Some(&children[i]);
                }
                i = i + 1;
            }
            None
        },
        _ => None,
    }
}

/// What the outside XML parser yields on a given character sequence:
/// the converted tree of the root element, or nothing when the text is not
/// well-formed.
pub uninterp spec fn xml_parse_of(s: Seq<char>) -> Option<XmlNode>;

/// Declares roxmltree's node type so the conversion wrapper can take it.
#[verifier::external_type_specification]
#[verifier::external_body]
pub struct ExXmlNode<'a, 'input: 'a>(roxmltree::Node<'a, 'input>);

/// Relies on roxmltree's node accessors (node kind tests, tag_name,
/// attributes, children, text): copies the parsed tree into the library's
/// model, node for node, in document order.
#[verifier::external_body]
fn convert_node(n: roxmltree::Node) -> XmlNode {
    if n.is_element() {
        XmlNode::Element {
            tag: n.tag_name().name().to_string(),
            attrs: n.attributes().map(|a| (a.name().to_string(), a.value().to_string())).collect(),
            children: n.children().map(|c| convert_node(c)).collect(),
        }
    } else if n.is_comment() {
        XmlNode::Comment { text: n.text().unwrap_or("").to_string() }
    } else if n.is_text() {
        XmlNode::Text { text: n.text().unwrap_or("").to_string() }
    } else {
        XmlNode::Other
    }
}

/// Relies on roxmltree::Document::parse: parsing is a function of the text
/// alone; on success the root element's converted tree is returned, on
/// failure the parser's diagnostic.
#[verifier::external_body]
pub fn parse_xml(v: &Vec<char>) -> (r: Result<XmlNode, String>)
    ensures
        r matches Ok(n) ==> xml_parse_of(v@) == Some(n),
        r matches Err(_) ==> xml_parse_of(v@) is None,
{
    let s: String = v.iter().collect();
    match roxmltree::Document::parse(&s) {
        Ok(doc) => Ok(convert_node(doc.root_element())),
        Err(e) => Err(format!("{}", e)),
    }
}

/// Turns a parse failure into the library's error, tagged with the origin of
/// the offending sub-document.
pub fn xml_error(origin: &String, diagnostic: String) -> (r: DataError)
    ensures
        r matches DataError::InvalidXml(o, _) && o == origin,
{
    DataError::InvalidXml(origin.clone(), diagnostic)
}

} // verus!
