//! Reading and writing XML documents with the `xmltree` crate.

use crate::xml::{ElementModel, XmlElement, XmlNode};
use vstd::prelude::*;
use xmltree::{Element, XMLNode};

verus! {

/// An element of `xmltree`, with all that lies below it.
#[verifier::external_type_specification]
#[verifier::external_body]
pub struct ExElement(xmltree::Element);

/// The prefix-to-URI bindings that `xmltree` keeps with an element.
#[verifier::external_type_specification]
#[verifier::external_body]
pub struct ExNamespace(xmltree::Namespace);

/// The error of `xmltree`'s parser.
#[verifier::external_type_specification]
#[verifier::external_body]
pub struct ExParseError(xmltree::ParseError);

/// The error of `xmltree`'s writer.
#[verifier::external_type_specification]
#[verifier::external_body]
pub struct ExWriteError(xmltree::Error);

/// What an `xmltree::Element` holds: its fields, its attributes in the order
/// in which the element keeps them, and its children, each by what it holds.
pub uninterp spec fn outside_contents(e: xmltree::Element) -> ElementModel;

/// The root element that `xmltree::Element::parse` reads from `bytes`, or
/// `None` where it reports an error.
pub uninterp spec fn parsed(bytes: Seq<u8>) -> Option<ElementModel>;

/// The bytes that `xmltree::Element::write` emits for an element that holds
/// `m`, or `None` where it reports an error.
pub uninterp spec fn serialized(m: ElementModel) -> Option<Seq<u8>>;

/// Why a document could not be read or written.
#[derive(Clone, Copy, Debug, PartialEq, Eq, Structural)]
pub enum DocumentError {
    /// The bytes are not an XML document that the parser accepts.
    Unreadable,
    /// The writer refused the tree.
    Unwritable,
}

/// `Clone::clone` of the namespace bindings of an element: the copy equals
/// what it was made from.
#[verifier::external_body]
pub(crate) fn copy_namespaces(n: &Option<xmltree::Namespace>) -> (r: Option<xmltree::Namespace>)
    ensures
        r == *n,
{
    n.clone()
}

/// `xmltree::Element::parse` on a byte slice. The contract names the result:
/// the same bytes give the same element, since the attributes are kept in
/// document order. The parser underneath reports a document without a root
/// element as an error, so `parse` always finds the element it looks for.
#[verifier::external_body]
fn parse_outside(bytes: &[u8]) -> (r: Result<xmltree::Element, xmltree::ParseError>)
    ensures
        match r {
            Ok(e) => parsed(bytes@) == Some(outside_contents(e)),
            Err(_) => parsed(bytes@) is None,
        },
{
    Element::parse(bytes)
}

/// Copies an `xmltree::Element`, field by field and child by child, into the
/// library's own type. The result holds what the element holds; its
/// attribute names are distinct because the element keeps them in a map.
#[verifier::external_body]
fn from_outside(o: &xmltree::Element) -> (r: XmlElement)
    ensures
        r@ == outside_contents(*o),
        r@.well_formed(),
{
    XmlElement {
        prefix: o.prefix.clone(),
        namespace: o.namespace.clone(),
        namespaces: o.namespaces.clone(),
        name: o.name.clone(),
        attributes: o.attributes.clone().into_iter().collect(),
        children: o.children.iter().map(|c| match c {
            XMLNode::Element(e) => XmlNode::Element(from_outside(e)),
            XMLNode::Comment(s) => XmlNode::Comment(s.clone()),
            XMLNode::CData(s) => XmlNode::CData(s.clone()),
            XMLNode::Text(s) => XmlNode::Text(s.clone()),
            XMLNode::ProcessingInstruction(n, d) => XmlNode::ProcessingInstruction(n.clone(), d.clone()),
        }).collect(),
    }
}

/// Builds the `xmltree::Element` that holds what `e` holds, field by field
/// and child by child. The attributes go into the element's map in order;
/// with distinct names none replaces another.
#[verifier::external_body]
fn to_outside(e: &XmlElement) -> (r: xmltree::Element)
    requires
        e@.well_formed(),
    ensures
        outside_contents(r) == e@,
{
    let mut r = Element::new(&e.name);
    r.prefix = e.prefix.clone();
    r.namespace = e.namespace.clone();
    r.namespaces = e.namespaces.clone();
    r.attributes = e.attributes.iter().cloned().collect();
    r.children = e.children.iter().map(|c| match c {
        XmlNode::Element(x) => XMLNode::Element(to_outside(x)),
        XmlNode::Comment(s) => XMLNode::Comment(s.clone()),
        XmlNode::CData(s) => XMLNode::CData(s.clone()),
        XmlNode::Text(s) => XMLNode::Text(s.clone()),
        XmlNode::ProcessingInstruction(n, d) => XMLNode::ProcessingInstruction(n.clone(), d.clone()),
    }).collect();
    r
}

/// `xmltree::Element::write` into a fresh buffer. The contract names the
/// result: the writer is given nothing but the element, and emits its
/// attributes in the order in which the element keeps them.
#[verifier::external_body]
fn write_outside(o: &xmltree::Element) -> (r: Result<Vec<u8>, xmltree::Error>)
    ensures
        match r {
            Ok(bytes) => serialized(outside_contents(*o)) == Some(bytes@),
            Err(_) => serialized(outside_contents(*o)) is None,
        },
{
    let mut buffer: Vec<u8> = Vec::new();
    o.write(&mut buffer)?;
    Ok(buffer)
}

/// Reads the root element of an XML document.
pub fn parse_document(bytes: &[u8]) -> (r: Result<XmlElement, DocumentError>)
    ensures
        match r {
            Ok(e) => parsed(bytes@) == Some(e@) && e@.well_formed(),
            Err(err) => parsed(bytes@) is None && err == DocumentError::Unreadable,
        },
{
    match parse_outside(bytes) {
        Ok(o) => Ok(from_outside(&o)),
        Err(_) => Err(DocumentError::Unreadable),
    }
}

/// Writes `e` as the root element of a new XML document.
pub fn serialize(e: &XmlElement) -> (r: Result<Vec<u8>, DocumentError>)
    requires
        e@.well_formed(),
    ensures
        match r {
            Ok(bytes) => serialized(e@) == Some(bytes@),
            Err(err) => serialized(e@) is None && err == DocumentError::Unwritable,
        },
{
    let o = to_outside(e);
    match write_outside(&o) {
        Ok(bytes) => Ok(bytes),
        Err(_) => Err(DocumentError::Unwritable),
    }
}

} // verus!
