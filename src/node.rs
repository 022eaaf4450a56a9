//! The node model: elements, leaves and lists of nodes, and their attributes.
use vstd::prelude::*;

verus! {

/// One value of an attribute.
#[derive(Clone, Debug, PartialEq, Eq)]
pub enum AttributeValue {
    /// A plain scalar value.
    Simple(String),
    /// An ordered list of style declarations, each a property and its value.
    Style(Vec<(String, String)>),
    /// A directive carried out as a call on the live node (raw-content injection).
    FunctionCall(String),
    /// An opaque token that identifies a behavior binding.
    Callback(u64),
    /// No value.
    Empty,
}

/// An attribute: an optional namespace, a name, and one or more values.
#[derive(Clone, Debug, PartialEq, Eq)]
pub struct Attribute {
    pub namespace: Option<String>,
    pub name: String,
    pub value: Vec<AttributeValue>,
}

/// The mathematical view of an attribute.
pub struct AttributeView {
    pub namespace: Option<Seq<char>>,
    pub name: Seq<char>,
    pub value: Seq<AttributeValue>,
}

impl View for Attribute {
    type V = AttributeView;

    open spec fn view(&self) -> AttributeView {
        AttributeView {
            namespace: match self.namespace {
                Some(ns) => Some(ns@),
                None => None,
            },
            name: self.name@,
            value: self.value@,
        }
    }
}

/// The view of a sequence of attributes.
pub open spec fn attrs_view(s: Seq<Attribute>) -> Seq<AttributeView> {
    s.map_values(|a: Attribute| a@)
}

/// A leaf of the tree.
#[derive(Clone, Debug, PartialEq, Eq)]
pub enum Leaf {
    /// A text node.
    Text(String),
    /// Markup inserted as it is, without escaping.
    SafeHtml(String),
    /// A comment node.
    Comment(String),
    /// A document-type declaration.
    DocType(String),
}

/// An element: a tag, an optional namespace, attributes and children.
#[derive(Debug, PartialEq, Eq)]
pub struct Element {
    pub namespace: Option<String>,
    pub tag: String,
    pub attrs: Vec<Attribute>,
    pub children: Vec<Node>,
    pub self_closing: bool,
}

/// A node of the tree.
#[derive(Debug, PartialEq, Eq)]
pub enum Node {
    Element(Element),
    Leaf(Leaf),
    /// A list of nodes with no wrapping element.
    NodeList(Vec<Node>),
    /// A fragment: a flat sequence of nodes with no wrapping element.
    Fragment(Vec<Node>),
}

/// Whether a node is a text leaf.
pub open spec fn is_text_spec(n: Node) -> bool {
    n is Leaf && n->Leaf_0 is Text
}

impl Node {
    /// Whether this node is a text leaf.
    pub fn is_text(&self) -> (r: bool)
        ensures
            r == is_text_spec(*self),
    {
        match self {
            Node::Leaf(Leaf::Text(_)) => true,
            _ => false,
        }
    }
}

} // verus!
