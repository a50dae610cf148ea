//! The document tree and its mathematical model.
//!
//! A report is held as the node list that `html_editor` works on. Contracts
//! do not speak of those nodes directly but of their model: a tree of
//! character sequences in which two nodes with the same content are equal.

use html_editor::{Doctype, Element, Node};
use vstd::prelude::*;

verus! {

/// `html_editor::Doctype`, with its variants as the crate declares them.
#[verifier::external_type_specification]
pub struct ExDoctype(Doctype);

/// `html_editor::Element`, with its three public fields.
#[verifier::external_type_specification]
pub struct ExElement(Element);

/// `html_editor::Node`, with its variants as the crate declares them.
#[verifier::external_type_specification]
pub struct ExNode(Node);

/// What a document type declaration says.
pub enum Declaration {
    Html,
    Xml { version: Seq<char>, encoding: Seq<char> },
}

/// The model of a node.
pub enum Markup {
    Element(Tag),
    Text(Seq<char>),
    Comment(Seq<char>),
    Doctype(Declaration),
}

/// The model of an element: its name, its attributes in order, and the
/// models of its children in order.
pub struct Tag {
    pub name: Seq<char>,
    pub attrs: Seq<(Seq<char>, Seq<char>)>,
    pub children: Seq<Markup>,
}

/// The attributes of an element as pairs of character sequences.
pub open spec fn attrs_model(attrs: Seq<(String, String)>) -> Seq<(Seq<char>, Seq<char>)> {
    Seq::new(attrs.len(), |i: int| (attrs[i].0@, attrs[i].1@))
}

/// The model of one node.
pub open spec fn node_model(node: Node) -> Markup
    decreases node,
{
    match node {
        Node::Element(e) => Markup::Element(
            Tag {
                name: e.name@,
                attrs: attrs_model(e.attrs@),
                children: Seq::new(
                    e.children@.len(),
                    |i: int|
                        if 0 <= i < e.children@.len() {
                            node_model(e.children@[i])
                        } else {
                            Markup::Text(Seq::empty())
                        },
                ),
            },
        ),
        Node::Text(t) => Markup::Text(t@),
        Node::Comment(c) => Markup::Comment(c@),
        Node::Doctype(Doctype::Html) => Markup::Doctype(Declaration::Html),
        Node::Doctype(Doctype::Xml { version, encoding }) => Markup::Doctype(
            Declaration::Xml { version: version@, encoding: encoding@ },
        ),
    }
}

/// The model of a list of nodes, node by node.
pub open spec fn forest_model(nodes: Seq<Node>) -> Seq<Markup> {
    Seq::new(nodes.len(), |i: int| node_model(nodes[i]))
}

/// The model of an element.
pub open spec fn element_model(e: Element) -> Tag {
    Tag { name: e.name@, attrs: attrs_model(e.attrs@), children: forest_model(e.children@) }
}

/// Pairs of texts as pairs of character sequences.
pub open spec fn pairs_model(pairs: Seq<(&str, &str)>) -> Seq<(Seq<char>, Seq<char>)> {
    Seq::new(pairs.len(), |i: int| (pairs[i].0@, pairs[i].1@))
}

/// `Node::new_element` of `html_editor`.
///
/// Trusted: the node is an element with the given name, the given
/// attributes in their order, and the given children.
pub assume_specification[ Node::new_element ](
    name: &str,
    attrs: Vec<(&str, &str)>,
    children: Vec<Node>,
) -> (node: Node)
    ensures
        node_model(node) == Markup::Element(
            Tag { name: name@, attrs: pairs_model(attrs@), children: forest_model(children@) },
        ),
;

/// The model of an element node is the model of the element in it.
pub proof fn lemma_element_node_model(e: Element)
    ensures
        node_model(Node::Element(e)) == Markup::Element(element_model(e)),
{
    assert(node_model(Node::Element(e))->Element_0.children =~= forest_model(e.children@));
}

/// The model of a list with one more node at its end.
pub proof fn lemma_forest_model_push(nodes: Seq<Node>, node: Node)
    ensures
        forest_model(nodes.push(node)) == forest_model(nodes).push(node_model(node)),
{
}

} // verus!
