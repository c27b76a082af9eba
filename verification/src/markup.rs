//! The tree that a parsed fragment is held in, and its mathematical model.

use vstd::prelude::*;

verus! {

/// The model of a node: what the renderer reads of it, as plain values.
pub ghost enum Markup {
    /// A run of text.
    Text(Seq<char>),
    /// An element with its tag name, its `href` attribute and its children in
    /// document order.
    Element { name: Seq<char>, href: Option<Seq<char>>, children: Seq<Markup> },
    /// A comment, doctype or processing instruction.
    Other,
}

/// One node of a parsed fragment.
#[derive(Debug)]
pub enum Node {
    /// A run of text.
    Text(String),
    /// An element with its tag name, the value of its `href` attribute where it
    /// has one, and its children in document order.
    Element { name: String, href: Option<String>, children: Vec<Node> },
    /// A comment, doctype or processing instruction.
    Other,
}

/// The model of an optional string.
pub open spec fn opt_view(s: Option<String>) -> Option<Seq<char>> {
    match s {
        Some(t) => Some(t@),
        None => None,
    }
}

/// The model of `node`.
pub open spec fn model_of(node: Node) -> Markup
    decreases node, 0nat,
{
    match node {
        Node::Text(text) => Markup::Text(text@),
        Node::Element { name, href, children } => Markup::Element {
            name: name@,
            href: opt_view(href),
            children: models_of(children@),
        },
        Node::Other => Markup::Other,
    }
}

/// The models of `nodes`, in order.
pub open spec fn models_of(nodes: Seq<Node>) -> Seq<Markup>
    decreases nodes, nodes.len(),
{
    if nodes.len() == 0 {
        Seq::empty()
    } else {
        models_of(nodes.drop_last()).push(model_of(nodes.last()))
    }
}

impl View for Node {
    type V = Markup;

    open spec fn view(&self) -> Markup {
        model_of(*self)
    }
}

/// The models of a sequence of nodes, in order.
pub open spec fn views(nodes: Seq<Node>) -> Seq<Markup> {
    Seq::new(nodes.len(), |i: int| nodes[i]@)
}

/// The models of the nodes are the model of each, at its place.
pub proof fn lemma_models_of(nodes: Seq<Node>)
    ensures
        models_of(nodes) == views(nodes),
    decreases nodes.len(),
{
    if nodes.len() > 0 {
        lemma_models_of(nodes.drop_last());
    }
    assert(models_of(nodes) =~= views(nodes));
}

/// The model of an element holds the models of the element's children.
pub proof fn lemma_element_view(node: Node)
    requires
        node is Element,
    ensures
        node@ == (Markup::Element {
            name: node->name@,
            href: opt_view(node->href),
            children: views(node->children@),
        }),
{
    lemma_models_of(node->children@);
}

} // verus!
