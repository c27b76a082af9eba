//! From the source of a fragment to its text: the fragment is parsed by the
//! `scraper` crate, the walk over the parsed tree is written down, the nodes
//! are built from it, and those are rendered.

use crate::entities::decoded;
use crate::lines::{all_clean, kept_lines, normalized};
use crate::markup::{views, Markup, Node};
use crate::outline::{build_forest, forest_of, is_too_deep, tokens, too_deep, Event, Token};
use crate::render::{plain_text, render_text, rendered};
use vstd::prelude::*;

verus! {

/// The walk, in document order, over the top-level nodes that the parser makes
/// of the fragment `html`. Parsing follows the HTML standard's rules for
/// fragments in a `body` context and depends on nothing but the text.
pub uninterp spec fn fragment_walk(html: Seq<char>) -> Seq<Token>;

/// The top-level nodes of the fragment `html`, each with its subtree down to
/// the depth `MAX_DEPTH`.
pub open spec fn fragment_nodes(html: Seq<char>) -> Seq<Markup> {
    forest_of(fragment_walk(html))
}

/// The final text of the fragment `html`.
pub open spec fn fragment_text(html: Seq<char>) -> Seq<char> {
    plain_text(fragment_nodes(html))
}

/// `scraper::Html::parse_fragment`, then `ego_tree`'s `NodeRef::traverse` over
/// each child of the root element, in order. Every node that the walk enters
/// gives an event of its kind: a text node with its text, an element with its
/// local name (`Element::name`) and the value of its `href` attribute
/// (`Element::attr`), any other node without anything; every node that the
/// walk leaves gives `Event::Close`. The contract gives the outcome its name:
/// the same text is always parsed to the same tree. The parser does not fail;
/// of malformed markup it makes the best tree it can.
#[verifier::external_body]
fn fragment_events(html: &str) -> (events: Vec<Event>)
    ensures
        tokens(events@) == fragment_walk(html@),
{
    let document = scraper::Html::parse_fragment(html);
    let mut events = Vec::new();
    for child in document.root_element().children() {
        for edge in child.traverse() {
            events.push(match edge {
                ego_tree::iter::Edge::Open(node) => match node.value() {
                    scraper::Node::Text(text) => Event::Text(text.text.to_string()),
                    scraper::Node::Element(element) => Event::Open { name: element.name().to_string(), href: element.attr("href").map(String::from) },
                    _ => Event::Other,
                },
                ego_tree::iter::Edge::Close(_) => Event::Close,
            });
        }
    }
    events
}

/// A parsed fragment.
#[derive(Debug)]
pub struct Fragment {
    /// The top-level nodes, each with its subtree down to the depth
    /// `MAX_DEPTH`.
    pub nodes: Vec<Node>,
    /// Whether the markup was nested deeper than `MAX_DEPTH`, so that something
    /// of it was cut off.
    pub cut_off: bool,
}

/// The fragment `html`, parsed: its top-level nodes, each with its subtree
/// down to the depth `MAX_DEPTH`, and whether anything was nested deeper and
/// is therefore cut off.
pub fn parse_fragment(html: &str) -> (fragment: Fragment)
    ensures
        views(fragment.nodes@) == fragment_nodes(html@),
        fragment.cut_off == too_deep(fragment_walk(html@)),
{
    let events = fragment_events(html);
    let cut_off = is_too_deep(&events);
    Fragment { nodes: build_forest(&events), cut_off }
}

/// The text of the fragment `html`: the fragment is parsed, its nodes are
/// rendered in document order, the entities are decoded and the lines are
/// normalized. The result is made of clean lines, or is empty where the
/// fragment holds nothing to show. Markup that is nested deeper than
/// `MAX_DEPTH` is not shown; the rest is.
pub fn render_fragment(html: &str) -> (out: String)
    ensures
        out@ == fragment_text(html@),
        all_clean(kept_lines(decoded(rendered(fragment_nodes(html@))))),
        normalized(out@) == out@,
        rendered(fragment_nodes(html@)).len() == 0 ==> out@.len() == 0,
{
    let fragment = parse_fragment(html);
    render_text(&fragment.nodes)
}

} // verus!
